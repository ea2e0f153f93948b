//! Lexicographic order: of byte strings (the order of `str`), and of any
//! sequence whose items are strictly and totally ordered.

use vstd::prelude::*;
use vstd::utf8::encode_utf8;

verus! {

/// The outcome of a three-way comparison.
#[derive(Clone, Copy, Debug, PartialEq, Eq, Structural)]
pub enum Order {
    Less,
    Equal,
    Greater,
}

/// `lt` is a strict total order: irreflexive, transitive, and any two
/// distinct values are related one way.
pub open spec fn strict_total<T>(lt: spec_fn(T, T) -> bool) -> bool {
    &&& forall|x: T| !#[trigger] lt(x, x)
    &&& forall|x: T, y: T, z: T| #[trigger] lt(x, y) && #[trigger] lt(y, z) ==> lt(x, z)
    &&& forall|x: T, y: T| #[trigger] lt(x, y) || lt(y, x) || x == y
}

/// Lexicographic order of two sequences under an order of their items: the
/// first differing item decides, and a proper prefix comes first.
pub open spec fn lex_lt<T>(a: Seq<T>, b: Seq<T>, lt: spec_fn(T, T) -> bool) -> bool
    decreases a.len(),
{
    if a.len() == 0 {
        b.len() > 0
    } else if b.len() == 0 {
        false
    } else if lt(a[0], b[0]) {
        true
    } else if a[0] != b[0] {
        false
    } else {
        lex_lt(a.drop_first(), b.drop_first(), lt)
    }
}

proof fn lemma_lex_irreflexive<T>(a: Seq<T>, lt: spec_fn(T, T) -> bool)
    requires
        strict_total(lt),
    ensures
        !lex_lt(a, a, lt),
    decreases a.len(),
{
    if a.len() > 0 {
        assert(!lt(a[0], a[0]));
        lemma_lex_irreflexive(a.drop_first(), lt);
    }
}

proof fn lemma_lex_transitive<T>(a: Seq<T>, b: Seq<T>, c: Seq<T>, lt: spec_fn(T, T) -> bool)
    requires
        strict_total(lt),
        lex_lt(a, b, lt),
        lex_lt(b, c, lt),
    ensures
        lex_lt(a, c, lt),
    decreases a.len(),
{
    if a.len() > 0 {
        assert(b.len() > 0 && c.len() > 0);
        if lt(a[0], b[0]) {
            if lt(b[0], c[0]) {
                assert(lt(a[0], c[0]));
            } else {
                assert(b[0] == c[0]);
            }
        } else {
            assert(a[0] == b[0]);
            if !lt(b[0], c[0]) {
                assert(b[0] == c[0]);
                lemma_lex_transitive(a.drop_first(), b.drop_first(), c.drop_first(), lt);
            }
        }
    }
}

proof fn lemma_lex_total<T>(a: Seq<T>, b: Seq<T>, lt: spec_fn(T, T) -> bool)
    requires
        strict_total(lt),
    ensures
        lex_lt(a, b, lt) || lex_lt(b, a, lt) || a == b,
    decreases a.len(),
{
    if a.len() > 0 && b.len() > 0 {
        assert(lt(a[0], b[0]) || lt(b[0], a[0]) || a[0] == b[0]);
        if a[0] == b[0] {
            lemma_lex_total(a.drop_first(), b.drop_first(), lt);
            if a.drop_first() == b.drop_first() {
                assert(a =~= seq![a[0]] + a.drop_first());
                assert(b =~= seq![b[0]] + b.drop_first());
            }
        }
    } else if a.len() == 0 && b.len() == 0 {
        assert(a =~= b);
    }
}

/// The lexicographic order over a strict total order is a strict total order.
pub proof fn lemma_lex_strict_total<T>(lt: spec_fn(T, T) -> bool)
    requires
        strict_total(lt),
    ensures
        strict_total(|a: Seq<T>, b: Seq<T>| lex_lt(a, b, lt)),
{
    let l = |a: Seq<T>, b: Seq<T>| lex_lt(a, b, lt);
    assert forall|x: Seq<T>| !#[trigger] l(x, x) by {
        lemma_lex_irreflexive(x, lt);
    }
    assert forall|x: Seq<T>, y: Seq<T>, z: Seq<T>| #[trigger] l(x, y) && #[trigger] l(y, z) implies l(
        x,
        z,
    ) by {
        lemma_lex_transitive(x, y, z, lt);
    }
    assert forall|x: Seq<T>, y: Seq<T>| #[trigger] l(x, y) || l(y, x) || x == y by {
        lemma_lex_total(x, y, lt);
    }
}

/// Byte strings in lexicographic order of unsigned bytes.
pub open spec fn bytes_lt(a: Seq<u8>, b: Seq<u8>) -> bool {
    lex_lt(a, b, |x: u8, y: u8| x < y)
}

/// The order of `str`: its UTF-8 bytes in lexicographic order.
pub open spec fn text_lt(a: Seq<char>, b: Seq<char>) -> bool {
    bytes_lt(encode_utf8(a), encode_utf8(b))
}

/// Byte order is a strict total order.
pub proof fn lemma_bytes_strict_total()
    ensures
        strict_total(|a: Seq<u8>, b: Seq<u8>| bytes_lt(a, b)),
{
    let lt = |x: u8, y: u8| x < y;
    assert(strict_total(lt));
    lemma_lex_strict_total(lt);
    let l1 = |a: Seq<u8>, b: Seq<u8>| lex_lt(a, b, lt);
    let l2 = |a: Seq<u8>, b: Seq<u8>| bytes_lt(a, b);
    assert(l1 =~= l2);
}

/// The order of `str` is a strict total order on strings.
pub proof fn lemma_text_strict_total()
    ensures
        strict_total(|a: Seq<char>, b: Seq<char>| text_lt(a, b)),
{
    lemma_bytes_strict_total();
    let l = |a: Seq<char>, b: Seq<char>| text_lt(a, b);
    assert forall|x: Seq<char>, y: Seq<char>| #[trigger] l(x, y) || l(y, x) || x == y by {
        let bl = |a: Seq<u8>, b: Seq<u8>| bytes_lt(a, b);
        assert(bl(encode_utf8(x), encode_utf8(y)) || bl(encode_utf8(y), encode_utf8(x))
            || encode_utf8(x) == encode_utf8(y));
        vstd::utf8::encode_utf8_decode_utf8(x);
        vstd::utf8::encode_utf8_decode_utf8(y);
    }
    assert forall|x: Seq<char>, y: Seq<char>, z: Seq<char>| #[trigger] l(x, y) && #[trigger] l(
        y,
        z,
    ) implies l(x, z) by {
        let bl = |a: Seq<u8>, b: Seq<u8>| bytes_lt(a, b);
        assert(bl(encode_utf8(x), encode_utf8(y)) && bl(encode_utf8(y), encode_utf8(z)));
    }
    assert forall|x: Seq<char>| !#[trigger] l(x, x) by {
        let bl = |a: Seq<u8>, b: Seq<u8>| bytes_lt(a, b);
        assert(!bl(encode_utf8(x), encode_utf8(x)));
    }
}

/// Byte strings are ordered byte by byte: the first bytes that differ
/// decide, the smaller byte first, and a string comes before every longer
/// string that it begins.
pub proof fn law_bytes_order(a: Seq<u8>, b: Seq<u8>, i: int)
    ensures
        0 <= i < a.len() && i < b.len() && a.take(i) == b.take(i) && a[i] < b[i] ==> bytes_lt(a, b),
        0 <= i < a.len() && i < b.len() && a.take(i) == b.take(i) && a[i] > b[i] ==> !bytes_lt(a, b),
        a.len() < b.len() && a == b.take(a.len() as int) ==> bytes_lt(a, b),
        b.len() <= a.len() && b == a.take(b.len() as int) ==> !bytes_lt(a, b),
    decreases a.len(),
{
    if a.len() > 0 && b.len() > 0 {
        let a1 = a.drop_first();
        let b1 = b.drop_first();
        if 0 < i && i < a.len() && i < b.len() && a.take(i) == b.take(i) {
            assert(a.take(i)[0] == b.take(i)[0]);
            assert(a1.take(i - 1) =~= a.take(i).drop_first());
            assert(b1.take(i - 1) =~= b.take(i).drop_first());
            law_bytes_order(a1, b1, i - 1);
        }
        if a.len() < b.len() && a == b.take(a.len() as int) {
            assert(a[0] == b[0]);
            assert(a1 =~= b1.take(a1.len() as int));
            law_bytes_order(a1, b1, -1);
        }
        if b.len() <= a.len() && b == a.take(b.len() as int) {
            assert(a[0] == b[0]);
            assert(b1 =~= a1.take(b1.len() as int));
            law_bytes_order(a1, b1, -1);
        }
    }
}

/// The order of `str`, instance by instance: irreflexive, transitive, total.
pub proof fn lemma_text_facts(x: Seq<char>, y: Seq<char>, z: Seq<char>)
    ensures
        !text_lt(x, x),
        text_lt(x, y) && text_lt(y, z) ==> text_lt(x, z),
        text_lt(x, y) || text_lt(y, x) || x == y,
{
    lemma_text_strict_total();
    let l = |a: Seq<char>, b: Seq<char>| text_lt(a, b);
    assert(!l(x, x));
    assert(l(x, y) || l(y, x) || x == y);
    if l(x, y) && l(y, z) {
        assert(l(x, z));
    }
}

/// Compares two strings as `str` orders them, byte by byte.
pub fn compare_text(a: &str, b: &str) -> (o: Order)
    ensures
        o is Less <==> text_lt(a@, b@),
        o is Equal <==> a@ == b@,
        o is Greater <==> text_lt(b@, a@),
{
    let x = a.as_bytes();
    let y = b.as_bytes();
    let ghost lt = |p: u8, q: u8| p < q;
    proof {
        lemma_text_strict_total();
        let l = |p: Seq<char>, q: Seq<char>| text_lt(p, q);
        assert(l(a@, b@) || l(b@, a@) || a@ == b@);
        assert(!l(a@, a@));
        if l(a@, b@) && l(b@, a@) {
            assert(l(a@, a@));
        }
        assert(x@.skip(0) =~= x@);
        assert(y@.skip(0) =~= y@);
    }
    let mut i: usize = 0;
    while i < x.len() && i < y.len()
        invariant
            x@ == encode_utf8(a@),
            y@ == encode_utf8(b@),
            i <= x@.len(),
            i <= y@.len(),
            x@.take(i as int) == y@.take(i as int),
            bytes_lt(x@, y@) == bytes_lt(x@.skip(i as int), y@.skip(i as int)),
            bytes_lt(y@, x@) == bytes_lt(y@.skip(i as int), x@.skip(i as int)),
        decreases x@.len() - i,
    {
        let p = x[i];
        let q = y[i];
        assert(x@.skip(i as int)[0] == p);
        assert(y@.skip(i as int)[0] == q);
        if p < q {
            return Order::Less;
        }
        if q < p {
            return Order::Greater;
        }
        assert(x@.skip(i as int).drop_first() =~= x@.skip(i + 1));
        assert(y@.skip(i as int).drop_first() =~= y@.skip(i + 1));
        assert(x@.take(i + 1) =~= x@.take(i as int).push(p));
        assert(y@.take(i + 1) =~= y@.take(i as int).push(q));
        i = i + 1;
    }
    if i < y.len() {
        assert(x@.skip(i as int).len() == 0);
        Order::Less
    } else if i < x.len() {
        assert(y@.skip(i as int).len() == 0);
        Order::Greater
    } else {
        assert(x@ =~= x@.take(i as int));
        assert(y@ =~= y@.take(i as int));
        proof {
            vstd::utf8::encode_utf8_decode_utf8(a@);
            vstd::utf8::encode_utf8_decode_utf8(b@);
        }
        Order::Equal
    }
}

} // verus!
