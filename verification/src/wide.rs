//! UTF-16 ("wide") strings as the Win32 API takes and gives them.

use vstd::prelude::*;

verus! {

/// The UTF-16 code units of one scalar value.
pub open spec fn utf16_of_char(c: char) -> Seq<u16> {
    let v = c as u32;
    if v < 0x10000 {
        seq![v as u16]
    } else {
        seq![(0xD800 + (v - 0x10000) / 0x400) as u16, (0xDC00 + (v - 0x10000) % 0x400) as u16]
    }
}

/// The UTF-16 encoding of a string.
pub open spec fn utf16_encode(s: Seq<char>) -> Seq<u16>
    decreases s.len(),
{
    if s.len() == 0 {
        Seq::empty()
    } else {
        utf16_of_char(s[0]) + utf16_encode(s.drop_first())
    }
}

pub proof fn lemma_encode_push(s: Seq<char>, c: char)
    ensures
        utf16_encode(s.push(c)) == utf16_encode(s) + utf16_of_char(c),
    decreases s.len(),
{
    if s.len() == 0 {
        assert(s.push(c).drop_first() =~= s);
        assert(utf16_encode(s) =~= Seq::<u16>::empty());
    } else {
        assert(s.push(c).drop_first() =~= s.drop_first().push(c));
        lemma_encode_push(s.drop_first(), c);
    }
}

/// Encodes `text` as UTF-16 and ends it with two NUL units, as the window
/// code hands strings to the Win32 API.
pub fn to_wstring(text: &str) -> (wide: Vec<u16>)
    ensures
        wide@ == utf16_encode(text@) + seq![0u16, 0u16],
{
    broadcast use vstd::string::axiom_spec_iter;
    let mut wide: Vec<u16> = Vec::new();
    for c in it: text.chars()
        invariant
            it.seq() == text@,
            wide@ == utf16_encode(text@.take(it.index() as int)),
    {
        proof {
            assert(text@.take(it.index() + 1) =~= text@.take(it.index() as int).push(c));
            lemma_encode_push(text@.take(it.index() as int), c);
            vstd::utf8::char_is_scalar(c);
        }
        let v = c as u32;
        if v < 0x10000 {
            wide.push(v as u16);
        } else {
            let u = v - 0x10000;
            wide.push((0xD800 + u / 0x400) as u16);
            wide.push((0xDC00 + u % 0x400) as u16);
        }
    }
    assert(text@.take(text@.len() as int) =~= text@);
    wide.push(0);
    wide.push(0);
    wide
}


/// True for a UTF-16 surrogate code unit, which alone encodes no character.
pub open spec fn is_surrogate(u: u16) -> bool {
    0xD800 <= u <= 0xDFFF
}

/// True for the first unit of a surrogate pair.
pub open spec fn is_high_surrogate(u: u16) -> bool {
    0xD800 <= u <= 0xDBFF
}

/// True for the second unit of a surrogate pair.
pub open spec fn is_low_surrogate(u: u16) -> bool {
    0xDC00 <= u <= 0xDFFF
}

/// The scalar value that a surrogate pair encodes.
pub open spec fn pair_scalar(high: u16, low: u16) -> u32 {
    (0x10000 + (high - 0xD800) * 0x400 + (low - 0xDC00)) as u32
}

/// `head` followed by the decoded rest, or `None` where the rest fails.
pub open spec fn prepend(head: Seq<char>, rest: Option<Seq<char>>) -> Option<Seq<char>> {
    match rest {
        Some(t) => Some(head + t),
        None => None,
    }
}

/// The string that a sequence of UTF-16 units encodes, or `None` where it
/// holds an unpaired surrogate.
pub open spec fn utf16_decode(w: Seq<u16>) -> Option<Seq<char>>
    decreases w.len(),
{
    if w.len() == 0 {
        Some(Seq::empty())
    } else if !is_surrogate(w[0]) {
        prepend(seq![(w[0] as u32) as char], utf16_decode(w.drop_first()))
    } else if is_high_surrogate(w[0]) && w.len() >= 2 && is_low_surrogate(w[1]) {
        prepend(seq![pair_scalar(w[0], w[1]) as char], utf16_decode(w.subrange(2, w.len() as int)))
    } else {
        None
    }
}

/// The units of a NUL-terminated wide buffer before its first NUL (all of
/// them where it holds none).
pub open spec fn wide_text(w: Seq<u16>) -> Seq<u16>
    decreases w.len(),
{
    if w.len() == 0 || w[0] == 0 {
        Seq::empty()
    } else {
        seq![w[0]] + wide_text(w.drop_first())
    }
}

proof fn lemma_wide_text_take(w: Seq<u16>, n: int)
    requires
        0 <= n <= w.len(),
        forall|j: int| 0 <= j < n ==> w[j] != 0,
        n == w.len() || w[n] == 0,
    ensures
        wide_text(w) =~= w.take(n),
    decreases w.len(),
{
    if n > 0 {
        lemma_wide_text_take(w.drop_first(), n - 1);
        assert(w.take(n) =~= seq![w[0]] + w.drop_first().take(n - 1));
    }
}

/// `char::from_u32`: the character whose scalar value is `v`, or `None`
/// where `v` is no scalar value (a surrogate or above 0x10FFFF).
#[verifier::external_body]
fn scalar_to_char(v: u32) -> (r: Option<char>)
    ensures
        r is Some <==> vstd::utf8::is_scalar(v),
        r matches Some(c) ==> c as u32 == v,
{
    char::from_u32(v)
}

/// `String::push`: appends one character.
#[verifier::external_body]
pub(crate) fn push_char(text: &mut String, c: char)
    ensures
        final(text)@ == old(text)@.push(c),
{
    text.push(c)
}

/// Decodes the UTF-16 text before the first NUL of `wide`; `None` where it
/// holds an unpaired surrogate.
pub fn decode_wide(wide: &Vec<u16>) -> (text: Option<String>)
    ensures
        text is Some <==> utf16_decode(wide_text(wide@)) is Some,
        text matches Some(t) ==> Some(t@) == utf16_decode(wide_text(wide@)),
{
    let mut n: usize = 0;
    while n < wide.len() && wide[n] != 0
        invariant
            n <= wide.len(),
            forall|j: int| 0 <= j < n ==> wide@[j] != 0,
        decreases wide.len() - n,
    {
        n = n + 1;
    }
    proof {
        lemma_wide_text_take(wide@, n as int);
    }
    let ghost units = wide@.take(n as int);
    let mut text = String::new();
    let mut i: usize = 0;
    assert(units.skip(0) =~= units);
    assert(Seq::<char>::empty() + utf16_decode(units).unwrap_or(Seq::empty()) =~= utf16_decode(units).unwrap_or(Seq::empty()));
    while i < n
        invariant
            n <= wide.len(),
            units == wide@.take(n as int),
            units == wide_text(wide@),
            i <= n,
            utf16_decode(units) == prepend(text@, utf16_decode(units.skip(i as int))),
        decreases n - i,
    {
        let u = wide[i];
        assert(units.skip(i as int)[0] == u);
        if u < 0xD800 || u > 0xDFFF {
            let v = u as u32;
            assert(vstd::utf8::is_scalar(v));
            let c = match scalar_to_char(v) {
                Some(c) => c,
                None => return None,
            };
            proof {
                vstd::utf8::char_u32_cast(c, v);
                assert(units.skip(i as int).drop_first() =~= units.skip(i + 1));
                assert(text@.push(c) =~= text@ + seq![c]);
                match utf16_decode(units.skip(i + 1)) {
                    Some(t) => { assert(text@ + (seq![c] + t) =~= text@.push(c) + t); },
                    None => {},
                }
            }
            push_char(&mut text, c);
            i = i + 1;
        } else if u <= 0xDBFF && i + 1 < n && 0xDC00 <= wide[i + 1] && wide[i + 1] <= 0xDFFF {
            let low = wide[i + 1];
            assert(units.skip(i as int)[1] == low);
            let v: u32 = 0x10000 + ((u - 0xD800) as u32) * 0x400 + ((low - 0xDC00) as u32);
            assert(v == pair_scalar(u, low));
            assert(vstd::utf8::is_scalar(v));
            let c = match scalar_to_char(v) {
                Some(c) => c,
                None => return None,
            };
            proof {
                vstd::utf8::char_u32_cast(c, v);
                assert(units.skip(i as int).subrange(2, units.skip(i as int).len() as int) =~= units.skip(i + 2));
                assert(text@.push(c) =~= text@ + seq![c]);
                match utf16_decode(units.skip(i + 2)) {
                    Some(t) => { assert(text@ + (seq![c] + t) =~= text@.push(c) + t); },
                    None => {},
                }
            }
            push_char(&mut text, c);
            i = i + 2;
        } else {
            proof {
                assert(units.skip(i as int).len() == n - i);
                if i + 1 < n {
                    assert(units.skip(i as int)[1] == wide@[i + 1]);
                }
                assert(utf16_decode(units.skip(i as int)) is None);
            }
            return None;
        }
    }
    proof {
        assert(units.skip(n as int) =~= Seq::<u16>::empty());
        assert(text@ + Seq::<char>::empty() =~= text@);
    }
    Some(text)
}

/// Decodes the UTF-16 text before the first NUL of `wide`.
pub fn to_string(wide: &Vec<u16>) -> (text: String)
    requires
        utf16_decode(wide_text(wide@)) is Some,
    ensures
        Some(text@) == utf16_decode(wide_text(wide@)),
{
    match decode_wide(wide) {
        Some(text) => text,
        None => String::new(),
    }
}


proof fn lemma_decode_char(c: char, rest: Seq<u16>)
    ensures
        utf16_decode(utf16_of_char(c) + rest) == prepend(seq![c], utf16_decode(rest)),
{
    let v = c as u32;
    vstd::utf8::char_is_scalar(c);
    vstd::utf8::char_u32_cast(c, v);
    let w = utf16_of_char(c) + rest;
    if v < 0x10000 {
        assert(w.drop_first() =~= rest);
        assert(w[0] as u32 == v);
    } else {
        let u = v - 0x10000;
        assert(u / 0x400 * 0x400 + u % 0x400 == u) by (nonlinear_arith);
        assert(0 <= u / 0x400 < 0x400) by (nonlinear_arith)
            requires
                0 <= u <= 0xFFFFF,
        ;
        assert(w.subrange(2, w.len() as int) =~= rest);
        assert(pair_scalar(w[0], w[1]) == v);
    }
}

/// Encoding then decoding gives back the string.
pub proof fn law_decode_of_encode(s: Seq<char>)
    ensures
        utf16_decode(utf16_encode(s)) == Some(s),
    decreases s.len(),
{
    if s.len() == 0 {
    } else {
        law_decode_of_encode(s.drop_first());
        lemma_decode_char(s[0], utf16_encode(s.drop_first()));
        assert(seq![s[0]] + s.drop_first() =~= s);
    }
}

/// Decoding then encoding gives back the units: UTF-16 that decodes has
/// exactly one reading.
pub proof fn law_encode_of_decode(w: Seq<u16>)
    requires
        utf16_decode(w) is Some,
    ensures
        utf16_encode(utf16_decode(w)->0) == w,
    decreases w.len(),
{
    if w.len() > 0 {
        let t = utf16_decode(w)->0;
        if !is_surrogate(w[0]) {
            let v = w[0] as u32;
            assert(vstd::utf8::is_scalar(v));
            let c = v as char;
            assert(c as u32 == v);
            let rest = w.drop_first();
            law_encode_of_decode(rest);
            assert(t[0] == c);
            assert(t.drop_first() =~= utf16_decode(rest)->0);
            assert(utf16_of_char(c) =~= seq![w[0]]);
            assert(w =~= seq![w[0]] + rest);
        } else {
            let v = pair_scalar(w[0], w[1]);
            let hi = w[0] - 0xD800;
            let lo = w[1] - 0xDC00;
            assert(0 <= hi < 0x400 && 0 <= lo < 0x400);
            assert((hi * 0x400 + lo) / 0x400 == hi && (hi * 0x400 + lo) % 0x400 == lo) by (nonlinear_arith)
                requires
                    0 <= hi < 0x400,
                    0 <= lo < 0x400,
            ;
            assert(0 <= hi * 0x400 + lo <= 0xFFFFF) by (nonlinear_arith)
                requires
                    0 <= hi < 0x400,
                    0 <= lo < 0x400,
            ;
            assert(v == 0x10000 + hi * 0x400 + lo);
            assert(vstd::utf8::is_scalar(v));
            let c = v as char;
            assert(c as u32 == v);
            let rest = w.subrange(2, w.len() as int);
            law_encode_of_decode(rest);
            assert(t[0] == c);
            assert(t.drop_first() =~= utf16_decode(rest)->0);
            assert(utf16_of_char(c) =~= seq![w[0], w[1]]);
            assert(w =~= seq![w[0], w[1]] + rest);
        }
    }
}

/// A string without NUL encodes to units without NUL.
pub proof fn lemma_encode_nul_free(s: Seq<char>)
    requires
        forall|i: int| 0 <= i < s.len() ==> s[i] != '\0',
    ensures
        forall|j: int| 0 <= j < utf16_encode(s).len() ==> utf16_encode(s)[j] != 0,
    decreases s.len(),
{
    if s.len() > 0 {
        lemma_encode_nul_free(s.drop_first());
        let head = utf16_of_char(s[0]);
        let tail = utf16_encode(s.drop_first());
        vstd::utf8::char_is_scalar(s[0]);
        vstd::utf8::char_u32_cast(s[0], s[0] as u32);
        vstd::utf8::char_u32_cast('\0', '\0' as u32);
        assert('\0' as u32 == 0);
        assert(s[0] as u32 != 0);
        assert forall|j: int| 0 <= j < utf16_encode(s).len() implies utf16_encode(s)[j] != 0 by {
            if j >= head.len() {
                assert(utf16_encode(s)[j] == tail[j - head.len()]);
            }
        }
    }
}

/// What `to_wstring` writes, `to_string` reads back: a string without NUL
/// survives the trip through a NUL-terminated wide buffer.
pub proof fn law_wide_round_trip(s: Seq<char>)
    requires
        forall|i: int| 0 <= i < s.len() ==> s[i] != '\0',
    ensures
        wide_text(utf16_encode(s) + seq![0u16, 0u16]) == utf16_encode(s),
        utf16_decode(wide_text(utf16_encode(s) + seq![0u16, 0u16])) == Some(s),
{
    let e = utf16_encode(s);
    let w = e + seq![0u16, 0u16];
    lemma_encode_nul_free(s);
    lemma_wide_text_take(w, e.len() as int);
    assert(w.take(e.len() as int) =~= e);
    law_decode_of_encode(s);
}


/// One character is one unit, its own value, below 0x10000; above, it is a
/// high surrogate then a low surrogate that together give its value back.
pub proof fn law_utf16_units(c: char)
    ensures
        (c as u32) < 0x10000 ==> utf16_encode(seq![c]) == seq![c as u32 as u16],
        (c as u32) >= 0x10000 ==> {
            let w = utf16_encode(seq![c]);
            &&& w.len() == 2
            &&& 0xD800 <= w[0] <= 0xDBFF
            &&& 0xDC00 <= w[1] <= 0xDFFF
            &&& 0x10000 + (w[0] - 0xD800) * 0x400 + (w[1] - 0xDC00) == c as u32
        },
{
    assert(seq![c].drop_first() =~= Seq::<char>::empty());
    assert(utf16_encode(Seq::<char>::empty()) =~= Seq::<u16>::empty());
    assert(utf16_encode(seq![c]) =~= utf16_of_char(c));
    vstd::utf8::char_is_scalar(c);
    let v = c as u32;
    if v >= 0x10000 {
        let u = v - 0x10000;
        assert(0 <= u <= 0xFFFFF);
        assert(u / 0x400 * 0x400 + u % 0x400 == u && 0 <= u / 0x400 < 0x400 && 0 <= u % 0x400 < 0x400) by (nonlinear_arith)
            requires
                0 <= u <= 0xFFFFF,
        ;
    }
}

/// The encoding of two strings one after the other is their encodings one
/// after the other.
pub proof fn law_encode_append(s: Seq<char>, t: Seq<char>)
    ensures
        utf16_encode(s + t) == utf16_encode(s) + utf16_encode(t),
    decreases s.len(),
{
    if s.len() == 0 {
        assert(s + t =~= t);
        assert(utf16_encode(s) + utf16_encode(t) =~= utf16_encode(t));
    } else {
        assert((s + t).drop_first() =~= s.drop_first() + t);
        law_encode_append(s.drop_first(), t);
        assert(utf16_encode(s + t) =~= utf16_encode(s) + utf16_encode(t));
    }
}

/// The text of a wide buffer is the run of units before its first NUL: it
/// begins the buffer, holds no NUL, and is the whole buffer or is followed
/// by a NUL.
pub proof fn law_wide_text_prefix(w: Seq<u16>)
    ensures
        wide_text(w).len() <= w.len(),
        wide_text(w) == w.take(wide_text(w).len() as int),
        forall|i: int| 0 <= i < wide_text(w).len() ==> wide_text(w)[i] != 0,
        wide_text(w).len() == w.len() || w[wide_text(w).len() as int] == 0,
    decreases w.len(),
{
    if w.len() > 0 && w[0] != 0 {
        let r = w.drop_first();
        law_wide_text_prefix(r);
        let t = wide_text(w);
        assert(t == seq![w[0]] + wide_text(r));
        assert(t =~= w.take(t.len() as int));
        assert forall|i: int| 0 <= i < t.len() implies t[i] != 0 by {
            if i > 0 {
                assert(t[i] == wide_text(r)[i - 1]);
            }
        }
        if t.len() < w.len() {
            assert(w[t.len() as int] == r[wide_text(r).len() as int]);
        }
    }
}

} // verus!
