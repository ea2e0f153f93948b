//! The records of a directory listing, their order, and their sort.

use vstd::prelude::*;
use crate::decimal::{decimal_digits, push_decimal};
use crate::order::{
    compare_text, lemma_lex_strict_total, lemma_text_facts, lex_lt, strict_total, text_lt, Order,
};

verus! {

/// One file: its name, full path and size in bytes.
#[derive(Debug, PartialEq, Eq, PartialOrd, Ord)]
pub struct FileEntry {
    pub name: String,
    pub path: String,
    pub size: u64,
}

/// One row of the listing: a file or a directory, with the files under it.
#[derive(Debug, PartialEq, Eq, PartialOrd, Ord)]
pub struct DirEntry {
    pub name: String,
    pub path: String,
    pub files: Vec<FileEntry>,
}

/// What a file record holds: name, path, size.
pub type FileView = (Seq<char>, Seq<char>, u64);

/// What a listing row holds: name, path, and its files.
pub type EntryView = (Seq<char>, Seq<char>, Seq<FileView>);

impl View for FileEntry {
    type V = FileView;

    open spec fn view(&self) -> FileView {
        (self.name@, self.path@, self.size)
    }
}

/// The views of a sequence of file records.
pub open spec fn files_view(files: Seq<FileEntry>) -> Seq<FileView> {
    files.map_values(|f: FileEntry| f@)
}

impl View for DirEntry {
    type V = EntryView;

    open spec fn view(&self) -> EntryView {
        (self.name@, self.path@, files_view(self.files@))
    }
}

/// The total size of a sequence of files.
pub open spec fn files_total(files: Seq<FileEntry>) -> nat
    decreases files.len(),
{
    if files.len() == 0 {
        0
    } else {
        files_total(files.drop_last()) + files.last().size as nat
    }
}

/// The total size of a sequence of files, held at `u64::MAX` where the
/// sum does not fit.
pub open spec fn capped_total(files: Seq<FileEntry>) -> u64 {
    if files_total(files) <= u64::MAX {
        files_total(files) as u64
    } else {
        u64::MAX
    }
}

impl DirEntry {
    /// The total size of the files under this entry, held at `u64::MAX`
    /// where the sum does not fit.
    pub fn size(&self) -> (total: u64)
        ensures
            total == capped_total(self.files@),
    {
        let mut total: u64 = 0;
        let mut i: usize = 0;
        while i < self.files.len()
            invariant
                i <= self.files@.len(),
                total == if files_total(self.files@.take(i as int)) <= u64::MAX {
                    files_total(self.files@.take(i as int))
                } else {
                    u64::MAX as nat
                },
            decreases self.files@.len() - i,
        {
            assert(self.files@.take(i + 1).drop_last() =~= self.files@.take(i as int));
            total = total.saturating_add(self.files[i].size);
            i = i + 1;
        }
        assert(self.files@.take(i as int) =~= self.files@);
        total
    }
}

/// One kibibyte.
pub const KIB: u64 = 1024;

/// One mebibyte.
pub const MIB: u64 = 1048576;

/// One gibibyte.
pub const GIB: u64 = 1073741824;

/// A size for people to read: the whole number of the largest unit (bytes,
/// kibibytes, mebibytes or gibibytes) of which it holds at least one, the
/// fraction dropped, followed by `b`, `kb`, `mb` or `gb`; as `100mb`.
pub open spec fn pretty_size_text(size: u64) -> Seq<char> {
    if size < KIB {
        decimal_digits(size as nat) + seq!['b']
    } else if size < MIB {
        decimal_digits((size / KIB) as nat) + seq!['k', 'b']
    } else if size < GIB {
        decimal_digits((size / MIB) as nat) + seq!['m', 'b']
    } else {
        decimal_digits((size / GIB) as nat) + seq!['g', 'b']
    }
}

/// Renders a size for people to read (see `pretty_size_text`).
pub fn pretty_size(size: u64) -> (text: String)
    ensures
        text@ == pretty_size_text(size),
{
    let mut text = String::new();
    if size < KIB {
        push_decimal(&mut text, size);
        crate::wide::push_char(&mut text, 'b');
    } else {
        let whole = if size < MIB {
            size / KIB
        } else if size < GIB {
            size / MIB
        } else {
            size / GIB
        };
        push_decimal(&mut text, whole);
        let unit = if size < MIB {
            'k'
        } else if size < GIB {
            'm'
        } else {
            'g'
        };
        crate::wide::push_char(&mut text, unit);
        crate::wide::push_char(&mut text, 'b');
    }
    assert(text@ =~= pretty_size_text(size));
    text
}

// ---------------------------------------------------------------------
// Order: fields in declaration order, strings as `str` orders them.
// ---------------------------------------------------------------------

/// The order of file records: by name, then path, then size.
pub open spec fn file_lt(a: FileView, b: FileView) -> bool {
    ||| text_lt(a.0, b.0)
    ||| a.0 == b.0 && text_lt(a.1, b.1)
    ||| a.0 == b.0 && a.1 == b.1 && a.2 < b.2
}

/// The order of file lists: lexicographic over the order of file records.
pub open spec fn files_lt(a: Seq<FileView>, b: Seq<FileView>) -> bool {
    lex_lt(a, b, |x: FileView, y: FileView| file_lt(x, y))
}

/// The order of listing rows: by name, then path, then their files.
pub open spec fn entry_lt(a: EntryView, b: EntryView) -> bool {
    ||| text_lt(a.0, b.0)
    ||| a.0 == b.0 && text_lt(a.1, b.1)
    ||| a.0 == b.0 && a.1 == b.1 && files_lt(a.2, b.2)
}

/// Rows in ascending order: no row is below one before it.
pub open spec fn entries_sorted(s: Seq<DirEntry>) -> bool {
    forall|i: int, j: int| 0 <= i < j < s.len() ==> !entry_lt(#[trigger] s[j]@, #[trigger] s[i]@)
}

proof fn lemma_file_strict_total()
    ensures
        strict_total(|a: FileView, b: FileView| file_lt(a, b)),
{
    let l = |a: FileView, b: FileView| file_lt(a, b);
    assert forall|x: FileView| !#[trigger] l(x, x) by {
        lemma_text_facts(x.0, x.0, x.0);
        lemma_text_facts(x.1, x.1, x.1);
    }
    assert forall|x: FileView, y: FileView, z: FileView| #[trigger] l(x, y) && #[trigger] l(
        y,
        z,
    ) implies l(x, z) by {
        lemma_text_facts(x.0, y.0, z.0);
        lemma_text_facts(x.1, y.1, z.1);
        lemma_text_facts(y.0, x.0, z.0);
        lemma_text_facts(y.1, x.1, z.1);
    }
    assert forall|x: FileView, y: FileView| #[trigger] l(x, y) || l(y, x) || x == y by {
        lemma_text_facts(x.0, y.0, y.0);
        lemma_text_facts(x.1, y.1, y.1);
    }
}

proof fn lemma_files_facts(x: Seq<FileView>, y: Seq<FileView>, z: Seq<FileView>)
    ensures
        !files_lt(x, x),
        files_lt(x, y) && files_lt(y, z) ==> files_lt(x, z),
        files_lt(x, y) || files_lt(y, x) || x == y,
{
    let fl = |a: FileView, b: FileView| file_lt(a, b);
    lemma_file_strict_total();
    lemma_lex_strict_total(fl);
    let l = |a: Seq<FileView>, b: Seq<FileView>| lex_lt(a, b, fl);
    assert(!l(x, x));
    assert(l(x, y) || l(y, x) || x == y);
    if l(x, y) && l(y, z) {
        assert(l(x, z));
    }
}

/// The order of listing rows is irreflexive.
pub proof fn lemma_entry_irreflexive(a: EntryView)
    ensures
        !entry_lt(a, a),
{
    lemma_text_facts(a.0, a.0, a.0);
    lemma_text_facts(a.1, a.1, a.1);
    lemma_files_facts(a.2, a.2, a.2);
}

/// The order of listing rows is transitive.
pub proof fn lemma_entry_transitive(a: EntryView, b: EntryView, c: EntryView)
    requires
        entry_lt(a, b),
        entry_lt(b, c),
    ensures
        entry_lt(a, c),
{
    lemma_text_facts(a.0, b.0, c.0);
    lemma_text_facts(a.1, b.1, c.1);
    lemma_files_facts(a.2, b.2, c.2);
}

/// Any two listing rows are ordered one way, or hold the same values.
pub proof fn lemma_entry_total(a: EntryView, b: EntryView)
    ensures
        entry_lt(a, b) || entry_lt(b, a) || a == b,
{
    lemma_text_facts(a.0, b.0, b.0);
    lemma_text_facts(a.1, b.1, b.1);
    lemma_files_facts(a.2, b.2, b.2);
}


/// Compares two file records: by name, then path, then size.
pub fn compare_files(a: &FileEntry, b: &FileEntry) -> (o: Order)
    ensures
        o is Less <==> file_lt(a@, b@),
        o is Equal <==> a@ == b@,
        o is Greater <==> file_lt(b@, a@),
{
    proof {
        lemma_text_facts(a.name@, b.name@, b.name@);
        lemma_text_facts(b.name@, a.name@, a.name@);
        lemma_text_facts(a.path@, b.path@, b.path@);
        lemma_text_facts(b.path@, a.path@, a.path@);
    }
    match compare_text(a.name.as_str(), b.name.as_str()) {
        Order::Less => Order::Less,
        Order::Greater => Order::Greater,
        Order::Equal => match compare_text(a.path.as_str(), b.path.as_str()) {
            Order::Less => Order::Less,
            Order::Greater => Order::Greater,
            Order::Equal => if a.size < b.size {
                Order::Less
            } else if b.size < a.size {
                Order::Greater
            } else {
                Order::Equal
            },
        },
    }
}

/// Compares two file lists lexicographically.
pub fn compare_file_lists(a: &Vec<FileEntry>, b: &Vec<FileEntry>) -> (o: Order)
    ensures
        o is Less <==> files_lt(files_view(a@), files_view(b@)),
        o is Equal <==> files_view(a@) == files_view(b@),
        o is Greater <==> files_lt(files_view(b@), files_view(a@)),
{
    let ghost x = files_view(a@);
    let ghost y = files_view(b@);
    let ghost fl = |p: FileView, q: FileView| file_lt(p, q);
    proof {
        lemma_files_facts(x, y, x);
        lemma_files_facts(y, x, y);
        assert(x.skip(0) =~= x);
        assert(y.skip(0) =~= y);
    }
    let mut i: usize = 0;
    while i < a.len() && i < b.len()
        invariant
            x == files_view(a@),
            y == files_view(b@),
            fl == (|p: FileView, q: FileView| file_lt(p, q)),
            i <= a@.len(),
            i <= b@.len(),
            x.take(i as int) == y.take(i as int),
            files_lt(x, y) == lex_lt(x.skip(i as int), y.skip(i as int), fl),
            files_lt(y, x) == lex_lt(y.skip(i as int), x.skip(i as int), fl),
        decreases a@.len() - i,
    {
        let o = compare_files(&a[i], &b[i]);
        assert(x.skip(i as int)[0] == a@[i as int]@);
        assert(y.skip(i as int)[0] == b@[i as int]@);
        match o {
            Order::Less => {
                return Order::Less;
            },
            Order::Greater => {
                return Order::Greater;
            },
            Order::Equal => {},
        }
        assert(x.skip(i as int).drop_first() =~= x.skip(i + 1));
        assert(y.skip(i as int).drop_first() =~= y.skip(i + 1));
        assert(x.take(i + 1) =~= x.take(i as int).push(a@[i as int]@));
        assert(y.take(i + 1) =~= y.take(i as int).push(b@[i as int]@));
        i = i + 1;
    }
    if i < b.len() {
        assert(x.skip(i as int).len() == 0);
        Order::Less
    } else if i < a.len() {
        assert(y.skip(i as int).len() == 0);
        Order::Greater
    } else {
        assert(x =~= x.take(i as int));
        assert(y =~= y.take(i as int));
        Order::Equal
    }
}

/// Compares two listing rows: by name, then path, then their files, the
/// order in which the rows are sorted.
pub fn compare_entries(a: &DirEntry, b: &DirEntry) -> (o: Order)
    ensures
        o is Less <==> entry_lt(a@, b@),
        o is Equal <==> a@ == b@,
        o is Greater <==> entry_lt(b@, a@),
{
    proof {
        lemma_text_facts(a.name@, b.name@, b.name@);
        lemma_text_facts(b.name@, a.name@, a.name@);
        lemma_text_facts(a.path@, b.path@, b.path@);
        lemma_text_facts(b.path@, a.path@, a.path@);
        lemma_files_facts(a@.2, b@.2, a@.2);
    }
    match compare_text(a.name.as_str(), b.name.as_str()) {
        Order::Less => Order::Less,
        Order::Greater => Order::Greater,
        Order::Equal => match compare_text(a.path.as_str(), b.path.as_str()) {
            Order::Less => Order::Less,
            Order::Greater => Order::Greater,
            Order::Equal => compare_file_lists(&a.files, &b.files),
        },
    }
}


/// The place at which `x` goes into the sorted rows `sorted`: after every
/// row that `x` is not below, before every row that is above `x`.
fn insertion_point(sorted: &Vec<DirEntry>, x: &DirEntry) -> (pos: usize)
    requires
        entries_sorted(sorted@),
    ensures
        pos <= sorted@.len(),
        forall|k: int| 0 <= k < pos ==> !entry_lt(x@, #[trigger] sorted@[k]@),
        forall|k: int| pos <= k < sorted@.len() ==> entry_lt(x@, #[trigger] sorted@[k]@),
{
    let mut lo: usize = 0;
    let mut hi: usize = sorted.len();
    while lo < hi
        invariant
            entries_sorted(sorted@),
            lo <= hi <= sorted@.len(),
            forall|k: int| 0 <= k < lo ==> !entry_lt(x@, #[trigger] sorted@[k]@),
            forall|k: int| hi <= k < sorted@.len() ==> entry_lt(x@, #[trigger] sorted@[k]@),
        decreases hi - lo,
    {
        let mid = lo + (hi - lo) / 2;
        let o = compare_entries(x, &sorted[mid]);
        if let Order::Less = o {
            proof {
                assert forall|k: int| mid <= k < hi implies entry_lt(x@, #[trigger] sorted@[k]@) by {
                    if k > mid {
                        assert(!entry_lt(sorted@[k]@, sorted@[mid as int]@));
                        lemma_entry_total(sorted@[mid as int]@, sorted@[k]@);
                        if entry_lt(sorted@[mid as int]@, sorted@[k]@) {
                            lemma_entry_transitive(x@, sorted@[mid as int]@, sorted@[k]@);
                        }
                    }
                }
            }
            hi = mid;
        } else {
            proof {
                assert forall|k: int| 0 <= k <= mid implies !entry_lt(x@, #[trigger] sorted@[k]@) by {
                    if k >= lo && k < mid && entry_lt(x@, sorted@[k]@) {
                        assert(!entry_lt(sorted@[mid as int]@, sorted@[k]@));
                        lemma_entry_total(sorted@[k]@, sorted@[mid as int]@);
                        if entry_lt(sorted@[k]@, sorted@[mid as int]@) {
                            lemma_entry_transitive(x@, sorted@[k]@, sorted@[mid as int]@);
                        }
                    }
                }
            }
            lo = mid + 1;
        }
    }
    lo
}

/// Sorts the rows in ascending order (see `entry_lt`), keeping every row.
pub fn sort_entries(entries: &mut Vec<DirEntry>)
    ensures
        final(entries)@.to_multiset() == old(entries)@.to_multiset(),
        entries_sorted(final(entries)@),
{
    broadcast use vstd::seq_lib::group_to_multiset_ensures;

    let ghost initial = entries@;
    let mut sorted: Vec<DirEntry> = Vec::new();
    while entries.len() > 0
        invariant
            sorted@.to_multiset().add(entries@.to_multiset()) == initial.to_multiset(),
            entries_sorted(sorted@),
        decreases entries@.len(),
    {
        let ghost before = entries@;
        let x = entries.pop().unwrap();
        proof {
            assert(before =~= entries@.push(x));
        }
        let pos = insertion_point(&sorted, &x);
        let ghost prev = sorted@;
        sorted.insert(pos, x);
        proof {
            assert forall|i: int, j: int| 0 <= i < j < sorted@.len() implies !entry_lt(
                #[trigger] sorted@[j]@,
                #[trigger] sorted@[i]@,
            ) by {
                if i == pos {
                    assert(sorted@[j]@ == prev[j - 1]@);
                    assert(entry_lt(x@, prev[j - 1]@));
                    if entry_lt(prev[j - 1]@, x@) {
                        lemma_entry_transitive(x@, prev[j - 1]@, x@);
                        lemma_entry_irreflexive(x@);
                    }
                } else if j == pos {
                    assert(sorted@[i]@ == prev[i]@);
                } else {
                    let pi = if i < pos { i } else { i - 1 };
                    let pj = if j < pos { j } else { j - 1 };
                    assert(sorted@[i] == prev[pi]);
                    assert(sorted@[j] == prev[pj]);
                }
            }
            vstd::seq_lib::to_multiset_insert(prev, pos as int, x);
            vstd::seq_lib::to_multiset_build(entries@, x);
            assert(sorted@.to_multiset() =~= prev.to_multiset().insert(x));
            assert(before.to_multiset() =~= entries@.to_multiset().insert(x));
            assert(sorted@.to_multiset().add(entries@.to_multiset()) =~= prev.to_multiset().add(
                before.to_multiset(),
            ));
        }
    }
    assert(entries@.to_multiset() =~= vstd::multiset::Multiset::empty());
    assert(sorted@.to_multiset() =~= initial.to_multiset());
    *entries = sorted;
}


/// Sorted listings that hold the same rows hold them in the same order, up
/// to rows equal in every field: what a sort gives does not depend on the
/// order the rows came in.
pub proof fn law_sorted_order_is_unique(a: Seq<DirEntry>, b: Seq<DirEntry>)
    requires
        entries_sorted(a),
        entries_sorted(b),
        a.to_multiset() == b.to_multiset(),
    ensures
        a.len() == b.len(),
        forall|i: int| 0 <= i < a.len() ==> #[trigger] a[i]@ == b[i]@,
    decreases a.len(),
{
    vstd::seq_lib::to_multiset_len(a);
    vstd::seq_lib::to_multiset_len(b);
    if a.len() > 0 {
        let x = a[0];
        vstd::seq_lib::to_multiset_contains(a, x);
        vstd::seq_lib::to_multiset_contains(b, x);
        assert(a.contains(x));
        assert(b.contains(x));
        let j = choose|j: int| 0 <= j < b.len() && b[j] == x;
        vstd::seq_lib::to_multiset_contains(a, b[0]);
        vstd::seq_lib::to_multiset_contains(b, b[0]);
        assert(b.contains(b[0]));
        assert(a.contains(b[0]));
        let k = choose|k: int| 0 <= k < a.len() && a[k] == b[0];
        lemma_entry_irreflexive(x@);
        lemma_entry_irreflexive(b[0]@);
        if k > 0 {
            assert(!entry_lt(a[k]@, a[0]@));
        }
        if j > 0 {
            assert(!entry_lt(b[j]@, b[0]@));
        }
        lemma_entry_total(x@, b[0]@);
        assert(x@ == b[0]@);
        assert forall|m: int| 0 <= m <= j implies #[trigger] b[m]@ == x@ by {
            if 0 < m < j {
                assert(!entry_lt(b[m]@, b[0]@));
                assert(!entry_lt(b[j]@, b[m]@));
                lemma_entry_total(b[m]@, x@);
            }
        }
        let a1 = a.drop_first();
        let b1 = b.remove(j);
        vstd::seq_lib::to_multiset_remove(a, 0);
        vstd::seq_lib::to_multiset_remove(b, j);
        assert(a.remove(0) =~= a1);
        assert(a1.to_multiset() =~= b1.to_multiset());
        assert forall|p: int, q: int| 0 <= p < q < a1.len() implies !entry_lt(#[trigger] a1[q]@, #[trigger] a1[p]@) by {
            assert(a1[p] == a[p + 1] && a1[q] == a[q + 1]);
        }
        assert forall|p: int, q: int| 0 <= p < q < b1.len() implies !entry_lt(#[trigger] b1[q]@, #[trigger] b1[p]@) by {
            let bp = if p < j { p } else { p + 1 };
            let bq = if q < j { q } else { q + 1 };
            assert(b1[p] == b[bp] && b1[q] == b[bq]);
        }
        law_sorted_order_is_unique(a1, b1);
        assert forall|i: int| 0 <= i < a.len() implies #[trigger] a[i]@ == b[i]@ by {
            if i > 0 {
                assert(a[i] == a1[i - 1]);
                assert(a1[i - 1]@ == b1[i - 1]@);
                if i - 1 < j {
                    assert(b1[i - 1] == b[i - 1]);
                    assert(b[i - 1]@ == x@);
                    assert(b[i]@ == x@);
                } else {
                    assert(b1[i - 1] == b[i]);
                }
            }
        }
    }
}


/// The views of a sequence of rows.
pub open spec fn entry_views(rows: Seq<DirEntry>) -> Seq<EntryView> {
    rows.map_values(|e: DirEntry| e@)
}

/// Row views in ascending order.
pub open spec fn views_sorted(v: Seq<EntryView>) -> bool {
    forall|i: int, j: int| 0 <= i < j < v.len() ==> !entry_lt(#[trigger] v[j], #[trigger] v[i])
}

/// Rows that are the same multiset have views that are the same multiset.
pub proof fn lemma_views_multiset(s: Seq<DirEntry>, t: Seq<DirEntry>)
    requires
        s.to_multiset() == t.to_multiset(),
    ensures
        entry_views(s).to_multiset() == entry_views(t).to_multiset(),
    decreases s.len(),
{
    vstd::seq_lib::to_multiset_len(s);
    vstd::seq_lib::to_multiset_len(t);
    if s.len() == 0 {
        assert(entry_views(s) =~= entry_views(t));
    } else {
        let x = s[0];
        vstd::seq_lib::to_multiset_contains(s, x);
        vstd::seq_lib::to_multiset_contains(t, x);
        assert(s.contains(x));
        let j = choose|j: int| 0 <= j < t.len() && t[j] == x;
        let s1 = s.remove(0);
        let t1 = t.remove(j);
        vstd::seq_lib::to_multiset_remove(s, 0);
        vstd::seq_lib::to_multiset_remove(t, j);
        assert(s1.to_multiset() =~= t1.to_multiset());
        lemma_views_multiset(s1, t1);
        assert(entry_views(s1).insert(0, x@) =~= entry_views(s));
        assert(entry_views(t1).insert(j, x@) =~= entry_views(t));
        vstd::seq_lib::to_multiset_insert(entry_views(s1), 0, x@);
        vstd::seq_lib::to_multiset_insert(entry_views(t1), j, x@);
    }
}

/// Sorted row views that are the same multiset are the same sequence.
proof fn lemma_sorted_views_equal(va: Seq<EntryView>, vb: Seq<EntryView>)
    requires
        views_sorted(va),
        views_sorted(vb),
        va.to_multiset() == vb.to_multiset(),
    ensures
        va == vb,
    decreases va.len(),
{
    vstd::seq_lib::to_multiset_len(va);
    vstd::seq_lib::to_multiset_len(vb);
    if va.len() == 0 {
        assert(va =~= vb);
    } else {
        let x = va[0];
        vstd::seq_lib::to_multiset_contains(va, x);
        vstd::seq_lib::to_multiset_contains(vb, x);
        assert(va.contains(x));
        let j = choose|j: int| 0 <= j < vb.len() && vb[j] == x;
        vstd::seq_lib::to_multiset_contains(va, vb[0]);
        vstd::seq_lib::to_multiset_contains(vb, vb[0]);
        assert(vb.contains(vb[0]));
        let k = choose|k: int| 0 <= k < va.len() && va[k] == vb[0];
        lemma_entry_irreflexive(x);
        lemma_entry_irreflexive(vb[0]);
        if k > 0 {
            assert(!entry_lt(va[k], va[0]));
        }
        if j > 0 {
            assert(!entry_lt(vb[j], vb[0]));
        }
        lemma_entry_total(x, vb[0]);
        assert forall|m: int| 0 <= m <= j implies #[trigger] vb[m] == x by {
            if 0 < m < j {
                assert(!entry_lt(vb[m], vb[0]));
                assert(!entry_lt(vb[j], vb[m]));
                lemma_entry_total(vb[m], x);
            }
        }
        let a1 = va.remove(0);
        let b1 = vb.remove(j);
        vstd::seq_lib::to_multiset_remove(va, 0);
        vstd::seq_lib::to_multiset_remove(vb, j);
        assert(a1.to_multiset() =~= b1.to_multiset());
        assert forall|p: int, q: int| 0 <= p < q < a1.len() implies !entry_lt(#[trigger] a1[q], #[trigger] a1[p]) by {
            assert(a1[p] == va[p + 1] && a1[q] == va[q + 1]);
        }
        assert forall|p: int, q: int| 0 <= p < q < b1.len() implies !entry_lt(#[trigger] b1[q], #[trigger] b1[p]) by {
            let bp = if p < j { p } else { p + 1 };
            let bq = if q < j { q } else { q + 1 };
            assert(b1[p] == vb[bp] && b1[q] == vb[bq]);
        }
        lemma_sorted_views_equal(a1, b1);
        assert forall|i: int| 0 <= i < va.len() implies #[trigger] va[i] == vb[i] by {
            if i > 0 {
                assert(va[i] == a1[i - 1]);
                if i - 1 < j {
                    assert(b1[i - 1] == vb[i - 1]);
                    assert(vb[i - 1] == x);
                    assert(vb[i] == x);
                } else {
                    assert(b1[i - 1] == vb[i]);
                }
            }
        }
        assert(va =~= vb);
    }
}

/// Sorted listings whose rows hold the same values, counted with
/// multiplicity, hold them in the same order.
pub proof fn law_sorted_views_unique(a: Seq<DirEntry>, b: Seq<DirEntry>)
    requires
        entries_sorted(a),
        entries_sorted(b),
        entry_views(a).to_multiset() == entry_views(b).to_multiset(),
    ensures
        a.len() == b.len(),
        forall|i: int| 0 <= i < a.len() ==> #[trigger] a[i]@ == b[i]@,
{
    let va = entry_views(a);
    let vb = entry_views(b);
    assert forall|p: int, q: int| 0 <= p < q < va.len() implies !entry_lt(#[trigger] va[q], #[trigger] va[p]) by {
        assert(!entry_lt(a[q]@, a[p]@));
    }
    assert forall|p: int, q: int| 0 <= p < q < vb.len() implies !entry_lt(#[trigger] vb[q], #[trigger] vb[p]) by {
        assert(!entry_lt(b[q]@, b[p]@));
    }
    lemma_sorted_views_equal(va, vb);
    assert forall|i: int| 0 <= i < a.len() implies #[trigger] a[i]@ == b[i]@ by {
        assert(va[i] == vb[i]);
    }
}


/// Rows are ordered by name first; rows with the same name by path; rows
/// with the same name and path by their files.
pub proof fn law_entry_order_by_fields(a: EntryView, b: EntryView)
    ensures
        text_lt(a.0, b.0) ==> entry_lt(a, b),
        text_lt(b.0, a.0) ==> !entry_lt(a, b),
        a.0 == b.0 && text_lt(a.1, b.1) ==> entry_lt(a, b),
        a.0 == b.0 && text_lt(b.1, a.1) ==> !entry_lt(a, b),
        a.0 == b.0 && a.1 == b.1 ==> (entry_lt(a, b) <==> files_lt(a.2, b.2)),
{
    lemma_text_facts(a.0, b.0, a.0);
    lemma_text_facts(a.1, b.1, a.1);
    lemma_text_facts(b.0, a.0, b.0);
    lemma_text_facts(b.1, a.1, b.1);
}

/// Files are ordered by name first; files with the same name by path;
/// files with the same name and path by size.
pub proof fn law_file_order_by_fields(a: FileView, b: FileView)
    ensures
        text_lt(a.0, b.0) ==> file_lt(a, b),
        text_lt(b.0, a.0) ==> !file_lt(a, b),
        a.0 == b.0 && text_lt(a.1, b.1) ==> file_lt(a, b),
        a.0 == b.0 && text_lt(b.1, a.1) ==> !file_lt(a, b),
        a.0 == b.0 && a.1 == b.1 ==> (file_lt(a, b) <==> a.2 < b.2),
{
    lemma_text_facts(a.0, b.0, a.0);
    lemma_text_facts(a.1, b.1, a.1);
    lemma_text_facts(b.0, a.0, b.0);
    lemma_text_facts(b.1, a.1, b.1);
}

/// File lists are ordered item by item: the first files that differ
/// decide, and a list comes before every longer list that it begins.
pub proof fn law_file_list_order(a: Seq<FileView>, b: Seq<FileView>)
    ensures
        a.len() == 0 ==> (files_lt(a, b) <==> b.len() > 0),
        b.len() == 0 ==> !files_lt(a, b),
        a.len() > 0 && b.len() > 0 && file_lt(a[0], b[0]) ==> files_lt(a, b),
        a.len() > 0 && b.len() > 0 && file_lt(b[0], a[0]) ==> !files_lt(a, b),
        a.len() > 0 && b.len() > 0 && a[0] == b[0] ==> (files_lt(a, b) <==> files_lt(
            a.drop_first(),
            b.drop_first(),
        )),
        a.len() < b.len() && a == b.take(a.len() as int) ==> files_lt(a, b),
    decreases a.len(),
{
    if a.len() > 0 && b.len() > 0 {
        lemma_file_strict_total();
        let fl = |x: FileView, y: FileView| file_lt(x, y);
        assert(!fl(a[0], a[0]));
        if fl(a[0], b[0]) && fl(b[0], a[0]) {
            assert(fl(a[0], a[0]));
        }
        if a.len() < b.len() && a == b.take(a.len() as int) {
            assert(a[0] == b[0]);
            law_file_list_order(a.drop_first(), b.drop_first());
            assert(a.drop_first() =~= b.drop_first().take(a.drop_first().len() as int));
        }
    }
}

/// The total size of two runs of files is the sum of their totals.
pub proof fn law_files_total_append(s: Seq<FileEntry>, t: Seq<FileEntry>)
    ensures
        files_total(s + t) == files_total(s) + files_total(t),
    decreases t.len(),
{
    if t.len() == 0 {
        assert(s + t =~= s);
    } else {
        assert((s + t).drop_last() =~= s + t.drop_last());
        law_files_total_append(s, t.drop_last());
    }
}

/// The total size of one file is its size, and `DirEntry::size` gives the
/// total of all files, or `u64::MAX` where the total does not fit.
pub proof fn law_size_is_capped_sum(f: FileEntry, files: Seq<FileEntry>)
    ensures
        files_total(seq![f]) == f.size,
        files_total(files) <= u64::MAX ==> capped_total(files) == files_total(files),
        files_total(files) > u64::MAX ==> capped_total(files) == u64::MAX,
{
    assert(seq![f].drop_last() =~= Seq::<FileEntry>::empty());
    assert(files_total(Seq::<FileEntry>::empty()) == 0);
    assert(seq![f].last() == f);
}


/// In sorted rows each row is below or equal to every row after it: the
/// order is ascending.
pub proof fn law_sorted_is_ascending(s: Seq<DirEntry>, i: int, j: int)
    requires
        entries_sorted(s),
        0 <= i < j < s.len(),
    ensures
        entry_lt(s[i]@, s[j]@) || s[i]@ == s[j]@,
{
    assert(!entry_lt(s[j]@, s[i]@));
    lemma_entry_total(s[i]@, s[j]@);
}

/// Sizes below 1024 are shown in bytes, and whole numbers of kibibytes,
/// mebibytes and gibibytes, from one to 1023, in those units.
pub proof fn law_pretty_size_units(k: u64)
    ensures
        k < 1024 ==> pretty_size_text(k) == decimal_digits(k as nat) + seq!['b'],
        1 <= k < 1024 ==> pretty_size_text((k * 1024) as u64) == decimal_digits(k as nat) + seq![
            'k',
            'b',
        ],
        1 <= k < 1024 ==> pretty_size_text((k * 1048576) as u64) == decimal_digits(k as nat)
            + seq!['m', 'b'],
        1 <= k < 1024 ==> pretty_size_text((k * 1073741824) as u64) == decimal_digits(k as nat)
            + seq!['g', 'b'],
{
    if 1 <= k < 1024 {
        assert((k * 1024) / 1024 == k && (k * 1048576) / 1048576 == k && (k * 1073741824)
            / 1073741824 == k) by (nonlinear_arith)
            requires
                1 <= k < 1024,
        ;
        assert(1024 <= k * 1024 < 1048576 && 1048576 <= k * 1048576 < 1073741824 && 1073741824
            <= k * 1073741824 < 1099511627776) by (nonlinear_arith)
            requires
                1 <= k < 1024,
        ;
    }
}

} // verus!
