//! Building the listing: rows from what a directory scan found, the path to
//! ask for a file's size, and the generated sample listing.

use vstd::prelude::*;
use vstd::utf8::encode_utf8;
use crate::decimal::{decimal_digits, push_decimal};
use crate::lens::{
    entries_sorted, entry_views, files_view, law_sorted_views_unique, lemma_views_multiset,
    sort_entries, DirEntry, EntryView, FileEntry,
};

verus! {

/// Paths of at least this many bytes are asked for with the `\\?\`-style
/// prefix `\??\`, which lifts the Win32 path length limit.
pub const LONG_PATH_BYTES: usize = 260;

/// The path under which the size of the file at `path` is asked for:
/// `path` itself, or, where it holds `LONG_PATH_BYTES` bytes or more,
/// `path` behind the prefix `\??\`.
pub fn metadata_path(path: &str) -> (query: String)
    ensures
        encode_utf8(path@).len() >= LONG_PATH_BYTES ==> query@ == seq!['\\', '?', '?', '\\'] + path@,
        encode_utf8(path@).len() < LONG_PATH_BYTES ==> query@ == path@,
        encode_utf8(path@).len() >= 260 ==> query@ == seq!['\\', '?', '?', '\\'] + path@,
        encode_utf8(path@).len() < 260 ==> query@ == path@,
{
    if path.as_bytes().len() >= LONG_PATH_BYTES {
        let mut query = String::new();
        crate::wide::push_char(&mut query, '\\');
        crate::wide::push_char(&mut query, '?');
        crate::wide::push_char(&mut query, '?');
        crate::wide::push_char(&mut query, '\\');
        push_str(&mut query, path);
        assert(query@ =~= seq!['\\', '?', '?', '\\'] + path@);
        query
    } else {
        path.to_owned()
    }
}

/// Appends the characters of `tail` to `text`.
fn push_str(text: &mut String, tail: &str)
    ensures
        final(text)@ == old(text)@ + tail@,
{
    broadcast use vstd::string::axiom_spec_iter;

    let ghost start = text@;
    for c in it: tail.chars()
        invariant
            it.seq() == tail@,
            text@ == start + tail@.take(it.index() as int),
    {
        assert(tail@.take(it.index() + 1) =~= tail@.take(it.index() as int).push(c));
        crate::wide::push_char(text, c);
        assert(text@ =~= start + tail@.take(it.index() + 1));
    }
    assert(tail@.take(tail@.len() as int) =~= tail@);
}

/// One thing that a scan of a directory found at its top level.
#[derive(Debug)]
pub enum ScanItem {
    /// A file, with its size.
    File { name: String, path: String, size: u64 },
    /// A directory, with the files found anywhere below it.
    Dir { name: String, path: String, files: Vec<FileEntry> },
    /// Neither a file nor a directory.
    Other,
}

/// The row that a scanned item gives, if any: a file is a row of its own
/// that lists itself; a directory lists the files under it.
pub open spec fn scan_row(item: ScanItem) -> Option<EntryView> {
    match item {
        ScanItem::File { name, path, size } => Some(
            (name@, path@, seq![(name@, path@, size)]),
        ),
        ScanItem::Dir { name, path, files } => Some((name@, path@, files_view(files@))),
        ScanItem::Other => None,
    }
}

/// The rows of a scan, in the order in which the items were found.
pub open spec fn scan_rows(items: Seq<ScanItem>) -> Seq<EntryView>
    decreases items.len(),
{
    if items.len() == 0 {
        Seq::empty()
    } else {
        match scan_row(items.last()) {
            Some(row) => scan_rows(items.drop_last()).push(row),
            None => scan_rows(items.drop_last()),
        }
    }
}

/// The listing rows of the items that a directory scan found.
pub fn build_listing(items: Vec<ScanItem>) -> (rows: Vec<DirEntry>)
    ensures
        rows@.map_values(|e: DirEntry| e@) == scan_rows(items@),
{
    let ghost all = items@;
    let mut rows: Vec<DirEntry> = Vec::new();
    for item in it: items
        invariant
            it.seq() == all,
            rows@.map_values(|e: DirEntry| e@) == scan_rows(all.take(it.index() as int)),
    {
        let ghost seen = all.take(it.index() as int);
        let ghost before = rows@;
        proof {
            assert(all.take(it.index() + 1).drop_last() =~= seen);
            assert(all.take(it.index() + 1).last() == item);
        }
        match item {
            ScanItem::File { name, path, size } => {
                let mut files: Vec<FileEntry> = Vec::new();
                files.push(FileEntry { name: name.clone(), path: path.clone(), size });
                assert(files_view(files@) =~= seq![(name@, path@, size)]);
                rows.push(DirEntry { name, path, files });
            },
            ScanItem::Dir { name, path, files } => {
                rows.push(DirEntry { name, path, files });
            },
            ScanItem::Other => {},
        }
        assert(rows@.map_values(|e: DirEntry| e@) =~= scan_rows(all.take(it.index() + 1))) by {
            if rows@.len() > before.len() {
                assert(rows@.drop_last() =~= before);
            }
        }
    }
    assert(all.take(all.len() as int) =~= all);
    rows
}


/// The number of rows in the sample listing.
pub const SAMPLE_ROWS: u32 = 10000;

/// Row `i` of the sample listing: named `Name: i`, at path `Path i`, with
/// no files.
pub open spec fn sample_row(i: nat) -> EntryView {
    (
        seq!['N', 'a', 'm', 'e', ':', ' '] + decimal_digits(i),
        seq!['P', 'a', 't', 'h', ' '] + decimal_digits(i),
        Seq::empty(),
    )
}

/// `rows` are the sample rows, row `i` at index `i`.
pub open spec fn is_sample_listing(rows: Seq<DirEntry>) -> bool {
    &&& rows.len() == SAMPLE_ROWS
    &&& forall|i: int| 0 <= i < rows.len() ==> #[trigger] rows[i]@ == sample_row(i as nat)
}

fn sample_entry(i: u32) -> (row: DirEntry)
    ensures
        row@ == sample_row(i as nat),
{
    let mut name = String::new();
    push_str(&mut name, "Name: ");
    push_decimal(&mut name, i as u64);
    let mut path = String::new();
    push_str(&mut path, "Path ");
    push_decimal(&mut path, i as u64);
    proof {
        reveal_strlit("Name: ");
        reveal_strlit("Path ");
        assert(name@ =~= sample_row(i as nat).0);
        assert(path@ =~= sample_row(i as nat).1);
    }
    let row = DirEntry { name, path, files: Vec::new() };
    assert(files_view(row.files@) =~= Seq::<crate::lens::FileView>::empty());
    row
}

/// The sample listing that the viewer shows: `SAMPLE_ROWS` rows, row `i`
/// named `Name: i` at path `Path i`, sorted.
pub fn get_all_data() -> (rows: Vec<DirEntry>)
    ensures
        rows@.len() == SAMPLE_ROWS,
        entries_sorted(rows@),
        exists|generated: Seq<DirEntry>|
            #[trigger] is_sample_listing(generated) && rows@.to_multiset() == generated.to_multiset(),
{
    let mut rows: Vec<DirEntry> = Vec::new();
    let mut i: u32 = 0;
    while i < SAMPLE_ROWS
        invariant
            i <= SAMPLE_ROWS,
            rows@.len() == i,
            forall|k: int| 0 <= k < i ==> #[trigger] rows@[k]@ == sample_row(k as nat),
        decreases SAMPLE_ROWS - i,
    {
        rows.push(sample_entry(i));
        i = i + 1;
    }
    let ghost generated = rows@;
    assert(is_sample_listing(generated));
    sort_entries(&mut rows);
    proof {
        vstd::seq_lib::to_multiset_len(rows@);
        vstd::seq_lib::to_multiset_len(generated);
    }
    rows
}


/// Any two results of `get_all_data` are equal row by row: its contract
/// leaves no freedom in the rows' values or their order.
pub proof fn law_sample_listing_is_fixed(a: Seq<DirEntry>, b: Seq<DirEntry>)
    requires
        entries_sorted(a),
        entries_sorted(b),
        exists|g: Seq<DirEntry>| #[trigger] is_sample_listing(g) && a.to_multiset() == g.to_multiset(),
        exists|g: Seq<DirEntry>| #[trigger] is_sample_listing(g) && b.to_multiset() == g.to_multiset(),
    ensures
        a.len() == b.len(),
        forall|i: int| 0 <= i < a.len() ==> #[trigger] a[i]@ == b[i]@,
{
    let ga = choose|g: Seq<DirEntry>| #[trigger] is_sample_listing(g) && a.to_multiset() == g.to_multiset();
    let gb = choose|g: Seq<DirEntry>| #[trigger] is_sample_listing(g) && b.to_multiset() == g.to_multiset();
    lemma_views_multiset(a, ga);
    lemma_views_multiset(b, gb);
    assert(entry_views(ga) =~= entry_views(gb)) by {
        assert forall|i: int| 0 <= i < ga.len() implies entry_views(ga)[i] == entry_views(gb)[i] by {
            assert(ga[i]@ == sample_row(i as nat));
            assert(gb[i]@ == sample_row(i as nat));
        }
    }
    law_sorted_views_unique(a, b);
}


/// A scan that found nothing gives no rows.
pub proof fn law_scan_rows_empty()
    ensures
        scan_rows(Seq::<ScanItem>::empty()).len() == 0,
{
}

/// Each item found adds its row after those of the items before it: a
/// file a row that lists itself, a directory a row with its name, path and
/// files (none or more), anything else no row.
pub proof fn law_scan_rows_push(items: Seq<ScanItem>, item: ScanItem)
    ensures
        item matches ScanItem::File { name, path, size } ==> scan_rows(items.push(item)) == scan_rows(
            items,
        ).push((name@, path@, seq![(name@, path@, size)])),
        item matches ScanItem::Dir { name, path, files } ==> scan_rows(items.push(item)) == scan_rows(
            items,
        ).push((name@, path@, files@.map_values(|f: FileEntry| (f.name@, f.path@, f.size)))),
        item is Other ==> scan_rows(items.push(item)) == scan_rows(items),
{
    assert(items.push(item).drop_last() =~= items);
    if let ScanItem::Dir { name, path, files } = item {
        assert(files_view(files@) =~= files@.map_values(|f: FileEntry| (f.name@, f.path@, f.size)));
    }
}

/// Every file and directory found gives a row: where the scan found
/// nothing else, there are as many rows as items.
pub proof fn law_scan_rows_count(items: Seq<ScanItem>)
    ensures
        scan_rows(items).len() <= items.len(),
        (forall|i: int| 0 <= i < items.len() ==> !(#[trigger] items[i] is Other)) ==> scan_rows(
            items,
        ).len() == items.len(),
    decreases items.len(),
{
    if items.len() > 0 {
        law_scan_rows_count(items.drop_last());
        if forall|i: int| 0 <= i < items.len() ==> !(#[trigger] items[i] is Other) {
            assert forall|i: int| 0 <= i < items.drop_last().len() implies !(
            #[trigger] items.drop_last()[i] is Other) by {
                assert(items.drop_last()[i] == items[i]);
            }
            assert(!(items[items.len() - 1] is Other));
        }
    }
}

} // verus!
