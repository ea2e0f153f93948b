use filelens::decimal::push_decimal;
use filelens::lens::{
    compare_entries, compare_file_lists, compare_files, pretty_size, sort_entries, DirEntry, FileEntry,
};
use filelens::listing::{build_listing, get_all_data, metadata_path, ScanItem, SAMPLE_ROWS};
use filelens::order::{compare_text, Order};

fn file(name: &str, path: &str, size: u64) -> FileEntry {
    FileEntry { name: name.to_string(), path: path.to_string(), size }
}

fn row(name: &str, path: &str, files: Vec<FileEntry>) -> DirEntry {
    DirEntry { name: name.to_string(), path: path.to_string(), files }
}

#[test]
fn compare_text_is_byte_order() {
    assert_eq!(compare_text("Name: 10", "Name: 2"), Order::Less);
    assert_eq!(compare_text("abc", "abc"), Order::Equal);
    assert_eq!(compare_text("abd", "abc"), Order::Greater);
    assert_eq!(compare_text("ab", "abc"), Order::Less);
    assert_eq!(compare_text("", ""), Order::Equal);
    assert_eq!(compare_text("Z", "a"), Order::Less);
    assert_eq!(compare_text("é", "z"), Order::Greater);
}

#[test]
fn compare_files_name_then_path_then_size() {
    assert_eq!(compare_files(&file("a", "z", 9), &file("b", "a", 0)), Order::Less);
    assert_eq!(compare_files(&file("a", "b", 0), &file("a", "a", 9)), Order::Greater);
    assert_eq!(compare_files(&file("a", "a", 1), &file("a", "a", 2)), Order::Less);
    assert_eq!(compare_files(&file("a", "a", 2), &file("a", "a", 2)), Order::Equal);
}

#[test]
fn compare_file_lists_lexicographic() {
    let short = vec![file("a", "a", 1)];
    let long = vec![file("a", "a", 1), file("b", "b", 0)];
    assert_eq!(compare_file_lists(&short, &long), Order::Less);
    assert_eq!(compare_file_lists(&long, &short), Order::Greater);
    assert_eq!(compare_file_lists(&long, &vec![file("a", "a", 1), file("b", "b", 0)]), Order::Equal);
    assert_eq!(compare_file_lists(&vec![file("c", "a", 0)], &long), Order::Greater);
}

#[test]
fn compare_entries_name_first() {
    assert_eq!(compare_entries(&row("a", "z", vec![]), &row("b", "a", vec![])), Order::Less);
    assert_eq!(compare_entries(&row("a", "b", vec![]), &row("a", "a", vec![])), Order::Greater);
    assert_eq!(
        compare_entries(&row("a", "a", vec![]), &row("a", "a", vec![file("x", "x", 1)])),
        Order::Less
    );
    assert_eq!(compare_entries(&row("a", "a", vec![]), &row("a", "a", vec![])), Order::Equal);
}

#[test]
fn sort_entries_orders_and_keeps_rows() {
    let mut rows = vec![
        row("b", "p", vec![]),
        row("a", "q", vec![file("f", "a/f", 3)]),
        row("a", "q", vec![]),
        row("c", "a", vec![]),
        row("a", "p", vec![]),
    ];
    sort_entries(&mut rows);
    let keys: Vec<(String, String, usize)> =
        rows.iter().map(|r| (r.name.clone(), r.path.clone(), r.files.len())).collect();
    assert_eq!(
        keys,
        vec![
            ("a".to_string(), "p".to_string(), 0),
            ("a".to_string(), "q".to_string(), 0),
            ("a".to_string(), "q".to_string(), 1),
            ("b".to_string(), "p".to_string(), 0),
            ("c".to_string(), "a".to_string(), 0),
        ]
    );
}

#[test]
fn sort_entries_empty_and_single() {
    let mut none: Vec<DirEntry> = Vec::new();
    sort_entries(&mut none);
    assert!(none.is_empty());
    let mut one = vec![row("x", "y", vec![])];
    sort_entries(&mut one);
    assert_eq!(one[0].name, "x");
}

#[test]
fn dir_entry_size_sums_files() {
    let r = row("d", "d", vec![file("a", "d/a", 10), file("b", "d/b", 32)]);
    assert_eq!(r.size(), 42);
    assert_eq!(row("e", "e", vec![]).size(), 0);
}

#[test]
fn dir_entry_size_saturates() {
    let r = row("d", "d", vec![file("a", "d/a", u64::MAX), file("b", "d/b", 5)]);
    assert_eq!(r.size(), u64::MAX);
}

#[test]
fn push_decimal_digits() {
    let mut s = String::from("n=");
    push_decimal(&mut s, 0);
    assert_eq!(s, "n=0");
    let mut t = String::new();
    push_decimal(&mut t, 4294967295);
    assert_eq!(t, "4294967295");
    let mut u = String::new();
    push_decimal(&mut u, 1070);
    assert_eq!(u, "1070");
}

#[test]
fn metadata_path_short_path_unchanged() {
    assert_eq!(metadata_path("C:\\data\\file.txt"), "C:\\data\\file.txt");
    let just_short = "a".repeat(259);
    assert_eq!(metadata_path(&just_short), just_short);
}

#[test]
fn metadata_path_long_path_prefixed() {
    let long = "b".repeat(260);
    assert_eq!(metadata_path(&long), format!("\\??\\{}", long));
    // 130 two-byte characters are 260 bytes
    let wide_chars = "é".repeat(130);
    assert_eq!(metadata_path(&wide_chars), format!("\\??\\{}", wide_chars));
}

#[test]
fn build_listing_rows() {
    let items = vec![
        ScanItem::File { name: "a.txt".to_string(), path: "C:\\x\\a.txt".to_string(), size: 7 },
        ScanItem::Other,
        ScanItem::Dir {
            name: "sub".to_string(),
            path: "C:\\x\\sub".to_string(),
            files: vec![file("b.txt", "C:\\x\\sub\\b.txt", 3), file("c.txt", "C:\\x\\sub\\deep\\c.txt", 4)],
        },
    ];
    let rows = build_listing(items);
    assert_eq!(rows.len(), 2);
    assert_eq!(rows[0].name, "a.txt");
    assert_eq!(rows[0].path, "C:\\x\\a.txt");
    assert_eq!(rows[0].files.len(), 1);
    assert_eq!(rows[0].files[0].name, "a.txt");
    assert_eq!(rows[0].files[0].path, "C:\\x\\a.txt");
    assert_eq!(rows[0].files[0].size, 7);
    assert_eq!(rows[1].name, "sub");
    assert_eq!(rows[1].files.len(), 2);
    assert_eq!(rows[1].size(), 7);
}

#[test]
fn build_listing_of_nothing() {
    assert!(build_listing(vec![ScanItem::Other]).is_empty());
    assert!(build_listing(Vec::new()).is_empty());
}

#[test]
fn get_all_data_sample_listing() {
    let rows = get_all_data();
    assert_eq!(rows.len(), SAMPLE_ROWS as usize);
    let first: Vec<&str> = rows.iter().take(5).map(|r| r.name.as_str()).collect();
    assert_eq!(first, vec!["Name: 0", "Name: 1", "Name: 10", "Name: 100", "Name: 1000"]);
    assert_eq!(rows[0].path, "Path 0");
    assert_eq!(rows[rows.len() - 1].name, "Name: 9999");
    assert!(rows.iter().all(|r| r.files.is_empty()));
    let mut names: Vec<String> = rows.iter().map(|r| r.name.clone()).collect();
    let sorted = {
        let mut s = names.clone();
        s.sort();
        s
    };
    assert_eq!(names, sorted);
    names.dedup();
    assert_eq!(names.len(), SAMPLE_ROWS as usize);
}

#[test]
fn sorting_two_orders_gives_same_rows() {
    let make = |order: &[usize]| -> Vec<DirEntry> {
        let all = [("m", "1"), ("a", "2"), ("m", "0"), ("z", "9"), ("a", "2")];
        order.iter().map(|i| row(all[*i].0, all[*i].1, vec![])).collect()
    };
    let mut first = make(&[0, 1, 2, 3, 4]);
    let mut second = make(&[4, 3, 2, 1, 0]);
    sort_entries(&mut first);
    sort_entries(&mut second);
    let view = |rows: &Vec<DirEntry>| -> Vec<(String, String)> {
        rows.iter().map(|r| (r.name.clone(), r.path.clone())).collect()
    };
    assert_eq!(view(&first), view(&second));
    assert_eq!(view(&first)[0], ("a".to_string(), "2".to_string()));
}

#[test]
fn pretty_size_units() {
    assert_eq!(pretty_size(0), "0b");
    assert_eq!(pretty_size(1023), "1023b");
    assert_eq!(pretty_size(1024), "1kb");
    assert_eq!(pretty_size(1048575), "1023kb");
    assert_eq!(pretty_size(100 * 1048576 + 5), "100mb");
    assert_eq!(pretty_size(1073741824), "1gb");
    assert_eq!(pretty_size(u64::MAX), "17179869183gb");
}

#[test]
fn sort_entries_agrees_with_derived_ord() {
    let make = || {
        vec![
            row("b", "p", vec![]),
            row("a", "q", vec![file("f", "a/f", 3)]),
            row("a", "q", vec![file("f", "a/f", 2), file("g", "a/g", 0)]),
            row("a", "q", vec![]),
            row("é", "a", vec![]),
            row("Z", "a", vec![]),
            row("a", "p", vec![]),
        ]
    };
    let mut ours = make();
    let mut std_sorted = make();
    sort_entries(&mut ours);
    std_sorted.sort();
    assert_eq!(ours, std_sorted);
}

#[test]
fn get_all_data_twice_gives_equal_rows() {
    assert_eq!(get_all_data(), get_all_data());
}
