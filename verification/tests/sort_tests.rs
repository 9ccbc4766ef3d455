use bestls::fsops::{describe, EntryMeta, FileEntry, PlatformMeta};
use bestls::sort::{sort_entries, SortBy};

fn file(name: &str, len: u64, modified: Option<i64>) -> FileEntry {
    let meta = EntryMeta {
        is_file: true,
        is_dir: false,
        is_symlink: false,
        len,
        modified,
        platform: PlatformMeta::Other,
    };
    describe(name.to_string(), &meta, None, None)
}

fn names(entries: &[FileEntry]) -> Vec<String> {
    entries.iter().map(|e| e.name.clone()).collect()
}

#[test]
fn sorting_by_name_goes_by_bytes() {
    let mut entries = vec![
        file("b.txt", 1, None),
        file("a.txt", 2, None),
        file("B.txt", 3, None),
        file(".hidden", 4, None),
        file("\u{e9}", 5, None),
        file("a", 6, None),
        file("", 7, None),
    ];
    sort_entries(&mut entries, SortBy::Name);
    assert_eq!(names(&entries), vec!["", ".hidden", "B.txt", "a", "a.txt", "b.txt", "\u{e9}"]);
}

#[test]
fn sorting_by_name_agrees_with_the_order_of_strings() {
    let mut entries: Vec<FileEntry> = ["zeta", "alpha", "Alpha", "10", "9", "a\u{10000}", "a\u{ffff}", "ab", "a"]
        .iter()
        .map(|n| file(n, 0, None))
        .collect();
    let mut expected = names(&entries);
    expected.sort();
    sort_entries(&mut entries, SortBy::Name);
    assert_eq!(names(&entries), expected);
}

#[test]
fn sorting_by_size_is_ascending() {
    let mut entries = vec![
        file("c", 1_500_000, None),
        file("a", 100, None),
        file("b", 2048, None),
        file("d", 0, None),
        file("e", u64::MAX, None),
    ];
    sort_entries(&mut entries, SortBy::Size);
    assert_eq!(names(&entries), vec!["d", "a", "b", "c", "e"]);
}

#[test]
fn sorting_is_stable() {
    let mut entries = vec![
        file("x", 5, None),
        file("y", 1, None),
        file("z", 5, None),
        file("w", 1, None),
        file("v", 5, None),
        file("u", 3, None),
    ];
    sort_entries(&mut entries, SortBy::Size);
    assert_eq!(names(&entries), vec!["y", "w", "u", "x", "z", "v"]);
}

#[test]
fn sorting_by_date_goes_by_the_text() {
    // 1970-01-01 is a Thursday, 1970-01-02 a Friday, 1970-01-05 a Monday.
    let mut entries = vec![
        file("thursday", 0, Some(0)),
        file("friday", 0, Some(86_400)),
        file("monday", 0, Some(4 * 86_400)),
        file("none", 0, None),
    ];
    sort_entries(&mut entries, SortBy::Date);
    assert_eq!(names(&entries), vec!["none", "friday", "monday", "thursday"]);
    for pair in entries.windows(2) {
        assert!(pair[0].modified <= pair[1].modified);
    }
}

#[test]
fn sorting_none_or_one_changes_nothing() {
    let mut none: Vec<FileEntry> = Vec::new();
    sort_entries(&mut none, SortBy::Name);
    assert!(none.is_empty());
    let mut one = vec![file("only", 1, None)];
    sort_entries(&mut one, SortBy::Size);
    assert_eq!(names(&one), vec!["only"]);
}

#[test]
fn sorting_many_records_agrees_with_a_stable_sort() {
    let mut entries: Vec<FileEntry> = Vec::new();
    let mut seed: u64 = 12345;
    for i in 0..500u64 {
        seed = seed.wrapping_mul(6364136223846793005).wrapping_add(1442695040888963407);
        entries.push(file(&format!("f{}", i), (seed >> 33) % 17, None));
    }
    let mut expected: Vec<(u64, String)> =
        entries.iter().map(|e| (e.len_bytes, e.name.clone())).collect();
    expected.sort_by_key(|pair| pair.0);
    sort_entries(&mut entries, SortBy::Size);
    let got: Vec<(u64, String)> = entries.iter().map(|e| (e.len_bytes, e.name.clone())).collect();
    assert_eq!(got, expected);
}
