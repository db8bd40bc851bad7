use calibre_updatr::dups::{
    is_sidecar, file_ext, want_entry, default_exts, FileInfo, find_duplicates,
};

fn s(text: &str) -> String {
    text.to_string()
}

fn file(path: &str, bytes: u64, hash: &str) -> FileInfo {
    FileInfo { path: s(path), bytes, hash: s(hash) }
}

#[test]
fn sidecars_and_extensions() {
    assert!(is_sidecar("metadata.opf"));
    assert!(is_sidecar("cover.jpg"));
    assert!(!is_sidecar("cover.gif"));
    assert_eq!(file_ext("book.epub"), Some(s("epub")));
    assert_eq!(file_ext("archive.tar.gz"), Some(s("gz")));
    assert_eq!(file_ext("noext"), None);
    assert_eq!(file_ext(".gitignore"), None);
    assert_eq!(file_ext("trailing."), Some(s("")));
}

#[test]
fn entry_filter_checks_type_size_and_extension() {
    let exts = default_exts();
    assert!(want_entry(true, "b.epub", 100, 0, &exts, false));
    assert!(want_entry(true, "B.EPUB", 100, 0, &exts, false));
    assert!(!want_entry(false, "b.epub", 100, 0, &exts, false));
    assert!(!want_entry(true, "b.epub", 5, 10, &exts, false));
    assert!(!want_entry(true, "b.xyz", 100, 0, &exts, false));
    assert!(want_entry(true, "metadata.opf", 100, 0, &exts, true));
    assert!(!want_entry(true, "metadata.opf", 100, 0, &exts, false));
}

#[test]
fn default_extension_list_is_exact() {
    let exts = default_exts();
    assert_eq!(exts.len(), 13);
    assert_eq!(exts[0], "epub");
    assert!(exts.contains(&s("cbr")));
}

#[test]
fn duplicates_group_by_size_and_digest() {
    let files = vec![
        file("/b/one.epub", 10, "aa"),
        file("/a/two.epub", 10, "aa"),
        file("/c/three.epub", 10, "bb"),
        file("/d/four.epub", 99, "aa"),
        file("/e/five.epub", 10, "aa"),
    ];
    let groups = find_duplicates(&files);
    assert_eq!(groups.len(), 1);
    assert_eq!(groups[0].bytes, 10);
    assert_eq!(groups[0].hash, "aa");
    // Paths are reported sorted, not in scan order.
    assert_eq!(
        groups[0].files,
        vec![s("/a/two.epub"), s("/b/one.epub"), s("/e/five.epub")]
    );
}

#[test]
fn groups_are_ordered_by_count_then_size_then_digest() {
    let files = vec![
        file("p1", 5, "cc"),
        file("p2", 5, "cc"),
        file("p3", 7, "aa"),
        file("p4", 7, "aa"),
        file("p5", 7, "aa"),
        file("p6", 7, "bb"),
        file("p7", 7, "bb"),
    ];
    let groups = find_duplicates(&files);
    assert_eq!(groups.len(), 3);
    // Three files beat two files.
    assert_eq!((groups[0].bytes, groups[0].hash.clone()), (7, s("aa")));
    // Among pairs, the larger size comes first.
    assert_eq!((groups[1].bytes, groups[1].hash.clone()), (7, s("bb")));
    assert_eq!((groups[2].bytes, groups[2].hash.clone()), (5, s("cc")));
}

#[test]
fn each_size_and_digest_yields_one_group() {
    let files = vec![
        file("a", 4, "dd"),
        file("b", 4, "dd"),
        file("c", 4, "dd"),
        file("d", 4, "dd"),
    ];
    let groups = find_duplicates(&files);
    assert_eq!(groups.len(), 1);
    assert_eq!(groups[0].files.len(), 4);
}

#[test]
fn no_duplicates_means_no_groups() {
    let files = vec![file("a", 1, "x"), file("b", 2, "x"), file("c", 1, "y")];
    assert!(find_duplicates(&files).is_empty());
}
