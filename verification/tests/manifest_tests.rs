use bfme2_manager::manifest::{
    fingerprint_of_content, manifest_paths, parse_manifest, serialize_manifest, sort_entries,
    sort_paths, strip_root_exec, FileEntry, MANIFEST_FILE_NAME,
};

fn entry(path: &str, digest: &str) -> FileEntry {
    FileEntry {
        relative_path: path.to_string(),
        digest: digest.to_string(),
    }
}

#[test]
fn manifest_file_is_named_checksums_txt() {
    assert_eq!(MANIFEST_FILE_NAME, "checksums.txt");
}

#[test]
fn serialize_joins_lines_without_trailing_newline() {
    let entries = vec![entry("a.txt", "00"), entry("b.txt", "11")];
    assert_eq!(serialize_manifest(&entries), "a.txt|00\nb.txt|11");
}

#[test]
fn serialize_of_single_entry_has_no_newline() {
    let entries = vec![entry("only.bin", "abcd")];
    assert_eq!(serialize_manifest(&entries), "only.bin|abcd");
}

#[test]
fn parse_recovers_paths_and_digests() {
    let parsed = parse_manifest("a.txt|00\nb.txt|11");
    assert_eq!(parsed.len(), 2);
    assert_eq!(parsed[0].relative_path, "a.txt");
    assert_eq!(parsed[0].digest, "00");
    assert_eq!(parsed[1].relative_path, "b.txt");
    assert_eq!(parsed[1].digest, "11");
}

#[test]
fn parse_drops_blank_and_malformed_lines() {
    let parsed = parse_manifest("a.txt|00\n\nno delimiter here\nb.txt|11\n");
    assert_eq!(parsed.len(), 2);
    assert_eq!(parsed[0].relative_path, "a.txt");
    assert_eq!(parsed[1].relative_path, "b.txt");
}

#[test]
fn parse_tolerates_carriage_returns() {
    let parsed = parse_manifest("a.txt|00\r\nb.txt|11\r\n");
    assert_eq!(parsed.len(), 2);
    assert_eq!(parsed[0].relative_path, "a.txt");
    assert_eq!(parsed[1].digest, "11");
}

#[test]
fn parse_splits_on_first_delimiter_only() {
    let parsed = parse_manifest("weird|00|extra");
    assert_eq!(parsed.len(), 1);
    assert_eq!(parsed[0].relative_path, "weird");
    assert_eq!(parsed[0].digest, "00|extra");
}

#[test]
fn sort_orders_by_path() {
    let sorted = sort_entries(vec![
        entry("zeta.txt", "33"),
        entry("alpha.txt", "11"),
        entry("maps/extra.big", "22"),
    ]);
    let paths: Vec<&str> = sorted.iter().map(|e| e.relative_path.as_str()).collect();
    assert_eq!(paths, vec!["alpha.txt", "maps/extra.big", "zeta.txt"]);
}

#[test]
fn round_trip_parse_of_serialized_sorted_entries() {
    // The manifest round-trip law on concrete values: parse(serialize(sorted))
    // gives back exactly the sorted entries.
    let sorted = sort_entries(vec![
        entry("b.txt", "11"),
        entry("a.txt", "00"),
        entry("c.txt", "22"),
    ]);
    let text = serialize_manifest(&sorted);
    let parsed = parse_manifest(&text);
    assert_eq!(parsed.len(), sorted.len());
    for (p, s) in parsed.iter().zip(sorted.iter()) {
        assert_eq!(p.relative_path, s.relative_path);
        assert_eq!(p.digest, s.digest);
    }
}

#[test]
fn fingerprint_ignores_entry_arrival_order() {
    // Fingerprint determinism on concrete values: two arrival orders of the
    // same entries serialize identically once sorted, so the fingerprint is
    // identical.
    let one = serialize_manifest(&sort_entries(vec![
        entry("a.txt", "00"),
        entry("b.txt", "11"),
    ]));
    let two = serialize_manifest(&sort_entries(vec![
        entry("b.txt", "11"),
        entry("a.txt", "00"),
    ]));
    assert_eq!(one, two);
    assert_eq!(fingerprint_of_content(&one), fingerprint_of_content(&two));
}

#[test]
fn fingerprint_changes_with_content() {
    let one = fingerprint_of_content("a.txt|00");
    let two = fingerprint_of_content("a.txt|01");
    assert_ne!(one, two);
}

#[test]
fn fingerprint_of_known_content() {
    assert_eq!(
        fingerprint_of_content("a.txt|9f9f90dbe3e5ee1218c86b8839db1995\nb.txt|fd9ab41e47a9ef4f6477a8a000bf404f\nc/d.txt|ee4c01a8d795a2666442302bf0848d1d"),
        "33ff32cd2596155b917b1b303355b314"
    );
}

#[test]
fn strip_root_removes_root_and_separator() {
    assert_eq!(strip_root_exec("C:/games/bfme2/data/file.big", "C:/games/bfme2"), "data/file.big");
    assert_eq!(strip_root_exec("C:\\games\\file.big", "C:\\games"), "file.big");
}

#[test]
fn strip_root_keeps_unrelated_paths() {
    assert_eq!(strip_root_exec("data/file.big", "C:/games/bfme2"), "data/file.big");
    assert_eq!(strip_root_exec("C:/gamesplus/file.big", "C:/games"), "C:/gamesplus/file.big");
}

#[test]
fn sort_paths_orders_an_enumeration() {
    let sorted = sort_paths(vec![
        "maps/z.big".to_string(),
        "a.txt".to_string(),
        "maps/a.big".to_string(),
        "b.txt".to_string(),
    ]);
    assert_eq!(
        sorted,
        vec![
            "a.txt".to_string(),
            "b.txt".to_string(),
            "maps/a.big".to_string(),
            "maps/z.big".to_string(),
        ]
    );
}

#[test]
fn manifest_paths_takes_path_column_relative_to_root() {
    let contents = "C:/root/a.txt|00\nb.txt|11\nbroken line\n";
    let paths = manifest_paths(contents, "C:/root");
    assert_eq!(paths, vec!["a.txt".to_string(), "b.txt".to_string()]);
}
