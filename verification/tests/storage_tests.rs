use termjournal::storage::{
    collect_entries, date_from_file_name, entry_file_name, load_entries, FileRecord,
};

fn rec(name: &str, size: u64, content: &str) -> FileRecord {
    FileRecord { name: name.to_string(), size, content: content.to_string() }
}

#[test]
fn load_sorts_two_entries_newest_first() {
    let listing = vec![
        rec("2024-01-01.md", 10, "0123456789"),
        rec("2024-03-15.md", 20, "01234567890123456789"),
    ];
    let entries = load_entries(listing);
    assert_eq!(entries.len(), 2);
    assert_eq!(entries[0].date, "2024-03-15");
    assert_eq!(entries[0].size, 20);
    assert_eq!(entries[1].date, "2024-01-01");
    assert_eq!(entries[1].size, 10);
}

#[test]
fn load_sorts_shuffled_listing_descending() {
    let listing = vec![
        rec("2023-06-30.md", 1, "a"),
        rec("2024-12-01.md", 2, "b"),
        rec("2021-01-15.md", 3, "c"),
        rec("2024-02-29.md", 4, "d"),
    ];
    let entries = load_entries(listing);
    let dates: Vec<&str> = entries.iter().map(|e| e.date.as_str()).collect();
    assert_eq!(dates, vec!["2024-12-01", "2024-02-29", "2023-06-30", "2021-01-15"]);
}

#[test]
fn load_skips_files_without_the_suffix() {
    let listing = vec![
        rec("notes.txt", 5, "not a journal entry"),
        rec("2024-01-01.md", 10, "kept"),
        rec("README", 7, "2024-02-02.md"),
        rec(".md", 3, "suffix only, no date"),
        rec("2024-05-05.markdown", 9, "wrong suffix"),
    ];
    let entries = load_entries(listing);
    assert_eq!(entries.len(), 1);
    assert_eq!(entries[0].date, "2024-01-01");
    assert_eq!(entries[0].content, "kept");
}

#[test]
fn load_of_empty_listing_is_empty() {
    let entries = load_entries(Vec::new());
    assert!(entries.is_empty());
}

#[test]
fn collect_keeps_listing_order_and_fields() {
    let listing = vec![rec("2024-02-02.md", 4, "beta"), rec("2024-01-01.md", 5, "alpha")];
    let entries = collect_entries(&listing);
    assert_eq!(entries.len(), 2);
    assert_eq!(entries[0].date, "2024-02-02");
    assert_eq!(entries[0].content, "beta");
    assert_eq!(entries[1].date, "2024-01-01");
    assert_eq!(entries[1].size, 5);
}

#[test]
fn entry_file_name_appends_the_suffix() {
    assert_eq!(entry_file_name("2024-01-01"), "2024-01-01.md");
}

#[test]
fn date_is_recovered_by_stripping_the_suffix() {
    let name = entry_file_name("2024-01-01");
    assert_eq!(date_from_file_name(&name), Some("2024-01-01".to_string()));
}

#[test]
fn date_from_file_name_rejects_other_names() {
    assert_eq!(date_from_file_name("notes.txt"), None);
    assert_eq!(date_from_file_name(".md"), None);
    assert_eq!(date_from_file_name(""), None);
    assert_eq!(date_from_file_name("2024-01-01"), None);
}

#[test]
fn reload_after_a_deletion_excludes_the_entry() {
    let before = vec![rec("2024-01-01.md", 10, "one"), rec("2024-03-15.md", 20, "two")];
    let entries = load_entries(before);
    assert_eq!(entries.len(), 2);

    // The file of 2024-01-01 is gone from the next listing.
    let after = vec![rec("2024-03-15.md", 20, "two")];
    let entries = load_entries(after);
    assert_eq!(entries.len(), 1);
    assert_eq!(entries[0].date, "2024-03-15");
}
