use book_catalog::book::Book;
use book_catalog::errors::CatalogError;
use book_catalog::query::{filter_by_section, group_by_section};
use book_catalog::store::Store;
use book_catalog::validate::{has_extension, validate_path};

fn s(x: &str) -> String {
    x.to_string()
}

fn resolved(x: &str) -> Option<String> {
    Some(s(x))
}

#[test]
fn new_store_is_empty() {
    let store = Store::new();
    assert_eq!(store.len(), 0);
    assert!(matches!(store.list(), Err(CatalogError::EmptyCatalog)));
}

#[test]
fn add_then_get_round_trips() {
    let mut store = Store::new();
    let r = store.add(
        s("calculus"),
        "/tmp/calc.pdf",
        Some(s("math")),
        "pdf",
        resolved("/tmp/calc.pdf"),
    );
    assert!(r.is_ok());
    let b = store.get("calculus").unwrap();
    assert_eq!(b.name, "calculus");
    assert_eq!(b.path, "/tmp/calc.pdf");
    assert_eq!(b.section, Some(s("math")));
}

#[test]
fn stored_path_is_the_resolved_one() {
    let mut store = Store::new();
    let r = store.add(
        s("calculus"),
        "../calc.pdf",
        None,
        "pdf",
        resolved("/home/reader/books/calc.pdf"),
    );
    assert!(r.is_ok());
    let b = store.get("calculus").unwrap();
    assert_eq!(b.path, "/home/reader/books/calc.pdf");
    assert_eq!(b.section, None);
}

#[test]
fn duplicate_name_is_rejected_and_first_record_kept() {
    let mut store = Store::new();
    assert!(store
        .add(s("calculus"), "/tmp/calc.pdf", None, "pdf", resolved("/tmp/calc.pdf"))
        .is_ok());
    let second = store.add(
        s("calculus"),
        "/tmp/other.pdf",
        Some(s("math")),
        "pdf",
        resolved("/tmp/other.pdf"),
    );
    assert!(matches!(second, Err(CatalogError::DuplicateName)));
    assert_eq!(store.len(), 1);
    let b = store.get("calculus").unwrap();
    assert_eq!(b.path, "/tmp/calc.pdf");
    assert_eq!(b.section, None);
}

#[test]
fn unresolved_path_is_never_stored() {
    let mut store = Store::new();
    let r = store.add(s("ghost"), "/tmp/ghost.pdf", None, "pdf", None);
    assert!(matches!(r, Err(CatalogError::PathNotFound)));
    assert_eq!(store.len(), 0);
}

#[test]
fn wrong_extension_is_never_stored() {
    let mut store = Store::new();
    let r = store.add(
        s("notes"),
        "/tmp/notes.txt",
        None,
        "pdf",
        resolved("/tmp/notes.txt"),
    );
    assert!(matches!(r, Err(CatalogError::WrongExtension)));
    assert_eq!(store.len(), 0);
}

#[test]
fn extension_check_needs_a_dot() {
    assert!(!has_extension("nodots", "pdf"));
    assert!(has_extension("a.pdf", "pdf"));
    assert!(has_extension("archive.tar.pdf", "pdf"));
    assert!(!has_extension("archive.pdf.tar", "pdf"));
    assert!(has_extension("trailing.", ""));
    assert!(!has_extension("", "pdf"));
}

#[test]
fn extension_check_is_case_sensitive() {
    assert!(!has_extension("a.PDF", "pdf"));
    assert!(!has_extension("a.pdf", "PDF"));
}

#[test]
fn validate_path_reports_each_failure() {
    assert!(matches!(
        validate_path("a.pdf", "pdf", None),
        Err(CatalogError::PathNotFound)
    ));
    assert!(matches!(
        validate_path("a.txt", "pdf", resolved("/tmp/a.txt")),
        Err(CatalogError::WrongExtension)
    ));
    assert_eq!(
        validate_path("a.pdf", "pdf", resolved("/tmp/a.pdf")),
        Ok(s("/tmp/a.pdf"))
    );
}

#[test]
fn get_absent_name_fails_not_found() {
    let store = Store::new();
    assert!(matches!(store.get("absent"), Err(CatalogError::NotFound)));
}

#[test]
fn remove_absent_name_fails_not_found() {
    let mut store = Store::new();
    assert!(matches!(store.remove("absent"), Err(CatalogError::NotFound)));
}

#[test]
fn remove_deletes_only_the_named_record() {
    let mut store = Store::new();
    assert!(store
        .add(s("one"), "/tmp/one.pdf", Some(s("a")), "pdf", resolved("/tmp/one.pdf"))
        .is_ok());
    assert!(store
        .add(s("two"), "/tmp/two.pdf", Some(s("b")), "pdf", resolved("/tmp/two.pdf"))
        .is_ok());
    assert!(store.remove("one").is_ok());
    assert!(matches!(store.get("one"), Err(CatalogError::NotFound)));
    let b = store.get("two").unwrap();
    assert_eq!(b.path, "/tmp/two.pdf");
    assert_eq!(store.len(), 1);
}

#[test]
fn list_returns_all_records_in_storage_order() {
    let mut store = Store::new();
    assert!(store
        .add(s("one"), "/tmp/one.pdf", None, "pdf", resolved("/tmp/one.pdf"))
        .is_ok());
    assert!(store
        .add(s("two"), "/tmp/two.pdf", Some(s("b")), "pdf", resolved("/tmp/two.pdf"))
        .is_ok());
    let all = store.list().unwrap();
    assert_eq!(all.len(), 2);
    assert_eq!(all[0].name, "one");
    assert_eq!(all[1].name, "two");
}

fn sample(name: &str, section: Option<&str>) -> Book {
    Book::new(s(name), s("/tmp/x.pdf"), section.map(s))
}

#[test]
fn filter_keeps_exactly_the_section_in_order() {
    let records = vec![
        sample("one", Some("a")),
        sample("two", Some("b")),
        sample("three", None),
        sample("four", Some("a")),
    ];
    let hits = filter_by_section(&records, "a");
    assert_eq!(hits.len(), 2);
    assert_eq!(hits[0].name, "one");
    assert_eq!(hits[1].name, "four");
}

#[test]
fn filter_of_empty_input_is_empty() {
    let records: Vec<Book> = Vec::new();
    assert_eq!(filter_by_section(&records, "a").len(), 0);
}

#[test]
fn filter_with_no_match_is_empty() {
    let records = vec![sample("one", Some("a")), sample("two", None)];
    assert_eq!(filter_by_section(&records, "z").len(), 0);
}

#[test]
fn groups_come_in_first_seen_order() {
    let records = vec![
        sample("one", Some("b")),
        sample("two", Some("a")),
        sample("three", Some("b")),
    ];
    let groups = group_by_section(&records);
    assert_eq!(groups.len(), 2);
    assert_eq!(groups[0].0, "b");
    assert_eq!(groups[1].0, "a");
    assert_eq!(groups[0].1.len(), 2);
    assert_eq!(groups[0].1[0].name, "one");
    assert_eq!(groups[0].1[1].name, "three");
    assert_eq!(groups[1].1.len(), 1);
    assert_eq!(groups[1].1[0].name, "two");
}

#[test]
fn grouping_skips_uncategorized_records() {
    let records = vec![sample("one", None), sample("two", Some("a")), sample("three", None)];
    let groups = group_by_section(&records);
    assert_eq!(groups.len(), 1);
    assert_eq!(groups[0].0, "a");
    assert_eq!(groups[0].1.len(), 1);
    assert_eq!(groups[0].1[0].name, "two");
}

#[test]
fn grouping_empty_input_gives_no_groups() {
    let records: Vec<Book> = Vec::new();
    assert_eq!(group_by_section(&records).len(), 0);
}

#[test]
fn every_error_has_a_message() {
    assert_eq!(
        CatalogError::WrongExtension.message(),
        "the file does not have the required extension"
    );
    assert_eq!(CatalogError::PathNotFound.message(), "no file exists at the given path");
    assert_eq!(CatalogError::DuplicateName.message(), "a book with this name already exists");
    assert_eq!(CatalogError::NotFound.message(), "no book with this name exists");
    assert_eq!(CatalogError::EmptyCatalog.message(), "there are no books");
    assert_eq!(
        CatalogError::StorageUnavailable.message(),
        "the book storage cannot be reached"
    );
}

#[test]
fn full_scenario_add_duplicate_list_remove_list() {
    let mut store = Store::new();
    assert!(store
        .add(s("calculus"), "/tmp/calc.pdf", None, "pdf", resolved("/tmp/calc.pdf"))
        .is_ok());
    let dup = store.add(
        s("calculus"),
        "/tmp/other.pdf",
        None,
        "pdf",
        resolved("/tmp/other.pdf"),
    );
    assert!(matches!(dup, Err(CatalogError::DuplicateName)));
    let all = store.list().unwrap();
    assert_eq!(all.len(), 1);
    assert_eq!(all[0].name, "calculus");
    assert!(store.remove("calculus").is_ok());
    assert!(matches!(store.list(), Err(CatalogError::EmptyCatalog)));
}
