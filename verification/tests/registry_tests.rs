use paper_dump::pipeline::{doc_filename, doc_output_path, doc_url};
use paper_dump::registry::{DocRecord, Registry};

fn b(s: &str) -> Vec<u8> {
    s.as_bytes().to_vec()
}

fn rec(loc: &str, name: &str) -> DocRecord {
    DocRecord { locator: b(loc), name: b(name), owner: b("o"), path: b("p") }
}

#[test]
fn empty_registry_contains_nothing() {
    let reg = Registry::new();
    assert_eq!(reg.len(), 0);
    assert!(!reg.contains(&b("https://x/doc/1")));
}

#[test]
fn inserted_locator_is_found() {
    let mut reg = Registry::new();
    reg.insert(rec("l1", "Doc One"));
    assert!(reg.contains(&b("l1")));
    assert!(!reg.contains(&b("l2")));
    assert_eq!(reg.len(), 1);
}

#[test]
fn reinsert_replaces_instead_of_duplicating() {
    let mut reg = Registry::new();
    reg.insert(rec("l1", "Old"));
    reg.insert(rec("l2", "Other"));
    reg.insert(rec("l1", "New"));
    assert_eq!(reg.len(), 2);
    let records = reg.into_sorted();
    let names: Vec<Vec<u8>> = records.iter().map(|r| r.name.clone()).collect();
    assert!(names.contains(&b("New")));
    assert!(!names.contains(&b("Old")));
}

#[test]
fn records_come_out_sorted_by_name() {
    let mut reg = Registry::new();
    reg.insert(rec("l1", "cherry"));
    reg.insert(rec("l2", "apple"));
    reg.insert(rec("l3", "banana"));
    let records = reg.into_sorted();
    assert_eq!(records.len(), 3);
    assert_eq!(records[0].name, b("apple"));
    assert_eq!(records[1].name, b("banana"));
    assert_eq!(records[2].name, b("cherry"));
}

#[test]
fn document_locator_is_prefix_plus_identifier() {
    assert_eq!(doc_url(&b("abc123")), b("https://paper.dropbox.com/doc/abc123"));
}

#[test]
fn title_sanitizing_for_filenames() {
    assert_eq!(doc_filename(&b("My Doc"), &b("id1")), b("My Doc (id1).html"));
    assert_eq!(doc_filename(&b("a/b\\c:d"), &b("x")), b("a_b_c_d (x).html"));
    // non-ASCII bytes are dropped, surrounding whitespace trimmed
    assert_eq!(doc_filename(&"  héllo  ".as_bytes().to_vec(), &b("x")), b("hllo (x).html"));
    assert_eq!(doc_filename(&"é".as_bytes().to_vec(), &b("x")), b("(unprintable) (x).html"));
    assert_eq!(doc_filename(&b("   "), &b("x")), b("(unprintable) (x).html"));
}

#[test]
fn output_path_is_under_docs() {
    assert_eq!(doc_output_path(&b("T"), &b("i")), b("docs/T (i).html"));
}
