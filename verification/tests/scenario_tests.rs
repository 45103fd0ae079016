use paper_dump::cache::{on_create_outcome, CacheStep, CreateOutcome};
use paper_dump::extract::extract_references;
use paper_dump::naming::{cache_filename, rel_path};
use paper_dump::pipeline::{
    assemble_document, assemble_document_now, doc_url, plan_document, resolution_span, DocPlan,
};
use paper_dump::registry::{DocRecord, Registry};
use paper_dump::splice::check_spans;

fn b(s: &str) -> Vec<u8> {
    s.as_bytes().to_vec()
}

fn s(v: &[u8]) -> String {
    String::from_utf8(v.to_vec()).unwrap()
}

#[test]
fn document_with_no_references_round_trips() {
    let content = b("<p>plain text, no embedded resources</p>");
    let refs = extract_references(&content);
    assert_eq!(refs.len(), 0);
    let out = assemble_document(&b("T"), &b("O"), &b("U"), &b("D"), &content, vec![]);
    let expected = format!(
        "<!DOCTYPE html><html><head><title>T</title></head><body><p>downloaded on D from \
         <a href=\"U\">U</a><br>\n            owned by O</p>\n\
         {}</body></html>\n",
        s(&content),
    );
    assert_eq!(s(&out), expected);
}

#[test]
fn assembly_with_current_date_keeps_frame() {
    let content = b("<p>x</p>");
    let out = assemble_document_now(&b("T"), &b("O"), &b("U"), &content, vec![]);
    let text = s(&out);
    assert!(text.starts_with("<!DOCTYPE html><html><head><title>T</title></head><body><p>downloaded on "));
    assert!(text.contains(" from <a href=\"U\">U</a><br>\n            owned by O</p>\n<p>x</p>"));
    assert!(text.ends_with("</body></html>\n"));
}

#[test]
fn listed_documents_skip_registered_and_export_the_rest() {
    // documents "a" and "b"; "a" was exported by a prior run
    let mut reg = Registry::new();
    let url_a = doc_url(&b("a"));
    let url_b = doc_url(&b("b"));
    reg.insert(DocRecord {
        locator: url_a.clone(),
        name: b("Doc A"),
        owner: b("alice"),
        path: b("Doc A (a).html"),
    });

    // "a" is skipped outright: no download happens
    assert_eq!(plan_document(&reg, &url_a), DocPlan::SkipAlreadyExported);
    // "b" is downloaded
    assert_eq!(plan_document(&reg, &url_b), DocPlan::Download);

    // "b" has one image reference that resolves successfully
    let content = b("<p>hi <img src=\"http://img.example/p.png\"></p>");
    let refs = extract_references(&content);
    assert_eq!(refs.len(), 1);
    let name = cache_filename(&refs[0].url).unwrap();
    let rel = rel_path(&name);
    let spans = vec![resolution_span(&refs[0], &rel)];
    assert!(check_spans(content.len(), &spans));
    let out = assemble_document(&b("Doc B"), &b("bob"), &url_b, &b("D"), &content, spans);
    let text = s(&out);
    assert!(text.contains(
        "<img src=\"images/p__2cABRHQLAWu2osvMNdydPcmbcHOJFUUAm-t1LdwXS54.png\">"
    ));
    assert!(!text.contains("http://img.example/p.png\">"));

    // only then is the registry updated
    reg.insert(DocRecord {
        locator: url_b.clone(),
        name: b("Doc B"),
        owner: b("bob"),
        path: b("Doc B (b).html"),
    });
    assert!(reg.contains(&url_a));
    assert!(reg.contains(&url_b));
    let records = reg.into_sorted();
    assert_eq!(records.len(), 2);
    assert_eq!(records[0].name, b("Doc A"));
    assert_eq!(records[0].owner, b("alice"));
    assert_eq!(records[1].name, b("Doc B"));
}

#[test]
fn failed_resources_keep_their_original_bytes() {
    // two references; the first resolves, the second's fetch failed and is
    // dropped — its tag must survive verbatim and the document is still
    // produced
    let content = b("<p><img src=\"http://x/ok.png\"> and <img src=\"http://x/bad.png\"></p>");
    let refs = extract_references(&content);
    assert_eq!(refs.len(), 2);
    let spans = vec![resolution_span(&refs[0], &b("images/local.png"))];
    assert!(check_spans(content.len(), &spans));
    let out = assemble_document(&b("T"), &b("O"), &b("U"), &b("D"), &content, spans);
    let text = s(&out);
    assert!(text.contains("<img src=\"images/local.png\">"));
    assert!(text.contains(" and <img src=\"http://x/bad.png\"></p>"));
}

#[test]
fn concurrent_workers_share_one_cache_entry() {
    // two documents reference the same locator; the cache names are
    // identical, so the filesystem's exclusive create lets exactly one
    // worker fetch while the other reuses the entry
    let locator = b("http://img.example/p.png");
    let name_1 = cache_filename(&locator).unwrap();
    let name_2 = cache_filename(&locator).unwrap();
    assert_eq!(name_1, name_2);

    // the worker that wins the create fetches; the other does not
    let first = on_create_outcome(false, CreateOutcome::Created);
    let second = on_create_outcome(false, CreateOutcome::AlreadyExists);
    assert_eq!(first, CacheStep::Fetch);
    assert_eq!(second, CacheStep::ReuseExisting);
    let fetches = [first, second].iter().filter(|st| **st == CacheStep::Fetch).count();
    assert_eq!(fetches, 1);

    // both documents end up referencing the same cache path
    assert_eq!(rel_path(&name_1), rel_path(&name_2));
}
