use paper_dump::splice::{check_spans, splice_resolved, Span};

fn b(s: &str) -> Vec<u8> {
    s.as_bytes().to_vec()
}

fn span(start: usize, end: usize, bytes: &str) -> Span {
    Span { start, end, bytes: b(bytes) }
}

#[test]
fn splice_replaces_ranges_and_keeps_gaps() {
    // content:  0123456789
    let content = b("aaaXXbbYYc");
    let spans = vec![span(3, 5, "11"), span(7, 9, "2222")];
    let out = splice_resolved(&content, spans);
    assert_eq!(out, b("aaa11bb2222c"));
}

#[test]
fn splice_with_no_spans_returns_content_unchanged() {
    let content = b("nothing to replace here");
    let out = splice_resolved(&content, vec![]);
    assert_eq!(out, content);
}

#[test]
fn splice_output_is_independent_of_span_order() {
    let content = b("0123456789abcdef");
    let forward = vec![span(1, 3, "A"), span(5, 6, "BB"), span(9, 12, "C")];
    let shuffled = vec![span(9, 12, "C"), span(1, 3, "A"), span(5, 6, "BB")];
    let out1 = splice_resolved(&content, forward);
    let out2 = splice_resolved(&content, shuffled);
    assert_eq!(out1, out2);
    assert_eq!(out1, b("0A34BB678Ccdef"));
}

#[test]
fn splice_at_content_edges() {
    let content = b("abcdef");
    let spans = vec![span(0, 2, "X"), span(4, 6, "Y")];
    let out = splice_resolved(&content, spans);
    assert_eq!(out, b("XcdY"));
}

#[test]
fn adjacent_spans_touching_are_valid() {
    let content = b("abcd");
    let spans = vec![span(2, 4, "2"), span(0, 2, "1")];
    assert!(check_spans(content.len(), &spans));
    let out = splice_resolved(&content, spans);
    assert_eq!(out, b("12"));
}

#[test]
fn check_spans_rejects_overlap_and_out_of_bounds() {
    let content = b("abcdef");
    assert!(!check_spans(content.len(), &vec![span(0, 3, "x"), span(2, 4, "y")]));
    assert!(!check_spans(content.len(), &vec![span(4, 9, "x")]));
    assert!(!check_spans(content.len(), &vec![span(3, 3, "x")]));
    assert!(check_spans(content.len(), &vec![span(0, 1, "x"), span(5, 6, "y")]));
}

#[test]
fn replace_all_rewrites_each_occurrence() {
    let out = paper_dump::replace::replace_all(
        &b("<img data-u=\"u1\" src=\"u1\">"),
        &b("u1"),
        &b("images/local.png"),
    );
    assert_eq!(out, b("<img data-u=\"images/local.png\" src=\"images/local.png\">"));
}

#[test]
fn replace_all_without_occurrence_is_identity() {
    let out = paper_dump::replace::replace_all(&b("abc"), &b("zz"), &b("y"));
    assert_eq!(out, b("abc"));
}
