use paper_dump::extract::extract_references;

fn b(s: &str) -> Vec<u8> {
    s.as_bytes().to_vec()
}

#[test]
fn single_reference_with_exact_range() {
    let content = b("before <img src=\"http://x/y.png\"> after");
    let refs = extract_references(&content);
    assert_eq!(refs.len(), 1);
    let r = &refs[0];
    assert_eq!(r.start, 7);
    assert_eq!(&content[r.start..r.end], b("<img src=\"http://x/y.png\">").as_slice());
    assert_eq!(r.tag, b("<img src=\"http://x/y.png\">"));
    assert_eq!(r.url, b("http://x/y.png"));
}

#[test]
fn attributes_before_and_after_locator() {
    let content = b("<img class=\"pic\" alt=\"a b\" src=\"u1\" width=\"3\">");
    let refs = extract_references(&content);
    assert_eq!(refs.len(), 1);
    assert_eq!(refs[0].url, b("u1"));
    assert_eq!(refs[0].start, 0);
    assert_eq!(refs[0].end, content.len());
}

#[test]
fn inline_data_payload_is_skipped() {
    let content = b("<img src=\"data:image/png;base64,AAAA\"> <img src=\"http://x/a\">");
    let refs = extract_references(&content);
    assert_eq!(refs.len(), 1);
    assert_eq!(refs[0].url, b("http://x/a"));
}

#[test]
fn non_text_tag_is_skipped_and_scan_continues() {
    let mut content = b("<img alt=\"");
    content.push(0xff);
    content.extend_from_slice(b("\" src=\"u1\"> <img src=\"u2\">").as_slice());
    let refs = extract_references(&content);
    assert_eq!(refs.len(), 1);
    assert_eq!(refs[0].url, b("u2"));
}

#[test]
fn no_references_in_plain_content() {
    let refs = extract_references(&b("<p>hello world</p>"));
    assert_eq!(refs.len(), 0);
}

#[test]
fn tag_without_locator_attribute_is_no_match() {
    let refs = extract_references(&b("<img alt=\"x\"> <imgs src=\"u\">"));
    assert_eq!(refs.len(), 0);
}

#[test]
fn matches_come_in_ascending_disjoint_order() {
    let content = b("<img src=\"u1\">..<img src=\"u2\">..<img src=\"u3\">");
    let refs = extract_references(&content);
    assert_eq!(refs.len(), 3);
    assert_eq!(refs[0].url, b("u1"));
    assert_eq!(refs[1].url, b("u2"));
    assert_eq!(refs[2].url, b("u3"));
    for w in refs.windows(2) {
        assert!(w[0].end <= w[1].start);
    }
}

#[test]
fn unterminated_tag_is_no_match() {
    let refs = extract_references(&b("<img src=\"u1\" no closing angle"));
    assert_eq!(refs.len(), 0);
}

#[test]
fn unclosed_locator_is_no_match() {
    let refs = extract_references(&b("<img src=\"unclosed> <p>x</p>"));
    assert_eq!(refs.len(), 0);
}

#[test]
fn locator_may_contain_a_closing_angle() {
    let content = b("<img src=\"a>b\">");
    let refs = extract_references(&content);
    assert_eq!(refs.len(), 1);
    assert_eq!(refs[0].url, b("a>b"));
    assert_eq!(refs[0].start, 0);
    assert_eq!(refs[0].end, content.len());
}

#[test]
fn double_space_before_locator_is_no_match() {
    let refs = extract_references(&b("<img  src=\"u\">"));
    assert_eq!(refs.len(), 0);
}

#[test]
fn rightmost_locator_attribute_wins() {
    let content = b("<img src=\"\" src=\"u\">");
    let refs = extract_references(&content);
    assert_eq!(refs.len(), 1);
    assert_eq!(refs[0].url, b("u"));
    assert_eq!(refs[0].start, 0);
    assert_eq!(refs[0].end, content.len());
}
