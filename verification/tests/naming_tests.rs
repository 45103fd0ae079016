use paper_dump::naming::{cache_filename, disk_path, locator_hash, rel_path};

fn b(s: &str) -> Vec<u8> {
    s.as_bytes().to_vec()
}

#[test]
fn hash_has_known_value_and_length() {
    // SHA-256 of "abc", base64url without padding
    let h = locator_hash(&b("abc"));
    assert_eq!(h, b("ungWv48Bz-pBQUDeXa4iI7ADYaOWF3qctBD_YfIAFa0"));
    assert_eq!(h.len(), 43);
}

#[test]
fn hash_bytes_are_filename_safe() {
    let h = locator_hash(&b("https://example.com/a/pic.png"));
    for &c in h.iter() {
        assert!(
            c.is_ascii_alphanumeric() || c == b'-' || c == b'_',
            "unsafe hash byte {}",
            c
        );
    }
}

#[test]
fn hash_of_empty_input() {
    let h = locator_hash(&b(""));
    assert_eq!(h, b("47DEQpj8HBSa-_TImW-5JCeuQeRkm5NMpJWZG3hSuFU"));
}

#[test]
fn filename_with_extension() {
    let name = cache_filename(&b("https://example.com/a/pic.png")).unwrap();
    assert_eq!(name, b("pic__GbV_pBfNfkTXTumi9lw6Q0ECP-2fuQTOmgQKLPNZmV8.png"));
}

#[test]
fn filename_without_extension() {
    let name = cache_filename(&b("https://example.com/noext")).unwrap();
    assert_eq!(name, b("noext__XhdgWTLKhYM3-kbhksy8EfStgAsH5oVAu53mnYNun_M"));
}

#[test]
fn identical_locators_map_to_identical_names() {
    let u = b("http://img.example/p.png");
    let n1 = cache_filename(&u).unwrap();
    let n2 = cache_filename(&u).unwrap();
    assert_eq!(n1, n2);
    assert_eq!(n1, b("p__2cABRHQLAWu2osvMNdydPcmbcHOJFUUAm-t1LdwXS54.png"));
}

#[test]
fn invalid_locator_has_no_name() {
    assert!(cache_filename(&b("not a url")).is_none());
    assert!(cache_filename(&b("mailto:someone@example.com")).is_none());
    let mut bad = b("http://x/");
    bad.push(0xff);
    assert!(cache_filename(&bad).is_none());
}

#[test]
fn cache_paths_prefix_the_name() {
    let name = b("pic__h.png");
    assert_eq!(rel_path(&name), b("images/pic__h.png"));
    assert_eq!(disk_path(&name), b("docs/images/pic__h.png"));
}
