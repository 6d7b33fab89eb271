use hootvoice::update::{is_latest_newer, parse_repo_spec, parse_version};

#[test]
fn repo_specs_accept_pairs_and_urls() {
    assert_eq!(
        parse_repo_spec("owner/repo"),
        Some(("owner".to_string(), "repo".to_string()))
    );
    assert_eq!(
        parse_repo_spec("https://github.com/agata/hootvoice/releases/latest"),
        Some(("agata".to_string(), "hootvoice".to_string()))
    );
    assert_eq!(parse_repo_spec("  "), None);
    assert_eq!(parse_repo_spec("just-a-name"), None);
    assert_eq!(parse_repo_spec("a/b/c"), None);
}

#[test]
fn version_texts_parse_as_triples() {
    assert_eq!(parse_version("v1.2.3"), Some((1, 2, 3)));
    assert_eq!(parse_version(" 2.0 "), Some((2, 0, 0)));
    assert_eq!(parse_version("1.2.3-beta"), Some((1, 2, 3)));
    assert_eq!(parse_version("seven"), None);
}

#[test]
fn newer_versions_are_detected() {
    assert!(is_latest_newer("v1.2.3", "1.2.4"));
    assert!(is_latest_newer("1.2.9", "1.3.0"));
    assert!(!is_latest_newer("1.3.0", "1.2.9"));
    assert!(!is_latest_newer("v2.0", "2.0.0"));
    // unparseable versions fall back to a trimmed comparison
    assert!(is_latest_newer("abc", "abd"));
    assert!(!is_latest_newer(" x ", "x"));
}
