use panda_note::url::normalize_api_url;

#[test]
fn keeps_panda_api_v1_url() {
    assert_eq!(
        normalize_api_url("https://notes.example/panda/api/v1"),
        "https://notes.example/panda/api/v1"
    );
}

#[test]
fn keeps_api_v1_url() {
    assert_eq!(
        normalize_api_url("http://127.0.0.1:8787/api/v1/"),
        "http://127.0.0.1:8787/api/v1"
    );
}

#[test]
fn appends_api_v1_to_host() {
    assert_eq!(
        normalize_api_url("http://127.0.0.1:8787"),
        "http://127.0.0.1:8787/api/v1"
    );
}

#[test]
fn repairs_double_appended_panda_v1() {
    assert_eq!(
        normalize_api_url("https://notes.example/panda/api/v1/panda/v1"),
        "https://notes.example/panda/api/v1"
    );
}

#[test]
fn normalizing_twice_changes_nothing() {
    for raw in [
        "http://127.0.0.1:8787",
        "  https://notes.example/panda/api/v1/panda/v1/  ",
        "https://host/api/v1",
        "",
    ] {
        let once = normalize_api_url(raw);
        assert_eq!(normalize_api_url(&once), once);
    }
}

#[test]
fn trims_whitespace_and_trailing_slashes() {
    assert_eq!(
        normalize_api_url("  http://example.com/api/v1///  "),
        "http://example.com/api/v1"
    );
}

#[test]
fn normalized_urls_have_a_known_root() {
    for raw in ["", "  http://a.example//  ", "http://a/panda", "http://a/panda/api/v1/panda/v1/panda/v1", "x/panda/v1/"] {
        let r = normalize_api_url(raw);
        assert_eq!(normalize_api_url(&r), r);
        assert_eq!(r.trim(), r);
        assert!(!r.ends_with('/'));
        assert!(r.ends_with("/panda/api/v1") || r.ends_with("/panda/v1") || r.ends_with("/api/v1"));
        assert!(!r.ends_with("/panda/api/v1/panda/v1"));
    }
}
