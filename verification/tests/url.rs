use link_search::url::{keeps, normalize, starts_with, trim_leading_slashes};

#[test]
fn starts_with_agrees_with_the_prefix_relation() {
    assert!(starts_with("http://a", "http"));
    assert!(starts_with("http", "http"));
    assert!(starts_with("anything", ""));
    assert!(starts_with("", ""));
    assert!(!starts_with("htt", "http"));
    assert!(!starts_with("", "http"));
    assert!(!starts_with("xhttp", "http"));
    assert!(!starts_with("Http://a", "http"));
}

#[test]
fn starts_with_compares_characters_not_bytes() {
    assert!(starts_with("\u{e9}t\u{e9}", "\u{e9}t"));
    assert!(!starts_with("\u{e9}t\u{e9}", "\u{e8}"));
    assert!(!starts_with("e", "\u{e9}"));
}

#[test]
fn trim_leading_slashes_removes_every_leading_slash() {
    assert_eq!(trim_leading_slashes("//example.com/x"), "example.com/x");
    assert_eq!(trim_leading_slashes("////a//b/"), "a//b/");
    assert_eq!(trim_leading_slashes("/"), "");
    assert_eq!(trim_leading_slashes("///"), "");
    assert_eq!(trim_leading_slashes(""), "");
    assert_eq!(trim_leading_slashes("a/"), "a/");
    assert_eq!(trim_leading_slashes("//\u{e9}/\u{fc}"), "\u{e9}/\u{fc}");
}

#[test]
fn normalize_rewrites_protocol_relative_to_https() {
    assert_eq!(normalize("//example.com/x".to_string()), "https://example.com/x");
    assert_eq!(normalize("//".to_string()), "https://");
    assert_eq!(normalize("//en.wikipedia.org/wiki/Z\u{fc}rich".to_string()), "https://en.wikipedia.org/wiki/Z\u{fc}rich");
}

#[test]
fn normalize_strips_all_leading_slashes_of_a_protocol_relative_value() {
    assert_eq!(normalize("///example.com".to_string()), "https://example.com");
    assert_eq!(normalize("/////".to_string()), "https://");
}

#[test]
fn normalize_leaves_other_values_alone() {
    assert_eq!(normalize("/relative".to_string()), "/relative");
    assert_eq!(normalize("http://example.com//x".to_string()), "http://example.com//x");
    assert_eq!(normalize("https://example.com".to_string()), "https://example.com");
    assert_eq!(normalize("mailto:a@b.c".to_string()), "mailto:a@b.c");
    assert_eq!(normalize("#top".to_string()), "#top");
    assert_eq!(normalize("".to_string()), "");
    assert_eq!(normalize("/".to_string()), "/");
    assert_eq!(normalize("a//b".to_string()), "a//b");
}

#[test]
fn keeps_only_what_begins_with_http() {
    assert!(keeps("http://example.com"));
    assert!(keeps("https://example.com"));
    assert!(keeps("http"));
    assert!(!keeps("/relative"));
    assert!(!keeps("mailto:a@b.c"));
    assert!(!keeps("javascript:void(0)"));
    assert!(!keeps("#fragment"));
    assert!(!keeps("ftp://example.com"));
    assert!(!keeps("HTTP://example.com"));
    assert!(!keeps(""));
}

#[test]
fn a_normalized_protocol_relative_value_is_kept() {
    let url = normalize("//example.com/x".to_string());
    assert!(keeps(&url));
    assert!(starts_with(&url, "https://"));
}
