use mobinogi_timer::update::{check_update, find_update, ReleaseInfo};

fn rel(tag: Option<&str>, url: Option<&str>, draft: Option<bool>, pre: Option<bool>) -> ReleaseInfo {
    ReleaseInfo {
        tag_name: tag.map(|s| s.to_string()),
        html_url: url.map(|s| s.to_string()),
        draft,
        prerelease: pre,
    }
}

#[test]
fn picks_first_matching_release() {
    let rs = vec![
        rel(Some("v2027.1.1-auto"), Some("u0"), None, None),
        rel(Some("v2026.3.1-auto"), Some("u1"), Some(true), None),
        rel(Some("v2026.3.0-auto"), Some("u2"), None, Some(true)),
        rel(Some("v2026.2.9"), Some("u3"), None, None),
        rel(Some("vv2026.2.8-auto"), Some("u4"), Some(false), Some(false)),
        rel(Some("v2026.2.7-auto"), Some("u5"), None, None),
    ];
    let u = find_update("2026.2.25-auto", &rs);
    assert_eq!((u.tag.as_str(), u.url.as_str()), ("2026.2.8-auto", "u4"));
}

#[test]
fn no_suffix_accepts_auto_and_plain() {
    let rs = vec![rel(Some("2026.5.0-beta"), None, None, None), rel(Some("2026.4.0-auto"), None, None, None)];
    let u = find_update("2026.1.0", &rs);
    assert_eq!((u.tag.as_str(), u.url.as_str()), ("2026.4.0-auto", ""));
    let rs = vec![rel(Some("v2026.6.0"), Some("x"), None, None)];
    let u = find_update("2026.1.0", &rs);
    assert_eq!(u.tag, "2026.6.0");
    // A suffixed build does not take a plain release.
    let u = find_update("2026.1.0-auto", &rs);
    assert_eq!((u.tag.as_str(), u.url.as_str()), ("", ""));
}

#[test]
fn releases_without_tag_are_skipped() {
    let rs = vec![rel(None, Some("x"), None, None)];
    let u = find_update("2026.1.0", &rs);
    assert_eq!((u.tag.as_str(), u.url.as_str()), ("", ""));
}

#[test]
fn check_update_reads_json_listing() {
    let body = r#"[
        {"tag_name": "v2026.9.1-auto", "html_url": "https://a", "draft": true, "prerelease": false},
        {"tag_name": "v2026.9.0-auto", "html_url": "https://b", "draft": false, "prerelease": false},
        {"tag_name": "v2026.8.0-auto", "html_url": "https://c"}
    ]"#;
    let u = check_update("2026.2.25-auto", body);
    assert_eq!((u.tag.as_str(), u.url.as_str()), ("2026.9.0-auto", "https://b"));
}

#[test]
fn check_update_with_odd_fields() {
    // A draft flag that is not a boolean counts as not a draft; a non-string URL as none.
    let body = r#"[{"tag_name": "2026.9.0", "html_url": 5, "draft": "yes"}, 3]"#;
    let u = check_update("2026.1.0", body);
    assert_eq!((u.tag.as_str(), u.url.as_str()), ("2026.9.0", ""));
}

#[test]
fn check_update_on_bad_listing() {
    let u = check_update("2026.1.0", "not json");
    assert_eq!((u.tag.as_str(), u.url.as_str()), ("", ""));
    let u = check_update("2026.1.0", r#"{"tag_name": "2026.9.0"}"#);
    assert_eq!((u.tag.as_str(), u.url.as_str()), ("", ""));
    let u = check_update("2026.1.0", "[]");
    assert_eq!((u.tag.as_str(), u.url.as_str()), ("", ""));
}
