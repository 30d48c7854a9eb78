use dodeca::authz::{is_editor, str_eq_ignore_ascii_case, AuthConfig, Identity};

fn identity(user: &str, groups: &[&str]) -> Identity {
    Identity {
        user: user.to_string(),
        email: format!("{user}@example.com"),
        name: "Name".to_string(),
        groups: groups.iter().map(|s| s.to_string()).collect(),
    }
}

#[test]
fn anonymous_is_never_an_editor() {
    let auth = AuthConfig {
        editors: Some(vec!["amos".to_string()]),
        editor_groups: Some(vec!["editors".to_string()]),
    };
    assert!(!is_editor(None, &auth));
}

#[test]
fn empty_config_fails_closed() {
    let auth = AuthConfig {
        editors: None,
        editor_groups: None,
    };
    assert!(!is_editor(Some(&identity("amos", &["editors"])), &auth));
}

#[test]
fn matches_by_user_case_insensitively() {
    let auth = AuthConfig {
        editors: Some(vec!["Amos".to_string()]),
        editor_groups: None,
    };
    assert!(is_editor(Some(&identity("amos", &[])), &auth));
    assert!(!is_editor(Some(&identity("other", &[])), &auth));
}

#[test]
fn matches_by_group() {
    let auth = AuthConfig {
        editors: None,
        editor_groups: Some(vec!["editors".to_string()]),
    };
    assert!(is_editor(
        Some(&identity("x@y.z", &["readers", "editors"])),
        &auth
    ));
    assert!(!is_editor(Some(&identity("x@y.z", &["readers"])), &auth));
}

#[test]
fn groups_match_exactly_and_lists_may_be_empty() {
    let auth = AuthConfig {
        editors: Some(vec![]),
        editor_groups: Some(vec!["Editors".to_string()]),
    };
    assert!(!is_editor(Some(&identity("amos", &["editors"])), &auth));
    assert!(str_eq_ignore_ascii_case("ÄBC", "Äbc"));
    assert!(!str_eq_ignore_ascii_case("äbc", "Äbc"));
}
