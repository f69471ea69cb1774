use guitar::remotes::{
    choose_default_remote, cleared_defaults, config_value_matches, push_url_value, remote_exists, renamed_defaults, sort_remotes, validate_remote_name,
    validate_remote_rename, validate_remote_url, RemoteEntry, RemoteError,
};

fn remote(name: &str) -> RemoteEntry {
    RemoteEntry { name: name.to_string(), url: format!("https://example.com/{name}.git"), push_url: None }
}

#[test]
fn the_default_remote_follows_the_configured_precedence() {
    let remotes = vec![remote("fork"), remote("origin"), remote("upstream")];
    assert_eq!(choose_default_remote(&remotes, Some(" upstream "), Some("fork"), Some("fork")), Some("upstream".to_string()));
    assert_eq!(choose_default_remote(&remotes, Some("gone"), Some("fork"), None), Some("fork".to_string()));
    assert_eq!(choose_default_remote(&remotes, None, None, Some("upstream")), Some("upstream".to_string()));
    assert_eq!(choose_default_remote(&remotes, None, None, Some("gone")), Some("origin".to_string()));
    let without_origin = vec![remote("fork"), remote("upstream")];
    assert_eq!(choose_default_remote(&without_origin, None, None, None), Some("fork".to_string()));
    assert_eq!(choose_default_remote(&[], Some("origin"), None, None), None);
}

#[test]
fn remote_names_are_checked_once_trimmed() {
    assert_eq!(validate_remote_name("  origin "), Ok("origin"));
    assert_eq!(validate_remote_name("   "), Err(RemoteError::EmptyName));
    assert_eq!(validate_remote_name("bad name"), Err(RemoteError::InvalidName));
    assert_eq!(validate_remote_name("bad name").unwrap_err().message(), "remote name is invalid");
    assert_eq!(validate_remote_url(" https://x "), Ok("https://x"));
    assert_eq!(validate_remote_url("\t"), Err(RemoteError::EmptyUrl));
    assert_eq!(validate_remote_url("\t").unwrap_err().message(), "remote URL cannot be empty");
}

#[test]
fn a_rename_has_to_change_the_name() {
    assert_eq!(validate_remote_rename("origin", " origin "), Err(RemoteError::UnchangedName));
    assert_eq!(validate_remote_rename("origin", "upstream"), Ok(("origin", "upstream")));
    assert_eq!(validate_remote_rename("", "upstream"), Err(RemoteError::EmptyName));
    assert_eq!(RemoteError::UnchangedName.message(), "new remote name must differ from current remote name");
}

#[test]
fn blank_push_urls_are_cleared() {
    assert_eq!(push_url_value(Some("  ")), None);
    assert_eq!(push_url_value(Some(" ssh://x ")), Some("ssh://x"));
    assert_eq!(push_url_value(None), None);
}

#[test]
fn default_keys_follow_a_rename_or_a_deletion() {
    assert!(config_value_matches(Some(" origin"), "origin"));
    assert!(!config_value_matches(None, "origin"));
    assert_eq!(renamed_defaults(Some("origin"), Some("other"), "origin"), (true, true));
    assert_eq!(renamed_defaults(Some("other"), Some("origin "), "origin"), (false, true));
    assert_eq!(renamed_defaults(None, None, "origin"), (false, false));
    assert_eq!(cleared_defaults(Some("origin"), Some("origin"), "origin"), (true, true));
    assert_eq!(cleared_defaults(Some("fork"), Some("origin"), "origin"), (false, true));
}

#[test]
fn remotes_are_found_by_name() {
    let remotes = vec![remote("origin")];
    assert!(remote_exists(&remotes, "origin"));
    assert!(!remote_exists(&remotes, "origin2"));
}

#[test]
fn remotes_are_listed_by_name() {
    let sorted = sort_remotes(vec![remote("upstream"), remote("Origin"), remote("origin"), remote("fork"), remote("örigin")]);
    let names: Vec<&str> = sorted.iter().map(|remote| remote.name.as_str()).collect();
    assert_eq!(names, vec!["Origin", "fork", "origin", "upstream", "örigin"]);
    assert!(sort_remotes(Vec::new()).is_empty());
}
