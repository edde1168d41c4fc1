use cookie_profiles::paths::config_file_path_with;
use cookie_profiles::paths::default_directory_input;
use cookie_profiles::paths::expand_path;
use cookie_profiles::paths::expand_path_with;
use cookie_profiles::paths::join_path;
use cookie_profiles::paths::locate_config_file;
use cookie_profiles::paths::preference_candidate;
use cookie_profiles::paths::resolve_directory;

fn home() -> Option<String> {
    Some("/home/u".to_string())
}

#[test]
fn join_inserts_separator() {
    assert_eq!(join_path("/a", "b"), "/a/b");
}

#[test]
fn join_keeps_existing_separator() {
    assert_eq!(join_path("/a/", "b"), "/a/b");
}

#[test]
fn join_empty_directory() {
    assert_eq!(join_path("", "b"), "b");
}

#[test]
fn expand_replaces_home_marker() {
    assert_eq!(expand_path_with("~/data/x", &home()), "/home/u/data/x");
}

#[test]
fn expand_without_home_is_unchanged() {
    assert_eq!(expand_path_with("~/data/x", &None), "~/data/x");
}

#[test]
fn expand_leaves_absolute_path_alone() {
    assert_eq!(expand_path_with("/var/tmp", &home()), "/var/tmp");
    assert_eq!(expand_path("/var/tmp"), "/var/tmp");
}

#[test]
fn expand_bare_tilde_is_unchanged() {
    assert_eq!(expand_path_with("~", &home()), "~");
}

#[test]
fn default_directory_is_home_relative() {
    assert_eq!(default_directory_input(), "~/.var/app/org.vinegarhq.Sober/data/sober/");
}

#[test]
fn candidate_absent_content() {
    assert_eq!(preference_candidate(&None, &home()), None);
}

#[test]
fn candidate_blank_content() {
    let content = Some("   \n".to_string());
    assert_eq!(preference_candidate(&content, &home()), None);
}

#[test]
fn candidate_trims_and_expands() {
    let content = Some("  ~/cookies \n".to_string());
    assert_eq!(preference_candidate(&content, &home()).as_deref(), Some("/home/u/cookies"));
}

#[test]
fn resolve_uses_existing_candidate() {
    let cand = Some("/tmp/cookies".to_string());
    assert_eq!(resolve_directory(&cand, true, &home()), "/tmp/cookies");
}

#[test]
fn resolve_falls_back_when_candidate_missing() {
    let cand = Some("/no/such/dir".to_string());
    assert_eq!(
        resolve_directory(&cand, false, &home()),
        "/home/u/.var/app/org.vinegarhq.Sober/data/sober/"
    );
}

#[test]
fn resolve_falls_back_without_candidate() {
    assert_eq!(
        resolve_directory(&None, false, &home()),
        "/home/u/.var/app/org.vinegarhq.Sober/data/sober/"
    );
}

#[test]
fn resolve_without_home_keeps_marker() {
    assert_eq!(
        resolve_directory(&None, false, &None),
        "~/.var/app/org.vinegarhq.Sober/data/sober/"
    );
}

#[test]
fn config_path_below_root() {
    assert_eq!(
        config_file_path_with("/home/u/.config"),
        "/home/u/.config/sober-cookie-manager/directory.txt"
    );
}

#[test]
fn locate_config_file_shape() {
    let p = locate_config_file("/fallback");
    assert!(p.ends_with("sober-cookie-manager/directory.txt"));
}
