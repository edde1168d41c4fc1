use cookie_profiles::state::ActivationError;
use cookie_profiles::state::AppState;
use cookie_profiles::state::DirectoryError;

fn listing(names: &[&str]) -> Result<Vec<String>, String> {
    Ok(names.iter().map(|n| n.to_string()).collect())
}

#[test]
fn startup_scans_directory() {
    let s = AppState::new("/cookies".to_string(), &listing(&["cookies_alice.txt"]));
    assert_eq!(s.current_directory().as_str(), "/cookies");
    assert_eq!(s.profiles().len(), 1);
    assert_eq!(s.selected_profile(), None);
    assert_eq!(*s.diagnostic(), None);
}

#[test]
fn empty_directory_reports_convention() {
    let s = AppState::new("/cookies".to_string(), &listing(&["notes.log"]));
    assert!(s.profiles().is_empty());
    assert_eq!(
        s.diagnostic().as_deref(),
        Some(
            "No cookie files found in /cookies. \
             Looking for files named 'cookies_*.txt' or 'cookies_*'."
        )
    );
}

#[test]
fn unreadable_directory_reports_error() {
    let s = AppState::new("/cookies".to_string(), &Err("permission denied".to_string()));
    assert!(s.profiles().is_empty());
    assert_eq!(
        s.diagnostic().as_deref(),
        Some("Error scanning directory /cookies: permission denied")
    );
}

#[test]
fn refresh_clears_selection() {
    let l = listing(&["cookies_alice.txt", "cookies_bob"]);
    let mut s = AppState::new("/cookies".to_string(), &l);
    let r = s.apply_activation(0, Ok(()));
    assert!(r.is_ok());
    assert_eq!(s.selected_profile(), Some(0));
    s.refresh(&l);
    assert_eq!(s.selected_profile(), None);
}

#[test]
fn activation_request_builds_paths() {
    let s = AppState::new("/cookies".to_string(), &listing(&["cookies_alice.txt"]));
    let req = s.activation_request(0).unwrap();
    assert_eq!(req.source, "/cookies/cookies_alice.txt");
    assert_eq!(req.target, "/cookies/cookies");
    assert!(s.activation_request(1).is_none());
}

#[test]
fn successful_activation_selects_profile() {
    let mut s = AppState::new("/cookies".to_string(), &listing(&["cookies_alice.txt"]));
    let r = s.apply_activation(0, Ok(()));
    assert!(r.is_ok());
    assert_eq!(s.selected_profile(), Some(0));
    assert_eq!(s.diagnostic().as_deref(), Some("✅ Switched to Alice profile"));
}

#[test]
fn failed_activation_keeps_selection() {
    let mut s = AppState::new("/cookies".to_string(), &listing(&["cookies_alice.txt"]));
    let r = s.apply_activation(0, Err("No such file or directory".to_string()));
    match r {
        Err(ActivationError::CopyFailed(m)) => {
            assert_eq!(m, "No such file or directory");
        }
        _ => panic!("expected a copy failure"),
    }
    assert_eq!(s.selected_profile(), None);
    assert_eq!(s.profiles().len(), 1);
    assert_eq!(
        s.diagnostic().as_deref(),
        Some("Failed to copy /cookies/cookies_alice.txt: No such file or directory")
    );
}

#[test]
fn directory_change_applies_and_rescans() {
    let mut s = AppState::new("/old".to_string(), &listing(&["cookies_alice.txt"]));
    s.apply_activation(0, Ok(())).unwrap();
    let r = s.apply_directory_change("/new", true, &listing(&["cookies_bob", "cookies_carol"]));
    assert!(r.is_ok());
    assert_eq!(s.current_directory().as_str(), "/new");
    assert_eq!(s.selected_profile(), None);
    let names: Vec<&str> = s.profiles().iter().map(|p| p.name.as_str()).collect();
    assert_eq!(names, vec!["bob", "carol"]);
    assert_eq!(s.diagnostic().as_deref(), Some("✅ Directory changed successfully"));
}

#[test]
fn invalid_directory_change_is_rejected() {
    let mut s = AppState::new("/old".to_string(), &listing(&["cookies_alice.txt"]));
    let r = s.apply_directory_change("/missing", false, &listing(&[]));
    assert_eq!(r, Err(DirectoryError::InvalidDirectory));
    assert_eq!(s.current_directory().as_str(), "/old");
    assert_eq!(s.profiles().len(), 1);
    assert_eq!(s.profiles()[0].name, "alice");
    assert_eq!(
        s.diagnostic().as_deref(),
        Some("❌ Directory does not exist or is not a directory")
    );
}

#[test]
fn end_to_end_switch() {
    let l = listing(&["cookies_alice.txt", "cookies_bob", "notes.log"]);
    let mut s = AppState::new("/cookies".to_string(), &l);
    let displays: Vec<&str> = s.profiles().iter().map(|p| p.display_name.as_str()).collect();
    assert_eq!(displays, vec!["Alice", "Bob"]);
    let req = s.activation_request(0).unwrap();
    assert_eq!(req.source, "/cookies/cookies_alice.txt");
    assert_eq!(req.target, "/cookies/cookies");
    let r = s.apply_activation(0, Ok(()));
    assert!(r.is_ok());
    assert_eq!(s.selected_profile(), Some(0));
}
