use cookie_profiles::discovery::scan;

fn listing(names: &[&str]) -> Vec<String> {
    names.iter().map(|n| n.to_string()).collect()
}

#[test]
fn scan_mixed_directory() {
    let l = listing(&["cookies_alice.txt", "cookies_bob", "notes.log"]);
    let ps = scan(&l);
    assert_eq!(ps.len(), 2);
    assert_eq!(ps[0].name, "alice");
    assert_eq!(ps[0].cookie_file, "cookies_alice.txt");
    assert_eq!(ps[0].display_name, "Alice");
    assert_eq!(ps[1].name, "bob");
    assert_eq!(ps[1].cookie_file, "cookies_bob");
    assert_eq!(ps[1].display_name, "Bob");
}

#[test]
fn scan_sorts_by_identifier() {
    let l = listing(&["cookies_zoe.txt", "cookies_amy.txt", "cookies_mia"]);
    let ps = scan(&l);
    let names: Vec<&str> = ps.iter().map(|p| p.name.as_str()).collect();
    assert_eq!(names, vec!["amy", "mia", "zoe"]);
}

#[test]
fn scan_excludes_unrelated_extensions() {
    let l = listing(&["cookies_alice.json", "cookies_bob.txt.bak", "cookies_carol.txt"]);
    let ps = scan(&l);
    assert_eq!(ps.len(), 1);
    assert_eq!(ps[0].name, "carol");
}

#[test]
fn scan_accepts_extensionless_files() {
    // Any extension-less name with the prefix matches, even one that is
    // probably not a cookie payload.
    let l = listing(&["cookies_README"]);
    let ps = scan(&l);
    assert_eq!(ps.len(), 1);
    assert_eq!(ps[0].name, "README");
}

#[test]
fn scan_skips_active_cookies_file() {
    let l = listing(&["cookies", "cookies_alice.txt"]);
    let ps = scan(&l);
    assert_eq!(ps.len(), 1);
    assert_eq!(ps[0].name, "alice");
}

#[test]
fn scan_empty_identifier_matches() {
    let l = listing(&["cookies_", "cookies_.txt"]);
    let ps = scan(&l);
    assert_eq!(ps.len(), 2);
    assert_eq!(ps[0].name, "");
    assert_eq!(ps[1].name, "");
    // ties on the identifier are broken by the original filename
    assert_eq!(ps[0].cookie_file, "cookies_");
    assert_eq!(ps[1].cookie_file, "cookies_.txt");
}

#[test]
fn scan_keeps_inner_dots_in_identifier() {
    let l = listing(&["cookies_a.b.txt"]);
    let ps = scan(&l);
    assert_eq!(ps.len(), 1);
    assert_eq!(ps[0].name, "a.b");
}

#[test]
fn scan_tie_between_plain_and_txt() {
    let l = listing(&["cookies_a.txt", "cookies_a"]);
    let ps = scan(&l);
    assert_eq!(ps.len(), 2);
    assert_eq!(ps[0].name, "a");
    assert_eq!(ps[0].cookie_file, "cookies_a");
    assert_eq!(ps[1].cookie_file, "cookies_a.txt");
}

#[test]
fn scan_assigns_emoji_cyclically() {
    let mut names: Vec<String> = Vec::new();
    for i in 0..12 {
        names.push(format!("cookies_p{:02}", i));
    }
    let ps = scan(&names);
    assert_eq!(ps.len(), 12);
    assert_eq!(ps[0].emoji, "🦆");
    assert_eq!(ps[3].emoji, "🐸");
    assert_eq!(ps[9].emoji, "🐯");
    assert_eq!(ps[10].emoji, "🦆");
    assert_eq!(ps[11].emoji, "🐱");
}

#[test]
fn scan_is_deterministic() {
    let l = listing(&["cookies_bob", "cookies_alice.txt", "alice.png"]);
    let a = scan(&l);
    let b = scan(&l);
    assert_eq!(a.len(), b.len());
    for (x, y) in a.iter().zip(b.iter()) {
        assert_eq!(x.name, y.name);
        assert_eq!(x.cookie_file, y.cookie_file);
        assert_eq!(x.display_name, y.display_name);
        assert_eq!(x.emoji, y.emoji);
        assert_eq!(x.avatar_file, y.avatar_file);
    }
}

#[test]
fn scan_associates_avatar_by_lowercased_identifier() {
    let l = listing(&["cookies_Bob", "bob.png"]);
    let ps = scan(&l);
    assert_eq!(ps.len(), 1);
    assert_eq!(ps[0].name, "Bob");
    assert_eq!(ps[0].avatar_file.as_deref(), Some("bob.png"));
}

#[test]
fn scan_missing_avatar_is_none() {
    let l = listing(&["cookies_alice.txt"]);
    let ps = scan(&l);
    assert_eq!(ps[0].avatar_file, None);
}

#[test]
fn scan_empty_listing() {
    let l: Vec<String> = Vec::new();
    let ps = scan(&l);
    assert!(ps.is_empty());
}
