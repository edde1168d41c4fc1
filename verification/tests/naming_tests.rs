use cookie_profiles::naming::format_profile_name;
use cookie_profiles::naming::profile_emoji;

#[test]
fn format_snake_case() {
    assert_eq!(format_profile_name("john_doe"), "John Doe");
}

#[test]
fn format_kebab_case() {
    assert_eq!(format_profile_name("mary-jane"), "Mary Jane");
}

#[test]
fn format_mixed_separators_and_case() {
    assert_eq!(format_profile_name("ALICE_von-DOE"), "Alice Von Doe");
}

#[test]
fn format_collapses_repeated_separators() {
    assert_eq!(format_profile_name("a__b--c"), "A B C");
}

#[test]
fn format_empty_identifier() {
    assert_eq!(format_profile_name(""), "");
    assert_eq!(format_profile_name("___"), "");
}

#[test]
fn format_idempotent_on_title_cased_input() {
    assert_eq!(format_profile_name("Alice"), "Alice");
    assert_eq!(format_profile_name("John Doe"), "John Doe");
    let once = format_profile_name("john_doe");
    assert_eq!(format_profile_name(&once), once);
}

#[test]
fn format_is_pure() {
    let a = format_profile_name("john_doe");
    let b = format_profile_name("john_doe");
    assert_eq!(a, b);
}

#[test]
fn emoji_palette_cycles() {
    assert_eq!(profile_emoji(0), "🦆");
    assert_eq!(profile_emoji(1), "🐱");
    assert_eq!(profile_emoji(9), "🐯");
    assert_eq!(profile_emoji(10), "🦆");
    assert_eq!(profile_emoji(23), "🐸");
}
