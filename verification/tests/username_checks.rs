use key_registry::username::to_canonical;
use key_registry::username::to_lower;
use key_registry::username::username_chars_ok;
use key_registry::username::username_len_ok;

#[test]
fn to_lower_maps_only_ascii_upper_case() {
    assert_eq!(to_lower('A'), 'a');
    assert_eq!(to_lower('Z'), 'z');
    assert_eq!(to_lower('M'), 'm');
    assert_eq!(to_lower('a'), 'a');
    assert_eq!(to_lower('z'), 'z');
    assert_eq!(to_lower('0'), '0');
    assert_eq!(to_lower('_'), '_');
    assert_eq!(to_lower('@'), '@'); // just below 'A'
    assert_eq!(to_lower('['), '['); // just above 'Z'
    assert_eq!(to_lower('\u{e9}'), '\u{e9}');
}

#[test]
fn canonical_form_lower_cases_each_character() {
    assert_eq!(to_canonical("Alice_1"), "alice_1");
    assert_eq!(to_canonical("ALICE_1"), "alice_1");
    assert_eq!(to_canonical("alice_1"), "alice_1");
    assert_eq!(to_canonical("MiXeD_99"), "mixed_99");
    assert_eq!(to_canonical(""), "");
    assert_eq!(to_canonical("B\u{e9}B"), "b\u{e9}b");
}

#[test]
fn length_bounds_are_three_to_twenty() {
    assert!(!username_len_ok(""));
    assert!(!username_len_ok("ab"));
    assert!(username_len_ok("abc"));
    assert!(username_len_ok("abcdefghij0123456789"));
    assert!(!username_len_ok("abcdefghij0123456789x"));
}

#[test]
fn admissible_characters_are_ascii_letters_digits_underscore() {
    assert!(username_chars_ok("Good_Name_42"));
    assert!(username_chars_ok(""));
    assert!(username_chars_ok("___"));
    assert!(!username_chars_ok("bad name"));
    assert!(!username_chars_ok("name!"));
    assert!(!username_chars_ok("caf\u{e9}"));
    assert!(!username_chars_ok("dot.name"));
}
