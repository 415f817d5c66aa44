use caramell::chordpro::{
    chord, directive, directive_from_flags, is_valid_accidental, is_valid_chord_symbol,
    is_valid_note,
};

#[test]
fn test_directive() {
    // Directive can only have alphabetic
    assert!(directive("{Hello World!}").is_err());
    assert!(directive("{end_of_chorus123}").is_err());
    assert_eq!(directive("{start_of_chorus}"), Ok(("", "start_of_chorus")));
}

#[test]
fn test_chord() {
    assert!(chord("C").is_err(), "Must be surrounded by brackets");
    // Sorry, German notation...
    assert!(chord("[H]").is_err(), "Only letters A..G are accepted");
    assert!(chord("[]").is_err(), "Must contain chord");
    assert!(chord("[#]").is_err(), "Must contain note first, then (maybe) accidental");
    assert_eq!(chord("[E]"), Ok(("", "E")));
    assert_eq!(chord("[E/G#]"), Ok(("", "E/G#")));
}

#[test]
fn directive_keeps_the_rest() {
    assert_eq!(directive("{title}Hello"), Ok(("Hello", "title")));
    assert!(directive("{}").is_err());
    assert!(directive("{title").is_err());
    assert_eq!(chord("[Bb]la"), Ok(("la", "Bb")));
}

#[test]
fn chord_characters() {
    assert!(is_valid_note('A') && is_valid_note('G') && !is_valid_note('H'));
    assert!(is_valid_accidental('#') && is_valid_accidental('b') && !is_valid_accidental('x'));
    assert!(is_valid_chord_symbol('/') && !is_valid_chord_symbol('m'));
}

#[test]
fn directive_from_given_flags() {
    let text = "{ab_c}x";
    let flags = vec![false, true, true, false, true, false, true];
    assert_eq!(directive_from_flags(text, &flags), Ok(("x", "ab_c")));
    let none = vec![false; 7];
    assert!(directive_from_flags(text, &none).is_err());
    let all_but_b = vec![false, true, false, false, true, false, true];
    assert!(directive_from_flags(text, &all_but_b).is_err());
}
