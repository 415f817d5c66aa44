use caramell::tone::{Note, Tone, ToneModifier};

#[test]
fn parse_tone() {
    assert_eq!(Tone::new("C"), Ok(Tone::C));
    assert_eq!(Tone::new("@"), Err("unknown tone".to_string()));
}

#[test]
fn parse_tone_modifier() {
    assert_eq!(ToneModifier::new("♮"), Ok(ToneModifier::Natural));
    assert_eq!(ToneModifier::new("##"), Err("unknown tone modifier".to_string()));
}

#[test]
fn mod_parse_note() {
    assert_eq!(Note::new("C#"), Ok(Note { tone: Tone::C, modifier: Some(ToneModifier::Sharp) }));
    assert_eq!(Note::new("G"), Ok(Note { tone: Tone::G, modifier: None }));
    assert_eq!(Note::new("$"), Err("unknown tone".to_string()));
    assert_eq!(Note::new("E%"), Err("unknown tone modifier".to_string()));
}

#[test]
fn tone_modifiers() {
    assert_eq!(ToneModifier::new("x"), Ok(ToneModifier::DoubleSharp));
    assert_eq!(ToneModifier::new("bb"), Ok(ToneModifier::DoubleFlat));
    assert_eq!(Note::new("Ab"), Ok(Note { tone: Tone::A, modifier: Some(ToneModifier::Flat) }));
    assert_eq!(Note::new(""), Err("unknown tone".to_string()));
}
