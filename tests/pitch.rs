use caramell::pitch::{Accidental, Note, PitchClass};

#[test]
fn parse_pitch_class() {
    assert_eq!(PitchClass::new("C"), Ok(PitchClass::C));
    assert_eq!(PitchClass::new("@"), Err("unknown pitch".to_string()));
}

#[test]
fn parse_accidental() {
    assert_eq!(Accidental::new("♮"), Ok(Accidental::Natural));
    assert_eq!(Accidental::new("&"), Err("unknown accidental".to_string()));
}

#[test]
fn pitch_parse_note() {
    assert_eq!(
        Note::new("C#"),
        Ok(Note {
            pitch: PitchClass::C,
            accidental: Some(Accidental::Sharp)
        })
    );
    assert_eq!(
        Note::new("G"),
        Ok(Note {
            pitch: PitchClass::G,
            accidental: None
        })
    );
    assert_eq!(Note::new("$"), Err("unknown pitch".to_string()));
    assert_eq!(Note::new("E%"), Err("unknown accidental".to_string()));
}

#[test]
fn test_note_position() {
    assert_eq!(Note::new("Gbb").unwrap().position(), -12);
    assert_eq!(Note::new("A#").unwrap().position(), 11);
}

#[test]
fn natural_positions() {
    assert_eq!(Note::new("C").unwrap().position(), 1);
    assert_eq!(Note::new("F").unwrap().position(), 0);
    assert_eq!(Note::new("B##").unwrap().position(), 20);
    assert_eq!(Note::new("Fbb").unwrap().position(), -14);
}

#[test]
fn enharmonic_spellings_stay_apart() {
    let mut seen = Vec::new();
    for p in ["F", "C", "G", "D", "A", "E", "B"] {
        for a in ["", "##", "#", "b", "bb"] {
            let pos = Note::new(&format!("{p}{a}")).unwrap().position();
            assert!(!seen.contains(&pos));
            seen.push(pos);
        }
    }
    assert_ne!(
        Note::new("F#").unwrap().position(),
        Note::new("Gb").unwrap().position()
    );
}

#[test]
fn all_accidentals() {
    assert_eq!(Accidental::new("##"), Ok(Accidental::DoubleSharp));
    assert_eq!(Accidental::new("#"), Ok(Accidental::Sharp));
    assert_eq!(Accidental::new("b"), Ok(Accidental::Flat));
    assert_eq!(Accidental::new("bb"), Ok(Accidental::DoubleFlat));
    assert_eq!(Accidental::new("bbb"), Err("unknown accidental".to_string()));
    assert_eq!(Accidental::new(""), Err("unknown accidental".to_string()));
}

#[test]
fn empty_note_is_an_unknown_pitch() {
    assert_eq!(Note::new(""), Err("unknown pitch".to_string()));
    assert_eq!(PitchClass::new("CC"), Err("unknown pitch".to_string()));
}

#[test]
fn pitch_class_from_int() {
    assert_eq!(PitchClass::from_int(0), Ok(PitchClass::F));
    assert_eq!(PitchClass::from_int(6), Ok(PitchClass::B));
    assert_eq!(
        PitchClass::from_int(7),
        Err("expected int 0..6, cannot map int '7' to PitchClass".to_string())
    );
    assert_eq!(
        PitchClass::from_int(-3),
        Err("expected int 0..6, cannot map int '-3' to PitchClass".to_string())
    );
}

#[test]
fn note_names() {
    assert_eq!(Note::new("C#").unwrap().to_string(), "CSharp");
    assert_eq!(Note::new("E").unwrap().to_string(), "E");
    assert_eq!(PitchClass::G.to_string(), "G");
    assert_eq!(Accidental::DoubleFlat.to_string(), "DoubleFlat");
}

#[test]
fn transpose_picks_nearest_spelling() {
    let c = Note::new("C").unwrap();
    assert_eq!(c.transpose(2), Note::new("D").unwrap());
    assert_eq!(c.transpose(1), Note::new("Db").unwrap());
    assert_eq!(c.transpose(-1), Note::new("B").unwrap());
    assert_eq!(c.transpose(7), Note::new("G").unwrap());
    assert_eq!(c.transpose(6), Note::new("Gb").unwrap());
    assert_eq!(c.transpose(12), c);
    assert_eq!(Note::new("E").unwrap().transpose(1), Note::new("F").unwrap());
    assert_eq!(Note::new("A#").unwrap().transpose(0), Note::new("A#").unwrap());
    assert_eq!(Note::new("F#").unwrap().transpose(1), Note::new("G").unwrap());
    assert_eq!(Note::new("C\u{266e}").unwrap().transpose(0), c);
    assert_eq!(c.transpose(i32::MIN), Note::new("E").unwrap());
}

#[test]
fn index_error_for_extreme_values() {
    assert_eq!(
        PitchClass::from_int(isize::MIN),
        Err(format!("expected int 0..6, cannot map int '{}' to PitchClass", isize::MIN))
    );
    assert_eq!(
        PitchClass::from_int(1234),
        Err("expected int 0..6, cannot map int '1234' to PitchClass".to_string())
    );
}

#[test]
fn runtime_numbers_of_a_note() {
    assert_eq!(PitchClass::F.to_int(), 0);
    assert_eq!(PitchClass::B.to_int(), 6);
    assert_eq!(Accidental::DoubleFlat.to_half_steps(), -2);
    assert_eq!(Accidental::Sharp.to_half_steps(), 1);
    assert_eq!(Accidental::Natural.to_half_steps(), 0);
}
