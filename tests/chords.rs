use caramell::chords::{parse_chord_symbol, Chord, ChordQuality, ChordSymbol};
use caramell::pitch::{Accidental, Note, PitchClass};

#[test]
fn chords_parse_root_chord() {
    assert_eq!(
        Chord::new("C"),
        Ok(Chord {
            root: Note { pitch: PitchClass::C, accidental: None },
            quality: ChordQuality::Major,
        })
    );
}

#[test]
fn chord_qualities() {
    let q = |s: &str| Chord::new(s).unwrap().quality;
    assert_eq!(q("Am"), ChordQuality::Minor);
    assert_eq!(q("Amin7"), ChordQuality::Minor);
    assert_eq!(q("CmMaj7"), ChordQuality::Minor);
    assert_eq!(q("CMaj7"), ChordQuality::Major);
    assert_eq!(q("Dsus4"), ChordQuality::Sus);
    assert_eq!(q("Bdim7"), ChordQuality::Diminished);
    assert_eq!(q("Eaug"), ChordQuality::Augmented);
    assert_eq!(q("G7/B"), ChordQuality::Major);
}

#[test]
fn chord_roots() {
    assert_eq!(
        Chord::new("Ebm9").unwrap().root,
        Note { pitch: PitchClass::E, accidental: Some(Accidental::Flat) }
    );
    assert_eq!(
        Chord::new("F#/C#").unwrap().root,
        Note { pitch: PitchClass::F, accidental: Some(Accidental::Sharp) }
    );
}

#[test]
fn not_a_chord_symbol() {
    assert_eq!(Chord::new(""), Err("unknown chord".to_string()));
    assert_eq!(Chord::new("H"), Err("unknown chord".to_string()));
    assert_eq!(Chord::new("C13"), Err("unknown chord".to_string()));
    assert_eq!(Chord::new("Cmaj"), Err("unknown chord".to_string()));
}

#[test]
fn chord_symbols_taken_apart() {
    assert_eq!(
        parse_chord_symbol("C#m7/G#"),
        Ok(ChordSymbol {
            root: Note { pitch: PitchClass::C, accidental: Some(Accidental::Sharp) },
            quality: ChordQuality::Minor,
            extension: Some(7),
            bass: Some(Note { pitch: PitchClass::G, accidental: Some(Accidental::Sharp) }),
        })
    );
    assert_eq!(
        parse_chord_symbol("Bb11"),
        Ok(ChordSymbol {
            root: Note { pitch: PitchClass::B, accidental: Some(Accidental::Flat) },
            quality: ChordQuality::Major,
            extension: Some(11),
            bass: None,
        })
    );
    assert_eq!(
        parse_chord_symbol("Dsus/A").unwrap().bass,
        Some(Note { pitch: PitchClass::A, accidental: None })
    );
    assert_eq!(parse_chord_symbol("C/"), Err("unknown chord".to_string()));
}

#[test]
fn doubled_accidental_roots_and_basses() {
    assert_eq!(
        parse_chord_symbol("Ebbdim/C##"),
        Ok(ChordSymbol {
            root: Note { pitch: PitchClass::E, accidental: Some(Accidental::DoubleFlat) },
            quality: ChordQuality::Diminished,
            extension: None,
            bass: Some(Note { pitch: PitchClass::C, accidental: Some(Accidental::DoubleSharp) }),
        })
    );
    assert_eq!(
        Chord::new("F##").unwrap().root,
        Note { pitch: PitchClass::F, accidental: Some(Accidental::DoubleSharp) }
    );
}
