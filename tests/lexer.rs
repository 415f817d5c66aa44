use caramell::lexer::Token;

fn check(s: String, t: Token) {
    let mut lex = Token::lexer(&s);
    assert_eq!(lex.next(), Some(Ok(t)));
    assert_eq!(lex.slice(), s);
}

#[test]
fn lex_newline() {
    check("\n".to_string(), Token::NewLine);
    check("\r\n".to_string(), Token::NewLine);
}

#[test]
fn lex_major_chords() {
    check("C".to_string(), Token::Chord);
    check("C#".to_string(), Token::Chord);
    check("Cb".to_string(), Token::Chord);
}

#[test]
fn lex_minor_chords() {
    check("Cm".to_string(), Token::Chord);
    check("C#m".to_string(), Token::Chord);
    check("Cbm".to_string(), Token::Chord);
}

#[test]
fn lex_power_chords() {
    check("C5".to_string(), Token::Chord);
    check("C#5".to_string(), Token::Chord);
    check("Cb5".to_string(), Token::Chord);
}

#[test]
fn lex_6th_chords() {
    check("C6".to_string(), Token::Chord);
    check("C#6".to_string(), Token::Chord);
    check("Cb6".to_string(), Token::Chord);
}

#[test]
fn lex_major_7th_chords() {
    check("CMaj7".to_string(), Token::Chord);
    check("C#Maj7".to_string(), Token::Chord);
    check("CbMaj7".to_string(), Token::Chord);
}

#[test]
fn lex_minor_7th_chords() {
    check("Cm7".to_string(), Token::Chord);
    check("C#m7".to_string(), Token::Chord);
    check("Cbm7".to_string(), Token::Chord);
}

#[test]
fn lex_dominant_7th_chords() {
    check("C7".to_string(), Token::Chord);
    check("C#7".to_string(), Token::Chord);
    check("Cb7".to_string(), Token::Chord);
}

#[test]
fn lex_minor_major_7th_chords() {
    check("CmMaj7".to_string(), Token::Chord);
    check("C#mMaj7".to_string(), Token::Chord);
    check("CbmMaj7".to_string(), Token::Chord);
}

#[test]
fn lex_suspended_chords() {
    check("Csus2".to_string(), Token::Chord);
    check("C#sus2".to_string(), Token::Chord);
    check("Cbsus2".to_string(), Token::Chord);

    check("Csus4".to_string(), Token::Chord);
    check("C#sus4".to_string(), Token::Chord);
    check("Cbsus4".to_string(), Token::Chord);
}

#[test]
fn lex_augmented_chords() {
    check("Caug".to_string(), Token::Chord);
    check("C#aug".to_string(), Token::Chord);
    check("Cbaug".to_string(), Token::Chord);
}

#[test]
fn lex_diminished_chords() {
    check("Cdim".to_string(), Token::Chord);
    check("C#dim".to_string(), Token::Chord);
    check("Cbdim".to_string(), Token::Chord);
}

#[test]
fn lex_diminished_7th_chords() {
    check("Cdim7".to_string(), Token::Chord);
    check("C#dim7".to_string(), Token::Chord);
    check("Cbdim7".to_string(), Token::Chord);
}

#[test]
fn lex_slash_chord() {
    check("C/G".to_string(), Token::Chord);
    check("C#/G#".to_string(), Token::Chord);
    check("Cb/Gb".to_string(), Token::Chord);
}

#[test]
fn lex_chords_and_lyrics() {
    let mut lex = Token::lexer("Never gonna [BbMaj7]give you up");

    assert_eq!(lex.next(), Some(Ok(Token::Lyrics)));
    assert_eq!(lex.span(), 0..12);
    assert_eq!(lex.slice(), "Never gonna ");

    assert_eq!(lex.next(), Some(Ok(Token::LSqBracket)));
    assert_eq!(lex.span(), 12..13);
    assert_eq!(lex.slice(), "[");

    assert_eq!(lex.next(), Some(Ok(Token::Chord)));
    assert_eq!(lex.span(), 13..19);
    assert_eq!(lex.slice(), "BbMaj7");

    assert_eq!(lex.next(), Some(Ok(Token::RSqBracket)));
    assert_eq!(lex.span(), 19..20);
    assert_eq!(lex.slice(), "]");

    assert_eq!(lex.next(), Some(Ok(Token::Lyrics)));
    assert_eq!(lex.span(), 20..31);
    assert_eq!(lex.slice(), "give you up");

    assert_eq!(lex.next(), None);
}

#[test]
fn whole_chord_symbols_are_single_tokens() {
    for s in ["CmMaj7/G#", "Ebm9", "A", "Bb12/F", "Gaug", "Dsus4/A"] {
        let mut lex = Token::lexer(s);
        assert_eq!(lex.next(), Some(Ok(Token::Chord)));
        assert_eq!(lex.span(), 0..s.len());
        assert_eq!(lex.next(), None);
    }
}

#[test]
fn longer_lyric_run_wins_over_chord() {
    let mut lex = Token::lexer("Am I");
    assert_eq!(lex.next(), Some(Ok(Token::Lyrics)));
    assert_eq!(lex.span(), 0..4);
}

#[test]
fn unknown_character_is_an_error_and_lexing_goes_on() {
    let mut lex = Token::lexer("la@la");
    assert_eq!(lex.next(), Some(Ok(Token::Lyrics)));
    assert_eq!(lex.next(), Some(Err(())));
    assert_eq!(lex.span(), 2..3);
    assert_eq!(lex.slice(), "@");
    assert_eq!(lex.next(), Some(Ok(Token::Lyrics)));
    assert_eq!(lex.slice(), "la");
    assert_eq!(lex.next(), None);
}

#[test]
fn lone_carriage_return_is_an_error() {
    let mut lex = Token::lexer("\r");
    assert_eq!(lex.next(), Some(Err(())));
}

#[test]
fn doubled_accidentals_are_chords() {
    for s in ["C##", "Cbb", "F##m7", "Ebbdim/Bbb", "G7/D##"] {
        let mut lex = Token::lexer(s);
        assert_eq!(lex.next(), Some(Ok(Token::Chord)));
        assert_eq!(lex.span(), 0..s.len());
        assert_eq!(lex.next(), None);
    }
}

#[test]
fn spans_count_bytes() {
    let mut lex = Token::lexer("\u{e9}[C]");
    assert_eq!(lex.next(), Some(Err(())));
    assert_eq!(lex.span(), 0..2);
    assert_eq!(lex.next(), Some(Ok(Token::LSqBracket)));
    assert_eq!(lex.span(), 2..3);
    assert_eq!(lex.next(), Some(Ok(Token::Chord)));
    assert_eq!(lex.span(), 3..4);
    assert_eq!(lex.slice(), "C");
}
