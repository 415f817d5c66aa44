use caramell::chordparser::Token;

#[test]
fn lex_chord() {
    let mut lex = Token::lexer("[C#m7]");

    assert_eq!(lex.next(), Some(Ok(Token::LSqBracket)));
    assert_eq!(lex.span(), 0..1);
    assert_eq!(lex.slice(), "[");

    assert_eq!(lex.next(), Some(Ok(Token::Chord)));
    assert_eq!(lex.span(), 1..5);
    assert_eq!(lex.slice(), "C#m7");

    assert_eq!(lex.next(), Some(Ok(Token::RSqBracket)));
    assert_eq!(lex.span(), 5..6);
    assert_eq!(lex.slice(), "]");
}

#[test]
fn lexer_lex_chords_and_lyrics() {
    let mut lex = Token::lexer("Never gonna [BbM7]give you up");

    assert_eq!(lex.next(), Some(Ok(Token::Lyrics)));
    assert_eq!(lex.span(), 0..5);
    assert_eq!(lex.slice(), "Never");

    assert_eq!(lex.next(), Some(Ok(Token::Lyrics)));
    assert_eq!(lex.span(), 6..11);
    assert_eq!(lex.slice(), "gonna");

    assert_eq!(lex.next(), Some(Ok(Token::LSqBracket)));
    assert_eq!(lex.span(), 12..13);
    assert_eq!(lex.slice(), "[");

    assert_eq!(lex.next(), Some(Ok(Token::Chord)));
    assert_eq!(lex.span(), 13..17);
    assert_eq!(lex.slice(), "BbM7");

    assert_eq!(lex.next(), Some(Ok(Token::RSqBracket)));
    assert_eq!(lex.span(), 17..18);
    assert_eq!(lex.slice(), "]");

    assert_eq!(lex.next(), Some(Ok(Token::Lyrics)));
    assert_eq!(lex.span(), 18..22);
    assert_eq!(lex.slice(), "give");

    assert_eq!(lex.next(), Some(Ok(Token::Lyrics)));
    assert_eq!(lex.span(), 23..26);
    assert_eq!(lex.slice(), "you");

    assert_eq!(lex.next(), Some(Ok(Token::Lyrics)));
    assert_eq!(lex.span(), 27..29);
    assert_eq!(lex.slice(), "up");

    assert_eq!(lex.next(), None);
}

#[test]
fn word_lexer_errors_and_whitespace() {
    let mut lex = Token::lexer("  Cbb\t\nla1");
    assert_eq!(lex.next(), Some(Ok(Token::Chord)));
    assert_eq!(lex.slice(), "Cbb");
    assert_eq!(lex.next(), Some(Ok(Token::Lyrics)));
    assert_eq!(lex.span(), 7..9);
    assert_eq!(lex.next(), Some(Err(())));
    assert_eq!(lex.slice(), "1");
    assert_eq!(lex.next(), None);
}

#[test]
fn word_lexer_spans_count_bytes() {
    let mut lex = Token::lexer("\u{3000}la");
    assert_eq!(lex.next(), Some(Ok(Token::Lyrics)));
    assert_eq!(lex.span(), 3..5);
    assert_eq!(lex.slice(), "la");
}
