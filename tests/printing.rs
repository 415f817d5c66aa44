use caramell::parser::{Chord, Lines, Phrase};
use caramell::printing::{calc_chord_padding, fmt_lyrics_and_chords};

#[test]
fn test_calc_chord_padding_with_lyrics_and_chord() {
    assert_eq!(2, calc_chord_padding("Hi there", "C#maj7"));
}

#[test]
fn test_calc_chord_padding_with_lyrics_no_chord() {
    assert_eq!(8, calc_chord_padding("Hi there", ""));
}

#[test]
fn test_calc_chord_padding_with_empty_lyric_no_chord() {
    assert_eq!(0, calc_chord_padding("", ""));
}

#[test]
fn test_calc_chord_padding_with_empty_lyric_and_chord() {
    assert_eq!(0, calc_chord_padding("", "C#maj7"));
}

#[test]
fn test_fmt_lyrics_and_chords() {
    let mut lines = Lines::new();
    lines.add_phrase(
        0,
        Phrase::new(
            "Hi there".to_string(),
            0,
            8,
            Some(Chord::new("C#maj7".to_string())),
        ),
    );
    lines.add_phrase(
        1,
        Phrase::new(
            "Bye there".to_string(),
            0,
            8,
            Some(Chord::new("Dsus2".to_string())),
        ),
    );

    assert_eq!(
        fmt_lyrics_and_chords(lines),
        "C#maj7  \nHi there\nDsus2    \nBye there\n".to_string()
    )
}

#[test]
fn single_line_rendering() {
    let mut lines = Lines::new();
    lines.add_phrase(
        0,
        Phrase::new("Hi there".to_string(), 0, 8, Some(Chord::new("C#maj7".to_string()))),
    );
    assert_eq!(fmt_lyrics_and_chords(lines), "C#maj7  \nHi there\n");
}

#[test]
fn long_chords_overrun() {
    let lines = caramell::parser::parse("[Ebm9]a[F]bc".to_string()).unwrap();
    assert_eq!(fmt_lyrics_and_chords(lines), "Ebm9F \nabc\n");
}

#[test]
fn rendering_goes_by_ascending_line() {
    let mut lines = Lines::new();
    lines.add_phrase(1, Phrase::new("second".to_string(), 0, 6, None));
    lines.add_phrase(0, Phrase::new("first".to_string(), 0, 5, None));
    assert_eq!(fmt_lyrics_and_chords(lines), "     \nfirst\n      \nsecond\n");
}

#[test]
fn empty_table_renders_nothing() {
    assert_eq!(fmt_lyrics_and_chords(Lines::new()), "");
}

#[test]
fn format_song_renders_or_reports() {
    assert_eq!(
        caramell::printing::format_song("Hi [C]there".to_string()),
        Ok("   C    \nHi there\n".to_string())
    );
    assert_eq!(
        caramell::printing::format_song("{x}".to_string()),
        Err("Token error: \"{\"".to_string())
    );
}
