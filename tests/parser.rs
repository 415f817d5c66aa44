use caramell::parser::{parse, Chord, Lines, Phrase};

#[test]
fn test_add_phrase() {
    let mut lines = Lines::new();
    lines.add_phrase(0, Phrase::new("Hi".to_string(), 0, 0, None));
    assert_eq!(
        lines.lines,
        vec![(0 as usize, vec![Phrase::new("Hi".to_string(), 0, 0, None)])]
    )
}

#[test]
fn test_parse_chords() {
    assert_eq!(
        parse("[C][G][Am][F]".to_string()),
        Ok(Lines {
            lines: vec![(
                0,
                vec![
                    Phrase::new("".to_string(), 0, 0, None,),
                    Phrase::new("".to_string(), 0, 0, Some(Chord::new("C".to_string()))),
                    Phrase::new("".to_string(), 0, 0, Some(Chord::new("G".to_string()))),
                    Phrase::new("".to_string(), 0, 0, Some(Chord::new("Am".to_string()))),
                    Phrase::new("".to_string(), 0, 0, Some(Chord::new("F".to_string()))),
                ]
            )]
        })
    );
}

#[test]
fn test_parse_rickroll() {
    assert_eq!(
        parse(
            r#"Never gonna [Ebm9]give you [Ab]up
Never gonna [Fm7]let you [Bbm]down"#
                .to_string()
        ),
        Ok(Lines {
            lines: vec![
                (
                    0,
                    vec![
                        Phrase::new("Never gonna ".to_string(), 0, 12, None),
                        Phrase::new(
                            "give you ".to_string(),
                            18,
                            27,
                            Some(Chord::new("Ebm9".to_string()))
                        ),
                        Phrase::new(
                            "up".to_string(),
                            31,
                            33,
                            Some(Chord::new("Ab".to_string()))
                        )
                    ]
                ),
                (
                    1,
                    vec![
                        Phrase::new("Never gonna ".to_string(), 34, 46, None),
                        Phrase::new(
                            "let you ".to_string(),
                            51,
                            59,
                            Some(Chord::new("Fm7".to_string()))
                        ),
                        Phrase::new(
                            "down".to_string(),
                            64,
                            68,
                            Some(Chord::new("Bbm".to_string()))
                        ),
                    ]
                )
            ]
        })
    );
}

#[test]
fn add_phrase_keeps_lines_in_order() {
    let mut lines = Lines::new();
    lines.add_phrase(2, Phrase::new("c".to_string(), 0, 1, None));
    lines.add_phrase(0, Phrase::new("a".to_string(), 0, 1, None));
    lines.add_phrase(2, Phrase::new("d".to_string(), 1, 2, None));
    lines.add_phrase(1, Phrase::new("b".to_string(), 0, 1, None));
    let keys: Vec<usize> = lines.lines.iter().map(|e| e.0).collect();
    assert_eq!(keys, vec![0, 1, 2]);
    assert_eq!(lines.lines[2].1.len(), 2);
    assert_eq!(lines.lines[2].1[1].lyrics, "d");
}

#[test]
fn every_line_gets_an_entry() {
    let lines = parse("one\ntwo\r\n\nfour".to_string()).unwrap();
    assert_eq!(lines.lines.len(), 4);
    for (i, e) in lines.lines.iter().enumerate() {
        assert_eq!(e.0, i);
        assert!(!e.1.is_empty());
    }
    assert_eq!(lines.lines[2].1, vec![Phrase::empty()]);
    assert_eq!(lines.lines[3].1[0].start, 10);
}

#[test]
fn empty_song_is_one_empty_line() {
    assert_eq!(
        parse(String::new()),
        Ok(Lines { lines: vec![(0, vec![Phrase::empty()])] })
    );
}

#[test]
fn lyrics_of_a_line_parse_back_to_themselves() {
    let lines = parse("Never gonna [Ebm9]give you [Ab]up".to_string()).unwrap();
    let text: String = lines.lines[0].1.iter().map(|p| p.lyrics.clone()).collect();
    assert_eq!(text, "Never gonna give you up");
    let again = parse(text.clone()).unwrap();
    assert_eq!(again.lines.len(), 1);
    let text2: String = again.lines[0].1.iter().map(|p| p.lyrics.clone()).collect();
    assert_eq!(text2, text);
}

#[test]
fn parse_error_names_the_character() {
    assert_eq!(parse("la [C]la@".to_string()), Err("Token error: \"@\"".to_string()));
    assert_eq!(parse("\u{e9}".to_string()), Err("Token error: \"\u{e9}\"".to_string()));
}

#[test]
fn chord_folds_into_following_lyrics() {
    let lines = parse("[G]hello".to_string()).unwrap();
    assert_eq!(
        lines.lines[0].1,
        vec![
            Phrase::empty(),
            Phrase::new("hello".to_string(), 3, 8, Some(Chord::new("G".to_string())))
        ]
    );
}

#[test]
fn joined_lyrics_that_spell_a_chord_parse_as_a_chord() {
    let lines = parse("EmM[C]aj".to_string()).unwrap();
    let text: String = lines.lines[0].1.iter().map(|p| p.lyrics.clone()).collect();
    assert_eq!(text, "EmMaj");
    let again = parse(text).unwrap();
    assert_eq!(
        again.lines[0].1,
        vec![Phrase::new("".to_string(), 0, 0, Some(Chord::new("EmMaj".to_string())))]
    );
}

#[test]
fn doubled_accidental_chords_in_brackets() {
    for c in ["C##", "Cbb", "Abbm7/E##"] {
        let song = format!("[{c}]");
        assert_eq!(
            parse(song),
            Ok(Lines {
                lines: vec![(
                    0,
                    vec![
                        Phrase::empty(),
                        Phrase::new("".to_string(), 0, 0, Some(Chord::new(c.to_string()))),
                    ]
                )]
            })
        );
    }
}

#[test]
fn lyric_characters() {
    let lines = parse("well-known \"quotes\", it's".to_string()).unwrap();
    assert_eq!(lines.lines[0].1[0].lyrics, "well-known \"quotes\", it's");
    for bad in ["la!", "#1", "$", "50%", "you & me"] {
        assert!(parse(bad.to_string()).is_err(), "{bad}");
    }
}
