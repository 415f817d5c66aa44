use vstd::prelude::*;
use vstd::utf8::encode_utf8;
use crate::parser::{
    numbered, parse, parse_lines, table_wf, token_error, Lines, Phrase, PhraseView,
};

verus! {

broadcast use vstd::string::group_string_axioms;

/// Length of a text in bytes, as UTF-8 encodes it.
pub open spec fn byte_len(t: Seq<char>) -> int {
    encode_utf8(t).len() as int
}

/// Spaces that follow a chord so that its row keeps up with the lyric
/// under it: the lyric's length less the chord's, and never below zero.
pub open spec fn pad(lyric: Seq<char>, chord: Seq<char>) -> int {
    if byte_len(lyric) > byte_len(chord) {
        byte_len(lyric) - byte_len(chord)
    } else {
        0
    }
}

pub open spec fn spaces(n: int) -> Seq<char> {
    Seq::new(n as nat, |i: int| ' ')
}

/// The chord of a phrase, or nothing.
pub open spec fn chord_text(p: PhraseView) -> Seq<char> {
    match p.chord {
        Some(c) => c,
        None => Seq::empty(),
    }
}

/// The chord row of a line: each phrase's chord followed by its padding.
pub open spec fn chord_row(ps: Seq<PhraseView>) -> Seq<char>
    decreases ps.len(),
{
    if ps.len() == 0 {
        Seq::empty()
    } else {
        chord_row(ps.drop_last()) + chord_text(ps.last()) + spaces(
            pad(ps.last().lyrics, chord_text(ps.last())),
        )
    }
}

/// The lyric row of a line: the phrases' lyrics one after the other.
pub open spec fn lyric_row(ps: Seq<PhraseView>) -> Seq<char>
    decreases ps.len(),
{
    if ps.len() == 0 {
        Seq::empty()
    } else {
        lyric_row(ps.drop_last()) + ps.last().lyrics
    }
}

/// Each line as its chord row and its lyric row, each ended by a line feed,
/// in the order of the table's entries.
pub open spec fn render(v: Seq<(int, Seq<PhraseView>)>) -> Seq<char>
    decreases v.len(),
{
    if v.len() == 0 {
        Seq::empty()
    } else {
        render(v.drop_last()) + chord_row(v.last().1) + seq!['\n'] + lyric_row(v.last().1) + seq![
            '\n',
        ]
    }
}

/// Number of spaces that follow a chord above a lyric.
pub fn calc_chord_padding(lyric: &str, chord: &str) -> (r: usize)
    ensures
        r == pad(lyric@, chord@),
{
    let l = lyric.as_bytes().len();
    let c = chord.as_bytes().len();
    if l > c {
        l - c
    } else {
        0
    }
}

fn push_line(out: &mut String, ps: &Vec<Phrase>)
    ensures
        final(out)@ == old(out)@ + chord_row(ps@.map_values(|p: Phrase| p@)) + seq!['\n']
            + lyric_row(ps@.map_values(|p: Phrase| p@)) + seq!['\n'],
{
    let ghost v = ps@.map_values(|p: Phrase| p@);
    let mut chord_line = String::new();
    let mut lyric_line = String::new();
    let mut j: usize = 0;
    while j < ps.len()
        invariant
            0 <= j <= ps.len(),
            v == ps@.map_values(|p: Phrase| p@),
            chord_line@ == chord_row(v.subrange(0, j as int)),
            lyric_line@ == lyric_row(v.subrange(0, j as int)),
        decreases ps.len() - j,
    {
        let p = &ps[j];
        let chord: &str = match &p.chord {
            Some(c) => c.chord.as_str(),
            None => "",
        };
        proof {
            reveal_strlit("");
        }
        chord_line.append(chord);
        let padding = calc_chord_padding(p.lyrics.as_str(), chord);
        let ghost before = chord_line@;
        let mut k: usize = 0;
        while k < padding
            invariant
                0 <= k <= padding,
                chord_line@ == before + spaces(k as int),
            decreases padding - k,
        {
            chord_line.append(" ");
            proof {
                reveal_strlit(" ");
                assert(chord_line@ =~= before + spaces(k + 1));
            }
            k = k + 1;
        }
        lyric_line.append(p.lyrics.as_str());
        proof {
            assert(v.subrange(0, j + 1).drop_last() =~= v.subrange(0, j as int));
        }
        j = j + 1;
    }
    proof {
        assert(v.subrange(0, j as int) =~= v);
    }
    out.append(chord_line.as_str());
    out.append("\n");
    out.append(lyric_line.as_str());
    out.append("\n");
    proof {
        reveal_strlit("\n");
    }
}

/// Renders each line of the table as a chord row above a lyric row, in
/// ascending order of line index.
pub fn fmt_lyrics_and_chords(lines: Lines) -> (r: String)
    requires
        table_wf(lines@),
    ensures
        r@ == render(lines@),
{
    let mut fmt_song = String::new();
    let mut i: usize = 0;
    while i < lines.lines.len()
        invariant
            0 <= i <= lines.lines.len(),
            fmt_song@ == render(lines@.subrange(0, i as int)),
        decreases lines.lines.len() - i,
    {
        push_line(&mut fmt_song, &lines.lines[i].1);
        proof {
            assert(lines@.subrange(0, i + 1).drop_last() =~= lines@.subrange(0, i as int));
        }
        i = i + 1;
    }
    proof {
        assert(lines@.subrange(0, i as int) =~= lines@);
    }
    fmt_song
}

/// Parses a song and renders its lines, or gives the message of the parse error.
pub fn format_song(song: String) -> (r: Result<String, String>)
    ensures
        match parse_lines(song@) {
            Ok(m) => r is Ok && r->Ok_0@ == render(numbered(m)),
            Err(e) => r is Err && r->Err_0@ == token_error(song@, e),
        },
{
    match parse(song) {
        Ok(lines) => Ok(fmt_lyrics_and_chords(lines)),
        Err(e) => Err(e),
    }
}

} // verus!
