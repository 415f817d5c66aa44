use vstd::prelude::*;
use crate::lexer::{
    chars_of, chord_len, chord_length, extension_len, quality_len, quality_length, root_len,
    root_length, slash_len,
};
use crate::pitch::{letter_pitch, Accidental, Note, PitchClass};

verus! {

broadcast use vstd::string::group_string_axioms;

/// Quality of the triad that a chord is built on.
#[derive(Debug, PartialEq, Eq, Structural, Copy, Clone)]
pub enum ChordQuality {
    Diminished,
    Minor,
    Major,
    Augmented,
    Sus,
}

/// A chord read as music: its root note and its quality.
#[derive(Debug, PartialEq, Eq, Structural, Copy, Clone)]
pub struct Chord {
    pub root: Note,
    pub quality: ChordQuality,
}

/// The text is one whole chord symbol.
pub open spec fn is_chord_symbol(s: Seq<char>) -> bool {
    s.len() > 0 && chord_len(s, 0) == s.len()
}

/// The note spelled at `i`: its letter, and the `b`, `#`, `bb` or `##` after it, if any.
pub open spec fn spelled_at(s: Seq<char>, i: int) -> Note {
    Note {
        pitch: letter_pitch(seq![s[i]])->0,
        accidental: if root_len(s, i) == 1 {
            None
        } else if s[i + 1] == 'b' {
            if root_len(s, i) == 3 {
                Some(Accidental::DoubleFlat)
            } else {
                Some(Accidental::Flat)
            }
        } else if root_len(s, i) == 3 {
            Some(Accidental::DoubleSharp)
        } else {
            Some(Accidental::Sharp)
        },
    }
}

/// The root note spelled at the start of a chord symbol.
pub open spec fn root_of(s: Seq<char>) -> Note {
    spelled_at(s, 0)
}

/// The number that the extension at `i` writes, if there is one.
pub open spec fn extension_of(s: Seq<char>, i: int) -> Option<u8> {
    if extension_len(s, i) == 2 {
        Some((10 + (s[i + 1] as int - '0' as int)) as u8)
    } else if extension_len(s, i) == 1 {
        Some((s[i] as int - '0' as int) as u8)
    } else {
        None
    }
}

/// What a whole chord symbol says: the root, the quality, the extension and
/// the bass note after a slash.
pub open spec fn symbol_of(s: Seq<char>) -> ChordSymbol {
    let r = root_len(s, 0);
    let q = quality_len(s, r);
    let e = extension_len(s, r + q);
    ChordSymbol {
        root: root_of(s),
        quality: quality_of(s, r),
        extension: extension_of(s, r + q),
        bass: if slash_len(s, r + q + e) > 0 {
            Some(spelled_at(s, r + q + e + 1))
        } else {
            None
        },
    }
}

/// A chord symbol taken apart.
#[derive(Debug, PartialEq, Eq, Structural, Copy, Clone)]
pub struct ChordSymbol {
    pub root: Note,
    pub quality: ChordQuality,
    /// A number from 1 to 12, such as the 7 of `Cm7`.
    pub extension: Option<u8>,
    /// The note after a slash, such as the G of `C/G`.
    pub bass: Option<Note>,
}

/// The quality that the suffix at `i` names: `m`, `min` and `mMaj` are minor,
/// `Maj` and no suffix major, `sus` suspended, `dim` diminished, `aug` augmented.
pub open spec fn quality_of(s: Seq<char>, i: int) -> ChordQuality {
    if quality_len(s, i) == 0 {
        ChordQuality::Major
    } else if s[i] == 'm' {
        ChordQuality::Minor
    } else if s[i] == 'M' {
        ChordQuality::Major
    } else if s[i] == 's' {
        ChordQuality::Sus
    } else if s[i] == 'd' {
        ChordQuality::Diminished
    } else {
        ChordQuality::Augmented
    }
}

pub open spec fn unknown_chord() -> Seq<char> {
    "unknown chord"@
}

/// The note spelled at `i`.
fn spelled_note(s: &Vec<char>, i: usize) -> (r: Note)
    requires
        root_len(s@, i as int) > 0,
    ensures
        r == spelled_at(s@, i as int),
{
    assert(i < s.len());
    let pitch = letter_to_pitch(s[i]);
    let n = root_length(s, i);
    let accidental = if n == 1 {
        None
    } else if s[i + 1] == 'b' {
        if n == 3 {
            Some(Accidental::DoubleFlat)
        } else {
            Some(Accidental::Flat)
        }
    } else if n == 3 {
        Some(Accidental::DoubleSharp)
    } else {
        Some(Accidental::Sharp)
    };
    Note { pitch, accidental }
}

/// Takes a chord symbol apart into its root, its quality, its extension and
/// the bass note after a slash. Fails on a text that is not one whole chord
/// symbol.
pub fn parse_chord_symbol(s: &str) -> (r: Result<ChordSymbol, String>)
    ensures
        r is Ok <==> is_chord_symbol(s@),
        r is Ok ==> r->Ok_0 == symbol_of(s@),
        r is Err ==> r->Err_0@ == unknown_chord(),
{
    let chars = chars_of(s);
    let n = chord_length(&chars, 0);
    if n == 0 || n != chars.len() {
        return Err("unknown chord".to_string());
    }
    let r = root_length(&chars, 0);
    let root = spelled_note(&chars, 0);
    let q = quality_length(&chars, r);
    let quality = if q == 0 {
        ChordQuality::Major
    } else if chars[r] == 'm' {
        ChordQuality::Minor
    } else if chars[r] == 'M' {
        ChordQuality::Major
    } else if chars[r] == 's' {
        ChordQuality::Sus
    } else if chars[r] == 'd' {
        ChordQuality::Diminished
    } else {
        ChordQuality::Augmented
    };
    let j = r + q;
    let e = crate::lexer::extension_length(&chars, j);
    let extension = if e == 2 {
        Some(10 + (chars[j + 1] as u32 - '0' as u32) as u8)
    } else if e == 1 {
        Some((chars[j] as u32 - '0' as u32) as u8)
    } else {
        None
    };
    let k = j + e;
    let bass = if k < chars.len() {
        Some(spelled_note(&chars, k + 1))
    } else {
        None
    };
    proof {
        assert(seq![chars@[0]] =~= seq![s@[0]]);
    }
    Ok(ChordSymbol { root, quality, extension, bass })
}

fn letter_to_pitch(c: char) -> (r: PitchClass)
    requires
        'A' <= c <= 'G',
    ensures
        letter_pitch(seq![c]) == Some(r),
{
    if c == 'A' {
        PitchClass::A
    } else if c == 'B' {
        PitchClass::B
    } else if c == 'C' {
        PitchClass::C
    } else if c == 'D' {
        PitchClass::D
    } else if c == 'E' {
        PitchClass::E
    } else if c == 'F' {
        PitchClass::F
    } else {
        PitchClass::G
    }
}

impl Chord {
    /// Reads the root and the quality of a chord symbol. The extension and
    /// the bass note after a slash are accepted and have no part in the result.
    pub fn new(s: &str) -> (r: Result<Chord, String>)
        ensures
            r is Ok <==> is_chord_symbol(s@),
            r is Ok ==> r->Ok_0 == (Chord {
                root: root_of(s@),
                quality: quality_of(s@, root_len(s@, 0)),
            }),
            r is Err ==> r->Err_0@ == unknown_chord(),
    {
        match parse_chord_symbol(s) {
            Ok(c) => Ok(Chord { root: c.root, quality: c.quality }),
            Err(e) => Err(e),
        }
    }
}

} // verus!
