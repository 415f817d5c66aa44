use vstd::prelude::*;
use vstd::string::StrSliceExecFns;

verus! {

broadcast use vstd::string::group_string_axioms;

/// A tone named by its letter, in alphabetical order.
#[derive(Debug, PartialEq, Eq, Structural, Copy, Clone)]
pub enum Tone {
    A,
    B,
    C,
    D,
    E,
    F,
    G,
}

/// A modifier of a tone; `x` writes the double sharp.
#[derive(Debug, PartialEq, Eq, Structural, Copy, Clone)]
pub enum ToneModifier {
    DoubleSharp,
    Sharp,
    Flat,
    Natural,
    DoubleFlat,
}

/// A tone with an optional modifier.
#[derive(Debug, PartialEq, Eq, Structural, Copy, Clone)]
pub struct Note {
    pub tone: Tone,
    pub modifier: Option<ToneModifier>,
}

/// The tone that a one-letter text names, if any.
pub open spec fn letter_tone(s: Seq<char>) -> Option<Tone> {
    if s.len() != 1 {
        None
    } else if s[0] == 'A' {
        Some(Tone::A)
    } else if s[0] == 'B' {
        Some(Tone::B)
    } else if s[0] == 'C' {
        Some(Tone::C)
    } else if s[0] == 'D' {
        Some(Tone::D)
    } else if s[0] == 'E' {
        Some(Tone::E)
    } else if s[0] == 'F' {
        Some(Tone::F)
    } else if s[0] == 'G' {
        Some(Tone::G)
    } else {
        None
    }
}

/// The modifier that a sign names, if any: `x`, `#`, the natural sign, `b` or `bb`.
pub open spec fn sign_modifier(s: Seq<char>) -> Option<ToneModifier> {
    if s =~= seq!['x'] {
        Some(ToneModifier::DoubleSharp)
    } else if s =~= seq!['#'] {
        Some(ToneModifier::Sharp)
    } else if s =~= seq!['\u{266e}'] {
        Some(ToneModifier::Natural)
    } else if s =~= seq!['b'] {
        Some(ToneModifier::Flat)
    } else if s =~= seq!['b', 'b'] {
        Some(ToneModifier::DoubleFlat)
    } else {
        None
    }
}

pub open spec fn unknown_tone() -> Seq<char> {
    "unknown tone"@
}

pub open spec fn unknown_tone_modifier() -> Seq<char> {
    "unknown tone modifier"@
}

fn unknown_tone_message() -> (r: String)
    ensures
        r@ == unknown_tone(),
{
    "unknown tone".to_string()
}

impl Tone {
    /// Reads a tone from its letter.
    pub fn new(s: &str) -> (r: Result<Tone, String>)
        ensures
            r is Ok <==> letter_tone(s@) is Some,
            r is Ok ==> r->Ok_0 == letter_tone(s@)->0,
            r is Err ==> r->Err_0@ == unknown_tone(),
    {
        if s.unicode_len() == 1 {
            let c = s.get_char(0);
            if c == 'A' {
                return Ok(Tone::A);
            } else if c == 'B' {
                return Ok(Tone::B);
            } else if c == 'C' {
                return Ok(Tone::C);
            } else if c == 'D' {
                return Ok(Tone::D);
            } else if c == 'E' {
                return Ok(Tone::E);
            } else if c == 'F' {
                return Ok(Tone::F);
            } else if c == 'G' {
                return Ok(Tone::G);
            }
        }
        Err(unknown_tone_message())
    }
}

impl ToneModifier {
    /// Reads a modifier from its sign.
    pub fn new(s: &str) -> (r: Result<ToneModifier, String>)
        ensures
            r is Ok <==> sign_modifier(s@) is Some,
            r is Ok ==> r->Ok_0 == sign_modifier(s@)->0,
            r is Err ==> r->Err_0@ == unknown_tone_modifier(),
    {
        let n = s.unicode_len();
        if n == 1 {
            let c = s.get_char(0);
            if c == 'x' {
                return Ok(ToneModifier::DoubleSharp);
            } else if c == '#' {
                return Ok(ToneModifier::Sharp);
            } else if c == '\u{266e}' {
                return Ok(ToneModifier::Natural);
            } else if c == 'b' {
                return Ok(ToneModifier::Flat);
            }
        } else if n == 2 {
            if s.get_char(0) == 'b' && s.get_char(1) == 'b' {
                return Ok(ToneModifier::DoubleFlat);
            }
        }
        Err("unknown tone modifier".to_string())
    }
}

/// What reading a note from a text gives: the note, or the message of the
/// first part that failed.
pub open spec fn tone_note_of(s: Seq<char>) -> Result<Note, Seq<char>> {
    if s.len() == 0 || letter_tone(s.subrange(0, 1)) is None {
        Err(unknown_tone())
    } else if s.len() == 1 {
        Ok(Note { tone: letter_tone(s.subrange(0, 1))->0, modifier: None })
    } else if sign_modifier(s.subrange(1, s.len() as int)) is None {
        Err(unknown_tone_modifier())
    } else {
        Ok(
            Note {
                tone: letter_tone(s.subrange(0, 1))->0,
                modifier: Some(sign_modifier(s.subrange(1, s.len() as int))->0),
            },
        )
    }
}

impl Note {
    /// Reads a note: its first character names the tone, and the remaining
    /// characters, if any, the modifier.
    pub fn new(s: &str) -> (r: Result<Note, String>)
        ensures
            r is Ok <==> tone_note_of(s@) is Ok,
            r is Ok ==> r->Ok_0 == tone_note_of(s@)->Ok_0,
            r is Err ==> r->Err_0@ == tone_note_of(s@)->Err_0,
    {
        let n = s.unicode_len();
        if n == 0 {
            return Err(unknown_tone_message());
        }
        let tone = Tone::new(s.substring_char(0, 1))?;
        let modifier = if n > 1 {
            Some(ToneModifier::new(s.substring_char(1, n))?)
        } else {
            None
        };
        Ok(Note { tone, modifier })
    }
}

} // verus!
