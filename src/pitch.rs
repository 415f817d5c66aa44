use vstd::prelude::*;
use vstd::string::StrSliceExecFns;
use crate::lexer::push_char;

verus! {

/// Pitch class of the seven-letter alphabet, listed along the line of fifths:
/// each variant lies a perfect fifth above the one before it.
#[derive(Debug, PartialEq, Eq, Structural, Copy, Clone)]
pub enum PitchClass {
    F,
    C,
    G,
    D,
    A,
    E,
    B,
}

/// An accidental, which raises or lowers a pitch by whole or half steps.
#[derive(Debug, PartialEq, Eq, Structural, Copy, Clone)]
pub enum Accidental {
    DoubleSharp,
    Sharp,
    Natural,
    Flat,
    DoubleFlat,
}

/// A pitch class with an optional accidental.
#[derive(Debug, PartialEq, Eq, Structural, Copy, Clone)]
pub struct Note {
    pub pitch: PitchClass,
    pub accidental: Option<Accidental>,
}

impl PitchClass {
    /// Index of the pitch class along the line of fifths, from `F` (0) to `B` (6).
    pub open spec fn index(self) -> int {
        match self {
            PitchClass::F => 0,
            PitchClass::C => 1,
            PitchClass::G => 2,
            PitchClass::D => 3,
            PitchClass::A => 4,
            PitchClass::E => 5,
            PitchClass::B => 6,
        }
    }

    /// Reads a pitch class from the single letter that names it.
    pub fn new(s: &str) -> (r: Result<PitchClass, String>)
        ensures
            r is Ok <==> letter_pitch(s@) is Some,
            r is Ok ==> r->Ok_0 == letter_pitch(s@)->0,
            r is Err ==> r->Err_0@ == unknown_pitch(),
    {
        if s.unicode_len() == 1 {
            let c = s.get_char(0);
            if c == 'A' {
                return Ok(PitchClass::A);
            } else if c == 'B' {
                return Ok(PitchClass::B);
            } else if c == 'C' {
                return Ok(PitchClass::C);
            } else if c == 'D' {
                return Ok(PitchClass::D);
            } else if c == 'E' {
                return Ok(PitchClass::E);
            } else if c == 'F' {
                return Ok(PitchClass::F);
            } else if c == 'G' {
                return Ok(PitchClass::G);
            }
        }
        Err(unknown_pitch_message())
    }
}

impl PitchClass {
    /// The pitch class at a given index along the line of fifths.
    pub fn from_int(i: isize) -> (r: Result<PitchClass, String>)
        ensures
            r is Ok <==> 0 <= i <= 6,
            r is Ok ==> r->Ok_0.index() == i,
            r is Err ==> r->Err_0@ == index_error(i as int),
    {
        if i == 0 {
            Ok(PitchClass::F)
        } else if i == 1 {
            Ok(PitchClass::C)
        } else if i == 2 {
            Ok(PitchClass::G)
        } else if i == 3 {
            Ok(PitchClass::D)
        } else if i == 4 {
            Ok(PitchClass::A)
        } else if i == 5 {
            Ok(PitchClass::E)
        } else if i == 6 {
            Ok(PitchClass::B)
        } else {
            Err(index_error_message(i))
        }
    }

    /// Index of the pitch class along the line of fifths, from `F` (0) to `B` (6).
    pub fn to_int(&self) -> (r: isize)
        ensures
            r == self.index(),
    {
        match self {
            PitchClass::F => 0,
            PitchClass::C => 1,
            PitchClass::G => 2,
            PitchClass::D => 3,
            PitchClass::A => 4,
            PitchClass::E => 5,
            PitchClass::B => 6,
        }
    }

    /// The letter that names the pitch class.
    pub fn to_string(&self) -> (r: String)
        ensures
            r@ == seq![self.letter()],
    {
        let r = match self {
            PitchClass::F => "F".to_string(),
            PitchClass::C => "C".to_string(),
            PitchClass::G => "G".to_string(),
            PitchClass::D => "D".to_string(),
            PitchClass::A => "A".to_string(),
            PitchClass::E => "E".to_string(),
            PitchClass::B => "B".to_string(),
        };
        proof {
            reveal_strlit("F");
            reveal_strlit("C");
            reveal_strlit("G");
            reveal_strlit("D");
            reveal_strlit("A");
            reveal_strlit("E");
            reveal_strlit("B");
        }
        r
    }

    pub open spec fn letter(self) -> char {
        match self {
            PitchClass::F => 'F',
            PitchClass::C => 'C',
            PitchClass::G => 'G',
            PitchClass::D => 'D',
            PitchClass::A => 'A',
            PitchClass::E => 'E',
            PitchClass::B => 'B',
        }
    }
}

/// The character of a decimal digit.
pub open spec fn digit_char(d: int) -> char {
    if d == 0 {
        '0'
    } else if d == 1 {
        '1'
    } else if d == 2 {
        '2'
    } else if d == 3 {
        '3'
    } else if d == 4 {
        '4'
    } else if d == 5 {
        '5'
    } else if d == 6 {
        '6'
    } else if d == 7 {
        '7'
    } else if d == 8 {
        '8'
    } else {
        '9'
    }
}

/// Decimal digits of a natural number.
pub open spec fn digits(n: nat) -> Seq<char>
    decreases n,
{
    if n < 10 {
        seq![digit_char(n as int)]
    } else {
        digits(n / 10).push(digit_char((n % 10) as int))
    }
}

/// Decimal notation of an integer, with a leading minus sign when negative.
pub open spec fn decimal(i: int) -> Seq<char> {
    if i < 0 {
        seq!['-'] + digits((-i) as nat)
    } else {
        digits(i as nat)
    }
}

/// The message for an index that names no pitch class.
pub open spec fn index_error(i: int) -> Seq<char> {
    "expected int 0..6, cannot map int '"@ + decimal(i) + "' to PitchClass"@
}

fn digit_of(d: u64) -> (c: char)
    requires
        d < 10,
    ensures
        c == digit_char(d as int),
{
    if d == 0 {
        '0'
    } else if d == 1 {
        '1'
    } else if d == 2 {
        '2'
    } else if d == 3 {
        '3'
    } else if d == 4 {
        '4'
    } else if d == 5 {
        '5'
    } else if d == 6 {
        '6'
    } else if d == 7 {
        '7'
    } else if d == 8 {
        '8'
    } else {
        '9'
    }
}

/// Writes the decimal digits of `n` at the end of `out`.
fn push_digits(out: &mut String, n: u64)
    ensures
        final(out)@ == old(out)@ + digits(n as nat),
    decreases n,
{
    let ghost start = out@;
    if n >= 10 {
        push_digits(out, n / 10);
    }
    push_char(out, digit_of(n % 10));
    proof {
        if n >= 10 {
            assert((start + digits((n / 10) as nat)).push(digit_char((n % 10) as int)) =~= start
                + digits(n as nat));
        } else {
            assert(start.push(digit_char(n as int)) =~= start + digits(n as nat));
        }
    }
}

fn index_error_message(i: isize) -> (r: String)
    ensures
        r@ == index_error(i as int),
{
    let mut r = "expected int 0..6, cannot map int '".to_string();
    let ghost head = r@;
    let magnitude: u64 = if i < 0 {
        push_char(&mut r, '-');
        (-(i as i128)) as u64
    } else {
        i as u64
    };
    push_digits(&mut r, magnitude);
    r.append("' to PitchClass");
    proof {
        reveal_strlit("expected int 0..6, cannot map int '");
        reveal_strlit("' to PitchClass");
        if i < 0 {
            assert(head.push('-') + digits(magnitude as nat) =~= head + decimal(i as int));
        }
    }
    r
}

/// The pitch class that a one-letter text names, if any.
pub open spec fn letter_pitch(s: Seq<char>) -> Option<PitchClass> {
    if s.len() != 1 {
        None
    } else if s[0] == 'A' {
        Some(PitchClass::A)
    } else if s[0] == 'B' {
        Some(PitchClass::B)
    } else if s[0] == 'C' {
        Some(PitchClass::C)
    } else if s[0] == 'D' {
        Some(PitchClass::D)
    } else if s[0] == 'E' {
        Some(PitchClass::E)
    } else if s[0] == 'F' {
        Some(PitchClass::F)
    } else if s[0] == 'G' {
        Some(PitchClass::G)
    } else {
        None
    }
}

pub open spec fn unknown_pitch() -> Seq<char> {
    seq!['u', 'n', 'k', 'n', 'o', 'w', 'n', ' ', 'p', 'i', 't', 'c', 'h']
}

fn unknown_pitch_message() -> (r: String)
    ensures
        r@ == unknown_pitch(),
{
    let r = "unknown pitch".to_string();
    proof {
        reveal_strlit("unknown pitch");
    }
    r
}

impl Accidental {
    /// The alteration in half steps.
    pub open spec fn half_steps(self) -> int {
        match self {
            Accidental::DoubleSharp => 2,
            Accidental::Sharp => 1,
            Accidental::Natural => 0,
            Accidental::Flat => -1,
            Accidental::DoubleFlat => -2,
        }
    }

    /// The alteration in half steps, from -2 to 2.
    pub fn to_half_steps(&self) -> (r: i32)
        ensures
            r == self.half_steps(),
    {
        match self {
            Accidental::DoubleSharp => 2,
            Accidental::Sharp => 1,
            Accidental::Natural => 0,
            Accidental::Flat => -1,
            Accidental::DoubleFlat => -2,
        }
    }

    /// Reads an accidental from its sign: `##`, `#`, the natural sign, `b` or `bb`.
    pub fn new(s: &str) -> (r: Result<Accidental, String>)
        ensures
            r is Ok <==> sign_accidental(s@) is Some,
            r is Ok ==> r->Ok_0 == sign_accidental(s@)->0,
            r is Err ==> r->Err_0@ == unknown_accidental(),
    {
        let n = s.unicode_len();
        if n == 1 {
            let c = s.get_char(0);
            if c == '#' {
                return Ok(Accidental::Sharp);
            } else if c == '\u{266e}' {
                return Ok(Accidental::Natural);
            } else if c == 'b' {
                return Ok(Accidental::Flat);
            }
        } else if n == 2 {
            let c0 = s.get_char(0);
            let c1 = s.get_char(1);
            if c0 == '#' && c1 == '#' {
                return Ok(Accidental::DoubleSharp);
            } else if c0 == 'b' && c1 == 'b' {
                return Ok(Accidental::DoubleFlat);
            }
        }
        Err(unknown_accidental_message())
    }

    /// The name of the accidental.
    pub fn to_string(&self) -> (r: String)
        ensures
            r@ == self.name(),
    {
        let r = match self {
            Accidental::DoubleSharp => "DoubleSharp".to_string(),
            Accidental::Sharp => "Sharp".to_string(),
            Accidental::Natural => "Natural".to_string(),
            Accidental::Flat => "Flat".to_string(),
            Accidental::DoubleFlat => "DoubleFlat".to_string(),
        };
        proof {
            reveal_strlit("DoubleSharp");
            reveal_strlit("Sharp");
            reveal_strlit("Natural");
            reveal_strlit("Flat");
            reveal_strlit("DoubleFlat");
        }
        r
    }

    pub open spec fn name(self) -> Seq<char> {
        match self {
            Accidental::DoubleSharp => "DoubleSharp"@,
            Accidental::Sharp => "Sharp"@,
            Accidental::Natural => "Natural"@,
            Accidental::Flat => "Flat"@,
            Accidental::DoubleFlat => "DoubleFlat"@,
        }
    }
}

/// The accidental that a sign names, if any.
pub open spec fn sign_accidental(s: Seq<char>) -> Option<Accidental> {
    if s =~= seq!['#', '#'] {
        Some(Accidental::DoubleSharp)
    } else if s =~= seq!['#'] {
        Some(Accidental::Sharp)
    } else if s =~= seq!['\u{266e}'] {
        Some(Accidental::Natural)
    } else if s =~= seq!['b'] {
        Some(Accidental::Flat)
    } else if s =~= seq!['b', 'b'] {
        Some(Accidental::DoubleFlat)
    } else {
        None
    }
}

pub open spec fn unknown_accidental() -> Seq<char> {
    "unknown accidental"@
}

fn unknown_accidental_message() -> (r: String)
    ensures
        r@ == unknown_accidental(),
{
    "unknown accidental".to_string()
}

/// Number of pitch classes, and the step between two accidentals on the line of fifths.
pub const PITCH_SPACE_SIZE: i32 = 7;

impl Note {
    /// Alteration of the note in half steps; no accidental alters by nothing.
    pub open spec fn alteration(self) -> int {
        match self.accidental {
            Some(a) => a.half_steps(),
            None => 0,
        }
    }

    /// Place of the note on the line of fifths.
    pub open spec fn spec_position(self) -> int {
        7 * self.alteration() + self.pitch.index()
    }

    /// Reads a note: its first character names the pitch class, and the
    /// remaining characters, if any, the accidental.
    pub fn new(s: &str) -> (r: Result<Note, String>)
        ensures
            r is Ok <==> note_of(s@) is Ok,
            r is Ok ==> r->Ok_0 == note_of(s@)->Ok_0,
            r is Err ==> r->Err_0@ == note_of(s@)->Err_0,
    {
        let n = s.unicode_len();
        if n == 0 {
            return Err(unknown_pitch_message());
        }
        let pitch = PitchClass::new(s.substring_char(0, 1))?;
        let accidental = if n > 1 {
            Some(Accidental::new(s.substring_char(1, n))?)
        } else {
            None
        };
        Ok(Note { pitch, accidental })
    }

    /// Place of the note on the line of fifths, where enharmonic spellings
    /// such as F sharp and G flat stay apart.
    pub fn position(&self) -> (r: i32)
        ensures
            r == self.spec_position(),
    {
        let alteration: i32 = match self.accidental {
            Some(a) => a.to_half_steps(),
            None => 0,
        };
        PITCH_SPACE_SIZE * alteration + self.pitch.to_int() as i32
    }

    /// The pitch letter followed by the accidental's name.
    pub fn to_string(&self) -> (r: String)
        ensures
            r@ == seq![self.pitch.letter()] + match self.accidental {
                Some(a) => a.name(),
                None => Seq::<char>::empty(),
            },
    {
        let mut r = self.pitch.to_string();
        match self.accidental {
            Some(a) => {
                let name = a.to_string();
                r.append(name.as_str());
            },
            None => {},
        }
        r
    }
}

/// Semitones above C of the pitch spelled at a place on the line of fifths:
/// a step along the line is a fifth, seven semitones.
pub open spec fn semitone(q: int) -> int {
    (7 * (q - 1)) % 12
}

/// Alteration of the note at a place on the line of fifths.
pub open spec fn alteration_at(q: int) -> int {
    (q + 14) / 7 - 2
}

pub open spec fn abs(x: int) -> int {
    if x < 0 {
        -x
    } else {
        x
    }
}

/// As a spelling for a transposition from place `p`, place `a` is no worse
/// than place `b`: a shorter move along the line of fifths, then fewer
/// accidentals, then the flatter spelling.
pub open spec fn no_worse(a: int, b: int, p: int) -> bool {
    abs(a - p) < abs(b - p) || (abs(a - p) == abs(b - p) && (abs(alteration_at(a)) < abs(
        alteration_at(b),
    ) || (abs(alteration_at(a)) == abs(alteration_at(b)) && a <= b)))
}

fn semitone_of(q: i32) -> (r: i32)
    requires
        -14 <= q <= 20,
    ensures
        r == semitone(q as int),
{
    match (7 * (q - 1)).checked_rem_euclid(12) {
        Some(r) => r,
        None => 0,
    }
}

/// The note spelled at a place on the line of fifths; no accidental stands
/// for the natural.
fn note_at(q: i32) -> (r: Note)
    requires
        -14 <= q <= 20,
    ensures
        r.spec_position() == q,
        r.alteration() == alteration_at(q as int),
        r.accidental != Some(Accidental::Natural),
{
    let u = (q + 14) as u32;
    let a = u / 7;
    let k = u % 7;
    let accidental = if a == 0 {
        Some(Accidental::DoubleFlat)
    } else if a == 1 {
        Some(Accidental::Flat)
    } else if a == 2 {
        None
    } else if a == 3 {
        Some(Accidental::Sharp)
    } else {
        Some(Accidental::DoubleSharp)
    };
    let pitch = if k == 0 {
        PitchClass::F
    } else if k == 1 {
        PitchClass::C
    } else if k == 2 {
        PitchClass::G
    } else if k == 3 {
        PitchClass::D
    } else if k == 4 {
        PitchClass::A
    } else if k == 5 {
        PitchClass::E
    } else {
        PitchClass::B
    };
    Note { pitch, accidental }
}

impl Note {
    /// The note that sounds `half_steps` semitones away, spelled on the line of
    /// fifths as close to this note as possible: of all spellings with at most
    /// two accidentals that sound the target pitch class, the one with the
    /// shortest move along the line of fifths, then the one with fewer
    /// accidentals, then the flatter one.
    pub fn transpose(&self, half_steps: i32) -> (r: Note)
        ensures
            -14 <= r.spec_position() <= 20,
            semitone(r.spec_position()) == (semitone(self.spec_position()) + half_steps) % 12,
            r.accidental != Some(Accidental::Natural),
            forall|q: int|
                -14 <= q <= 20 && semitone(q) == (semitone(self.spec_position()) + half_steps) % 12
                    ==> no_worse(r.spec_position(), q, self.spec_position()),
    {
        let p = self.position();
        let h = match half_steps.checked_rem_euclid(12) {
            Some(h) => h,
            None => 0,
        };
        let target = match (semitone_of(p) + h).checked_rem_euclid(12) {
            Some(t) => t,
            None => 0,
        };
        proof {
            vstd::arithmetic::div_mod::lemma_add_mod_noop(
                semitone(p as int),
                half_steps as int,
                12,
            );
            vstd::arithmetic::div_mod::lemma_small_mod(semitone(p as int) as nat, 12);
        }
        let mut best: i32 = 21;
        let mut q: i32 = -14;
        while q <= 20
            invariant
                -14 <= q <= 21,
                -14 <= p <= 20,
                0 <= target < 12,
                best == 21 || (-14 <= best < q && semitone(best as int) == target),
                forall|x: int|
                    -14 <= x < q && semitone(x) == target ==> best != 21 && no_worse(
                        best as int,
                        x,
                        p as int,
                    ),
            decreases 21 - q,
        {
            if semitone_of(q) == target {
                if best == 21 {
                    best = q;
                } else {
                    let dq = if q < p { p - q } else { q - p };
                    let db = if best < p { p - best } else { best - p };
                    let aq = note_at(q).alteration_count();
                    let ab = note_at(best).alteration_count();
                    if dq < db || (dq == db && aq < ab) {
                        best = q;
                    }
                }
            }
            q = q + 1;
        }
        proof {
            let t = target as int;
            let w: int = if t == 0 {
                1
            } else if t == 1 {
                8
            } else if t == 2 {
                3
            } else if t == 3 {
                -2
            } else if t == 4 {
                5
            } else if t == 5 {
                0
            } else if t == 6 {
                7
            } else if t == 7 {
                2
            } else if t == 8 {
                -3
            } else if t == 9 {
                4
            } else if t == 10 {
                -1
            } else {
                6
            };
            assert(semitone(w) == t);
        }
        note_at(best)
    }

    /// Number of accidentals: the size of the alteration.
    fn alteration_count(&self) -> (r: i32)
        ensures
            r == abs(self.alteration()),
    {
        match self.accidental {
            Some(Accidental::DoubleSharp) => 2,
            Some(Accidental::Sharp) => 1,
            Some(Accidental::Natural) => 0,
            Some(Accidental::Flat) => 1,
            Some(Accidental::DoubleFlat) => 2,
            None => 0,
        }
    }
}

/// What reading a note from a text gives: the note, or the message of the
/// first part that failed.
pub open spec fn note_of(s: Seq<char>) -> Result<Note, Seq<char>> {
    if s.len() == 0 || letter_pitch(s.subrange(0, 1)) is None {
        Err(unknown_pitch())
    } else if s.len() == 1 {
        Ok(Note { pitch: letter_pitch(s.subrange(0, 1))->0, accidental: None })
    } else if sign_accidental(s.subrange(1, s.len() as int)) is None {
        Err(unknown_accidental())
    } else {
        Ok(
            Note {
                pitch: letter_pitch(s.subrange(0, 1))->0,
                accidental: Some(sign_accidental(s.subrange(1, s.len() as int))->0),
            },
        )
    }
}

/// Two notes share a place on the line of fifths only when they have the
/// same pitch class and the same alteration.
pub proof fn lemma_position_injective(a: Note, b: Note)
    requires
        a.spec_position() == b.spec_position(),
    ensures
        a.pitch == b.pitch,
        a.alteration() == b.alteration(),
{
}

} // verus!
