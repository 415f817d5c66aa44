use vstd::prelude::*;
use vstd::string::StrSliceExecFns;
use crate::lexer::chars_of;

verus! {

broadcast use vstd::string::group_string_axioms;

/// Whether a character has the Unicode Alphabetic property.
pub uninterp spec fn alphabetic(c: char) -> bool;

/// Relies on `char::is_alphabetic`: whether the character has the Unicode
/// Alphabetic property, which depends on the character alone.
#[verifier::external_body]
fn is_alphabetic(c: char) -> (r: bool)
    ensures
        r == alphabetic(c),
{
    c.is_alphabetic()
}

pub open spec fn spec_is_valid_note(c: char) -> bool {
    'A' <= c <= 'G'
}

pub open spec fn spec_is_valid_accidental(c: char) -> bool {
    c == '#' || c == 'b'
}

pub open spec fn spec_is_valid_chord_symbol(c: char) -> bool {
    spec_is_valid_accidental(c) || spec_is_valid_note(c) || c == '/'
}

pub open spec fn is_name_char(c: char) -> bool {
    alphabetic(c) || c == '_'
}

/// A letter that names a note: `A` to `G`.
pub fn is_valid_note(c: char) -> (r: bool)
    ensures
        r == spec_is_valid_note(c),
{
    'A' <= c && c <= 'G'
}

/// A sign of an accidental: `#` or `b`.
pub fn is_valid_accidental(a: char) -> (r: bool)
    ensures
        r == spec_is_valid_accidental(a),
{
    a == '#' || a == 'b'
}

/// A character that may stand in a bracketed chord: a note letter, an
/// accidental sign or a slash.
pub fn is_valid_chord_symbol(c: char) -> (r: bool)
    ensures
        r == spec_is_valid_chord_symbol(c),
{
    is_valid_accidental(c) || is_valid_note(c) || c == '/'
}

/// Length of the run of set flags from `i` on.
pub open spec fn flag_run(flags: Seq<bool>, i: int) -> int
    decreases flags.len() - i,
{
    if 0 <= i < flags.len() && flags[i] {
        1 + flag_run(flags, i + 1)
    } else {
        0
    }
}

/// Which characters may stand in a directive name, given which are alphabetic.
pub open spec fn name_flags_from(s: Seq<char>, alphabetic_flags: Seq<bool>) -> Seq<bool> {
    Seq::new(s.len(), |k: int| alphabetic_flags[k] || s[k] == '_')
}

/// Which characters may stand in a directive name: letters and underscores.
pub open spec fn name_flags(s: Seq<char>) -> Seq<bool> {
    Seq::new(s.len(), |k: int| is_name_char(s[k]))
}

/// Which characters may stand in a bracketed chord.
pub open spec fn chord_flags(s: Seq<char>) -> Seq<bool> {
    Seq::new(s.len(), |k: int| spec_is_valid_chord_symbol(s[k]))
}

/// Length of the run of directive name characters from `i` on.
pub open spec fn name_run(s: Seq<char>, i: int) -> int {
    flag_run(name_flags(s), i)
}

/// Length of the run of chord characters from `i` on.
pub open spec fn chord_run(s: Seq<char>, i: int) -> int {
    flag_run(chord_flags(s), i)
}

/// Length of the content of a delimited item at the start of `s`: `open`,
/// a non-empty run of length `n`, and `close`.
pub open spec fn delimited(s: Seq<char>, open: char, n: int, close: char) -> Option<int> {
    if s.len() > 0 && s[0] == open && n > 0 && 1 + n < s.len() && s[1 + n] == close {
        Some(n)
    } else {
        None
    }
}

fn run_end(flags: &Vec<bool>) -> (r: usize)
    requires
        flags.len() >= 1,
    ensures
        r == flag_run(flags@, 1),
        1 + r <= flags.len(),
{
    let mut k: usize = 1;
    while k < flags.len() && flags[k]
        invariant
            1 <= k <= flags.len(),
            flag_run(flags@, 1) == (k - 1) + flag_run(flags@, k as int),
        decreases flags.len() - k,
    {
        k = k + 1;
    }
    k - 1
}

/// Reads `open`, a non-empty run of characters whose flags are set, and
/// `close`, at the start of the text.
fn delimited_item<'a>(i: &'a str, flags: &Vec<bool>, open: char, close: char) -> (r: Result<
    (&'a str, &'a str),
    (),
>)
    requires
        flags@.len() == i@.len(),
    ensures
        match delimited(i@, open, flag_run(flags@, 1), close) {
            Some(n) => r is Ok && r->Ok_0.0@ == i@.subrange(n + 2, i@.len() as int)
                && r->Ok_0.1@ == i@.subrange(1, 1 + n),
            None => r is Err,
        },
{
    let s = chars_of(i);
    if s.len() == 0 || s[0] != open {
        return Err(());
    }
    let n = run_end(flags);
    if n == 0 || 1 + n >= s.len() || s[1 + n] != close {
        return Err(());
    }
    let len = s.len();
    Ok((i.substring_char(n + 2, len), i.substring_char(1, 1 + n)))
}

/// Reads a directive at the start of the text, given for each character
/// whether it is alphabetic: a name of alphabetic characters and underscores
/// in braces. Gives the rest of the text and the name.
pub fn directive_from_flags<'a>(i: &'a str, alphabetic_flags: &Vec<bool>) -> (r: Result<
    (&'a str, &'a str),
    (),
>)
    requires
        alphabetic_flags@.len() == i@.len(),
    ensures
        match delimited(i@, '{', flag_run(name_flags_from(i@, alphabetic_flags@), 1), '}') {
            Some(n) => r is Ok && r->Ok_0.0@ == i@.subrange(n + 2, i@.len() as int)
                && r->Ok_0.1@ == i@.subrange(1, 1 + n),
            None => r is Err,
        },
{
    let s = chars_of(i);
    let mut flags: Vec<bool> = Vec::new();
    let mut k: usize = 0;
    while k < s.len()
        invariant
            k <= s.len(),
            s@ == i@,
            alphabetic_flags@.len() == i@.len(),
            flags@ =~= name_flags_from(i@, alphabetic_flags@).subrange(0, k as int),
        decreases s.len() - k,
    {
        flags.push(alphabetic_flags[k] || s[k] == '_');
        k = k + 1;
    }
    proof {
        assert(flags@ =~= name_flags_from(i@, alphabetic_flags@));
    }
    delimited_item(i, &flags, '{', '}')
}

/// Reads a directive such as `{start_of_chorus}` at the start of the text:
/// a name of letters and underscores in braces. Gives the rest of the text
/// and the name.
pub fn directive<'a>(i: &'a str) -> (r: Result<(&'a str, &'a str), ()>)
    ensures
        match delimited(i@, '{', name_run(i@, 1), '}') {
            Some(n) => r is Ok && r->Ok_0.0@ == i@.subrange(n + 2, i@.len() as int)
                && r->Ok_0.1@ == i@.subrange(1, 1 + n),
            None => r is Err,
        },
{
    let s = chars_of(i);
    let mut flags: Vec<bool> = Vec::new();
    let mut k: usize = 0;
    while k < s.len()
        invariant
            k <= s.len(),
            s@ == i@,
            flags@ =~= Seq::new(k as nat, |x: int| alphabetic(i@[x])),
        decreases s.len() - k,
    {
        flags.push(is_alphabetic(s[k]));
        k = k + 1;
    }
    proof {
        assert(name_flags_from(i@, flags@) =~= name_flags(i@));
    }
    directive_from_flags(i, &flags)
}

/// Reads a bracketed chord such as `[E/G#]` at the start of the text: a note
/// letter, then note letters, accidental signs and slashes, in square
/// brackets. Gives the rest of the text and the chord.
pub fn chord<'a>(i: &'a str) -> (r: Result<(&'a str, &'a str), ()>)
    ensures
        match delimited(i@, '[', chord_run(i@, 1), ']') {
            Some(n) => if spec_is_valid_note(i@[1]) {
                r is Ok && r->Ok_0.0@ == i@.subrange(n + 2, i@.len() as int) && r->Ok_0.1@
                    == i@.subrange(1, 1 + n)
            } else {
                r is Err
            },
            None => r is Err,
        },
{
    let s = chars_of(i);
    let mut flags: Vec<bool> = Vec::new();
    let mut k: usize = 0;
    while k < s.len()
        invariant
            k <= s.len(),
            s@ == i@,
            flags@ =~= chord_flags(i@).subrange(0, k as int),
        decreases s.len() - k,
    {
        flags.push(is_valid_chord_symbol(s[k]));
        k = k + 1;
    }
    proof {
        assert(flags@ =~= chord_flags(i@));
    }
    match delimited_item(i, &flags, '[', ']') {
        Ok((rest, c)) => {
            if is_valid_note(c.get_char(0)) {
                Ok((rest, c))
            } else {
                Err(())
            }
        },
        Err(()) => Err(()),
    }
}

} // verus!
