//! Chord sheets: lyric lines with chord symbols in square brackets before the
//! syllables they are played on, as in `Never gonna [Ebm9]give you [Ab]up`.
//!
//! - `lexer` splits a sheet into tokens: chord symbols, brackets, line breaks
//!   and lyric runs.
//! - `parser` groups the tokens into phrases, line by line.
//! - `printing` renders each line as a chord row above a lyric row.
//! - `pitch` spells notes on the line of fifths, so that enharmonic spellings
//!   stay apart, and transposes them.
//! - `chords` reads the root and the quality of a chord symbol.
//! - `tone`, `chordpro` and `chordparser` hold an earlier note model, a
//!   reader for `{directive}` and `[chord]` items, and a word-level lexer.
use vstd::prelude::*;

pub mod chordparser;
pub mod chordpro;
pub mod chords;
pub mod lexer;
pub mod parser;
pub mod pitch;
pub mod printing;
pub mod tone;

verus! {

} // verus!
