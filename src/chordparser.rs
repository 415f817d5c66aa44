use vstd::prelude::*;
use crate::lexer::{advance_bytes, byte_offset, ch, has, text_between, text_chars};

verus! {

broadcast use vstd::string::group_string_axioms;

/// Whether a character has the Unicode White_Space property: the controls
/// U+0009 to U+000D, the space, U+0085, the no-break space, U+1680, U+2000 to
/// U+200A, the line and paragraph separators, U+202F, U+205F and U+3000.
pub open spec fn white_space(c: char) -> bool {
    let u = c as u32;
    (0x9 <= u <= 0xd) || u == 0x20 || u == 0x85 || u == 0xa0 || u == 0x1680 || (0x2000 <= u
        <= 0x200a) || u == 0x2028 || u == 0x2029 || u == 0x202f || u == 0x205f || u == 0x3000
}

fn is_white_space(c: char) -> (r: bool)
    ensures
        r == white_space(c),
{
    let u = c as u32;
    (0x9 <= u && u <= 0xd) || u == 0x20 || u == 0x85 || u == 0xa0 || u == 0x1680 || (0x2000 <= u
        && u <= 0x200a) || u == 0x2028 || u == 0x2029 || u == 0x202f || u == 0x205f || u == 0x3000
}

/// Kind of a token of a word-level chord sheet, where whitespace separates tokens.
#[derive(Debug, PartialEq, Eq, Structural, Copy, Clone)]
pub enum Token {
    /// A chord symbol such as `C#m7` or `BbM7`.
    Chord,
    /// `[`
    LSqBracket,
    /// `]`
    RSqBracket,
    /// A word of ASCII letters.
    Lyrics,
}

/// Length of the longest accidental at `i`: `bb`, `b`, `##`, `#`, or nothing.
pub open spec fn accidental_len(s: Seq<char>, i: int) -> int {
    if ch(s, i, 'b') {
        if ch(s, i + 1, 'b') {
            2
        } else {
            1
        }
    } else if ch(s, i, '#') {
        if ch(s, i + 1, '#') {
            2
        } else {
            1
        }
    } else {
        0
    }
}

/// Length of the longest suffix at `i`: `m7`, `m`, `M7`, `sus`, `dim`, `aug`, or nothing.
pub open spec fn suffix_len(s: Seq<char>, i: int) -> int {
    if ch(s, i, 'm') && ch(s, i + 1, '7') {
        2
    } else if ch(s, i, 'm') {
        1
    } else if ch(s, i, 'M') && ch(s, i + 1, '7') {
        2
    } else if ch(s, i, 's') && ch(s, i + 1, 'u') && ch(s, i + 2, 's') {
        3
    } else if ch(s, i, 'd') && ch(s, i + 1, 'i') && ch(s, i + 2, 'm') {
        3
    } else if ch(s, i, 'a') && ch(s, i + 1, 'u') && ch(s, i + 2, 'g') {
        3
    } else {
        0
    }
}

/// Length of the longest chord symbol at `i`, zero where none starts.
pub open spec fn symbol_len(s: Seq<char>, i: int) -> int {
    if 0 <= i < s.len() && 'A' <= s[i] <= 'G' {
        let a = accidental_len(s, i + 1);
        1 + a + suffix_len(s, i + 1 + a)
    } else {
        0
    }
}

pub open spec fn is_ascii_letter(c: char) -> bool {
    ('a' <= c <= 'z') || ('A' <= c <= 'Z')
}

/// Length of the run of ASCII letters at `i`.
pub open spec fn word_len(s: Seq<char>, i: int) -> int
    decreases s.len() - i,
{
    if 0 <= i < s.len() && is_ascii_letter(s[i]) {
        1 + word_len(s, i + 1)
    } else {
        0
    }
}

/// Where the whitespace that starts at `i` ends.
pub open spec fn skip_space(s: Seq<char>, i: int) -> int
    decreases s.len() - i,
{
    if 0 <= i < s.len() && white_space(s[i]) {
        skip_space(s, i + 1)
    } else {
        i
    }
}

/// The token at `i`, with its length: the longest match, a chord symbol
/// winning over a word of the same length.
pub open spec fn token_at(s: Seq<char>, i: int) -> Option<(Token, int)> {
    let c = symbol_len(s, i);
    let w = word_len(s, i);
    if c > 0 && c >= w {
        Some((Token::Chord, c))
    } else if w > 0 {
        Some((Token::Lyrics, w))
    } else if ch(s, i, '[') {
        Some((Token::LSqBracket, 1))
    } else if ch(s, i, ']') {
        Some((Token::RSqBracket, 1))
    } else {
        None
    }
}

fn symbol_length(s: &Vec<char>, i: usize) -> (r: usize)
    requires
        i < s.len(),
    ensures
        r == symbol_len(s@, i as int),
        i + r <= s.len(),
{
    if !('A' <= s[i] && s[i] <= 'G') {
        return 0;
    }
    let j = i + 1;
    let a: usize = if has(s, j, 'b') {
        if has(s, j + 1, 'b') {
            2
        } else {
            1
        }
    } else if has(s, j, '#') {
        if has(s, j + 1, '#') {
            2
        } else {
            1
        }
    } else {
        0
    };
    let k = j + a;
    let q: usize = if has(s, k, 'm') && has(s, k + 1, '7') {
        2
    } else if has(s, k, 'm') {
        1
    } else if has(s, k, 'M') && has(s, k + 1, '7') {
        2
    } else if has(s, k, 's') && has(s, k + 1, 'u') && has(s, k + 2, 's') {
        3
    } else if has(s, k, 'd') && has(s, k + 1, 'i') && has(s, k + 2, 'm') {
        3
    } else if has(s, k, 'a') && has(s, k + 1, 'u') && has(s, k + 2, 'g') {
        3
    } else {
        0
    };
    1 + a + q
}

fn word_length(s: &Vec<char>, i: usize) -> (r: usize)
    requires
        i <= s.len(),
    ensures
        r == word_len(s@, i as int),
        i + r <= s.len(),
{
    let mut k: usize = i;
    while k < s.len() && (('a' <= s[k] && s[k] <= 'z') || ('A' <= s[k] && s[k] <= 'Z'))
        invariant
            i <= k <= s.len(),
            word_len(s@, i as int) == (k - i) + word_len(s@, k as int),
        decreases s.len() - k,
    {
        k = k + 1;
    }
    k - i
}

/// A token source over a text that skips whitespace between tokens. After
/// each token it holds that token's span; after a character at which no token
/// starts it holds that character's span and goes on after it.
pub struct Lexer {
    chars: Vec<char>,
    pos: usize,
    start: usize,
    end: usize,
    byte_pos: usize,
    byte_start: usize,
    byte_end: usize,
}

impl View for Lexer {
    /// The text, the position where scanning goes on, and the span of the last token.
    type V = (Seq<char>, int, int, int);

    closed spec fn view(&self) -> (Seq<char>, int, int, int) {
        (self.chars@, self.pos as int, self.start as int, self.end as int)
    }
}

impl Lexer {
    pub open spec fn wf(&self) -> bool {
        &&& 0 <= self@.2 <= self@.3 <= self@.1 <= self@.0.len() <= usize::MAX
        &&& self.bytes_wf()
    }

    /// The byte positions match the character positions, and the text's
    /// UTF-8 length fits in a `usize`.
    pub closed spec fn bytes_wf(&self) -> bool {
        &&& self.byte_pos == byte_offset(self.chars@, self.pos as int)
        &&& self.byte_start == byte_offset(self.chars@, self.start as int)
        &&& self.byte_end == byte_offset(self.chars@, self.end as int)
        &&& byte_offset(self.chars@, self.chars@.len() as int) <= usize::MAX
    }

    /// The next token after any whitespace, `Err(())` for a character at which
    /// no token starts, or `None` when only whitespace is left.
    pub fn next(&mut self) -> (r: Option<Result<Token, ()>>)
        requires
            old(self).wf(),
        ensures
            final(self).wf(),
            final(self)@.0 == old(self)@.0,
            ({
                let s = old(self)@.0;
                let i = skip_space(s, old(self)@.1);
                if i >= s.len() {
                    r is None && final(self)@.1 == i
                } else {
                    match token_at(s, i) {
                        Some(t) => r == Some(Ok::<Token, ()>(t.0)) && final(self)@ == (
                            s,
                            i + t.1,
                            i,
                            i + t.1,
                        ),
                        None => r == Some(Err::<Token, ()>(())) && final(self)@ == (
                            s,
                            i + 1,
                            i,
                            i + 1,
                        ),
                    }
                }
            }),
    {
        let ghost s = self.chars@;
        let mut i = self.pos;
        while i < self.chars.len() && is_white_space(self.chars[i])
            invariant
                self.pos <= i <= self.chars.len(),
                s == self.chars@,
                skip_space(s, self.pos as int) == skip_space(s, i as int),
            decreases self.chars.len() - i,
        {
            i = i + 1;
        }
        let at = advance_bytes(&self.chars, self.pos, i, self.byte_pos);
        if i >= self.chars.len() {
            self.pos = i;
            self.start = i;
            self.end = i;
            self.byte_pos = at;
            self.byte_start = at;
            self.byte_end = at;
            return None;
        }
        let c = symbol_length(&self.chars, i);
        let w = word_length(&self.chars, i);
        let n: usize = if c > 0 && c >= w {
            c
        } else if w > 0 {
            w
        } else if self.chars[i] == '[' || self.chars[i] == ']' {
            1
        } else {
            0
        };
        let t = if c > 0 && c >= w {
            Token::Chord
        } else if w > 0 {
            Token::Lyrics
        } else if self.chars[i] == '[' {
            Token::LSqBracket
        } else {
            Token::RSqBracket
        };
        let len = if n == 0 {
            1
        } else {
            n
        };
        let after = advance_bytes(&self.chars, i, i + len, at);
        self.start = i;
        self.end = i + len;
        self.pos = i + len;
        self.byte_start = at;
        self.byte_end = after;
        self.byte_pos = after;
        if n == 0 {
            Some(Err(()))
        } else {
            Some(Ok(t))
        }
    }

    /// The span of the last token, in bytes of the text's UTF-8 encoding.
    pub fn span(&self) -> (r: std::ops::Range<usize>)
        requires
            self.wf(),
        ensures
            r.start == byte_offset(self@.0, self@.2),
            r.end == byte_offset(self@.0, self@.3),
    {
        self.byte_start..self.byte_end
    }

    /// The text of the last token.
    pub fn slice(&self) -> (r: String)
        requires
            self.wf(),
        ensures
            r@ == self@.0.subrange(self@.2, self@.3),
    {
        text_between(&self.chars, self.start, self.end)
    }
}

impl Token {
    /// A token source at the start of `text`.
    pub fn lexer(text: &str) -> (r: Lexer)
        ensures
            r.wf(),
            r@ == (text@, 0int, 0int, 0int),
    {
        let chars = text_chars(text);
        proof {
            assert(chars@.len() == chars.len());
            assert(chars@.subrange(0, 0) =~= Seq::<char>::empty());
        }
        Lexer { chars, pos: 0, start: 0, end: 0, byte_pos: 0, byte_start: 0, byte_end: 0 }
    }
}

} // verus!
