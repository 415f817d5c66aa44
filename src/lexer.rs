use vstd::prelude::*;
use vstd::std_specs::iter::IteratorSpec;
use vstd::utf8::{encode_scalar, encode_utf8};

verus! {

broadcast use vstd::string::group_string_axioms;

/// A note spelling: a letter `A` to `G`, then optionally `b`, `#`, `bb` or `##`.
pub open spec fn is_root_spelling(r: Seq<char>) -> bool {
    &&& r.len() >= 1 && is_root_letter(r[0])
    &&& r.len() <= 3
    &&& r.len() >= 2 ==> is_accidental_sign(r[1])
    &&& r.len() == 3 ==> r[2] == r[1]
}

/// A quality suffix of the whitelist, or none.
pub open spec fn is_quality_suffix(q: Seq<char>) -> bool {
    q.len() == 0 || q =~= seq!['m', 'M', 'a', 'j'] || q =~= seq!['M', 'a', 'j'] || q =~= seq![
        'm',
        'i',
        'n',
    ] || q =~= seq!['m'] || q =~= seq!['s', 'u', 's'] || q =~= seq!['d', 'i', 'm'] || q =~= seq![
        'a',
        'u',
        'g',
    ]
}

/// An extension from 1 to 12, or none.
pub open spec fn is_extension(e: Seq<char>) -> bool {
    e.len() == 0 || (e.len() == 1 && '1' <= e[0] <= '9') || (e.len() == 2 && e[0] == '1' && '0'
        <= e[1] <= '2')
}

/// A slash followed by a bass note spelling, or none.
pub open spec fn is_bass_part(b: Seq<char>) -> bool {
    b.len() == 0 || (b.len() >= 2 && b[0] == '/' && is_root_spelling(b.subrange(1, b.len() as int)))
}

/// The text is a chord symbol of the grammar: a root spelling, an optional
/// quality suffix, an optional extension and an optional slash with a bass note.
pub open spec fn is_chord_grammar(r: Seq<char>, q: Seq<char>, e: Seq<char>, b: Seq<char>) -> bool {
    is_root_spelling(r) && is_quality_suffix(q) && is_extension(e) && is_bass_part(b)
}

pub(crate) proof fn lemma_lyric_len_bound(s: Seq<char>, i: int)
    requires
        0 <= i,
    ensures
        0 <= lyric_len(s, i) <= if i < s.len() {
            s.len() - i
        } else {
            0
        },
    decreases s.len() - i,
{
    if 0 <= i < s.len() && is_lyric_char(s[i]) {
        lemma_lyric_len_bound(s, i + 1);
    }
}

/// Number of line feeds in a text.
pub open spec fn line_feeds(s: Seq<char>) -> nat
    decreases s.len(),
{
    if s.len() == 0 {
        0
    } else {
        line_feeds(s.drop_last()) + if s.last() == '\n' {
            1nat
        } else {
            0nat
        }
    }
}

/// Number of line-break tokens in a token sequence.
pub open spec fn newline_tokens(t: Seq<Lexeme>) -> nat
    decreases t.len(),
{
    if t.len() == 0 {
        0
    } else {
        newline_tokens(t.drop_last()) + if t.last().0 == Token::NewLine {
            1nat
        } else {
            0nat
        }
    }
}

pub proof fn lemma_line_feeds_add(a: Seq<char>, b: Seq<char>)
    ensures
        line_feeds(a + b) == line_feeds(a) + line_feeds(b),
    decreases b.len(),
{
    if b.len() == 0 {
        assert(a + b =~= a);
    } else {
        lemma_line_feeds_add(a, b.drop_last());
        assert((a + b).drop_last() =~= a + b.drop_last());
    }
}

pub proof fn lemma_newline_tokens_add(a: Seq<Lexeme>, b: Seq<Lexeme>)
    ensures
        newline_tokens(a + b) == newline_tokens(a) + newline_tokens(b),
    decreases b.len(),
{
    if b.len() == 0 {
        assert(a + b =~= a);
    } else {
        lemma_newline_tokens_add(a, b.drop_last());
        assert((a + b).drop_last() =~= a + b.drop_last());
    }
}

proof fn lemma_no_line_feeds(s: Seq<char>)
    requires
        forall|k: int| 0 <= k < s.len() ==> s[k] != '\n',
    ensures
        line_feeds(s) == 0,
    decreases s.len(),
{
    if s.len() > 0 {
        lemma_no_line_feeds(s.drop_last());
    }
}

pub(crate) proof fn lemma_lyric_chars(s: Seq<char>, i: int)
    requires
        0 <= i,
    ensures
        forall|k: int| i <= k < i + lyric_len(s, i) ==> is_lyric_char(#[trigger] s[k]),
    decreases s.len() - i,
{
    if 0 <= i < s.len() && is_lyric_char(s[i]) {
        lemma_lyric_chars(s, i + 1);
    }
}

pub(crate) proof fn lemma_chord_len_bound(s: Seq<char>, i: int)
    requires
        0 <= i <= s.len(),
    ensures
        i + chord_len(s, i) <= s.len(),
{
    lemma_chord_chars(s, i);
}

proof fn lemma_chord_chars(s: Seq<char>, i: int)
    requires
        0 <= i <= s.len(),
    ensures
        i + chord_len(s, i) <= s.len(),
        forall|k: int| i <= k < i + chord_len(s, i) ==> #[trigger] s[k] != '\n' && is_ascii_char(s[k]),
{
    let r = root_len(s, i);
    if r > 0 {
        let q = quality_len(s, i + r);
        let e = extension_len(s, i + r + q);
        let b = slash_len(s, i + r + q + e);
        assert(i + r <= s.len());
        assert(i + r + q <= s.len());
        assert(i + r + q + e <= s.len());
        assert(i + r + q + e + b <= s.len());
        assert forall|k: int| i <= k < i + chord_len(s, i) implies #[trigger] s[k] != '\n'
            && is_ascii_char(s[k]) by {
            if k < i + r {
            } else if k < i + r + q {
                assert(k == i + r || k == i + r + 1 || k == i + r + 2 || k == i + r + 3);
            } else if k < i + r + q + e {
                assert(k == i + r + q || k == i + r + q + 1);
            } else {
                assert(k == i + r + q + e || k == i + r + q + e + 1 || k == i + r + q + e + 2 || k
                    == i + r + q + e + 3);
            }
        }
    }
}

/// A token covers its own characters and holds a line feed exactly when it
/// is a line break.
proof fn lemma_token_line_feeds(s: Seq<char>, i: int)
    requires
        0 <= i < s.len(),
        next_token(s, i) is Some,
    ensures
        ({
            let (t, n) = next_token(s, i)->0;
            &&& 0 < n && i + n <= s.len()
            &&& line_feeds(s.subrange(i, i + n)) == if t == Token::NewLine {
                1nat
            } else {
                0nat
            }
        }),
{
    let (t, n) = next_token(s, i)->0;
    lemma_lyric_len_bound(s, i);
    lemma_chord_chars(s, i);
    assert(0 < n && i + n <= s.len());
    let w = s.subrange(i, i + n);
    if t == Token::NewLine {
        assert(w.last() == '\n');
        if n == 2 {
            assert(w.drop_last().last() == '\r');
            assert(w.drop_last().drop_last().len() == 0);
            assert(line_feeds(w.drop_last()) == line_feeds(w.drop_last().drop_last()));
        } else {
            assert(w.drop_last().len() == 0);
        }
        assert(line_feeds(w) == line_feeds(w.drop_last()) + 1);
    } else {
        if t == Token::Lyrics {
            lemma_lyric_chars(s, i);
            assert forall|k: int| 0 <= k < w.len() implies w[k] != '\n' by {
                assert(is_lyric_char(s[i + k]));
            }
        }
        lemma_no_line_feeds(w);
    }
}

pub open spec fn is_ascii_char(c: char) -> bool {
    (c as u32) < 0x80
}

/// Where tokenizing from `i` succeeds, every character from `i` on is ASCII.
pub proof fn lemma_lex_ascii(s: Seq<char>, i: int)
    requires
        0 <= i <= s.len(),
        lex_from(s, i) is Ok,
    ensures
        forall|k: int| i <= k < s.len() ==> is_ascii_char(#[trigger] s[k]),
    decreases s.len() - i,
{
    if i < s.len() {
        let (t, n) = next_token(s, i)->0;
        lemma_token_line_feeds(s, i);
        lemma_chord_chars(s, i);
        lemma_lyric_chars(s, i);
        lemma_lex_ascii(s, i + n);
        assert forall|k: int| i <= k < s.len() implies is_ascii_char(#[trigger] s[k]) by {
            if k < i + n && t == Token::Lyrics {
                assert(is_lyric_char(s[k]));
            }
        }
    }
}

/// In a text whose characters are ASCII, each character takes one byte.
pub proof fn lemma_ascii_byte_offset(s: Seq<char>, k: int)
    requires
        0 <= k <= s.len(),
        forall|x: int| 0 <= x < s.len() ==> is_ascii_char(#[trigger] s[x]),
    ensures
        byte_offset(s, k) == k,
    decreases k,
{
    if k == 0 {
        assert(s.subrange(0, 0) =~= Seq::<char>::empty());
    } else {
        lemma_ascii_byte_offset(s, k - 1);
        lemma_byte_offset_step(s, k - 1);
        assert(is_ascii_char(s[k - 1]));
    }
}

/// Tokenizing from `i` finds as many line breaks as there are line feeds after `i`.
pub proof fn lemma_lex_line_feeds(s: Seq<char>, i: int)
    requires
        0 <= i <= s.len(),
        lex_from(s, i) is Ok,
    ensures
        newline_tokens(lex_from(s, i)->Ok_0) == line_feeds(s.subrange(i, s.len() as int)),
    decreases s.len() - i,
{
    if i == s.len() {
        assert(s.subrange(i, s.len() as int) =~= Seq::<char>::empty());
        assert(lex_from(s, i)->Ok_0 =~= Seq::<Lexeme>::empty());
        assert(line_feeds(Seq::<char>::empty()) == 0);
        assert(newline_tokens(Seq::<Lexeme>::empty()) == 0);
    } else {
        let (t, n) = next_token(s, i)->0;
        lemma_token_line_feeds(s, i);
        lemma_lex_line_feeds(s, i + n);
        let rest = lex_from(s, i + n)->Ok_0;
        assert(lex_from(s, i)->Ok_0 == seq![(t, i, i + n)] + rest);
        lemma_newline_tokens_add(seq![(t, i, i + n)], rest);
        assert(seq![(t, i, i + n)].drop_last() =~= Seq::<Lexeme>::empty());
        assert(newline_tokens(Seq::<Lexeme>::empty()) == 0);
        assert(newline_tokens(seq![(t, i, i + n)]) == if t == Token::NewLine {
            1nat
        } else {
            0nat
        });
        assert(s.subrange(i, s.len() as int) =~= s.subrange(i, i + n) + s.subrange(i + n, s.len() as int));
        lemma_line_feeds_add(s.subrange(i, i + n), s.subrange(i + n, s.len() as int));
    }
}

/// The part `p` stands in `s` at `a`.
pub open spec fn stands_at(s: Seq<char>, a: int, p: Seq<char>) -> bool {
    0 <= a && a + p.len() <= s.len() && forall|x: int| 0 <= x < p.len() ==> s[a + x] == p[x]
}

/// At `x` the text ends, or a closing bracket stands.
pub open spec fn closes(s: Seq<char>, x: int) -> bool {
    x >= s.len() || s[x] == ']'
}

/// At `x` the text ends, or a digit, a slash or a closing bracket stands.
spec fn digit_slash_or_end(s: Seq<char>, x: int) -> bool {
    closes(s, x) || s[x] == '/' || ('0' <= s[x] <= '9')
}

proof fn lemma_root_part(s: Seq<char>, a: int, p: Seq<char>)
    requires
        is_root_spelling(p),
        stands_at(s, a, p),
        p.len() < 3 ==> a + p.len() >= s.len() || !is_accidental_sign(s[a + p.len()]),
    ensures
        root_len(s, a) == p.len(),
{
    assert(s[a] == p[0]);
    if p.len() >= 2 {
        assert(s[a + 1] == p[1]);
    }
    if p.len() == 3 {
        assert(s[a + 2] == p[2]);
    }
}

proof fn lemma_quality_part(s: Seq<char>, a: int, p: Seq<char>)
    requires
        is_quality_suffix(p),
        stands_at(s, a, p),
        digit_slash_or_end(s, a + p.len()),
    ensures
        quality_len(s, a) == p.len(),
{
    if p.len() > 0 {
        assert(s[a] == p[0]);
    }
    if p.len() > 1 {
        assert(s[a + 1] == p[1]);
    }
    if p.len() > 2 {
        assert(s[a + 2] == p[2]);
    }
    if p.len() > 3 {
        assert(s[a + 3] == p[3]);
    }
}

proof fn lemma_extension_part(s: Seq<char>, a: int, p: Seq<char>)
    requires
        is_extension(p),
        stands_at(s, a, p),
        closes(s, a + p.len()) || s[a + p.len()] == '/',
    ensures
        extension_len(s, a) == p.len(),
{
    if p.len() > 0 {
        assert(s[a] == p[0]);
    }
    if p.len() > 1 {
        assert(s[a + 1] == p[1]);
    }
}

proof fn lemma_bass_part(s: Seq<char>, a: int, p: Seq<char>)
    requires
        is_bass_part(p),
        stands_at(s, a, p),
        closes(s, a + p.len()),
    ensures
        slash_len(s, a) == p.len(),
{
    if p.len() > 0 {
        let r = p.subrange(1, p.len() as int);
        assert(s[a] == p[0]);
        assert forall|x: int| 0 <= x < r.len() implies s[a + 1 + x] == r[x] by {
            assert(s[a + (1 + x)] == p[1 + x]);
        }
        lemma_root_part(s, a + 1, r);
    }
}

/// A chord symbol of the grammar that stands at `a`, followed by the end of
/// the text or a closing bracket, is matched as a whole.
pub proof fn lemma_chord_len_at(
    s: Seq<char>,
    a: int,
    r: Seq<char>,
    q: Seq<char>,
    e: Seq<char>,
    b: Seq<char>,
)
    requires
        is_chord_grammar(r, q, e, b),
        stands_at(s, a, r + q + e + b),
        closes(s, a + (r + q + e + b).len()),
    ensures
        chord_len(s, a) == (r + q + e + b).len(),
{
    let c = r + q + e + b;
    let i = a + r.len();
    let j = i + q.len();
    let k = j + e.len();
    assert forall|x: int| 0 <= x < r.len() implies s[a + x] == r[x] by {
        assert(c[x] == r[x]);
    }
    assert forall|x: int| 0 <= x < q.len() implies s[i + x] == q[x] by {
        assert(s[a + (r.len() + x)] == c[r.len() + x]);
    }
    assert forall|x: int| 0 <= x < e.len() implies s[j + x] == e[x] by {
        assert(s[a + (r.len() + q.len() + x)] == c[r.len() + q.len() + x]);
    }
    assert forall|x: int| 0 <= x < b.len() implies s[k + x] == b[x] by {
        assert(s[a + (r.len() + q.len() + e.len() + x)] == c[r.len() + q.len() + e.len() + x]);
    }
    // the character after each part opens a later part, or closes the symbol
    if b.len() > 0 {
        assert(s[k] == b[0]);
    }
    if e.len() > 0 {
        assert(s[j] == e[0]);
    }
    if q.len() > 0 {
        assert(s[i] == q[0]);
    }
    lemma_bass_part(s, k, b);
    lemma_extension_part(s, j, e);
    lemma_quality_part(s, i, q);
    lemma_root_part(s, a, r);
}

/// Every text of the chord grammar is one chord token as a whole, never a
/// lyric run or several tokens.
pub proof fn lemma_chord_symbol_is_one_token(r: Seq<char>, q: Seq<char>, e: Seq<char>, b: Seq<char>)
    requires
        is_chord_grammar(r, q, e, b),
    ensures
        lex(r + q + e + b) == Ok::<Seq<Lexeme>, int>(
            seq![(Token::Chord, 0int, (r + q + e + b).len() as int)],
        ),
{
    let s = r + q + e + b;
    lemma_chord_len_at(s, 0, r, q, e, b);
    assert(chord_len(s, 0) == s.len());
    lemma_lyric_len_bound(s, 0);
    assert(next_token(s, 0) == Some((Token::Chord, s.len() as int)));
    assert(lex_from(s, s.len() as int) == Ok::<Seq<Lexeme>, int>(Seq::empty()));
    assert(seq![(Token::Chord, 0int, s.len() as int)] + Seq::<Lexeme>::empty() =~= seq![
        (Token::Chord, 0int, s.len() as int),
    ]);
}

/// A lyric run stops at the first character that is not a lyric character.
pub proof fn lemma_lyric_len_stops(s: Seq<char>, i: int, j: int)
    requires
        0 <= i <= j < s.len(),
        !is_lyric_char(s[j]),
    ensures
        lyric_len(s, i) <= j - i,
    decreases j - i,
{
    if i < j && is_lyric_char(s[i]) {
        lemma_lyric_len_stops(s, i + 1, j);
    }
}

/// Relies on `String::push`: appends the character at the end.
#[verifier::external_body]
pub(crate) fn push_char(s: &mut String, c: char)
    ensures
        final(s)@ == old(s)@.push(c),
{
    s.push(c);
}

/// A token source over a text, pulled one token at a time. After each token
/// it holds that token's span; after a character at which no token starts it
/// holds that character's span and goes on after it.
pub struct Lexer {
    chars: Vec<char>,
    pos: usize,
    start: usize,
    end: usize,
    byte_pos: usize,
    byte_start: usize,
    byte_end: usize,
}

impl View for Lexer {
    /// The text, the position where the next token starts, and the span of the last one.
    type V = (Seq<char>, int, int, int);

    closed spec fn view(&self) -> (Seq<char>, int, int, int) {
        (self.chars@, self.pos as int, self.start as int, self.end as int)
    }
}

impl Lexer {
    pub open spec fn wf(&self) -> bool {
        &&& 0 <= self@.2 <= self@.3 <= self@.1 <= self@.0.len() <= usize::MAX
        &&& self.bytes_wf()
    }

    /// The byte positions match the character positions, and the text's
    /// UTF-8 length fits in a `usize`.
    pub closed spec fn bytes_wf(&self) -> bool {
        &&& self.byte_pos == byte_offset(self.chars@, self.pos as int)
        &&& self.byte_start == byte_offset(self.chars@, self.start as int)
        &&& self.byte_end == byte_offset(self.chars@, self.end as int)
        &&& byte_offset(self.chars@, self.chars@.len() as int) <= usize::MAX
    }

    /// The next token, `Err(())` for a character at which no token starts, or
    /// `None` at the end of the text.
    pub fn next(&mut self) -> (r: Option<Result<Token, ()>>)
        requires
            old(self).wf(),
        ensures
            final(self).wf(),
            final(self)@.0 == old(self)@.0,
            old(self)@.1 >= old(self)@.0.len() ==> r is None && final(self)@ == old(self)@,
            old(self)@.1 < old(self)@.0.len() ==> match next_token(old(self)@.0, old(self)@.1) {
                Some(t) => r == Some(Ok::<Token, ()>(t.0)) && final(self)@ == (
                    old(self)@.0,
                    old(self)@.1 + t.1,
                    old(self)@.1,
                    old(self)@.1 + t.1,
                ),
                None => r == Some(Err::<Token, ()>(())) && final(self)@ == (
                    old(self)@.0,
                    old(self)@.1 + 1,
                    old(self)@.1,
                    old(self)@.1 + 1,
                ),
            },
    {
        if self.pos >= self.chars.len() {
            return None;
        }
        let start = self.pos;
        let (r, n) = match token_at(&self.chars, start) {
            Some((t, n)) => (Some(Ok(t)), n),
            None => (Some(Err(())), 1),
        };
        let bytes = advance_bytes(&self.chars, start, start + n, self.byte_pos);
        self.start = start;
        self.end = start + n;
        self.pos = start + n;
        self.byte_start = self.byte_pos;
        self.byte_end = bytes;
        self.byte_pos = bytes;
        r
    }

    /// The span of the last token, in bytes of the text's UTF-8 encoding.
    pub fn span(&self) -> (r: std::ops::Range<usize>)
        requires
            self.wf(),
        ensures
            r.start == byte_offset(self@.0, self@.2),
            r.end == byte_offset(self@.0, self@.3),
    {
        self.byte_start..self.byte_end
    }

    /// The span of the last token, in characters.
    pub fn char_span(&self) -> (r: std::ops::Range<usize>)
        ensures
            r.start == self@.2,
            r.end == self@.3,
    {
        self.start..self.end
    }

    /// The text of the last token.
    pub fn slice(&self) -> (r: String)
        requires
            self.wf(),
        ensures
            r@ == self@.0.subrange(self@.2, self@.3),
    {
        text_between(&self.chars, self.start, self.end)
    }
}

/// Where character position `k` of a text falls in its UTF-8 encoding.
pub open spec fn byte_offset(s: Seq<char>, k: int) -> int {
    encode_utf8(s.subrange(0, k)).len() as int
}

pub proof fn lemma_encode_utf8_add(a: Seq<char>, b: Seq<char>)
    ensures
        encode_utf8(a + b) == encode_utf8(a) + encode_utf8(b),
    decreases a.len(),
{
    if a.len() == 0 {
        assert(a + b =~= b);
        assert(encode_utf8(a) + encode_utf8(b) =~= encode_utf8(b));
    } else {
        lemma_encode_utf8_add(a.drop_first(), b);
        assert((a + b).drop_first() =~= a.drop_first() + b);
        assert((a + b)[0] == a[0]);
        let e = encode_scalar(a[0] as u32);
        assert(e + (encode_utf8(a.drop_first()) + encode_utf8(b)) =~= (e + encode_utf8(
            a.drop_first(),
        )) + encode_utf8(b));
    }
}

proof fn lemma_byte_offset_step(s: Seq<char>, k: int)
    requires
        0 <= k < s.len(),
    ensures
        byte_offset(s, k + 1) == byte_offset(s, k) + encode_scalar(s[k] as u32).len(),
{
    let c = seq![s[k]];
    assert(s.subrange(0, k + 1) =~= s.subrange(0, k) + c);
    lemma_encode_utf8_add(s.subrange(0, k), c);
    assert(c.drop_first() =~= Seq::<char>::empty());
    assert(encode_utf8(c) =~= encode_scalar(s[k] as u32) + encode_utf8(Seq::<char>::empty()));
}

proof fn lemma_byte_offset_bound(s: Seq<char>, k: int)
    requires
        0 <= k <= s.len(),
    ensures
        byte_offset(s, k) <= byte_offset(s, s.len() as int),
{
    assert(s.subrange(0, s.len() as int) =~= s.subrange(0, k) + s.subrange(k, s.len() as int));
    lemma_encode_utf8_add(s.subrange(0, k), s.subrange(k, s.len() as int));
}

/// Number of bytes that UTF-8 takes for a character.
fn utf8_width(c: char) -> (r: usize)
    ensures
        r == encode_scalar(c as u32).len(),
{
    proof {
        vstd::utf8::char_is_scalar(c);
    }
    let u = c as u32;
    if u <= 0x7f {
        1
    } else if u <= 0x7ff {
        2
    } else if u <= 0xffff {
        3
    } else {
        4
    }
}

/// The byte offset of character position `to`, from that of `from`.
pub(crate) fn advance_bytes(s: &Vec<char>, from: usize, to: usize, b: usize) -> (r: usize)
    requires
        from <= to <= s.len(),
        b == byte_offset(s@, from as int),
        byte_offset(s@, s@.len() as int) <= usize::MAX,
    ensures
        r == byte_offset(s@, to as int),
{
    let mut k = from;
    let mut r = b;
    while k < to
        invariant
            from <= k <= to <= s.len(),
            r == byte_offset(s@, k as int),
            byte_offset(s@, s@.len() as int) <= usize::MAX,
        decreases to - k,
    {
        proof {
            lemma_byte_offset_step(s@, k as int);
            lemma_byte_offset_bound(s@, k + 1);
        }
        r = r + utf8_width(s[k]);
        k = k + 1;
    }
    r
}

/// A text's characters, with proof that its UTF-8 length fits in a `usize`.
pub(crate) fn text_chars(text: &str) -> (r: Vec<char>)
    ensures
        r@ == text@,
        byte_offset(r@, r@.len() as int) <= usize::MAX,
{
    let chars = chars_of(text);
    let bytes = text.as_bytes();
    proof {
        assert(chars@.subrange(0, chars@.len() as int) =~= chars@);
        assert(bytes@.len() == bytes.len());
    }
    chars
}

impl Token {
    /// A token source at the start of `text`.
    pub fn lexer(text: &str) -> (r: Lexer)
        ensures
            r.wf(),
            r@ == (text@, 0int, 0int, 0int),
    {
        let chars = text_chars(text);
        proof {
            assert(chars@.len() == chars.len());
            assert(chars@.subrange(0, 0) =~= Seq::<char>::empty());
        }
        Lexer { chars, pos: 0, start: 0, end: 0, byte_pos: 0, byte_start: 0, byte_end: 0 }
    }
}

/// The characters of `s` from `a` to `b`, as a string.
pub fn text_between(s: &Vec<char>, a: usize, b: usize) -> (r: String)
    requires
        a <= b <= s.len(),
    ensures
        r@ == s@.subrange(a as int, b as int),
{
    let mut r = String::new();
    let mut k = a;
    while k < b
        invariant
            a <= k <= b <= s.len(),
            r@ == s@.subrange(a as int, k as int),
        decreases b - k,
    {
        push_char(&mut r, s[k]);
        k = k + 1;
        assert(r@ =~= s@.subrange(a as int, k as int));
    }
    r
}

/// The characters of a text, in order.
pub fn chars_of(text: &str) -> (r: Vec<char>)
    ensures
        r@ == text@,
{
    let mut r: Vec<char> = Vec::new();
    let mut it = text.chars();
    loop
        invariant
            r@ + IteratorSpec::remaining(&it) == text@,
            IteratorSpec::decrease(&it) is Some,
        ensures
            r@ =~= text@,
        decreases IteratorSpec::decrease(&it)->0,
    {
        match it.next() {
            Some(c) => {
                r.push(c);
            },
            None => {
                break;
            },
        }
    }
    r
}

/// Kind of a token of a chord sheet.
#[derive(Debug, PartialEq, Eq, Structural, Copy, Clone)]
pub enum Token {
    /// A chord symbol such as `Ebm9`, `CMaj7` or `C/G`.
    Chord,
    /// `[`, where a chord annotation opens.
    LSqBracket,
    /// `]`, where a chord annotation closes.
    RSqBracket,
    /// A line feed, or a carriage return followed by a line feed.
    NewLine,
    /// A run of lyric characters.
    Lyrics,
}

/// The character at `i` is `c`.
pub open spec fn ch(s: Seq<char>, i: int, c: char) -> bool {
    0 <= i < s.len() && s[i] == c
}

pub open spec fn is_root_letter(c: char) -> bool {
    'A' <= c <= 'G'
}

pub open spec fn is_accidental_sign(c: char) -> bool {
    c == 'b' || c == '#'
}

/// Characters that a lyric run is made of: ASCII letters, the space, the
/// hyphen, the apostrophe, the quotation mark and the comma.
pub open spec fn is_lyric_char(c: char) -> bool {
    ('a' <= c <= 'z') || ('A' <= c <= 'Z') || c == ' ' || c == '-' || c == '\'' || c == '"' || c
        == ','
}

/// Length of the longest note spelling at `i`: a letter `A` to `G`, then
/// optionally `bb`, `##`, `b` or `#`.
pub open spec fn root_len(s: Seq<char>, i: int) -> int {
    if 0 <= i < s.len() && is_root_letter(s[i]) {
        if 0 <= i + 1 < s.len() && is_accidental_sign(s[i + 1]) {
            if ch(s, i + 2, s[i + 1]) {
                3
            } else {
                2
            }
        } else {
            1
        }
    } else {
        0
    }
}

/// Length of the longest quality suffix at `i`: one of `mMaj`, `Maj`, `min`,
/// `m`, `sus`, `dim` and `aug`, or nothing.
pub open spec fn quality_len(s: Seq<char>, i: int) -> int {
    if ch(s, i, 'm') && ch(s, i + 1, 'M') && ch(s, i + 2, 'a') && ch(s, i + 3, 'j') {
        4
    } else if ch(s, i, 'M') && ch(s, i + 1, 'a') && ch(s, i + 2, 'j') {
        3
    } else if ch(s, i, 'm') && ch(s, i + 1, 'i') && ch(s, i + 2, 'n') {
        3
    } else if ch(s, i, 'm') {
        1
    } else if ch(s, i, 's') && ch(s, i + 1, 'u') && ch(s, i + 2, 's') {
        3
    } else if ch(s, i, 'd') && ch(s, i + 1, 'i') && ch(s, i + 2, 'm') {
        3
    } else if ch(s, i, 'a') && ch(s, i + 1, 'u') && ch(s, i + 2, 'g') {
        3
    } else {
        0
    }
}

/// Length of the longest extension at `i`: a number from 1 to 12, or nothing.
pub open spec fn extension_len(s: Seq<char>, i: int) -> int {
    if ch(s, i, '1') && 0 <= i + 1 < s.len() && '0' <= s[i + 1] <= '2' {
        2
    } else if 0 <= i < s.len() && '1' <= s[i] <= '9' {
        1
    } else {
        0
    }
}

/// Length of a slash and a bass note at `i`, or nothing.
pub open spec fn slash_len(s: Seq<char>, i: int) -> int {
    if ch(s, i, '/') && root_len(s, i + 1) > 0 {
        1 + root_len(s, i + 1)
    } else {
        0
    }
}

/// Length of the longest chord symbol that starts at `i`; zero where none does.
pub open spec fn chord_len(s: Seq<char>, i: int) -> int {
    let r = root_len(s, i);
    if r == 0 {
        0
    } else {
        let q = quality_len(s, i + r);
        let e = extension_len(s, i + r + q);
        r + q + e + slash_len(s, i + r + q + e)
    }
}

/// Length of the run of lyric characters that starts at `i`.
pub open spec fn lyric_len(s: Seq<char>, i: int) -> int
    decreases s.len() - i,
{
    if 0 <= i < s.len() && is_lyric_char(s[i]) {
        1 + lyric_len(s, i + 1)
    } else {
        0
    }
}

/// Length of a line break at `i`.
pub open spec fn newline_len(s: Seq<char>, i: int) -> int {
    if ch(s, i, '\n') {
        1
    } else if ch(s, i, '\r') && ch(s, i + 1, '\n') {
        2
    } else {
        0
    }
}

/// The token that starts at `i`, with its length. The longest match wins, and
/// a chord symbol wins over a lyric run of the same length.
pub open spec fn next_token(s: Seq<char>, i: int) -> Option<(Token, int)> {
    let c = chord_len(s, i);
    let l = lyric_len(s, i);
    if c > 0 && c >= l {
        Some((Token::Chord, c))
    } else if l > 0 {
        Some((Token::Lyrics, l))
    } else if ch(s, i, '[') {
        Some((Token::LSqBracket, 1))
    } else if ch(s, i, ']') {
        Some((Token::RSqBracket, 1))
    } else if newline_len(s, i) > 0 {
        Some((Token::NewLine, newline_len(s, i)))
    } else {
        None
    }
}

/// A token with the span `[start, end)` that it covers.
pub type Lexeme = (Token, int, int);

/// The tokens of `s` from `i` on, or the position of the first character at
/// which no token starts.
pub open spec fn lex_from(s: Seq<char>, i: int) -> Result<Seq<Lexeme>, int>
    decreases (if i < s.len() { s.len() - i } else { 0 }),
{
    if i < 0 || i >= s.len() {
        Ok(Seq::empty())
    } else {
        match next_token(s, i) {
            None => Err(i),
            Some(t) => if t.1 <= 0 {
                Err(i)
            } else {
                match lex_from(s, i + t.1) {
                    Ok(rest) => Ok(seq![(t.0, i, i + t.1)] + rest),
                    Err(e) => Err(e),
                }
            },
        }
    }
}

/// The tokens of a whole text, or the position where tokenizing fails.
pub open spec fn lex(s: Seq<char>) -> Result<Seq<Lexeme>, int> {
    lex_from(s, 0)
}

pub(crate) fn has(s: &Vec<char>, i: usize, c: char) -> (r: bool)
    ensures
        r == ch(s@, i as int, c),
{
    i < s.len() && s[i] == c
}

pub(crate) fn root_length(s: &Vec<char>, i: usize) -> (r: usize)
    ensures
        r == root_len(s@, i as int),
{
    if i < s.len() && 'A' <= s[i] && s[i] <= 'G' {
        if i + 1 < s.len() && (s[i + 1] == 'b' || s[i + 1] == '#') {
            if has(s, i + 2, s[i + 1]) {
                3
            } else {
                2
            }
        } else {
            1
        }
    } else {
        0
    }
}

pub(crate) fn quality_length(s: &Vec<char>, i: usize) -> (r: usize)
    requires
        i <= s.len(),
    ensures
        r == quality_len(s@, i as int),
{
    if has(s, i, 'm') && has(s, i + 1, 'M') && has(s, i + 2, 'a') && has(s, i + 3, 'j') {
        4
    } else if has(s, i, 'M') && has(s, i + 1, 'a') && has(s, i + 2, 'j') {
        3
    } else if has(s, i, 'm') && has(s, i + 1, 'i') && has(s, i + 2, 'n') {
        3
    } else if has(s, i, 'm') {
        1
    } else if has(s, i, 's') && has(s, i + 1, 'u') && has(s, i + 2, 's') {
        3
    } else if has(s, i, 'd') && has(s, i + 1, 'i') && has(s, i + 2, 'm') {
        3
    } else if has(s, i, 'a') && has(s, i + 1, 'u') && has(s, i + 2, 'g') {
        3
    } else {
        0
    }
}

pub(crate) fn extension_length(s: &Vec<char>, i: usize) -> (r: usize)
    requires
        i <= s.len(),
    ensures
        r == extension_len(s@, i as int),
{
    if has(s, i, '1') && i + 1 < s.len() && '0' <= s[i + 1] && s[i + 1] <= '2' {
        2
    } else if i < s.len() && '1' <= s[i] && s[i] <= '9' {
        1
    } else {
        0
    }
}

/// Length of the longest chord symbol that starts at `i`.
pub fn chord_length(s: &Vec<char>, i: usize) -> (r: usize)
    requires
        i <= s.len(),
    ensures
        r == chord_len(s@, i as int),
        i + r <= s.len(),
{
    let r = root_length(s, i);
    if r == 0 {
        return 0;
    }
    let q = quality_length(s, i + r);
    let e = extension_length(s, i + r + q);
    let j = i + r + q + e;
    let slash = if has(s, j, '/') {
        let b = root_length(s, j + 1);
        if b > 0 {
            1 + b
        } else {
            0
        }
    } else {
        0
    };
    r + q + e + slash
}

/// Length of the run of lyric characters that starts at `i`.
pub fn lyric_length(s: &Vec<char>, i: usize) -> (r: usize)
    requires
        i <= s.len(),
    ensures
        r == lyric_len(s@, i as int),
        i + r <= s.len(),
{
    let mut k: usize = i;
    while k < s.len()
        invariant
            i <= k <= s.len(),
            lyric_len(s@, i as int) == (k - i) + lyric_len(s@, k as int),
        decreases s.len() - k,
    {
        let c = s[k];
        if !(('a' <= c && c <= 'z') || ('A' <= c && c <= 'Z') || c == ' ' || c == '-' || c == '\''
            || c == '"' || c == ',') {
            return k - i;
        }
        k = k + 1;
    }
    k - i
}

/// The token that starts at `i`, with its length, as `next_token` gives it.
pub fn token_at(s: &Vec<char>, i: usize) -> (r: Option<(Token, usize)>)
    requires
        i < s.len(),
    ensures
        r is None <==> next_token(s@, i as int) is None,
        r matches Some((t, n)) ==> next_token(s@, i as int) == Some((t, n as int)) && 0 < n
            && i + n <= s.len(),
{
    let c = chord_length(s, i);
    let l = lyric_length(s, i);
    if c > 0 && c >= l {
        Some((Token::Chord, c))
    } else if l > 0 {
        Some((Token::Lyrics, l))
    } else if s[i] == '[' {
        Some((Token::LSqBracket, 1))
    } else if s[i] == ']' {
        Some((Token::RSqBracket, 1))
    } else if s[i] == '\n' {
        Some((Token::NewLine, 1))
    } else if s[i] == '\r' && has(s, i + 1, '\n') {
        Some((Token::NewLine, 2))
    } else {
        None
    }
}

} // verus!
