use vstd::prelude::*;
use crate::chords::is_chord_symbol;
use crate::printing::lyric_row;
use crate::lexer::{
    is_chord_grammar, lemma_chord_len_at, lemma_lyric_len_stops, stands_at, byte_offset, lemma_ascii_byte_offset, lemma_lex_ascii, chord_len, is_lyric_char, lemma_lyric_chars, lemma_lyric_len_bound, lyric_len,
    lex, lex_from, lemma_lex_line_feeds, line_feeds, newline_tokens, next_token, Lexeme, Lexer,
    Token,
};

verus! {

broadcast use vstd::string::group_string_axioms;

/// A chord symbol as it stands in the text.
#[derive(Debug, Clone, PartialEq)]
pub struct Chord {
    pub chord: String,
}

impl Chord {
    pub fn new(s: String) -> (r: Chord)
        ensures
            r.chord@ == s@,
    {
        Chord { chord: s }
    }
}

/// A piece of a line: lyric text with at most one chord, and the span
/// `[start, end)` of the lyric text in the whole song.
#[derive(Debug, Clone, PartialEq)]
pub struct Phrase {
    pub lyrics: String,
    pub start: usize,
    pub end: usize,
    pub chord: Option<Chord>,
}

/// What a phrase holds, as plain values.
pub struct PhraseView {
    pub lyrics: Seq<char>,
    pub start: int,
    pub end: int,
    pub chord: Option<Seq<char>>,
}

impl View for Phrase {
    type V = PhraseView;

    open spec fn view(&self) -> PhraseView {
        PhraseView {
            lyrics: self.lyrics@,
            start: self.start as int,
            end: self.end as int,
            chord: match self.chord {
                Some(c) => Some(c.chord@),
                None => None,
            },
        }
    }
}

/// The phrase that holds nothing: no lyric text, no chord, an empty span at 0.
pub open spec fn empty_phrase() -> PhraseView {
    PhraseView { lyrics: Seq::empty(), start: 0, end: 0, chord: None }
}

impl Phrase {
    pub fn new(lyrics: String, start: usize, end: usize, chord: Option<Chord>) -> (r: Phrase)
        ensures
            r.lyrics == lyrics,
            r.start == start,
            r.end == end,
            r.chord == chord,
    {
        Phrase { lyrics, start, end, chord }
    }

    pub fn empty() -> (r: Phrase)
        ensures
            r@ == empty_phrase(),
    {
        Phrase { lyrics: String::new(), start: 0, end: 0, chord: None }
    }
}

/// Phrases grouped by line, as a list of entries `(line index, phrases)`.
/// The entries stand in ascending order of their line index, and a line's
/// phrases in the order in which they appear in the text.
#[derive(Debug, PartialEq, Clone)]
pub struct Lines {
    pub lines: Vec<(usize, Vec<Phrase>)>,
}

/// The phrases of an entry, as plain values.
pub open spec fn phrases_view(ps: Seq<Phrase>) -> Seq<PhraseView> {
    ps.map_values(|p: Phrase| p@)
}

impl View for Lines {
    type V = Seq<(int, Seq<PhraseView>)>;

    open spec fn view(&self) -> Seq<(int, Seq<PhraseView>)> {
        self.lines@.map_values(|e: (usize, Vec<Phrase>)| (e.0 as int, phrases_view(e.1@)))
    }
}

/// The first index from `j` on whose entry has line index `line`, or the length.
pub open spec fn find_line_from(v: Seq<(int, Seq<PhraseView>)>, line: int, j: int) -> int
    decreases v.len() - j,
{
    if j < 0 || j >= v.len() {
        v.len() as int
    } else if v[j].0 == line {
        j
    } else {
        find_line_from(v, line, j + 1)
    }
}

/// The first index from `j` on whose entry has a line index above `line`, or the length.
pub open spec fn after_line_from(v: Seq<(int, Seq<PhraseView>)>, line: int, j: int) -> int
    decreases v.len() - j,
{
    if j < 0 || j >= v.len() {
        v.len() as int
    } else if v[j].0 > line {
        j
    } else {
        after_line_from(v, line, j + 1)
    }
}

/// The table after adding phrase `p` to line `line`: the first entry of that
/// line gets it at its end; where there is none, a new entry is put before
/// the first entry of a later line, or at the end.
pub open spec fn add_phrase_spec(v: Seq<(int, Seq<PhraseView>)>, line: int, p: PhraseView) -> Seq<
    (int, Seq<PhraseView>),
> {
    let j = find_line_from(v, line, 0);
    if j < v.len() {
        v.update(j, (line, v[j].1.push(p)))
    } else {
        v.insert(after_line_from(v, line, 0), (line, seq![p]))
    }
}

/// Entries stand in strictly ascending order of line index, and none is empty.
pub open spec fn table_wf(v: Seq<(int, Seq<PhraseView>)>) -> bool {
    &&& forall|i: int, k: int| 0 <= i < k < v.len() ==> v[i].0 < v[k].0
    &&& forall|i: int| 0 <= i < v.len() ==> v[i].1.len() > 0
}

proof fn lemma_find_line(v: Seq<(int, Seq<PhraseView>)>, line: int, j: int)
    requires
        0 <= j <= v.len(),
    ensures
        j <= find_line_from(v, line, j) <= v.len(),
        forall|x: int| j <= x < find_line_from(v, line, j) ==> #[trigger] v[x].0 != line,
        find_line_from(v, line, j) < v.len() ==> v[find_line_from(v, line, j)].0 == line,
    decreases v.len() - j,
{
    if j < v.len() && v[j].0 != line {
        lemma_find_line(v, line, j + 1);
    }
}

proof fn lemma_after_line(v: Seq<(int, Seq<PhraseView>)>, line: int, j: int)
    requires
        0 <= j <= v.len(),
    ensures
        j <= after_line_from(v, line, j) <= v.len(),
        forall|x: int| j <= x < after_line_from(v, line, j) ==> #[trigger] v[x].0 <= line,
        after_line_from(v, line, j) < v.len() ==> v[after_line_from(v, line, j)].0 > line,
    decreases v.len() - j,
{
    if j < v.len() && v[j].0 <= line {
        lemma_after_line(v, line, j + 1);
    }
}

/// Adding a phrase keeps the entries in ascending order of line index, with
/// none empty.
pub proof fn lemma_add_phrase_wf(v: Seq<(int, Seq<PhraseView>)>, line: int, p: PhraseView)
    requires
        table_wf(v),
    ensures
        table_wf(add_phrase_spec(v, line, p)),
{
    lemma_find_line(v, line, 0);
    lemma_after_line(v, line, 0);
    let j = find_line_from(v, line, 0);
    let w = add_phrase_spec(v, line, p);
    if j >= v.len() {
        let a = after_line_from(v, line, 0);
        assert forall|i: int, k: int| 0 <= i < k < w.len() implies w[i].0 < w[k].0 by {
            if k < a {
            } else if k == a {
                assert(v[i].0 != line);
            } else if i < a {
                assert(v[i].0 != line);
                if a < v.len() {
                    assert(v[k - 1].0 >= v[a].0);
                }
            } else if i == a {
                assert(v[k - 1].0 >= v[a].0);
            }
        }
    }
}

/// Numbered lines, none of them empty, make a table in order.
pub proof fn lemma_numbered_wf(m: Seq<Seq<PhraseView>>)
    requires
        forall|i: int| 0 <= i < m.len() ==> #[trigger] m[i].len() > 0,
    ensures
        table_wf(numbered(m)),
{
}

impl Lines {
    pub fn new() -> (r: Lines)
        ensures
            r@ == Seq::<(int, Seq<PhraseView>)>::empty(),
    {
        Lines { lines: Vec::new() }
    }

    /// Adds a phrase at the end of a line.
    pub fn add_phrase(&mut self, line: usize, phrase: Phrase)
        ensures
            final(self)@ == add_phrase_spec(old(self)@, line as int, phrase@),
            table_wf(old(self)@) ==> table_wf(final(self)@),
    {
        proof {
            if table_wf(self@) {
                lemma_add_phrase_wf(self@, line as int, phrase@);
            }
        }
        let ghost v = self@;
        let n = self.lines.len();
        let mut j: usize = 0;
        while j < n && self.lines[j].0 != line
            invariant
                n == self.lines.len(),
                v == self@,
                0 <= j <= n,
                find_line_from(v, line as int, 0) == find_line_from(v, line as int, j as int),
            decreases n - j,
        {
            j = j + 1;
        }
        if j < n {
            let ghost old_lines = self.lines@;
            let (k, mut ps) = self.lines.remove(j);
            proof {
                assert(old_lines[j as int] == (k, ps));
                assert(v[j as int].1 == phrases_view(ps@));
            }
            ps.push(phrase);
            self.lines.insert(j, (k, ps));
            proof {
                assert(self.lines@ =~= old_lines.update(j as int, (k, ps)));
                assert(phrases_view(ps@) =~= v[j as int].1.push(phrase@));
                assert(self@ =~= v.update(j as int, (line as int, v[j as int].1.push(phrase@))));
            }
        } else {
            let mut a: usize = 0;
            while a < n && self.lines[a].0 <= line
                invariant
                    n == self.lines.len(),
                    v == self@,
                    0 <= a <= n,
                    after_line_from(v, line as int, 0) == after_line_from(v, line as int, a as int),
                decreases n - a,
            {
                a = a + 1;
            }
            let ps = vec![phrase];
            self.lines.insert(a, (line, ps));
            proof {
                assert(phrases_view(ps@) =~= seq![phrase@]);
                assert(self@ =~= v.insert(a as int, (line as int, seq![phrase@])));
            }
        }
    }
}

/// The parser's state: the phrases of each line so far, the last line being
/// the current one, and the phrase being filled.
pub struct ParseState {
    pub lines: Seq<Seq<PhraseView>>,
    pub current: PhraseView,
}

pub open spec fn initial_state() -> ParseState {
    ParseState { lines: seq![Seq::empty()], current: empty_phrase() }
}

/// The lines after the current phrase is added to the current line.
pub open spec fn close_phrase(st: ParseState) -> Seq<Seq<PhraseView>> {
    st.lines.update(st.lines.len() - 1, st.lines.last().push(st.current))
}

/// What one token does to the parser's state.
pub open spec fn step(s: Seq<char>, st: ParseState, t: Lexeme) -> ParseState {
    match t.0 {
        Token::Lyrics => ParseState {
            lines: st.lines,
            current: PhraseView {
                lyrics: s.subrange(t.1, t.2),
                start: t.1,
                end: t.2,
                chord: st.current.chord,
            },
        },
        Token::Chord => ParseState {
            lines: st.lines,
            current: PhraseView {
                lyrics: st.current.lyrics,
                start: st.current.start,
                end: st.current.end,
                chord: Some(s.subrange(t.1, t.2)),
            },
        },
        Token::LSqBracket => ParseState { lines: close_phrase(st), current: empty_phrase() },
        Token::RSqBracket => st,
        Token::NewLine => ParseState {
            lines: close_phrase(st).push(Seq::empty()),
            current: empty_phrase(),
        },
    }
}

/// The parser's state after a sequence of tokens.
pub open spec fn run(s: Seq<char>, toks: Seq<Lexeme>) -> ParseState
    decreases toks.len(),
{
    if toks.len() == 0 {
        initial_state()
    } else {
        step(s, run(s, toks.drop_last()), toks.last())
    }
}

/// The phrases of each line of a song, or the position where tokenizing fails.
pub open spec fn parse_lines(s: Seq<char>) -> Result<Seq<Seq<PhraseView>>, int> {
    match lex(s) {
        Ok(toks) => Ok(close_phrase(run(s, toks))),
        Err(e) => Err(e),
    }
}

/// Lines numbered from 0, as table entries.
pub open spec fn numbered(m: Seq<Seq<PhraseView>>) -> Seq<(int, Seq<PhraseView>)> {
    Seq::new(m.len(), |i: int| (i, m[i]))
}

/// The table entries of the lines so far: a current line without phrases has none yet.
pub open spec fn entries(m: Seq<Seq<PhraseView>>) -> Seq<(int, Seq<PhraseView>)> {
    if m.len() > 0 && m.last().len() == 0 {
        numbered(m.drop_last())
    } else {
        numbered(m)
    }
}

/// The message for a character at which no token starts.
pub open spec fn token_error(s: Seq<char>, e: int) -> Seq<char> {
    "Token error: \""@ + s.subrange(e, e + 1) + "\""@
}

pub open spec fn prepend(seen: Seq<Lexeme>, r: Result<Seq<Lexeme>, int>) -> Result<Seq<Lexeme>, int> {
    match r {
        Ok(x) => Ok(seen + x),
        Err(e) => Err(e),
    }
}

proof fn lemma_find_numbered(v: Seq<(int, Seq<PhraseView>)>, line: int, j: int)
    requires
        forall|i: int| 0 <= i < v.len() ==> #[trigger] v[i].0 == i,
        0 <= j <= line,
    ensures
        find_line_from(v, line, j) == if line < v.len() {
            line
        } else {
            v.len() as int
        },
    decreases v.len() - j,
{
    if j < v.len() && j < line {
        lemma_find_numbered(v, line, j + 1);
    }
}

proof fn lemma_after_numbered(v: Seq<(int, Seq<PhraseView>)>, line: int, j: int)
    requires
        forall|i: int| 0 <= i < v.len() ==> #[trigger] v[i].0 == i,
        0 <= j,
        line >= v.len() - 1,
    ensures
        after_line_from(v, line, j) == v.len(),
    decreases v.len() - j,
{
    if j < v.len() {
        lemma_after_numbered(v, line, j + 1);
    }
}

/// Adding the current phrase to the current line turns the entries so far
/// into the numbered lines.
proof fn lemma_close(st: ParseState)
    requires
        st.lines.len() > 0,
        forall|i: int| 0 <= i < st.lines.len() - 1 ==> #[trigger] st.lines[i].len() > 0,
    ensures
        add_phrase_spec(entries(st.lines), st.lines.len() - 1, st.current) == numbered(
            close_phrase(st),
        ),
{
    let m = st.lines;
    let v = entries(m);
    let last = m.len() - 1;
    lemma_find_numbered(v, last, 0);
    if m.last().len() == 0 {
        lemma_after_numbered(v, last, 0);
        assert(m.last().push(st.current) =~= seq![st.current]);
        assert(v.insert(last, (last, seq![st.current])) =~= numbered(close_phrase(st)));
    } else {
        assert(v.update(last, (last, v[last].1.push(st.current))) =~= numbered(close_phrase(st)));
    }
}

spec fn token_kind(s: Seq<char>, p: int) -> Token {
    let (t, n) = next_token(s, p)->0;
    t
}

spec fn token_len(s: Seq<char>, p: int) -> int {
    let (t, n) = next_token(s, p)->0;
    n
}

proof fn lemma_lex_step(s: Seq<char>, seen: Seq<Lexeme>, p: int)
    requires
        0 <= p < s.len(),
        next_token(s, p) is Some,
        token_len(s, p) > 0,
    ensures
        prepend(seen, lex_from(s, p)) == prepend(
            seen.push((token_kind(s, p), p, p + token_len(s, p))),
            lex_from(s, p + token_len(s, p)),
        ),
{
    let t = next_token(s, p)->0;
    let tok = (t.0, p, p + t.1);
    match lex_from(s, p + t.1) {
        Ok(rest) => {
            assert(seen + (seq![tok] + rest) =~= seen.push(tok) + rest);
        },
        Err(e) => {},
    }
}

/// After any tokens the parser has one line more than it met line breaks,
/// and every line before the current one holds a phrase.
proof fn lemma_run_shape(s: Seq<char>, toks: Seq<Lexeme>)
    ensures
        run(s, toks).lines.len() == 1 + newline_tokens(toks),
        forall|i: int|
            0 <= i < run(s, toks).lines.len() - 1 ==> #[trigger] run(s, toks).lines[i].len() > 0,
    decreases toks.len(),
{
    if toks.len() > 0 {
        lemma_run_shape(s, toks.drop_last());
    }
}

/// A song that parses has one line more than it has line feeds, and every
/// line holds at least one phrase.
pub proof fn lemma_line_count(s: Seq<char>)
    requires
        parse_lines(s) is Ok,
    ensures
        parse_lines(s)->Ok_0.len() == line_feeds(s) + 1,
        forall|i: int|
            0 <= i < parse_lines(s)->Ok_0.len() ==> #[trigger] parse_lines(s)->Ok_0[i].len() > 0,
{
    let toks = lex(s)->Ok_0;
    lemma_run_shape(s, toks);
    lemma_lex_line_feeds(s, 0);
    assert(s.subrange(0, s.len() as int) =~= s);
}

/// Every character of the text may stand in a lyric run.
pub open spec fn all_lyric(x: Seq<char>) -> bool {
    forall|k: int| 0 <= k < x.len() ==> is_lyric_char(#[trigger] x[k])
}

/// Each lyric token of the sequence covers lyric characters of `s` only.
pub open spec fn lyric_tokens_ok(s: Seq<char>, toks: Seq<Lexeme>) -> bool {
    forall|j: int|
        0 <= j < toks.len() && (#[trigger] toks[j]).0 == Token::Lyrics ==> 0 <= toks[j].1
            <= toks[j].2 <= s.len() && all_lyric(s.subrange(toks[j].1, toks[j].2))
}

proof fn lemma_lex_lyric_tokens(s: Seq<char>, i: int)
    requires
        0 <= i <= s.len(),
        lex_from(s, i) is Ok,
    ensures
        lyric_tokens_ok(s, lex_from(s, i)->Ok_0),
    decreases s.len() - i,
{
    if i < s.len() {
        let (t, n) = next_token(s, i)->0;
        lemma_lyric_len_bound(s, i);
        lemma_lyric_chars(s, i);
        if i + n <= s.len() {
            lemma_lex_lyric_tokens(s, i + n);
            let rest = lex_from(s, i + n)->Ok_0;
            let toks = lex_from(s, i)->Ok_0;
            assert(toks == seq![(t, i, i + n)] + rest);
            assert forall|j: int|
                0 <= j < toks.len() && (#[trigger] toks[j]).0 == Token::Lyrics implies 0
                <= toks[j].1 <= toks[j].2 <= s.len() && all_lyric(
                s.subrange(toks[j].1, toks[j].2),
            ) by {
                if j > 0 {
                    assert(toks[j] == rest[j - 1]);
                } else {
                    assert(n == lyric_len(s, i));
                    assert forall|k: int| 0 <= k < n implies is_lyric_char(
                        #[trigger] s.subrange(i, i + n)[k],
                    ) by {
                        assert(is_lyric_char(s[i + k]));
                    }
                }
            }
        } else {
            assert(t == Token::Chord);
        }
    }
}

/// The phrases' lyrics are made of lyric characters only.
pub open spec fn phrases_lyric(ps: Seq<PhraseView>) -> bool {
    forall|j: int| 0 <= j < ps.len() ==> all_lyric((#[trigger] ps[j]).lyrics)
}

proof fn lemma_run_lyrics(s: Seq<char>, toks: Seq<Lexeme>)
    requires
        lyric_tokens_ok(s, toks),
    ensures
        forall|i: int|
            0 <= i < run(s, toks).lines.len() ==> phrases_lyric(#[trigger] run(s, toks).lines[i]),
        all_lyric(run(s, toks).current.lyrics),
    decreases toks.len(),
{
    if toks.len() > 0 {
        let prev = toks.drop_last();
        assert(lyric_tokens_ok(s, prev)) by {
            assert forall|j: int|
                0 <= j < prev.len() && (#[trigger] prev[j]).0 == Token::Lyrics implies 0
                <= prev[j].1 <= prev[j].2 <= s.len() && all_lyric(
                s.subrange(prev[j].1, prev[j].2),
            ) by {
                assert(prev[j] == toks[j]);
            }
        }
        lemma_run_lyrics(s, prev);
        lemma_run_shape(s, prev);
        let st = run(s, prev);
        let t = toks.last();
        assert(toks[toks.len() - 1] == t);
        let r = run(s, toks);
        assert(r == step(s, st, t));
        if t.0 == Token::LSqBracket || t.0 == Token::NewLine {
            let last = st.lines.len() - 1;
            let c = close_phrase(st);
            assert forall|i: int| 0 <= i < c.len() implies phrases_lyric(#[trigger] c[i]) by {
                if i == last {
                    assert forall|j: int| 0 <= j < c[i].len() implies all_lyric(
                        (#[trigger] c[i][j]).lyrics,
                    ) by {
                        if j < st.lines[i].len() {
                            assert(c[i][j] == st.lines[i][j]);
                        }
                    }
                } else {
                    assert(c[i] == st.lines[i]);
                }
            }
            if t.0 == Token::NewLine {
                assert forall|i: int| 0 <= i < r.lines.len() implies phrases_lyric(
                    #[trigger] r.lines[i],
                ) by {
                    if i < c.len() {
                        assert(r.lines[i] == c[i]);
                    }
                }
            }
        }
    }
}

proof fn lemma_lyric_row_one(p: PhraseView)
    ensures
        lyric_row(seq![p]) == p.lyrics,
{
    assert(seq![p].drop_last() =~= Seq::<PhraseView>::empty());
    assert(lyric_row(Seq::<PhraseView>::empty()) == Seq::<char>::empty());
    assert(Seq::<char>::empty() + p.lyrics =~= p.lyrics);
}

proof fn lemma_lyric_row_lyric(ps: Seq<PhraseView>)
    requires
        phrases_lyric(ps),
    ensures
        all_lyric(lyric_row(ps)),
    decreases ps.len(),
{
    if ps.len() > 0 {
        assert(phrases_lyric(ps.drop_last())) by {
            assert forall|j: int| 0 <= j < ps.drop_last().len() implies all_lyric(
                (#[trigger] ps.drop_last()[j]).lyrics,
            ) by {
                assert(ps.drop_last()[j] == ps[j]);
            }
        }
        lemma_lyric_row_lyric(ps.drop_last());
        assert(all_lyric(ps[ps.len() - 1].lyrics));
        let a = lyric_row(ps.drop_last());
        let b = ps.last().lyrics;
        assert forall|k: int| 0 <= k < (a + b).len() implies is_lyric_char(
            #[trigger] (a + b)[k],
        ) by {
            if k < a.len() {
                assert((a + b)[k] == a[k]);
            } else {
                assert((a + b)[k] == b[k - a.len()]);
            }
        }
    }
}

proof fn lemma_lyric_len_all(t: Seq<char>, i: int)
    requires
        all_lyric(t),
        0 <= i <= t.len(),
    ensures
        lyric_len(t, i) == t.len() - i,
    decreases t.len() - i,
{
    if i < t.len() {
        lemma_lyric_len_all(t, i + 1);
    }
}

/// Text made of lyric characters only, which is not one whole chord symbol,
/// parses to a single line whose lyrics are the text itself.
proof fn lemma_reparse_lyrics(t: Seq<char>)
    requires
        all_lyric(t),
        !is_chord_symbol(t),
    ensures
        parse_lines(t) is Ok,
        parse_lines(t)->Ok_0.len() == 1,
        lyric_row(parse_lines(t)->Ok_0[0]) == t,
{
    let n = t.len() as int;
    if n == 0 {
        assert(lex(t) == Ok::<Seq<Lexeme>, int>(Seq::empty()));
        assert(run(t, Seq::<Lexeme>::empty()) == initial_state());
        let m = parse_lines(t)->Ok_0;
        assert(m == close_phrase(initial_state()));
        assert(m.len() == 1);
        assert(m[0] =~= seq![empty_phrase()]);
        lemma_lyric_row_one(empty_phrase());
        assert(t =~= empty_phrase().lyrics);
    } else {
        lemma_lyric_len_all(t, 0);
        crate::lexer::lemma_chord_len_bound(t, 0);
        assert(chord_len(t, 0) < n);
        assert(next_token(t, 0) == Some((Token::Lyrics, n)));
        assert(lex_from(t, n) == Ok::<Seq<Lexeme>, int>(Seq::empty()));
        let tok = (Token::Lyrics, 0int, n);
        assert(seq![tok] + Seq::<Lexeme>::empty() =~= seq![tok]);
        assert(lex(t) == Ok::<Seq<Lexeme>, int>(seq![tok]));
        assert(seq![tok].drop_last() =~= Seq::<Lexeme>::empty());
        let st = run(t, seq![tok]);
        assert(run(t, Seq::<Lexeme>::empty()) == initial_state());
        assert(st == step(t, initial_state(), tok));
        assert(st.current.lyrics =~= t);
        let m = parse_lines(t)->Ok_0;
        assert(m == close_phrase(st));
        assert(m.len() == 1);
        assert(m[0] =~= seq![st.current]);
        lemma_lyric_row_one(st.current);
    }
}

/// Joining the lyrics of one line of a parsed song, and parsing that text
/// again, gives a single line with the same lyrics; the chords and brackets
/// are gone. The one exception is a joined text that is itself a whole chord
/// symbol, which parses as a chord.
pub proof fn lemma_lyrics_reparse(s: Seq<char>, k: int)
    requires
        parse_lines(s) is Ok,
        0 <= k < parse_lines(s)->Ok_0.len(),
        !is_chord_symbol(lyric_row(parse_lines(s)->Ok_0[k])),
    ensures
        parse_lines(lyric_row(parse_lines(s)->Ok_0[k])) is Ok,
        parse_lines(lyric_row(parse_lines(s)->Ok_0[k]))->Ok_0.len() == 1,
        lyric_row(parse_lines(lyric_row(parse_lines(s)->Ok_0[k]))->Ok_0[0]) == lyric_row(
            parse_lines(s)->Ok_0[k],
        ),
{
    let toks = lex(s)->Ok_0;
    lemma_lex_lyric_tokens(s, 0);
    lemma_run_lyrics(s, toks);
    lemma_run_shape(s, toks);
    let st = run(s, toks);
    let m = close_phrase(st);
    assert(m == parse_lines(s)->Ok_0);
    if k == st.lines.len() - 1 {
        assert(m[k] == st.lines[k].push(st.current));
        assert(phrases_lyric(st.lines[k]));
        assert forall|j: int| 0 <= j < m[k].len() implies all_lyric((#[trigger] m[k][j]).lyrics) by {
            if j < st.lines[k].len() {
                assert(m[k][j] == st.lines[k][j]);
            }
        }
    } else {
        assert(m[k] == st.lines[k]);
    }
    lemma_lyric_row_lyric(m[k]);
    lemma_reparse_lyrics(lyric_row(m[k]));
}

/// A chord symbol of the grammar in brackets parses as one line: the empty
/// phrase before the bracket, then an empty phrase that carries the whole
/// symbol as its chord.
pub proof fn lemma_bracketed_chord(r: Seq<char>, q: Seq<char>, e: Seq<char>, b: Seq<char>)
    requires
        is_chord_grammar(r, q, e, b),
    ensures
        parse_lines(seq!['['] + (r + q + e + b) + seq![']']) == Ok::<
            Seq<Seq<PhraseView>>,
            int,
        >(
            seq![
                seq![
                    empty_phrase(),
                    PhraseView {
                        lyrics: Seq::empty(),
                        start: 0,
                        end: 0,
                        chord: Some(r + q + e + b),
                    },
                ],
            ],
        ),
{
    let c = r + q + e + b;
    let s = seq!['['] + c + seq![']'];
    let n = c.len() as int;
    assert(s.len() == n + 2);
    assert(s[0] == '[');
    assert(s[n + 1] == ']');
    assert forall|x: int| 0 <= x < n implies s[1 + x] == c[x] by {}
    assert(stands_at(s, 1, c));
    assert(s.subrange(1, n + 1) =~= c);
    // the opening bracket
    assert(chord_len(s, 0) == 0);
    assert(lyric_len(s, 0) == 0);
    assert(next_token(s, 0) == Some((Token::LSqBracket, 1int)));
    // the chord symbol
    lemma_chord_len_at(s, 1, r, q, e, b);
    lemma_lyric_len_stops(s, 1, n + 1);
    assert(n > 0);
    assert(next_token(s, 1) == Some((Token::Chord, n)));
    // the closing bracket
    assert(chord_len(s, n + 1) == 0);
    assert(lyric_len(s, n + 1) == 0);
    assert(next_token(s, n + 1) == Some((Token::RSqBracket, 1int)));
    let t0 = (Token::LSqBracket, 0int, 1int);
    let t1 = (Token::Chord, 1int, n + 1);
    let t2 = (Token::RSqBracket, n + 1, n + 2);
    assert(lex_from(s, n + 2) == Ok::<Seq<Lexeme>, int>(Seq::empty()));
    assert(seq![t2] + Seq::<Lexeme>::empty() =~= seq![t2]);
    assert(lex_from(s, n + 1) == Ok::<Seq<Lexeme>, int>(seq![t2]));
    assert(seq![t1] + seq![t2] =~= seq![t1, t2]);
    assert(lex_from(s, 1) == Ok::<Seq<Lexeme>, int>(seq![t1, t2]));
    assert(seq![t0] + seq![t1, t2] =~= seq![t0, t1, t2]);
    assert(lex(s) == Ok::<Seq<Lexeme>, int>(seq![t0, t1, t2]));
    let toks = seq![t0, t1, t2];
    assert(toks.drop_last() =~= seq![t0, t1]);
    assert(seq![t0, t1].drop_last() =~= seq![t0]);
    assert(seq![t0].drop_last() =~= Seq::<Lexeme>::empty());
    assert(run(s, Seq::<Lexeme>::empty()) == initial_state());
    assert(seq![t0].last() == t0);
    assert(seq![t0, t1].last() == t1);
    assert(toks.last() == t2);
    let st0 = run(s, seq![t0]);
    assert(st0 == step(s, initial_state(), t0));
    assert(st0.lines =~= seq![seq![empty_phrase()]]);
    let st1 = run(s, seq![t0, t1]);
    assert(st1 == step(s, st0, t1));
    let st2 = run(s, toks);
    assert(st2 == step(s, st1, t2));
    assert(st2 == st1);
    assert(st1.current == PhraseView {
        lyrics: Seq::<char>::empty(),
        start: 0,
        end: 0,
        chord: Some(c),
    });
    assert(st1.lines[0].push(st1.current) =~= seq![empty_phrase(), st1.current]);
    assert(close_phrase(st2) =~= seq![seq![empty_phrase(), st1.current]]);
}

fn token_error_message(lex: &Lexer) -> (r: String)
    requires
        lex.wf(),
        lex@.3 == lex@.2 + 1,
    ensures
        r@ == token_error(lex@.0, lex@.2),
{
    let mut r = "Token error: \"".to_string();
    let slice = lex.slice();
    r.append(slice.as_str());
    r.append("\"");
    proof {
        reveal_strlit("Token error: \"");
        reveal_strlit("\"");
    }
    r
}

/// Parses a song into its lines of phrases. A song that parses is ASCII, so
/// the phrases' spans count characters and bytes alike. A lyric run sets the current
/// phrase's text and span, a chord sets its chord, an opening bracket or a
/// line break ends it, and a line break also starts the next line. The
/// phrase left at the end is added too. Fails on the first character at
/// which no token starts.
pub fn parse(song: String) -> (r: Result<Lines, String>)
    ensures
        match parse_lines(song@) {
            Ok(m) => r is Ok && r->Ok_0@ == numbered(m),
            Err(e) => r is Err && r->Err_0@ == token_error(song@, e),
        },
        r is Ok ==> table_wf(r->Ok_0@),
        r is Ok ==> forall|k: int| 0 <= k <= song@.len() ==> #[trigger] byte_offset(song@, k) == k,
{
    let ghost s = song@;
    let mut lexer = Token::lexer(song.as_str());
    let mut current_phrase = Phrase::empty();
    let mut current_line: usize = 0;
    let mut lines = Lines::new();
    let ghost mut seen: Seq<Lexeme> = Seq::empty();
    proof {
        assert(seen + lex_from(s, 0)->Ok_0 =~= lex_from(s, 0)->Ok_0);
        assert(entries(initial_state().lines) =~= Seq::<(int, Seq<PhraseView>)>::empty());
    }
    loop
        invariant
            lexer.wf(),
            lexer@.0 == s,
            s == song@,
            lex(s) == prepend(seen, lex_from(s, lexer@.1)),
            run(s, seen).current == current_phrase@,
            run(s, seen).lines.len() == current_line + 1,
            lines@ == entries(run(s, seen).lines),
            forall|i: int|
                0 <= i < current_line ==> #[trigger] run(s, seen).lines[i].len() > 0,
            current_line <= lexer@.1,
        decreases s.len() - lexer@.1,
    {
        let ghost p = lexer@.1;
        let ghost st = run(s, seen);
        let next = lexer.next();
        proof {
            if p < s.len() && next_token(s, p) is Some {
                lemma_lex_step(s, seen, p);
                let t = next_token(s, p)->0;
                let tok = (t.0, p, p + t.1);
                assert(seen.push(tok).drop_last() =~= seen);
                seen = seen.push(tok);
            }
        }
        match next {
            None => {
                proof {
                    assert(seen + Seq::<Lexeme>::empty() =~= seen);
                    lemma_close(st);
                    lemma_line_count(s);
                    lemma_numbered_wf(parse_lines(s)->Ok_0);
                    lemma_lex_ascii(s, 0);
                    assert forall|k: int| 0 <= k <= s.len() implies #[trigger] byte_offset(s, k)
                        == k by {
                        lemma_ascii_byte_offset(s, k);
                    }
                }
                lines.add_phrase(current_line, current_phrase);
                return Ok(lines);
            },
            Some(Err(())) => {
                proof {
                    assert(lex_from(s, p) == Err::<Seq<Lexeme>, int>(p));
                }
                return Err(token_error_message(&lexer));
            },
            Some(Ok(Token::Lyrics)) => {
                current_phrase.lyrics = lexer.slice();
                let span = lexer.char_span();
                current_phrase.start = span.start;
                current_phrase.end = span.end;
            },
            Some(Ok(Token::Chord)) => {
                current_phrase.chord = Some(Chord::new(lexer.slice()));
            },
            Some(Ok(Token::RSqBracket)) => {},
            Some(Ok(Token::LSqBracket)) => {
                proof {
                    lemma_close(st);
                    assert(entries(close_phrase(st)) =~= numbered(close_phrase(st)));
                }
                lines.add_phrase(current_line, current_phrase);
                current_phrase = Phrase::empty();
            },
            Some(Ok(Token::NewLine)) => {
                proof {
                    lemma_close(st);
                    assert(close_phrase(st).push(Seq::empty()).drop_last() =~= close_phrase(st));
                }
                lines.add_phrase(current_line, current_phrase);
                current_phrase = Phrase::empty();
                current_line = current_line + 1;
            },
        }
    }
}

} // verus!
