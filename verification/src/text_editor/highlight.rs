//! JSON-flavoured syntax highlighting of one line: a tokenizer and the
//! styled runs of the part of the line right of the horizontal scroll.
use vstd::prelude::*;
use crate::strutil::{
    char_is_ascii_alphabetic, char_is_ascii_digit, is_ascii_alphabetic, is_ascii_digit, string_of,
    sub_chars,
};

verus! {

/// The lexical class of a token.
#[derive(Clone, Copy, PartialEq, Eq, Structural, Debug)]
pub enum Kind {
    Str,
    Number,
    Literal,
    Punct,
    Ws,
    Comment,
    Other,
}

/// A token: characters `start..end` of the line.
#[derive(Clone, Copy, PartialEq, Eq, Structural, Debug)]
pub struct Tok {
    pub start: usize,
    pub end: usize,
    pub kind: Kind,
}

/// How a run of text is to be coloured.
#[derive(Clone, Copy, PartialEq, Eq, Structural, Debug)]
pub enum SpanStyle {
    Plain,
    Str,
    Key,
    Number,
    Keyword,
    Punct,
    Comment,
}

/// A piece of visible text and its style.
pub struct StyledRun {
    pub text: String,
    pub style: SpanStyle,
}

// ── The token grammar ───────────────────────────────────────────────────────

/// After an opening quote at `i - 1`: the position after the closing quote,
/// a backslash escaping the character after it (may pass the end).
pub open spec fn string_end(cs: Seq<char>, i: int) -> int
    decreases cs.len() + 2 - i,
{
    if i < 0 || i >= cs.len() {
        i
    } else if cs[i] == '\\' {
        string_end(cs, i + 2)
    } else if cs[i] == '"' {
        i + 1
    } else {
        string_end(cs, i + 1)
    }
}

pub open spec fn is_number_char(c: char) -> bool {
    is_ascii_digit(c) || c == '.' || c == 'e' || c == 'E' || c == '+' || c == '-'
}

/// From `i`, past the characters that continue a number.
pub open spec fn number_end(cs: Seq<char>, i: int) -> int
    decreases cs.len() - i,
{
    if 0 <= i < cs.len() && is_number_char(cs[i]) {
        number_end(cs, i + 1)
    } else {
        i
    }
}

/// From `i`, past spaces and tabs.
pub open spec fn blank_end(cs: Seq<char>, i: int) -> int
    decreases cs.len() - i,
{
    if 0 <= i < cs.len() && (cs[i] == ' ' || cs[i] == '\t') {
        blank_end(cs, i + 1)
    } else {
        i
    }
}

/// From `i`, past ASCII letters.
pub open spec fn alpha_end(cs: Seq<char>, i: int) -> int
    decreases cs.len() - i,
{
    if 0 <= i < cs.len() && is_ascii_alphabetic(cs[i]) {
        alpha_end(cs, i + 1)
    } else {
        i
    }
}

pub open spec fn is_literal_word(w: Seq<char>) -> bool {
    w == seq!['t', 'r', 'u', 'e'] || w == seq!['f', 'a', 'l', 's', 'e'] || w == seq![
        'n',
        'u',
        'l',
        'l',
    ]
}

pub open spec fn is_punct(c: char) -> bool {
    c == '{' || c == '}' || c == '[' || c == ']' || c == ':' || c == ','
}

/// The token that starts at `i` (for `i` inside the line): where it ends
/// and its class.
pub open spec fn token_at(cs: Seq<char>, i: int) -> (int, Kind) {
    let n = cs.len() as int;
    let c = cs[i];
    if c == ' ' || c == '\t' {
        (blank_end(cs, i), Kind::Ws)
    } else if c == '"' {
        let e = string_end(cs, i + 1);
        (if e < n {
            e
        } else {
            n
        }, Kind::Str)
    } else if c == '/' && i + 1 < n && cs[i + 1] == '/' {
        (n, Kind::Comment)
    } else if is_ascii_digit(c) || (c == '-' && i + 1 < n && is_ascii_digit(cs[i + 1])) {
        (number_end(cs, i + 1), Kind::Number)
    } else if is_ascii_alphabetic(c) {
        let e = alpha_end(cs, i);
        (e, if is_literal_word(cs.subrange(i, e)) {
            Kind::Literal
        } else {
            Kind::Other
        })
    } else if is_punct(c) {
        (i + 1, Kind::Punct)
    } else {
        (i + 1, Kind::Other)
    }
}

proof fn lemma_ends(cs: Seq<char>, i: int)
    requires
        0 <= i <= cs.len(),
    ensures
        i <= number_end(cs, i) <= cs.len(),
        i <= blank_end(cs, i) <= cs.len(),
        i <= alpha_end(cs, i) <= cs.len(),
        i <= string_end(cs, i),
    decreases cs.len() - i,
{
    if i < cs.len() {
        lemma_ends(cs, i + 1);
        if i + 2 <= cs.len() {
            lemma_ends(cs, i + 2);
        }
    }
}

/// A token is never empty and never passes the end of the line.
pub proof fn lemma_token_at(cs: Seq<char>, i: int)
    requires
        0 <= i < cs.len(),
    ensures
        i < token_at(cs, i).0 <= cs.len(),
{
    lemma_ends(cs, i);
    lemma_ends(cs, i + 1);
}

/// The tokens of the line from position `i` on.
pub open spec fn tokens(cs: Seq<char>, i: int) -> Seq<Tok>
    decreases cs.len() - i,
{
    if i < 0 || i >= cs.len() {
        Seq::<Tok>::empty()
    } else {
        let (e, k) = token_at(cs, i);
        proof {
            lemma_token_at(cs, i);
        }
        seq![Tok { start: i as usize, end: e as usize, kind: k }] + tokens(cs, e)
    }
}

/// `ts` cut `a..b` into consecutive non-empty pieces.
pub open spec fn tiles(ts: Seq<Tok>, a: int, b: int) -> bool
    decreases ts.len(),
{
    if ts.len() == 0 {
        a == b
    } else {
        ts[0].start == a && a < ts[0].end && tiles(ts.drop_first(), ts[0].end as int, b)
    }
}

/// The tokens of a line tile it: they follow each other without gap or
/// overlap from the start of the line to its end.
pub proof fn lemma_tokens_tile(cs: Seq<char>, i: int)
    requires
        0 <= i <= cs.len(),
        cs.len() <= usize::MAX,
    ensures
        tiles(tokens(cs, i), i, cs.len() as int),
    decreases cs.len() - i,
{
    if i < cs.len() {
        lemma_token_at(cs, i);
        let e = token_at(cs, i).0;
        lemma_tokens_tile(cs, e);
        assert(tokens(cs, i).drop_first() =~= tokens(cs, e));
    }
}

/// Whether the first token after `j - 1` that is not blank is a colon.
pub open spec fn colon_follows(ts: Seq<Tok>, cs: Seq<char>, j: int) -> bool
    decreases ts.len() - j,
{
    if j < 0 || j >= ts.len() {
        false
    } else if ts[j].kind == Kind::Ws {
        colon_follows(ts, cs, j + 1)
    } else if ts[j].kind == Kind::Punct {
        ts[j].start < cs.len() && cs[ts[j].start as int] == ':'
    } else {
        false
    }
}

/// The style of token `k`: a string right before a colon is an object key.
pub open spec fn style_of(ts: Seq<Tok>, cs: Seq<char>, k: int) -> SpanStyle {
    match ts[k].kind {
        Kind::Str => if colon_follows(ts, cs, k + 1) {
            SpanStyle::Key
        } else {
            SpanStyle::Str
        },
        Kind::Number => SpanStyle::Number,
        Kind::Literal => SpanStyle::Keyword,
        Kind::Punct => SpanStyle::Punct,
        Kind::Comment => SpanStyle::Comment,
        _ => SpanStyle::Plain,
    }
}

/// The styled runs of tokens `k..` that reach right of column `scroll`,
/// each cut to its part right of `scroll`.
pub open spec fn runs_from(ts: Seq<Tok>, cs: Seq<char>, scroll: int, k: int) -> Seq<
    (Seq<char>, SpanStyle),
>
    decreases ts.len() - k,
{
    if k < 0 || k >= ts.len() {
        Seq::empty()
    } else {
        let t = ts[k];
        let here = if t.end > scroll {
            let from = if t.start < scroll {
                scroll
            } else {
                t.start as int
            };
            seq![(cs.subrange(from, t.end as int), style_of(ts, cs, k))]
        } else {
            Seq::empty()
        };
        here + runs_from(ts, cs, scroll, k + 1)
    }
}

/// The highlighted runs of line `cs` scrolled by `scroll` columns.
pub open spec fn highlight_runs(cs: Seq<char>, scroll: int) -> Seq<(Seq<char>, SpanStyle)> {
    runs_from(tokens(cs, 0), cs, scroll, 0)
}

/// The text of the runs, one after the other.
pub open spec fn runs_text(rs: Seq<(Seq<char>, SpanStyle)>) -> Seq<char>
    decreases rs.len(),
{
    if rs.len() == 0 {
        Seq::empty()
    } else {
        rs[0].0 + runs_text(rs.drop_first())
    }
}

pub open spec fn runs_of(v: Seq<StyledRun>) -> Seq<(Seq<char>, SpanStyle)> {
    v.map_values(|r: StyledRun| (r.text@, r.style))
}

// ── Executable part ─────────────────────────────────────────────────────────

fn token_at_exec(cs: &Vec<char>, i: usize) -> (r: (usize, Kind))
    requires
        i < cs@.len(),
    ensures
        r.0 == token_at(cs@, i as int).0,
        r.1 == token_at(cs@, i as int).1,
{
    let n = cs.len();
    let c = cs[i];
    if c == ' ' || c == '\t' {
        let mut j = i;
        while j < n && (cs[j] == ' ' || cs[j] == '\t')
            invariant
                i <= j <= n == cs@.len(),
                blank_end(cs@, j as int) == blank_end(cs@, i as int),
            decreases n - j,
        {
            j += 1;
        }
        (j, Kind::Ws)
    } else if c == '"' {
        let mut j = i + 1;
        let ghost s0 = string_end(cs@, i + 1);
        let mut found = false;
        let mut end: usize = 0;
        while j < n && !found
            invariant
                i + 1 <= j <= n == cs@.len(),
                found ==> end == s0 && end <= n,
                !found ==> (string_end(cs@, j as int) == s0 || (j == n && s0 >= n)),
            decreases n - j + (if found {
                0int
            } else {
                1int
            }),
        {
            if cs[j] == '\\' {
                if j + 1 < n {
                    j += 2;
                } else {
                    proof {
                        assert(string_end(cs@, j + 2) == j + 2);
                    }
                    j = n;
                }
            } else if cs[j] == '"' {
                end = j + 1;
                found = true;
            } else {
                j += 1;
            }
        }
        proof {
            lemma_ends(cs@, i + 1);
        }
        (if found {
            end
        } else {
            n
        }, Kind::Str)
    } else if c == '/' && i + 1 < n && cs[i + 1] == '/' {
        (n, Kind::Comment)
    } else if char_is_ascii_digit(c) || (c == '-' && i + 1 < n && char_is_ascii_digit(cs[i + 1])) {
        let mut j = i + 1;
        while j < n && (char_is_ascii_digit(cs[j]) || cs[j] == '.' || cs[j] == 'e' || cs[j] == 'E'
            || cs[j] == '+' || cs[j] == '-')
            invariant
                i + 1 <= j <= n == cs@.len(),
                number_end(cs@, j as int) == number_end(cs@, i + 1),
            decreases n - j,
        {
            j += 1;
        }
        (j, Kind::Number)
    } else if char_is_ascii_alphabetic(c) {
        let mut j = i;
        while j < n && char_is_ascii_alphabetic(cs[j])
            invariant
                i <= j <= n == cs@.len(),
                alpha_end(cs@, j as int) == alpha_end(cs@, i as int),
            decreases n - j,
        {
            j += 1;
        }
        let lit = is_literal_at(cs, i, j);
        (j, if lit {
            Kind::Literal
        } else {
            Kind::Other
        })
    } else if c == '{' || c == '}' || c == '[' || c == ']' || c == ':' || c == ',' {
        (i + 1, Kind::Punct)
    } else {
        (i + 1, Kind::Other)
    }
}

/// Whether characters `i..j` spell `true`, `false` or `null`.
fn is_literal_at(cs: &Vec<char>, i: usize, j: usize) -> (b: bool)
    requires
        i <= j <= cs@.len(),
    ensures
        b == is_literal_word(cs@.subrange(i as int, j as int)),
{
    let ghost w = cs@.subrange(i as int, j as int);
    let len = j - i;
    let ghost t = seq!['t', 'r', 'u', 'e'];
    let ghost f = seq!['f', 'a', 'l', 's', 'e'];
    let ghost nl = seq!['n', 'u', 'l', 'l'];
    let b = if len == 4 {
        (cs[i] == 't' && cs[i + 1] == 'r' && cs[i + 2] == 'u' && cs[i + 3] == 'e') || (cs[i] == 'n'
            && cs[i + 1] == 'u' && cs[i + 2] == 'l' && cs[i + 3] == 'l')
    } else if len == 5 {
        cs[i] == 'f' && cs[i + 1] == 'a' && cs[i + 2] == 'l' && cs[i + 3] == 's' && cs[i + 4] == 'e'
    } else {
        false
    };
    proof {
        assert(t.len() == 4 && t[0] == 't' && t[1] == 'r' && t[2] == 'u' && t[3] == 'e');
        assert(nl.len() == 4 && nl[0] == 'n' && nl[1] == 'u' && nl[2] == 'l' && nl[3] == 'l');
        assert(f.len() == 5 && f[0] == 'f' && f[1] == 'a' && f[2] == 'l' && f[3] == 's' && f[4]
            == 'e');
        assert(w.len() == len);
        if len == 4 {
            assert(w[0] == cs@[i as int] && w[1] == cs@[i + 1] && w[2] == cs@[i + 2] && w[3]
                == cs@[i + 3]);
            if cs[i as int] == 't' && cs[i + 1] == 'r' && cs[i + 2] == 'u' && cs[i + 3] == 'e' {
                assert(w =~= t);
            }
            if cs[i as int] == 'n' && cs[i + 1] == 'u' && cs[i + 2] == 'l' && cs[i + 3] == 'l' {
                assert(w =~= nl);
            }
        }
        if len == 5 {
            assert(w[0] == cs@[i as int] && w[1] == cs@[i + 1] && w[2] == cs@[i + 2] && w[3]
                == cs@[i + 3] && w[4] == cs@[i + 4]);
            if b {
                assert(w =~= f);
            }
        }
    }
    b
}

/// The tokens of a line, from its start to its end.
pub fn tokenize(chars: &Vec<char>) -> (ts: Vec<Tok>)
    ensures
        ts@ == tokens(chars@, 0),
        tiles(ts@, 0, chars@.len() as int),
{
    let n = chars.len();
    let mut out: Vec<Tok> = Vec::new();
    let mut i: usize = 0;
    while i < n
        invariant
            i <= n == chars@.len(),
            out@ + tokens(chars@, i as int) == tokens(chars@, 0),
        decreases n - i,
    {
        let (e, k) = token_at_exec(chars, i);
        proof {
            lemma_token_at(chars@, i as int);
        }
        let ghost prev = out@;
        out.push(Tok { start: i, end: e, kind: k });
        proof {
            assert(tokens(chars@, i as int) =~= seq![Tok { start: i, end: e, kind: k }] + tokens(
                chars@,
                e as int,
            ));
            assert(out@ + tokens(chars@, e as int) =~= prev + tokens(chars@, i as int));
        }
        i = e;
    }
    proof {
        assert(out@ =~= out@ + tokens(chars@, i as int));
        lemma_tokens_tile(chars@, 0);
    }
    out
}

/// Whether the first token after `from` that is not blank is a colon.
pub fn next_is_colon(toks: &Vec<Tok>, from: usize, chars: &Vec<char>) -> (b: bool)
    ensures
        b == colon_follows(toks@, chars@, from + 1),
{
    let n = toks.len();
    if from >= n {
        return false;
    }
    let mut j = from + 1;
    while j < n
        invariant
            from + 1 <= j <= n == toks@.len(),
            colon_follows(toks@, chars@, j as int) == colon_follows(toks@, chars@, from + 1),
        decreases n - j,
    {
        let t = toks[j];
        match t.kind {
            Kind::Ws => {
                j += 1;
                continue;
            },
            Kind::Punct => {
                return t.start < chars.len() && chars[t.start] == ':';
            },
            _ => {
                return false;
            },
        }
    }
    false
}

/// The styled runs to draw for line `chars` scrolled `scroll_col` columns
/// right: each token's part right of the scroll, coloured by its class
/// (strings right before a colon as keys).
pub fn highlight_json_line(chars: &Vec<char>, scroll_col: usize) -> (spans: Vec<StyledRun>)
    ensures
        runs_of(spans@) == highlight_runs(chars@, scroll_col as int),
{
    let _n = chars.len();
    let toks = tokenize(chars);
    let ghost ts = toks@;
    let mut spans: Vec<StyledRun> = Vec::new();
    let mut k: usize = 0;
    proof {
        lemma_tokens_tile(chars@, 0);
        lemma_tiles_bounds(ts, 0, chars@.len() as int);
    }
    while k < toks.len()
        invariant
            k <= toks@.len(),
            ts == toks@,
            forall|j: int| 0 <= j < ts.len() ==> #[trigger] ts[j].start < ts[j].end <= chars@.len(),
            runs_of(spans@) + runs_from(ts, chars@, scroll_col as int, k as int) == runs_from(
                ts,
                chars@,
                scroll_col as int,
                0,
            ),
        decreases toks@.len() - k,
    {
        let t = toks[k];
        let ghost prev = runs_of(spans@);
        if t.end > scroll_col {
            let from = if t.start < scroll_col {
                scroll_col
            } else {
                t.start
            };
            let style = match t.kind {
                Kind::Str => if next_is_colon(&toks, k, chars) {
                    SpanStyle::Key
                } else {
                    SpanStyle::Str
                },
                Kind::Number => SpanStyle::Number,
                Kind::Literal => SpanStyle::Keyword,
                Kind::Punct => SpanStyle::Punct,
                Kind::Comment => SpanStyle::Comment,
                _ => SpanStyle::Plain,
            };
            let piece = crate::text_editor::buffer::slice_of(chars, from, t.end);
            let text = string_of(&piece);
            spans.push(StyledRun { text, style });
            proof {
                assert(runs_of(spans@) =~= prev.push((chars@.subrange(from as int, t.end as int), style)));
            }
        }
        proof {
            let here = runs_from(ts, chars@, scroll_col as int, k as int);
            assert(runs_of(spans@) + runs_from(ts, chars@, scroll_col as int, k + 1) =~= prev + here);
        }
        k += 1;
    }
    proof {
        assert(runs_of(spans@) =~= runs_of(spans@) + runs_from(ts, chars@, scroll_col as int, k as int));
    }
    spans
}

/// The line without highlighting: its part right of the scroll as one
/// plain run (none when that part is empty).
pub fn plain_line(chars: &Vec<char>, scroll_col: usize) -> (spans: Vec<StyledRun>)
    ensures
        runs_of(spans@) == (if sub_chars(chars@, scroll_col as int, chars@.len() as int).len()
            == 0 {
            Seq::<(Seq<char>, SpanStyle)>::empty()
        } else {
            seq![(sub_chars(chars@, scroll_col as int, chars@.len() as int), SpanStyle::Plain)]
        }),
{
    let n = chars.len();
    let visible = crate::strutil::sub_vec(chars, scroll_col, n);
    let mut spans: Vec<StyledRun> = Vec::new();
    if visible.len() > 0 {
        let text = string_of(&visible);
        spans.push(StyledRun { text, style: SpanStyle::Plain });
    }
    proof {
        assert(runs_of(spans@) =~= (if sub_chars(chars@, scroll_col as int, chars@.len() as int).len()
            == 0 {
            Seq::<(Seq<char>, SpanStyle)>::empty()
        } else {
            seq![(sub_chars(chars@, scroll_col as int, chars@.len() as int), SpanStyle::Plain)]
        }));
    }
    spans
}

proof fn lemma_tiles_bounds(ts: Seq<Tok>, a: int, b: int)
    requires
        tiles(ts, a, b),
    ensures
        a <= b,
        forall|j: int| 0 <= j < ts.len() ==> a <= #[trigger] ts[j].start < ts[j].end <= b,
    decreases ts.len(),
{
    if ts.len() > 0 {
        lemma_tiles_bounds(ts.drop_first(), ts[0].end as int, b);
        assert forall|j: int| 0 <= j < ts.len() implies a <= #[trigger] ts[j].start < ts[j].end <= b by {
            if j > 0 {
                assert(ts[j] == ts.drop_first()[j - 1]);
            }
        }
    }
}

} // verus!
