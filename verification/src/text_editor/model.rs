//! The text model: how a string becomes lines and back, and the character
//! scans that caret motion and word deletion are made of.
use vstd::prelude::*;
use crate::strutil::{is_white_space, is_word_char};

verus! {

// ── Lines and text ──────────────────────────────────────────────────────────

/// `s` cut at every `'\n'` (the newlines themselves dropped); always at
/// least one line.
pub open spec fn split_lines(s: Seq<char>) -> Seq<Seq<char>>
    decreases s.len(),
{
    if s.len() == 0 {
        seq![Seq::<char>::empty()]
    } else {
        let init = split_lines(s.drop_last());
        if s.last() == '\n' {
            init.push(Seq::<char>::empty())
        } else {
            init.update(init.len() - 1, init.last().push(s.last()))
        }
    }
}

/// The lines joined with `'\n'` between neighbours.
pub open spec fn join_lines(ls: Seq<Seq<char>>) -> Seq<char>
    decreases ls.len(),
{
    if ls.len() == 0 {
        Seq::<char>::empty()
    } else if ls.len() == 1 {
        ls[0]
    } else {
        join_lines(ls.drop_last()) + seq!['\n'] + ls.last()
    }
}

/// Each tab widened to two spaces.
pub open spec fn expand_tabs(s: Seq<char>) -> Seq<char>
    decreases s.len(),
{
    if s.len() == 0 {
        Seq::<char>::empty()
    } else if s.last() == '\t' {
        expand_tabs(s.drop_last()) + seq![' ', ' ']
    } else {
        expand_tabs(s.drop_last()).push(s.last())
    }
}

/// What typing or pasting `s` puts in the text: tabs widened to two spaces,
/// carriage returns dropped.
pub open spec fn typed_text(s: Seq<char>) -> Seq<char>
    decreases s.len(),
{
    if s.len() == 0 {
        Seq::<char>::empty()
    } else if s.last() == '\t' {
        typed_text(s.drop_last()) + seq![' ', ' ']
    } else if s.last() == '\r' {
        typed_text(s.drop_last())
    } else {
        typed_text(s.drop_last()).push(s.last())
    }
}

/// `l` without its trailing carriage returns.
pub open spec fn trim_cr(l: Seq<char>) -> Seq<char>
    decreases l.len(),
{
    if l.len() > 0 && l.last() == '\r' {
        trim_cr(l.drop_last())
    } else {
        l
    }
}

/// The lines that loading the text `s` gives: tabs widened, cut at
/// newlines, trailing carriage returns of each line dropped.
pub open spec fn lines_of_text(s: Seq<char>) -> Seq<Seq<char>> {
    split_lines(expand_tabs(s)).map_values(|l: Seq<char>| trim_cr(l))
}

pub proof fn lemma_split_lines_len(s: Seq<char>)
    ensures
        split_lines(s).len() >= 1,
    decreases s.len(),
{
    if s.len() > 0 {
        lemma_split_lines_len(s.drop_last());
    }
}

proof fn lemma_join_push_char(ls: Seq<Seq<char>>, c: char)
    requires
        ls.len() >= 1,
    ensures
        join_lines(ls.update(ls.len() - 1, ls.last().push(c))) == join_lines(ls).push(c),
{
    let ls2 = ls.update(ls.len() - 1, ls.last().push(c));
    if ls.len() == 1 {
    } else {
        assert(ls2.drop_last() =~= ls.drop_last());
        assert(join_lines(ls2) =~= join_lines(ls).push(c));
    }
}

/// Cutting at newlines and joining with newlines gives the text back.
pub proof fn lemma_join_split(s: Seq<char>)
    ensures
        join_lines(split_lines(s)) == s,
    decreases s.len(),
{
    if s.len() == 0 {
    } else {
        let init = split_lines(s.drop_last());
        lemma_join_split(s.drop_last());
        lemma_split_lines_len(s.drop_last());
        if s.last() == '\n' {
            let ls = init.push(Seq::<char>::empty());
            assert(ls.drop_last() =~= init);
            assert(join_lines(ls) =~= s.drop_last() + seq!['\n']);
            assert(s =~= s.drop_last() + seq!['\n']);
        } else {
            lemma_join_push_char(init, s.last());
            assert(s =~= s.drop_last().push(s.last()));
        }
    }
}

pub proof fn lemma_expand_tabs_id(s: Seq<char>)
    requires
        forall|i: int| 0 <= i < s.len() ==> s[i] != '\t',
    ensures
        expand_tabs(s) == s,
    decreases s.len(),
{
    if s.len() > 0 {
        lemma_expand_tabs_id(s.drop_last());
        assert(s =~= s.drop_last().push(s.last()));
    }
}

pub proof fn lemma_typed_text_id(s: Seq<char>)
    requires
        forall|i: int| 0 <= i < s.len() ==> s[i] != '\t' && s[i] != '\r',
    ensures
        typed_text(s) == s,
    decreases s.len(),
{
    if s.len() > 0 {
        lemma_typed_text_id(s.drop_last());
        assert(s =~= s.drop_last().push(s.last()));
    }
}

/// A line cut out of a text holds none of the text's newlines, and only
/// characters of the text.
pub proof fn lemma_split_lines_chars(s: Seq<char>)
    ensures
        forall|k: int, j: int|
            0 <= k < split_lines(s).len() && 0 <= j < split_lines(s)[k].len() ==> split_lines(
                s,
            )[k][j] != '\n' && s.contains(#[trigger] split_lines(s)[k][j]),
    decreases s.len(),
{
    if s.len() > 0 {
        lemma_split_lines_chars(s.drop_last());
        lemma_split_lines_len(s.drop_last());
        let init = split_lines(s.drop_last());
        assert forall|k: int, j: int|
            0 <= k < split_lines(s).len() && 0 <= j < split_lines(s)[k].len() implies split_lines(
            s,
        )[k][j] != '\n' && s.contains(#[trigger] split_lines(s)[k][j]) by {
            let c = split_lines(s)[k][j];
            if s.last() != '\n' && k == init.len() - 1 && j == init.last().len() {
                assert(c == s[s.len() - 1]);
            } else {
                assert(c == init[k][j]);
                let w = choose|w: int| 0 <= w < s.drop_last().len() && s.drop_last()[w] == c;
                assert(s[w] == c);
            }
        }
    }
}

pub proof fn lemma_trim_cr_id(l: Seq<char>)
    requires
        !l.contains('\r'),
    ensures
        trim_cr(l) == l,
{
    if l.len() > 0 {
        assert(l[l.len() - 1] == l.last());
    }
}

/// Loading a text that holds no tab and no carriage return, then joining
/// its lines, gives the text back.
pub proof fn lemma_lines_of_text_round_trip(s: Seq<char>)
    requires
        !s.contains('\t'),
        !s.contains('\r'),
    ensures
        join_lines(lines_of_text(s)) == s,
{
    assert forall|i: int| 0 <= i < s.len() implies s[i] != '\t' by {
        if s[i] == '\t' {
            assert(s.contains('\t'));
        }
    }
    lemma_expand_tabs_id(s);
    lemma_split_lines_chars(s);
    let ls = split_lines(s);
    assert forall|k: int| 0 <= k < ls.len() implies trim_cr(#[trigger] ls[k]) == ls[k] by {
        if ls[k].contains('\r') {
            let j = choose|j: int| 0 <= j < ls[k].len() && ls[k][j] == '\r';
            assert(s.contains(ls[k][j]));
        }
        lemma_trim_cr_id(ls[k]);
    }
    assert(lines_of_text(s) =~= ls);
    lemma_join_split(s);
}

// ── Scans along a line ──────────────────────────────────────────────────────

/// Number of leading `' '` characters of `l`.
pub open spec fn leading_spaces(l: Seq<char>) -> nat
    decreases l.len(),
{
    if l.len() > 0 && l[0] == ' ' {
        1 + leading_spaces(l.drop_first())
    } else {
        0
    }
}

/// Number of leading white-space characters of `l` (what `trim_start`
/// removes).
pub open spec fn leading_white(l: Seq<char>) -> nat
    decreases l.len(),
{
    if l.len() > 0 && is_white_space(l[0]) {
        1 + leading_white(l.drop_first())
    } else {
        0
    }
}

/// `l` without its trailing white space (what `trim_end` leaves).
pub open spec fn trim_end_white(l: Seq<char>) -> Seq<char>
    decreases l.len(),
{
    if l.len() > 0 && is_white_space(l.last()) {
        trim_end_white(l.drop_last())
    } else {
        l
    }
}

/// From `i`, the first position that is the end or not a space.
pub open spec fn skip_spaces_fwd(l: Seq<char>, i: int) -> int
    decreases l.len() - i,
{
    if 0 <= i < l.len() && l[i] == ' ' {
        skip_spaces_fwd(l, i + 1)
    } else {
        i
    }
}

/// From `i`, the first position that is the end or a space.
pub open spec fn skip_nonspaces_fwd(l: Seq<char>, i: int) -> int
    decreases l.len() - i,
{
    if 0 <= i < l.len() && l[i] != ' ' {
        skip_nonspaces_fwd(l, i + 1)
    } else {
        i
    }
}

/// From `i` going left, the first position that is the start or follows a
/// character other than a space.
pub open spec fn skip_spaces_back(l: Seq<char>, i: int) -> int
    decreases i,
{
    if 0 < i <= l.len() && l[i - 1] == ' ' {
        skip_spaces_back(l, i - 1)
    } else {
        i
    }
}

/// From `i` going left, the first position that is the start or follows a
/// space.
pub open spec fn skip_nonspaces_back(l: Seq<char>, i: int) -> int
    decreases i,
{
    if 0 < i <= l.len() && l[i - 1] != ' ' {
        skip_nonspaces_back(l, i - 1)
    } else {
        i
    }
}

/// From `i`, the first position that is the end or not a word character.
pub open spec fn skip_word_fwd(l: Seq<char>, i: int) -> int
    decreases l.len() - i,
{
    if 0 <= i < l.len() && is_word_char(l[i]) {
        skip_word_fwd(l, i + 1)
    } else {
        i
    }
}

/// From `i` going left, the first position that is the start or follows a
/// character that is not a word character.
pub open spec fn skip_word_back(l: Seq<char>, i: int) -> int
    decreases i,
{
    if 0 < i <= l.len() && is_word_char(l[i - 1]) {
        skip_word_back(l, i - 1)
    } else {
        i
    }
}

pub proof fn lemma_leading_spaces(l: Seq<char>, i: int)
    requires
        0 <= i <= l.len(),
        forall|j: int| 0 <= j < i ==> l[j] == ' ',
        i == l.len() || l[i] != ' ',
    ensures
        leading_spaces(l) == i,
    decreases i,
{
    if i > 0 {
        lemma_leading_spaces(l.drop_first(), i - 1);
    }
}

pub proof fn lemma_leading_white(l: Seq<char>, i: int)
    requires
        0 <= i <= l.len(),
        forall|j: int| 0 <= j < i ==> is_white_space(l[j]),
        i == l.len() || !is_white_space(l[i]),
    ensures
        leading_white(l) == i,
    decreases i,
{
    if i > 0 {
        lemma_leading_white(l.drop_first(), i - 1);
    }
}

pub proof fn lemma_skip_bounds(l: Seq<char>, i: int)
    requires
        0 <= i <= l.len(),
    ensures
        i <= skip_spaces_fwd(l, i) <= l.len(),
        i <= skip_nonspaces_fwd(l, i) <= l.len(),
        i <= skip_word_fwd(l, i) <= l.len(),
        0 <= skip_spaces_back(l, i) <= i,
        0 <= skip_nonspaces_back(l, i) <= i,
        0 <= skip_word_back(l, i) <= i,
    decreases l.len() - i,
{
    if i < l.len() {
        lemma_skip_bounds(l, i + 1);
    }
    if i > 0 {
        lemma_skip_bounds_back(l, i - 1);
    }
}

proof fn lemma_skip_bounds_back(l: Seq<char>, i: int)
    requires
        0 <= i <= l.len(),
    ensures
        0 <= skip_spaces_back(l, i) <= i,
        0 <= skip_nonspaces_back(l, i) <= i,
        0 <= skip_word_back(l, i) <= i,
    decreases i,
{
    if i > 0 {
        lemma_skip_bounds_back(l, i - 1);
    }
}

} // verus!
