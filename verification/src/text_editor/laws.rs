//! Properties that relate several editor operations.
use vstd::prelude::*;
use super::highlight::{
    colon_follows, is_punct, alpha_end, highlight_runs, is_literal_word, lemma_token_at, lemma_tokens_tile, runs_from,
    runs_text, style_of, tiles, token_at, tokens, Kind, SpanStyle, Tok,
};
use crate::strutil::{is_ascii_alphabetic, is_ascii_digit, is_white_space, is_word_char};
use super::buffer::{clamp, remove_range};
use super::model::{
    skip_nonspaces_back, skip_nonspaces_fwd, skip_spaces_back, skip_spaces_fwd, skip_word_back, skip_word_fwd, leading_spaces, trim_end_white, join_lines, lemma_lines_of_text_round_trip, lemma_split_lines_len, lemma_typed_text_id,
    split_lines,
};
use super::{lines_with_newlines, lines_without, pos_le, text_between, EditorModel, Pos};
use crate::strutil::sub_chars;

verus! {

// ── Highlighting ────────────────────────────────────────────────────────────

proof fn lemma_runs_text_concat(a: Seq<(Seq<char>, SpanStyle)>, b: Seq<(Seq<char>, SpanStyle)>)
    ensures
        runs_text(a + b) == runs_text(a) + runs_text(b),
    decreases a.len(),
{
    if a.len() == 0 {
        assert(a + b =~= b);
    } else {
        lemma_runs_text_concat(a.drop_first(), b);
        assert((a + b).drop_first() =~= a.drop_first() + b);
        assert(runs_text(a + b) =~= a[0].0 + runs_text(a.drop_first() + b));
    }
}

proof fn lemma_runs_from_text(ts: Seq<Tok>, cs: Seq<char>, scroll: int, k: int, a: int)
    requires
        0 <= k <= ts.len(),
        0 <= a,
        0 <= scroll,
        tiles(ts.skip(k), a, cs.len() as int),
    ensures
        runs_text(runs_from(ts, cs, scroll, k)) == (if a < scroll {
            sub_chars(cs, scroll, cs.len() as int)
        } else {
            sub_chars(cs, a, cs.len() as int)
        }),
    decreases ts.len() - k,
{
    let n = cs.len() as int;
    if k == ts.len() {
        assert(ts.skip(k).len() == 0);
        assert(runs_from(ts, cs, scroll, k) =~= Seq::<(Seq<char>, SpanStyle)>::empty());
        if a < scroll {
            assert(sub_chars(cs, scroll, n) =~= Seq::<char>::empty());
        } else {
            assert(sub_chars(cs, a, n) =~= Seq::<char>::empty());
        }
    } else {
        let t = ts[k];
        assert(ts.skip(k)[0] == t);
        assert(ts.skip(k).drop_first() =~= ts.skip(k + 1));
        let e = t.end as int;
        lemma_runs_from_text(ts, cs, scroll, k + 1, e);
        lemma_tiles_end(ts.skip(k + 1), e, n);
        let here = if t.end > scroll {
            let from = if t.start < scroll {
                scroll
            } else {
                t.start as int
            };
            seq![(cs.subrange(from, t.end as int), super::highlight::style_of(ts, cs, k))]
        } else {
            Seq::<(Seq<char>, SpanStyle)>::empty()
        };
        let rest = runs_from(ts, cs, scroll, k + 1);
        assert(runs_from(ts, cs, scroll, k) == here + rest);
        lemma_runs_text_concat(here, rest);
        if t.end > scroll {
            let from = if t.start < scroll {
                scroll
            } else {
                t.start as int
            };
            assert(here.drop_first() =~= Seq::<(Seq<char>, SpanStyle)>::empty());
            assert(runs_text(here.drop_first()) =~= Seq::<char>::empty());
            assert(runs_text(here) =~= cs.subrange(from, e));
            assert(cs.subrange(from, e) + cs.subrange(e, n) =~= cs.subrange(from, n));
        } else {
            assert(runs_text(here) =~= Seq::<char>::empty());
        }
    }
}

proof fn lemma_tiles_end(ts: Seq<Tok>, a: int, b: int)
    requires
        tiles(ts, a, b),
    ensures
        a <= b,
    decreases ts.len(),
{
    if ts.len() > 0 {
        lemma_tiles_end(ts.drop_first(), ts[0].end as int, b);
    }
}

/// The highlighted runs of a line, read one after the other, spell exactly
/// the part of the line right of the horizontal scroll: nothing is lost,
/// repeated or reordered by the colouring.
pub proof fn law_highlight_spells_visible_text(cs: Seq<char>, scroll: int)
    requires
        0 <= scroll,
        cs.len() <= usize::MAX,
    ensures
        runs_text(highlight_runs(cs, scroll)) == sub_chars(cs, scroll, cs.len() as int),
{
    let ts = tokens(cs, 0);
    lemma_tokens_tile(cs, 0);
    assert(ts.skip(0) =~= ts);
    lemma_runs_from_text(ts, cs, scroll, 0, 0);
    assert(sub_chars(cs, 0, cs.len() as int) =~= cs);
    if 0 < scroll {
    } else {
        assert(sub_chars(cs, scroll, cs.len() as int) =~= sub_chars(cs, 0, cs.len() as int));
    }
}

// ── Loading and reading back ────────────────────────────────────────────────

/// Loading a text without tabs or carriage returns and reading the text
/// back gives the same text.
pub proof fn law_set_text_then_text(m: EditorModel, t: Seq<char>)
    requires
        !t.contains('\t'),
        !t.contains('\r'),
    ensures
        m.text_set(t).text() == t,
{
    lemma_lines_of_text_round_trip(t);
}

// ── Undo and redo ───────────────────────────────────────────────────────────

/// When the newest undo snapshot is the text and caret of `m`, undo brings
/// them back.
proof fn lemma_undo_restores(e: EditorModel, m: EditorModel)
    requires
        e.undo.len() > 0,
        e.undo.last() == m.snapshot(),
    ensures
        e.undone().lines == m.lines,
        e.undone().cursor == m.cursor,
{
}

proof fn lemma_push_undo_top(m: EditorModel)
    ensures
        m.push_undo().undo.len() > 0,
        m.push_undo().undo.last() == m.snapshot(),
{
}

/// Typing (without a selection) and then undoing brings back the text and
/// the caret.
pub proof fn law_undo_reverts_typing(m: EditorModel, t: Seq<char>)
    requires
        m.wf(),
        m.sel_range() is None,
        t.len() > 0,
    ensures
        m.typed(t).undone().lines == m.lines,
        m.typed(t).undone().cursor == m.cursor,
{
    lemma_push_undo_top(m);
    lemma_undo_restores(m.typed(t), m);
}

/// Backspace (without a selection, away from the very start) and then
/// undoing brings back the text and the caret.
pub proof fn law_undo_reverts_backspace(m: EditorModel)
    requires
        m.wf(),
        m.sel_range() is None,
        m.cursor.col > 0 || m.cursor.row > 0,
    ensures
        m.backspaced().undone().lines == m.lines,
        m.backspaced().undone().cursor == m.cursor,
{
    lemma_push_undo_top(m);
    lemma_undo_restores(m.backspaced(), m);
}

/// Delete (without a selection, away from the very end) and then undoing
/// brings back the text and the caret.
pub proof fn law_undo_reverts_delete(m: EditorModel)
    requires
        m.wf(),
        m.sel_range() is None,
        m.cursor.col < m.line_len(m.cursor.row as int) || m.cursor.row + 1 < m.lines.len(),
    ensures
        m.deleted_forward().undone().lines == m.lines,
        m.deleted_forward().undone().cursor == m.cursor,
{
    lemma_push_undo_top(m);
    lemma_undo_restores(m.deleted_forward(), m);
}

/// Cutting a selection and then undoing brings back the text and the
/// caret.
pub proof fn law_undo_reverts_cut(m: EditorModel)
    requires
        m.wf(),
        m.selected_text().len() > 0,
    ensures
        m.cut_out().undone().lines == m.lines,
        m.cut_out().undone().cursor == m.cursor,
{
    let m1 = EditorModel { clipboard: m.selected_text(), ..m };
    lemma_push_undo_top(m1);
    assert(m1.snapshot() == m.snapshot());
    lemma_undo_restores(m.cut_out(), m);
}

/// Duplicating a line and then undoing brings back the text and caret.
pub proof fn law_undo_reverts_duplicate(m: EditorModel)
    requires
        m.wf(),
    ensures
        m.line_duplicated().undone().lines == m.lines,
        m.line_duplicated().undone().cursor == m.cursor,
{
    lemma_push_undo_top(m);
    lemma_undo_restores(m.line_duplicated(), m);
}

/// Toggling a comment and then undoing brings back the text and caret.
pub proof fn law_undo_reverts_comment_toggle(m: EditorModel)
    requires
        m.wf(),
    ensures
        m.comment_toggled().undone().lines == m.lines,
        m.comment_toggled().undone().cursor == m.cursor,
{
    lemma_push_undo_top(m);
    lemma_undo_restores(m.comment_toggled(), m);
}

/// Deleting a word forward (without a selection, where there is something
/// to delete) and then undoing brings back the text and the caret.
pub proof fn law_undo_reverts_delete_word_forward(m: EditorModel)
    requires
        m.wf(),
        m.sel_range() is None,
        m.cursor.col < m.line_len(m.cursor.row as int) || m.cursor.row + 1 < m.lines.len(),
    ensures
        m.deleted_word_forward().undone().lines == m.lines,
        m.deleted_word_forward().undone().cursor == m.cursor,
{
    lemma_push_undo_top(m);
    lemma_undo_restores(m.deleted_word_forward(), m);
}

/// Deleting a word backward (without a selection, away from the very
/// start) and then undoing brings back the text and the caret.
pub proof fn law_undo_reverts_delete_word_backward(m: EditorModel)
    requires
        m.wf(),
        m.sel_range() is None,
        m.cursor.col > 0 || m.cursor.row > 0,
    ensures
        m.deleted_word_backward().undone().lines == m.lines,
        m.deleted_word_backward().undone().cursor == m.cursor,
{
    lemma_push_undo_top(m);
    lemma_undo_restores(m.deleted_word_backward(), m);
}

/// Moving a line up or down (where it can move) and then undoing brings
/// back the text and the caret.
pub proof fn law_undo_reverts_line_move(m: EditorModel)
    requires
        m.wf(),
    ensures
        m.cursor.row > 0 ==> m.line_moved_up().undone().lines == m.lines
            && m.line_moved_up().undone().cursor == m.cursor,
        m.cursor.row + 1 < m.lines.len() ==> m.line_moved_down().undone().lines == m.lines
            && m.line_moved_down().undone().cursor == m.cursor,
{
    lemma_push_undo_top(m);
    if m.cursor.row > 0 {
        lemma_undo_restores(m.line_moved_up(), m);
    }
    if m.cursor.row + 1 < m.lines.len() {
        lemma_undo_restores(m.line_moved_down(), m);
    }
}

/// Typing over a selection saves two snapshots (before the selection is
/// removed, and before the text goes in): undoing twice brings back the
/// text and the caret.
pub proof fn law_two_undos_revert_typing_over_selection(m: EditorModel, t: Seq<char>)
    requires
        m.wf(),
        m.sel_range() is Some,
        t.len() > 0,
    ensures
        m.typed(t).undone().undone().lines == m.lines,
        m.typed(t).undone().undone().cursor == m.cursor,
{
    let d = m.delete_selection();
    lemma_push_undo_top(m);
    assert(d.undo == m.push_undo().undo);
    let u1 = d.undo;
    let u2 = u1.push(d.snapshot());
    let e = m.typed(t);
    assert(e.undo == (if u2.len() > super::UNDO_LIMIT { u2.drop_first() } else { u2 }));
    let e1 = e.undone();
    assert(e1.undo.last() == m.snapshot());
}

/// The history stays within `UNDO_LIMIT` snapshots, undo and redo
/// together: saving a snapshot trims the oldest and clears redo, and undo
/// and redo only move one snapshot between the two.
pub proof fn law_history_stays_bounded(m: EditorModel)
    requires
        m.undo.len() + m.redo.len() <= super::UNDO_LIMIT,
    ensures
        m.push_undo().undo.len() + m.push_undo().redo.len() <= super::UNDO_LIMIT,
        m.undone().undo.len() + m.undone().redo.len() <= super::UNDO_LIMIT,
        m.redone().undo.len() + m.redone().redo.len() <= super::UNDO_LIMIT,
{
}

/// `u` is what undoing one edit made from `m` should give: the text and
/// caret of `m`, the history of `m`, no selection, the text marked
/// changed, and the edit's state alone on the redo history.
pub open spec fn undid_to(u: EditorModel, m: EditorModel) -> bool {
    &&& u.lines == m.lines
    &&& u.cursor == m.cursor
    &&& u.undo == m.undo
    &&& u.anchor is None
    &&& u.dirty
    &&& u.redo.len() == 1
}

proof fn lemma_undo_after_one_push(e: EditorModel, m: EditorModel)
    requires
        e.undo == m.push_undo().undo,
        e.redo.len() == 0,
        m.undo.len() < super::UNDO_LIMIT,
    ensures
        undid_to(e.undone(), m),
{
    assert(m.push_undo().undo.drop_last() =~= m.undo);
}

/// Each edit that saves one snapshot and changes something is undone whole
/// by one undo (with no selection, and room in the history so that the
/// oldest snapshot is not dropped): typing, Enter, Backspace and Delete
/// (where there is something to delete), deleting a word either way,
/// duplicating a line, moving it up or down, and toggling its comment.
#[verifier::spinoff_prover]
#[verifier::rlimit(40)]
pub proof fn law_undo_restores_whole_state(m: EditorModel, t: Seq<char>)
    requires
        m.wf(),
        m.sel_range() is None,
        m.undo.len() < super::UNDO_LIMIT,
    ensures
        t.len() > 0 ==> undid_to(m.typed(t).undone(), m),
        undid_to(m.typed(m.newline_text()).undone(), m),
        m.cursor.col > 0 || m.cursor.row > 0 ==> undid_to(m.backspaced().undone(), m)
            && undid_to(m.deleted_word_backward().undone(), m),
        m.cursor.col < m.line_len(m.cursor.row as int) || m.cursor.row + 1 < m.lines.len()
            ==> undid_to(m.deleted_forward().undone(), m) && undid_to(
            m.deleted_word_forward().undone(),
            m,
        ),
        undid_to(m.line_duplicated().undone(), m),
        m.cursor.row > 0 ==> undid_to(m.line_moved_up().undone(), m),
        m.cursor.row + 1 < m.lines.len() ==> undid_to(m.line_moved_down().undone(), m),
        undid_to(m.comment_toggled().undone(), m),
{
    if t.len() > 0 {
        lemma_undo_after_one_push(m.typed(t), m);
    }
    assert(m.newline_text().len() > 0);
    lemma_undo_after_one_push(m.typed(m.newline_text()), m);
    if m.cursor.col > 0 || m.cursor.row > 0 {
        lemma_undo_after_one_push(m.backspaced(), m);
        lemma_undo_after_one_push(m.deleted_word_backward(), m);
    }
    if m.cursor.col < m.line_len(m.cursor.row as int) || m.cursor.row + 1 < m.lines.len() {
        lemma_undo_after_one_push(m.deleted_forward(), m);
        lemma_undo_after_one_push(m.deleted_word_forward(), m);
    }
    lemma_undo_after_one_push(m.line_duplicated(), m);
    if m.cursor.row > 0 {
        lemma_undo_after_one_push(m.line_moved_up(), m);
    }
    if m.cursor.row + 1 < m.lines.len() {
        lemma_undo_after_one_push(m.line_moved_down(), m);
    }
    lemma_undo_after_one_push(m.comment_toggled(), m);
}

/// Redo right after undo brings back the text and caret that undo left.
pub proof fn law_redo_reverts_undo(m: EditorModel)
    requires
        m.wf(),
        m.undo.len() > 0,
    ensures
        m.undone().redone().lines == m.lines,
        m.undone().redone().cursor == m.cursor,
{
}

/// Undo right after redo brings back the text and caret that redo left.
pub proof fn law_undo_reverts_redo(m: EditorModel)
    requires
        m.wf(),
        m.redo.len() > 0,
    ensures
        m.redone().undone().lines == m.lines,
        m.redone().undone().cursor == m.cursor,
{
}

// ── Line moves ──────────────────────────────────────────────────────────────

/// Moving a line up and then down again restores the text and the caret
/// row.
pub proof fn law_move_line_up_then_down(m: EditorModel)
    requires
        m.wf(),
        m.cursor.row > 0,
    ensures
        m.line_moved_up().line_moved_down().lines == m.lines,
        m.line_moved_up().line_moved_down().cursor == m.cursor,
{
    let m1 = m.line_moved_up();
    let r = m.cursor.row as int;
    assert(m1.lines =~= m.lines.update(r - 1, m.lines[r]).update(r, m.lines[r - 1]));
    assert(m1.line_moved_down().lines =~= m.lines);
}

/// Moving a line down and then up again restores the text and the caret
/// row.
pub proof fn law_move_line_down_then_up(m: EditorModel)
    requires
        m.wf(),
        m.cursor.row + 1 < m.lines.len(),
        m.lines.len() <= usize::MAX,
    ensures
        m.line_moved_down().line_moved_up().lines == m.lines,
        m.line_moved_down().line_moved_up().cursor == m.cursor,
{
    let m1 = m.line_moved_down();
    let r = m.cursor.row as int;
    assert(m1.lines =~= m.lines.update(r, m.lines[r + 1]).update(r + 1, m.lines[r]));
    assert(m1.cursor.row == r + 1);
    assert(m1.line_moved_up().lines =~= m.lines);
}

// ── Caret motion ────────────────────────────────────────────────────────────

/// A step right and a step back left (without extending a selection) bring
/// the caret back, where there is room to step right and the caret is not
/// past the end of its line.
pub proof fn law_right_then_left_returns(m: EditorModel)
    requires
        m.wf(),
        m.cursor.col <= m.line_len(m.cursor.row as int),
        m.cursor.col < m.line_len(m.cursor.row as int) || m.cursor.row + 1 < m.lines.len(),
        m.lines.len() <= usize::MAX,
        forall|r: int| 0 <= r < m.lines.len() ==> #[trigger] m.lines[r].len() <= usize::MAX,
    ensures
        m.moved_right(false).moved_left(false).cursor == m.cursor,
{
    let r = m.moved_right(false);
    lemma_visible_keeps_caret(m.begin_selection(false).with_cursor(r.cursor));
    lemma_visible_keeps_caret(r.begin_selection(false).with_cursor(
        r.moved_left(false).cursor,
    ));
}

/// A step left and a step back right (without extending a selection) bring
/// the caret back, away from the very start and where the caret is not
/// past the end of its line.
pub proof fn law_left_then_right_returns(m: EditorModel)
    requires
        m.wf(),
        m.cursor.col <= m.line_len(m.cursor.row as int),
        m.cursor.col > 0 || m.cursor.row > 0,
        m.lines.len() <= usize::MAX,
        forall|r: int| 0 <= r < m.lines.len() ==> #[trigger] m.lines[r].len() <= usize::MAX,
    ensures
        m.moved_left(false).moved_right(false).cursor == m.cursor,
{
    let l = m.moved_left(false);
    lemma_visible_keeps_caret(m.begin_selection(false).with_cursor(l.cursor));
    lemma_visible_keeps_caret(l.begin_selection(false).with_cursor(
        l.moved_right(false).cursor,
    ));
}

/// Scrolling the caret into view moves neither the caret nor the text.
proof fn lemma_visible_keeps_caret(m: EditorModel)
    ensures
        m.visible().cursor == m.cursor,
        m.visible().lines == m.lines,
{
}

// ── Scrolling ───────────────────────────────────────────────────────────────

/// Scrolling the caret into view shows it: its row lies among the visible
/// rows (when at least one row shows) and its column among the visible
/// columns (when more columns show than the margin kept beside the caret);
/// the caret itself does not move.
pub proof fn law_visible_shows_caret(m: EditorModel)
    requires
        m.wf(),
    ensures
        m.visible().cursor == m.cursor,
        m.viewport is Some && m.viewport.unwrap().visible_rows >= 1 ==> m.visible().scroll_row
            <= m.cursor.row < m.visible().scroll_row + m.viewport.unwrap().visible_rows,
        m.viewport is Some && m.viewport.unwrap().visible_cols > super::SCROLL_COL_MARGIN
            ==> m.visible().scroll_col <= m.cursor.col < m.visible().scroll_col
            + m.viewport.unwrap().visible_cols,
{
}

// ── Select all ──────────────────────────────────────────────────────────────

proof fn lemma_join_first_middle_last(ls: Seq<Seq<char>>)
    requires
        ls.len() >= 2,
    ensures
        join_lines(ls) == ls[0] + seq!['\n'] + lines_with_newlines(ls.subrange(1, ls.len() - 1))
            + ls.last(),
    decreases ls.len(),
{
    let n = ls.len() as int;
    if n == 2 {
        assert(ls.drop_last() =~= seq![ls[0]]);
        assert(ls.subrange(1, 1) =~= Seq::<Seq<char>>::empty());
        assert(join_lines(ls.drop_last()) == ls[0]);
        assert(lines_with_newlines(Seq::<Seq<char>>::empty()) =~= Seq::<char>::empty());
        assert(join_lines(ls) =~= ls[0] + seq!['\n'] + ls.last());
    } else {
        let init = ls.drop_last();
        lemma_join_first_middle_last(init);
        assert(init.subrange(1, init.len() - 1) =~= ls.subrange(1, n - 2));
        let mid = ls.subrange(1, n - 1);
        assert(mid.drop_last() =~= ls.subrange(1, n - 2));
        assert(mid.last() == ls[n - 2]);
        assert(init.last() == ls[n - 2]);
        assert(join_lines(ls) =~= ls[0] + seq!['\n'] + lines_with_newlines(mid) + ls.last());
    }
}

/// Selecting all selects exactly the whole text.
pub proof fn law_select_all_selects_text(m: EditorModel)
    requires
        m.wf(),
        m.lines.len() <= usize::MAX,
        m.lines.last().len() <= usize::MAX,
    ensures
        m.all_selected().selected_text() == m.text(),
{
    let a = m.all_selected();
    let ls = m.lines;
    let last = ls.len() - 1;
    let e = Pos { row: last as usize, col: ls[last].len() as usize };
    let s = Pos { row: 0, col: 0 };
    assert(a.cursor == e);
    assert(a.anchor == Some(s));
    if s == e {
        assert(ls.len() == 1);
        assert(ls[0].len() == 0);
        assert(a.selected_text() =~= Seq::<char>::empty());
        assert(join_lines(ls) == ls[0]);
    } else {
        assert(pos_le(s, e));
        assert(a.sel_range() == Some((s, e)));
        if last == 0 {
            assert(sub_chars(ls[0], 0, ls[0].len() as int) =~= ls[0]);
        } else {
            assert(sub_chars(ls[0], 0, ls[0].len() as int) =~= ls[0]);
            assert(sub_chars(ls[last], 0, ls[last].len() as int) =~= ls[last]);
            lemma_join_first_middle_last(ls);
            assert(text_between(ls, s, e) =~= join_lines(ls));
        }
    }
}


// ── Cut, copy and paste ─────────────────────────────────────────────────────

/// No line of `ls` holds a newline (every text the editor holds is cut at
/// its newlines).
pub open spec fn no_newlines(ls: Seq<Seq<char>>) -> bool {
    forall|r: int, j: int| 0 <= r < ls.len() && 0 <= j < ls[r].len() ==> #[trigger] ls[r][j] != '\n'
}

proof fn lemma_split_single(x: Seq<char>)
    requires
        forall|j: int| 0 <= j < x.len() ==> x[j] != '\n',
    ensures
        split_lines(x) == seq![x],
    decreases x.len(),
{
    if x.len() == 0 {
        assert(x =~= Seq::<char>::empty());
    } else {
        lemma_split_single(x.drop_last());
        assert(x[x.len() - 1] != '\n');
        assert(x.drop_last().push(x.last()) =~= x);
        assert(seq![x.drop_last()].update(0, x) =~= seq![x]);
    }
}

proof fn lemma_split_append(p: Seq<char>, q: Seq<char>)
    ensures
        split_lines(p + seq!['\n'] + q) == split_lines(p) + split_lines(q),
    decreases q.len(),
{
    let w = p + seq!['\n'] + q;
    if q.len() == 0 {
        assert(w.drop_last() =~= p);
        assert(w.last() == '\n');
        assert(split_lines(w) =~= split_lines(p) + split_lines(q));
    } else {
        let qd = q.drop_last();
        assert(w.drop_last() =~= p + seq!['\n'] + qd);
        assert(w.last() == q.last());
        lemma_split_append(p, qd);
        lemma_split_lines_len(p);
        lemma_split_lines_len(qd);
        let a = split_lines(p);
        let b = split_lines(qd);
        if q.last() == '\n' {
            assert(split_lines(w) =~= a + split_lines(q));
        } else {
            assert((a + b).update(a.len() + b.len() - 1, (a + b).last().push(q.last())) =~= a
                + b.update(b.len() - 1, b.last().push(q.last())));
            assert(split_lines(w) =~= a + split_lines(q));
        }
    }
}

proof fn lemma_split_framed(x: Seq<char>, mid: Seq<Seq<char>>, y: Seq<char>)
    requires
        forall|j: int| 0 <= j < x.len() ==> x[j] != '\n',
        forall|j: int| 0 <= j < y.len() ==> y[j] != '\n',
        no_newlines(mid),
    ensures
        split_lines(x + seq!['\n'] + lines_with_newlines(mid) + y) == seq![x] + mid + seq![y],
    decreases mid.len(),
{
    if mid.len() == 0 {
        assert(lines_with_newlines(mid) =~= Seq::<char>::empty());
        assert(x + seq!['\n'] + lines_with_newlines(mid) + y =~= x + seq!['\n'] + y);
        lemma_split_append(x, y);
        lemma_split_single(x);
        lemma_split_single(y);
        assert(seq![x] + mid + seq![y] =~= seq![x] + seq![y]);
    } else {
        let init = mid.drop_last();
        let z = mid.last();
        assert(forall|j: int| 0 <= j < z.len() ==> z[j] == mid[mid.len() - 1][j]);
        assert(forall|r: int, j: int|
            0 <= r < init.len() && 0 <= j < init[r].len() ==> init[r][j] == mid[r][j]);
        lemma_split_framed(x, init, z);
        let u = x + seq!['\n'] + lines_with_newlines(init) + z;
        assert(x + seq!['\n'] + lines_with_newlines(mid) + y =~= u + seq!['\n'] + y);
        lemma_split_append(u, y);
        lemma_split_single(y);
        assert(seq![x] + init + seq![z] + seq![y] =~= seq![x] + mid + seq![y]);
    }
}

/// Putting the selected text back where the selection started, into the
/// lines it was cut out of, gives the lines back, with the caret at the
/// end of the selection.
proof fn lemma_reinsert_selection(m: EditorModel, c: EditorModel, s: Pos, e: Pos)
    requires
        m.wf(),
        m.anchor_ok(),
        m.sel_range() == Some((s, e)),
        m.selected_text().len() > 0,
        no_newlines(m.lines),
        s.col <= m.line_len(s.row as int),
        c.lines == lines_without(m.lines, s, e),
        c.cursor == s,
    ensures
        c.parts_inserted(split_lines(m.selected_text())).lines == m.lines,
        c.parts_inserted(split_lines(m.selected_text())).cursor == (Pos {
            row: e.row,
            col: clamp(e.col as int, m.line_len(e.row as int)) as usize,
        }),
{
    let ls = m.lines;
    let sr = s.row as int;
    let er = e.row as int;
    let a = s.col as int;
    let b = clamp(e.col as int, ls[er].len());
    let sel = m.selected_text();
    assert(pos_le(s, e));
    assert(sr < ls.len() && er < ls.len());
    let line = c.lines[sr];
    if sr == er {
        assert(sel =~= ls[sr].subrange(a, b));
        assert forall|j: int| 0 <= j < sel.len() implies sel[j] != '\n' by {
            assert(sel[j] == ls[sr][a + j]);
        }
        lemma_split_single(sel);
        assert(line =~= ls[sr].take(a) + ls[sr].skip(b));
        assert(clamp(a, line.len()) == a);
        assert(line.take(a) + sel + line.skip(a) =~= ls[sr]);
        assert(c.lines =~= ls.take(sr) + seq![line] + ls.skip(sr + 1));
        assert(c.lines.update(sr, ls[sr]) =~= ls);
    } else {
        let x = ls[sr].skip(a);
        let y = ls[er].take(b);
        let mid = ls.subrange(sr + 1, er);
        assert(sub_chars(ls[sr], a, ls[sr].len() as int) =~= x);
        assert(sub_chars(ls[er], 0, e.col as int) =~= y);
        assert(sel =~= x + seq!['\n'] + lines_with_newlines(mid) + y);
        assert forall|j: int| 0 <= j < x.len() implies x[j] != '\n' by {
            assert(x[j] == ls[sr][a + j]);
        }
        assert forall|j: int| 0 <= j < y.len() implies y[j] != '\n' by {
            assert(y[j] == ls[er][j]);
        }
        assert forall|r: int, j: int| 0 <= r < mid.len() && 0 <= j < mid[r].len() implies #[trigger]
            mid[r][j] != '\n' by {
            assert(mid[r][j] == ls[sr + 1 + r][j]);
        }
        lemma_split_framed(x, mid, y);
        let parts = seq![x] + mid + seq![y];
        let n = parts.len() as int;
        assert(n == mid.len() + 2);
        assert(line =~= ls[sr].take(a) + ls[er].skip(b));
        assert(c.lines =~= ls.take(sr) + seq![line] + ls.skip(er + 1));
        assert(clamp(a, line.len()) == a);
        assert(line.take(a) =~= ls[sr].take(a));
        assert(line.skip(a) =~= ls[er].skip(b));
        assert(parts[0] == x);
        assert(parts[n - 1] == y);
        assert(parts.subrange(1, n - 1) =~= mid);
        assert(line.take(a) + parts[0] =~= ls[sr]);
        assert(parts[n - 1] + line.skip(a) =~= ls[er]);
        assert(c.lines.take(sr) =~= ls.take(sr));
        assert(c.lines.skip(sr + 1) =~= ls.skip(er + 1));
        assert(ls.take(sr) + (seq![ls[sr]] + mid + seq![ls[er]]) + ls.skip(er + 1) =~= ls);
    }
}

/// Cutting a selection and pasting it right away gives the text back, with
/// the caret at the end of where the selection was. (Pasting widens tabs
/// and drops carriage returns, so the selection must hold neither; and a
/// selection that starts past the end of its line is cut from the line end
/// but pasted at the caret column.)
pub proof fn law_cut_then_paste_restores_text(m: EditorModel)
    requires
        m.wf(),
        m.anchor_ok(),
        no_newlines(m.lines),
        m.selected_text().len() > 0,
        !m.selected_text().contains('\t'),
        !m.selected_text().contains('\r'),
        m.sel_range() matches Some((s, e)) && s.col <= m.line_len(s.row as int),
    ensures
        m.cut_out().pasted().lines == m.lines,
        m.sel_range() matches Some((s, e)) && m.cut_out().pasted().cursor == (Pos {
            row: e.row,
            col: clamp(e.col as int, m.line_len(e.row as int)) as usize,
        }),
{
    let (s, e) = m.sel_range().unwrap();
    let sel = m.selected_text();
    let m1 = EditorModel { clipboard: sel, ..m };
    assert(m1.sel_range() == m.sel_range());
    let c = m.cut_out();
    assert(c.lines == lines_without(m.lines, s, e));
    assert(c.cursor == s);
    assert(c.anchor is None);
    assert(c.clipboard == sel);
    assert forall|i: int| 0 <= i < sel.len() implies sel[i] != '\t' && sel[i] != '\r' by {
        if sel[i] == '\t' {
            assert(sel.contains('\t'));
        }
        if sel[i] == '\r' {
            assert(sel.contains('\r'));
        }
    }
    lemma_typed_text_id(sel);
    let p = c.delete_selection().push_undo();
    assert(p.lines == c.lines && p.cursor == c.cursor);
    lemma_reinsert_selection(m, p, s, e);
}

/// Pasting over a selection the text it holds (as copying it would leave
/// on the clipboard) leaves the text as it was. The same conditions as for
/// cut and paste apply.
pub proof fn law_copy_then_paste_keeps_text(m: EditorModel)
    requires
        m.wf(),
        m.anchor_ok(),
        no_newlines(m.lines),
        m.selected_text().len() > 0,
        !m.selected_text().contains('\t'),
        !m.selected_text().contains('\r'),
        m.sel_range() matches Some((s, e)) && s.col <= m.line_len(s.row as int),
    ensures
        m.copied().pasted().lines == m.lines,
        m.copied().clipboard == m.selected_text(),
{
    let (s, e) = m.sel_range().unwrap();
    let sel = m.selected_text();
    let c = m.copied();
    assert(c.clipboard == sel);
    assert(c.sel_range() == m.sel_range());
    assert forall|i: int| 0 <= i < sel.len() implies sel[i] != '\t' && sel[i] != '\r' by {
        if sel[i] == '\t' {
            assert(sel.contains('\t'));
        }
        if sel[i] == '\r' {
            assert(sel.contains('\r'));
        }
    }
    lemma_typed_text_id(sel);
    let p = c.delete_selection().push_undo();
    assert(p.lines == lines_without(m.lines, s, e) && p.cursor == s);
    lemma_reinsert_selection(m, p, s, e);
}

// ── Literal words ───────────────────────────────────────────────────────────

/// Each token of `tokens(cs, i)` is the token that starts where it starts.
proof fn lemma_tokens_are_token_at(cs: Seq<char>, i: int)
    requires
        0 <= i <= cs.len(),
        cs.len() <= usize::MAX,
    ensures
        forall|k: int|
            0 <= k < tokens(cs, i).len() ==> {
                let t = #[trigger] tokens(cs, i)[k];
                &&& i <= t.start < t.end <= cs.len()
                &&& token_at(cs, t.start as int) == (t.end as int, t.kind)
            },
    decreases cs.len() - i,
{
    if i < cs.len() {
        lemma_token_at(cs, i);
        let e = token_at(cs, i).0;
        lemma_tokens_are_token_at(cs, e);
        let ts = tokens(cs, i);
        assert forall|k: int| 0 <= k < ts.len() implies {
            let t = #[trigger] ts[k];
            &&& i <= t.start < t.end <= cs.len()
            &&& token_at(cs, t.start as int) == (t.end as int, t.kind)
        } by {
            if k > 0 {
                assert(ts[k] == tokens(cs, e)[k - 1]);
            }
        }
    }
}

/// With no scroll, token `j` (from `k` on) gives run `j - k`: its text and
/// its style.
proof fn lemma_runs_unscrolled(ts: Seq<Tok>, cs: Seq<char>, k: int)
    requires
        0 <= k <= ts.len(),
        forall|j: int| 0 <= j < ts.len() ==> (#[trigger] ts[j]).start < ts[j].end,
    ensures
        runs_from(ts, cs, 0, k).len() == ts.len() - k,
        forall|j: int|
            k <= j < ts.len() ==> #[trigger] runs_from(ts, cs, 0, k)[j - k] == (cs.subrange(
                ts[j].start as int,
                ts[j].end as int,
            ), style_of(ts, cs, j)),
    decreases ts.len() - k,
{
    if k < ts.len() {
        lemma_runs_unscrolled(ts, cs, k + 1);
        let t = ts[k];
        assert(t.end > 0);
        let here = seq![(cs.subrange(t.start as int, t.end as int), style_of(ts, cs, k))];
        let rest = runs_from(ts, cs, 0, k + 1);
        assert(runs_from(ts, cs, 0, k) == here + rest);
        assert forall|j: int| k <= j < ts.len() implies #[trigger] runs_from(ts, cs, 0, k)[j - k]
            == (cs.subrange(ts[j].start as int, ts[j].end as int), style_of(ts, cs, j)) by {
            if j > k {
                assert((here + rest)[j - k] == rest[j - (k + 1)]);
            }
        }
    }
}

/// The words that JSON spells its literals with.
pub open spec fn json_literal(w: Seq<char>) -> bool {
    ||| w =~= seq!['t', 'r', 'u', 'e']
    ||| w =~= seq!['f', 'a', 'l', 's', 'e']
    ||| w =~= seq!['n', 'u', 'l', 'l']
}

/// Highlighting a line (with no scroll) colours as keywords exactly the
/// runs that spell `true`, `false` or `null`: each token is one run, and
/// such a word is always a token of its own kind.
pub proof fn law_literals_are_keywords(cs: Seq<char>)
    requires
        cs.len() <= usize::MAX,
    ensures
        forall|k: int|
            0 <= k < highlight_runs(cs, 0).len() ==> ((#[trigger] highlight_runs(cs, 0)[k]).1
                == SpanStyle::Keyword <==> json_literal(highlight_runs(cs, 0)[k].0)),
{
    let ts = tokens(cs, 0);
    lemma_tokens_are_token_at(cs, 0);
    lemma_runs_unscrolled(ts, cs, 0);
    assert forall|k: int| 0 <= k < highlight_runs(cs, 0).len() implies ((#[trigger] highlight_runs(
        cs,
        0,
    )[k]).1 == SpanStyle::Keyword <==> json_literal(highlight_runs(cs, 0)[k].0)) by {
        let t = ts[k];
        let s = t.start as int;
        let e = t.end as int;
        let w = cs.subrange(s, e);
        assert(ts[k] == t);
        assert(runs_from(ts, cs, 0, 0)[k - 0] == (w, style_of(ts, cs, k)));
        assert(highlight_runs(cs, 0)[k] == (w, style_of(ts, cs, k)));
        assert(w[0] == cs[s]);
        if json_literal(w) {
            assert(is_ascii_alphabetic(cs[s]));
            assert(e == alpha_end(cs, s));
            assert(is_literal_word(w));
            assert(t.kind == Kind::Literal);
        }
        if t.kind == Kind::Literal {
            assert(is_literal_word(cs.subrange(s, alpha_end(cs, s))));
        }
    }
}

// ── Enter ───────────────────────────────────────────────────────────────────

proof fn lemma_leading_spaces_props(l: Seq<char>)
    ensures
        leading_spaces(l) <= l.len(),
        forall|i: int| 0 <= i < leading_spaces(l) ==> l[i] == ' ',
        leading_spaces(l) == l.len() || l[leading_spaces(l) as int] != ' ',
    decreases l.len(),
{
    if l.len() > 0 && l[0] == ' ' {
        lemma_leading_spaces_props(l.drop_first());
        assert forall|i: int| 0 <= i < leading_spaces(l) implies l[i] == ' ' by {
            if i > 0 {
                assert(l[i] == l.drop_first()[i - 1]);
            }
        }
    }
}

proof fn lemma_trim_end_props(l: Seq<char>)
    ensures
        trim_end_white(l).len() <= l.len(),
        trim_end_white(l) == l.take(trim_end_white(l).len() as int),
        forall|t: int| trim_end_white(l).len() <= t < l.len() ==> is_white_space(l[t]),
        trim_end_white(l).len() == 0 || !is_white_space(l[trim_end_white(l).len() - 1]),
    decreases l.len(),
{
    if l.len() > 0 && is_white_space(l.last()) {
        lemma_trim_end_props(l.drop_last());
        let p = trim_end_white(l).len() as int;
        assert(l.drop_last().take(p) =~= l.take(p));
        assert forall|t: int| p <= t < l.len() implies is_white_space(l[t]) by {
            if t < l.len() - 1 {
                assert(l[t] == l.drop_last()[t]);
            }
        }
    } else {
        assert(l.take(l.len() as int) =~= l);
    }
}

/// An opening bracket before column `k` of `line` with only white space
/// between it and column `k`.
pub open spec fn opens_block(line: Seq<char>, k: int) -> bool {
    exists|j: int|
        0 <= j < k && (line[j] == '{' || line[j] == '[' || line[j] == '(') && forall|t: int|
            j < t < k ==> #[trigger] is_white_space(line[t])
}

/// What Enter types: a newline and as many spaces as the caret line starts
/// with (`n`, the leading spaces), and two more when the text before the
/// caret, trailing white space aside, ends with `{`, `[` or `(`.
pub proof fn law_newline_indentation(m: EditorModel)
    requires
        m.wf(),
    ensures
        ({
            let line = m.lines[m.cursor.row as int];
            let k = clamp(m.cursor.col as int, line.len());
            let n = leading_spaces(line) as int;
            &&& n <= line.len()
            &&& forall|i: int| 0 <= i < n ==> line[i] == ' '
            &&& n == line.len() || line[n] != ' '
            &&& m.newline_text() == seq!['\n'] + Seq::new(
                (if opens_block(line, k) {
                    n + 2
                } else {
                    n
                }) as nat,
                |i: int| ' ',
            )
        }),
{
    let line = m.lines[m.cursor.row as int];
    let k = clamp(m.cursor.col as int, line.len());
    let n = leading_spaces(line) as int;
    lemma_leading_spaces_props(line);
    let s = line.take(k);
    let before = trim_end_white(s);
    lemma_trim_end_props(s);
    let p = before.len() as int;
    let bracket = before.len() > 0 && (before.last() == '{' || before.last() == '['
        || before.last() == '(');
    if opens_block(line, k) {
        let j = choose|j: int|
            0 <= j < k && (line[j] == '{' || line[j] == '[' || line[j] == '(') && forall|t: int|
                j < t < k ==> #[trigger] is_white_space(line[t]);
        assert(!is_white_space(line[j]));
        if p - 1 > j {
            assert(is_white_space(line[p - 1]));
            assert(s[p - 1] == line[p - 1]);
        }
        if p <= j {
            assert(s[j] == line[j]);
        }
        assert(p == j + 1);
        assert(before.last() == s[j]);
        assert(bracket);
        assert(m.newline_text() =~= seq!['\n'] + Seq::new((n + 2) as nat, |i: int| ' '));
    } else {
        if bracket {
            let j = p - 1;
            assert(before[j] == line[j]);
            assert forall|t: int| j < t < k implies #[trigger] is_white_space(line[t]) by {
                assert(s[t] == line[t]);
            }
            assert(opens_block(line, k));
        }
        assert(m.newline_text() =~= seq!['\n'] + Seq::new(n as nat, |i: int| ' '));
    }
}

/// Enter without a selection cuts the caret line at the caret: the part
/// before stays, the new line below is `w` spaces followed by the rest, and
/// the caret lands after those spaces (`w` as `law_newline_indentation`
/// gives it).
pub proof fn law_newline_splits_line(m: EditorModel, w: nat)
    requires
        m.wf(),
        m.sel_range() is None,
        m.newline_text() == seq!['\n'] + Seq::new(w, |i: int| ' '),
        w <= usize::MAX,
    ensures
        ({
            let r = m.cursor.row as int;
            let line = m.lines[r];
            let k = clamp(m.cursor.col as int, line.len());
            let e = m.typed(m.newline_text());
            &&& e.cursor == Pos { row: (r + 1) as usize, col: w as usize }
            &&& e.lines.len() == m.lines.len() + 1
            &&& e.lines[r] == line.take(k)
            &&& e.lines[r + 1] == Seq::new(w, |i: int| ' ') + line.skip(k)
            &&& forall|i: int| 0 <= i < r ==> e.lines[i] == m.lines[i]
            &&& forall|i: int| r + 1 < i < e.lines.len() ==> e.lines[i] == m.lines[i - 1]
        }),
{
    let t = m.newline_text();
    let sp = Seq::new(w, |i: int| ' ');
    assert forall|i: int| 0 <= i < t.len() implies t[i] != '\t' && t[i] != '\r' by {
        if i > 0 {
            assert(t[i] == sp[i - 1]);
        }
    }
    lemma_typed_text_id(t);
    assert(t =~= Seq::<char>::empty() + seq!['\n'] + sp);
    lemma_split_append(Seq::<char>::empty(), sp);
    lemma_split_single(sp);
    assert(split_lines(Seq::<char>::empty()) =~= seq![Seq::<char>::empty()]);
    let parts = split_lines(t);
    assert(parts =~= seq![Seq::<char>::empty(), sp]);
    let r = m.cursor.row as int;
    let line = m.lines[r];
    let k = clamp(m.cursor.col as int, line.len());
    let e = m.typed(t);
    assert(parts.subrange(1, 1) =~= Seq::<Seq<char>>::empty());
    assert(line.take(k) + parts[0] =~= line.take(k));
    assert(e.lines =~= m.lines.take(r) + seq![line.take(k), sp + line.skip(k)] + m.lines.skip(
        r + 1,
    ));
}

// ── Backspace ───────────────────────────────────────────────────────────────

/// Backspace without a selection, with the caret at column `c > 0` inside
/// its line: when something other than a space comes before the caret,
/// exactly the character before it goes and the caret steps back one; when
/// only spaces come before it, a whole indentation level (two columns) goes
/// on an even column of at least two, and one space otherwise.
pub proof fn law_backspace_removes_char_or_level(m: EditorModel)
    requires
        m.wf(),
        m.sel_range() is None,
        0 < m.cursor.col <= m.line_len(m.cursor.row as int),
    ensures
        ({
            let r = m.cursor.row as int;
            let c = m.cursor.col as int;
            let line = m.lines[r];
            let b = m.backspaced();
            let spaces_only = forall|j: int| 0 <= j < c ==> line[j] == ' ';
            &&& !spaces_only ==> b.lines == m.lines.update(r, line.remove(c - 1)) && b.cursor
                == Pos { row: r as usize, col: (c - 1) as usize }
            &&& spaces_only && c >= 2 && c % 2 == 0 ==> b.lines == m.lines.update(
                r,
                line.take(c - 2) + line.skip(c),
            ) && b.cursor == Pos { row: r as usize, col: (c - 2) as usize }
            &&& spaces_only && (c < 2 || c % 2 == 1) ==> b.lines == m.lines.update(
                r,
                line.remove(c - 1),
            ) && b.cursor == Pos { row: r as usize, col: (c - 1) as usize }
        }),
{
    let r = m.cursor.row as int;
    let c = m.cursor.col as int;
    let line = m.lines[r];
    assert(line.take(c - 1) + line.skip(c) =~= line.remove(c - 1));
    let b = m.backspaced();
    lemma_visible_keeps_caret(EditorModel {
        lines: m.push_undo().lines.update(r, remove_range(line, b.cursor.col as int, c)),
        cursor: b.cursor,
        dirty: true,
        ..m.push_undo()
    });
}

// ── Double click ────────────────────────────────────────────────────────────

proof fn lemma_word_fwd_props(l: Seq<char>, i: int)
    requires
        0 <= i <= l.len(),
    ensures
        i <= skip_word_fwd(l, i) <= l.len(),
        forall|t: int| i <= t < skip_word_fwd(l, i) ==> is_word_char(#[trigger] l[t]),
        skip_word_fwd(l, i) == l.len() || !is_word_char(l[skip_word_fwd(l, i)]),
    decreases l.len() - i,
{
    if i < l.len() && is_word_char(l[i]) {
        lemma_word_fwd_props(l, i + 1);
    }
}

proof fn lemma_word_back_props(l: Seq<char>, i: int)
    requires
        0 <= i <= l.len(),
    ensures
        0 <= skip_word_back(l, i) <= i,
        forall|t: int| skip_word_back(l, i) <= t < i ==> is_word_char(#[trigger] l[t]),
        skip_word_back(l, i) == 0 || !is_word_char(l[skip_word_back(l, i) - 1]),
    decreases i,
{
    if 0 < i && is_word_char(l[i - 1]) {
        lemma_word_back_props(l, i - 1);
    }
}

/// A double click on a word character (a letter or digit, or `_`) selects
/// the whole word around it: a stretch of word characters on that line
/// that holds the clicked one, with no word character just before or just
/// after it.
pub proof fn law_double_click_selects_word(m: EditorModel, p: Pos, extend: bool)
    requires
        m.wf(),
        m.click_count == 1,
        p.row < m.lines.len(),
        p.col < m.line_len(p.row as int) <= usize::MAX,
        is_word_char(m.lines[p.row as int][p.col as int]),
    ensures
        ({
            let l = m.lines[p.row as int];
            let d = m.clicked(Some(p), true, extend);
            let s = d.sel_range().unwrap().0.col as int;
            let e = d.sel_range().unwrap().1.col as int;
            &&& d.sel_range() is Some
            &&& d.sel_range().unwrap().0.row == p.row && d.sel_range().unwrap().1.row == p.row
            &&& 0 <= s <= p.col < e <= l.len()
            &&& forall|t: int| s <= t < e ==> is_word_char(#[trigger] l[t])
            &&& s == 0 || !is_word_char(l[s - 1])
            &&& e == l.len() || !is_word_char(l[e])
        }),
{
    let l = m.lines[p.row as int];
    let col = p.col as int;
    lemma_word_fwd_props(l, col);
    lemma_word_back_props(l, col);
    let s = skip_word_back(l, col);
    let e = skip_word_fwd(l, col);
    assert(is_word_char(l[col]));
    let m1 = EditorModel { click_count: 2, ..m }.begin_selection(extend).with_cursor(p);
    assert(m1.col_on(p.row as int, p.col) == p.col);
    let w = m1.word_selected();
    assert(w.anchor == Some(Pos { row: p.row, col: s as usize }));
    assert(w.cursor == Pos { row: p.row, col: e as usize });
    let d = m.clicked(Some(p), true, extend);
    assert(d == w.visible());
    assert(d.anchor == w.anchor && d.cursor == w.cursor);
    assert(d.sel_range() == Some(
        (Pos { row: p.row, col: s as usize }, Pos { row: p.row, col: e as usize }),
    ));
}

// ── Typing and Delete ───────────────────────────────────────────────────────

/// Typing text without newlines, tabs or carriage returns (and without a
/// selection) puts it into the caret line at the caret (its column clamped
/// to the line), moves the caret past it, and leaves the other lines.
pub proof fn law_typing_inserts_at_caret(m: EditorModel, t: Seq<char>)
    requires
        m.wf(),
        m.sel_range() is None,
        t.len() > 0,
        forall|i: int| 0 <= i < t.len() ==> #[trigger] t[i] != '\n' && t[i] != '\t' && t[i]
            != '\r',
        m.cursor.col + t.len() <= usize::MAX,
    ensures
        ({
            let r = m.cursor.row as int;
            let line = m.lines[r];
            let k = clamp(m.cursor.col as int, line.len());
            let e = m.typed(t);
            &&& e.lines == m.lines.update(r, line.take(k) + t + line.skip(k))
            &&& e.cursor == Pos { row: r as usize, col: (m.cursor.col + t.len()) as usize }
        }),
{
    lemma_typed_text_id(t);
    lemma_split_single(t);
}

/// Delete without a selection removes the character after the caret, or,
/// at the end of a line that has a next one, joins the next line onto it;
/// the caret stays.
pub proof fn law_delete_removes_next_char(m: EditorModel)
    requires
        m.wf(),
        m.sel_range() is None,
    ensures
        ({
            let r = m.cursor.row as int;
            let c = m.cursor.col as int;
            let line = m.lines[r];
            let d = m.deleted_forward();
            &&& c < line.len() ==> d.lines == m.lines.update(r, line.remove(c)) && d.cursor
                == m.cursor
            &&& c >= line.len() && r + 1 < m.lines.len() ==> d.lines.len() == m.lines.len() - 1
                && d.lines[r] == line + m.lines[r + 1] && d.lines.take(r) == m.lines.take(r)
                && d.lines.skip(r + 1) == m.lines.skip(r + 2) && d.cursor == m.cursor
            &&& c >= line.len() && r + 1 >= m.lines.len() ==> d.lines == m.lines && d.cursor
                == m.cursor
        }),
{
    let r = m.cursor.row as int;
    let c = m.cursor.col as int;
    let line = m.lines[r];
    if c < line.len() {
        assert(line.take(c) + line.skip(c + 1) =~= line.remove(c));
    }
    if c >= line.len() && r + 1 < m.lines.len() {
        let j = m.lines.update(r, line + m.lines[r + 1]).remove(r + 1);
        assert(j.take(r) =~= m.lines.take(r));
        assert(j.skip(r + 1) =~= m.lines.skip(r + 2));
    }
}

// ── Word deletion ───────────────────────────────────────────────────────────

proof fn lemma_back_scans(l: Seq<char>, i: int)
    requires
        0 <= i <= l.len(),
    ensures
        0 <= skip_spaces_back(l, i) <= i,
        forall|t: int| skip_spaces_back(l, i) <= t < i ==> #[trigger] l[t] == ' ',
        skip_spaces_back(l, i) == 0 || l[skip_spaces_back(l, i) - 1] != ' ',
        0 <= skip_nonspaces_back(l, i) <= i,
        forall|t: int| skip_nonspaces_back(l, i) <= t < i ==> #[trigger] l[t] != ' ',
        skip_nonspaces_back(l, i) == 0 || l[skip_nonspaces_back(l, i) - 1] == ' ',
    decreases i,
{
    if i > 0 {
        lemma_back_scans(l, i - 1);
    }
}

proof fn lemma_fwd_scans(l: Seq<char>, i: int)
    requires
        0 <= i <= l.len(),
    ensures
        i <= skip_spaces_fwd(l, i) <= l.len(),
        forall|t: int| i <= t < skip_spaces_fwd(l, i) ==> #[trigger] l[t] == ' ',
        skip_spaces_fwd(l, i) == l.len() || l[skip_spaces_fwd(l, i)] != ' ',
        i <= skip_nonspaces_fwd(l, i) <= l.len(),
        forall|t: int| i <= t < skip_nonspaces_fwd(l, i) ==> #[trigger] l[t] != ' ',
        skip_nonspaces_fwd(l, i) == l.len() || l[skip_nonspaces_fwd(l, i)] == ' ',
    decreases l.len() - i,
{
    if i < l.len() {
        lemma_fwd_scans(l, i + 1);
    }
}

/// Deleting a word backward (no selection, caret at column `c > 0` inside
/// its line) removes the characters from some `s < c` up to the caret and
/// puts the caret at `s`: they are all spaces, or all not spaces, like the
/// character just before the caret, and the character before `s` (if any)
/// is of the other kind.
pub proof fn law_delete_word_backward_removes_run(m: EditorModel)
    requires
        m.wf(),
        m.sel_range() is None,
        0 < m.cursor.col <= m.line_len(m.cursor.row as int),
    ensures
        ({
            let r = m.cursor.row as int;
            let c = m.cursor.col as int;
            let line = m.lines[r];
            let d = m.deleted_word_backward();
            let s = d.cursor.col as int;
            let sp = line[c - 1] == ' ';
            &&& d.cursor.row == r && 0 <= s < c
            &&& d.lines == m.lines.update(r, line.take(s) + line.skip(c))
            &&& forall|t: int| s <= t < c ==> (#[trigger] line[t] == ' ') == sp
            &&& s == 0 || (line[s - 1] == ' ') != sp
        }),
{
    let r = m.cursor.row as int;
    let c = m.cursor.col as int;
    let line = m.lines[r];
    lemma_back_scans(line, c);
    let d = m.deleted_word_backward();
    lemma_visible_keeps_caret(EditorModel {
        lines: m.push_undo().lines.update(r, remove_range(line, d.cursor.col as int, c)),
        cursor: d.cursor,
        dirty: true,
        ..m.push_undo()
    });
}

/// Deleting a word forward (no selection, caret at column `c` before the
/// end of its line) removes the characters from the caret up to some
/// `e > c`: all spaces, or all not spaces, like the character at the caret,
/// with the character at `e` (if any) of the other kind; the caret stays.
pub proof fn law_delete_word_forward_removes_run(m: EditorModel)
    requires
        m.wf(),
        m.sel_range() is None,
        m.cursor.col < m.line_len(m.cursor.row as int),
    ensures
        ({
            let r = m.cursor.row as int;
            let c = m.cursor.col as int;
            let line = m.lines[r];
            let d = m.deleted_word_forward();
            let sp = line[c] == ' ';
            &&& d.cursor == m.cursor
            &&& exists|e: int|
                #![trigger line.skip(e)]
                {
                    &&& c < e <= line.len()
                    &&& d.lines == m.lines.update(r, line.take(c) + line.skip(e))
                    &&& forall|t: int| c <= t < e ==> (#[trigger] line[t] == ' ') == sp
                    &&& e == line.len() || (line[e] == ' ') != sp
                }
        }),
{
    let r = m.cursor.row as int;
    let c = m.cursor.col as int;
    let line = m.lines[r];
    lemma_fwd_scans(line, c);
    let e0 = skip_spaces_fwd(line, c);
    let e = if e0 == c {
        skip_nonspaces_fwd(line, c)
    } else {
        e0
    };
    let d = m.deleted_word_forward();
    lemma_visible_keeps_caret(EditorModel {
        lines: m.push_undo().lines.update(r, remove_range(line, c, e)),
        dirty: true,
        ..m.push_undo()
    });
    assert(d.lines == m.lines.update(r, line.take(c) + line.skip(e)));
    let _ = line.skip(e);
}

// ── Highlight styles ────────────────────────────────────────────────────────

/// A run of blanks: it starts with a space or a tab.
pub open spec fn blank_run(w: Seq<char>) -> bool {
    w.len() > 0 && (w[0] == ' ' || w[0] == '\t')
}

/// `colon_follows` read as: some token `q >= j` is the colon punctuation
/// and every token from `j` up to it is blank.
proof fn lemma_colon_follows(ts: Seq<Tok>, cs: Seq<char>, j: int)
    requires
        0 <= j <= ts.len(),
        forall|q: int|
            0 <= q < ts.len() ==> {
                let t = #[trigger] ts[q];
                &&& 0 <= t.start < t.end <= cs.len()
                &&& token_at(cs, t.start as int) == (t.end as int, t.kind)
            },
    ensures
        colon_follows(ts, cs, j) <==> exists|q: int|
            j <= q < ts.len() && #[trigger] cs.subrange(ts[q].start as int, ts[q].end as int)
                == seq![':'] && forall|u: int|
                j <= u < q ==> blank_run(
                    #[trigger] cs.subrange(ts[u].start as int, ts[u].end as int),
                ),
    decreases ts.len() - j,
{
    if j < ts.len() {
        lemma_colon_follows(ts, cs, j + 1);
        let t = ts[j];
        let w = cs.subrange(t.start as int, t.end as int);
        assert(w[0] == cs[t.start as int]);
        let c = cs[t.start as int];
        assert((t.kind == Kind::Ws) == (c == ' ' || c == '\t'));
        assert((t.kind == Kind::Punct && c == ':') ==> w =~= seq![':']);
        if w =~= seq![':'] {
            assert(t.kind == Kind::Punct);
        }
        if colon_follows(ts, cs, j) {
            if t.kind == Kind::Ws {
                let q = choose|q: int|
                    j + 1 <= q < ts.len() && #[trigger] cs.subrange(
                        ts[q].start as int,
                        ts[q].end as int,
                    ) == seq![':'] && forall|u: int|
                        j + 1 <= u < q ==> blank_run(
                            #[trigger] cs.subrange(ts[u].start as int, ts[u].end as int),
                        );
                assert(blank_run(cs.subrange(ts[j].start as int, ts[j].end as int)));
                assert forall|u: int| j <= u < q implies blank_run(
                    #[trigger] cs.subrange(ts[u].start as int, ts[u].end as int),
                ) by {}
            } else {
                assert(cs.subrange(ts[j].start as int, ts[j].end as int) == seq![':']);
            }
        } else {
            if exists|q: int|
                j <= q < ts.len() && #[trigger] cs.subrange(ts[q].start as int, ts[q].end as int)
                    == seq![':'] && forall|u: int|
                    j <= u < q ==> blank_run(
                        #[trigger] cs.subrange(ts[u].start as int, ts[u].end as int),
                    ) {
                let q = choose|q: int|
                    j <= q < ts.len() && #[trigger] cs.subrange(ts[q].start as int, ts[q].end as int)
                        == seq![':'] && forall|u: int|
                        j <= u < q ==> blank_run(
                            #[trigger] cs.subrange(ts[u].start as int, ts[u].end as int),
                        );
                if q == j {
                    assert(t.kind == Kind::Punct);
                } else {
                    assert(blank_run(cs.subrange(ts[j].start as int, ts[j].end as int)));
                    assert(t.kind == Kind::Ws);
                    assert(colon_follows(ts, cs, j + 1));
                }
            }
        }
    }
}

/// The style of run `k` of `rs` fits its text: a run starting with a
/// quote is a key when the next run that is not blank is a colon, and a
/// string otherwise; a run starting with a digit is a number; a run
/// starting with `//` is a comment and the last run; brackets, colons and
/// commas are one-character punctuation runs; blanks are plain.
pub open spec fn run_style_fits(rs: Seq<(Seq<char>, SpanStyle)>, k: int) -> bool {
    let w = rs[k].0;
    let st = rs[k].1;
    &&& w.len() > 0
    &&& w[0] == '"' ==> (st == SpanStyle::Key <==> exists|q: int|
        k < q < rs.len() && #[trigger] rs[q].0 == seq![':'] && forall|u: int|
            k < u < q ==> blank_run(#[trigger] rs[u].0))
    &&& w[0] == '"' ==> (st == SpanStyle::Key || st == SpanStyle::Str)
    &&& is_ascii_digit(w[0]) ==> st == SpanStyle::Number
    &&& w.len() >= 2 && w[0] == '/' && w[1] == '/' ==> st == SpanStyle::Comment && k == rs.len()
        - 1
    &&& is_punct(w[0]) ==> st == SpanStyle::Punct && w.len() == 1
    &&& blank_run(w) ==> st == SpanStyle::Plain
}

/// With no scroll, every run of a highlighted line has the style its text
/// calls for (see `run_style_fits`).
pub proof fn law_run_styles(cs: Seq<char>)
    requires
        cs.len() <= usize::MAX,
    ensures
        forall|k: int|
            0 <= k < highlight_runs(cs, 0).len() ==> #[trigger] run_style_fits(
                highlight_runs(cs, 0),
                k,
            ),
{
    let ts = tokens(cs, 0);
    lemma_tokens_are_token_at(cs, 0);
    lemma_runs_unscrolled(ts, cs, 0);
    lemma_tokens_tile(cs, 0);
    let rs = highlight_runs(cs, 0);
    assert forall|j: int| 0 <= j < ts.len() implies #[trigger] rs[j] == (cs.subrange(
        ts[j].start as int,
        ts[j].end as int,
    ), style_of(ts, cs, j)) by {
        assert(runs_from(ts, cs, 0, 0)[j - 0] == (cs.subrange(
            ts[j].start as int,
            ts[j].end as int,
        ), style_of(ts, cs, j)));
    }
    assert forall|k: int| 0 <= k < rs.len() implies #[trigger] run_style_fits(rs, k) by {
        let t = ts[k];
        let w = cs.subrange(t.start as int, t.end as int);
        assert(rs[k].0 == w);
        assert(w[0] == cs[t.start as int]);
        if w.len() >= 2 && w[0] == '/' && w[1] == '/' {
            assert(w[1] == cs[t.start + 1]);
            assert(t.end == cs.len());
            if k < rs.len() - 1 {
                lemma_tiles_consecutive(ts, 0, cs.len() as int, k);
                assert(ts[k + 1].start < ts[k + 1].end <= cs.len());
            }
        }
        if w[0] == '"' {
            lemma_colon_follows(ts, cs, k + 1);
            if exists|q: int|
                k < q < rs.len() && #[trigger] rs[q].0 == seq![':'] && forall|u: int|
                    k < u < q ==> blank_run(#[trigger] rs[u].0) {
                let q = choose|q: int|
                    k < q < rs.len() && #[trigger] rs[q].0 == seq![':'] && forall|u: int|
                        k < u < q ==> blank_run(#[trigger] rs[u].0);
                assert(cs.subrange(ts[q].start as int, ts[q].end as int) == rs[q].0);
                assert forall|u: int| k + 1 <= u < q implies blank_run(
                    #[trigger] cs.subrange(ts[u].start as int, ts[u].end as int),
                ) by {
                    assert(rs[u].0 == cs.subrange(ts[u].start as int, ts[u].end as int));
                }
                assert(colon_follows(ts, cs, k + 1));
            }
            if colon_follows(ts, cs, k + 1) {
                let q = choose|q: int|
                    k + 1 <= q < ts.len() && #[trigger] cs.subrange(
                        ts[q].start as int,
                        ts[q].end as int,
                    ) == seq![':'] && forall|u: int|
                        k + 1 <= u < q ==> blank_run(
                            #[trigger] cs.subrange(ts[u].start as int, ts[u].end as int),
                        );
                assert(rs[q].0 == seq![':']);
                assert forall|u: int| k < u < q implies blank_run(#[trigger] rs[u].0) by {
                    assert(rs[u].0 == cs.subrange(ts[u].start as int, ts[u].end as int));
                }
            }
        }
        if is_punct(w[0]) {
            assert(t.end == t.start + 1);
        }
    }
}

/// In a tiling, token `k + 1` starts where token `k` ends.
proof fn lemma_tiles_consecutive(ts: Seq<Tok>, a: int, b: int, k: int)
    requires
        tiles(ts, a, b),
        0 <= k < ts.len() - 1,
    ensures
        ts[k + 1].start == ts[k].end,
    decreases k,
{
    if k > 0 {
        lemma_tiles_consecutive(ts.drop_first(), ts[0].end as int, b, k - 1);
        assert(ts.drop_first()[k] == ts[k + 1]);
        assert(ts.drop_first()[k - 1] == ts[k]);
    } else {
        reveal_with_fuel(tiles, 2);
        assert(ts.drop_first()[0] == ts[1]);
    }
}

} // verus!
