//! A multi-line text editor model: lines of characters, a caret with an
//! optional selection anchor, scrolling, a clipboard and undo/redo history.
//!
//! Geometry stays with the caller: it hands the editor the number of text
//! rows and columns that fit on screen (`set_viewport`) and turns pointer
//! positions into text cells before asking for a position (`pos_from_cell`).
use vstd::prelude::*;

pub mod buffer;
pub mod edit_ops;
pub mod highlight;
pub mod laws;
pub mod model;
pub mod motion;
pub mod pos;
pub mod undo;

pub use pos::{pos_le, Pos};
use crate::strutil::{chars_of, string_of, sub_chars};
use buffer::{clamp, clone_lines, join_chars, slice_of, splice_lines, text_of};
use model::{
    expand_tabs, join_lines, lemma_split_lines_len, lines_of_text, split_lines, trim_cr,
};

verus! {

/// How much text fits on screen, as last laid out.
#[derive(Clone, Copy, PartialEq, Eq, Structural, Debug)]
pub struct Viewport {
    pub visible_rows: usize,
    pub visible_cols: usize,
}

/// A saved text and caret, for undo and redo.
pub struct Snapshot {
    pub(crate) lines: Vec<Vec<char>>,
    pub(crate) cursor: Pos,
}

#[verifier::ext_equal]
pub struct SnapshotModel {
    pub lines: Seq<Seq<char>>,
    pub cursor: Pos,
}

impl View for Snapshot {
    type V = SnapshotModel;

    closed spec fn view(&self) -> SnapshotModel {
        SnapshotModel { lines: text_of(self.lines@), cursor: self.cursor }
    }
}

pub open spec fn snaps_of(v: Seq<Snapshot>) -> Seq<SnapshotModel> {
    v.map_values(|s: Snapshot| s@)
}

/// Most snapshots that the undo history keeps.
pub const UNDO_LIMIT: usize = 200;

/// Columns kept between the caret and the left or right edge when scrolling.
pub const SCROLL_COL_MARGIN: usize = 4;

/// Rows kept between the caret and the top or bottom edge when scrolling.
pub const SCROLL_ROW_MARGIN: usize = 3;

/// Rows a page moves when no viewport is known.
pub const DEFAULT_PAGE_ROWS: usize = 20;

/// What a tab becomes, in columns.
pub const TAB_COLS: usize = 2;

pub struct TextEditor {
    pub(crate) lines: Vec<Vec<char>>,
    pub(crate) cursor: Pos,
    pub(crate) anchor: Option<Pos>,
    pub(crate) scroll_row: usize,
    pub(crate) scroll_col: usize,
    pub dirty: bool,
    pub(crate) clipboard: Vec<char>,
    pub(crate) undo: Vec<Snapshot>,
    pub(crate) redo: Vec<Snapshot>,
    pub(crate) viewport: Option<Viewport>,
    pub tab_width: usize,
    pub syntax: bool,
    pub(crate) click_count: u32,
}

/// The whole state of an editor, as mathematical values.
#[verifier::ext_equal]
pub struct EditorModel {
    pub lines: Seq<Seq<char>>,
    pub cursor: Pos,
    pub anchor: Option<Pos>,
    pub scroll_row: usize,
    pub scroll_col: usize,
    pub dirty: bool,
    pub clipboard: Seq<char>,
    pub undo: Seq<SnapshotModel>,
    pub redo: Seq<SnapshotModel>,
    pub viewport: Option<Viewport>,
    pub tab_width: usize,
    pub syntax: bool,
    pub click_count: u32,
}

impl View for TextEditor {
    type V = EditorModel;

    closed spec fn view(&self) -> EditorModel {
        EditorModel {
            lines: text_of(self.lines@),
            cursor: self.cursor,
            anchor: self.anchor,
            scroll_row: self.scroll_row,
            scroll_col: self.scroll_col,
            dirty: self.dirty,
            clipboard: self.clipboard@,
            undo: snaps_of(self.undo@),
            redo: snaps_of(self.redo@),
            viewport: self.viewport,
            tab_width: self.tab_width,
            syntax: self.syntax,
            click_count: self.click_count,
        }
    }
}

/// The public fields of an editor are the fields of the same names in its
/// view (`broadcast use` it to have this everywhere in the crate).
pub(crate) broadcast proof fn lemma_view_public_fields(ed: &TextEditor)
    ensures
        (#[trigger] ed@).dirty == ed.dirty && ed@.tab_width == ed.tab_width && ed@.syntax
            == ed.syntax,
{
}

// ── Invariant ───────────────────────────────────────────────────────────────

/// A saved state that can be restored: at least one line, caret on a line.
pub open spec fn snap_wf(s: SnapshotModel) -> bool {
    s.lines.len() >= 1 && s.cursor.row < s.lines.len()
}

impl EditorModel {
    /// There is always a line, the caret is on one, and every state that
    /// undo or redo could bring back is such a state too. (The caret column
    /// may lie past the end of its line: edits clamp it when they use it.)
    pub open spec fn wf(self) -> bool {
        &&& self.lines.len() >= 1
        &&& self.cursor.row < self.lines.len()
        &&& forall|i: int| 0 <= i < self.undo.len() ==> snap_wf(#[trigger] self.undo[i])
        &&& forall|i: int| 0 <= i < self.redo.len() ==> snap_wf(#[trigger] self.redo[i])
    }

    /// The selection anchor, when there is one, is on an existing line.
    pub open spec fn anchor_ok(self) -> bool {
        self.anchor matches Some(a) ==> a.row < self.lines.len()
    }

    /// The ordered ends of the selection; none when there is no anchor or
    /// the anchor sits on the caret.
    pub open spec fn sel_range(self) -> Option<(Pos, Pos)> {
        match self.anchor {
            None => None,
            Some(a) => if a == self.cursor {
                None
            } else if pos_le(a, self.cursor) {
                Some((a, self.cursor))
            } else {
                Some((self.cursor, a))
            },
        }
    }

    /// The length of line `r`.
    pub open spec fn line_len(self, r: int) -> nat {
        self.lines[r].len()
    }

    /// The text as the user sees it: lines joined by newlines.
    pub open spec fn text(self) -> Seq<char> {
        join_lines(self.lines)
    }

    /// The current text and caret, as undo saves them.
    pub open spec fn snapshot(self) -> SnapshotModel {
        SnapshotModel { lines: self.lines, cursor: self.cursor }
    }

    /// The state after saving a snapshot for undo: the oldest one is
    /// dropped past `UNDO_LIMIT`, and the redo history is cleared.
    pub open spec fn push_undo(self) -> EditorModel {
        let u = self.undo.push(self.snapshot());
        EditorModel {
            undo: if u.len() > UNDO_LIMIT { u.drop_first() } else { u },
            redo: Seq::<SnapshotModel>::empty(),
            ..self
        }
    }

    /// Scrolls vertically so the caret row shows with a margin (nothing
    /// happens before a viewport is known).
    pub open spec fn row_visible(self) -> EditorModel {
        match self.viewport {
            None => self,
            Some(v) => {
                let vis = v.visible_rows as int;
                let row = self.cursor.row as int;
                let margin = if SCROLL_ROW_MARGIN < vis / 2 {
                    SCROLL_ROW_MARGIN as int
                } else {
                    vis / 2
                };
                let sr = self.scroll_row as int;
                let sr1 = if row < sr + margin {
                    if row - margin > 0 {
                        row - margin
                    } else {
                        0
                    }
                } else if row + margin >= sr + vis {
                    if row + margin + 1 - vis > 0 {
                        row + margin + 1 - vis
                    } else {
                        0
                    }
                } else {
                    sr
                };
                let last = self.lines.len() - 1;
                let sr2 = if sr1 < last {
                    sr1
                } else {
                    last
                };
                EditorModel { scroll_row: sr2 as usize, ..self }
            },
        }
    }

    /// Scrolls horizontally so the caret column shows with a margin
    /// (nothing happens before a viewport is known).
    pub open spec fn col_visible(self) -> EditorModel {
        match self.viewport {
            None => self,
            Some(v) => {
                let vc = v.visible_cols as int;
                let col = self.cursor.col as int;
                let margin = SCROLL_COL_MARGIN as int;
                let sc = self.scroll_col as int;
                let sc1 = if col < sc + margin {
                    if col - margin > 0 {
                        col - margin
                    } else {
                        0
                    }
                } else if col + margin >= sc + vc {
                    if col + margin + 1 - vc > 0 {
                        col + margin + 1 - vc
                    } else {
                        0
                    }
                } else {
                    sc
                };
                let sc2 = if sc1 < usize::MAX {
                    sc1
                } else {
                    usize::MAX as int
                };
                EditorModel { scroll_col: sc2 as usize, ..self }
            },
        }
    }

    /// Scrolls both ways so the caret shows.
    pub open spec fn visible(self) -> EditorModel {
        self.row_visible().col_visible()
    }

    /// The last line number, the most the view can scroll down to.
    pub open spec fn last_row(self) -> int {
        self.lines.len() - 1
    }
}

/// Line `r` followed by a newline, for each line of `ls`.
pub open spec fn lines_with_newlines(ls: Seq<Seq<char>>) -> Seq<char>
    decreases ls.len(),
{
    if ls.len() == 0 {
        Seq::<char>::empty()
    } else {
        lines_with_newlines(ls.drop_last()) + ls.last() + seq!['\n']
    }
}

/// The text between the positions `s` and `e` (for `s` before `e`), with a
/// newline where it crosses the end of a line.
pub open spec fn text_between(lines: Seq<Seq<char>>, s: Pos, e: Pos) -> Seq<char> {
    if s.row == e.row {
        sub_chars(lines[s.row as int], s.col as int, e.col as int)
    } else {
        sub_chars(lines[s.row as int], s.col as int, lines[s.row as int].len() as int) + seq!['\n']
            + lines_with_newlines(lines.subrange(s.row + 1, e.row as int)) + sub_chars(
            lines[e.row as int],
            0,
            e.col as int,
        )
    }
}

/// The lines once the text between `s` and `e` is cut out: the start of
/// line `s.row` joined to the rest of line `e.row`.
pub open spec fn lines_without(lines: Seq<Seq<char>>, s: Pos, e: Pos) -> Seq<Seq<char>> {
    let head = lines[s.row as int].take(clamp(s.col as int, lines[s.row as int].len()));
    let tail = lines[e.row as int].skip(clamp(e.col as int, lines[e.row as int].len()));
    lines.take(s.row as int) + seq![head + tail] + lines.skip(e.row + 1)
}

/// The longest line length.
pub open spec fn max_line_len(ls: Seq<Seq<char>>) -> nat
    decreases ls.len(),
{
    if ls.len() == 0 {
        0
    } else {
        let m = max_line_len(ls.drop_last());
        if m < ls.last().len() {
            ls.last().len()
        } else {
            m
        }
    }
}

impl EditorModel {
    /// The selected text; empty without a selection.
    pub open spec fn selected_text(self) -> Seq<char> {
        match self.sel_range() {
            None => Seq::<char>::empty(),
            Some((s, e)) => text_between(self.lines, s, e),
        }
    }

    /// Cuts out the selection, if any, saving a snapshot first; the caret
    /// goes to where the selection started.
    pub open spec fn delete_selection(self) -> EditorModel {
        match self.sel_range() {
            None => self,
            Some((s, e)) => {
                let m = self.push_undo();
                EditorModel {
                    lines: lines_without(self.lines, s, e),
                    cursor: s,
                    anchor: None,
                    dirty: true,
                    ..m
                }
            },
        }
    }

    /// Starts a selection at the caret when extending, drops it otherwise.
    pub open spec fn begin_selection(self, extend: bool) -> EditorModel {
        if extend {
            if self.anchor is None {
                EditorModel { anchor: Some(self.cursor), ..self }
            } else {
                self
            }
        } else {
            EditorModel { anchor: None, ..self }
        }
    }
}

impl EditorModel {
    /// The state after loading `text`: its lines (see `lines_of_text`), the
    /// caret at the start, no selection, no scrolling, no history, no click
    /// count; the rest (such as `dirty`) unchanged.
    pub open spec fn text_set(self, text: Seq<char>) -> EditorModel {
        EditorModel {
            lines: lines_of_text(text),
            cursor: Pos { row: 0, col: 0 },
            anchor: None,
            scroll_row: 0,
            scroll_col: 0,
            undo: Seq::<SnapshotModel>::empty(),
            redo: Seq::<SnapshotModel>::empty(),
            click_count: 0,
            ..self
        }
    }
}

/// A fresh editor with one empty line.
pub open spec fn empty_model() -> EditorModel {
    EditorModel {
        lines: seq![Seq::<char>::empty()],
        cursor: Pos { row: 0, col: 0 },
        anchor: None,
        scroll_row: 0,
        scroll_col: 0,
        dirty: false,
        clipboard: Seq::<char>::empty(),
        undo: Seq::<SnapshotModel>::empty(),
        redo: Seq::<SnapshotModel>::empty(),
        viewport: None,
        tab_width: 2,
        syntax: true,
        click_count: 0,
    }
}

// ── Executable part ─────────────────────────────────────────────────────────

impl TextEditor {
    pub fn empty() -> (ed: Self)
        ensures
            ed@ == empty_model(),
            ed@.wf(),
    {
        let mut lines: Vec<Vec<char>> = Vec::new();
        lines.push(Vec::new());
        let ed = Self {
            lines,
            cursor: Pos::new(0, 0),
            anchor: None,
            scroll_row: 0,
            scroll_col: 0,
            dirty: false,
            clipboard: Vec::new(),
            undo: Vec::new(),
            redo: Vec::new(),
            viewport: None,
            tab_width: 2,
            syntax: true,
            click_count: 0,
        };
        assert(ed@ =~= empty_model());
        ed
    }

    /// Replaces the whole text: tabs become two spaces, the text is cut at
    /// newlines and each line loses its trailing carriage returns. The caret
    /// goes to the start, the selection, scrolling, history and click count
    /// are reset; the `dirty` flag is left as it was.
    pub fn set_text(&mut self, text: &str)
        requires
            old(self)@.wf(),
        ensures
            final(self)@ == old(self)@.text_set(text@),
            final(self)@.wf(),
    {
        let chars = chars_of(text);
        let mut raw: Vec<Vec<char>> = Vec::new();
        let mut cur: Vec<char> = Vec::new();
        let mut i: usize = 0;
        while i < chars.len()
            invariant
                i <= chars@.len(),
                chars@ == text@,
                text_of(raw@).push(cur@) == split_lines(expand_tabs(chars@.take(i as int))),
            decreases chars@.len() - i,
        {
            let c = chars[i];
            let ghost before = chars@.take(i as int);
            proof {
                assert(chars@.take(i + 1).drop_last() =~= before);
                assert(chars@.take(i + 1).last() == c);
                lemma_split_lines_len(expand_tabs(before));
            }
            if c == '\n' {
                let ghost prev = text_of(raw@).push(cur@);
                raw.push(cur);
                cur = Vec::new();
                proof {
                    assert(expand_tabs(chars@.take(i + 1)) =~= expand_tabs(before).push('\n'));
                    assert(expand_tabs(chars@.take(i + 1)).drop_last() =~= expand_tabs(before));
                    assert(text_of(raw@).push(cur@) =~= prev.push(Seq::<char>::empty()));
                }
            } else if c == '\t' {
                let ghost e0 = expand_tabs(before);
                cur.push(' ');
                cur.push(' ');
                proof {
                    let e1 = e0.push(' ');
                    let e2 = e1.push(' ');
                    assert(expand_tabs(chars@.take(i + 1)) =~= e2);
                    assert(e2.drop_last() =~= e1);
                    assert(e1.drop_last() =~= e0);
                    lemma_split_lines_len(e1);
                    assert(text_of(raw@).push(cur@) =~= split_lines(e2));
                }
            } else {
                let ghost e0 = expand_tabs(before);
                cur.push(c);
                proof {
                    assert(expand_tabs(chars@.take(i + 1)) =~= e0.push(c));
                    assert(e0.push(c).drop_last() =~= e0);
                    assert(text_of(raw@).push(cur@) =~= split_lines(e0.push(c)));
                }
            }
            i += 1;
        }
        raw.push(cur);
        proof {
            assert(chars@.take(chars@.len() as int) =~= chars@);
        }
        let mut lines: Vec<Vec<char>> = Vec::new();
        let mut k: usize = 0;
        while k < raw.len()
            invariant
                k <= raw@.len(),
                text_of(lines@) == text_of(raw@).take(k as int).map_values(
                    |l: Seq<char>| trim_cr(l),
                ),
            decreases raw@.len() - k,
        {
            let t = trimmed_cr(&raw[k]);
            let ghost prev = text_of(lines@);
            lines.push(t);
            assert(text_of(lines@) =~= prev.push(trim_cr(raw@[k as int]@)));
            assert(text_of(lines@) =~= text_of(raw@).take(k + 1).map_values(
                |l: Seq<char>| trim_cr(l),
            ));
            k += 1;
        }
        proof {
            assert(text_of(raw@).take(raw@.len() as int) =~= text_of(raw@));
            assert(text_of(lines@) =~= lines_of_text(text@));
            lemma_split_lines_len(expand_tabs(text@));
        }
        self.lines = lines;
        self.cursor = Pos::new(0, 0);
        self.anchor = None;
        self.scroll_row = 0;
        self.scroll_col = 0;
        self.undo = Vec::new();
        self.redo = Vec::new();
        self.click_count = 0;
        proof {
            assert(snaps_of(self.undo@) =~= Seq::<SnapshotModel>::empty());
            assert(snaps_of(self.redo@) =~= Seq::<SnapshotModel>::empty());
        }
    }

    /// The text: the lines joined with newlines.
    pub fn text(&self) -> (s: String)
        ensures
            s@ == self@.text(),
    {
        let mut out: Vec<char> = Vec::new();
        let mut i: usize = 0;
        let ghost ls = self@.lines;
        while i < self.lines.len()
            invariant
                i <= self.lines@.len(),
                ls == text_of(self.lines@),
                out@ == join_lines(ls.take(i as int)),
            decreases self.lines@.len() - i,
        {
            let ghost prev = out@;
            if i > 0 {
                out.push('\n');
            }
            let line = &self.lines[i];
            let mut j: usize = 0;
            while j < line.len()
                invariant
                    j <= line@.len(),
                    line@ == ls[i as int],
                    i < ls.len(),
                    out@ == (if i > 0 { prev + seq!['\n'] } else { prev }) + line@.take(j as int),
                decreases line@.len() - j,
            {
                out.push(line[j]);
                proof {
                    assert(line@.take(j + 1) =~= line@.take(j as int).push(line@[j as int]));
                }
                j += 1;
            }
            proof {
                assert(line@.take(line@.len() as int) =~= line@);
                assert(ls.take(i + 1).drop_last() =~= ls.take(i as int));
                if i == 0 {
                    assert(out@ =~= join_lines(ls.take(1)));
                } else {
                    assert(out@ =~= join_lines(ls.take(i + 1)));
                }
            }
            i += 1;
        }
        proof {
            assert(ls.take(ls.len() as int) =~= ls);
        }
        string_of(&out)
    }

    pub fn cursor_line_col(&self) -> (lc: (usize, usize))
        requires
            self@.wf(),
            self@.cursor.col < usize::MAX,
        ensures
            lc.0 == self@.cursor.row + 1,
            lc.1 == self@.cursor.col + 1,
    {
        let _n = self.lines.len();
        (self.cursor.row + 1, self.cursor.col + 1)
    }

    pub fn line_count(&self) -> (n: usize)
        ensures
            n == self@.lines.len(),
    {
        self.lines.len()
    }

    pub fn has_selection(&self) -> (b: bool)
        ensures
            b == (self@.sel_range() is Some),
    {
        self.selection_range().is_some()
    }

    /// The ordered ends of the selection, if there is one.
    pub fn selection_range(&self) -> (r: Option<(Pos, Pos)>)
        ensures
            r == self@.sel_range(),
    {
        match self.anchor {
            None => None,
            Some(a) => {
                let b = self.cursor;
                if a == b {
                    None
                } else if a.row < b.row || (a.row == b.row && a.col <= b.col) {
                    Some((a, b))
                } else {
                    Some((b, a))
                }
            },
        }
    }

    pub(crate) fn begin_selection(&mut self, extend: bool)
        ensures
            final(self)@ == old(self)@.begin_selection(extend),
    {
        if extend {
            if self.anchor.is_none() {
                self.anchor = Some(self.cursor);
            }
        } else {
            self.anchor = None;
        }
    }

    /// The characters of the selection; empty without one.
    pub fn selected_chars(&self) -> (t: Vec<char>)
        requires
            self@.wf(),
            self@.anchor_ok(),
        ensures
            t@ == self@.selected_text(),
    {
        match self.selection_range() {
            None => Vec::new(),
            Some((s, e)) => {
                let ghost ls = self@.lines;
                let first = &self.lines[s.row];
                if s.row == e.row {
                    return crate::strutil::sub_vec(first, s.col, e.col);
                }
                let n0 = first.len();
                let mut out = crate::strutil::sub_vec(first, s.col, n0);
                out.push('\n');
                let mut r = s.row + 1;
                let ghost base = out@;
                while r < e.row
                    invariant
                        s.row + 1 <= r <= e.row < self.lines@.len(),
                        ls == text_of(self.lines@),
                        out@ == base + lines_with_newlines(ls.subrange(s.row + 1, r as int)),
                    decreases e.row - r,
                {
                    let ghost prev = out@;
                    let line = &self.lines[r];
                    let mut j: usize = 0;
                    while j < line.len()
                        invariant
                            j <= line@.len(),
                            out@ == prev + line@.take(j as int),
                        decreases line@.len() - j,
                    {
                        out.push(line[j]);
                        assert(line@.take(j + 1) =~= line@.take(j as int).push(line@[j as int]));
                        j += 1;
                    }
                    out.push('\n');
                    proof {
                        assert(line@.take(line@.len() as int) =~= line@);
                        let sub1 = ls.subrange(s.row + 1, r + 1);
                        assert(sub1.drop_last() =~= ls.subrange(s.row + 1, r as int));
                        assert(out@ =~= base + lines_with_newlines(sub1));
                    }
                    r += 1;
                }
                let last = crate::strutil::sub_vec(&self.lines[e.row], 0, e.col);
                let res = join_chars(&out, &last);
                proof {
                    assert(res@ =~= text_between(ls, s, e));
                }
                res
            },
        }
    }

    /// The selected text; empty without a selection.
    pub fn selected_text(&self) -> (t: String)
        requires
            self@.wf(),
            self@.anchor_ok(),
        ensures
            t@ == self@.selected_text(),
    {
        let v = self.selected_chars();
        string_of(&v)
    }

    /// Saves the current text and caret for undo.
    pub(crate) fn push_undo(&mut self)
        requires
            old(self)@.wf(),
        ensures
            final(self)@ == old(self)@.push_undo(),
            final(self)@.wf(),
    {
        let snap = Snapshot { lines: clone_lines(&self.lines), cursor: self.cursor };
        let ghost u0 = snaps_of(self.undo@);
        self.undo.push(snap);
        proof {
            assert(snaps_of(self.undo@) =~= u0.push(old(self)@.snapshot()));
        }
        if self.undo.len() > UNDO_LIMIT {
            let ghost u1 = snaps_of(self.undo@);
            self.undo.remove(0);
            assert(snaps_of(self.undo@) =~= u1.drop_first());
        }
        self.redo.clear();
        proof {
            assert(snaps_of(self.redo@) =~= Seq::<SnapshotModel>::empty());
            assert(self@ =~= old(self)@.push_undo());
        }
    }

    /// Cuts out the selection, if any (saving a snapshot first), and tells
    /// whether there was one.
    pub(crate) fn delete_selection(&mut self) -> (deleted: bool)
        requires
            old(self)@.wf(),
            old(self)@.anchor_ok(),
        ensures
            final(self)@ == old(self)@.delete_selection(),
            final(self)@.wf(),
            deleted == (old(self)@.sel_range() is Some),
    {
        let Some((start, end)) = self.selection_range() else { return false };
        let ghost m0 = self@;
        self.push_undo();
        let head = {
            let l = &self.lines[start.row];
            let n = l.len();
            let c = if start.col < n { start.col } else { n };
            slice_of(l, 0, c)
        };
        let tail = {
            let l = &self.lines[end.row];
            let n = l.len();
            let c = if end.col < n { end.col } else { n };
            slice_of(l, c, n)
        };
        let joined = join_chars(&head, &tail);
        let mut mid: Vec<Vec<char>> = Vec::new();
        mid.push(joined);
        let new_lines = splice_lines(&self.lines, start.row, end.row, mid);
        self.lines = new_lines;
        self.cursor = start;
        self.anchor = None;
        self.dirty = true;
        proof {
            let ls = m0.lines;
            assert(text_of(mid@) =~= seq![ls[start.row as int].take(clamp(start.col as int, ls[start.row as int].len())) + ls[end.row as int].skip(clamp(end.col as int, ls[end.row as int].len()))]);
            assert(text_of(self.lines@) =~= lines_without(ls, start, end));
            assert(self@ =~= m0.delete_selection());
        }
        true
    }

    // ── Scrolling ───────────────────────────────────────────────────────────

    /// Scrolls so the caret row shows, with a margin of a few rows.
    pub(crate) fn ensure_row_visible(&mut self)
        requires
            old(self)@.wf(),
        ensures
            final(self)@ == old(self)@.row_visible(),
    {
        let Some(v) = self.viewport else { return };
        let vis = v.visible_rows as u128;
        let row = self.cursor.row as u128;
        let margin: u128 = if (SCROLL_ROW_MARGIN as u128) < vis / 2 {
            SCROLL_ROW_MARGIN as u128
        } else {
            vis / 2
        };
        let sr = self.scroll_row as u128;
        let sr1: u128 = if row < sr + margin {
            if row > margin {
                row - margin
            } else {
                0
            }
        } else if row + margin >= sr + vis {
            if row + margin + 1 > vis {
                row + margin + 1 - vis
            } else {
                0
            }
        } else {
            sr
        };
        let last = (self.lines.len() - 1) as u128;
        let sr2 = if sr1 < last {
            sr1
        } else {
            last
        };
        self.scroll_row = sr2 as usize;
        proof {
            assert(self@ =~= old(self)@.row_visible());
        }
    }

    /// Scrolls so the caret column shows, with a margin of a few columns.
    pub(crate) fn ensure_col_visible(&mut self)
        ensures
            final(self)@ == old(self)@.col_visible(),
    {
        let Some(v) = self.viewport else { return };
        let vc = v.visible_cols as u128;
        let col = self.cursor.col as u128;
        let margin = SCROLL_COL_MARGIN as u128;
        let sc = self.scroll_col as u128;
        let sc1: u128 = if col < sc + margin {
            if col > margin {
                col - margin
            } else {
                0
            }
        } else if col + margin >= sc + vc {
            if col + margin + 1 > vc {
                col + margin + 1 - vc
            } else {
                0
            }
        } else {
            sc
        };
        let sc2 = if sc1 < usize::MAX as u128 {
            sc1
        } else {
            usize::MAX as u128
        };
        self.scroll_col = sc2 as usize;
        proof {
            assert(self@ =~= old(self)@.col_visible());
        }
    }

    /// Scrolls both ways so the caret shows. Call after any caret move.
    pub(crate) fn ensure_visible_default(&mut self)
        requires
            old(self)@.wf(),
        ensures
            final(self)@ == old(self)@.visible(),
    {
        self.ensure_row_visible();
        self.ensure_col_visible();
    }

    /// Scrolls to show row `row` (at most the last line) without moving the
    /// caret.
    pub fn scroll_to_row(&mut self, row: usize)
        requires
            old(self)@.wf(),
        ensures
            final(self)@ == (EditorModel {
                scroll_row: if row < old(self)@.last_row() {
                    row
                } else {
                    old(self)@.last_row() as usize
                },
                ..old(self)@
            }),
    {
        let last = self.lines.len() - 1;
        self.scroll_row = if row < last {
            row
        } else {
            last
        };
        proof {
            assert(self@ =~= (EditorModel {
                scroll_row: if row < old(self)@.last_row() {
                    row
                } else {
                    old(self)@.last_row() as usize
                },
                ..old(self)@
            }));
        }
    }

    /// Scrolls by `delta` rows (down when positive, up when negative), never
    /// above the first line nor below the last.
    pub fn scroll_by_rows(&mut self, delta: i32)
        requires
            old(self)@.wf(),
        ensures
            final(self)@ == (EditorModel {
                scroll_row: scroll_rows_target(
                    old(self)@.scroll_row as int,
                    delta as int,
                    old(self)@.last_row(),
                ) as usize,
                ..old(self)@
            }),
    {
        let last = (self.lines.len() - 1) as i128;
        let target = (self.scroll_row as i128) + (delta as i128);
        let r: i128 = if delta < 0 {
            if target > 0 {
                target
            } else {
                0
            }
        } else if target < last {
            target
        } else {
            last
        };
        self.scroll_row = r as usize;
        proof {
            assert(self@ =~= (EditorModel {
                scroll_row: scroll_rows_target(
                    old(self)@.scroll_row as int,
                    delta as int,
                    old(self)@.last_row(),
                ) as usize,
                ..old(self)@
            }));
        }
    }

    /// The length of the longest line.
    pub fn max_line_chars(&self) -> (m: usize)
        ensures
            m == max_line_len(self@.lines),
    {
        let ghost ls = self@.lines;
        let mut m: usize = 0;
        let mut i: usize = 0;
        while i < self.lines.len()
            invariant
                i <= self.lines@.len(),
                ls == text_of(self.lines@),
                m == max_line_len(ls.take(i as int)),
            decreases self.lines@.len() - i,
        {
            let n = self.lines[i].len();
            proof {
                assert(ls.take(i + 1).drop_last() =~= ls.take(i as int));
            }
            if m < n {
                m = n;
            }
            i += 1;
        }
        proof {
            assert(ls.take(ls.len() as int) =~= ls);
        }
        m
    }

    /// Scrolls by `delta` columns (right when positive, left when
    /// negative), never left of the first column nor right of the longest
    /// line's end.
    pub fn scroll_by_cols(&mut self, delta: i32)
        requires
            old(self)@.wf(),
        ensures
            final(self)@ == (EditorModel {
                scroll_col: scroll_cols_target(
                    old(self)@.scroll_col as int,
                    delta as int,
                    max_line_len(old(self)@.lines) as int,
                ) as usize,
                ..old(self)@
            }),
    {
        let target = (self.scroll_col as i128) + (delta as i128);
        let r: i128 = if delta < 0 {
            if target > 0 {
                target
            } else {
                0
            }
        } else {
            let max_col = self.max_line_chars() as i128;
            if target < max_col {
                target
            } else {
                max_col
            }
        };
        self.scroll_col = r as usize;
        proof {
            assert(self@ =~= (EditorModel {
                scroll_col: scroll_cols_target(
                    old(self)@.scroll_col as int,
                    delta as int,
                    max_line_len(old(self)@.lines) as int,
                ) as usize,
                ..old(self)@
            }));
        }
    }

    /// The text position under the visible cell `vi` rows below the top of
    /// the view and `col_offset` columns right of its left edge, clamped to
    /// the text.
    pub fn pos_from_cell(&self, vi: usize, col_offset: usize) -> (p: Pos)
        requires
            self@.wf(),
        ensures
            p == cell_pos(self@, vi as int, col_offset as int),
            p.row < self@.lines.len(),
            p.col <= self@.line_len(p.row as int),
    {
        let last = (self.lines.len() - 1) as u128;
        let r0 = (self.scroll_row as u128) + (vi as u128);
        let row = if r0 < last {
            r0
        } else {
            last
        } as usize;
        let n = self.lines[row].len() as u128;
        let c0 = (self.scroll_col as u128) + (col_offset as u128);
        let col = if c0 < n {
            c0
        } else {
            n
        } as usize;
        Pos::new(row, col)
    }

    /// Records how much text fits on screen and clamps the scroll offsets:
    /// at most the last line vertically, and horizontally at most the width
    /// that the longest line overhangs the view when it does
    /// (`needs_hscroll`), else zero.
    pub fn set_viewport(&mut self, visible_rows: usize, visible_cols: usize, needs_hscroll: bool)
        requires
            old(self)@.wf(),
        ensures
            final(self)@ == viewport_set(old(self)@, visible_rows, visible_cols, needs_hscroll),
            final(self)@.wf(),
    {
        let last = self.lines.len() - 1;
        if self.scroll_row > last {
            self.scroll_row = last;
        }
        let max_chars = self.max_line_chars();
        let max_scroll_col = if needs_hscroll {
            if max_chars > visible_cols {
                max_chars - visible_cols
            } else {
                0
            }
        } else {
            0
        };
        if self.scroll_col > max_scroll_col {
            self.scroll_col = max_scroll_col;
        }
        self.viewport = Some(Viewport { visible_rows, visible_cols });
        proof {
            assert(self@ =~= viewport_set(old(self)@, visible_rows, visible_cols, needs_hscroll));
        }
    }

    // ── Read access for drawing ─────────────────────────────────────────────

    pub fn cursor(&self) -> (p: Pos)
        ensures
            p == self@.cursor,
    {
        self.cursor
    }

    pub fn anchor(&self) -> (a: Option<Pos>)
        ensures
            a == self@.anchor,
    {
        self.anchor
    }

    pub fn scroll_row(&self) -> (r: usize)
        ensures
            r == self@.scroll_row,
    {
        self.scroll_row
    }

    pub fn scroll_col(&self) -> (c: usize)
        ensures
            c == self@.scroll_col,
    {
        self.scroll_col
    }

    pub fn viewport(&self) -> (v: Option<Viewport>)
        ensures
            v == self@.viewport,
    {
        self.viewport
    }

    pub fn click_count(&self) -> (n: u32)
        ensures
            n == self@.click_count,
    {
        self.click_count
    }

    /// The characters of line `row`.
    pub fn line_chars(&self, row: usize) -> (l: &Vec<char>)
        requires
            row < self@.lines.len(),
        ensures
            l@ == self@.lines[row as int],
    {
        &self.lines[row]
    }

    /// Line `row` as a string.
    pub fn line(&self, row: usize) -> (l: String)
        requires
            row < self@.lines.len(),
        ensures
            l@ == self@.lines[row as int],
    {
        string_of(&self.lines[row])
    }

    /// The number of characters of line `row`.
    pub fn line_len(&self, row: usize) -> (n: usize)
        requires
            row < self@.lines.len(),
        ensures
            n == self@.lines[row as int].len(),
    {
        self.lines[row].len()
    }

    /// The clipboard contents.
    pub fn clipboard(&self) -> (c: String)
        ensures
            c@ == self@.clipboard,
    {
        string_of(&self.clipboard)
    }

    /// Whether undo has something to restore.
    /// Whether the text changed since it was loaded or saved (the `dirty`
    /// field).
    pub fn is_dirty(&self) -> (b: bool)
        ensures
            b == self@.dirty,
    {
        self.dirty
    }

    pub fn can_undo(&self) -> (b: bool)
        ensures
            b == (self@.undo.len() > 0),
    {
        self.undo.len() > 0
    }

    /// Whether redo has something to restore.
    pub fn can_redo(&self) -> (b: bool)
        ensures
            b == (self@.redo.len() > 0),
    {
        self.redo.len() > 0
    }

    /// The rows to draw for a view `vis_rows` tall: from the first scrolled
    /// row up to (not including) the returned end, at most the line count.
    pub fn visible_row_end(&self, vis_rows: usize) -> (end: usize)
        ensures
            end == (if self@.scroll_row + vis_rows < self@.lines.len() {
                self@.scroll_row + vis_rows
            } else {
                self@.lines.len() as int
            }),
    {
        let n = self.lines.len() as u128;
        let e = (self.scroll_row as u128) + (vis_rows as u128);
        if e < n {
            e as usize
        } else {
            self.lines.len()
        }
    }

    /// The columns of line `row` that the selection covers, if it touches
    /// that row: from the selection start (or 0) to the selection end (or
    /// one past the line's end, to show the newline).
    pub fn row_selection(&self, row: usize) -> (r: Option<(usize, usize)>)
        requires
            self@.wf(),
            row < self@.lines.len(),
        ensures
            r == row_selection_cols(self@, row as int),
    {
        match self.selection_range() {
            None => None,
            Some((s, e)) => {
                if row >= s.row && row <= e.row {
                    let sc = if row == s.row {
                        s.col
                    } else {
                        0
                    };
                    let ec = if row == e.row {
                        e.col
                    } else {
                        let n = self.lines[row].len() as u128 + 1;
                        if n < usize::MAX as u128 {
                            n as usize
                        } else {
                            usize::MAX
                        }
                    };
                    Some((sc, ec))
                } else {
                    None
                }
            },
        }
    }
}

/// Where `trimmed_cr` keeps a line: all of it but the trailing carriage
/// returns.
fn trimmed_cr(l: &Vec<char>) -> (r: Vec<char>)
    ensures
        r@ == trim_cr(l@),
{
    let mut n = l.len();
    assert(l@.take(n as int) =~= l@);
    while n > 0 && l[n - 1] == '\r'
        invariant
            n <= l@.len(),
            trim_cr(l@) == trim_cr(l@.take(n as int)),
        decreases n,
    {
        proof {
            assert(l@.take(n as int).drop_last() =~= l@.take(n - 1));
        }
        n -= 1;
    }
    proof {
        if n > 0 {
            assert(l@.take(n as int).last() == l@[n - 1]);
        }
    }
    slice_of(l, 0, n)
}

/// Where scrolling `sr` by `delta` rows lands, between 0 and `last`.
pub open spec fn scroll_rows_target(sr: int, delta: int, last: int) -> int {
    if delta < 0 {
        if sr + delta > 0 {
            sr + delta
        } else {
            0
        }
    } else if sr + delta < last {
        sr + delta
    } else {
        last
    }
}

/// Where scrolling `sc` by `delta` columns lands, between 0 and `max_col`.
pub open spec fn scroll_cols_target(sc: int, delta: int, max_col: int) -> int {
    if delta < 0 {
        if sc + delta > 0 {
            sc + delta
        } else {
            0
        }
    } else if sc + delta < max_col {
        sc + delta
    } else {
        max_col
    }
}

/// The text position of a visible cell (see `TextEditor::pos_from_cell`).
pub open spec fn cell_pos(m: EditorModel, vi: int, col_offset: int) -> Pos {
    let r0 = m.scroll_row + vi;
    let row = if r0 < m.last_row() {
        r0
    } else {
        m.last_row()
    };
    let c0 = m.scroll_col + col_offset;
    let n = m.lines[row].len() as int;
    let col = if c0 < n {
        c0
    } else {
        n
    };
    Pos { row: row as usize, col: col as usize }
}

/// The state after `TextEditor::set_viewport`.
pub open spec fn viewport_set(
    m: EditorModel,
    visible_rows: usize,
    visible_cols: usize,
    needs_hscroll: bool,
) -> EditorModel {
    let max_scroll_col: int = if needs_hscroll {
        if max_line_len(m.lines) > visible_cols {
            max_line_len(m.lines) - visible_cols
        } else {
            0
        }
    } else {
        0
    };
    EditorModel {
        viewport: Some(Viewport { visible_rows, visible_cols }),
        scroll_row: if m.scroll_row > m.last_row() {
            m.last_row() as usize
        } else {
            m.scroll_row
        },
        scroll_col: if m.scroll_col > max_scroll_col {
            max_scroll_col as usize
        } else {
            m.scroll_col
        },
        ..m
    }
}

/// The selected columns of row `row` (see `TextEditor::row_selection`).
pub open spec fn row_selection_cols(m: EditorModel, row: int) -> Option<(usize, usize)> {
    match m.sel_range() {
        None => None,
        Some((s, e)) => if s.row <= row <= e.row {
            let sc = if row == s.row {
                s.col
            } else {
                0
            };
            let n = m.lines[row].len() + 1;
            let ec = if row == e.row {
                e.col
            } else if n < usize::MAX {
                n as usize
            } else {
                usize::MAX
            };
            Some((sc, ec))
        } else {
            None
        },
    }
}

} // verus!
