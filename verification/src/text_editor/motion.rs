//! Caret motion, with or without extending the selection, and pointer
//! clicks and drags on text positions.
use vstd::prelude::*;
use super::model::{
    leading_spaces, lemma_leading_spaces, lemma_skip_bounds, skip_nonspaces_back,
    skip_nonspaces_fwd, skip_spaces_back, skip_spaces_fwd, skip_word_back, skip_word_fwd,
};
use super::{EditorModel, Pos, TextEditor, DEFAULT_PAGE_ROWS};
use crate::strutil::char_is_word;

verus! {

impl EditorModel {
    /// The caret at `p`, the rest unchanged.
    pub open spec fn with_cursor(self, p: Pos) -> EditorModel {
        EditorModel { cursor: p, ..self }
    }

    pub open spec fn moved_left(self, extend: bool) -> EditorModel {
        let m = self.begin_selection(extend);
        let c = m.cursor;
        let p = if c.col > 0 {
            Pos { row: c.row, col: (c.col - 1) as usize }
        } else if c.row > 0 {
            Pos { row: (c.row - 1) as usize, col: m.lines[c.row - 1].len() as usize }
        } else {
            c
        };
        m.with_cursor(p).visible()
    }

    pub open spec fn moved_right(self, extend: bool) -> EditorModel {
        let m = self.begin_selection(extend);
        let c = m.cursor;
        let p = if c.col < m.lines[c.row as int].len() {
            Pos { row: c.row, col: (c.col + 1) as usize }
        } else if c.row + 1 < m.lines.len() {
            Pos { row: (c.row + 1) as usize, col: 0 }
        } else {
            c
        };
        m.with_cursor(p).visible()
    }

    /// Column `col` kept on line `row`: clamped to its length.
    pub open spec fn col_on(self, row: int, col: usize) -> usize {
        if col < self.lines[row].len() {
            col
        } else {
            self.lines[row].len() as usize
        }
    }

    pub open spec fn moved_up(self, extend: bool) -> EditorModel {
        let m = self.begin_selection(extend);
        let c = m.cursor;
        let p = if c.row > 0 {
            Pos { row: (c.row - 1) as usize, col: m.col_on(c.row - 1, c.col) }
        } else {
            c
        };
        m.with_cursor(p).visible()
    }

    pub open spec fn moved_down(self, extend: bool) -> EditorModel {
        let m = self.begin_selection(extend);
        let c = m.cursor;
        let p = if c.row + 1 < m.lines.len() {
            Pos { row: (c.row + 1) as usize, col: m.col_on(c.row + 1, c.col) }
        } else {
            c
        };
        m.with_cursor(p).visible()
    }

    /// Home toggles between the end of the indentation and the line start.
    pub open spec fn moved_home(self, extend: bool) -> EditorModel {
        let m = self.begin_selection(extend);
        let c = m.cursor;
        let indent = leading_spaces(m.lines[c.row as int]);
        let col = if c.col == indent {
            0
        } else {
            indent
        };
        m.with_cursor(Pos { row: c.row, col: col as usize }).col_visible()
    }

    pub open spec fn moved_end(self, extend: bool) -> EditorModel {
        let m = self.begin_selection(extend);
        let c = m.cursor;
        m.with_cursor(Pos { row: c.row, col: m.lines[c.row as int].len() as usize }).col_visible()
    }

    pub open spec fn moved_file_start(self, extend: bool) -> EditorModel {
        let m = self.begin_selection(extend);
        EditorModel { cursor: Pos { row: 0, col: 0 }, scroll_row: 0, scroll_col: 0, ..m }
    }

    pub open spec fn moved_file_end(self, extend: bool) -> EditorModel {
        let m = self.begin_selection(extend);
        let last = m.lines.len() - 1;
        m.with_cursor(Pos { row: last as usize, col: m.lines[last].len() as usize }).visible()
    }

    /// Rows a page moves: the visible rows less two, at least one.
    pub open spec fn page_rows(self) -> int {
        let vis = match self.viewport {
            Some(v) => v.visible_rows as int,
            None => DEFAULT_PAGE_ROWS as int,
        };
        if vis - 2 > 1 {
            vis - 2
        } else {
            1
        }
    }

    pub open spec fn paged_up(self, extend: bool) -> EditorModel {
        let m = self.begin_selection(extend);
        let c = m.cursor;
        let r = if c.row - m.page_rows() > 0 {
            c.row - m.page_rows()
        } else {
            0
        };
        m.with_cursor(Pos { row: r as usize, col: m.col_on(r, c.col) }).visible()
    }

    pub open spec fn paged_down(self, extend: bool) -> EditorModel {
        let m = self.begin_selection(extend);
        let c = m.cursor;
        let last = m.lines.len() - 1;
        let r = if c.row + m.page_rows() < last {
            c.row + m.page_rows()
        } else {
            last
        };
        m.with_cursor(Pos { row: r as usize, col: m.col_on(r, c.col) }).visible()
    }

    /// Word left: at a line start, to the end of the line above; else back
    /// over spaces, then back over the word before them.
    pub open spec fn moved_word_left(self, extend: bool) -> EditorModel {
        let m = self.begin_selection(extend);
        let c = m.cursor;
        let l = m.lines[c.row as int];
        let p = if c.col == 0 {
            if c.row > 0 {
                Pos { row: (c.row - 1) as usize, col: m.lines[c.row - 1].len() as usize }
            } else {
                c
            }
        } else {
            Pos {
                row: c.row,
                col: skip_nonspaces_back(l, skip_spaces_back(l, c.col as int)) as usize,
            }
        };
        m.with_cursor(p).visible()
    }

    /// Word right: at a line end, to the start of the next line; else over
    /// the rest of the word, then over the spaces after it.
    pub open spec fn moved_word_right(self, extend: bool) -> EditorModel {
        let m = self.begin_selection(extend);
        let c = m.cursor;
        let l = m.lines[c.row as int];
        let p = if c.col >= l.len() {
            if c.row + 1 < m.lines.len() {
                Pos { row: (c.row + 1) as usize, col: 0 }
            } else {
                c
            }
        } else {
            Pos {
                row: c.row,
                col: skip_spaces_fwd(l, skip_nonspaces_fwd(l, c.col as int)) as usize,
            }
        };
        m.with_cursor(p).visible()
    }

    /// Selects the word under the caret (or the one character there when it
    /// is not a word character).
    pub open spec fn word_selected(self) -> EditorModel {
        let c = self.cursor;
        let l = self.lines[c.row as int];
        let col = self.col_on(c.row as int, c.col) as int;
        let (start, end) = if col < l.len() && crate::strutil::is_word_char(l[col]) {
            (skip_word_back(l, col), skip_word_fwd(l, col))
        } else if col < l.len() {
            (col, col + 1)
        } else {
            (col, col)
        };
        EditorModel {
            anchor: Some(Pos { row: c.row, col: start as usize }),
            cursor: Pos { row: c.row, col: end as usize },
            ..self
        }
    }

    /// Selects the caret's line, without its newline.
    pub open spec fn caret_line_selected(self) -> EditorModel {
        let c = self.cursor;
        EditorModel {
            anchor: Some(Pos { row: c.row, col: 0 }),
            cursor: Pos { row: c.row, col: self.lines[c.row as int].len() as usize },
            ..self
        }
    }

    /// A click: counts repeated clicks (`repeat` when it follows the last
    /// one closely in time and place); on a text position it moves the caret
    /// there, and a double click selects the word, a triple click the line.
    pub open spec fn clicked(self, pos: Option<Pos>, repeat: bool, extend: bool) -> EditorModel {
        let count: u32 = if repeat {
            (self.click_count + 1) as u32
        } else {
            1
        };
        let m = EditorModel { click_count: count, ..self };
        let m2 = match pos {
            None => m,
            Some(p) => {
                let m1 = m.begin_selection(extend).with_cursor(p);
                if count == 2 {
                    m1.word_selected()
                } else if count == 3 {
                    m1.caret_line_selected()
                } else {
                    m1
                }
            },
        };
        m2.visible()
    }

    /// A drag: the selection starts at the caret if none is under way, and
    /// the caret follows the pointer when it is over text.
    pub open spec fn dragged(self, pos: Option<Pos>) -> EditorModel {
        let m = if self.anchor is None {
            EditorModel { anchor: Some(self.cursor), ..self }
        } else {
            self
        };
        let m1 = match pos {
            None => m,
            Some(p) => m.with_cursor(p),
        };
        m1.visible()
    }
}

impl TextEditor {
    pub fn move_left(&mut self, extend: bool)
        requires
            old(self)@.wf(),
        ensures
            final(self)@ == old(self)@.moved_left(extend),
            final(self)@.wf(),
    {
        self.begin_selection(extend);
        if self.cursor.col > 0 {
            self.cursor.col -= 1;
        } else if self.cursor.row > 0 {
            self.cursor.row -= 1;
            self.cursor.col = self.lines[self.cursor.row].len();
        }
        proof {
            let m = old(self)@.begin_selection(extend);
            assert(self@ =~= m.with_cursor(self.cursor));
        }
        self.ensure_visible_default();
    }

    pub fn move_right(&mut self, extend: bool)
        requires
            old(self)@.wf(),
        ensures
            final(self)@ == old(self)@.moved_right(extend),
            final(self)@.wf(),
    {
        self.begin_selection(extend);
        let len = self.lines[self.cursor.row].len();
        if self.cursor.col < len {
            self.cursor.col += 1;
        } else if self.cursor.row < self.lines.len() - 1 {
            self.cursor.row += 1;
            self.cursor.col = 0;
        }
        proof {
            let m = old(self)@.begin_selection(extend);
            assert(self@ =~= m.with_cursor(self.cursor));
        }
        self.ensure_visible_default();
    }

    fn col_on(&self, row: usize, col: usize) -> (c: usize)
        requires
            row < self@.lines.len(),
        ensures
            c == self@.col_on(row as int, col),
    {
        let len = self.lines[row].len();
        if col < len {
            col
        } else {
            len
        }
    }

    pub fn move_up(&mut self, extend: bool)
        requires
            old(self)@.wf(),
        ensures
            final(self)@ == old(self)@.moved_up(extend),
            final(self)@.wf(),
    {
        self.begin_selection(extend);
        if self.cursor.row > 0 {
            let r = self.cursor.row - 1;
            let c = self.col_on(r, self.cursor.col);
            self.cursor = Pos::new(r, c);
        }
        proof {
            let m = old(self)@.begin_selection(extend);
            assert(self@ =~= m.with_cursor(self.cursor));
        }
        self.ensure_visible_default();
    }

    pub fn move_down(&mut self, extend: bool)
        requires
            old(self)@.wf(),
        ensures
            final(self)@ == old(self)@.moved_down(extend),
            final(self)@.wf(),
    {
        self.begin_selection(extend);
        if self.cursor.row < self.lines.len() - 1 {
            let r = self.cursor.row + 1;
            let c = self.col_on(r, self.cursor.col);
            self.cursor = Pos::new(r, c);
        }
        proof {
            let m = old(self)@.begin_selection(extend);
            assert(self@ =~= m.with_cursor(self.cursor));
        }
        self.ensure_visible_default();
    }

    pub fn move_home(&mut self, extend: bool)
        requires
            old(self)@.wf(),
        ensures
            final(self)@ == old(self)@.moved_home(extend),
            final(self)@.wf(),
    {
        self.begin_selection(extend);
        let indent = indent_of(&self.lines[self.cursor.row]);
        self.cursor.col = if self.cursor.col == indent {
            0
        } else {
            indent
        };
        proof {
            let m = old(self)@.begin_selection(extend);
            assert(self@ =~= m.with_cursor(self.cursor));
        }
        self.ensure_col_visible();
    }

    pub fn move_end(&mut self, extend: bool)
        requires
            old(self)@.wf(),
        ensures
            final(self)@ == old(self)@.moved_end(extend),
            final(self)@.wf(),
    {
        self.begin_selection(extend);
        self.cursor.col = self.lines[self.cursor.row].len();
        proof {
            let m = old(self)@.begin_selection(extend);
            assert(self@ =~= m.with_cursor(self.cursor));
        }
        self.ensure_col_visible();
    }

    pub fn move_file_start(&mut self, extend: bool)
        requires
            old(self)@.wf(),
        ensures
            final(self)@ == old(self)@.moved_file_start(extend),
            final(self)@.wf(),
    {
        self.begin_selection(extend);
        self.cursor = Pos::new(0, 0);
        self.scroll_row = 0;
        self.scroll_col = 0;
        proof {
            assert(self@ =~= old(self)@.moved_file_start(extend));
        }
    }

    pub fn move_file_end(&mut self, extend: bool)
        requires
            old(self)@.wf(),
        ensures
            final(self)@ == old(self)@.moved_file_end(extend),
            final(self)@.wf(),
    {
        self.begin_selection(extend);
        let row = self.lines.len() - 1;
        let col = self.lines[row].len();
        self.cursor = Pos::new(row, col);
        proof {
            let m = old(self)@.begin_selection(extend);
            assert(self@ =~= m.with_cursor(self.cursor));
        }
        self.ensure_visible_default();
    }

    fn page_rows(&self) -> (d: usize)
        ensures
            d == self@.page_rows(),
            d >= 1,
    {
        let vis = match self.viewport {
            Some(v) => v.visible_rows,
            None => DEFAULT_PAGE_ROWS,
        };
        if vis > 3 {
            vis - 2
        } else {
            1
        }
    }

    pub fn page_up(&mut self, extend: bool)
        requires
            old(self)@.wf(),
        ensures
            final(self)@ == old(self)@.paged_up(extend),
            final(self)@.wf(),
    {
        self.begin_selection(extend);
        let delta = self.page_rows();
        let r = if self.cursor.row > delta {
            self.cursor.row - delta
        } else {
            0
        };
        let c = self.col_on(r, self.cursor.col);
        self.cursor = Pos::new(r, c);
        proof {
            let m = old(self)@.begin_selection(extend);
            assert(self@ =~= m.with_cursor(self.cursor));
        }
        self.ensure_visible_default();
    }

    pub fn page_down(&mut self, extend: bool)
        requires
            old(self)@.wf(),
        ensures
            final(self)@ == old(self)@.paged_down(extend),
            final(self)@.wf(),
    {
        self.begin_selection(extend);
        let delta = self.page_rows();
        let last = self.lines.len() - 1;
        let r = if self.cursor.row < last && last - self.cursor.row > delta {
            self.cursor.row + delta
        } else {
            last
        };
        let c = self.col_on(r, self.cursor.col);
        self.cursor = Pos::new(r, c);
        proof {
            let m = old(self)@.begin_selection(extend);
            assert(self@ =~= m.with_cursor(self.cursor));
        }
        self.ensure_visible_default();
    }

    /// Moves to the start of the word before the caret. With the caret past
    /// the end of its line (possible after uncommenting), this reads past
    /// the line and is left out by the `requires`.
    pub fn move_word_left(&mut self, extend: bool)
        requires
            old(self)@.wf(),
            old(self)@.cursor.col <= old(self)@.line_len(old(self)@.cursor.row as int),
        ensures
            final(self)@ == old(self)@.moved_word_left(extend),
            final(self)@.wf(),
    {
        self.begin_selection(extend);
        if self.cursor.col == 0 {
            if self.cursor.row > 0 {
                self.cursor.row -= 1;
                self.cursor.col = self.lines[self.cursor.row].len();
            }
        } else {
            let line = &self.lines[self.cursor.row];
            let c = word_start_before(line, self.cursor.col);
            self.cursor.col = c;
        }
        proof {
            let m = old(self)@.begin_selection(extend);
            assert(self@ =~= m.with_cursor(self.cursor));
        }
        self.ensure_visible_default();
    }

    pub fn move_word_right(&mut self, extend: bool)
        requires
            old(self)@.wf(),
        ensures
            final(self)@ == old(self)@.moved_word_right(extend),
            final(self)@.wf(),
    {
        self.begin_selection(extend);
        let len = self.lines[self.cursor.row].len();
        if self.cursor.col >= len {
            if self.cursor.row < self.lines.len() - 1 {
                self.cursor.row += 1;
                self.cursor.col = 0;
            }
        } else {
            let line = &self.lines[self.cursor.row];
            let c = word_end_after(line, self.cursor.col);
            self.cursor.col = c;
        }
        proof {
            let m = old(self)@.begin_selection(extend);
            assert(self@ =~= m.with_cursor(self.cursor));
        }
        self.ensure_visible_default();
    }

    /// A click on the text. `pos` is the text position under the pointer
    /// (none when the pointer is outside the text area), `repeat` whether
    /// this click closely follows the previous one in time and place.
    pub fn click(&mut self, pos: Option<Pos>, repeat: bool, extend: bool)
        requires
            old(self)@.wf(),
            pos matches Some(p) ==> p.row < old(self)@.lines.len(),
            repeat ==> old(self)@.click_count < u32::MAX,
        ensures
            final(self)@ == old(self)@.clicked(pos, repeat, extend),
            final(self)@.wf(),
    {
        if repeat {
            self.click_count += 1;
        } else {
            self.click_count = 1;
        }
        if let Some(p) = pos {
            self.begin_selection(extend);
            self.cursor = p;
            if self.click_count == 2 {
                self.select_word_at_cursor();
            } else if self.click_count == 3 {
                self.select_line_at_cursor();
            }
        }
        proof {
            let count: u32 = if repeat {
                (old(self)@.click_count + 1) as u32
            } else {
                1
            };
            let m = EditorModel { click_count: count, ..old(self)@ };
            match pos {
                None => {
                    assert(self@ =~= m);
                },
                Some(p) => {
                    let m1 = m.begin_selection(extend).with_cursor(p);
                    if count == 2 {
                        assert(self@ =~= m1.word_selected());
                    } else if count == 3 {
                        assert(self@ =~= m1.caret_line_selected());
                    } else {
                        assert(self@ =~= m1);
                    }
                },
            }
        }
        self.ensure_visible_default();
    }

    /// A drag to the text position `pos` (none when the pointer is outside
    /// the text area).
    pub fn drag_to(&mut self, pos: Option<Pos>)
        requires
            old(self)@.wf(),
            pos matches Some(p) ==> p.row < old(self)@.lines.len(),
        ensures
            final(self)@ == old(self)@.dragged(pos),
            final(self)@.wf(),
    {
        if self.anchor.is_none() {
            self.anchor = Some(self.cursor);
        }
        if let Some(p) = pos {
            self.cursor = p;
        }
        proof {
            let m = if old(self)@.anchor is None {
                EditorModel { anchor: Some(old(self)@.cursor), ..old(self)@ }
            } else {
                old(self)@
            };
            match pos {
                None => assert(self@ =~= m),
                Some(p) => assert(self@ =~= m.with_cursor(p)),
            }
        }
        self.ensure_visible_default();
    }

    fn select_word_at_cursor(&mut self)
        requires
            old(self)@.wf(),
        ensures
            final(self)@ == old(self)@.word_selected(),
            final(self)@.wf(),
    {
        let row = self.cursor.row;
        let col = self.col_on(row, self.cursor.col);
        let line = &self.lines[row];
        let n = line.len();
        let ghost l = line@;
        let mut start = col;
        let mut end = col;
        if col < n && char_is_word(line[col]) {
            while start > 0 && char_is_word(line[start - 1])
                invariant
                    start <= col < n == l.len(),
                    l == line@,
                    skip_word_back(l, start as int) == skip_word_back(l, col as int),
                decreases start,
            {
                start -= 1;
            }
            while end < n && char_is_word(line[end])
                invariant
                    col <= end <= n == l.len(),
                    l == line@,
                    skip_word_fwd(l, end as int) == skip_word_fwd(l, col as int),
                decreases n - end,
            {
                end += 1;
            }
        } else if col < n {
            end = col + 1;
        }
        self.anchor = Some(Pos::new(row, start));
        self.cursor.col = end;
        proof {
            assert(self@ =~= old(self)@.word_selected());
        }
    }

    fn select_line_at_cursor(&mut self)
        requires
            old(self)@.wf(),
        ensures
            final(self)@ == old(self)@.caret_line_selected(),
            final(self)@.wf(),
    {
        let row = self.cursor.row;
        self.anchor = Some(Pos::new(row, 0));
        self.cursor.col = self.lines[row].len();
        proof {
            assert(self@ =~= old(self)@.caret_line_selected());
        }
    }
}

/// Number of leading spaces of `l`.
pub(crate) fn indent_of(l: &Vec<char>) -> (n: usize)
    ensures
        n == leading_spaces(l@),
{
    let mut i: usize = 0;
    while i < l.len() && l[i] == ' '
        invariant
            i <= l@.len(),
            forall|j: int| 0 <= j < i ==> l@[j] == ' ',
        decreases l@.len() - i,
    {
        i += 1;
    }
    proof {
        lemma_leading_spaces(l@, i as int);
    }
    i
}

/// From `col` (inside the line or at its end) back over spaces, then back
/// over the word before them.
pub(crate) fn word_start_before(l: &Vec<char>, col: usize) -> (c: usize)
    requires
        col <= l@.len(),
    ensures
        c == skip_nonspaces_back(l@, skip_spaces_back(l@, col as int)),
        c <= col,
{
    let mut i = col;
    while i > 0 && l[i - 1] == ' '
        invariant
            i <= col <= l@.len(),
            skip_spaces_back(l@, i as int) == skip_spaces_back(l@, col as int),
        decreases i,
    {
        i -= 1;
    }
    let ghost mid = i;
    while i > 0 && l[i - 1] != ' '
        invariant
            i <= mid <= col <= l@.len(),
            mid == skip_spaces_back(l@, col as int),
            skip_nonspaces_back(l@, i as int) == skip_nonspaces_back(l@, mid as int),
        decreases i,
    {
        i -= 1;
    }
    i
}

/// From `col` (inside the line) over the rest of the word, then over the
/// spaces after it.
pub(crate) fn word_end_after(l: &Vec<char>, col: usize) -> (c: usize)
    requires
        col <= l@.len(),
    ensures
        c == skip_spaces_fwd(l@, skip_nonspaces_fwd(l@, col as int)),
        col <= c <= l@.len(),
{
    let n = l.len();
    let mut i = col;
    while i < n && l[i] != ' '
        invariant
            col <= i <= n == l@.len(),
            skip_nonspaces_fwd(l@, i as int) == skip_nonspaces_fwd(l@, col as int),
        decreases n - i,
    {
        i += 1;
    }
    let ghost mid = i;
    while i < n && l[i] == ' '
        invariant
            col <= mid <= i <= n == l@.len(),
            mid == skip_nonspaces_fwd(l@, col as int),
            skip_spaces_fwd(l@, i as int) == skip_spaces_fwd(l@, mid as int),
        decreases n - i,
    {
        i += 1;
    }
    i
}

} // verus!
