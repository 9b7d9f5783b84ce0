//! Text edits: typing, deleting, clipboard, and whole-line operations. Each
//! edit saves a snapshot for undo first.
use vstd::prelude::*;
use super::buffer::{
    clamp, clone_line, insert_at, insert_chars, join_chars, remove_chars, remove_line,
    remove_range, set_line, slice_of, splice_lines, text_of,
};
use super::model::{
    leading_spaces, leading_white, lemma_leading_white, lemma_skip_bounds, lemma_split_lines_len,
    skip_nonspaces_back, skip_nonspaces_fwd, skip_spaces_back, skip_spaces_fwd, split_lines,
    trim_end_white, typed_text,
};
use super::motion::{indent_of, word_end_after, word_start_before};
use super::{snaps_of, EditorModel, Pos, TextEditor, TAB_COLS};
use crate::strutil::{char_is_white_space, chars_of, is_white_space, string_push};

verus! {

/// The first line of `s` is no longer than `s`.
pub proof fn lemma_split_first_len(s: Seq<char>)
    ensures
        split_lines(s)[0].len() <= s.len(),
    decreases s.len(),
{
    if s.len() > 0 {
        lemma_split_first_len(s.drop_last());
        lemma_split_lines_len(s.drop_last());
    }
}

proof fn lemma_update_remove_commute(ls: Seq<Seq<char>>, r: int, x: Seq<char>)
    requires
        0 <= r,
        r + 1 < ls.len(),
    ensures
        ls.update(r, x).remove(r + 1) == ls.remove(r + 1).update(r, x),
{
    assert(ls.update(r, x).remove(r + 1) =~= ls.remove(r + 1).update(r, x));
}

impl EditorModel {
    /// Puts the lines `parts` at the caret: the first continues the caret
    /// line, the last is followed by the rest of it. The caret ends after
    /// the inserted text.
    pub open spec fn parts_inserted(self, parts: Seq<Seq<char>>) -> EditorModel {
        let c = self.cursor;
        let line = self.lines[c.row as int];
        let k = clamp(c.col as int, line.len());
        let n = parts.len();
        if n == 1 {
            EditorModel {
                lines: self.lines.update(c.row as int, insert_at(line, c.col as int, parts[0])),
                cursor: Pos { row: c.row, col: (c.col + parts[0].len()) as usize },
                dirty: true,
                ..self
            }.visible()
        } else {
            let mid = seq![line.take(k) + parts[0]] + parts.subrange(1, n - 1) + seq![
                parts[n - 1] + line.skip(k),
            ];
            EditorModel {
                lines: self.lines.take(c.row as int) + mid + self.lines.skip(c.row + 1),
                cursor: Pos { row: (c.row + n - 1) as usize, col: parts[n - 1].len() as usize },
                dirty: true,
                ..self
            }.visible()
        }
    }

    /// Typing or pasting `text`: the selection is replaced, tabs become two
    /// spaces, carriage returns are dropped, newlines split the line.
    /// Typing nothing changes nothing.
    pub open spec fn typed(self, text: Seq<char>) -> EditorModel {
        if text.len() == 0 {
            self
        } else {
            self.delete_selection().push_undo().parts_inserted(split_lines(typed_text(text)))
        }
    }

    /// What Enter types: a newline, the caret line's indentation, and one
    /// more level after an opening bracket.
    pub open spec fn newline_text(self) -> Seq<char> {
        let line = self.lines[self.cursor.row as int];
        let indent = Seq::new(leading_spaces(line), |i: int| ' ');
        let before = trim_end_white(line.take(clamp(self.cursor.col as int, line.len())));
        let extra = if before.len() > 0 && (before.last() == '{' || before.last() == '['
            || before.last() == '(') {
            seq![' ', ' ']
        } else {
            Seq::<char>::empty()
        };
        seq!['\n'] + indent + extra
    }

    /// Line `row` joined with the line after it.
    pub open spec fn joined_with_next(self, row: int) -> Seq<Seq<char>> {
        self.lines.update(row, self.lines[row] + self.lines[row + 1]).remove(row + 1)
    }

    /// The undo snapshot just saved is dropped again (the edit did nothing).
    pub open spec fn unpushed(self) -> EditorModel {
        EditorModel { undo: self.undo.drop_last(), ..self }
    }

    pub open spec fn backspaced(self) -> EditorModel {
        if self.sel_range() is Some {
            self.delete_selection().visible()
        } else {
            let m = self.push_undo();
            let c = m.cursor;
            let line = m.lines[c.row as int];
            if c.col > 0 {
                let k = clamp(c.col as int, line.len());
                let all_spaces = forall|j: int| 0 <= j < k ==> line[j] == ' ';
                let new_col: int = if all_spaces && c.col >= TAB_COLS && c.col % TAB_COLS == 0 {
                    c.col - TAB_COLS
                } else {
                    c.col - 1
                };
                EditorModel {
                    lines: m.lines.update(
                        c.row as int,
                        remove_range(line, new_col, c.col as int),
                    ),
                    cursor: Pos { row: c.row, col: new_col as usize },
                    dirty: true,
                    ..m
                }.visible()
            } else if c.row > 0 {
                EditorModel {
                    lines: m.joined_with_next(c.row - 1),
                    cursor: Pos { row: (c.row - 1) as usize, col: m.lines[c.row - 1].len() as usize },
                    dirty: true,
                    ..m
                }.visible()
            } else {
                m.unpushed()
            }
        }
    }

    pub open spec fn deleted_forward(self) -> EditorModel {
        if self.sel_range() is Some {
            self.delete_selection().visible()
        } else {
            let m = self.push_undo();
            let c = m.cursor;
            let line = m.lines[c.row as int];
            if c.col < line.len() {
                EditorModel {
                    lines: m.lines.update(
                        c.row as int,
                        remove_range(line, c.col as int, c.col + 1),
                    ),
                    dirty: true,
                    ..m
                }.visible()
            } else if c.row + 1 < m.lines.len() {
                EditorModel { lines: m.joined_with_next(c.row as int), dirty: true, ..m }.visible()
            } else {
                m.unpushed()
            }
        }
    }

    pub open spec fn deleted_word_forward(self) -> EditorModel {
        if self.sel_range() is Some {
            self.delete_selection().visible()
        } else {
            let m = self.push_undo();
            let c = m.cursor;
            let line = m.lines[c.row as int];
            if c.col >= line.len() {
                if c.row + 1 < m.lines.len() {
                    EditorModel { lines: m.joined_with_next(c.row as int), dirty: true, ..m }
                } else {
                    m.unpushed()
                }
            } else {
                let e0 = skip_spaces_fwd(line, c.col as int);
                let end = if e0 == c.col {
                    skip_nonspaces_fwd(line, c.col as int)
                } else {
                    e0
                };
                EditorModel {
                    lines: m.lines.update(c.row as int, remove_range(line, c.col as int, end)),
                    dirty: true,
                    ..m
                }.visible()
            }
        }
    }

    pub open spec fn deleted_word_backward(self) -> EditorModel {
        if self.sel_range() is Some {
            self.delete_selection().visible()
        } else {
            let m = self.push_undo();
            let c = m.cursor;
            let line = m.lines[c.row as int];
            if c.col == 0 {
                if c.row > 0 {
                    EditorModel {
                        lines: m.joined_with_next(c.row - 1),
                        cursor: Pos {
                            row: (c.row - 1) as usize,
                            col: m.lines[c.row - 1].len() as usize,
                        },
                        dirty: true,
                        ..m
                    }
                } else {
                    m.unpushed()
                }
            } else {
                let s0 = skip_spaces_back(line, c.col as int);
                let start = if s0 == c.col {
                    skip_nonspaces_back(line, c.col as int)
                } else {
                    s0
                };
                EditorModel {
                    lines: m.lines.update(c.row as int, remove_range(line, start, c.col as int)),
                    cursor: Pos { row: c.row, col: start as usize },
                    dirty: true,
                    ..m
                }.visible()
            }
        }
    }

    /// Copy: a non-empty selection replaces the clipboard.
    pub open spec fn copied(self) -> EditorModel {
        let s = self.selected_text();
        if s.len() > 0 {
            EditorModel { clipboard: s, ..self }
        } else {
            self
        }
    }

    /// Cut: a non-empty selection replaces the clipboard and is deleted.
    pub open spec fn cut_out(self) -> EditorModel {
        let s = self.selected_text();
        if s.len() > 0 {
            EditorModel { clipboard: s, ..self }.delete_selection().visible()
        } else {
            self
        }
    }

    /// Paste: types the clipboard.
    pub open spec fn pasted(self) -> EditorModel {
        self.typed(self.clipboard)
    }

    /// The caret line, or every line that the selection touches, copied
    /// below itself. Without a selection the caret moves down onto the copy;
    /// with one, caret and anchor both move onto the copied lines.
    pub open spec fn line_duplicated(self) -> EditorModel {
        let m = self.push_undo();
        match self.sel_range() {
            None => {
                let r = m.cursor.row;
                EditorModel {
                    lines: m.lines.insert(r + 1, m.lines[r as int]),
                    cursor: Pos { row: (r + 1) as usize, col: m.cursor.col },
                    dirty: true,
                    ..m
                }.visible()
            },
            Some((s, e)) => {
                let k = e.row - s.row + 1;
                let a = m.anchor.unwrap();
                EditorModel {
                    lines: m.lines.take(e.row + 1) + m.lines.subrange(s.row as int, e.row + 1)
                        + m.lines.skip(e.row + 1),
                    cursor: Pos { row: (m.cursor.row + k) as usize, col: m.cursor.col },
                    anchor: Some(Pos { row: (a.row + k) as usize, col: a.col }),
                    dirty: true,
                    ..m
                }.visible()
            },
        }
    }

    /// Lines `a` and `b` trade places.
    pub open spec fn swapped(self, a: int, b: int) -> Seq<Seq<char>> {
        self.lines.update(a, self.lines[b]).update(b, self.lines[a])
    }

    pub open spec fn line_moved_up(self) -> EditorModel {
        let r = self.cursor.row;
        if r == 0 {
            self
        } else {
            let m = self.push_undo();
            EditorModel {
                lines: m.swapped(r - 1, r as int),
                cursor: Pos { row: (r - 1) as usize, col: m.cursor.col },
                dirty: true,
                ..m
            }.visible()
        }
    }

    pub open spec fn line_moved_down(self) -> EditorModel {
        let r = self.cursor.row;
        if r + 1 >= self.lines.len() {
            self
        } else {
            let m = self.push_undo();
            EditorModel {
                lines: m.swapped(r as int, r + 1),
                cursor: Pos { row: (r + 1) as usize, col: m.cursor.col },
                dirty: true,
                ..m
            }.visible()
        }
    }

    /// The caret line starts (after white space) with `//`.
    pub open spec fn caret_line_commented(self) -> bool {
        let line = self.lines[self.cursor.row as int];
        let k = leading_white(line);
        k + 2 <= line.len() && line[k as int] == '/' && line[k + 1 as int] == '/'
    }

    /// Toggles a `//` comment on the caret line (after saving a snapshot).
    pub open spec fn comment_toggled(self) -> EditorModel {
        self.push_undo().comment_toggled_in_place()
    }
}

/// The lines that typing `text` puts in: tabs widened to two spaces,
/// carriage returns dropped, cut at newlines.
fn typed_lines(text: &str) -> (ls: Vec<Vec<char>>)
    ensures
        text_of(ls@) == split_lines(typed_text(text@)),
{
    let chars = chars_of(text);
    let mut raw: Vec<Vec<char>> = Vec::new();
    let mut cur: Vec<char> = Vec::new();
    let mut i: usize = 0;
    while i < chars.len()
        invariant
            i <= chars@.len(),
            chars@ == text@,
            text_of(raw@).push(cur@) == split_lines(typed_text(chars@.take(i as int))),
        decreases chars@.len() - i,
    {
        let c = chars[i];
        let ghost before = chars@.take(i as int);
        let ghost e0 = typed_text(before);
        proof {
            assert(chars@.take(i + 1).drop_last() =~= before);
            assert(chars@.take(i + 1).last() == c);
            lemma_split_lines_len(e0);
        }
        if c == '\n' {
            let ghost prev = text_of(raw@).push(cur@);
            raw.push(cur);
            cur = Vec::new();
            proof {
                assert(typed_text(chars@.take(i + 1)) =~= e0.push('\n'));
                assert(e0.push('\n').drop_last() =~= e0);
                assert(text_of(raw@).push(cur@) =~= prev.push(Seq::<char>::empty()));
            }
        } else if c == '\t' {
            cur.push(' ');
            cur.push(' ');
            proof {
                let e1 = e0.push(' ');
                let e2 = e1.push(' ');
                assert(typed_text(chars@.take(i + 1)) =~= e2);
                assert(e2.drop_last() =~= e1);
                assert(e1.drop_last() =~= e0);
                lemma_split_lines_len(e1);
                assert(text_of(raw@).push(cur@) =~= split_lines(e2));
            }
        } else if c == '\r' {
            proof {
                assert(typed_text(chars@.take(i + 1)) =~= e0);
            }
        } else {
            cur.push(c);
            proof {
                assert(typed_text(chars@.take(i + 1)) =~= e0.push(c));
                assert(e0.push(c).drop_last() =~= e0);
                assert(text_of(raw@).push(cur@) =~= split_lines(e0.push(c)));
            }
        }
        i += 1;
    }
    let ghost prev = text_of(raw@);
    raw.push(cur);
    proof {
        assert(text_of(raw@) =~= prev.push(cur@));
        assert(chars@.take(chars@.len() as int) =~= chars@);
    }
    raw
}

/// Whether the first `k` characters of `l` are all spaces.
fn all_spaces_before(l: &Vec<char>, k: usize) -> (b: bool)
    requires
        k <= l@.len(),
    ensures
        b == (forall|j: int| 0 <= j < k ==> l@[j] == ' '),
{
    let mut i: usize = 0;
    while i < k
        invariant
            i <= k <= l@.len(),
            forall|j: int| 0 <= j < i ==> l@[j] == ' ',
        decreases k - i,
    {
        if l[i] != ' ' {
            return false;
        }
        i += 1;
    }
    true
}

/// Number of leading white-space characters of `l`.
fn white_prefix(l: &Vec<char>) -> (n: usize)
    ensures
        n == leading_white(l@),
{
    let mut i: usize = 0;
    while i < l.len() && char_is_white_space(l[i])
        invariant
            i <= l@.len(),
            forall|j: int| 0 <= j < i ==> is_white_space(l@[j]),
        decreases l@.len() - i,
    {
        i += 1;
    }
    proof {
        lemma_leading_white(l@, i as int);
    }
    i
}

/// `l` without its trailing white space.
fn trimmed_end(l: &Vec<char>) -> (r: Vec<char>)
    ensures
        r@ == trim_end_white(l@),
{
    let mut n = l.len();
    assert(l@.take(n as int) =~= l@);
    while n > 0 && char_is_white_space(l[n - 1])
        invariant
            n <= l@.len(),
            trim_end_white(l@) == trim_end_white(l@.take(n as int)),
        decreases n,
    {
        proof {
            assert(l@.take(n as int).drop_last() =~= l@.take(n - 1));
        }
        n -= 1;
    }
    proof {
        if n > 0 {
            assert(l@.take(n as int).last() == l@[n - 1]);
        }
    }
    slice_of(l, 0, n)
}

impl TextEditor {
    fn insert_parts(&mut self, parts: Vec<Vec<char>>)
        requires
            old(self)@.wf(),
            parts@.len() >= 1,
            parts@.len() == 1 ==> old(self)@.cursor.col + parts@[0]@.len() <= usize::MAX,
        ensures
            final(self)@ == old(self)@.parts_inserted(text_of(parts@)),
            final(self)@.wf(),
    {
        let ghost m0 = self@;
        let ghost ps = text_of(parts@);
        let row = self.cursor.row;
        let col = self.cursor.col;
        let n = parts.len();
        if n == 1 {
            let line = insert_chars(&self.lines[row], col, &parts[0]);
            set_line(&mut self.lines, row, line);
            self.cursor.col = col + parts[0].len();
        } else {
            let cur = &self.lines[row];
            let len = cur.len();
            let k = if col < len {
                col
            } else {
                len
            };
            let head = slice_of(cur, 0, k);
            let tail = slice_of(cur, k, len);
            let mut mid: Vec<Vec<char>> = Vec::new();
            mid.push(join_chars(&head, &parts[0]));
            let mut j: usize = 1;
            while j < n - 1
                invariant
                    1 <= j <= n - 1,
                    n == parts@.len(),
                    ps == text_of(parts@),
                    text_of(mid@) == seq![head@ + ps[0]] + ps.subrange(1, j as int),
                decreases n - 1 - j,
            {
                let ghost prev = text_of(mid@);
                mid.push(clone_line(&parts[j]));
                proof {
                    assert(text_of(mid@) =~= prev.push(ps[j as int]));
                    assert(text_of(mid@) =~= seq![head@ + ps[0]] + ps.subrange(1, j + 1));
                }
                j += 1;
            }
            let ghost prev = text_of(mid@);
            mid.push(join_chars(&parts[n - 1], &tail));
            proof {
                assert(text_of(mid@) =~= prev.push(ps[n - 1] + tail@));
                assert(head@ =~= m0.lines[row as int].take(k as int));
                assert(tail@ =~= m0.lines[row as int].skip(k as int));
            }
            let new_lines = splice_lines(&self.lines, row, row, mid);
            self.lines = new_lines;
            let total = self.lines.len();
            assert(row + n - 1 < total);
            self.cursor = Pos::new(row + n - 1, parts[n - 1].len());
        }
        self.dirty = true;
        proof {
            let c = m0.cursor;
            let line = m0.lines[c.row as int];
            let k = clamp(c.col as int, line.len());
            if n == 1 {
                assert(self@ =~= EditorModel {
                    lines: m0.lines.update(c.row as int, insert_at(line, c.col as int, ps[0])),
                    cursor: Pos { row: c.row, col: (c.col + ps[0].len()) as usize },
                    dirty: true,
                    ..m0
                });
            } else {
                let mid = seq![line.take(k) + ps[0]] + ps.subrange(1, n - 1) + seq![
                    ps[n - 1] + line.skip(k),
                ];
                assert(self@ =~= EditorModel {
                    lines: m0.lines.take(c.row as int) + mid + m0.lines.skip(c.row + 1),
                    cursor: Pos { row: (c.row + n - 1) as usize, col: ps[n - 1].len() as usize },
                    dirty: true,
                    ..m0
                });
            }
        }
        self.ensure_visible_default();
    }

    /// Types `text` at the caret, replacing the selection.
    pub fn insert_str(&mut self, text: &str)
        requires
            old(self)@.wf(),
            old(self)@.anchor_ok(),
            old(self)@.delete_selection().cursor.col + typed_text(text@).len() <= usize::MAX,
        ensures
            final(self)@ == old(self)@.typed(text@),
            final(self)@.wf(),
    {
        if text.is_empty() {
            return;
        }
        self.delete_selection();
        self.push_undo();
        let parts = typed_lines(text);
        proof {
            lemma_split_lines_len(typed_text(text@));
            lemma_split_first_len(typed_text(text@));
        }
        self.insert_parts(parts);
    }

    /// Types one character.
    pub fn insert_char(&mut self, ch: char)
        requires
            old(self)@.wf(),
            old(self)@.anchor_ok(),
            old(self)@.delete_selection().cursor.col + 2 <= usize::MAX,
        ensures
            final(self)@ == old(self)@.typed(seq![ch]),
            final(self)@.wf(),
    {
        let mut s = String::new();
        string_push(&mut s, ch);
        proof {
            let t = seq![ch];
            assert(s@ =~= t);
            assert(t.drop_last() =~= Seq::<char>::empty());
            assert(typed_text(t.drop_last()) =~= Seq::<char>::empty());
            assert(typed_text(t).len() <= 2);
        }
        self.insert_str(s.as_str());
    }

    /// Enter: a new line with the caret line's indentation, one level deeper
    /// after an opening bracket.
    pub fn newline(&mut self)
        requires
            old(self)@.wf(),
            old(self)@.anchor_ok(),
            old(self)@.delete_selection().cursor.col + typed_text(old(self)@.newline_text()).len()
                <= usize::MAX,
        ensures
            final(self)@ == old(self)@.typed(old(self)@.newline_text()),
            final(self)@.wf(),
    {
        let line = &self.lines[self.cursor.row];
        let ind = indent_of(line);
        let len = line.len();
        let k = if self.cursor.col < len {
            self.cursor.col
        } else {
            len
        };
        let before = trimmed_end(&slice_of(line, 0, k));
        let nb = before.len();
        let opens = nb > 0 && (before[nb - 1] == '{' || before[nb - 1] == '[' || before[nb - 1]
            == '(');
        let mut s = String::new();
        string_push(&mut s, '\n');
        let mut i: usize = 0;
        while i < ind
            invariant
                i <= ind,
                s@ == seq!['\n'] + Seq::new(i as nat, |j: int| ' '),
            decreases ind - i,
        {
            string_push(&mut s, ' ');
            assert(seq!['\n'] + Seq::new((i + 1) as nat, |j: int| ' ') =~= (seq!['\n'] + Seq::new(
                i as nat,
                |j: int| ' ',
            )).push(' '));
            i += 1;
        }
        if opens {
            string_push(&mut s, ' ');
            string_push(&mut s, ' ');
        }
        proof {
            let l = self@.lines[self@.cursor.row as int];
            assert(l.take(k as int) =~= l.subrange(0, k as int));
            assert(s@ =~= old(self)@.newline_text());
        }
        self.insert_str(s.as_str());
    }

    pub fn backspace(&mut self)
        requires
            old(self)@.wf(),
            old(self)@.anchor_ok(),
        ensures
            final(self)@ == old(self)@.backspaced(),
            final(self)@.wf(),
    {
        if self.delete_selection() {
            self.ensure_visible_default();
            return;
        }
        let ghost m0 = self@;
        self.push_undo();
        let ghost m = self@;
        let row = self.cursor.row;
        let col = self.cursor.col;
        if col > 0 {
            let line = &self.lines[row];
            let len = line.len();
            let k = if col < len {
                col
            } else {
                len
            };
            let all_spaces = all_spaces_before(line, k);
            let new_col = if all_spaces && col >= TAB_COLS && col % TAB_COLS == 0 {
                col - TAB_COLS
            } else {
                col - 1
            };
            let nl = remove_chars(line, new_col, col);
            set_line(&mut self.lines, row, nl);
            self.cursor.col = new_col;
            self.dirty = true;
            proof {
                assert(self@ =~= EditorModel {
                    lines: m.lines.update(row as int, remove_range(m.lines[row as int], new_col as int, col as int)),
                    cursor: Pos { row, col: new_col },
                    dirty: true,
                    ..m
                });
            }
        } else if row > 0 {
            let cur = remove_line(&mut self.lines, row);
            let above = row - 1;
            assert(text_of(self.lines@)[above as int] == self.lines@[above as int]@);
            let new_col = self.lines[above].len();
            let joined = join_chars(&self.lines[above], &cur);
            set_line(&mut self.lines, above, joined);
            self.cursor = Pos::new(above, new_col);
            self.dirty = true;
            proof {
                lemma_update_remove_commute(m.lines, above as int, m.lines[above as int] + m.lines[row as int]);
                assert(self@.lines =~= m.joined_with_next(above as int));
                assert(self@ =~= EditorModel {
                    lines: m.joined_with_next(above as int),
                    cursor: Pos { row: above, col: m.lines[above as int].len() as usize },
                    dirty: true,
                    ..m
                });
            }
        } else {
            let ghost u = snaps_of(self.undo@);
            self.undo.pop();
            proof {
                assert(snaps_of(self.undo@) =~= u.drop_last());
                assert(self@ =~= m.unpushed());
            }
            return;
        }
        self.ensure_visible_default();
    }

    pub fn delete_forward(&mut self)
        requires
            old(self)@.wf(),
            old(self)@.anchor_ok(),
        ensures
            final(self)@ == old(self)@.deleted_forward(),
            final(self)@.wf(),
    {
        if self.delete_selection() {
            self.ensure_visible_default();
            return;
        }
        self.push_undo();
        let ghost m = self@;
        let row = self.cursor.row;
        let col = self.cursor.col;
        let len = self.lines[row].len();
        if col < len {
            let nl = remove_chars(&self.lines[row], col, col + 1);
            set_line(&mut self.lines, row, nl);
            self.dirty = true;
            proof {
                assert(self@ =~= EditorModel {
                    lines: m.lines.update(row as int, remove_range(m.lines[row as int], col as int, col + 1)),
                    dirty: true,
                    ..m
                });
            }
        } else if row < self.lines.len() - 1 {
            self.join_next(row);
            self.dirty = true;
            proof {
                assert(self@ =~= EditorModel { lines: m.joined_with_next(row as int), dirty: true, ..m });
            }
        } else {
            let ghost u = snaps_of(self.undo@);
            self.undo.pop();
            proof {
                assert(snaps_of(self.undo@) =~= u.drop_last());
                assert(self@ =~= m.unpushed());
            }
            return;
        }
        self.ensure_visible_default();
    }

    /// Joins line `row` with the next one.
    fn join_next(&mut self, row: usize)
        requires
            row + 1 < old(self)@.lines.len(),
            old(self)@.wf(),
        ensures
            final(self)@ == (EditorModel { lines: old(self)@.joined_with_next(row as int), ..old(self)@ }),
    {
        let _n = self.lines.len();
        let next = remove_line(&mut self.lines, row + 1);
        assert(text_of(self.lines@)[row as int] == self.lines@[row as int]@);
        let joined = join_chars(&self.lines[row], &next);
        set_line(&mut self.lines, row, joined);
        proof {
            let ls = old(self)@.lines;
            lemma_update_remove_commute(ls, row as int, ls[row as int] + ls[row + 1]);
            assert(self@.lines =~= old(self)@.joined_with_next(row as int));
            assert(self@ =~= EditorModel { lines: old(self)@.joined_with_next(row as int), ..old(self)@ });
        }
    }

    /// Deletes from the caret to the end of the word (or over the spaces
    /// that follow the caret); at a line end, joins the next line.
    pub fn delete_word_forward(&mut self)
        requires
            old(self)@.wf(),
            old(self)@.anchor_ok(),
        ensures
            final(self)@ == old(self)@.deleted_word_forward(),
            final(self)@.wf(),
    {
        if self.delete_selection() {
            self.ensure_visible_default();
            return;
        }
        self.push_undo();
        let ghost m = self@;
        let row = self.cursor.row;
        let col = self.cursor.col;
        let len = self.lines[row].len();
        if col >= len {
            if row < self.lines.len() - 1 {
                self.join_next(row);
                self.dirty = true;
                proof {
                    assert(self@ =~= EditorModel { lines: m.joined_with_next(row as int), dirty: true, ..m });
                }
            } else {
                let ghost u = snaps_of(self.undo@);
                self.undo.pop();
                proof {
                    assert(snaps_of(self.undo@) =~= u.drop_last());
                    assert(self@ =~= m.unpushed());
                }
            }
            return;
        }
        let line = &self.lines[row];
        let mut end = col;
        while end < len && line[end] == ' '
            invariant
                col <= end <= len == line@.len(),
                skip_spaces_fwd(line@, end as int) == skip_spaces_fwd(line@, col as int),
            decreases len - end,
        {
            end += 1;
        }
        if end == col {
            while end < len && line[end] != ' '
                invariant
                    col <= end <= len == line@.len(),
                    skip_nonspaces_fwd(line@, end as int) == skip_nonspaces_fwd(line@, col as int),
                decreases len - end,
            {
                end += 1;
            }
        }
        let nl = remove_chars(line, col, end);
        set_line(&mut self.lines, row, nl);
        self.dirty = true;
        proof {
            assert(self@ =~= EditorModel {
                lines: m.lines.update(row as int, remove_range(m.lines[row as int], col as int, end as int)),
                dirty: true,
                ..m
            });
        }
        self.ensure_visible_default();
    }

    /// Deletes from the caret back to the start of the word (or over the
    /// spaces before the caret); at a line start, joins with the line
    /// above. With the caret past the end of its line (possible after
    /// uncommenting) this reads past the line and is left out by the
    /// `requires`.
    pub fn delete_word_backward(&mut self)
        requires
            old(self)@.wf(),
            old(self)@.anchor_ok(),
            old(self)@.sel_range() is None ==> old(self)@.cursor.col <= old(self)@.line_len(
                old(self)@.cursor.row as int,
            ),
        ensures
            final(self)@ == old(self)@.deleted_word_backward(),
            final(self)@.wf(),
    {
        if self.delete_selection() {
            self.ensure_visible_default();
            return;
        }
        self.push_undo();
        let ghost m = self@;
        let row = self.cursor.row;
        let col = self.cursor.col;
        if col == 0 {
            if row > 0 {
                let above = row - 1;
                let new_col = self.lines[above].len();
                self.join_next(above);
                self.cursor = Pos::new(above, new_col);
                self.dirty = true;
                proof {
                    assert(self@ =~= EditorModel {
                        lines: m.joined_with_next(above as int),
                        cursor: Pos { row: above, col: m.lines[above as int].len() as usize },
                        dirty: true,
                        ..m
                    });
                }
            } else {
                let ghost u = snaps_of(self.undo@);
                self.undo.pop();
                proof {
                    assert(snaps_of(self.undo@) =~= u.drop_last());
                    assert(self@ =~= m.unpushed());
                }
            }
            return;
        }
        let line = &self.lines[row];
        let mut start = col;
        while start > 0 && line[start - 1] == ' '
            invariant
                start <= col <= line@.len(),
                skip_spaces_back(line@, start as int) == skip_spaces_back(line@, col as int),
            decreases start,
        {
            start -= 1;
        }
        if start == col {
            while start > 0 && line[start - 1] != ' '
                invariant
                    start <= col <= line@.len(),
                    skip_nonspaces_back(line@, start as int) == skip_nonspaces_back(
                        line@,
                        col as int,
                    ),
                decreases start,
            {
                start -= 1;
            }
        }
        let nl = remove_chars(line, start, col);
        set_line(&mut self.lines, row, nl);
        self.cursor.col = start;
        self.dirty = true;
        proof {
            assert(self@ =~= EditorModel {
                lines: m.lines.update(row as int, remove_range(m.lines[row as int], start as int, col as int)),
                cursor: Pos { row, col: start },
                dirty: true,
                ..m
            });
        }
        self.ensure_visible_default();
    }

    pub fn copy(&mut self)
        requires
            old(self)@.wf(),
            old(self)@.anchor_ok(),
        ensures
            final(self)@ == old(self)@.copied(),
            final(self)@.wf(),
    {
        let s = self.selected_chars();
        if s.len() > 0 {
            self.clipboard = s;
        }
        proof {
            assert(self@ =~= old(self)@.copied());
        }
    }

    pub fn cut(&mut self)
        requires
            old(self)@.wf(),
            old(self)@.anchor_ok(),
        ensures
            final(self)@ == old(self)@.cut_out(),
            final(self)@.wf(),
    {
        let s = self.selected_chars();
        if s.len() > 0 {
            self.clipboard = s;
            proof {
                assert(self@ =~= EditorModel { clipboard: old(self)@.selected_text(), ..old(self)@ });
            }
            self.delete_selection();
            self.ensure_visible_default();
        }
    }

    pub fn paste(&mut self)
        requires
            old(self)@.wf(),
            old(self)@.anchor_ok(),
            old(self)@.delete_selection().cursor.col + typed_text(old(self)@.clipboard).len()
                <= usize::MAX,
        ensures
            final(self)@ == old(self)@.pasted(),
            final(self)@.wf(),
    {
        if self.clipboard.len() > 0 {
            let s = crate::strutil::string_of(&self.clipboard);
            self.insert_str(s.as_str());
        }
    }

    /// Duplicates the caret line, or the lines of the selection, below
    /// themselves.
    pub fn duplicate_line(&mut self)
        requires
            old(self)@.wf(),
            old(self)@.anchor_ok(),
        ensures
            final(self)@ == old(self)@.line_duplicated(),
            final(self)@.wf(),
    {
        match self.selection_range() {
            None => {
                self.push_undo();
                let ghost m = self@;
                let row = self.cursor.row;
                let _n = self.lines.len();
                let line = clone_line(&self.lines[row]);
                crate::text_editor::buffer::insert_line(&mut self.lines, row + 1, line);
                self.cursor.row = row + 1;
                self.dirty = true;
                proof {
                    assert(self@ =~= EditorModel {
                        lines: m.lines.insert(row + 1, m.lines[row as int]),
                        cursor: Pos { row: (row + 1) as usize, col: m.cursor.col },
                        dirty: true,
                        ..m
                    });
                }
                self.ensure_visible_default();
            },
            Some((s, e)) => {
                self.push_undo();
                let ghost m = self@;
                let a = match self.anchor {
                    Some(a) => a,
                    None => s,
                };
                assert(crate::text_editor::pos_le(s, e));
                assert(e.row < m.lines.len());
                let _n0 = self.lines.len();
                let k = e.row - s.row + 1;
                let mut i: usize = 0;
                while i < k
                    invariant
                        s.row <= e.row < m.lines.len(),
                        k == e.row - s.row + 1,
                        i <= k,
                        self@ == (EditorModel {
                            lines: m.lines.take(e.row + 1) + m.lines.subrange(
                                s.row as int,
                                s.row + i,
                            ) + m.lines.skip(e.row + 1),
                            ..m
                        }),
                    decreases k - i,
                {
                    let _cur = self.lines.len();
                    assert(text_of(self.lines@).len() == self.lines@.len());
                    assert(self.lines@.len() == m.lines.len() + i);
                    let line = clone_line(&self.lines[s.row + i]);
                    proof {
                        assert(self@.lines[s.row + i] == m.lines[s.row + i]);
                    }
                    crate::text_editor::buffer::insert_line(&mut self.lines, e.row + 1 + i, line);
                    proof {
                        assert(text_of(self.lines@) =~= m.lines.take(e.row + 1)
                            + m.lines.subrange(s.row as int, s.row + i + 1) + m.lines.skip(
                            e.row + 1,
                        ));
                    }
                    i += 1;
                    proof {
                        assert(self@ =~= (EditorModel {
                            lines: m.lines.take(e.row + 1) + m.lines.subrange(
                                s.row as int,
                                s.row + i,
                            ) + m.lines.skip(e.row + 1),
                            ..m
                        }));
                    }
                }
                let n = self.lines.len();
                assert(n == m.lines.len() + k);
                self.cursor.row = self.cursor.row + k;
                self.anchor = Some(Pos { row: a.row + k, col: a.col });
                self.dirty = true;
                proof {
                    assert(self@ =~= EditorModel {
                        lines: m.lines.take(e.row + 1) + m.lines.subrange(s.row as int, e.row + 1)
                            + m.lines.skip(e.row + 1),
                        cursor: Pos { row: (m.cursor.row + k) as usize, col: m.cursor.col },
                        anchor: Some(Pos { row: (a.row + k) as usize, col: a.col }),
                        dirty: true,
                        ..m
                    });
                }
                self.ensure_visible_default();
            },
        }
    }

    /// Swaps lines `a` and `b`.
    fn swap_lines(&mut self, a: usize, b: usize)
        requires
            a < old(self)@.lines.len(),
            b < old(self)@.lines.len(),
            a != b,
        ensures
            final(self)@ == (EditorModel { lines: old(self)@.swapped(a as int, b as int), ..old(self)@ }),
    {
        let la = clone_line(&self.lines[a]);
        let lb = clone_line(&self.lines[b]);
        set_line(&mut self.lines, a, lb);
        set_line(&mut self.lines, b, la);
        proof {
            assert(self@ =~= EditorModel { lines: old(self)@.swapped(a as int, b as int), ..old(self)@ });
        }
    }

    pub fn move_line_up(&mut self)
        requires
            old(self)@.wf(),
        ensures
            final(self)@ == old(self)@.line_moved_up(),
            final(self)@.wf(),
    {
        if self.cursor.row == 0 {
            return;
        }
        self.push_undo();
        let row = self.cursor.row;
        self.swap_lines(row - 1, row);
        self.cursor.row = row - 1;
        self.dirty = true;
        proof {
            let m = old(self)@.push_undo();
            assert(self@ =~= EditorModel {
                lines: m.swapped(row - 1, row as int),
                cursor: Pos { row: (row - 1) as usize, col: m.cursor.col },
                dirty: true,
                ..m
            });
        }
        self.ensure_visible_default();
    }

    pub fn move_line_down(&mut self)
        requires
            old(self)@.wf(),
        ensures
            final(self)@ == old(self)@.line_moved_down(),
            final(self)@.wf(),
    {
        if self.cursor.row >= self.lines.len() - 1 {
            return;
        }
        self.push_undo();
        let row = self.cursor.row;
        self.swap_lines(row, row + 1);
        self.cursor.row = row + 1;
        self.dirty = true;
        proof {
            let m = old(self)@.push_undo();
            assert(self@ =~= EditorModel {
                lines: m.swapped(row as int, row + 1),
                cursor: Pos { row: (row + 1) as usize, col: m.cursor.col },
                dirty: true,
                ..m
            });
        }
        self.ensure_visible_default();
    }

    /// Toggles a `//` line comment on the caret line.
    pub fn toggle_line_comment(&mut self)
        requires
            old(self)@.wf(),
        ensures
            final(self)@ == old(self)@.comment_toggled(),
            final(self)@.wf(),
    {
        self.push_undo();
        let ghost m = self@;
        let row = self.cursor.row;
        let line = &self.lines[row];
        let len = line.len();
        let k = white_prefix(line);
        if k < len && len - k >= 2 && line[k] == '/' && line[k + 1] == '/' {
            let l1 = remove_chars(line, k, k + 2);
            let l2 = if k < l1.len() && l1[k] == ' ' {
                let mut t = l1;
                t.remove(k);
                t
            } else {
                l1
            };
            set_line(&mut self.lines, row, l2);
            self.dirty = true;
            proof {
                assert(m.caret_line_commented());
            }
        } else {
            let ind = indent_of(line);
            let mut marker: Vec<char> = Vec::new();
            marker.push('/');
            marker.push('/');
            marker.push(' ');
            let l1 = insert_chars(line, ind, &marker);
            let n1 = l1.len();
            set_line(&mut self.lines, row, l1);
            let col = self.cursor.col;
            self.cursor.col = if col < n1 && n1 - col > 3 {
                col + 3
            } else {
                n1
            };
            self.dirty = true;
            proof {
                assert(!m.caret_line_commented());
                assert(marker@ =~= seq!['/', '/', ' ']);
            }
        }
        proof {
            assert(self@ =~= m.comment_toggled_in_place());
        }
    }
}

impl EditorModel {
    /// Removes the `//` marker after the leading white space of the caret
    /// line (and one space after it), or puts `// ` after the leading spaces
    /// and moves the caret along with the text.
    pub open spec fn comment_toggled_in_place(self) -> EditorModel {
        let m = self;
        let r = m.cursor.row as int;
        let line = m.lines[r];
        if m.caret_line_commented() {
            let k = leading_white(line) as int;
            let l1 = remove_range(line, k, k + 2);
            let l2 = if k < l1.len() && l1[k] == ' ' {
                l1.remove(k)
            } else {
                l1
            };
            EditorModel { lines: m.lines.update(r, l2), dirty: true, ..m }
        } else {
            let ind = leading_spaces(line) as int;
            let l1 = insert_at(line, ind, seq!['/', '/', ' ']);
            let col = if m.cursor.col + 3 < l1.len() {
                m.cursor.col + 3
            } else {
                l1.len() as int
            };
            EditorModel {
                lines: m.lines.update(r, l1),
                cursor: Pos { row: m.cursor.row, col: col as usize },
                dirty: true,
                ..m
            }
        }
    }
}

} // verus!
