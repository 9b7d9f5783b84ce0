//! Undo and redo history, and whole-text selections.
use vstd::prelude::*;
use super::buffer::{clone_lines, text_of};
use super::{snaps_of, EditorModel, Pos, Snapshot, SnapshotModel, TextEditor};

verus! {

impl EditorModel {
    /// Restores the newest undo snapshot; the state it replaces goes on the
    /// redo history. Nothing happens with an empty undo history.
    pub open spec fn undone(self) -> EditorModel {
        if self.undo.len() == 0 {
            self
        } else {
            let s = self.undo.last();
            EditorModel {
                undo: self.undo.drop_last(),
                redo: self.redo.push(self.snapshot()),
                lines: s.lines,
                cursor: s.cursor,
                anchor: None,
                dirty: true,
                ..self
            }.visible()
        }
    }

    /// Restores the newest redo snapshot; the state it replaces goes back on
    /// the undo history. Nothing happens with an empty redo history.
    pub open spec fn redone(self) -> EditorModel {
        if self.redo.len() == 0 {
            self
        } else {
            let s = self.redo.last();
            EditorModel {
                redo: self.redo.drop_last(),
                undo: self.undo.push(self.snapshot()),
                lines: s.lines,
                cursor: s.cursor,
                anchor: None,
                dirty: true,
                ..self
            }.visible()
        }
    }

    /// Selects the whole text: anchor at the start, caret at the end.
    pub open spec fn all_selected(self) -> EditorModel {
        let last = self.lines.len() - 1;
        EditorModel {
            anchor: Some(Pos { row: 0, col: 0 }),
            cursor: Pos { row: last as usize, col: self.lines[last].len() as usize },
            ..self
        }
    }

    /// Selects line `row` (at most the last one) with its newline: from its
    /// start to the start of the next line, or to its end on the last line.
    pub open spec fn line_selected(self, row: int) -> EditorModel {
        let last = self.lines.len() - 1;
        let r = if row < last {
            row
        } else {
            last
        };
        EditorModel {
            anchor: Some(Pos { row: r as usize, col: 0 }),
            cursor: if r + 1 < self.lines.len() {
                Pos { row: (r + 1) as usize, col: 0 }
            } else {
                Pos { row: r as usize, col: self.lines[r].len() as usize }
            },
            ..self
        }
    }
}

impl TextEditor {
    fn snapshot(&self) -> (s: Snapshot)
        ensures
            s@ == self@.snapshot(),
    {
        Snapshot { lines: clone_lines(&self.lines), cursor: self.cursor }
    }

    /// Goes back to the state before the last recorded edit.
    pub fn undo(&mut self)
        requires
            old(self)@.wf(),
        ensures
            final(self)@ == old(self)@.undone(),
            final(self)@.wf(),
    {
        let ghost m0 = self@;
        if let Some(s) = self.undo.pop() {
            proof {
                assert(snaps_of(self.undo@) =~= m0.undo.drop_last());
                assert(s@ == m0.undo.last());
                assert(super::snap_wf(m0.undo[m0.undo.len() - 1]));
            }
            let snap = self.snapshot();
            let ghost r0 = snaps_of(self.redo@);
            self.redo.push(snap);
            proof {
                assert(snaps_of(self.redo@) =~= r0.push(m0.snapshot()));
            }
            self.lines = s.lines;
            self.cursor = s.cursor;
            self.anchor = None;
            self.dirty = true;
            proof {
                let mid = EditorModel {
                    undo: m0.undo.drop_last(),
                    redo: m0.redo.push(m0.snapshot()),
                    lines: m0.undo.last().lines,
                    cursor: m0.undo.last().cursor,
                    anchor: None,
                    dirty: true,
                    ..m0
                };
                assert(self@ =~= mid);
                assert(mid.wf());
            }
            self.ensure_visible_default();
        }
    }

    /// Goes forward again to the state the last undo left.
    pub fn redo(&mut self)
        requires
            old(self)@.wf(),
        ensures
            final(self)@ == old(self)@.redone(),
            final(self)@.wf(),
    {
        let ghost m0 = self@;
        if let Some(s) = self.redo.pop() {
            proof {
                assert(snaps_of(self.redo@) =~= m0.redo.drop_last());
                assert(s@ == m0.redo.last());
                assert(super::snap_wf(m0.redo[m0.redo.len() - 1]));
            }
            let snap = self.snapshot();
            let ghost u0 = snaps_of(self.undo@);
            self.undo.push(snap);
            proof {
                assert(snaps_of(self.undo@) =~= u0.push(m0.snapshot()));
            }
            self.lines = s.lines;
            self.cursor = s.cursor;
            self.anchor = None;
            self.dirty = true;
            proof {
                let mid = EditorModel {
                    redo: m0.redo.drop_last(),
                    undo: m0.undo.push(m0.snapshot()),
                    lines: m0.redo.last().lines,
                    cursor: m0.redo.last().cursor,
                    anchor: None,
                    dirty: true,
                    ..m0
                };
                assert(self@ =~= mid);
                assert(mid.wf());
            }
            self.ensure_visible_default();
        }
    }

    pub fn select_all(&mut self)
        requires
            old(self)@.wf(),
        ensures
            final(self)@ == old(self)@.all_selected(),
            final(self)@.wf(),
            final(self)@.anchor_ok(),
    {
        self.anchor = Some(Pos::new(0, 0));
        let last = self.lines.len() - 1;
        self.cursor = Pos::new(last, self.lines[last].len());
        proof {
            assert(self@ =~= old(self)@.all_selected());
        }
    }

    pub fn select_line(&mut self, row: usize)
        requires
            old(self)@.wf(),
        ensures
            final(self)@ == old(self)@.line_selected(row as int),
            final(self)@.wf(),
            final(self)@.anchor_ok(),
    {
        let last = self.lines.len() - 1;
        let row = if row < last {
            row
        } else {
            last
        };
        self.anchor = Some(Pos::new(row, 0));
        if row + 1 < self.lines.len() {
            self.cursor = Pos::new(row + 1, 0);
        } else {
            self.cursor = Pos::new(row, self.lines[row].len());
        }
        proof {
            assert(self@ =~= old(self)@.line_selected(row as int));
        }
    }
}

} // verus!
