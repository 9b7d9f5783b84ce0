//! Caret positions and their order in the text: row first, then column.
use vstd::prelude::*;
use vstd::std_specs::cmp::{PartialOrdIs, PartialOrdSpecImpl};
use core::cmp::Ordering;

verus! {

/// A caret position: a line and a character column in it.
#[derive(Clone, Copy, PartialEq, Eq, Structural, Ord, Debug)]
pub struct Pos {
    pub row: usize,
    pub col: usize,
}

impl Pos {
    pub fn new(row: usize, col: usize) -> (p: Self)
        ensures
            p == (Pos { row, col }),
    {
        Self { row, col }
    }
}

impl Default for Pos {
    fn default() -> (p: Self)
        ensures
            p.row == 0,
            p.col == 0,
    {
        Self { row: 0, col: 0 }
    }
}

/// `a` comes no later than `b` in the text.
pub open spec fn pos_le(a: Pos, b: Pos) -> bool {
    a.row < b.row || (a.row == b.row && a.col <= b.col)
}

/// Positions compare by row, and within a row by column.
pub open spec fn pos_order(a: Pos, b: Pos) -> Ordering {
    if a.row < b.row {
        Ordering::Less
    } else if a.row > b.row {
        Ordering::Greater
    } else if a.col < b.col {
        Ordering::Less
    } else if a.col > b.col {
        Ordering::Greater
    } else {
        Ordering::Equal
    }
}

impl PartialOrd for Pos {
    fn partial_cmp(&self, other: &Self) -> (r: Option<Ordering>) {
        if self.row < other.row {
            Some(Ordering::Less)
        } else if self.row > other.row {
            Some(Ordering::Greater)
        } else if self.col < other.col {
            Some(Ordering::Less)
        } else if self.col > other.col {
            Some(Ordering::Greater)
        } else {
            Some(Ordering::Equal)
        }
    }
}

impl PartialOrdSpecImpl for Pos {
    open spec fn obeys_partial_cmp_spec() -> bool {
        true
    }

    open spec fn partial_cmp_spec(&self, other: &Self) -> Option<Ordering> {
        Some(pos_order(*self, *other))
    }
}

/// `<` and `<=` on positions order them row first, then column, as a
/// selection orders its ends.
pub proof fn law_pos_order(a: Pos, b: Pos)
    ensures
        a.is_lt(&b) <==> (a.row < b.row || (a.row == b.row && a.col < b.col)),
        a.is_le(&b) <==> pos_le(a, b),
        a.is_lt(&b) <==> (pos_le(a, b) && a != b),
{
}

} // verus!
