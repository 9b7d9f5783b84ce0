//! State changes of the choice widgets, from what the pointer did this frame.
use vstd::prelude::*;

verus! {

/// A click flips a boolean: the new value when clicked, none otherwise
/// (toggles and checkboxes).
pub fn toggle_value(value: bool, clicked: bool) -> (r: Option<bool>)
    ensures
        r == (if clicked {
            Some(!value)
        } else {
            None
        }),
{
    if clicked {
        Some(!value)
    } else {
        None
    }
}

/// A dropdown's next open state and the option chosen this frame. A click
/// on the header flips it. While it was open, a click on option `i`
/// chooses `i` and closes it, and a press outside both header and list
/// closes it.
pub open spec fn dropdown_next(
    open: bool,
    header_clicked: bool,
    item_clicked: Option<usize>,
    pressed_outside: bool,
) -> (bool, Option<usize>) {
    let chosen = if open {
        item_clicked
    } else {
        None
    };
    let next = if open && (item_clicked is Some || pressed_outside) {
        false
    } else if header_clicked {
        !open
    } else {
        open
    };
    (next, chosen)
}

pub fn dropdown_step(
    open: bool,
    header_clicked: bool,
    item_clicked: Option<usize>,
    pressed_outside: bool,
) -> (r: (bool, Option<usize>))
    ensures
        r == dropdown_next(open, header_clicked, item_clicked, pressed_outside),
{
    let mut state = open;
    if header_clicked {
        state = !open;
    }
    let mut result = None;
    if open {
        if let Some(i) = item_clicked {
            result = Some(i);
            state = false;
        }
        if pressed_outside {
            state = false;
        }
    }
    (state, result)
}

/// The last tab clicked this frame that is not the selected one.
pub open spec fn tab_pick(selected: usize, clicked: Seq<bool>, k: int) -> Option<usize>
    decreases k,
{
    if k <= 0 {
        None
    } else if clicked[k - 1] && k - 1 != selected {
        Some((k - 1) as usize)
    } else {
        tab_pick(selected, clicked, k - 1)
    }
}

/// Which tab to switch to: the last one clicked (`clicked[i]` for tab `i`)
/// other than the selected tab, if any.
pub fn tab_choice(selected: usize, clicked: &Vec<bool>) -> (r: Option<usize>)
    ensures
        r == tab_pick(selected, clicked@, clicked@.len() as int),
{
    let mut result: Option<usize> = None;
    let mut i: usize = 0;
    while i < clicked.len()
        invariant
            i <= clicked@.len(),
            result == tab_pick(selected, clicked@, i as int),
        decreases clicked@.len() - i,
    {
        if clicked[i] && i != selected {
            result = Some(i);
        }
        i += 1;
    }
    result
}

/// The tab chosen among the first `k` is a clicked tab other than the
/// selected one, with no such tab after it; none is chosen when no tab but
/// the selected one was clicked.
pub proof fn law_tab_choice_is_last_click(selected: usize, clicked: Seq<bool>, k: int)
    requires
        0 <= k <= clicked.len(),
        clicked.len() <= usize::MAX,
    ensures
        match tab_pick(selected, clicked, k) {
            Some(i) => i < k && clicked[i as int] && i != selected && forall|j: int|
                i < j < k ==> !(#[trigger] clicked[j] && j != selected),
            None => forall|j: int| 0 <= j < k ==> !(#[trigger] clicked[j] && j != selected),
        },
    decreases k,
{
    if k > 0 {
        law_tab_choice_is_last_click(selected, clicked, k - 1);
    }
}

/// A closed dropdown chooses nothing and opens exactly when its header is
/// clicked; an open one chooses the option clicked, if any, and stays open
/// only when nothing was clicked and nothing pressed outside.
pub proof fn law_dropdown_step(
    open: bool,
    header_clicked: bool,
    item_clicked: Option<usize>,
    pressed_outside: bool,
)
    ensures
        !open ==> dropdown_next(open, header_clicked, item_clicked, pressed_outside) == (
            header_clicked,
            None::<usize>,
        ),
        open ==> dropdown_next(open, header_clicked, item_clicked, pressed_outside) == (
            !(header_clicked || item_clicked is Some || pressed_outside),
            item_clicked,
        ),
{
}

} // verus!
