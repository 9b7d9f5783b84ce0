//! Input vocabulary: mouse buttons and the named keys that widgets handle.
use vstd::prelude::*;

verus! {

#[derive(Clone, Copy, Debug, PartialEq, Eq, Structural)]
pub enum MouseButton {
    Left,
    Right,
    Middle,
}

#[derive(Clone, Copy, Debug, PartialEq, Eq, Structural)]
pub enum NamedKey {
    ArrowLeft,
    ArrowRight,
    ArrowUp,
    ArrowDown,
    Home,
    End,
    PageUp,
    PageDown,
    Backspace,
    Delete,
    Enter,
    Tab,
    Escape,
}

/// Whether `b` is among `buttons` (such as the buttons pressed this frame).
pub fn contains_button(buttons: &Vec<MouseButton>, b: MouseButton) -> (r: bool)
    ensures
        r == buttons@.contains(b),
{
    let mut i: usize = 0;
    while i < buttons.len()
        invariant
            i <= buttons@.len(),
            forall|j: int| 0 <= j < i ==> buttons@[j] != b,
        decreases buttons@.len() - i,
    {
        if buttons[i] == b {
            assert(buttons@[i as int] == b);
            return true;
        }
        i += 1;
    }
    false
}

} // verus!
