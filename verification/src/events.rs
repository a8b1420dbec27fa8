//! Input events, as the mode machine consumes them: plain data handed
//! in by whatever window system or terminal hosts the editor.

use vstd::prelude::*;

verus! {

/// One input event: a typed character, or one of the editing keys the
/// modes act on. Arrow keys move the cursor in insert mode; everything
/// the editor does not know stays outside and is simply not delivered.
#[derive(Clone, Copy, PartialEq, Eq, Structural, Debug)]
pub enum Event {
    Char(char),
    Return,
    Escape,
    Backspace,
    Delete,
    Tab,
    Up,
    Down,
    Left,
    Right,
}

/// Control characters — the C0 range, delete, and the C1 range — are
/// never inserted into text and never join a pending command.
pub open spec fn is_control_char(c: char) -> bool {
    (c as u32) < 32 || (127 <= c as u32 && (c as u32) < 160)
}

/// Whether `c` is a control character.
pub fn is_control(c: char) -> (r: bool)
    ensures
        r == is_control_char(c),
{
    let u = c as u32;
    u < 32 || (127 <= u && u < 160)
}

} // verus!
