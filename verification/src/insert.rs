//! Insert mode: every keystroke mutates a buffer directly. The mode
//! optionally targets a fixed buffer slot — command mode runs a
//! restricted insert mode against the scratch buffer that way.

use vstd::prelude::*;

use crate::buffer::{dec0, sat_inc, BufferModel};
use crate::editor::Mode;
use crate::events::{is_control, is_control_char, Event};
use crate::movement::{Inclusion, Movement};
use crate::normal::NormalMode;
use crate::state::{State, StateModel};

verus! {

/// What one insert-mode event does to the targeted buffer: characters
/// are inserted (control characters ignored), Return breaks the line,
/// Backspace steps left and deletes there (a no-op at column zero),
/// Delete removes under the cursor, Tab inserts per the indentation
/// style, and the arrows move one step.
pub open spec fn insert_effect(b: BufferModel, e: Event) -> BufferModel {
    match e {
        Event::Char(c) => if is_control_char(c) {
            b
        } else {
            b.with_char_inserted(c)
        },
        Event::Return => b.with_line_broken(),
        Event::Backspace => if b.cursor_col == 0 {
            b
        } else {
            b.moved(-1, 0).with_char_deleted()
        },
        Event::Delete => b.with_char_deleted(),
        Event::Tab => b.with_tab_inserted(),
        Event::Up => b.placed(b.cursor_col, dec0(b.cursor_line)),
        Event::Down => b.placed(b.cursor_col, sat_inc(b.cursor_line)),
        Event::Left => b.placed(dec0(b.cursor_col), b.cursor_line),
        Event::Right => b.placed(sat_inc(b.cursor_col), b.cursor_line),
        Event::Escape => b,
    }
}

/// Insert mode, bound either to the active buffer or to a fixed slot.
pub struct InsertMode {
    /// The buffer slot this mode edits; the active buffer when absent.
    pub target_buffer: Option<usize>,
}

impl InsertMode {
    /// Insert mode on the active buffer.
    pub fn new() -> (r: InsertMode)
        ensures
            r == (InsertMode { target_buffer: None }),
    {
        InsertMode { target_buffer: None }
    }

    /// Insert mode pinned to buffer slot `target`.
    pub fn new_with_target(target: usize) -> (r: InsertMode)
        ensures
            r == (InsertMode { target_buffer: Some(target) }),
    {
        InsertMode { target_buffer: Some(target) }
    }

    /// Feeds one event to insert mode: the targeted buffer changes as
    /// [`insert_effect`] says, and Escape returns to normal mode.
    pub fn event(&self, e: Event, state: &mut State) -> (next: Option<Mode>)
        requires
            old(state)@.wf(),
            old(state).clips_wf(),
            match self.target_buffer {
                Some(t) => t < old(state)@.bufs.len(),
                None => true,
            },
        ensures
            final(state)@.wf(),
            final(state).clips_wf(),
            ({
                let t = match self.target_buffer {
                    Some(t) => t as int,
                    None => old(state)@.current_buffer,
                };
                final(state)@ == (StateModel {
                    bufs: old(state)@.bufs.update(t, insert_effect(old(state)@.bufs[t], e)),
                    ..old(state)@
                })
            }),
            match next {
                Some(m) => e == Event::Escape && (m matches Mode::Normal(n) && n.buf@
                    == Seq::<char>::empty()),
                None => e != Event::Escape,
            },
    {
        let t = match self.target_buffer {
            Some(t) => t,
            None => state.current_buffer(),
        };
        let ghost s0 = state@;
        let ghost eff = insert_effect(state@.bufs[t as int], e);
        let next: Option<Mode> = match e {
            Event::Char(c) => {
                if !is_control(c) {
                    state.buffer_mut(t).insert_char(c);
                }
                None
            },
            Event::Return => {
                state.buffer_mut(t).break_line();
                None
            },
            Event::Backspace => {
                let b = state.buffer_mut(t);
                let (c0, _l0) = b.curr_loc();
                if c0 != 0 {
                    b.move_cursor((-1, 0));
                    b.delete_char();
                }
                None
            },
            Event::Delete => {
                state.buffer_mut(t).delete_char();
                None
            },
            Event::Tab => {
                state.buffer_mut(t).insert_tab();
                None
            },
            Event::Up => {
                state.buffer_mut(t).make_movement(&Movement::Line(true, Inclusion::Linewise));
                None
            },
            Event::Down => {
                state.buffer_mut(t).make_movement(&Movement::Line(false, Inclusion::Linewise));
                None
            },
            Event::Left => {
                state.buffer_mut(t).make_movement(&Movement::Char(false));
                None
            },
            Event::Right => {
                state.buffer_mut(t).make_movement(&Movement::Char(true));
                None
            },
            Event::Escape => Some(Mode::Normal(NormalMode::new())),
        };
        proof {
            assert(state@.bufs =~= s0.bufs.update(t as int, eff));
            assert(state@ =~~= (StateModel { bufs: s0.bufs.update(t as int, eff), ..s0 }));
        }
        next
    }
}

} // verus!
