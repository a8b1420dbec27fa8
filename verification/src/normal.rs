//! Normal mode: the incremental action grammar. Keystrokes accumulate
//! in a pending string that is re-parsed from the start after every
//! accepted character; a fully recognised action clears the pending
//! string and is executed against the editor state.

use vstd::prelude::*;

use crate::buffer::BufferModel;
use crate::clip::{pushed, popped, top_of, ClipstackId};
use crate::editor::Mode;
use crate::events::{is_control, is_control_char, Event};
use crate::command::CommandMode;
use crate::insert::InsertMode;
use crate::movement::{motion_viable, parse_from, Movement};
use crate::state::{State, StateModel};

verus! {

/// A fully parsed normal-mode action: a bare cursor motion, an operator
/// composed with a motion and a register, a register transfer, a
/// single-character substitution, or a mode change.
#[derive(Debug, PartialEq, Eq)]
pub enum Action {
    Move(Movement),
    Delete(Movement, ClipstackId),
    Change(Movement, ClipstackId),
    Insert,
    InsertLine,
    Append,
    Command,
    Replace(char),
    Yank(Movement, ClipstackId),
    /// Put from a register; `true` consumes the text, `false` copies it.
    Put(ClipstackId, bool),
}

/// The action grammar applied to a whole pending string: an optional
/// `"x` register prefix, then the action body.
pub open spec fn action_parse_spec(s: Seq<char>) -> Option<Action> {
    if s.len() == 0 {
        None
    } else if s[0] == '"' {
        if s.len() < 2 {
            None
        } else {
            action_body_spec(s, 2, ClipstackId(s[1]))
        }
    } else {
        action_body_spec(s, 0, ClipstackId('"'))
    }
}

/// The action body at position `i`: one action letter, an operator
/// letter followed by a motion, `r` followed by its replacement
/// character, or a bare motion.
pub open spec fn action_body_spec(s: Seq<char>, i: int, reg: ClipstackId) -> Option<Action>
    recommends
        0 <= i <= s.len(),
{
    if i >= s.len() {
        None
    } else {
        let c = s[i];
        if c == 'i' {
            Some(Action::Insert)
        } else if c == 'a' {
            Some(Action::Append)
        } else if c == 'o' {
            Some(Action::InsertLine)
        } else if c == ';' || c == ':' {
            Some(Action::Command)
        } else if c == 'x' {
            Some(Action::Delete(Movement::Char(true), reg))
        } else if c == 'd' {
            match parse_from(s, i + 1, false) {
                Some(m) => Some(Action::Delete(m, reg)),
                None => None,
            }
        } else if c == 'c' {
            match parse_from(s, i + 1, false) {
                Some(m) => Some(Action::Change(m, reg)),
                None => None,
            }
        } else if c == 'y' {
            match parse_from(s, i + 1, false) {
                Some(m) => Some(Action::Yank(m, reg)),
                None => None,
            }
        } else if c == 'p' {
            Some(Action::Put(reg, true))
        } else if c == 'P' {
            Some(Action::Put(reg, false))
        } else if c == 'r' {
            if i + 1 < s.len() {
                Some(Action::Replace(s[i + 1]))
            } else {
                None
            }
        } else {
            match parse_from(s, i, true) {
                Some(m) => Some(Action::Move(m)),
                None => None,
            }
        }
    }
}

/// Whether more keystrokes could still turn the pending string into an
/// action: nothing yet, a lone register quote, a register prefix with a
/// viable body, an action letter, an operator awaiting its motion, or a
/// viable motion prefix. A pending string that fails this can never
/// resolve and is discarded as invalid.
pub open spec fn pending_viable(s: Seq<char>) -> bool {
    if s.len() == 0 {
        true
    } else if s[0] == '"' {
        if s.len() < 2 {
            true
        } else {
            body_viable(s, 2)
        }
    } else {
        body_viable(s, 0)
    }
}

/// Whether the action body at `i` is, or could yet become, an action.
pub open spec fn body_viable(s: Seq<char>, i: int) -> bool
    recommends
        0 <= i <= s.len(),
{
    if i >= s.len() {
        true
    } else {
        let c = s[i];
        if c == 'i' || c == 'a' || c == 'o' || c == ';' || c == ':' || c == 'x' || c == 'p'
            || c == 'P' || c == 'r' {
            true
        } else if c == 'd' || c == 'c' || c == 'y' {
            motion_viable(s, i + 1, false)
        } else {
            motion_viable(s, i, true)
        }
    }
}

/// What executing an action demands of its data: a substitution never
/// writes a line terminator. The grammar only produces such actions,
/// since a terminator is a control character and control characters
/// never join the pending string.
pub open spec fn action_wf(a: Action) -> bool {
    match a {
        Action::Replace(c) => c != '\n',
        _ => true,
    }
}

/// Parsing a terminator-free string yields a well-formed action.
pub proof fn lemma_parsed_action_wf(s: Seq<char>)
    requires
        forall|k: int| 0 <= k < s.len() ==> s[k] != '\n',
    ensures
        match action_parse_spec(s) {
            Some(a) => action_wf(a),
            None => true,
        },
{
}

/// The editor state with its active buffer replaced.
pub open spec fn with_cur(s: StateModel, b: BufferModel) -> StateModel {
    StateModel { bufs: s.bufs.update(s.current_buffer, b), ..s }
}

/// The state an action leaves behind, one case per action, over the
/// buffer and register models.
pub open spec fn action_effect(a: Action, s: StateModel) -> StateModel
    recommends
        s.wf(),
{
    let cur = s.cur();
    match a {
        Action::Move(mv) => with_cur(
            s,
            cur.placed(cur.range_of(mv).1.0, cur.range_of(mv).1.1),
        ),
        Action::Delete(mv, r) => StateModel {
            bufs: s.bufs.update(s.current_buffer, cur.deleted(mv)),
            clips: pushed(s.clips, r.0, cur.span_text(mv)),
            ..s
        },
        Action::Change(mv, r) => StateModel {
            bufs: s.bufs.update(s.current_buffer, cur.deleted(mv)),
            clips: pushed(s.clips, r.0, cur.span_text(mv)),
            ..s
        },
        Action::Yank(mv, r) => StateModel { clips: pushed(s.clips, r.0, cur.span_text(mv)), ..s },
        Action::Put(r, consume) => match top_of(s.clips, r.0) {
            Some(t) => StateModel {
                bufs: s.bufs.update(s.current_buffer, cur.with_string_inserted(t)),
                clips: if consume {
                    popped(s.clips, r.0)
                } else {
                    s.clips
                },
                ..s
            },
            None => StateModel {
                clips: if consume {
                    popped(s.clips, r.0)
                } else {
                    s.clips
                },
                ..s
            },
        },
        Action::Replace(c) => with_cur(
            s,
            cur.with_char_deleted().with_char_inserted(c).placed(cur.cursor_col, cur.cursor_line),
        ),
        Action::Insert => s,
        Action::Append => with_cur(s, cur.moved(1, 0)),
        Action::InsertLine => with_cur(s, cur.with_line_inserted(None)),
        Action::Command => StateModel {
            bufs: s.bufs.update(
                0,
                (BufferModel { show_cursor: true, ..s.bufs[0].cleared() }),
            ),
            ..s
        },
    }
}

/// The mode an action switches to, if any: `i`, `a`, `o` and a change
/// enter insert mode, `;`/`:` enter command mode.
pub open spec fn action_next(a: Action) -> Option<Mode> {
    match a {
        Action::Insert => Some(Mode::Insert(InsertMode { target_buffer: None })),
        Action::Append => Some(Mode::Insert(InsertMode { target_buffer: None })),
        Action::InsertLine => Some(Mode::Insert(InsertMode { target_buffer: None })),
        Action::Change(_, _) => Some(Mode::Insert(InsertMode { target_buffer: None })),
        Action::Command => Some(
            Mode::Command(CommandMode { inserter: InsertMode { target_buffer: Some(0) } }),
        ),
        _ => None,
    }
}

impl Action {
    /// Parses a pending string into an action: an optional register
    /// prefix, then the action body. `None` means more input is
    /// expected — a partial prefix is never an error.
    pub fn parse(s: &Vec<char>) -> (r: Option<Action>)
        ensures
            r == action_parse_spec(s@),
    {
        let n = s.len();
        if n == 0 {
            return None;
        }
        if s[0] == '"' {
            if n < 2 {
                return None;
            }
            let reg = ClipstackId(s[1]);
            Self::parse_body(s, 2, reg)
        } else {
            Self::parse_body(s, 0, ClipstackId('"'))
        }
    }

    /// Parses the action body from position `i`, mirroring
    /// [`action_body_spec`].
    fn parse_body(s: &Vec<char>, i: usize, reg: ClipstackId) -> (r: Option<Action>)
        requires
            i <= s@.len(),
        ensures
            r == action_body_spec(s@, i as int, reg),
    {
        let n = s.len();
        if i >= n {
            return None;
        }
        let c = s[i];
        match c {
            'i' => Some(Action::Insert),
            'a' => Some(Action::Append),
            'o' => Some(Action::InsertLine),
            ';' | ':' => Some(Action::Command),
            'x' => Some(Action::Delete(Movement::Char(true), reg)),
            'd' => match Movement::parse_at(s, i + 1, false) {
                Some(m) => Some(Action::Delete(m, reg)),
                None => None,
            },
            'c' => match Movement::parse_at(s, i + 1, false) {
                Some(m) => Some(Action::Change(m, reg)),
                None => None,
            },
            'y' => match Movement::parse_at(s, i + 1, false) {
                Some(m) => Some(Action::Yank(m, reg)),
                None => None,
            },
            'p' => Some(Action::Put(reg, true)),
            'P' => Some(Action::Put(reg, false)),
            'r' => if i + 1 < n {
                Some(Action::Replace(s[i + 1]))
            } else {
                None
            },
            _ => match Movement::parse_at(s, i, true) {
                Some(m) => Some(Action::Move(m)),
                None => None,
            },
        }
    }

    /// Whether the pending string is, or could with more keystrokes
    /// become, an action, mirroring [`pending_viable`].
    pub fn viable(s: &Vec<char>) -> (r: bool)
        ensures
            r == pending_viable(s@),
    {
        let n = s.len();
        if n == 0 {
            return true;
        }
        if s[0] == '"' {
            if n < 2 {
                true
            } else {
                Self::viable_body(s, 2)
            }
        } else {
            Self::viable_body(s, 0)
        }
    }

    /// Mirrors [`body_viable`].
    fn viable_body(s: &Vec<char>, i: usize) -> (r: bool)
        requires
            i <= s@.len(),
        ensures
            r == body_viable(s@, i as int),
    {
        if i >= s.len() {
            return true;
        }
        match s[i] {
            'i' | 'a' | 'o' | ';' | ':' | 'x' | 'p' | 'P' | 'r' => true,
            'd' | 'c' | 'y' => Movement::viable_at(s, i + 1, false),
            _ => Movement::viable_at(s, i, true),
        }
    }

    /// Executes the action against the editor state and reports the
    /// mode to switch to, if the action asks for one.
    pub fn execute(&self, state: &mut State) -> (next: Option<Mode>)
        requires
            old(state)@.wf(),
            old(state).clips_wf(),
            action_wf(*self),
        ensures
            final(state)@ == action_effect(*self, old(state)@),
            final(state)@.wf(),
            final(state).clips_wf(),
            next == action_next(*self),
    {
        let ghost s0 = state@;
        match self {
            Action::Move(mv) => {
                state.buf_mut().make_movement(mv);
                proof {
                    assert(state@.bufs =~= action_effect(*self, s0).bufs);
                    assert(state@ =~~= action_effect(*self, s0));
                }
                None
            },
            Action::Delete(mv, r) => {
                let removed = state.buf_mut().delete_movement(mv);
                state.push_clip(r, removed);
                proof {
                    assert(state@.bufs =~= action_effect(*self, s0).bufs);
                    assert(state@ =~~= action_effect(*self, s0));
                }
                None
            },
            Action::Change(mv, r) => {
                let removed = state.buf_mut().delete_movement(mv);
                state.push_clip(r, removed);
                proof {
                    assert(state@.bufs =~= action_effect(*self, s0).bufs);
                    assert(state@ =~~= action_effect(*self, s0));
                }
                Some(Mode::Insert(InsertMode::new()))
            },
            Action::Yank(mv, r) => {
                let text = state.buf().yank_movement(mv);
                state.push_clip(r, text);
                proof {
                    assert(state@.bufs =~= action_effect(*self, s0).bufs);
                    assert(state@ =~~= action_effect(*self, s0));
                }
                None
            },
            Action::Put(r, consume) => {
                let got = if *consume {
                    state.pop_clip(r)
                } else {
                    state.top_clip(r)
                };
                match got {
                    Some(text) => {
                        state.buf_mut().insert_string(&text);
                        proof {
                            assert(state@.bufs =~= action_effect(*self, s0).bufs);
                            assert(state@ =~~= action_effect(*self, s0));
                        }
                    },
                    None => {
                        proof {
                            assert(state@ =~~= action_effect(*self, s0));
                        }
                    },
                }
                None
            },
            Action::Replace(c) => {
                let b = state.buf_mut();
                let (c0, l0) = b.curr_loc();
                b.delete_char();
                b.insert_char(*c);
                b.place_cursor(c0, l0);
                proof {
                    assert(state@.bufs =~= action_effect(*self, s0).bufs);
                    assert(state@ =~~= action_effect(*self, s0));
                }
                None
            },
            Action::Insert => Some(Mode::Insert(InsertMode::new())),
            Action::Append => {
                state.buf_mut().move_cursor((1, 0));
                proof {
                    assert(state@.bufs =~= action_effect(*self, s0).bufs);
                    assert(state@ =~~= action_effect(*self, s0));
                }
                Some(Mode::Insert(InsertMode::new()))
            },
            Action::InsertLine => {
                state.buf_mut().insert_line(None);
                proof {
                    assert(state@.bufs =~= action_effect(*self, s0).bufs);
                    assert(state@ =~~= action_effect(*self, s0));
                }
                Some(Mode::Insert(InsertMode::new()))
            },
            Action::Command => {
                let cm = CommandMode::new(state);
                proof {
                    assert(state@.bufs =~= action_effect(*self, s0).bufs);
                    assert(state@ =~~= action_effect(*self, s0));
                }
                Some(Mode::Command(cm))
            },
        }
    }
}

/// Normal mode: accumulates keystrokes into a pending command string.
pub struct NormalMode {
    /// The pending, not yet fully parsed keystrokes; free of control
    /// characters.
    pub buf: Vec<char>,
}

impl NormalMode {
    /// The pending string never holds control characters: they are
    /// ignored on arrival.
    pub open spec fn wf(self) -> bool {
        forall|k: int| 0 <= k < self.buf@.len() ==> !is_control_char(#[trigger] self.buf@[k])
    }

    /// A fresh normal mode with nothing pending.
    pub fn new() -> (r: NormalMode)
        ensures
            r.buf@ == Seq::<char>::empty(),
            r.wf(),
    {
        NormalMode { buf: Vec::new() }
    }

    /// The pending keystrokes, to be shown to the user, or nothing when
    /// none are pending.
    pub fn pending_command(&self) -> (r: Option<&Vec<char>>)
        ensures
            match r {
                Some(p) => p@ == self.buf@ && self.buf@.len() > 0,
                None => self.buf@.len() == 0,
            },
    {
        if self.buf.len() > 0 {
            Some(&self.buf)
        } else {
            None
        }
    }

    /// Feeds one event to normal mode. Escape discards the pending
    /// string; a non-control character joins it, and the string is then
    /// re-parsed from the start — a recognised action clears it and
    /// runs, anything else waits for more input.
    pub fn event(&mut self, e: Event, state: &mut State) -> (next: Option<Mode>)
        requires
            old(self).wf(),
            old(state)@.wf(),
            old(state).clips_wf(),
        ensures
            final(self).wf(),
            final(state)@.wf(),
            final(state).clips_wf(),
            match e {
                Event::Escape => final(self).buf@ == Seq::<char>::empty() && final(state)@ == old(
                    state,
                )@ && next is None,
                Event::Char(c) => {
                    let nb = if is_control_char(c) {
                        old(self).buf@
                    } else {
                        old(self).buf@.push(c)
                    };
                    match action_parse_spec(nb) {
                        Some(a) => final(self).buf@ == Seq::<char>::empty() && final(state)@
                            == action_effect(a, old(state)@) && next == action_next(a),
                        None => (if pending_viable(nb) {
                            final(self).buf@ == nb
                        } else {
                            final(self).buf@ == Seq::<char>::empty()
                        }) && final(state)@ == old(state)@ && next is None,
                    }
                },
                _ => final(self).buf@ == old(self).buf@ && final(state)@ == old(state)@
                    && next is None,
            },
    {
        match e {
            Event::Escape => {
                self.buf.clear();
                None
            },
            Event::Char(c) => {
                if !is_control(c) {
                    self.buf.push(c);
                }
                match Action::parse(&self.buf) {
                    Some(a) => {
                        self.buf.clear();
                        proof {
                            lemma_parsed_action_wf(
                                if is_control_char(c) {
                                    old(self).buf@
                                } else {
                                    old(self).buf@.push(c)
                                },
                            );
                        }
                        a.execute(state)
                    },
                    None => {
                        // A string no keystroke can complete is invalid,
                        // not merely incomplete: discard it.
                        if !Action::viable(&self.buf) {
                            self.buf.clear();
                        }
                        None
                    },
                }
            },
            _ => None,
        }
    }
}

} // verus!
