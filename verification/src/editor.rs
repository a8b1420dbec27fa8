//! The editor shell: the three-state mode machine over one shared
//! [`State`], and the narrow waist through which file work flows.
//!
//! The core never opens a file itself. A colon-command that needs one
//! leaves an [`IoRequest`] behind; the surrounding loop performs it and
//! hands the outcome back as an [`IoReply`]. One input event is fully
//! processed — parsed, resolved, executed, the mode transition applied —
//! before the next is accepted.

use vstd::prelude::*;

use crate::buffer::{Buffer, BufferModel};
use crate::command::{
    command_produces_io, command_return_io, command_return_state, CommandMode,
};
use crate::events::{is_control_char, Event};
use crate::insert::{insert_effect, InsertMode};
use crate::normal::{
    action_effect, action_next, action_parse_spec, pending_viable, Action, NormalMode,
};
use crate::state::{State, StateModel};

verus! {

/// A file error, as the surrounding loop reports it back to the core.
#[derive(Clone, Copy, PartialEq, Eq, Structural, Debug)]
pub enum IoError {
    NotFound,
    Permission,
    Other,
}

impl IoError {
    /// A short, fixed description for the status line.
    pub open spec fn text_spec(self) -> Seq<char> {
        match self {
            IoError::NotFound => seq!['n', 'o', 't', ' ', 'f', 'o', 'u', 'n', 'd'],
            IoError::Permission => seq!['n', 'o', ' ', 'a', 'c', 'c', 'e', 's', 's'],
            IoError::Other => seq!['i', 'o', ' ', 'e', 'r', 'r', 'o', 'r'],
        }
    }

    /// The description, as characters for the status line.
    pub fn description(&self) -> (r: Vec<char>)
        ensures
            r@ == self.text_spec(),
    {
        let mut r: Vec<char> = Vec::new();
        match self {
            IoError::NotFound => {
                r.push('n');
                r.push('o');
                r.push('t');
                r.push(' ');
                r.push('f');
                r.push('o');
                r.push('u');
                r.push('n');
                r.push('d');
            },
            IoError::Permission => {
                r.push('n');
                r.push('o');
                r.push(' ');
                r.push('a');
                r.push('c');
                r.push('c');
                r.push('e');
                r.push('s');
                r.push('s');
            },
            IoError::Other => {
                r.push('i');
                r.push('o');
                r.push(' ');
                r.push('e');
                r.push('r');
                r.push('r');
                r.push('o');
                r.push('r');
            },
        }
        proof {
            assert(r@ =~= self.text_spec());
        }
        r
    }
}

/// File work the core asks the surrounding loop to do: write a
/// buffer's contents out, or read a file's text in.
#[derive(Debug)]
pub enum IoRequest {
    Save { path: Vec<char>, contents: Vec<char> },
    Load { path: Vec<char> },
}

/// The outcome the surrounding loop hands back for a pending request.
/// A file that simply does not exist yet is not a failure: the loop
/// replies `Loaded` with empty text, as opening a fresh file does.
#[derive(Debug)]
pub enum IoReply {
    Saved,
    SaveFailed(IoError),
    Loaded(Vec<char>),
    LoadFailed(IoError),
}

/// The mode the editor is in: the closed set of three.
pub enum Mode {
    Normal(NormalMode),
    Insert(InsertMode),
    Command(CommandMode),
}

impl Mode {
    /// The tag shown in the status line.
    pub fn status_tag(&self) -> (r: &'static str)
        ensures
            self matches Mode::Normal(_) ==> r@ == "NORMAL"@,
            self matches Mode::Insert(_) ==> r@ == "INSERT"@,
            self matches Mode::Command(_) ==> r@ == "COMMAND"@,
    {
        match self {
            Mode::Normal(_) => "NORMAL",
            Mode::Insert(_) => "INSERT",
            Mode::Command(_) => "COMMAND",
        }
    }

    /// The pending normal-mode keystrokes, when there are any.
    pub fn pending_command(&self) -> (r: Option<&Vec<char>>)
        ensures
            match r {
                Some(p) => self matches Mode::Normal(n) && p@ == n.buf@ && n.buf@.len() > 0,
                None => !(self matches Mode::Normal(n) && n.buf@.len() > 0),
            },
    {
        match self {
            Mode::Normal(n) => n.pending_command(),
            _ => None,
        }
    }
}

/// Every mode an action can switch to keeps the editor well-formed.
proof fn lemma_action_next_wf(a: Action)
    ensures
        match action_next(a) {
            Some(m) => match m {
                Mode::Normal(n) => n.wf(),
                Mode::Insert(im) => im.target_buffer is None,
                Mode::Command(cm) => cm.inserter.target_buffer == Some(0usize),
            },
            None => true,
        },
{
}

/// The whole editor: shared state, the active mode, and at most one
/// file request waiting for the surrounding loop.
pub struct Editor {
    pub state: State,
    pub mode: Mode,
    pub pending_io: Option<IoRequest>,
}

impl Editor {
    /// The editor's invariant: a well-formed state, and a mode whose
    /// target — where it has one — names a real buffer slot.
    pub open spec fn wf(self) -> bool {
        &&& self.state@.wf()
        &&& self.state.clips_wf()
        &&& match self.mode {
            Mode::Normal(n) => n.wf(),
            Mode::Insert(im) => match im.target_buffer {
                Some(t) => (t as int) < self.state@.bufs.len(),
                None => true,
            },
            Mode::Command(cm) => cm.inserter.target_buffer == Some(0usize),
        }
    }

    /// A fresh editor: normal mode over a fresh state, no file work
    /// pending.
    pub fn new() -> (r: Editor)
        ensures
            r.wf(),
            !r.state@.should_quit,
            r.mode matches Mode::Normal(n) && n.buf@ == Seq::<char>::empty(),
            r.pending_io is None,
    {
        Editor { state: State::new(), mode: Mode::Normal(NormalMode::new()), pending_io: None }
    }

    /// Feeds one input event to the active mode, applies any mode
    /// transition it asks for, and reports whether a quit was
    /// requested. A transition out of normal or insert mode clears the
    /// status line; command mode manages the status itself, so an
    /// error it surfaced stays visible.
    pub fn event(&mut self, e: Event) -> (quit: bool)
        requires
            old(self).wf(),
        ensures
            final(self).wf(),
            quit == final(self).state@.should_quit,
            final(self).state@.bufs.len() == old(self).state@.bufs.len(),
            !(old(self).mode matches Mode::Command(_)) ==> final(self).pending_io == old(
                self,
            ).pending_io,
            match old(self).mode {
                Mode::Normal(n) => match e {
                    Event::Escape => final(self).state@ == old(self).state@ && (match final(self).mode {
                        Mode::Normal(n2) => n2.buf@ == Seq::<char>::empty(),
                        _ => false,
                    }),
                    Event::Char(c) => ({
                        let nb = if is_control_char(c) {
                            n.buf@
                        } else {
                            n.buf@.push(c)
                        };
                        match action_parse_spec(nb) {
                            Some(a) => match action_next(a) {
                                Some(m) => final(self).state@ == (StateModel {
                                    status: None,
                                    ..action_effect(a, old(self).state@)
                                }) && final(self).mode == m,
                                None => final(self).state@ == action_effect(a, old(self).state@)
                                    && (match final(self).mode {
                                    Mode::Normal(n2) => n2.buf@ == Seq::<char>::empty(),
                                    _ => false,
                                }),
                            },
                            None => final(self).state@ == old(self).state@ && (match final(self).mode {
                                Mode::Normal(n2) => n2.buf@ == (if pending_viable(nb) {
                                    nb
                                } else {
                                    Seq::<char>::empty()
                                }),
                                _ => false,
                            }),
                        }
                    }),
                    _ => final(self).state@ == old(self).state@ && (match final(self).mode {
                        Mode::Normal(n2) => n2.buf@ == n.buf@,
                        _ => false,
                    }),
                },
                Mode::Insert(im) => ({
                    let t = match im.target_buffer {
                        Some(t) => t as int,
                        None => old(self).state@.current_buffer,
                    };
                    &&& final(self).state@ == (StateModel {
                        bufs: old(self).state@.bufs.update(
                            t,
                            insert_effect(old(self).state@.bufs[t], e),
                        ),
                        status: if e == Event::Escape {
                            None
                        } else {
                            old(self).state@.status
                        },
                        ..old(self).state@
                    })
                    &&& if e == Event::Escape {
                        match final(self).mode {
                            Mode::Normal(n2) => n2.buf@ == Seq::<char>::empty(),
                            _ => false,
                        }
                    } else {
                        final(self).mode == old(self).mode
                    }
                }),
                Mode::Command(_) => match e {
                    Event::Return => {
                        &&& final(self).state@ == command_return_state(old(self).state)
                        &&& (match final(self).mode {
                            Mode::Normal(n2) => n2.buf@ == Seq::<char>::empty(),
                            _ => false,
                        })
                        &&& if command_produces_io(old(self).state) {
                            command_return_io(old(self).state, final(self).pending_io)
                        } else {
                            final(self).pending_io == old(self).pending_io
                        }
                    },
                    Event::Escape => {
                        &&& final(self).state@ == (StateModel {
                            bufs: old(self).state@.bufs.update(
                                0,
                                (BufferModel {
                                    show_cursor: false,
                                    ..old(self).state@.bufs[0].cleared()
                                }),
                            ),
                            ..old(self).state@
                        })
                        &&& (match final(self).mode {
                            Mode::Normal(n2) => n2.buf@ == Seq::<char>::empty(),
                            _ => false,
                        })
                        &&& final(self).pending_io == old(self).pending_io
                    },
                    _ => {
                        &&& final(self).state@ == (StateModel {
                            bufs: old(self).state@.bufs.update(
                                0,
                                insert_effect(old(self).state@.bufs[0], e),
                            ),
                            ..old(self).state@
                        })
                        &&& final(self).mode == old(self).mode
                        &&& final(self).pending_io == old(self).pending_io
                    },
                },
            },
    {
        match &mut self.mode {
            Mode::Normal(n) => {
                let ghost nb0 = n.buf@;
                let next = n.event(e, &mut self.state);
                proof {
                    match e {
                        Event::Char(c) => {
                            let nb = if is_control_char(c) {
                                nb0
                            } else {
                                nb0.push(c)
                            };
                            match action_parse_spec(nb) {
                                Some(a) => {
                                    lemma_action_next_wf(a);
                                },
                                None => {},
                            }
                        },
                        _ => {},
                    }
                }
                match next {
                    Some(m) => {
                        self.state.set_status(None);
                        self.mode = m;
                    },
                    None => {},
                }
            },
            Mode::Insert(im) => {
                let next = im.event(e, &mut self.state);
                match next {
                    Some(m) => {
                        self.state.set_status(None);
                        self.mode = m;
                    },
                    None => {},
                }
            },
            Mode::Command(cm) => {
                let (next, io) = cm.event(e, &mut self.state);
                match io {
                    Some(req) => {
                        self.pending_io = Some(req);
                    },
                    None => {},
                }
                match next {
                    Some(m) => {
                        self.mode = m;
                    },
                    None => {},
                }
            },
        }
        self.state.should_quit()
    }

    /// Opens a file's text as a new buffer and makes it active: what a
    /// completed load lands as.
    pub fn open_buffer(&mut self, path: Vec<char>, text: &Vec<char>)
        requires
            old(self).wf(),
        ensures
            final(self).wf(),
            final(self).state@ == (StateModel {
                bufs: old(self).state@.bufs.push(BufferModel::loaded(path@, text@)),
                current_buffer: old(self).state@.bufs.len() as int,
                last_buffer: old(self).state@.current_buffer,
                ..old(self).state@
            }),
            final(self).mode == old(self).mode,
            final(self).pending_io == old(self).pending_io,
    {
        let b = Buffer::load(path, text);
        self.state.add_buffer(b);
    }

    /// Hands the outcome of the pending file request back to the core:
    /// a completed load becomes the active buffer, a failure becomes
    /// status text, and the pending slot is cleared either way. A
    /// reply that matches no pending request changes nothing else.
    pub fn finish_io(&mut self, reply: IoReply)
        requires
            old(self).wf(),
        ensures
            final(self).wf(),
            final(self).pending_io is None,
            final(self).mode == old(self).mode,
            match (old(self).pending_io, reply) {
                (Some(IoRequest::Load { path }), IoReply::Loaded(text)) => final(self).state@
                    == (StateModel {
                    bufs: old(self).state@.bufs.push(BufferModel::loaded(path@, text@)),
                    current_buffer: old(self).state@.bufs.len() as int,
                    last_buffer: old(self).state@.current_buffer,
                    ..old(self).state@
                }),
                (Some(IoRequest::Save { .. }), IoReply::SaveFailed(err)) => final(self).state@
                    == (StateModel { status: Some(err.text_spec()), ..old(self).state@ }),
                (Some(IoRequest::Load { .. }), IoReply::LoadFailed(err)) => final(self).state@
                    == (StateModel { status: Some(err.text_spec()), ..old(self).state@ }),
                _ => final(self).state@ == old(self).state@,
            },
    {
        let req = self.pending_io.take();
        match (req, reply) {
            (Some(IoRequest::Load { path }), IoReply::Loaded(text)) => {
                let b = Buffer::load(path, &text);
                self.state.add_buffer(b);
            },
            (Some(IoRequest::Save { .. }), IoReply::SaveFailed(err)) => {
                let text = err.description();
                self.state.set_status(Some(text));
            },
            (Some(IoRequest::Load { .. }), IoReply::LoadFailed(err)) => {
                let text = err.description();
                self.state.set_status(Some(text));
            },
            _ => {},
        }
    }
}

} // verus!
