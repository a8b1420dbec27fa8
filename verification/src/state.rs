//! The editor's shared state: the open buffers, which of them is
//! active, the clip registers, the quit flag and the status line — one
//! explicit value threaded through every mode-handling call.

use vstd::prelude::*;

use crate::buffer::{Buffer, BufferModel};
use crate::clip::{dump_of, lemma_entries_faithful, pushed, popped, top_of, ClipstackId, Clipstacks};

verus! {

/// The mathematical content of a [`State`]; every contract on the
/// executable type is stated over this view (reached as `state@`).
#[verifier::ext_equal]
pub struct StateModel {
    /// All open buffers. Slot zero is the command-line scratch buffer;
    /// the editable buffers follow.
    pub bufs: Seq<BufferModel>,
    /// Index of the active buffer.
    pub current_buffer: int,
    /// Index of the previously active buffer.
    pub last_buffer: int,
    /// The clip registers.
    pub clips: Map<char, Seq<Seq<char>>>,
    /// Whether a quit was requested.
    pub should_quit: bool,
    /// Status text shown to the user, if any.
    pub status: Option<Seq<char>>,
}

impl StateModel {
    /// The state's invariant: the scratch buffer and at least one
    /// editable buffer exist, the active and previous indices point at
    /// editable buffers, and every buffer is well-formed.
    pub open spec fn wf(self) -> bool {
        &&& self.bufs.len() >= 2
        &&& 1 <= self.current_buffer < self.bufs.len()
        &&& 1 <= self.last_buffer < self.bufs.len()
        &&& forall|i: int| 0 <= i < self.bufs.len() ==> (#[trigger] self.bufs[i]).inv()
    }

    /// The active buffer.
    pub open spec fn cur(self) -> BufferModel {
        self.bufs[self.current_buffer]
    }
}

/// The editor's shared state; see [`StateModel`] for the abstract view
/// the contracts use.
pub struct State {
    pub(crate) bufs: Vec<Buffer>,
    pub(crate) current_buffer: usize,
    pub(crate) last_buffer: usize,
    pub(crate) clips: Clipstacks,
    pub(crate) should_quit: bool,
    pub(crate) status_text: Option<Vec<char>>,
}

impl View for State {
    type V = StateModel;

    closed spec fn view(&self) -> StateModel {
        StateModel {
            bufs: self.bufs@.map_values(|b: Buffer| b@),
            current_buffer: self.current_buffer as int,
            last_buffer: self.last_buffer as int,
            clips: self.clips@,
            should_quit: self.should_quit,
            status: match self.status_text {
                Some(ref t) => Some(t@),
                None => None,
            },
        }
    }
}

impl State {
    /// The rest of the invariant the view cannot see: the register
    /// store's own well-formedness.
    pub closed spec fn clips_wf(self) -> bool {
        self.clips.wf()
    }

    /// A fresh state: a hidden command-line scratch buffer, one empty
    /// editable buffer which is active, empty registers, nothing to
    /// report and no quit requested.
    pub fn new() -> (s: State)
        ensures
            s@.wf(),
            s.clips_wf(),
            s@.bufs.len() == 2,
            s@.bufs[0] == (BufferModel { show_cursor: false, ..BufferModel::fresh() }),
            s@.bufs[1] == BufferModel::fresh(),
            s@.current_buffer == 1,
            s@.last_buffer == 1,
            s@.clips == Map::<char, Seq<Seq<char>>>::empty(),
            !s@.should_quit,
            s@.status is None,
    {
        let mut scratch = Buffer::new();
        scratch.set_show_cursor(false);
        let mut bufs: Vec<Buffer> = Vec::new();
        bufs.push(scratch);
        bufs.push(Buffer::new());
        let s = State {
            bufs,
            current_buffer: 1,
            last_buffer: 1,
            clips: Clipstacks::new(),
            should_quit: false,
            status_text: None,
        };
        proof {
            assert(s@.bufs =~= seq![
                (BufferModel { show_cursor: false, ..BufferModel::fresh() }),
                BufferModel::fresh(),
            ]);
        }
        s
    }

    /// The active buffer.
    pub fn buf(&self) -> (r: &Buffer)
        requires
            self@.wf(),
        ensures
            r@ == self@.cur(),
    {
        &self.bufs[self.current_buffer]
    }

    /// The active buffer, for mutation. What the caller does through
    /// the returned borrow lands at the active slot, everything else
    /// staying as it was.
    pub fn buf_mut(&mut self) -> (r: &mut Buffer)
        requires
            old(self)@.wf(),
        ensures
            (*r)@ == old(self)@.cur(),
            final(self)@.bufs.len() == old(self)@.bufs.len(),
            final(self)@.bufs[old(self)@.current_buffer] == final(r)@,
            forall|i: int|
                0 <= i < old(self)@.bufs.len() && i != old(self)@.current_buffer
                    ==> (#[trigger] final(self)@.bufs[i]) == old(self)@.bufs[i],
            final(self)@.current_buffer == old(self)@.current_buffer,
            final(self)@.last_buffer == old(self)@.last_buffer,
            final(self)@.clips == old(self)@.clips,
            final(self)@.should_quit == old(self)@.should_quit,
            final(self)@.status == old(self)@.status,
            final(self).clips_wf() == old(self).clips_wf(),
    {
        let i = self.current_buffer;
        &mut self.bufs[i]
    }

    /// The buffer in slot `i`, for mutation. What the caller does
    /// through the returned borrow lands at slot `i`, everything else
    /// staying as it was.
    pub fn buffer_mut(&mut self, i: usize) -> (r: &mut Buffer)
        requires
            i < old(self)@.bufs.len(),
        ensures
            (*r)@ == old(self)@.bufs[i as int],
            final(self)@.bufs.len() == old(self)@.bufs.len(),
            final(self)@.bufs[i as int] == final(r)@,
            forall|t: int|
                0 <= t < old(self)@.bufs.len() && t != i ==> (#[trigger] final(self)@.bufs[t])
                    == old(self)@.bufs[t],
            final(self)@.current_buffer == old(self)@.current_buffer,
            final(self)@.last_buffer == old(self)@.last_buffer,
            final(self)@.clips == old(self)@.clips,
            final(self)@.should_quit == old(self)@.should_quit,
            final(self)@.status == old(self)@.status,
            final(self).clips_wf() == old(self).clips_wf(),
    {
        &mut self.bufs[i]
    }

    /// Opens one more buffer and makes it active.
    pub fn add_buffer(&mut self, b: Buffer)
        requires
            old(self)@.wf(),
            b@.inv(),
        ensures
            final(self)@ == (StateModel {
                bufs: old(self)@.bufs.push(b@),
                current_buffer: old(self)@.bufs.len() as int,
                last_buffer: old(self)@.current_buffer,
                ..old(self)@
            }),
            final(self)@.wf(),
            final(self).clips_wf() == old(self).clips_wf(),
    {
        self.bufs.push(b);
        let ix = self.bufs.len() - 1;
        self.last_buffer = self.current_buffer;
        self.current_buffer = ix;
        proof {
            assert(self@.bufs =~= old(self)@.bufs.push(b@));
            assert(self@ =~~= (StateModel {
                bufs: old(self)@.bufs.push(b@),
                current_buffer: old(self)@.bufs.len() as int,
                last_buffer: old(self)@.current_buffer,
                ..old(self)@
            }));
        }
    }

    /// Raises the quit flag; the surrounding loop reads it and winds
    /// the editor down.
    pub fn set_quit(&mut self)
        ensures
            final(self)@ == (StateModel { should_quit: true, ..old(self)@ }),
            final(self).clips_wf() == old(self).clips_wf(),
    {
        self.should_quit = true;
        proof {
            assert(self@ =~~= (StateModel { should_quit: true, ..old(self)@ }));
        }
    }

    /// The command-line scratch buffer.
    pub fn scratch(&self) -> (r: &Buffer)
        requires
            self@.wf(),
        ensures
            r@ == self@.bufs[0],
    {
        &self.bufs[0]
    }

    /// The command-line scratch buffer, for mutation.
    pub fn scratch_mut(&mut self) -> (r: &mut Buffer)
        requires
            old(self)@.wf(),
        ensures
            (*r)@ == old(self)@.bufs[0],
            final(self)@.bufs.len() == old(self)@.bufs.len(),
            final(self)@.bufs[0] == final(r)@,
            forall|i: int|
                0 < i < old(self)@.bufs.len() ==> (#[trigger] final(self)@.bufs[i]) == old(
                    self,
                )@.bufs[i],
            final(self)@.current_buffer == old(self)@.current_buffer,
            final(self)@.last_buffer == old(self)@.last_buffer,
            final(self)@.clips == old(self)@.clips,
            final(self)@.should_quit == old(self)@.should_quit,
            final(self)@.status == old(self)@.status,
            final(self).clips_wf() == old(self).clips_wf(),
    {
        &mut self.bufs[0]
    }

    /// How many buffers are open, the scratch buffer included.
    pub fn buffer_count(&self) -> (n: usize)
        ensures
            n as int == self@.bufs.len(),
    {
        self.bufs.len()
    }

    /// The buffer in slot `i`.
    pub fn buffer(&self, i: usize) -> (r: &Buffer)
        requires
            i < self@.bufs.len(),
        ensures
            r@ == self@.bufs[i as int],
    {
        &self.bufs[i]
    }

    /// Index of the active buffer.
    pub fn current_buffer(&self) -> (r: usize)
        ensures
            r as int == self@.current_buffer,
    {
        self.current_buffer
    }

    /// Index of the previously active buffer.
    pub fn last_buffer(&self) -> (r: usize)
        ensures
            r as int == self@.last_buffer,
    {
        self.last_buffer
    }

    /// Whether a quit was requested.
    pub fn should_quit(&self) -> (r: bool)
        ensures
            r == self@.should_quit,
    {
        self.should_quit
    }

    /// The status text, if any.
    pub fn status(&self) -> (r: &Option<Vec<char>>)
        ensures
            match r {
                Some(t) => self@.status == Some(t@),
                None => self@.status is None,
            },
    {
        &self.status_text
    }

    /// Makes buffer `ix` active and remembers the one it replaces.
    pub fn move_to_buffer(&mut self, ix: usize)
        requires
            old(self)@.wf(),
            1 <= ix < old(self)@.bufs.len(),
        ensures
            final(self)@ == (StateModel {
                current_buffer: ix as int,
                last_buffer: old(self)@.current_buffer,
                ..old(self)@
            }),
            final(self)@.wf(),
            final(self).clips_wf() == old(self).clips_wf(),
    {
        self.last_buffer = self.current_buffer;
        self.current_buffer = ix;
        proof {
            assert(self@ =~~= (StateModel {
                current_buffer: ix as int,
                last_buffer: old(self)@.current_buffer,
                ..old(self)@
            }));
        }
    }

    /// Pushes `text` onto register `id`.
    pub fn push_clip(&mut self, id: &ClipstackId, text: Vec<char>)
        requires
            old(self).clips_wf(),
        ensures
            final(self)@ == (StateModel { clips: pushed(old(self)@.clips, id.0, text@), ..old(
                self,
            )@ }),
            final(self).clips_wf(),
    {
        self.clips.push(id, text);
        proof {
            assert(self@ =~~= (StateModel { clips: pushed(old(self)@.clips, id.0, text@), ..old(
                self,
            )@ }));
        }
    }

    /// The newest text on register `id`, without consuming it.
    pub fn top_clip(&self, id: &ClipstackId) -> (r: Option<Vec<char>>)
        requires
            self.clips_wf(),
        ensures
            match r {
                Some(t) => top_of(self@.clips, id.0) == Some(t@),
                None => top_of(self@.clips, id.0) is None,
            },
    {
        self.clips.top(id)
    }

    /// Removes and returns the newest text on register `id`.
    pub fn pop_clip(&mut self, id: &ClipstackId) -> (r: Option<Vec<char>>)
        requires
            old(self).clips_wf(),
        ensures
            final(self)@ == (StateModel { clips: popped(old(self)@.clips, id.0), ..old(self)@ }),
            final(self).clips_wf(),
            match r {
                Some(t) => top_of(old(self)@.clips, id.0) == Some(t@),
                None => top_of(old(self)@.clips, id.0) is None,
            },
    {
        let r = self.clips.pop(id);
        proof {
            assert(self@ =~~= (StateModel { clips: popped(old(self)@.clips, id.0), ..old(
                self,
            )@ }));
        }
        r
    }

    /// The registers as an ordered listing, one entry per register;
    /// [`lemma_state_entries_faithful`] says it enumerates the state's
    /// register map exactly.
    pub closed spec fn clip_entries(self) -> Seq<(char, Seq<Seq<char>>)> {
        self.clips.entries()
    }

    /// A diagnostic rendering of every register and its texts, oldest
    /// first: what the register-listing colon-command shows.
    pub fn registers_dump(&self) -> (r: Vec<char>)
        ensures
            r@ == dump_of(self.clip_entries()),
    {
        self.clips.dump()
    }

    /// Replaces the status text.
    pub fn set_status(&mut self, text: Option<Vec<char>>)
        ensures
            final(self)@ == (StateModel {
                status: match text {
                    Some(t) => Some(t@),
                    None => None,
                },
                ..old(self)@
            }),
            final(self).clips_wf() == old(self).clips_wf(),
            final(self).clip_entries() == old(self).clip_entries(),
    {
        self.status_text = text;
        proof {
            assert(self@ =~~= (StateModel {
                status: match text {
                    Some(t) => Some(t@),
                    None => None,
                },
                ..old(self)@
            }));
        }
    }
}

/// [`State::clip_entries`] enumerates the state's register map exactly:
/// each entry's register is in the map with that stack, no register
/// appears twice, and every register of the map appears.
pub proof fn lemma_state_entries_faithful(s: State)
    requires
        s.clips_wf(),
    ensures
        forall|i: int|
            0 <= i < s.clip_entries().len() ==> s@.clips.contains_key(
                #[trigger] s.clip_entries()[i].0,
            ) && s@.clips[s.clip_entries()[i].0] == s.clip_entries()[i].1,
        forall|i: int, j: int|
            0 <= i < j < s.clip_entries().len() ==> s.clip_entries()[i].0 != s.clip_entries()[j].0,
        forall|k: char|
            s@.clips.contains_key(k) ==> exists|i: int|
                0 <= i < s.clip_entries().len() && (#[trigger] s.clip_entries()[i]).0 == k,
{
    lemma_entries_faithful(s.clips);
    assert forall|k: char| s@.clips.contains_key(k) implies exists|i: int|
        0 <= i < s.clip_entries().len() && (#[trigger] s.clip_entries()[i]).0 == k by {
        let i = choose|i: int|
            0 <= i < s.clips.entries().len() && (#[trigger] s.clips.entries()[i]).0 == k;
        assert(0 <= i < s.clip_entries().len() && s.clip_entries()[i].0 == k);
    }
}

} // verus!
