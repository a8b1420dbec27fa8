//! Command mode: a restricted insert mode bound to the scratch buffer,
//! with Return and Escape intercepted. Return executes the scratch
//! line as a colon-command; either way the editor returns to normal
//! mode, a failure surfacing as status text, never as a stuck mode.

use vstd::prelude::*;

use crate::buffer::{join_nl, BufferModel};
use crate::editor::{IoRequest, Mode};
use crate::events::Event;
use crate::clip::dump_of;
use crate::insert::{insert_effect, InsertMode};
use crate::movement::{digit_char_val, is_digit_char};
use crate::normal::NormalMode;
use crate::state::{State, StateModel};

verus! {

/// Why a colon-command was refused.
#[derive(Clone, Copy, PartialEq, Eq, Structural, Debug)]
pub enum CommandReason {
    /// `e` without a path to edit.
    MissingPath,
    /// `b` without a buffer to switch to.
    MissingBufferIndex,
    /// `b` with an index that names no editable buffer.
    BadBufferIndex,
    /// `w` on a buffer that mirrors no file.
    NoFileBacking,
}

/// A refused colon-command: an unknown leading token, or a known one
/// with malformed arguments. Neither changes which buffer is active.
#[derive(Clone, Copy, PartialEq, Eq, Structural, Debug)]
pub enum CommandError {
    UnknownCommand,
    InvalidCommand(Option<CommandReason>),
}

/// A recognised colon-command.
#[derive(Debug, PartialEq, Eq)]
pub enum Command {
    /// `q`: ask the editor to quit.
    Quit,
    /// `w`: persist the active buffer.
    Write,
    /// `e <path>`: open the file at `path` and make it active.
    Edit(Vec<char>),
    /// `b <index>`: make buffer `index` active.
    SwitchTo(usize),
    /// `b #`: make the previously active buffer active again.
    SwitchLast,
    /// `"`: show the registers.
    ListRegisters,
}

/// The spec-level shape of a parsed colon-command line.
pub enum ParsedCommand {
    Quit,
    Write,
    Edit(Seq<char>),
    SwitchTo(int),
    SwitchLast,
    ListRegisters,
    Bad(CommandError),
}

/// The blanks that separate colon-command words.
pub open spec fn is_blank(c: char) -> bool {
    c == ' ' || c == '\t'
}

/// First index at or after `i` that holds a non-blank, or the length.
pub open spec fn skip_blanks(s: Seq<char>, i: int) -> int
    recommends
        0 <= i <= s.len(),
    decreases s.len() - i when 0 <= i <= s.len()
{
    if i < s.len() && is_blank(s[i]) {
        skip_blanks(s, i + 1)
    } else {
        i
    }
}

/// First index at or after `i` that holds a blank, or the length.
pub open spec fn word_end(s: Seq<char>, i: int) -> int
    recommends
        0 <= i <= s.len(),
    decreases s.len() - i when 0 <= i <= s.len()
{
    if i < s.len() && !is_blank(s[i]) {
        word_end(s, i + 1)
    } else {
        i
    }
}

/// Where `skip_blanks` points: past a run of blanks, at a non-blank
/// unless it reached the end.
proof fn lemma_skip_blanks(s: Seq<char>, i: int)
    requires
        0 <= i <= s.len(),
    ensures
        i <= skip_blanks(s, i) <= s.len(),
        skip_blanks(s, i) < s.len() ==> !is_blank(s[skip_blanks(s, i)]),
        forall|t: int| i <= t < skip_blanks(s, i) ==> is_blank(s[t]),
    decreases s.len() - i,
{
    if i < s.len() && is_blank(s[i]) {
        lemma_skip_blanks(s, i + 1);
    }
}

/// Where `word_end` points: past a run of non-blanks, at a blank
/// unless it reached the end; a word that starts on a non-blank is
/// not empty.
proof fn lemma_word_end(s: Seq<char>, i: int)
    requires
        0 <= i <= s.len(),
    ensures
        i <= word_end(s, i) <= s.len(),
        word_end(s, i) < s.len() ==> is_blank(s[word_end(s, i)]),
        forall|t: int| i <= t < word_end(s, i) ==> !is_blank(s[t]),
        (i < s.len() && !is_blank(s[i])) ==> word_end(s, i) >= i + 1,
    decreases s.len() - i,
{
    if i < s.len() && !is_blank(s[i]) {
        lemma_word_end(s, i + 1);
    }
}

/// The base-ten value of `s`, when `s` is one or more digits and the
/// value fits the machine; anything else is refused.
pub open spec fn cmd_num(s: Seq<char>, i: int, j: int, acc: int) -> Option<int>
    recommends
        0 <= i <= j <= s.len(),
    decreases j - i when i <= j
{
    if i >= j {
        Some(acc)
    } else if !is_digit_char(s[i]) {
        None
    } else {
        let v = acc * 10 + digit_char_val(s[i]);
        if v > usize::MAX as int {
            None
        } else {
            cmd_num(s, i + 1, j, v)
        }
    }
}

/// The colon-command grammar over one line: the first blank-separated
/// word decides. `q`, `w` and `"` stand alone; `e` takes a path and
/// `b` a buffer index or `#`, either glued to the letter or as the
/// next word.
pub open spec fn command_of(s: Seq<char>) -> ParsedCommand {
    let i = skip_blanks(s, 0);
    let j = word_end(s, i);
    if i >= s.len() {
        ParsedCommand::Bad(CommandError::UnknownCommand)
    } else {
        let w = s.subrange(i, j);
        if w =~= seq!['q'] {
            ParsedCommand::Quit
        } else if w =~= seq!['w'] {
            ParsedCommand::Write
        } else if w =~= seq!['"'] {
            ParsedCommand::ListRegisters
        } else if w[0] == 'e' {
            let arg = if j - i >= 2 {
                w.skip(1)
            } else {
                let a = skip_blanks(s, j);
                let b = word_end(s, a);
                s.subrange(a, b)
            };
            if arg.len() == 0 {
                ParsedCommand::Bad(CommandError::InvalidCommand(Some(CommandReason::MissingPath)))
            } else {
                ParsedCommand::Edit(arg)
            }
        } else if w[0] == 'b' {
            let arg = if j - i >= 2 {
                w.skip(1)
            } else {
                let a = skip_blanks(s, j);
                let b = word_end(s, a);
                s.subrange(a, b)
            };
            if arg.len() == 0 {
                ParsedCommand::Bad(
                    CommandError::InvalidCommand(Some(CommandReason::MissingBufferIndex)),
                )
            } else if arg =~= seq!['#'] {
                ParsedCommand::SwitchLast
            } else {
                match cmd_num(arg, 0, arg.len() as int, 0) {
                    Some(n) => ParsedCommand::SwitchTo(n),
                    None => ParsedCommand::Bad(
                        CommandError::InvalidCommand(Some(CommandReason::BadBufferIndex)),
                    ),
                }
            }
        } else {
            ParsedCommand::Bad(CommandError::UnknownCommand)
        }
    }
}

impl CommandError {
    /// A short, fixed description for the status line.
    pub open spec fn text_spec(self) -> Seq<char> {
        match self {
            CommandError::UnknownCommand => seq!['u', 'n', 'k', 'n', 'o', 'w', 'n'],
            CommandError::InvalidCommand(r) => match r {
                Some(CommandReason::MissingPath) => seq!['n', 'o', ' ', 'p', 'a', 't', 'h'],
                Some(CommandReason::MissingBufferIndex) => seq![
                    'n',
                    'o',
                    ' ',
                    'b',
                    'u',
                    'f',
                    'f',
                    'e',
                    'r',
                ],
                Some(CommandReason::BadBufferIndex) => seq![
                    'b',
                    'a',
                    'd',
                    ' ',
                    'b',
                    'u',
                    'f',
                    'f',
                    'e',
                    'r',
                ],
                Some(CommandReason::NoFileBacking) => seq!['n', 'o', ' ', 'f', 'i', 'l', 'e'],
                None => seq!['i', 'n', 'v', 'a', 'l', 'i', 'd'],
            },
        }
    }

    /// The description, as characters for the status line.
    pub fn description(&self) -> (r: Vec<char>)
        ensures
            r@ == self.text_spec(),
    {
        let mut r: Vec<char> = Vec::new();
        match self {
            CommandError::UnknownCommand => {
                r.push('u');
                r.push('n');
                r.push('k');
                r.push('n');
                r.push('o');
                r.push('w');
                r.push('n');
            },
            CommandError::InvalidCommand(reason) => match reason {
                Some(CommandReason::MissingPath) => {
                    r.push('n');
                    r.push('o');
                    r.push(' ');
                    r.push('p');
                    r.push('a');
                    r.push('t');
                    r.push('h');
                },
                Some(CommandReason::MissingBufferIndex) => {
                    r.push('n');
                    r.push('o');
                    r.push(' ');
                    r.push('b');
                    r.push('u');
                    r.push('f');
                    r.push('f');
                    r.push('e');
                    r.push('r');
                },
                Some(CommandReason::BadBufferIndex) => {
                    r.push('b');
                    r.push('a');
                    r.push('d');
                    r.push(' ');
                    r.push('b');
                    r.push('u');
                    r.push('f');
                    r.push('f');
                    r.push('e');
                    r.push('r');
                },
                Some(CommandReason::NoFileBacking) => {
                    r.push('n');
                    r.push('o');
                    r.push(' ');
                    r.push('f');
                    r.push('i');
                    r.push('l');
                    r.push('e');
                },
                None => {
                    r.push('i');
                    r.push('n');
                    r.push('v');
                    r.push('a');
                    r.push('l');
                    r.push('i');
                    r.push('d');
                },
            },
        }
        proof {
            assert(r@ =~= self.text_spec());
        }
        r
    }
}

/// Parses one colon-command line, mirroring [`command_of`].
pub fn parse_command(line: &Vec<char>) -> (r: Result<Command, CommandError>)
    ensures
        ({
            let c = command_of(line@);
            match r {
                Ok(Command::Quit) => c == ParsedCommand::Quit,
                Ok(Command::Write) => c == ParsedCommand::Write,
                Ok(Command::Edit(p)) => c == ParsedCommand::Edit(p@),
                Ok(Command::SwitchTo(i)) => c == ParsedCommand::SwitchTo(i as int),
                Ok(Command::SwitchLast) => c == ParsedCommand::SwitchLast,
                Ok(Command::ListRegisters) => c == ParsedCommand::ListRegisters,
                Err(e) => c == ParsedCommand::Bad(e),
            }
        }),
{
    let n = line.len();
    let i = skip_blanks_exec(line, 0);
    let j = word_end_exec(line, i);
    if i >= n {
        return Err(CommandError::UnknownCommand);
    }
    proof {
        lemma_skip_blanks(line@, 0);
        lemma_word_end(line@, i as int);
        assert(line@.subrange(i as int, j as int)[0] == line@[i as int]);
    }
    let c0 = line[i];
    let wlen = j - i;
    if wlen == 1 && c0 == 'q' {
        proof {
            assert(line@.subrange(i as int, j as int) =~= seq!['q']);
        }
        Ok(Command::Quit)
    } else if wlen == 1 && c0 == 'w' {
        proof {
            assert(line@.subrange(i as int, j as int) =~= seq!['w']);
        }
        Ok(Command::Write)
    } else if wlen == 1 && c0 == '"' {
        proof {
            assert(line@.subrange(i as int, j as int) =~= seq!['"']);
        }
        Ok(Command::ListRegisters)
    } else if c0 == 'e' {
        proof {
            lemma_word_not_single(line@, i as int, j as int, 'q');
            lemma_word_not_single(line@, i as int, j as int, 'w');
            lemma_word_not_single(line@, i as int, j as int, '"');
        }
        let (a, b) = if wlen >= 2 {
            (i + 1, j)
        } else {
            let a = skip_blanks_exec(line, j);
            let b = word_end_exec(line, a);
            (a, b)
        };
        proof {
            if wlen >= 2 {
                assert(line@.subrange(i as int, j as int).skip(1) =~= line@.subrange(
                    i as int + 1,
                    j as int,
                ));
            }
        }
        if a == b {
            Err(CommandError::InvalidCommand(Some(CommandReason::MissingPath)))
        } else {
            let path = crate::clip::clone_range(line, a, b);
            Ok(Command::Edit(path))
        }
    } else if c0 == 'b' {
        proof {
            lemma_word_not_single(line@, i as int, j as int, 'q');
            lemma_word_not_single(line@, i as int, j as int, 'w');
            lemma_word_not_single(line@, i as int, j as int, '"');
        }
        let (a, b) = if wlen >= 2 {
            (i + 1, j)
        } else {
            let a = skip_blanks_exec(line, j);
            let b = word_end_exec(line, a);
            (a, b)
        };
        proof {
            if wlen >= 2 {
                assert(line@.subrange(i as int, j as int).skip(1) =~= line@.subrange(
                    i as int + 1,
                    j as int,
                ));
            }
        }
        if a == b {
            Err(CommandError::InvalidCommand(Some(CommandReason::MissingBufferIndex)))
        } else if b - a == 1 && line[a] == '#' {
            proof {
                assert(line@.subrange(a as int, b as int) =~= seq!['#']);
            }
            Ok(Command::SwitchLast)
        } else {
            proof {
                assert(!(line@.subrange(a as int, b as int) =~= seq!['#']));
            }
            match parse_cmd_num(line, a, b) {
                Some(v) => Ok(Command::SwitchTo(v)),
                None => Err(CommandError::InvalidCommand(Some(CommandReason::BadBufferIndex))),
            }
        }
    } else {
        proof {
            lemma_word_not_single(line@, i as int, j as int, 'q');
            lemma_word_not_single(line@, i as int, j as int, 'w');
            lemma_word_not_single(line@, i as int, j as int, '"');
        }
        Err(CommandError::UnknownCommand)
    }
}

/// A word whose first character is not `c`, or whose length is not one,
/// is not the one-letter word `c`.
proof fn lemma_word_not_single(s: Seq<char>, i: int, j: int, c: char)
    requires
        0 <= i <= j <= s.len(),
    ensures
        (i < j && (j - i != 1 || s[i] != c)) ==> !(s.subrange(i, j) =~= seq![c]),
{
    if i < j && (j - i != 1 || s[i] != c) {
        if s.subrange(i, j) =~= seq![c] {
            assert(s.subrange(i, j)[0] == s[i]);
        }
    }
}

/// Executable [`skip_blanks`].
fn skip_blanks_exec(s: &Vec<char>, from: usize) -> (r: usize)
    requires
        from <= s@.len(),
    ensures
        r as int == skip_blanks(s@, from as int),
        from <= r <= s@.len(),
    decreases s@.len() - from,
{
    if from < s.len() && (s[from] == ' ' || s[from] == '\t') {
        skip_blanks_exec(s, from + 1)
    } else {
        from
    }
}

/// Executable [`word_end`].
fn word_end_exec(s: &Vec<char>, from: usize) -> (r: usize)
    requires
        from <= s@.len(),
    ensures
        r as int == word_end(s@, from as int),
        from <= r <= s@.len(),
    decreases s@.len() - from,
{
    if from < s.len() && !(s[from] == ' ' || s[from] == '\t') {
        word_end_exec(s, from + 1)
    } else {
        from
    }
}

/// Executable [`cmd_num`] over `s[a .. b]`.
#[verifier::loop_isolation(false)]
fn parse_cmd_num(s: &Vec<char>, a: usize, b: usize) -> (r: Option<usize>)
    requires
        a <= b <= s@.len(),
    ensures
        ({
            let m = cmd_num(s@.subrange(a as int, b as int), 0, b - a, 0);
            match r {
                Some(v) => m == Some(v as int),
                None => m is None,
            }
        }),
{
    let ghost w = s@.subrange(a as int, b as int);
    let mut acc: usize = 0;
    let mut k: usize = a;
    while k < b
        invariant
            a <= k <= b,
            cmd_num(w, 0, b - a, 0) == cmd_num(w, k - a, b - a, acc as int),
        decreases b - k,
    {
        let c = s[k];
        let u = c as u32;
        if !(48 <= u && u <= 57) {
            proof {
                assert(w[k - a] == s@[k as int]);
            }
            return None;
        }
        let d = (u - 48) as usize;
        let wide: u128 = acc as u128 * 10 + d as u128;
        if wide > usize::MAX as u128 {
            proof {
                assert(w[k - a] == s@[k as int]);
                assert(acc as int * 10 + digit_char_val(w[k - a]) > usize::MAX as int);
            }
            return None;
        }
        proof {
            assert(w[k - a] == s@[k as int]);
        }
        acc = wide as usize;
        k = k + 1;
    }
    Some(acc)
}

/// The scratch buffer reset and hidden, as every exit from command
/// mode leaves it.
pub open spec fn with_scratch_reset(s: StateModel) -> StateModel {
    StateModel {
        bufs: s.bufs.update(0, (BufferModel { show_cursor: false, ..s.bufs[0].cleared() })),
        ..s
    }
}

/// The state pressing Return in command mode leaves behind: the status
/// cleared, the scratch line executed as a colon-command per
/// [`command_of`], and the scratch buffer reset and hidden. A refused
/// command or an unbacked `w` lands in the status text; the register
/// listing lands there too; the return to normal mode is the caller's.
pub open spec fn command_return_state(st: State) -> StateModel {
    let s = st@;
    let c = command_of(s.bufs[0].lines.last());
    let s1 = StateModel { status: None, ..s };
    match c {
        ParsedCommand::Quit => with_scratch_reset(StateModel { should_quit: true, ..s1 }),
        ParsedCommand::Write => match s.cur().fs_loc {
            Some(_) => with_scratch_reset(s1),
            None => StateModel {
                status: Some(
                    CommandError::InvalidCommand(Some(CommandReason::NoFileBacking)).text_spec(),
                ),
                ..with_scratch_reset(s1)
            },
        },
        ParsedCommand::Edit(_) => with_scratch_reset(s1),
        ParsedCommand::SwitchTo(ix) => if 1 <= ix < s.bufs.len() {
            with_scratch_reset(
                StateModel { current_buffer: ix, last_buffer: s.current_buffer, ..s1 },
            )
        } else {
            StateModel {
                status: Some(
                    CommandError::InvalidCommand(Some(CommandReason::BadBufferIndex)).text_spec(),
                ),
                ..with_scratch_reset(s1)
            }
        },
        ParsedCommand::SwitchLast => with_scratch_reset(
            StateModel { current_buffer: s.last_buffer, last_buffer: s.current_buffer, ..s1 },
        ),
        ParsedCommand::ListRegisters => StateModel {
            status: Some(dump_of(st.clip_entries())),
            ..with_scratch_reset(s1)
        },
        ParsedCommand::Bad(err) => StateModel {
            status: Some(err.text_spec()),
            ..with_scratch_reset(s1)
        },
    }
}

/// The file request pressing Return in command mode hands out: a save
/// of the active buffer for `w` on a backed buffer, a load of the named
/// path for `e`, and nothing for every other command.
pub open spec fn command_return_io(st: State, io: Option<IoRequest>) -> bool {
    let s = st@;
    match command_of(s.bufs[0].lines.last()) {
        ParsedCommand::Write => match s.cur().fs_loc {
            Some(p) => match io {
                Some(IoRequest::Save { path, contents }) => path@ == p && contents@ == join_nl(
                    s.cur().lines,
                ),
                _ => false,
            },
            None => io is None,
        },
        ParsedCommand::Edit(p) => match io {
            Some(IoRequest::Load { path }) => path@ == p,
            _ => false,
        },
        _ => io is None,
    }
}

/// Whether Return in command mode produces a file request at all.
pub open spec fn command_produces_io(st: State) -> bool {
    match command_of(st@.bufs[0].lines.last()) {
        ParsedCommand::Write => st@.cur().fs_loc is Some,
        ParsedCommand::Edit(_) => true,
        _ => false,
    }
}

/// Command mode: an insert mode pinned to the scratch buffer.
pub struct CommandMode {
    /// Edits the scratch line between Return and Escape.
    pub inserter: InsertMode,
}

impl CommandMode {
    /// Enters command mode: the scratch buffer is cleared and its
    /// cursor made visible.
    pub fn new(state: &mut State) -> (r: CommandMode)
        requires
            old(state)@.wf(),
        ensures
            r == (CommandMode { inserter: InsertMode { target_buffer: Some(0) } }),
            final(state)@ == (StateModel {
                bufs: old(state)@.bufs.update(
                    0,
                    (BufferModel { show_cursor: true, ..old(state)@.bufs[0].cleared() }),
                ),
                ..old(state)@
            }),
            final(state)@.wf(),
            final(state).clips_wf() == old(state).clips_wf(),
    {
        let ghost s0 = state@;
        let scratch = state.scratch_mut();
        scratch.clear();
        scratch.set_show_cursor(true);
        proof {
            assert(state@.bufs =~= s0.bufs.update(
                0,
                (BufferModel { show_cursor: true, ..s0.bufs[0].cleared() }),
            ));
            assert(state@ =~~= (StateModel {
                bufs: s0.bufs.update(
                    0,
                    (BufferModel { show_cursor: true, ..s0.bufs[0].cleared() }),
                ),
                ..s0
            }));
        }
        CommandMode { inserter: InsertMode { target_buffer: Some(0) } }
    }

    /// Executes the scratch buffer's last line as a colon-command.
    ///
    /// `q` raises the quit flag; `w` asks for the active buffer to be
    /// saved and `e` for a file to be loaded — both come back as an
    /// [`IoRequest`] for the surrounding loop, since the core itself
    /// touches no file. `b` switches buffers at once, `"` surfaces the
    /// registers as status text, and anything else is refused without
    /// changing which buffer is active.
    pub fn execute(&self, state: &mut State) -> (r: Result<Option<IoRequest>, CommandError>)
        requires
            old(state)@.wf(),
            old(state).clips_wf(),
        ensures
            final(state)@.wf(),
            final(state).clips_wf(),
            ({
                let c = command_of(old(state)@.bufs[0].lines.last());
                match c {
                    ParsedCommand::Quit => r == Ok::<Option<IoRequest>, CommandError>(None)
                        && final(state)@ == (StateModel { should_quit: true, ..old(state)@ }),
                    ParsedCommand::Write => match old(state)@.cur().fs_loc {
                        Some(p) => final(state)@ == old(state)@ && match r {
                            Ok(Some(IoRequest::Save { path, contents })) => path@ == p
                                && contents@ == join_nl(old(state)@.cur().lines),
                            _ => false,
                        },
                        None => final(state)@ == old(state)@ && r == Err::<
                            Option<IoRequest>,
                            CommandError,
                        >(CommandError::InvalidCommand(Some(CommandReason::NoFileBacking))),
                    },
                    ParsedCommand::Edit(p) => final(state)@ == old(state)@ && match r {
                        Ok(Some(IoRequest::Load { path })) => path@ == p,
                        _ => false,
                    },
                    ParsedCommand::SwitchTo(ix) => if 1 <= ix < old(state)@.bufs.len() {
                        r == Ok::<Option<IoRequest>, CommandError>(None) && final(state)@
                            == (StateModel {
                            current_buffer: ix,
                            last_buffer: old(state)@.current_buffer,
                            ..old(state)@
                        })
                    } else {
                        final(state)@ == old(state)@ && r == Err::<
                            Option<IoRequest>,
                            CommandError,
                        >(CommandError::InvalidCommand(Some(CommandReason::BadBufferIndex)))
                    },
                    ParsedCommand::SwitchLast => r == Ok::<Option<IoRequest>, CommandError>(None)
                        && final(state)@ == (StateModel {
                        current_buffer: old(state)@.last_buffer,
                        last_buffer: old(state)@.current_buffer,
                        ..old(state)@
                    }),
                    ParsedCommand::ListRegisters => r == Ok::<Option<IoRequest>, CommandError>(
                        None,
                    ) && final(state)@ == (StateModel {
                        status: Some(dump_of(old(state).clip_entries())),
                        ..old(state)@
                    }),
                    ParsedCommand::Bad(e) => final(state)@ == old(state)@ && r == Err::<
                        Option<IoRequest>,
                        CommandError,
                    >(e),
                }
            }),
    {
        let lc = state.scratch().line_count();
        let sc_len = state.scratch().line(lc - 1).len();
        let line = crate::clip::clone_range(state.scratch().line(lc - 1), 0, sc_len);
        proof {
            assert(line@ =~= old(state)@.bufs[0].lines.last());
        }
        match parse_command(&line) {
            Ok(Command::Quit) => {
                state.set_quit();
                Ok(None)
            },
            Ok(Command::Write) => {
                let has_loc = state.buf().fs_loc().is_some();
                if !has_loc {
                    return Err(CommandError::InvalidCommand(Some(CommandReason::NoFileBacking)));
                }
                let path = match state.buf().fs_loc() {
                    Some(p) => crate::clip::clone_range(p, 0, p.len()),
                    None => Vec::new(),
                };
                let contents = state.buf().contents();
                proof {
                    match old(state)@.cur().fs_loc {
                        Some(pp) => {
                            assert(path@ =~= pp);
                        },
                        None => {},
                    }
                }
                Ok(Some(IoRequest::Save { path, contents }))
            },
            Ok(Command::Edit(p)) => Ok(Some(IoRequest::Load { path: p })),
            Ok(Command::SwitchTo(ix)) => {
                let count = state.buffer_count();
                if ix < 1 || ix >= count {
                    Err(CommandError::InvalidCommand(Some(CommandReason::BadBufferIndex)))
                } else {
                    state.move_to_buffer(ix);
                    Ok(None)
                }
            },
            Ok(Command::SwitchLast) => {
                let ix = state.last_buffer();
                state.move_to_buffer(ix);
                Ok(None)
            },
            Ok(Command::ListRegisters) => {
                let dump = state.registers_dump();
                state.set_status(Some(dump));
                Ok(None)
            },
            Err(e) => Err(e),
        }
    }

    /// Feeds one event to command mode. Return executes the scratch
    /// line, then clears and hides it and goes back to normal mode —
    /// success clearing the status, a failure or an I/O request
    /// surfacing through it; Escape discards the scratch line the same
    /// way; anything else edits the scratch line as insert mode would.
    pub fn event(&mut self, e: Event, state: &mut State) -> (r: (Option<Mode>, Option<IoRequest>))
        requires
            old(state)@.wf(),
            old(state).clips_wf(),
            self.inserter.target_buffer == Some(0usize),
        ensures
            final(state)@.wf(),
            final(state).clips_wf(),
            *final(self) == *old(self),
            final(state)@.bufs.len() == old(state)@.bufs.len(),
            match e {
                Event::Return | Event::Escape => match r.0 {
                    Some(m) => m matches Mode::Normal(n) && n.buf@ == Seq::<char>::empty(),
                    None => false,
                },
                _ => r.0 is None && r.1 is None,
            },
            e == Event::Escape ==> r.1 is None && final(state)@ == (StateModel {
                bufs: old(state)@.bufs.update(
                    0,
                    (BufferModel {
                        show_cursor: false,
                        ..old(state)@.bufs[0].cleared()
                    }),
                ),
                ..old(state)@
            }),
            e == Event::Return ==> final(state)@ == command_return_state(*old(state))
                && command_return_io(*old(state), r.1),
            !(e == Event::Return || e == Event::Escape) ==> final(state)@ == (StateModel {
                bufs: old(state)@.bufs.update(
                    0,
                    insert_effect(old(state)@.bufs[0], e),
                ),
                ..old(state)@
            }),
    {
        match e {
            Event::Return => {
                // A fresh attempt clears what the last one reported; the
                // command may set its own status below.
                state.set_status(None);
                let res = self.execute(state);
                let scratch = state.scratch_mut();
                scratch.set_show_cursor(false);
                scratch.clear();
                let io = match res {
                    Ok(io) => io,
                    Err(err) => {
                        let text = err.description();
                        state.set_status(Some(text));
                        None
                    },
                };
                proof {
                    assert(state@ =~~= command_return_state(*old(state)));
                    assert(command_return_io(*old(state), io));
                }
                (Some(Mode::Normal(NormalMode::new())), io)
            },
            Event::Escape => {
                let scratch = state.scratch_mut();
                scratch.set_show_cursor(false);
                scratch.clear();
                (Some(Mode::Normal(NormalMode::new())), None)
            },
            _ => {
                let next = self.inserter.event(e, state);
                (next, None)
            },
        }
    }
}

} // verus!
