use txd::buffer::Buffer;
use txd::clip::ClipstackId;
use txd::command::{parse_command, Command, CommandError, CommandReason};
use txd::editor::{Editor, IoError, IoReply, IoRequest, Mode};
use txd::events::Event;
use txd::normal::Action;

fn chars(s: &str) -> Vec<char> {
    s.chars().collect()
}

fn type_chars(ed: &mut Editor, s: &str) {
    for c in s.chars() {
        ed.event(Event::Char(c));
    }
}

fn editor_on(text: &str) -> Editor {
    let mut ed = Editor::new();
    ed.open_buffer(chars("work.txt"), &chars(text));
    ed
}

#[test]
fn action_parse_recognises_operators_and_registers() {
    assert_eq!(Action::parse(&chars("x")), Some(Action::Delete(
        txd::movement::Movement::Char(true),
        ClipstackId('"'),
    )));
    assert_eq!(Action::parse(&chars("p")), Some(Action::Put(ClipstackId('"'), true)));
    assert_eq!(Action::parse(&chars("P")), Some(Action::Put(ClipstackId('"'), false)));
    assert_eq!(Action::parse(&chars("\"ap")), Some(Action::Put(ClipstackId('a'), true)));
    assert_eq!(Action::parse(&chars("rz")), Some(Action::Replace('z')));
    assert_eq!(Action::parse(&chars("i")), Some(Action::Insert));
    assert_eq!(Action::parse(&chars(";")), Some(Action::Command));
    // partial input keeps accumulating
    assert_eq!(Action::parse(&chars("d")), None);
    assert_eq!(Action::parse(&chars("\"")), None);
    assert_eq!(Action::parse(&chars("\"a")), None);
    assert_eq!(Action::parse(&chars("3")), None);
}

#[test]
fn delete_word_scenario() {
    // buffer ["alpha beta", "gamma"], cursor (0,0); "dw" leaves "beta",
    // the cursor at column 0, and "alpha " on the default register
    let mut ed = editor_on("alpha beta\ngamma\n");
    type_chars(&mut ed, "dw");
    assert_eq!(ed.state.buf().line(0), &chars("beta"));
    assert_eq!(ed.state.buf().line(1), &chars("gamma"));
    assert_eq!(ed.state.buf().curr_loc(), (0, 0));
    assert_eq!(ed.state.top_clip(&ClipstackId('"')), Some(chars("alpha ")));
}

#[test]
fn delete_line_scenario() {
    // buffer ["one","two","three"], cursor on line 0; "dd" removes the
    // first line and the cursor stays on line 0
    let mut ed = editor_on("one\ntwo\nthree\n");
    type_chars(&mut ed, "dd");
    assert_eq!(ed.state.buf().line_count(), 2);
    assert_eq!(ed.state.buf().line(0), &chars("two"));
    assert_eq!(ed.state.buf().line(1), &chars("three"));
    assert_eq!(ed.state.buf().curr_loc().1, 0);
    assert_eq!(ed.state.top_clip(&ClipstackId('"')), Some(chars("one\n")));
}

#[test]
fn quit_command_scenario() {
    // command-mode scratch holds "q"; Return sets the quit flag and
    // the mode returns to normal
    let mut ed = editor_on("text\n");
    type_chars(&mut ed, ";q");
    assert!(matches!(ed.mode, Mode::Command(_)));
    let quit = ed.event(Event::Return);
    assert!(quit);
    assert!(ed.state.should_quit());
    assert!(matches!(ed.mode, Mode::Normal(_)));
}

#[test]
fn escape_discards_pending_input() {
    let mut ed = editor_on("alpha beta\n");
    type_chars(&mut ed, "d");
    assert!(ed.mode.pending_command().is_some());
    ed.event(Event::Escape);
    assert!(ed.mode.pending_command().is_none());
    // the buffer was never touched
    assert_eq!(ed.state.buf().line(0), &chars("alpha beta"));
}

#[test]
fn x_deletes_character_under_cursor() {
    let mut ed = editor_on("abc\n");
    type_chars(&mut ed, "x");
    assert_eq!(ed.state.buf().line(0), &chars("bc"));
}

#[test]
fn replace_substitutes_without_advancing() {
    let mut ed = editor_on("abc\n");
    type_chars(&mut ed, "rz");
    assert_eq!(ed.state.buf().line(0), &chars("zbc"));
    assert_eq!(ed.state.buf().curr_loc(), (0, 0));
}

#[test]
fn yank_then_put_splices_at_cursor() {
    let mut ed = editor_on("one two\n");
    type_chars(&mut ed, "yw");
    assert_eq!(ed.state.top_clip(&ClipstackId('"')), Some(chars("one ")));
    assert_eq!(ed.state.buf().line(0), &chars("one two"));
    type_chars(&mut ed, "p");
    assert_eq!(ed.state.buf().line(0), &chars("one one two"));
    // p consumed the register
    assert_eq!(ed.state.top_clip(&ClipstackId('"')), None);
}

#[test]
fn capital_put_keeps_the_register() {
    let mut ed = editor_on("ab cd\n");
    type_chars(&mut ed, "yw");
    type_chars(&mut ed, "P");
    type_chars(&mut ed, "P");
    assert_eq!(ed.state.top_clip(&ClipstackId('"')), Some(chars("ab ")));
    assert_eq!(ed.state.buf().line(0), &chars("ab ab ab cd"));
}

#[test]
fn put_from_empty_register_is_a_silent_no_op() {
    let mut ed = editor_on("abc\n");
    type_chars(&mut ed, "p");
    assert_eq!(ed.state.buf().line(0), &chars("abc"));
    assert!(matches!(ed.mode, Mode::Normal(_)));
}

#[test]
fn named_register_delete_and_put() {
    let mut ed = editor_on("alpha beta\n");
    type_chars(&mut ed, "\"adw");
    assert_eq!(ed.state.top_clip(&ClipstackId('a')), Some(chars("alpha ")));
    assert_eq!(ed.state.top_clip(&ClipstackId('"')), None);
    type_chars(&mut ed, "\"ap");
    assert_eq!(ed.state.buf().line(0), &chars("alpha beta"));
}

#[test]
fn change_deletes_and_enters_insert_mode() {
    let mut ed = editor_on("alpha beta\n");
    type_chars(&mut ed, "cw");
    assert!(matches!(ed.mode, Mode::Insert(_)));
    assert_eq!(ed.state.buf().line(0), &chars("beta"));
    type_chars(&mut ed, "X");
    assert_eq!(ed.state.buf().line(0), &chars("Xbeta"));
    ed.event(Event::Escape);
    assert!(matches!(ed.mode, Mode::Normal(_)));
}

#[test]
fn insert_mode_edits_and_breaks_lines() {
    let mut ed = editor_on("ad\n");
    type_chars(&mut ed, "lib");
    // 'l' moved right, 'i' entered insert, 'b' was typed
    assert_eq!(ed.state.buf().line(0), &chars("abd"));
    type_chars(&mut ed, "c");
    assert_eq!(ed.state.buf().line(0), &chars("abcd"));
    ed.event(Event::Return);
    assert_eq!(ed.state.buf().line_count(), 2);
    ed.event(Event::Escape);
    assert!(matches!(ed.mode, Mode::Normal(_)));
}

#[test]
fn insert_mode_backspace_is_a_no_op_at_column_zero() {
    let mut ed = editor_on("abc\n");
    type_chars(&mut ed, "i");
    ed.event(Event::Backspace);
    assert_eq!(ed.state.buf().line(0), &chars("abc"));
    type_chars(&mut ed, "xy");
    ed.event(Event::Backspace);
    assert_eq!(ed.state.buf().line(0), &chars("xabc"));
}

#[test]
fn append_enters_insert_one_column_right() {
    let mut ed = editor_on("ac\n");
    type_chars(&mut ed, "ab");
    assert_eq!(ed.state.buf().line(0), &chars("abc"));
}

#[test]
fn open_line_inserts_below() {
    let mut ed = editor_on("top\nbottom\n");
    type_chars(&mut ed, "omid");
    assert_eq!(ed.state.buf().line_count(), 3);
    assert_eq!(ed.state.buf().line(1), &chars("mid"));
    assert!(matches!(ed.mode, Mode::Insert(_)));
}

#[test]
fn parse_command_grammar() {
    assert_eq!(parse_command(&chars("q")), Ok(Command::Quit));
    assert_eq!(parse_command(&chars("w")), Ok(Command::Write));
    assert_eq!(parse_command(&chars("\"")), Ok(Command::ListRegisters));
    assert_eq!(parse_command(&chars("e notes.txt")), Ok(Command::Edit(chars("notes.txt"))));
    assert_eq!(parse_command(&chars("enotes.txt")), Ok(Command::Edit(chars("notes.txt"))));
    assert_eq!(parse_command(&chars("b 2")), Ok(Command::SwitchTo(2)));
    assert_eq!(parse_command(&chars("b2")), Ok(Command::SwitchTo(2)));
    assert_eq!(parse_command(&chars("b #")), Ok(Command::SwitchLast));
    assert_eq!(
        parse_command(&chars("e")),
        Err(CommandError::InvalidCommand(Some(CommandReason::MissingPath)))
    );
    assert_eq!(
        parse_command(&chars("b")),
        Err(CommandError::InvalidCommand(Some(CommandReason::MissingBufferIndex)))
    );
    assert_eq!(
        parse_command(&chars("b x7")),
        Err(CommandError::InvalidCommand(Some(CommandReason::BadBufferIndex)))
    );
    assert_eq!(parse_command(&chars("frobnicate")), Err(CommandError::UnknownCommand));
    assert_eq!(parse_command(&chars("")), Err(CommandError::UnknownCommand));
}

#[test]
fn unknown_command_surfaces_as_status_and_returns_to_normal() {
    let mut ed = editor_on("text\n");
    type_chars(&mut ed, ";zz");
    ed.event(Event::Return);
    assert!(matches!(ed.mode, Mode::Normal(_)));
    assert_eq!(ed.state.status(), &Some(chars("unknown")));
    // the active buffer did not change
    assert_eq!(ed.state.current_buffer(), 2);
}

#[test]
fn bad_buffer_index_is_refused() {
    let mut ed = editor_on("text\n");
    type_chars(&mut ed, ";b9");
    ed.event(Event::Return);
    assert_eq!(ed.state.status(), &Some(chars("bad buffer")));
    assert_eq!(ed.state.current_buffer(), 2);
}

#[test]
fn switch_buffer_by_index_and_back() {
    let mut ed = editor_on("first\n");
    ed.open_buffer(chars("second.txt"), &chars("second\n"));
    assert_eq!(ed.state.current_buffer(), 3);
    type_chars(&mut ed, ";b2");
    ed.event(Event::Return);
    assert_eq!(ed.state.current_buffer(), 2);
    assert_eq!(ed.state.buf().line(0), &chars("first"));
    type_chars(&mut ed, ";b");
    type_chars(&mut ed, " #");
    ed.event(Event::Return);
    assert_eq!(ed.state.current_buffer(), 3);
}

#[test]
fn write_command_requests_a_save() {
    let mut ed = editor_on("keep me\n");
    type_chars(&mut ed, ";w");
    ed.event(Event::Return);
    match ed.pending_io {
        Some(IoRequest::Save { ref path, ref contents }) => {
            assert_eq!(path, &chars("work.txt"));
            assert_eq!(contents, &chars("keep me\n"));
        }
        _ => panic!("expected a save request"),
    }
    ed.finish_io(IoReply::Saved);
    assert!(ed.pending_io.is_none());
}

#[test]
fn write_without_a_file_is_refused() {
    let mut ed = Editor::new();
    type_chars(&mut ed, ";w");
    ed.event(Event::Return);
    assert!(ed.pending_io.is_none());
    assert_eq!(ed.state.status(), &Some(chars("no file")));
}

#[test]
fn edit_command_requests_a_load_and_opens_the_reply() {
    let mut ed = editor_on("old\n");
    type_chars(&mut ed, ";e other.txt");
    ed.event(Event::Return);
    assert!(matches!(ed.pending_io, Some(IoRequest::Load { .. })));
    ed.finish_io(IoReply::Loaded(chars("fresh\ncontent\n")));
    assert_eq!(ed.state.buf().line(0), &chars("fresh"));
    assert_eq!(ed.state.buf().line(1), &chars("content"));
    assert_eq!(
        ed.state.buf().fs_loc().as_ref().map(|p| p.clone()),
        Some(chars("other.txt"))
    );
}

#[test]
fn failed_load_leaves_buffers_alone() {
    let mut ed = editor_on("old\n");
    let count = ed.state.buffer_count();
    type_chars(&mut ed, ";e locked.txt");
    ed.event(Event::Return);
    ed.finish_io(IoReply::LoadFailed(IoError::Permission));
    assert_eq!(ed.state.buffer_count(), count);
    assert_eq!(ed.state.status(), &Some(chars("no access")));
}

#[test]
fn command_escape_discards_the_scratch_line() {
    let mut ed = editor_on("text\n");
    type_chars(&mut ed, ";q");
    ed.event(Event::Escape);
    assert!(matches!(ed.mode, Mode::Normal(_)));
    assert!(!ed.state.should_quit());
    assert_eq!(ed.state.scratch().line(0).len(), 0);
}

#[test]
fn list_registers_shows_the_register_listing() {
    let mut ed = editor_on("alpha beta\n");
    type_chars(&mut ed, "yw");
    type_chars(&mut ed, ";\"");
    ed.event(Event::Return);
    // the listing is exactly the store's rendering: name, texts, marks
    assert_eq!(ed.state.status(), &Some(ed.state.registers_dump()));
    assert_eq!(ed.state.registers_dump(), chars("\"\"=alpha |;"));
}

#[test]
fn invalid_pending_input_is_discarded() {
    // a keystroke no extension can complete clears the pending string,
    // so later input is not poisoned
    let mut ed = editor_on("one two\n");
    type_chars(&mut ed, "z");
    assert!(ed.mode.pending_command().is_none());
    type_chars(&mut ed, "dw");
    assert_eq!(ed.state.buf().line(0), &chars("two"));
    // an operator with an impossible motion letter is discarded too
    type_chars(&mut ed, "dz");
    assert!(ed.mode.pending_command().is_none());
    type_chars(&mut ed, "x");
    assert_eq!(ed.state.buf().line(0), &chars("wo"));
}

#[test]
fn status_tags_name_the_modes() {
    let mut ed = editor_on("x\n");
    assert_eq!(ed.mode.status_tag(), "NORMAL");
    type_chars(&mut ed, "i");
    assert_eq!(ed.mode.status_tag(), "INSERT");
    ed.event(Event::Escape);
    type_chars(&mut ed, ":");
    assert_eq!(ed.mode.status_tag(), "COMMAND");
}

#[test]
fn count_prefix_moves_the_cursor() {
    let mut ed = editor_on("abcdef\n");
    type_chars(&mut ed, "3l");
    assert_eq!(ed.state.buf().curr_loc(), (3, 0));
}

#[test]
fn failed_save_surfaces_as_status() {
    let mut ed = editor_on("keep me\n");
    type_chars(&mut ed, ";w");
    ed.event(Event::Return);
    assert!(matches!(ed.pending_io, Some(IoRequest::Save { .. })));
    ed.finish_io(IoReply::SaveFailed(IoError::Other));
    assert!(ed.pending_io.is_none());
    assert_eq!(ed.state.status(), &Some(chars("io error")));
}

#[test]
fn error_descriptions_are_stable() {
    assert_eq!(CommandError::UnknownCommand.description(), chars("unknown"));
    assert_eq!(
        CommandError::InvalidCommand(Some(CommandReason::NoFileBacking)).description(),
        chars("no file")
    );
    assert_eq!(IoError::NotFound.description(), chars("not found"));
    let b = Buffer::new();
    assert_eq!(b.curr_loc(), (0, 0));
}
