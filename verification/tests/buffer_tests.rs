use txd::buffer::{Buffer, TabStyle};
use txd::movement::{Inclusion, Movement};

fn chars(s: &str) -> Vec<char> {
    s.chars().collect()
}

fn buf(text: &str) -> Buffer {
    Buffer::load(chars("scratchpad.txt"), &chars(text))
}

#[test]
fn fresh_buffer_holds_one_empty_line() {
    let b = Buffer::new();
    assert_eq!(b.line_count(), 1);
    assert_eq!(b.line(0).len(), 0);
    assert_eq!(b.curr_loc(), (0, 0));
}

#[test]
fn load_splits_lines_and_drops_trailing_terminator() {
    let b = buf("one\ntwo\nthree\n");
    assert_eq!(b.line_count(), 3);
    assert_eq!(b.line(0), &chars("one"));
    assert_eq!(b.line(2), &chars("three"));
}

#[test]
fn load_strips_carriage_returns_before_terminators() {
    let b = buf("one\r\ntwo\r\n");
    assert_eq!(b.line_count(), 2);
    assert_eq!(b.line(0), &chars("one"));
    assert_eq!(b.line(1), &chars("two"));
}

#[test]
fn load_of_empty_text_gives_one_empty_line() {
    let b = buf("");
    assert_eq!(b.line_count(), 1);
    assert_eq!(b.line(0).len(), 0);
}

#[test]
fn load_detects_space_indentation() {
    let b = buf("fn x\n  body\n");
    assert_eq!(b.tab_style(), TabStyle::Tab);
    let c = buf("  lead\nrest\n");
    assert_eq!(c.tab_style(), TabStyle::Spaces(2));
    let d = buf("\tlead\n");
    assert_eq!(d.tab_style(), TabStyle::Tab);
}

#[test]
fn place_cursor_clamps_column_to_line_length() {
    // For columns past the end of the line, the cursor lands exactly at
    // the line's length.
    let mut b = buf("abc\n");
    b.place_cursor(10, 0);
    assert_eq!(b.curr_loc(), (3, 0));
}

#[test]
fn place_cursor_clamps_line_to_last() {
    let mut b = buf("abc\ndef\n");
    b.place_cursor(1, 99);
    assert_eq!(b.curr_loc(), (1, 1));
}

#[test]
fn move_cursor_left_from_column_zero_stays() {
    let mut b = buf("abc\n");
    b.move_cursor((-1, 0));
    assert_eq!(b.curr_loc(), (0, 0));
    b.move_cursor((0, -1));
    assert_eq!(b.curr_loc(), (0, 0));
}

#[test]
fn insert_char_at_line_end() {
    // Scenario: buffer ["abc"], cursor (3,0); inserting 'd' appends and
    // the cursor advances to column 4.
    let mut b = buf("abc\n");
    b.place_cursor(3, 0);
    b.insert_char('d');
    assert_eq!(b.line(0), &chars("abcd"));
    assert_eq!(b.curr_loc(), (4, 0));
}

#[test]
fn delete_char_under_cursor_and_at_line_end() {
    let mut b = buf("abc\n");
    b.place_cursor(1, 0);
    b.delete_char();
    assert_eq!(b.line(0), &chars("ac"));
    b.place_cursor(2, 0);
    b.delete_char();
    assert_eq!(b.line(0), &chars("a"));
}

#[test]
fn break_line_splits_at_cursor() {
    let mut b = buf("hello world\n");
    b.place_cursor(5, 0);
    b.break_line();
    assert_eq!(b.line_count(), 2);
    assert_eq!(b.line(0), &chars("hello"));
    assert_eq!(b.line(1), &chars(" world"));
    assert_eq!(b.curr_loc(), (0, 1));
}

#[test]
fn insert_line_below_cursor() {
    let mut b = buf("a\nb\n");
    b.insert_line(Some(chars("mid")));
    assert_eq!(b.line_count(), 3);
    assert_eq!(b.line(1), &chars("mid"));
    assert_eq!(b.curr_loc(), (0, 1));
}

#[test]
fn insert_tab_with_space_style_inserts_spaces() {
    let mut b = buf("  x\ny\n");
    assert_eq!(b.tab_style(), TabStyle::Spaces(2));
    b.place_cursor(0, 1);
    b.insert_tab();
    assert_eq!(b.line(1), &chars("  y"));
    assert_eq!(b.curr_loc(), (2, 1));
}

#[test]
fn insert_tab_with_tab_style_inserts_a_tab() {
    let mut b = buf("x\n");
    b.insert_tab();
    assert_eq!(b.line(0), &chars("\tx"));
    assert_eq!(b.curr_loc(), (1, 0));
}

#[test]
fn insert_string_splices_inline_without_terminator() {
    let mut b = buf("abcd\n");
    b.place_cursor(2, 0);
    b.insert_string(&chars("XY"));
    assert_eq!(b.line(0), &chars("abXYcd"));
    assert_eq!(b.curr_loc(), (4, 0));
}

#[test]
fn insert_string_with_trailing_terminator_makes_new_lines() {
    let mut b = buf("top\nbottom\n");
    b.insert_string(&chars("one\ntwo\n"));
    assert_eq!(b.line_count(), 4);
    assert_eq!(b.line(0), &chars("top"));
    assert_eq!(b.line(1), &chars("one"));
    assert_eq!(b.line(2), &chars("two"));
    assert_eq!(b.line(3), &chars("bottom"));
    assert_eq!(b.curr_loc(), (0, 2));
}

#[test]
fn insert_string_mixed_splices_then_inserts() {
    let mut b = buf("abcd\n");
    b.place_cursor(2, 0);
    b.insert_string(&chars("XX\nYY"));
    assert_eq!(b.line(0), &chars("abXXcd"));
    assert_eq!(b.line(1), &chars("YY"));
}

#[test]
fn contents_round_trips_through_load() {
    let text = chars("alpha\nbeta\n");
    let b = Buffer::load(chars("f"), &text);
    assert_eq!(b.contents(), text);
}

#[test]
fn clear_resets_to_one_empty_line() {
    let mut b = buf("a\nb\nc\n");
    b.place_cursor(0, 2);
    b.clear();
    assert_eq!(b.line_count(), 1);
    assert_eq!(b.line(0).len(), 0);
    assert_eq!(b.curr_loc(), (0, 0));
}

#[test]
fn viewport_slides_down_one_row_at_a_time() {
    let mut text = String::new();
    for i in 0..40 {
        text.push_str(&format!("line{}\n", i));
    }
    let mut b = Buffer::load(chars("big"), &chars(&text));
    assert_eq!(b.viewport(), (0, 25));
    b.place_cursor(0, 29);
    // the window keeps its height and ends just past the cursor
    assert_eq!(b.viewport(), (5, 30));
    b.place_cursor(0, 2);
    assert_eq!(b.viewport(), (2, 27));
}

#[test]
fn line_cache_marks_and_invalidates() {
    let mut b = buf("a\nb\n");
    assert!(!b.line_cached(0));
    b.mark_line_cached(0);
    assert!(b.line_cached(0));
    b.invalidate_line(0);
    assert!(!b.line_cached(0));
}

#[test]
fn insert_char_invalidates_its_line() {
    let mut b = buf("ab\n");
    b.mark_line_cached(0);
    b.insert_char('x');
    assert!(!b.line_cached(0));
}

#[test]
fn yank_leaves_buffer_untouched() {
    // Yank purity: the buffer's lines are identical before and after.
    let mut b = buf("alpha beta\ngamma\n");
    b.place_cursor(2, 0);
    let before0 = b.line(0).clone();
    let before1 = b.line(1).clone();
    let loc = b.curr_loc();
    let y = b.yank_movement(&Movement::Word(true, Inclusion::Exclusive));
    assert_eq!(y, chars("pha "));
    assert_eq!(b.line(0), &before0);
    assert_eq!(b.line(1), &before1);
    assert_eq!(b.curr_loc(), loc);
}

#[test]
fn delete_then_insert_restores_single_line() {
    // Round trip: a single-line motion's removed text, spliced back at
    // the resulting cursor, restores the original line.
    let mut b = buf("alpha beta\n");
    let removed = b.delete_movement(&Movement::Word(true, Inclusion::Exclusive));
    assert_eq!(removed, chars("alpha "));
    assert_eq!(b.line(0), &chars("beta"));
    b.insert_string(&removed);
    assert_eq!(b.line(0), &chars("alpha beta"));
}

#[test]
fn delete_then_insert_restores_backward_motion_too() {
    // The cursor lands at the removed span's start, so the round trip
    // holds for backward motions as well.
    let mut b = buf("abc\n");
    b.place_cursor(2, 0);
    let removed = b.delete_movement(&Movement::Char(false));
    assert_eq!(removed, chars("b"));
    assert_eq!(b.line(0), &chars("ac"));
    assert_eq!(b.curr_loc(), (1, 0));
    b.insert_string(&removed);
    assert_eq!(b.line(0), &chars("abc"));
}

#[test]
fn backward_scan_delete_lands_on_span_start() {
    let mut b = buf("abcdef\n");
    b.place_cursor(5, 0);
    let removed = b.delete_movement(&Movement::CharScan {
        query: 'b',
        direction: false,
        inclusion: Inclusion::Exclusive,
        place_to_side: false,
    });
    assert_eq!(removed, chars("bcde"));
    assert_eq!(b.line(0), &chars("af"));
    assert_eq!(b.curr_loc(), (1, 0));
    b.insert_string(&removed);
    assert_eq!(b.line(0), &chars("abcdef"));
}

#[test]
fn scan_line_finds_forward_and_backward() {
    let mut b = buf("abcabc\n");
    b.place_cursor(1, 0);
    assert_eq!(b.scan_line('c', true), Some(2));
    assert_eq!(b.scan_line('a', false), Some(0));
    assert_eq!(b.scan_line('z', true), None);
}
