use txd::buffer::Buffer;
use txd::movement::{Inclusion, Movement};

fn chars(s: &str) -> Vec<char> {
    s.chars().collect()
}

fn buf(text: &str) -> Buffer {
    Buffer::load(chars("m.txt"), &chars(text))
}

#[test]
fn parse_single_letter_motions() {
    assert_eq!(Movement::parse(&chars("h"), true), Some(Movement::Char(false)));
    assert_eq!(Movement::parse(&chars("l"), true), Some(Movement::Char(true)));
    assert_eq!(
        Movement::parse(&chars("j"), true),
        Some(Movement::Line(false, Inclusion::Linewise))
    );
    assert_eq!(
        Movement::parse(&chars("k"), true),
        Some(Movement::Line(true, Inclusion::Linewise))
    );
    assert_eq!(
        Movement::parse(&chars("w"), true),
        Some(Movement::Word(true, Inclusion::Exclusive))
    );
    assert_eq!(
        Movement::parse(&chars("b"), true),
        Some(Movement::Word(false, Inclusion::Exclusive))
    );
    assert_eq!(
        Movement::parse(&chars("e"), true),
        Some(Movement::Word(true, Inclusion::Inclusive))
    );
    assert_eq!(Movement::parse(&chars("^"), true), Some(Movement::StartOfLine));
    assert_eq!(Movement::parse(&chars("$"), true), Some(Movement::EndOfLine));
}

#[test]
fn parse_scan_motions_take_a_query() {
    assert_eq!(
        Movement::parse(&chars("fx"), true),
        Some(Movement::CharScan {
            query: 'x',
            direction: true,
            inclusion: Inclusion::Inclusive,
            place_to_side: false,
        })
    );
    assert_eq!(
        Movement::parse(&chars("T,"), true),
        Some(Movement::CharScan {
            query: ',',
            direction: false,
            inclusion: Inclusion::Exclusive,
            place_to_side: true,
        })
    );
    // a scan letter with no query yet is not resolvable
    assert_eq!(Movement::parse(&chars("f"), true), None);
}

#[test]
fn parse_repeat_counts() {
    assert_eq!(
        Movement::parse(&chars("3w"), true),
        Some(Movement::Rep(3, Box::new(Movement::Word(true, Inclusion::Exclusive))))
    );
    // a digit run alone waits for its motion
    assert_eq!(Movement::parse(&chars("12"), true), None);
    // an impossible repeat count never resolves
    assert_eq!(Movement::parse(&chars("99999999999999999999w"), true), None);
}

#[test]
fn capital_j_is_not_a_motion() {
    assert_eq!(Movement::parse(&chars("J"), true), None);
    assert_eq!(Movement::parse(&chars("J"), false), None);
}

#[test]
fn parse_doubled_operator_shorthand() {
    // after an operator letter, a bare d/c/y means the whole line
    assert_eq!(
        Movement::parse(&chars("d"), false),
        Some(Movement::Line(false, Inclusion::Inclusive))
    );
    assert_eq!(Movement::parse(&chars("d"), true), None);
    assert_eq!(Movement::parse(&chars("z"), true), None);
}

#[test]
fn inclusion_modes() {
    assert_eq!(Movement::Char(true).inclusion_mode(), Inclusion::Exclusive);
    assert_eq!(Movement::EndOfLine.inclusion_mode(), Inclusion::Inclusive);
    assert_eq!(
        Movement::Rep(4, Box::new(Movement::EndOfLine)).inclusion_mode(),
        Inclusion::Inclusive
    );
}

#[test]
fn char_motion_range_moves_one_column() {
    let mut b = buf("abc\n");
    b.place_cursor(1, 0);
    let r = b.movement_range(&Movement::Char(true));
    assert_eq!(r, ((1, 0), (2, 0)));
    let l = b.movement_range(&Movement::Char(false));
    assert_eq!(l, ((1, 0), (0, 0)));
}

#[test]
fn word_motion_skips_word_then_blanks() {
    let b = buf("alpha beta\n");
    let r = b.movement_range(&Movement::Word(true, Inclusion::Exclusive));
    assert_eq!(r, ((0, 0), (6, 0)));
}

#[test]
fn word_motion_wraps_to_next_line() {
    let mut b = buf("ab\ncd\n");
    b.place_cursor(2, 0);
    let r = b.movement_range(&Movement::Word(true, Inclusion::Exclusive));
    assert_eq!(r.1, (0, 1));
}

#[test]
fn word_back_lands_on_word_start() {
    let mut b = buf("alpha beta\n");
    b.place_cursor(6, 0);
    let r = b.movement_range(&Movement::Word(false, Inclusion::Exclusive));
    assert_eq!(r.1, (0, 0));
    b.place_cursor(8, 0);
    let r2 = b.movement_range(&Movement::Word(false, Inclusion::Exclusive));
    assert_eq!(r2.1, (6, 0));
}

#[test]
fn char_scan_starts_past_the_cursor() {
    let mut b = buf("abca\n");
    let f = b.movement_range(&Movement::CharScan {
        query: 'a',
        direction: true,
        inclusion: Inclusion::Inclusive,
        place_to_side: false,
    });
    // the scan never matches the character under the cursor
    assert_eq!(f.1, (3, 0));
    b.place_cursor(3, 0);
    let back = b.movement_range(&Movement::CharScan {
        query: 'b',
        direction: false,
        inclusion: Inclusion::Exclusive,
        place_to_side: false,
    });
    assert_eq!(back.1, (1, 0));
}

#[test]
fn char_scan_miss_collapses_to_cursor() {
    let mut b = buf("abc\n");
    b.place_cursor(1, 0);
    let r = b.movement_range(&Movement::CharScan {
        query: 'z',
        direction: true,
        inclusion: Inclusion::Inclusive,
        place_to_side: false,
    });
    assert_eq!(r, ((1, 0), (1, 0)));
}

#[test]
fn char_scan_to_side_lands_beside_the_match() {
    let b = buf("abc\n");
    let r = b.movement_range(&Movement::CharScan {
        query: 'c',
        direction: true,
        inclusion: Inclusion::Inclusive,
        place_to_side: true,
    });
    assert_eq!(r.1, (1, 0));
}

#[test]
fn line_bounds_motion_ranges() {
    let mut b = buf("abcd\nefgh\n");
    b.place_cursor(2, 0);
    assert_eq!(b.movement_range(&Movement::StartOfLine).1, (0, 0));
    assert_eq!(b.movement_range(&Movement::EndOfLine).1, (4, 0));
    let whole = b.movement_range(&Movement::Line(false, Inclusion::Inclusive));
    assert_eq!(whole, ((0, 0), (0, 1)));
}

#[test]
fn repeat_motion_accumulates() {
    let b = buf("one two three four\n");
    let r = b.movement_range(&Movement::Rep(
        2,
        Box::new(Movement::Word(true, Inclusion::Exclusive)),
    ));
    assert_eq!(r.0, (0, 0));
    assert_eq!(r.1, (8, 0));
}

#[test]
fn repeat_leaves_cursor_where_it_was() {
    let mut b = buf("one two three four\n");
    b.place_cursor(0, 0);
    let _ = b.movement_range(&Movement::Rep(
        3,
        Box::new(Movement::Word(true, Inclusion::Exclusive)),
    ));
    assert_eq!(b.curr_loc(), (0, 0));
}

#[test]
fn make_movement_places_cursor_at_range_end() {
    let mut b = buf("alpha beta\n");
    b.make_movement(&Movement::Word(true, Inclusion::Exclusive));
    assert_eq!(b.curr_loc(), (6, 0));
    b.make_movement(&Movement::EndOfLine);
    assert_eq!(b.curr_loc(), (10, 0));
    b.make_movement(&Movement::StartOfLine);
    assert_eq!(b.curr_loc(), (0, 0));
}

#[test]
fn delete_word_with_count() {
    let mut b = buf("one two three\n");
    let removed = b.delete_movement(&Movement::Rep(
        2,
        Box::new(Movement::Word(true, Inclusion::Exclusive)),
    ));
    assert_eq!(removed, chars("one two "));
    assert_eq!(b.line(0), &chars("three"));
}

#[test]
fn delete_to_end_of_line_is_inclusive() {
    let mut b = buf("abcdef\n");
    b.place_cursor(2, 0);
    let removed = b.delete_movement(&Movement::EndOfLine);
    assert_eq!(removed, chars("cdef"));
    assert_eq!(b.line(0), &chars("ab"));
}

#[test]
fn delete_whole_line_keeps_at_least_one() {
    let mut b = buf("only\n");
    let removed = b.delete_movement(&Movement::Line(false, Inclusion::Inclusive));
    assert_eq!(removed, chars("only\n"));
    assert_eq!(b.line_count(), 1);
    assert_eq!(b.line(0).len(), 0);
}

#[test]
fn yank_whole_line_carries_terminator() {
    let mut b = buf("one\ntwo\n");
    let y = b.yank_movement(&Movement::Line(false, Inclusion::Inclusive));
    assert_eq!(y, chars("one\n"));
    assert_eq!(b.line_count(), 2);
}
