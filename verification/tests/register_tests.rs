use txd::clip::{ClipstackId, Clipstacks};
use txd::state::State;

fn chars(s: &str) -> Vec<char> {
    s.chars().collect()
}

#[test]
fn registers_are_last_in_first_out() {
    // push "a", push "b": pop yields "b", then "a", then nothing
    let mut c = Clipstacks::new();
    let r = ClipstackId('m');
    c.push(&r, chars("a"));
    c.push(&r, chars("b"));
    assert_eq!(c.pop(&r), Some(chars("b")));
    assert_eq!(c.pop(&r), Some(chars("a")));
    assert_eq!(c.pop(&r), None);
}

#[test]
fn top_does_not_consume() {
    let mut c = Clipstacks::new();
    let r = ClipstackId('m');
    c.push(&r, chars("a"));
    assert_eq!(c.top(&r), Some(chars("a")));
    assert_eq!(c.top(&r), Some(chars("a")));
    assert_eq!(c.pop(&r), Some(chars("a")));
}

#[test]
fn registers_are_independent() {
    let mut c = Clipstacks::new();
    c.push(&ClipstackId('a'), chars("first"));
    c.push(&ClipstackId('b'), chars("second"));
    assert_eq!(c.top(&ClipstackId('a')), Some(chars("first")));
    assert_eq!(c.top(&ClipstackId('b')), Some(chars("second")));
    assert_eq!(c.pop(&ClipstackId('a')), Some(chars("first")));
    assert_eq!(c.top(&ClipstackId('b')), Some(chars("second")));
}

#[test]
fn empty_or_unknown_register_yields_nothing() {
    let mut c = Clipstacks::new();
    assert_eq!(c.top(&ClipstackId('z')), None);
    assert_eq!(c.pop(&ClipstackId('z')), None);
}

#[test]
fn dump_lists_each_register_with_its_texts_in_order() {
    let mut c = Clipstacks::new();
    c.push(&ClipstackId('a'), chars("x"));
    c.push(&ClipstackId('a'), chars("y"));
    c.push(&ClipstackId('b'), chars("z"));
    let dump: Vec<char> = c.dump();
    let expected: Vec<char> = "\"a=x|y|;\"b=z|;".chars().collect();
    assert_eq!(dump, expected);
}

#[test]
fn state_clip_methods_delegate_to_the_store() {
    let mut s = State::new();
    let r = ClipstackId('"');
    s.push_clip(&r, chars("x"));
    s.push_clip(&r, chars("y"));
    assert_eq!(s.top_clip(&r), Some(chars("y")));
    assert_eq!(s.pop_clip(&r), Some(chars("y")));
    assert_eq!(s.pop_clip(&r), Some(chars("x")));
    assert_eq!(s.pop_clip(&r), None);
}

#[test]
fn state_starts_with_scratch_and_one_buffer() {
    let s = State::new();
    assert_eq!(s.buffer_count(), 2);
    assert_eq!(s.current_buffer(), 1);
    assert_eq!(s.last_buffer(), 1);
    assert!(!s.should_quit());
    assert!(s.status().is_none());
    assert!(!s.scratch().show_cursor());
}

#[test]
fn move_to_buffer_remembers_the_previous_one() {
    let mut s = State::new();
    let b = txd::buffer::Buffer::new();
    s.add_buffer(b);
    assert_eq!(s.current_buffer(), 2);
    assert_eq!(s.last_buffer(), 1);
    s.move_to_buffer(1);
    assert_eq!(s.current_buffer(), 1);
    assert_eq!(s.last_buffer(), 2);
}
