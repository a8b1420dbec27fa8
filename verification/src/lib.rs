//! The editing core of a modal, vi-like text editor.
//!
//! The crate is organised around five pieces: a line-oriented text buffer
//! with a cursor and a scrolling viewport ([`buffer`]), a motion grammar and
//! resolver that turns keystrokes such as `3w` into buffer ranges
//! ([`movement`]), named LIFO registers for yanked and deleted text
//! ([`clip`]), an incremental action grammar that composes registers,
//! operators and motions ([`normal`]), and a three-state mode machine that
//! routes input events to the right place ([`editor`], [`insert`],
//! [`command`]).
//!
//! Text is held as lines of characters; columns and line numbers count
//! characters, never bytes, so every column in `0 ..= line length` is a
//! valid cursor position. File reading and writing, rendering and event
//! sources stay outside: the editor asks for them through [`editor::IoRequest`]
//! values and is handed the results back as plain data.

pub mod buffer;
pub mod clip;
pub mod command;
pub mod editor;
pub mod insert;
pub mod normal;
pub mod events;
pub mod state;
pub mod movement;
pub mod scan;
