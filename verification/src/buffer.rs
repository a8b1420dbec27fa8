//! The text buffer: line storage, cursor, scrolling viewport, and the
//! mutation primitives the editing grammar is built from.
//!
//! Lines are sequences of characters and never contain a line
//! terminator; a cleared buffer holds exactly one empty line. The cursor
//! column counts characters, so every column in `0 ..= line length` is a
//! valid position. All index arithmetic clamps instead of failing: a
//! request beyond the current bounds resolves to the nearest valid
//! position.

use vstd::prelude::*;

use crate::movement::{Inclusion, Movement};
use crate::scan::{
    lemma_scan_back_valid, lemma_scan_fwd_valid, lemma_word_back_valid, lemma_word_fwd_valid,
    lines_view, scan_back, scan_back_exec, scan_fwd, scan_fwd_exec, word_back, word_back_exec,
    word_fwd, word_fwd_exec,
};

verus! {

/// Whether pressing Tab inserts a literal tab character or a run of
/// spaces, detected from a file's first indented line on load.
#[derive(Clone, Copy, PartialEq, Eq, Structural, Debug)]
pub enum TabStyle {
    Tab,
    Spaces(usize),
}

/// How many rows a fresh buffer's viewport covers.
pub const DEFAULT_VIEWPORT_ROWS: usize = 25;

/// A well-formed buffer line: no line terminator among its characters.
pub open spec fn line_ok(l: Seq<char>) -> bool {
    forall|k: int| 0 <= k < l.len() ==> l[k] != '\n'
}

/// Index of the first line terminator in `s[i .. j]`, or `j` when there
/// is none.
pub open spec fn first_nl_in(s: Seq<char>, i: int, j: int) -> int
    recommends
        0 <= i <= j <= s.len(),
    decreases j - i when i <= j
{
    if i >= j {
        j
    } else if s[i] == '\n' {
        i
    } else {
        first_nl_in(s, i + 1, j)
    }
}

/// Where `first_nl_in` points: past a terminator-free prefix, and at a
/// terminator unless it reached `j`.
pub proof fn lemma_first_nl_in(s: Seq<char>, i: int, j: int)
    requires
        0 <= i <= j <= s.len(),
    ensures
        i <= first_nl_in(s, i, j) <= j,
        forall|t: int| i <= t < first_nl_in(s, i, j) ==> s[t] != '\n',
        first_nl_in(s, i, j) < j ==> s[first_nl_in(s, i, j)] == '\n',
    decreases j - i,
{
    if i < j && s[i] != '\n' {
        lemma_first_nl_in(s, i + 1, j);
    }
}

/// `s[i .. j]` split at its line terminators: always at least one
/// segment, and one more for each terminator.
pub open spec fn split_range(s: Seq<char>, i: int, j: int) -> Seq<Seq<char>>
    recommends
        0 <= i <= j <= s.len(),
    decreases j - i when 0 <= i <= j <= s.len() via split_range_decreases
{
    let k = first_nl_in(s, i, j);
    if k >= j {
        seq![s.subrange(i, j)]
    } else {
        seq![s.subrange(i, k)] + split_range(s, k + 1, j)
    }
}

#[via_fn]
proof fn split_range_decreases(s: Seq<char>, i: int, j: int) {
    lemma_first_nl_in(s, i, j);
}

/// `split_range` yields at least one segment and no segment holds a
/// terminator.
pub proof fn lemma_split_range_ok(s: Seq<char>, i: int, j: int)
    requires
        0 <= i <= j <= s.len(),
    ensures
        split_range(s, i, j).len() >= 1,
        forall|t: int|
            0 <= t < split_range(s, i, j).len() ==> line_ok(#[trigger] split_range(s, i, j)[t]),
    decreases j - i,
{
    lemma_first_nl_in(s, i, j);
    let k = first_nl_in(s, i, j);
    if k < j {
        lemma_split_range_ok(s, k + 1, j);
        let r = split_range(s, i, j);
        let rest = split_range(s, k + 1, j);
        assert forall|t: int| 0 <= t < r.len() implies line_ok(#[trigger] r[t]) by {
            if t == 0 {
                assert(r[t] == s.subrange(i, k));
            } else {
                assert(r[t] == rest[t - 1]);
            }
        }
    }
}

/// All lines joined back together, a terminator after each.
pub open spec fn join_nl(ls: Seq<Seq<char>>) -> Seq<char>
    decreases ls.len(),
{
    if ls.len() == 0 {
        Seq::empty()
    } else {
        join_nl(ls.drop_last()) + ls.last() + seq!['\n']
    }
}

/// A line with one trailing carriage return removed, so that text with
/// CRLF line endings loads the same as text with bare terminators.
pub open spec fn strip_cr(l: Seq<char>) -> Seq<char> {
    if l.len() > 0 && l.last() == '\r' {
        l.drop_last()
    } else {
        l
    }
}

/// The lines a file's text splits into: segments at terminators, a
/// carriage return just before a terminator dropped, a trailing
/// terminator closing the last line rather than opening an empty one,
/// and empty text giving one empty line.
pub open spec fn text_lines(s: Seq<char>) -> Seq<Seq<char>> {
    let segs = if s.len() > 0 && s.last() == '\n' {
        split_range(s, 0, s.len() - 1)
    } else {
        split_range(s, 0, s.len() as int)
    };
    segs.map_values(|l: Seq<char>| strip_cr(l))
}

/// How many spaces line `l` holds from position `i` on.
pub open spec fn leading_spaces(l: Seq<char>, i: int) -> int
    recommends
        0 <= i <= l.len(),
    decreases l.len() - i when 0 <= i <= l.len()
{
    if i < l.len() && l[i] == ' ' {
        1 + leading_spaces(l, i + 1)
    } else {
        0
    }
}

/// Index of the first non-empty line at or after `i`, or the line count.
pub open spec fn first_nonempty(lines: Seq<Seq<char>>, i: int) -> int
    recommends
        0 <= i <= lines.len(),
    decreases lines.len() - i when 0 <= i <= lines.len()
{
    if i < lines.len() && lines[i].len() == 0 {
        first_nonempty(lines, i + 1)
    } else {
        i
    }
}

/// The indentation style a file's lines reveal: the first non-empty
/// line decides — a leading tab means tabs, a run of N leading spaces
/// means N-space indents, anything else falls back to tabs.
pub open spec fn detect_tab_style(lines: Seq<Seq<char>>) -> TabStyle {
    let i = first_nonempty(lines, 0);
    if i >= lines.len() {
        TabStyle::Tab
    } else if lines[i][0] == '\t' {
        TabStyle::Tab
    } else if lines[i][0] == ' ' {
        TabStyle::Spaces(leading_spaces(lines[i], 0) as usize)
    } else {
        TabStyle::Tab
    }
}

/// A run of `n` spaces.
pub open spec fn spaces(n: int) -> Seq<char> {
    Seq::new(n as nat, |i: int| ' ')
}

/// Moving left from column zero keeps column zero, however far left
/// the motion asks to go: a negative column target clamps to zero
/// before the cursor is placed. The line and the text do not move
/// either.
pub proof fn lemma_move_left_at_column_zero(b: BufferModel, n: int)
    requires
        b.inv(),
        b.cursor_col == 0,
        b.cursor_line <= usize::MAX as int,
        n >= 0,
    ensures
        b.moved(-n, 0).cursor_col == 0,
        b.moved(-n, 0).cursor_line == b.cursor_line,
        b.moved(-n, 0).lines == b.lines,
{
}

/// Moving up from line zero keeps line zero, however far up the motion
/// asks to go. The column and the text do not move either.
pub proof fn lemma_move_up_at_line_zero(b: BufferModel, n: int)
    requires
        b.inv(),
        b.cursor_line == 0,
        b.cursor_col <= usize::MAX as int,
        n >= 0,
    ensures
        b.moved(0, -n).cursor_line == 0,
        b.moved(0, -n).cursor_col == b.cursor_col,
        b.moved(0, -n).lines == b.lines,
{
}

/// Placing the cursor at a column past a line's end lands it exactly at
/// the line's length.
pub proof fn lemma_place_clamps_column(b: BufferModel, c: int, l: int)
    requires
        b.inv(),
        0 <= l < b.lines.len(),
        c > b.line_len(l),
    ensures
        b.placed(c, l).cursor_col == b.line_len(l),
        b.placed(c, l).cursor_line == l,
{
}

/// Deleting any single-line motion's span and splicing the removed
/// text back in at the resulting cursor restores every line of the
/// buffer. The cursor lands at the span's start after the deletion,
/// and the removed text — taken from inside one line — holds no
/// terminator, so `with_string_inserted` splices it straight back.
pub proof fn lemma_delete_insert_round_trip(b: BufferModel, mv: Movement)
    requires
        b.inv(),
        ({
            let (s, e) = b.range_of(mv);
            s.1 == e.1
        }),
    ensures
        b.deleted(mv).with_string_inserted(b.span_text(mv)).lines =~~= b.lines,
{
    lemma_range_valid(b.lines, b.cursor_col, b.cursor_line, mv);
    let (s, e) = b.range_of(mv);
    let l = s.1;
    let line = b.lines[l];
    let len = line.len() as int;
    let ecc = if mv.inclusion_spec() == Inclusion::Inclusive {
        e.0 + 1
    } else {
        e.0
    };
    let a = if s.0 <= ecc {
        s.0
    } else {
        ecc
    };
    let b0 = if s.0 <= ecc {
        ecc
    } else {
        s.0
    };
    let bb = if b0 > len {
        len
    } else {
        b0
    };
    let removed = line.subrange(a, bb);
    let nl = line.subrange(0, a) + line.subrange(bb, len);
    let d = b.deleted(mv);
    assert(removed == b.span_text(mv));
    assert(d.lines == b.lines.update(l, nl));
    assert(d.lines[l] == nl);
    assert(d.cursor_line == l);
    assert(d.cursor_col == a);
    assert(forall|k: int| 0 <= k < removed.len() ==> removed[k] != '\n');
    let ins = d.with_string_inserted(removed);
    if removed.len() == 0 {
        assert(ins == d.with_spliced(removed));
        assert(nl.take(a) =~= line.subrange(0, a));
        assert(nl.skip(a) =~= line.subrange(bb, len));
        assert(nl.take(a) + removed + nl.skip(a) =~= line);
        assert(ins.lines =~~= b.lines);
    } else {
        assert(removed.last() != '\n');
        lemma_first_nl_in(removed, 0, removed.len() as int);
        assert(first_nl_in(removed, 0, removed.len() as int) == removed.len());
        assert(ins == d.with_spliced(removed));
        assert(nl.take(a) =~= line.subrange(0, a));
        assert(nl.skip(a) =~= line.subrange(bb, len));
        assert(nl.take(a) + removed + nl.skip(a) =~= line);
        assert(ins.lines =~~= b.lines);
    }
}

/// `a + 1`, stopping at the machine limit.
pub open spec fn sat_inc(a: int) -> int {
    if a >= usize::MAX as int {
        a
    } else {
        a + 1
    }
}

/// `a - 1`, stopping at zero.
pub open spec fn dec0(a: int) -> int {
    if a <= 0 {
        0
    } else {
        a - 1
    }
}

/// Orders positions `(column, line)` by line, then column.
pub open spec fn pos_le(a: (int, int), b: (int, int)) -> bool {
    a.1 < b.1 || (a.1 == b.1 && a.0 <= b.0)
}

/// The earlier of two positions.
pub open spec fn pos_min(a: (int, int), b: (int, int)) -> (int, int) {
    if pos_le(a, b) {
        a
    } else {
        b
    }
}

/// The later of two positions.
pub open spec fn pos_max(a: (int, int), b: (int, int)) -> (int, int) {
    if pos_le(a, b) {
        b
    } else {
        a
    }
}

/// A position clamped onto the nearest valid cursor position.
pub open spec fn clamp_pos(lines: Seq<Seq<char>>, p: (int, int)) -> (int, int)
    recommends
        lines.len() >= 1,
{
    let l = if p.1 >= lines.len() {
        lines.len() - 1
    } else if p.1 < 0 {
        0
    } else {
        p.1
    };
    let c = if p.0 >= lines[l].len() {
        lines[l].len() as int
    } else if p.0 < 0 {
        0
    } else {
        p.0
    };
    (c, l)
}

/// The range a motion resolves to from cursor `(ccol, cline)`: where it
/// starts and where it ends, as `(column, line)` positions, before any
/// inclusion adjustment. Resolution never fails: a missed scan
/// collapses to the cursor, and every step clamps at the text's edges.
///
/// `Rep` resolves its inner motion from each intermediate endpoint in
/// turn (at least once) and keeps the least start and greatest end it
/// saw; an exclusive line motion — which the grammar never produces —
/// is treated linewise.
pub open spec fn range_spec(lines: Seq<Seq<char>>, ccol: int, cline: int, mv: Movement) -> (
    (int, int),
    (int, int),
)
    recommends
        lines.len() >= 1,
        0 <= cline < lines.len(),
        0 <= ccol <= lines[cline].len(),
    decreases mv, 0int,
{
    let cur = (ccol, cline);
    match mv {
        Movement::Char(right) => (
            cur,
            (
                if right {
                    sat_inc(ccol)
                } else {
                    dec0(ccol)
                },
                cline,
            ),
        ),
        Movement::Line(up, incl) => {
            let el = if up {
                dec0(cline)
            } else {
                sat_inc(cline)
            };
            match incl {
                Inclusion::Inclusive => ((0, cline), (0, el)),
                _ => (cur, (ccol, el)),
            }
        },
        Movement::Word(dir, _) => (
            cur,
            if dir {
                word_fwd(lines, ccol, cline)
            } else {
                word_back(lines, ccol, cline)
            },
        ),
        Movement::CharScan { query, direction, inclusion: _, place_to_side } => {
            let m = if direction {
                scan_fwd(lines[cline], ccol + 1, query)
            } else {
                scan_back(lines[cline], ccol - 1, query)
            };
            if m < 0 {
                (cur, cur)
            } else {
                let tc = if place_to_side {
                    if direction {
                        dec0(m)
                    } else {
                        sat_inc(m)
                    }
                } else {
                    m
                };
                (cur, (tc, cline))
            }
        },
        Movement::StartOfLine => (cur, (0, cline)),
        Movement::EndOfLine => (cur, (lines[cline].len() as int, cline)),
        Movement::Rep(n, inner) => {
            let t = rep_spec(
                lines,
                ccol,
                cline,
                *inner,
                if n == 0 {
                    0
                } else {
                    (n - 1) as nat
                },
            );
            (t.0, t.1)
        },
    }
}

/// `k + 1` resolutions of `inner`, each from the previous resolution's
/// clamped endpoint: the least start seen, the greatest end seen, and
/// where the scratch cursor stands.
pub open spec fn rep_spec(lines: Seq<Seq<char>>, ccol: int, cline: int, inner: Movement, k: nat) -> (
    (int, int),
    (int, int),
    (int, int),
)
    recommends
        lines.len() >= 1,
        0 <= cline < lines.len(),
        0 <= ccol <= lines[cline].len(),
    decreases inner, k as int + 1,
{
    if k == 0 {
        let r = range_spec(lines, ccol, cline, inner);
        (r.0, r.1, clamp_pos(lines, r.1))
    } else {
        let p = rep_spec(lines, ccol, cline, inner, (k - 1) as nat);
        let r = range_spec(lines, p.2.0, p.2.1, inner);
        (pos_min(p.0, r.0), pos_max(p.1, r.1), clamp_pos(lines, r.1))
    }
}

/// A resolved range is well-placed: the start is a valid cursor
/// position, and the end's line stays within one past the last line.
pub proof fn lemma_range_valid(lines: Seq<Seq<char>>, ccol: int, cline: int, mv: Movement)
    requires
        lines.len() >= 1,
        0 <= cline < lines.len(),
        0 <= ccol <= lines[cline].len(),
    ensures
        ({
            let (s, e) = range_spec(lines, ccol, cline, mv);
            &&& 0 <= s.1 < lines.len()
            &&& 0 <= s.0 <= lines[s.1].len()
            &&& 0 <= e.1 <= lines.len()
            &&& 0 <= e.0
        }),
    decreases mv, 0int,
{
    match mv {
        Movement::Word(dir, _) => {
            if dir {
                lemma_word_fwd_valid(lines, ccol, cline);
            } else {
                lemma_word_back_valid(lines, ccol, cline);
            }
        },
        Movement::CharScan { query, direction, .. } => {
            if direction {
                lemma_scan_fwd_valid(lines[cline], ccol + 1, query);
            } else {
                lemma_scan_back_valid(lines[cline], ccol - 1, query);
            }
        },
        Movement::Rep(n, inner) => {
            lemma_rep_valid(
                lines,
                ccol,
                cline,
                *inner,
                if n == 0 {
                    0
                } else {
                    (n - 1) as nat
                },
            );
        },
        _ => {},
    }
}

/// What `lemma_range_valid` says, for every accumulated repetition.
pub proof fn lemma_rep_valid(lines: Seq<Seq<char>>, ccol: int, cline: int, inner: Movement, k: nat)
    requires
        lines.len() >= 1,
        0 <= cline < lines.len(),
        0 <= ccol <= lines[cline].len(),
    ensures
        ({
            let (s, e, c) = rep_spec(lines, ccol, cline, inner, k);
            &&& 0 <= s.1 < lines.len()
            &&& 0 <= s.0 <= lines[s.1].len()
            &&& 0 <= e.1 <= lines.len()
            &&& 0 <= e.0
            &&& 0 <= c.1 < lines.len()
            &&& 0 <= c.0 <= lines[c.1].len()
        }),
    decreases inner, k as int + 1,
{
    if k == 0 {
        lemma_range_valid(lines, ccol, cline, inner);
    } else {
        lemma_rep_valid(lines, ccol, cline, inner, (k - 1) as nat);
        let p = rep_spec(lines, ccol, cline, inner, (k - 1) as nat);
        lemma_range_valid(lines, p.2.0, p.2.1, inner);
    }
}

/// Inserting a character that is not a terminator keeps a line
/// well-formed.
proof fn lemma_line_ok_insert(l: Seq<char>, i: int, c: char)
    requires
        0 <= i <= l.len(),
        line_ok(l),
        c != '\n',
    ensures
        line_ok(l.insert(i, c)),
{
    l.insert_ensures(i, c);
    assert forall|k: int| 0 <= k < l.insert(i, c).len() implies l.insert(i, c)[k] != '\n' by {
        if k > i {
            assert(l.insert(i, c)[k] == l[k - 1]);
        }
    }
}

/// Removing a character keeps a line well-formed.
proof fn lemma_line_ok_remove(l: Seq<char>, i: int)
    requires
        0 <= i < l.len(),
        line_ok(l),
    ensures
        line_ok(l.remove(i)),
{
    l.remove_ensures(i);
}

/// Any stretch of a well-formed line is well-formed.
proof fn lemma_line_ok_subrange(l: Seq<char>, a: int, b: int)
    requires
        0 <= a <= b <= l.len(),
        line_ok(l),
    ensures
        line_ok(l.subrange(a, b)),
{
}

/// Two well-formed spans joined are well-formed.
proof fn lemma_line_ok_add(a: Seq<char>, b: Seq<char>)
    requires
        line_ok(a),
        line_ok(b),
    ensures
        line_ok(a + b),
{
    assert forall|k: int| 0 <= k < (a + b).len() implies (a + b)[k] != '\n' by {
        if k < a.len() {
            assert((a + b)[k] == a[k]);
        } else {
            assert((a + b)[k] == b[k - a.len()]);
        }
    }
}

/// The mathematical content of a [`Buffer`]: every contract on the
/// executable type is stated over this view (reached as `buffer@`).
#[verifier::ext_equal]
pub struct BufferModel {
    /// The text, line by line; never empty, and no line contains `'\n'`.
    pub lines: Seq<Seq<char>>,
    /// Cursor column, in characters: `0 ..= line length`.
    pub cursor_col: int,
    /// Cursor line: `0 ..< number of lines`.
    pub cursor_line: int,
    /// First row scrolled into view.
    pub viewport_start: int,
    /// One past the last row scrolled into view.
    pub viewport_end: int,
    /// Per line, whether a rendered form of the line is still valid.
    pub cache: Seq<bool>,
    /// What a Tab keystroke inserts.
    pub tab_style: TabStyle,
    /// The file this buffer mirrors, if any.
    pub fs_loc: Option<Seq<char>>,
    /// Whether a renderer should paint the cursor.
    pub show_cursor: bool,
}

impl BufferModel {
    /// Length of line `l`, in characters.
    pub open spec fn line_len(self, l: int) -> int {
        self.lines[l].len() as int
    }

    /// The cursor-independent part of the invariant: at least one line,
    /// one cache flag per line, a viewport of positive height, and no
    /// line terminators inside a line.
    pub open spec fn frame_ok(self) -> bool {
        &&& 1 <= self.lines.len()
        &&& self.cache.len() == self.lines.len()
        &&& 0 <= self.viewport_start < self.viewport_end
        &&& forall|i: int| 0 <= i < self.lines.len() ==> line_ok(#[trigger] self.lines[i])
    }

    /// The buffer's invariant: a well-formed frame, a cursor on a valid
    /// character boundary, and the cursor's row inside the viewport.
    pub open spec fn inv(self) -> bool {
        &&& self.frame_ok()
        &&& 0 <= self.cursor_line < self.lines.len()
        &&& 0 <= self.cursor_col <= self.line_len(self.cursor_line)
        &&& self.viewport_start <= self.cursor_line < self.viewport_end
    }

    /// The line a request for line `l` lands on: the last line when `l`
    /// is past the end.
    pub open spec fn clamped_line(self, l: int) -> int {
        if l >= self.lines.len() {
            self.lines.len() - 1
        } else {
            l
        }
    }

    /// The column a request for column `c` on line `l` lands on: the end
    /// of the line when `c` is past it.
    pub open spec fn clamped_col(self, l: int, c: int) -> int {
        if c >= self.line_len(l) {
            self.line_len(l)
        } else {
            c
        }
    }

    /// The viewport after sliding one row at a time — never jumping —
    /// until the target line `tl` is inside the window. The window keeps
    /// its height; the arithmetic below is where row-by-row sliding ends.
    pub open spec fn slid_viewport(self, tl: int) -> (int, int) {
        if tl < self.viewport_start {
            (tl, self.viewport_end - (self.viewport_start - tl))
        } else if tl >= self.viewport_end {
            (self.viewport_start + (tl + 1 - self.viewport_end), tl + 1)
        } else {
            (self.viewport_start, self.viewport_end)
        }
    }

    /// The buffer after `place_cursor(c, l)`: the requested position
    /// clamped into bounds, and the viewport slid to keep it in view.
    pub open spec fn placed(self, c: int, l: int) -> BufferModel {
        let tl = self.clamped_line(l);
        let tc = self.clamped_col(tl, c);
        let vp = self.slid_viewport(tl);
        BufferModel {
            cursor_col: tc,
            cursor_line: tl,
            viewport_start: vp.0,
            viewport_end: vp.1,
            ..self
        }
    }

    /// An offset target clamped into `0 ..= usize::MAX` (a negative
    /// result clamps to zero; the far end is the machine limit).
    pub open spec fn sat_pos(a: int) -> int {
        if a < 0 {
            0
        } else if a > usize::MAX as int {
            usize::MAX as int
        } else {
            a
        }
    }

    /// The buffer after `move_cursor((dx, dy))`: the current position
    /// plus the offsets, clamped, then placed.
    pub open spec fn moved(self, dx: int, dy: int) -> BufferModel {
        self.placed(
            Self::sat_pos(self.cursor_col + dx),
            Self::sat_pos(self.cursor_line + dy),
        )
    }

    /// The buffer `load` builds from a file's path and text: the text's
    /// lines, a fresh cursor and viewport, and the indentation style the
    /// lines reveal.
    pub open spec fn loaded(path: Seq<char>, text: Seq<char>) -> BufferModel {
        let lines = text_lines(text);
        BufferModel {
            lines: lines,
            cursor_col: 0,
            cursor_line: 0,
            viewport_start: 0,
            viewport_end: DEFAULT_VIEWPORT_ROWS as int,
            cache: Seq::new(lines.len(), |i: int| false),
            tab_style: detect_tab_style(lines),
            fs_loc: Some(path),
            show_cursor: true,
        }
    }

    /// A fresh buffer: one empty line, cursor at the origin.
    pub open spec fn fresh() -> BufferModel {
        BufferModel {
            lines: seq![Seq::empty()],
            cursor_col: 0,
            cursor_line: 0,
            viewport_start: 0,
            viewport_end: DEFAULT_VIEWPORT_ROWS as int,
            cache: seq![false],
            tab_style: TabStyle::Tab,
            fs_loc: None,
            show_cursor: true,
        }
    }

    /// After `insert_char(c)`: `c` inserted at the cursor, the cursor
    /// one column right, the line's rendered form dropped.
    pub open spec fn with_char_inserted(self, c: char) -> BufferModel {
        let l = self.cursor_line;
        BufferModel {
            lines: self.lines.update(l, self.lines[l].insert(self.cursor_col, c)),
            cache: self.cache.update(l, false),
            cursor_col: self.cursor_col + 1,
            ..self
        }
    }

    /// After `delete_char()`: the character under the cursor removed —
    /// or, with the cursor at the end of the line, the line's last
    /// character; the cursor is clamped back onto the shortened line.
    pub open spec fn with_char_deleted(self) -> BufferModel {
        let l = self.cursor_line;
        let line = self.lines[l];
        if self.cursor_col < line.len() {
            BufferModel {
                lines: self.lines.update(l, line.remove(self.cursor_col)),
                cache: self.cache.update(l, false),
                ..self
            }
        } else if line.len() > 0 {
            BufferModel {
                lines: self.lines.update(l, line.drop_last()),
                cache: self.cache.update(l, false),
                cursor_col: line.len() - 1,
                ..self
            }
        } else {
            BufferModel { cache: self.cache.update(l, false), ..self }
        }
    }

    /// After `break_line()`: the current line split at the cursor, its
    /// tail made a new line just below, and the cursor at that line's
    /// start.
    pub open spec fn with_line_broken(self) -> BufferModel {
        let l = self.cursor_line;
        let line = self.lines[l];
        let vp = self.slid_viewport(l + 1);
        BufferModel {
            lines: self.lines.update(l, line.take(self.cursor_col)).insert(
                l + 1,
                line.skip(self.cursor_col),
            ),
            cache: self.cache.update(l, false).insert(l + 1, false),
            cursor_col: 0,
            cursor_line: l + 1,
            viewport_start: vp.0,
            viewport_end: vp.1,
            ..self
        }
    }

    /// After `insert_line(text)`: a new line holding `text` (empty when
    /// absent) just below the cursor's line, and the cursor at its
    /// start.
    pub open spec fn with_line_inserted(self, text: Option<Seq<char>>) -> BufferModel {
        let l = self.cursor_line;
        let content = match text {
            Some(t) => t,
            None => Seq::empty(),
        };
        let vp = self.slid_viewport(l + 1);
        BufferModel {
            lines: self.lines.insert(l + 1, content),
            cache: self.cache.insert(l + 1, false),
            cursor_col: 0,
            cursor_line: l + 1,
            viewport_start: vp.0,
            viewport_end: vp.1,
            ..self
        }
    }

    /// After inserting `n` spaces at the cursor (no change at all when
    /// `n` is zero).
    pub open spec fn with_spaces_inserted(self, n: int) -> BufferModel {
        if n <= 0 {
            self
        } else {
            let l = self.cursor_line;
            let line = self.lines[l];
            BufferModel {
                lines: self.lines.update(
                    l,
                    line.take(self.cursor_col) + spaces(n) + line.skip(self.cursor_col),
                ),
                cache: self.cache.update(l, false),
                cursor_col: self.cursor_col + n,
                ..self
            }
        }
    }

    /// After `insert_tab()`: a literal tab, or a run of spaces, at the
    /// cursor, per the buffer's indentation style.
    pub open spec fn with_tab_inserted(self) -> BufferModel {
        match self.tab_style {
            TabStyle::Tab => self.with_char_inserted('\t'),
            TabStyle::Spaces(n) => self.with_spaces_inserted(n as int),
        }
    }

    /// After splicing `t` — a terminator-free span — into the current
    /// line at the cursor, advancing the cursor past it.
    pub open spec fn with_spliced(self, t: Seq<char>) -> BufferModel {
        let l = self.cursor_line;
        let line = self.lines[l];
        BufferModel {
            lines: self.lines.update(
                l,
                line.take(self.cursor_col) + t + line.skip(self.cursor_col),
            ),
            cache: self.cache.update(l, false),
            cursor_col: self.cursor_col + t.len(),
            ..self
        }
    }

    /// After inserting each of `segs` as a new line below the cursor, in
    /// order.
    pub open spec fn seg_lines_inserted(self, segs: Seq<Seq<char>>) -> BufferModel
        decreases segs.len(),
    {
        if segs.len() == 0 {
            self
        } else {
            self.with_line_inserted(Some(segs[0])).seg_lines_inserted(segs.skip(1))
        }
    }

    /// After `insert_string(s)`: when `s` ends with a terminator, each
    /// of its lines becomes a new line below the cursor; otherwise the
    /// first segment is spliced into the current line and any remaining
    /// segments become new lines.
    pub open spec fn with_string_inserted(self, s: Seq<char>) -> BufferModel {
        if s.len() > 0 && s.last() == '\n' {
            self.seg_lines_inserted(split_range(s, 0, s.len() - 1))
        } else {
            let k = first_nl_in(s, 0, s.len() as int);
            if k >= s.len() {
                self.with_spliced(s)
            } else {
                self.with_spliced(s.take(k)).seg_lines_inserted(
                    split_range(s, k + 1, s.len() as int),
                )
            }
        }
    }

    /// The range `mv` resolves to from this buffer's cursor.
    pub open spec fn range_of(self, mv: Movement) -> ((int, int), (int, int)) {
        range_spec(self.lines, self.cursor_col, self.cursor_line, mv)
    }

    /// The text `mv`'s range covers, its inclusion applied: a span of
    /// one line, or whole lines each closed by a terminator.
    pub open spec fn span_text(self, mv: Movement) -> Seq<char> {
        let (s, e) = self.range_of(mv);
        let ecc = if mv.inclusion_spec() == Inclusion::Inclusive {
            e.0 + 1
        } else {
            e.0
        };
        if s.1 == e.1 {
            let line = self.lines[s.1];
            let a = if s.0 <= ecc {
                s.0
            } else {
                ecc
            };
            let b0 = if s.0 <= ecc {
                ecc
            } else {
                s.0
            };
            let b = if b0 > line.len() {
                line.len() as int
            } else {
                b0
            };
            line.subrange(a, b)
        } else {
            let ls = if s.1 <= e.1 {
                s.1
            } else {
                e.1
            };
            let le0 = if s.1 <= e.1 {
                e.1
            } else {
                s.1
            };
            let le = if le0 > self.lines.len() {
                self.lines.len() as int
            } else {
                le0
            };
            join_nl(self.lines.subrange(ls, le))
        }
    }

    /// The buffer after `delete_movement(mv)`: the motion's span
    /// removed — a stretch of one line, or whole lines — one empty line
    /// kept when everything went, and the cursor placed, clamped, at
    /// the removed span's start: the span's lower column on its line,
    /// or the first removed line.
    pub open spec fn deleted(self, mv: Movement) -> BufferModel {
        let (s, e) = self.range_of(mv);
        let ecc = if mv.inclusion_spec() == Inclusion::Inclusive {
            e.0 + 1
        } else {
            e.0
        };
        if s.1 == e.1 {
            let line = self.lines[s.1];
            let a = if s.0 <= ecc {
                s.0
            } else {
                ecc
            };
            let b0 = if s.0 <= ecc {
                ecc
            } else {
                s.0
            };
            let b = if b0 > line.len() {
                line.len() as int
            } else {
                b0
            };
            let m1 = BufferModel {
                lines: self.lines.update(
                    s.1,
                    line.subrange(0, a) + line.subrange(b, line.len() as int),
                ),
                cache: self.cache.update(s.1, false),
                ..self
            };
            m1.placed(a, s.1)
        } else {
            let ls = if s.1 <= e.1 {
                s.1
            } else {
                e.1
            };
            let le0 = if s.1 <= e.1 {
                e.1
            } else {
                s.1
            };
            let le = if le0 > self.lines.len() {
                self.lines.len() as int
            } else {
                le0
            };
            let nlines = self.lines.subrange(0, ls) + self.lines.subrange(
                le,
                self.lines.len() as int,
            );
            let ncache = self.cache.subrange(0, ls) + self.cache.subrange(
                le,
                self.cache.len() as int,
            );
            let m1 = if nlines.len() == 0 {
                BufferModel { lines: seq![Seq::<char>::empty()], cache: seq![false], ..self }
            } else {
                BufferModel { lines: nlines, cache: ncache, ..self }
            };
            m1.placed(0, ls)
        }
    }

    /// The buffer after `clear()`: one empty line, cursor at the origin,
    /// the viewport slid back to show line zero.
    pub open spec fn cleared(self) -> BufferModel {
        let vp = self.slid_viewport(0);
        BufferModel {
            lines: seq![Seq::empty()],
            cursor_col: 0,
            cursor_line: 0,
            viewport_start: vp.0,
            viewport_end: vp.1,
            cache: seq![false],
            ..self
        }
    }
}

/// Line storage with cursor and viewport state for one open piece of
/// text. See [`BufferModel`] for the abstract view the contracts use.
pub struct Buffer {
    lines: Vec<Vec<char>>,
    line_cache: Vec<bool>,
    viewport_start: usize,
    viewport_end: usize,
    cursor_line: usize,
    cursor_col: usize,
    show_cursor: bool,
    tab_style: TabStyle,
    fs_loc: Option<Vec<char>>,
}

impl View for Buffer {
    type V = BufferModel;

    closed spec fn view(&self) -> BufferModel {
        BufferModel {
            lines: self.lines@.map_values(|l: Vec<char>| l@),
            cursor_col: self.cursor_col as int,
            cursor_line: self.cursor_line as int,
            viewport_start: self.viewport_start as int,
            viewport_end: self.viewport_end as int,
            cache: self.line_cache@,
            tab_style: self.tab_style,
            fs_loc: match self.fs_loc {
                Some(ref p) => Some(p@),
                None => None,
            },
            show_cursor: self.show_cursor,
        }
    }
}

impl Buffer {
    /// A fresh, unnamed buffer holding one empty line.
    pub fn new() -> (b: Buffer)
        ensures
            b@ == BufferModel::fresh(),
            b@.inv(),
    {
        let mut lines: Vec<Vec<char>> = Vec::new();
        lines.push(Vec::new());
        let mut cache: Vec<bool> = Vec::new();
        cache.push(false);
        let b = Buffer {
            lines,
            line_cache: cache,
            viewport_start: 0,
            viewport_end: DEFAULT_VIEWPORT_ROWS,
            cursor_line: 0,
            cursor_col: 0,
            show_cursor: true,
            tab_style: TabStyle::Tab,
            fs_loc: None,
        };
        proof {
            assert(b@ =~~= BufferModel::fresh());
        }
        b
    }

    /// The cursor as `(column, line)`.
    pub fn curr_loc(&self) -> (r: (usize, usize))
        ensures
            r.0 as int == self@.cursor_col,
            r.1 as int == self@.cursor_line,
    {
        (self.cursor_col, self.cursor_line)
    }

    /// How many lines the buffer holds.
    pub fn line_count(&self) -> (n: usize)
        ensures
            n as int == self@.lines.len(),
    {
        self.lines.len()
    }

    /// The text of line `l`.
    pub fn line(&self, l: usize) -> (r: &Vec<char>)
        requires
            l < self@.lines.len(),
        ensures
            r@ == self@.lines[l as int],
    {
        &self.lines[l]
    }

    /// The viewport as `(start, end)`, the half-open row window scrolled
    /// into view.
    pub fn viewport(&self) -> (r: (usize, usize))
        ensures
            r.0 as int == self@.viewport_start,
            r.1 as int == self@.viewport_end,
    {
        (self.viewport_start, self.viewport_end)
    }

    /// What a Tab keystroke inserts here.
    pub fn tab_style(&self) -> (r: TabStyle)
        ensures
            r == self@.tab_style,
    {
        self.tab_style
    }

    /// The path this buffer mirrors, if it was loaded from or saved to one.
    pub fn fs_loc(&self) -> (r: &Option<Vec<char>>)
        ensures
            match r {
                Some(p) => self@.fs_loc == Some(p@),
                None => self@.fs_loc is None,
            },
    {
        &self.fs_loc
    }

    /// Whether a renderer should paint the cursor.
    pub fn show_cursor(&self) -> (r: bool)
        ensures
            r == self@.show_cursor,
    {
        self.show_cursor
    }

    /// Tells the buffer whether the cursor should be painted.
    pub fn set_show_cursor(&mut self, show: bool)
        ensures
            final(self)@ == (BufferModel { show_cursor: show, ..old(self)@ }),
    {
        self.show_cursor = show;
    }

    /// Whether line `l` still has a valid rendered form.
    pub fn line_cached(&self, l: usize) -> (r: bool)
        requires
            l < self@.cache.len(),
        ensures
            r == self@.cache[l as int],
    {
        self.line_cache[l]
    }

    /// Records that a renderer holds a rendered form of line `l`.
    pub fn mark_line_cached(&mut self, l: usize)
        requires
            l < old(self)@.cache.len(),
        ensures
            final(self)@ == (BufferModel {
                cache: old(self)@.cache.update(l as int, true),
                ..old(self)@
            }),
    {
        self.line_cache.set(l, true);
    }

    /// Drops any rendered form held for line `l`, after its text changed.
    pub fn invalidate_line(&mut self, l: usize)
        requires
            l < old(self)@.cache.len(),
        ensures
            final(self)@ == (BufferModel {
                cache: old(self)@.cache.update(l as int, false),
                ..old(self)@
            }),
    {
        self.line_cache.set(l, false);
    }

    /// Slides the viewport one row at a time until line `tl` is inside
    /// it, then parks the cursor there. `tl` must be a valid line; the
    /// cursor column is clamped by the caller.
    fn slide_viewport_to(&mut self, tl: usize)
        requires
            old(self)@.viewport_start < old(self)@.viewport_end,
            tl < usize::MAX,
        ensures
            final(self)@ == (BufferModel {
                viewport_start: old(self)@.slid_viewport(tl as int).0,
                viewport_end: old(self)@.slid_viewport(tl as int).1,
                ..old(self)@
            }),
    {
        // The closed forms below are exactly where shifting start and end
        // by one row at a time comes to rest: the window keeps its height
        // and moves just far enough to contain tl.
        if tl < self.viewport_start {
            let shift = self.viewport_start - tl;
            self.viewport_start = tl;
            self.viewport_end = self.viewport_end - shift;
        } else if tl >= self.viewport_end {
            let shift = tl + 1 - self.viewport_end;
            self.viewport_start = self.viewport_start + shift;
            self.viewport_end = tl + 1;
        }
        proof {
            assert(self@ =~~= (BufferModel {
                viewport_start: old(self)@.slid_viewport(tl as int).0,
                viewport_end: old(self)@.slid_viewport(tl as int).1,
                ..old(self)@
            }));
        }
    }

    /// Puts the cursor at `(col, line)`, clamped into the buffer, and
    /// slides the viewport one row at a time until the cursor is inside
    /// it.
    pub fn place_cursor(&mut self, col: usize, line: usize)
        requires
            old(self)@.frame_ok(),
        ensures
            final(self)@ == old(self)@.placed(col as int, line as int),
            final(self)@.inv(),
    {
        let nlines = self.lines.len();
        let tl = if line >= nlines {
            nlines - 1
        } else {
            line
        };
        let llen = self.lines[tl].len();
        let tc = if col > llen {
            llen
        } else {
            col
        };
        self.slide_viewport_to(tl);
        self.cursor_col = tc;
        self.cursor_line = tl;
        proof {
            assert(self@ =~~= old(self)@.placed(col as int, line as int));
        }
    }

    /// Moves the cursor by `(dx, dy)` columns and lines, clamping a
    /// negative target to zero, then places it as `place_cursor` does.
    pub fn move_cursor(&mut self, d: (isize, isize))
        requires
            old(self)@.inv(),
        ensures
            final(self)@ == old(self)@.moved(d.0 as int, d.1 as int),
            final(self)@.inv(),
    {
        let tc = offset_pos(self.cursor_col, d.0);
        let tl = offset_pos(self.cursor_line, d.1);
        self.place_cursor(tc, tl);
    }

    /// Resets to one empty line with the cursor at the origin.
    pub fn clear(&mut self)
        requires
            old(self)@.inv(),
        ensures
            final(self)@ == old(self)@.cleared(),
            final(self)@.inv(),
    {
        self.lines.clear();
        self.lines.push(Vec::new());
        self.line_cache.clear();
        self.line_cache.push(false);
        self.cursor_col = 0;
        self.cursor_line = 0;
        self.slide_viewport_to(0);
        proof {
            assert(self@ =~~= old(self)@.cleared());
        }
    }

    /// Inserts `c` at the cursor and advances the cursor one column.
    /// Line terminators enter a buffer only through `break_line` and
    /// `insert_string`, never as single characters.
    pub fn insert_char(&mut self, c: char)
        requires
            old(self)@.inv(),
            c != '\n',
        ensures
            final(self)@ == old(self)@.with_char_inserted(c),
            final(self)@.inv(),
    {
        let l = self.cursor_line;
        let col = self.cursor_col;
        let line = &mut self.lines[l];
        line.insert(col, c);
        let nl = line.len();
        self.line_cache.set(l, false);
        assert(col < nl);
        self.cursor_col = col + 1;
        proof {
            lemma_line_ok_insert(old(self)@.lines[l as int], col as int, c);
            assert(self@ =~~= old(self)@.with_char_inserted(c));
        }
    }

    /// Removes the character under the cursor; with the cursor at or
    /// past the line's end, removes the line's last character instead
    /// (and clamps the cursor back onto the line).
    pub fn delete_char(&mut self)
        requires
            old(self)@.inv(),
        ensures
            final(self)@ == old(self)@.with_char_deleted(),
            final(self)@.inv(),
    {
        let l = self.cursor_line;
        let col = self.cursor_col;
        let llen = self.lines[l].len();
        if col < llen {
            let line = &mut self.lines[l];
            line.remove(col);
            self.line_cache.set(l, false);
            proof {
                lemma_line_ok_remove(old(self)@.lines[l as int], col as int);
                assert(self@ =~~= old(self)@.with_char_deleted());
            }
        } else if llen > 0 {
            let line = &mut self.lines[l];
            line.pop();
            self.line_cache.set(l, false);
            self.cursor_col = llen - 1;
            proof {
                lemma_line_ok_subrange(
                    old(self)@.lines[l as int],
                    0,
                    old(self)@.lines[l as int].len() - 1,
                );
                assert(old(self)@.lines[l as int].drop_last() == old(self)@.lines[
                    l as int
                ].subrange(0, old(self)@.lines[l as int].len() - 1));
                assert(self@ =~~= old(self)@.with_char_deleted());
            }
        } else {
            self.line_cache.set(l, false);
            proof {
                assert(self@ =~~= old(self)@.with_char_deleted());
            }
        }
    }

    /// Splits the current line at the cursor: the tail becomes a new
    /// line just below, and the cursor moves to its start.
    pub fn break_line(&mut self)
        requires
            old(self)@.inv(),
        ensures
            final(self)@ == old(self)@.with_line_broken(),
            final(self)@.inv(),
    {
        let l = self.cursor_line;
        let col = self.cursor_col;
        let line = &mut self.lines[l];
        let tail = line.split_off(col);
        self.lines.insert(l + 1, tail);
        let n2 = self.lines.len();
        self.line_cache.set(l, false);
        self.line_cache.insert(l + 1, false);
        self.cursor_col = 0;
        self.cursor_line = l + 1;
        self.slide_viewport_to(l + 1);
        proof {
            let m0 = old(self)@;
            let head = m0.lines[l as int].take(m0.cursor_col);
            let tl = m0.lines[l as int].skip(m0.cursor_col);
            lemma_line_ok_subrange(m0.lines[l as int], 0, m0.cursor_col);
            lemma_line_ok_subrange(m0.lines[l as int], m0.cursor_col, m0.lines[l as int].len() as int);
            assert(self@ =~~= m0.with_line_broken());
            m0.lines.update(l as int, head).insert_ensures(l as int + 1, tl);
            assert forall|i: int|
                0 <= i < self@.lines.len() implies line_ok(#[trigger] self@.lines[i]) by {
                let u = m0.lines.update(l as int, head);
                if i < l as int + 1 {
                    assert(self@.lines[i] == u[i]);
                } else if i == l as int + 1 {
                    assert(self@.lines[i] == tl);
                } else {
                    assert(self@.lines[i] == u[i - 1]);
                }
            }
        }
    }

    /// Inserts a new line — empty, or holding `text` — just below the
    /// cursor's line, and moves the cursor to its start. `text` must be
    /// a single line: no terminator inside it.
    pub fn insert_line(&mut self, text: Option<Vec<char>>)
        requires
            old(self)@.inv(),
            match text {
                Some(t) => line_ok(t@),
                None => true,
            },
        ensures
            final(self)@ == old(self)@.with_line_inserted(
                match text {
                    Some(t) => Some(t@),
                    None => None,
                },
            ),
            final(self)@.inv(),
    {
        let l = self.cursor_line;
        let ghost content = match text {
            Some(ref t) => t@,
            None => Seq::<char>::empty(),
        };
        match text {
            Some(t) => self.lines.insert(l + 1, t),
            None => self.lines.insert(l + 1, Vec::new()),
        }
        let n2 = self.lines.len();
        self.line_cache.insert(l + 1, false);
        self.cursor_col = 0;
        self.cursor_line = l + 1;
        self.slide_viewport_to(l + 1);
        proof {
            let m0 = old(self)@;
            assert(self@ =~~= m0.with_line_inserted(
                match text {
                    Some(t) => Some(t@),
                    None => None,
                },
            ));
            m0.lines.insert_ensures(l as int + 1, content);
            assert forall|i: int|
                0 <= i < self@.lines.len() implies line_ok(#[trigger] self@.lines[i]) by {
                if i < l as int + 1 {
                    assert(self@.lines[i] == m0.lines[i]);
                } else if i == l as int + 1 {
                    assert(self@.lines[i] == content);
                } else {
                    assert(self@.lines[i] == m0.lines[i - 1]);
                }
            }
        }
    }

    /// Inserts what a Tab keystroke stands for here: one literal tab, or
    /// the configured run of spaces.
    #[verifier::loop_isolation(false)]
    pub fn insert_tab(&mut self)
        requires
            old(self)@.inv(),
        ensures
            final(self)@ == old(self)@.with_tab_inserted(),
            final(self)@.inv(),
    {
        match self.tab_style {
            TabStyle::Tab => {
                self.insert_char('\t');
            },
            TabStyle::Spaces(n) => {
                let mut i: usize = 0;
                while i < n
                    invariant
                        i <= n,
                        self@ == old(self)@.with_spaces_inserted(i as int),
                        self@.inv(),
                    decreases n - i,
                {
                    proof {
                        lemma_spaces_step(old(self)@, i as int);
                    }
                    self.insert_char(' ');
                    i = i + 1;
                    assert(self@ =~~= old(self)@.with_spaces_inserted(i as int));
                }
            },
        }
    }

    /// Splices `s` into the buffer at the cursor: text ending in a
    /// terminator becomes whole new lines below the cursor; anything
    /// else splices its first segment into the current line and inserts
    /// the remaining segments as new lines.
    #[verifier::loop_isolation(false)]
    pub fn insert_string(&mut self, s: &Vec<char>)
        requires
            old(self)@.inv(),
        ensures
            final(self)@ == old(self)@.with_string_inserted(s@),
            final(self)@.inv(),
    {
        let n = s.len();
        if n > 0 && s[n - 1] == '\n' {
            self.insert_segments(s, 0, n - 1);
            return;
        }
        // Find the end of the first segment.
        let mut k: usize = 0;
        while k < n && s[k] != '\n'
            invariant
                k <= n,
                first_nl_in(s@, 0, n as int) == first_nl_in(s@, k as int, n as int),
                forall|t: int| 0 <= t < k ==> s@[t] != '\n',
            decreases n - k,
        {
            k = k + 1;
        }
        assert(first_nl_in(s@, 0, n as int) == k);
        let seg = copy_range(s, 0, k);
        // Splice the first segment into the current line at the cursor.
        let l = self.cursor_line;
        let col = self.cursor_col;
        let line = &mut self.lines[l];
        let mut tail = line.split_off(col);
        let mut head_add = seg;
        line.append(&mut head_add);
        line.append(&mut tail);
        let nl2 = line.len();
        self.line_cache.set(l, false);
        assert(col + k <= nl2);
        self.cursor_col = col + k;
        proof {
            let m0 = old(self)@;
            let t = s@.take(k as int);
            assert(t =~= s@.subrange(0, k as int));
            lemma_line_ok_subrange(m0.lines[l as int], 0, col as int);
            lemma_line_ok_subrange(m0.lines[l as int], col as int, m0.lines[l as int].len() as int);
            assert(self@.lines[l as int] =~= m0.lines[l as int].take(col as int) + t + m0.lines[
                l as int
            ].skip(col as int));
            assert(self@ =~~= m0.with_spliced(t));
            assert forall|i: int|
                0 <= i < self@.lines.len() implies line_ok(#[trigger] self@.lines[i]) by {
                if i == l as int {
                    lemma_line_ok_add(m0.lines[l as int].take(col as int), t);
                    lemma_line_ok_add(
                        m0.lines[l as int].take(col as int) + t,
                        m0.lines[l as int].skip(col as int),
                    );
                } else {
                    assert(self@.lines[i] == m0.lines[i]);
                }
            }
        }
        if k < n {
            self.insert_segments(s, k + 1, n);
        } else {
            proof {
                assert(s@.take(k as int) =~= s@);
            }
        }
    }

    /// Inserts every segment of `s[from .. to]` as a new line below the
    /// cursor, in order.
    #[verifier::loop_isolation(false)]
    fn insert_segments(&mut self, s: &Vec<char>, from: usize, to: usize)
        requires
            old(self)@.inv(),
            from <= to <= s@.len(),
        ensures
            final(self)@ == old(self)@.seg_lines_inserted(
                split_range(s@, from as int, to as int),
            ),
            final(self)@.inv(),
        decreases to - from,
    {
        let mut k: usize = from;
        while k < to && s[k] != '\n'
            invariant
                from <= k <= to,
                first_nl_in(s@, from as int, to as int) == first_nl_in(s@, k as int, to as int),
                forall|t: int| from <= t < k ==> s@[t] != '\n',
            decreases to - k,
        {
            k = k + 1;
        }
        assert(first_nl_in(s@, from as int, to as int) == k);
        let seg = copy_range(s, from, k);
        let ghost segv = seg@;
        let ghost segs = split_range(s@, from as int, to as int);
        let ghost m0 = old(self)@;
        self.insert_line(Some(seg));
        if k < to {
            proof {
                assert(segs =~= seq![s@.subrange(from as int, k as int)] + split_range(
                    s@,
                    k as int + 1,
                    to as int,
                ));
                assert(segs[0] == segv);
                assert(segs.skip(1) =~= split_range(s@, k as int + 1, to as int));
                assert(self@ == m0.with_line_inserted(Some(segs[0])));
            }
            self.insert_segments(s, k + 1, to);
            proof {
                assert(m0.seg_lines_inserted(segs) == m0.with_line_inserted(
                    Some(segs[0]),
                ).seg_lines_inserted(segs.skip(1)));
            }
        } else {
            proof {
                assert(k == to);
                assert(segs =~= seq![s@.subrange(from as int, to as int)]);
                assert(segs[0] == segv);
                assert(segs.skip(1) =~= Seq::<Seq<char>>::empty());
                assert(m0.seg_lines_inserted(segs) == m0.with_line_inserted(
                    Some(segs[0]),
                ).seg_lines_inserted(segs.skip(1)));
                assert(m0.seg_lines_inserted(segs.skip(1).skip(0)) == m0.seg_lines_inserted(
                    segs.skip(1),
                ));
            }
        }
    }

    /// Builds a buffer for the file at `path` holding `text`, splitting
    /// it into lines and detecting its indentation style. Reading the
    /// file itself is the caller's business: this takes the text as
    /// plain characters.
    pub fn load(path: Vec<char>, text: &Vec<char>) -> (b: Buffer)
        ensures
            b@ == BufferModel::loaded(path@, text@),
            b@.inv(),
    {
        let n = text.len();
        let to = if n > 0 && text[n - 1] == '\n' {
            n - 1
        } else {
            n
        };
        let mut lines = split_exec(text, 0, to);
        let ghost segs = split_range(text@, 0, to as int);
        proof {
            lemma_split_range_ok(text@, 0, to as int);
        }
        // A carriage return just before each terminator is dropped, so
        // CRLF text loads the same as LF text.
        let nlines0 = lines.len();
        let mut li: usize = 0;
        while li < nlines0
            invariant
                li <= nlines0,
                nlines0 as int == lines@.len(),
                lines@.len() == segs.len(),
                forall|t: int|
                    0 <= t < li ==> (#[trigger] lines@[t])@ == strip_cr(segs[t]),
                forall|t: int| li <= t < lines@.len() ==> (#[trigger] lines@[t])@ == segs[t],
            decreases nlines0 - li,
        {
            let ll = lines[li].len();
            if ll > 0 && lines[li][ll - 1] == '\r' {
                let line = &mut lines[li];
                line.pop();
                proof {
                    assert(lines@[li as int]@ =~= strip_cr(segs[li as int]));
                }
            }
            li = li + 1;
        }
        let ghost lmodel = text_lines(text@);
        proof {
            assert(lines@.map_values(|l: Vec<char>| l@) =~~= lmodel);
            assert forall|t: int| 0 <= t < lmodel.len() implies line_ok(#[trigger] lmodel[t]) by {
                assert(line_ok(segs[t]));
                assert forall|k: int|
                    0 <= k < lmodel[t].len() implies lmodel[t][k] != '\n' by {
                    assert(lmodel[t][k] == segs[t][k]);
                }
            }
        }
        let nlines = lines.len();
        // One cache slot per line, all invalid until a renderer fills them.
        let mut cache: Vec<bool> = Vec::new();
        let mut i: usize = 0;
        while i < nlines
            invariant
                i <= nlines,
                cache@ == Seq::new(i as nat, |t: int| false),
            decreases nlines - i,
        {
            cache.push(false);
            i = i + 1;
            proof {
                assert(cache@ =~= Seq::new(i as nat, |t: int| false));
            }
        }
        let tab_style = detect_tab_exec(&lines);
        let b = Buffer {
            lines,
            line_cache: cache,
            viewport_start: 0,
            viewport_end: DEFAULT_VIEWPORT_ROWS,
            cursor_line: 0,
            cursor_col: 0,
            show_cursor: true,
            tab_style,
            fs_loc: Some(path),
        };
        proof {
            assert(b@ =~~= BufferModel::loaded(path@, text@));
        }
        b
    }

    /// All lines joined back together, a terminator after each: the text
    /// that saving this buffer writes out.
    #[verifier::loop_isolation(false)]
    pub fn contents(&self) -> (r: Vec<char>)
        requires
            self@.inv(),
        ensures
            r@ == join_nl(self@.lines),
    {
        let mut r: Vec<char> = Vec::new();
        let n = self.lines.len();
        let mut i: usize = 0;
        while i < n
            invariant
                i <= n,
                r@ == join_nl(self@.lines.take(i as int)),
            decreases n - i,
        {
            let line = &self.lines[i];
            let m = line.len();
            let mut k: usize = 0;
            while k < m
                invariant
                    k <= m,
                    r@ == join_nl(self@.lines.take(i as int)) + self@.lines[i as int].take(
                        k as int,
                    ),
                decreases m - k,
            {
                let c = line[k];
                r.push(c);
                k = k + 1;
                proof {
                    assert(self@.lines[i as int].take(k as int) =~= self@.lines[i as int].take(
                        k as int - 1,
                    ).push(line@[k as int - 1]));
                }
            }
            r.push('\n');
            i = i + 1;
            proof {
                let ls = self@.lines.take(i as int);
                assert(ls.drop_last() =~= self@.lines.take(i as int - 1));
                assert(ls.last() == self@.lines[i as int - 1]);
                assert(self@.lines[i as int - 1].take(m as int) =~= self@.lines[i as int - 1]);
                assert(r@ =~= join_nl(ls));
            }
        }
        proof {
            assert(self@.lines.take(n as int) =~= self@.lines);
        }
        r
    }

    /// Resolves `mv` from the cursor into a half-open range of
    /// `(column, line)` positions, before the inclusion adjustment its
    /// consumer applies. Resolution only reads the buffer: the scratch
    /// cursor a `Rep` motion relocates is internal to the computation.
    pub fn movement_range(&self, mv: &Movement) -> (r: ((usize, usize), (usize, usize)))
        requires
            self@.inv(),
        ensures
            ((r.0.0 as int, r.0.1 as int), (r.1.0 as int, r.1.1 as int)) == self@.range_of(*mv),
    {
        range_at(&self.lines, self.cursor_col, self.cursor_line, mv)
    }

    /// Moves the cursor to `mv`'s resolved endpoint.
    pub fn make_movement(&mut self, mv: &Movement)
        requires
            old(self)@.inv(),
        ensures
            final(self)@ == old(self)@.placed(
                old(self)@.range_of(*mv).1.0,
                old(self)@.range_of(*mv).1.1,
            ),
            final(self)@.inv(),
    {
        let r = self.movement_range(mv);
        self.place_cursor(r.1.0, r.1.1);
    }

    /// Scans the cursor's line for `query`: forwards, the first match at
    /// or after the cursor; backwards, the last match at or before it.
    pub fn scan_line(&self, query: char, forwards: bool) -> (r: Option<usize>)
        requires
            self@.inv(),
        ensures
            ({
                let line = self@.lines[self@.cursor_line];
                let m = if forwards {
                    scan_fwd(line, self@.cursor_col, query)
                } else {
                    scan_back(line, self@.cursor_col, query)
                };
                match r {
                    Some(i) => i as int == m,
                    None => m == -1,
                }
            }),
    {
        let line = &self.lines[self.cursor_line];
        if forwards {
            scan_fwd_exec(line, self.cursor_col, query)
        } else {
            scan_back_exec(line, self.cursor_col, query)
        }
    }

    /// Removes the text `mv`'s range covers — a stretch of the current
    /// line, or whole lines — and returns it, a terminator closing each
    /// removed line. At least one line always remains, and the cursor
    /// lands, clamped, at the removed span's start.
    #[verifier::loop_isolation(false)]
    #[verifier::rlimit(60)]
    pub fn delete_movement(&mut self, mv: &Movement) -> (removed: Vec<char>)
        requires
            old(self)@.inv(),
        ensures
            final(self)@ == old(self)@.deleted(*mv),
            removed@ == old(self)@.span_text(*mv),
            final(self)@.inv(),
    {
        let (s, e) = self.movement_range(mv);
        proof {
            lemma_range_valid(self@.lines, self@.cursor_col, self@.cursor_line, *mv);
        }
        let inclusive = mv.inclusion_mode() == Inclusion::Inclusive;
        if s.1 == e.1 {
            let l = s.1;
            let llen = self.lines[l].len();
            let (a, b) = clamp_span(s.0, e.0, inclusive, llen);
            let line = &mut self.lines[l];
            let mut tail = line.split_off(b);
            let removed = line.split_off(a);
            line.append(&mut tail);
            self.line_cache.set(l, false);
            proof {
                let m0 = old(self)@;
                let oldline = m0.lines[l as int];
                assert(removed@ =~= oldline.subrange(a as int, b as int));
                assert(self@.lines[l as int] =~= oldline.subrange(0, a as int) + oldline.subrange(
                    b as int,
                    oldline.len() as int,
                ));
                lemma_line_ok_subrange(oldline, 0, a as int);
                lemma_line_ok_subrange(oldline, b as int, oldline.len() as int);
                lemma_line_ok_add(
                    oldline.subrange(0, a as int),
                    oldline.subrange(b as int, oldline.len() as int),
                );
                assert forall|i: int|
                    0 <= i < self@.lines.len() implies line_ok(#[trigger] self@.lines[i]) by {
                    if i != l as int {
                        assert(self@.lines[i] == m0.lines[i]);
                    }
                }
                assert(self@.frame_ok());
            }
            // The cursor lands at the start of the removed span.
            self.place_cursor(a, l);
            proof {
                assert(self@ =~~= old(self)@.deleted(*mv));
            }
            removed
        } else {
            let ls = if s.1 <= e.1 {
                s.1
            } else {
                e.1
            };
            let le0 = if s.1 <= e.1 {
                e.1
            } else {
                s.1
            };
            let nlines0 = self.lines.len();
            let le = if le0 > nlines0 {
                nlines0
            } else {
                le0
            };
            assert(ls <= le);
            let cnt = le - ls;
            let ghost m0 = self@;
            let mut removed: Vec<char> = Vec::new();
            let mut k: usize = 0;
            while k < cnt
                invariant
                    k <= cnt,
                    self@.lines == m0.lines.subrange(0, ls as int) + m0.lines.subrange(
                        ls as int + k,
                        m0.lines.len() as int,
                    ),
                    self@.cache == m0.cache.subrange(0, ls as int) + m0.cache.subrange(
                        ls as int + k,
                        m0.cache.len() as int,
                    ),
                    self@.cursor_col == m0.cursor_col,
                    self@.cursor_line == m0.cursor_line,
                    self@.viewport_start == m0.viewport_start,
                    self@.viewport_end == m0.viewport_end,
                    self@.tab_style == m0.tab_style,
                    self@.fs_loc == m0.fs_loc,
                    self@.show_cursor == m0.show_cursor,
                    removed@ == join_nl(m0.lines.subrange(ls as int, ls as int + k)),
                decreases cnt - k,
            {
                let ghost prevm = self@;
                let rl = self.lines.remove(ls);
                let mut rl2 = rl;
                removed.append(&mut rl2);
                removed.push('\n');
                self.line_cache.remove(ls);
                k = k + 1;
                proof {
                    let target = m0.lines.subrange(0, ls as int) + m0.lines.subrange(
                        ls as int + k,
                        m0.lines.len() as int,
                    );
                    assert(prevm.lines[ls as int] == m0.lines[ls as int + k - 1]);
                    assert forall|i: int|
                        0 <= i < self@.lines.len() implies self@.lines[i] == target[i] by {
                        if i < ls as int {
                            assert(self@.lines[i] == prevm.lines[i]);
                        } else {
                            assert(self@.lines[i] == prevm.lines[i + 1]);
                        }
                    }
                    assert(self@.lines =~= target);
                    assert(self@.cache =~= m0.cache.subrange(0, ls as int) + m0.cache.subrange(
                        ls as int + k,
                        m0.cache.len() as int,
                    ));
                    let pref = m0.lines.subrange(ls as int, ls as int + k);
                    assert(pref.drop_last() =~= m0.lines.subrange(ls as int, ls as int + k - 1));
                    assert(pref.last() == m0.lines[ls as int + k - 1]);
                    assert(rl@ == prevm.lines[ls as int]);
                    assert(removed@ =~= join_nl(pref));
                }
            }
            if self.lines.len() == 0 {
                self.lines.push(Vec::new());
                self.line_cache.push(false);
            }
            proof {
                assert forall|i: int|
                    0 <= i < self@.lines.len() implies line_ok(#[trigger] self@.lines[i]) by {
                    let kept = m0.lines.subrange(0, ls as int) + m0.lines.subrange(
                        ls as int + cnt,
                        m0.lines.len() as int,
                    );
                    if i < kept.len() {
                        if i < ls as int {
                            assert(kept[i] == m0.lines[i]);
                        } else {
                            assert(kept[i] == m0.lines[i + cnt]);
                        }
                    }
                }
                assert(self@.frame_ok());
            }
            // The cursor lands on the first removed line, clamped back
            // inside the buffer when the tail was removed.
            self.place_cursor(0, ls);
            proof {
                assert(self@ =~~= old(self)@.deleted(*mv));
            }
            removed
        }
    }

    /// Returns the text `mv`'s range covers, shaped exactly as
    /// `delete_movement` would remove it, without touching any buffer
    /// state: yanking only reads.
    #[verifier::loop_isolation(false)]
    pub fn yank_movement(&self, mv: &Movement) -> (text: Vec<char>)
        requires
            self@.inv(),
        ensures
            text@ == self@.span_text(*mv),
    {
        let (s, e) = self.movement_range(mv);
        proof {
            lemma_range_valid(self@.lines, self@.cursor_col, self@.cursor_line, *mv);
        }
        let inclusive = mv.inclusion_mode() == Inclusion::Inclusive;
        if s.1 == e.1 {
            let l = s.1;
            let llen = self.lines[l].len();
            let (a, b) = clamp_span(s.0, e.0, inclusive, llen);
            copy_range(&self.lines[l], a, b)
        } else {
            let ls = if s.1 <= e.1 {
                s.1
            } else {
                e.1
            };
            let le0 = if s.1 <= e.1 {
                e.1
            } else {
                s.1
            };
            let nlines0 = self.lines.len();
            let le = if le0 > nlines0 {
                nlines0
            } else {
                le0
            };
            assert(ls <= le);
            let mut text: Vec<char> = Vec::new();
            let mut k: usize = ls;
            while k < le
                invariant
                    ls <= k <= le,
                    text@ == join_nl(self@.lines.subrange(ls as int, k as int)),
                decreases le - k,
            {
                let line = &self.lines[k];
                let mut piece = copy_range(line, 0, line.len());
                text.append(&mut piece);
                text.push('\n');
                k = k + 1;
                proof {
                    let pref = self@.lines.subrange(ls as int, k as int);
                    assert(pref.drop_last() =~= self@.lines.subrange(ls as int, k as int - 1));
                    assert(pref.last() == self@.lines[k as int - 1]);
                    assert(self@.lines[k as int - 1].subrange(
                        0,
                        self@.lines[k as int - 1].len() as int,
                    ) =~= self@.lines[k as int - 1]);
                    assert(text@ =~= join_nl(pref));
                }
            }
            text
        }
    }
}

/// The column span `[a, b)` a resolved range covers on one line: the
/// endpoint adjusted one column right when the motion is inclusive, the
/// two columns put in order, and the far one clamped onto the line.
fn clamp_span(s0: usize, e0: usize, inclusive: bool, llen: usize) -> (r: (usize, usize))
    requires
        s0 <= llen,
    ensures
        ({
            let ecc: int = if inclusive {
                e0 + 1
            } else {
                e0 as int
            };
            let a: int = if s0 <= ecc {
                s0 as int
            } else {
                ecc
            };
            let b0: int = if s0 <= ecc {
                ecc
            } else {
                s0 as int
            };
            let b: int = if b0 > llen {
                llen as int
            } else {
                b0
            };
            r.0 == a && r.1 == b && r.0 <= r.1 <= llen
        }),
{
    if inclusive {
        if s0 <= e0 {
            let b = if e0 >= llen {
                llen
            } else {
                e0 + 1
            };
            (s0, b)
        } else {
            // e0 + 1 <= s0, so the span runs from past the endpoint up
            // to the start
            let b = if s0 > llen {
                llen
            } else {
                s0
            };
            (e0 + 1, b)
        }
    } else {
        if s0 <= e0 {
            let b = if e0 > llen {
                llen
            } else {
                e0
            };
            (s0, b)
        } else {
            (e0, s0)
        }
    }
}

/// The earlier of two positions `(column, line)`.
fn pos_min_exec(a: (usize, usize), b: (usize, usize)) -> (r: (usize, usize))
    ensures
        (r.0 as int, r.1 as int) == pos_min((a.0 as int, a.1 as int), (b.0 as int, b.1 as int)),
{
    if a.1 < b.1 || (a.1 == b.1 && a.0 <= b.0) {
        a
    } else {
        b
    }
}

/// The later of two positions `(column, line)`.
fn pos_max_exec(a: (usize, usize), b: (usize, usize)) -> (r: (usize, usize))
    ensures
        (r.0 as int, r.1 as int) == pos_max((a.0 as int, a.1 as int), (b.0 as int, b.1 as int)),
{
    if a.1 < b.1 || (a.1 == b.1 && a.0 <= b.0) {
        b
    } else {
        a
    }
}

/// Executable [`clamp_pos`].
fn clamp_exec(lines: &Vec<Vec<char>>, p: (usize, usize)) -> (r: (usize, usize))
    requires
        lines@.len() >= 1,
    ensures
        (r.0 as int, r.1 as int) == clamp_pos(lines_view(lines@), (p.0 as int, p.1 as int)),
        (r.1 as int) < lines@.len(),
        r.0 as int <= lines@[r.1 as int]@.len(),
{
    let n = lines.len();
    let l = if p.1 >= n {
        n - 1
    } else {
        p.1
    };
    let m = lines[l].len();
    let c = if p.0 >= m {
        m
    } else {
        p.0
    };
    (c, l)
}

/// Executable [`range_spec`].
#[verifier::loop_isolation(false)]
fn range_at(lines: &Vec<Vec<char>>, ccol: usize, cline: usize, mv: &Movement) -> (r: (
    (usize, usize),
    (usize, usize),
))
    requires
        (cline as int) < lines@.len(),
        ccol as int <= lines@[cline as int]@.len(),
    ensures
        ((r.0.0 as int, r.0.1 as int), (r.1.0 as int, r.1.1 as int)) == range_spec(
            lines_view(lines@),
            ccol as int,
            cline as int,
            *mv,
        ),
    decreases *mv,
{
    let cur = (ccol, cline);
    match mv {
        Movement::Char(right) => {
            let ec = if *right {
                if ccol == usize::MAX {
                    ccol
                } else {
                    ccol + 1
                }
            } else {
                if ccol == 0 {
                    0
                } else {
                    ccol - 1
                }
            };
            (cur, (ec, cline))
        },
        Movement::Line(up, incl) => {
            let el = if *up {
                if cline == 0 {
                    0
                } else {
                    cline - 1
                }
            } else {
                if cline == usize::MAX {
                    cline
                } else {
                    cline + 1
                }
            };
            match incl {
                Inclusion::Inclusive => ((0, cline), (0, el)),
                _ => (cur, (ccol, el)),
            }
        },
        Movement::Word(dir, _) => {
            if *dir {
                (cur, word_fwd_exec(lines, ccol, cline))
            } else {
                (cur, word_back_exec(lines, ccol, cline))
            }
        },
        Movement::CharScan { query, direction, inclusion: _, place_to_side } => {
            let line = &lines[cline];
            let m = if *direction {
                if ccol >= line.len() {
                    None
                } else {
                    scan_fwd_exec(line, ccol + 1, *query)
                }
            } else {
                if ccol == 0 {
                    None
                } else {
                    scan_back_exec(line, ccol - 1, *query)
                }
            };
            match m {
                None => (cur, cur),
                Some(mm) => {
                    proof {
                        if *direction {
                            lemma_scan_fwd_valid(line@, ccol as int + 1, *query);
                        } else {
                            lemma_scan_back_valid(line@, ccol as int - 1, *query);
                        }
                    }
                    let tc = if *place_to_side {
                        if *direction {
                            mm - 1
                        } else {
                            mm + 1
                        }
                    } else {
                        mm
                    };
                    (cur, (tc, cline))
                },
            }
        },
        Movement::StartOfLine => (cur, (0, cline)),
        Movement::EndOfLine => (cur, (lines[cline].len(), cline)),
        Movement::Rep(n, inner) => {
            let im: &Movement = &**inner;
            let r0 = range_at(lines, ccol, cline, im);
            proof {
                lemma_range_valid(lines_view(lines@), ccol as int, cline as int, *im);
            }
            let mut acc_s = r0.0;
            let mut acc_e = r0.1;
            let mut cursp = clamp_exec(lines, r0.1);
            let reps: usize = if *n == 0 {
                1
            } else {
                *n
            };
            let mut t: usize = 1;
            while t < reps
                invariant
                    1 <= t <= reps,
                    (cursp.1 as int) < lines@.len(),
                    cursp.0 as int <= lines@[cursp.1 as int]@.len(),
                    ((acc_s.0 as int, acc_s.1 as int), (acc_e.0 as int, acc_e.1 as int), (
                        cursp.0 as int,
                        cursp.1 as int,
                    )) == rep_spec(
                        lines_view(lines@),
                        ccol as int,
                        cline as int,
                        *im,
                        (t - 1) as nat,
                    ),
                decreases reps - t,
            {
                let rr = range_at(lines, cursp.0, cursp.1, im);
                proof {
                    lemma_range_valid(lines_view(lines@), cursp.0 as int, cursp.1 as int, *im);
                }
                acc_s = pos_min_exec(acc_s, rr.0);
                acc_e = pos_max_exec(acc_e, rr.1);
                cursp = clamp_exec(lines, rr.1);
                t = t + 1;
            }
            (acc_s, acc_e)
        },
    }
}

/// `b.with_spaces_inserted(i)` followed by one more space at the cursor
/// is `b.with_spaces_inserted(i + 1)`.
proof fn lemma_spaces_step(b: BufferModel, i: int)
    requires
        b.inv(),
        i >= 0,
    ensures
        b.with_spaces_inserted(i).with_char_inserted(' ') == b.with_spaces_inserted(i + 1),
{
    let col = b.cursor_col;
    let l = b.cursor_line;
    let line = b.lines[l];
    let before = b.with_spaces_inserted(i);
    let after = before.with_char_inserted(' ');
    let want = b.with_spaces_inserted(i + 1);
    if i == 0 {
        assert(after.lines[l] =~= line.take(col) + spaces(1) + line.skip(col)) by {
            line.insert_ensures(col, ' ');
        }
        assert(after.lines =~~= want.lines);
        assert(after.cache =~= want.cache);
        assert(after =~~= want);
    } else {
        let mid = line.take(col) + spaces(i) + line.skip(col);
        assert(before.lines[l] == mid);
        mid.insert_ensures(col + i, ' ');
        assert(after.lines[l] =~= line.take(col) + spaces(i + 1) + line.skip(col));
        assert(after.lines =~~= want.lines);
        assert(after.cache =~= want.cache);
        assert(after =~~= want);
    }
}

/// The segments of `s[from .. to]`, split at line terminators.
#[verifier::loop_isolation(false)]
fn split_exec(s: &Vec<char>, from: usize, to: usize) -> (r: Vec<Vec<char>>)
    requires
        from <= to <= s@.len(),
    ensures
        r@.map_values(|l: Vec<char>| l@) == split_range(s@, from as int, to as int),
    decreases to - from,
{
    let mut k: usize = from;
    while k < to && s[k] != '\n'
        invariant
            from <= k <= to,
            first_nl_in(s@, from as int, to as int) == first_nl_in(s@, k as int, to as int),
        decreases to - k,
    {
        k = k + 1;
    }
    assert(first_nl_in(s@, from as int, to as int) == k);
    let seg = copy_range(s, from, k);
    if k < to {
        let mut rest = split_exec(s, k + 1, to);
        rest.insert(0, seg);
        proof {
            assert(rest@.map_values(|l: Vec<char>| l@) =~= split_range(
                s@,
                from as int,
                to as int,
            ));
        }
        rest
    } else {
        let mut r: Vec<Vec<char>> = Vec::new();
        r.push(seg);
        proof {
            assert(r@.map_values(|l: Vec<char>| l@) =~= split_range(s@, from as int, to as int));
        }
        r
    }
}

/// The indentation style the first non-empty line of `lines` reveals,
/// mirroring [`detect_tab_style`].
#[verifier::loop_isolation(false)]
fn detect_tab_exec(lines: &Vec<Vec<char>>) -> (r: TabStyle)
    ensures
        r == detect_tab_style(lines@.map_values(|l: Vec<char>| l@)),
{
    let ghost lm = lines@.map_values(|l: Vec<char>| l@);
    let n = lines.len();
    let mut i: usize = 0;
    while i < n && lines[i].len() == 0
        invariant
            i <= n,
            first_nonempty(lm, 0) == first_nonempty(lm, i as int),
        decreases n - i,
    {
        i = i + 1;
    }
    assert(first_nonempty(lm, 0) == i);
    if i >= n {
        return TabStyle::Tab;
    }
    let line = &lines[i];
    let c0 = line[0];
    if c0 == '\t' {
        TabStyle::Tab
    } else if c0 == ' ' {
        let m = line.len();
        let mut k: usize = 0;
        while k < m && line[k] == ' '
            invariant
                k <= m,
                leading_spaces(line@, 0) == k + leading_spaces(line@, k as int),
            decreases m - k,
        {
            k = k + 1;
        }
        assert(leading_spaces(line@, 0) == k);
        TabStyle::Spaces(k)
    } else {
        TabStyle::Tab
    }
}

/// The characters `s[from .. to]`, copied out.
#[verifier::loop_isolation(false)]
fn copy_range(s: &Vec<char>, from: usize, to: usize) -> (r: Vec<char>)
    requires
        from <= to <= s@.len(),
    ensures
        r@ == s@.subrange(from as int, to as int),
{
    let mut r: Vec<char> = Vec::new();
    let mut k: usize = from;
    while k < to
        invariant
            from <= k <= to,
            r@ == s@.subrange(from as int, k as int),
        decreases to - k,
    {
        let c = s[k];
        r.push(c);
        k = k + 1;
        proof {
            assert(s@.subrange(from as int, k as int) =~= s@.subrange(from as int, k as int - 1)
                .push(s@[k as int - 1]));
        }
    }
    r
}

/// `a + d` clamped into `0 ..= usize::MAX`.
fn offset_pos(a: usize, d: isize) -> (r: usize)
    ensures
        r as int == BufferModel::sat_pos(a as int + d as int),
{
    if d >= 0 {
        let du = d as usize;
        if a > usize::MAX - du {
            usize::MAX
        } else {
            a + du
        }
    } else {
        let du = (-(d + 1)) as usize + 1;
        if a < du {
            0
        } else {
            a - du
        }
    }
}

} // verus!
