//! Character classes and line/word scanning: the pure machinery that
//! motion resolution is defined from.
//!
//! Positions are `(column, line)` pairs. A column equal to the line's
//! length is the end-of-line position; it carries no character and
//! behaves as a blank, which is what lets word motions flow across line
//! boundaries.

use vstd::prelude::*;

verus! {

/// The three classes word motions distinguish: word characters (ASCII
/// letters, digits and the underscore), blanks (space and tab, and the
/// end-of-line position), and everything else.
///
/// The classification is deliberately ASCII-only, so that it can be a
/// closed, verified definition rather than a reference to the Unicode
/// character database: a letter outside ASCII counts as `Other` and a
/// blank outside space and tab counts as `Other` too. Word motions
/// still move over such text, one run of it at a time.
#[derive(Clone, Copy, PartialEq, Eq, Structural, Debug)]
pub enum CharClass {
    WordChar,
    Blank,
    Other,
}

/// The class of one character.
pub open spec fn class_of(c: char) -> CharClass {
    let u = c as u32;
    if (97 <= u && u <= 122) || (65 <= u && u <= 90) || (48 <= u && u <= 57) || u == 95 {
        CharClass::WordChar
    } else if u == 32 || u == 9 {
        CharClass::Blank
    } else {
        CharClass::Other
    }
}

/// The class of the position `(col, line)`: its character's class, or a
/// blank at the end of a line.
pub open spec fn pos_class(lines: Seq<Seq<char>>, col: int, line: int) -> CharClass
    recommends
        0 <= line < lines.len(),
        0 <= col <= lines[line].len(),
{
    if col < lines[line].len() {
        class_of(lines[line][col])
    } else {
        CharClass::Blank
    }
}

/// Advances over every position of class `k`, wrapping to the next line
/// where a blank run crosses the end of a line, and stopping at
/// `(0, line count)` when the text runs out.
pub open spec fn skip_class_fwd(lines: Seq<Seq<char>>, col: int, line: int, k: CharClass) -> (
    int,
    int,
)
    recommends
        0 <= line <= lines.len(),
        0 <= col,
    decreases
            lines.len() - line,
            (if line < lines.len() {
                lines[line].len() - col
            } else {
                0
            }),
        when
            0 <= line <= lines.len() && 0 <= col && (line < lines.len() ==> col
                <= lines[line].len())
{
    if line >= lines.len() {
        (col, line)
    } else if col < lines[line].len() {
        if class_of(lines[line][col]) == k {
            skip_class_fwd(lines, col + 1, line, k)
        } else {
            (col, line)
        }
    } else {
        if k == CharClass::Blank {
            skip_class_fwd(lines, 0, line + 1, k)
        } else {
            (col, line)
        }
    }
}

/// Where a forward word motion lands: past the run of the class under
/// the cursor, then past any blanks, the end-of-line position counting
/// as a blank.
pub open spec fn word_fwd(lines: Seq<Seq<char>>, col: int, line: int) -> (int, int)
    recommends
        0 <= line < lines.len(),
        0 <= col <= lines[line].len(),
{
    let k = pos_class(lines, col, line);
    let p = if k == CharClass::Blank {
        (col, line)
    } else {
        skip_class_fwd(lines, col, line, k)
    };
    skip_class_fwd(lines, p.0, p.1, CharClass::Blank)
}

/// The position just before `(col, line)` in reading order: one column
/// left, or the end of the previous line.
pub open spec fn pred_pos(lines: Seq<Seq<char>>, col: int, line: int) -> (int, int)
    recommends
        0 <= line < lines.len(),
        0 <= col,
        col > 0 || line > 0,
{
    if col > 0 {
        (col - 1, line)
    } else {
        (lines[line - 1].len() as int, line - 1)
    }
}

/// Moves left over blank positions (end-of-line included), stopping on
/// the first non-blank or at the origin.
pub open spec fn skip_blank_back(lines: Seq<Seq<char>>, col: int, line: int) -> (int, int)
    recommends
        0 <= line < lines.len(),
        0 <= col <= lines[line].len(),
    decreases line, col when 0 <= col && 0 <= line
{
    if col <= 0 && line <= 0 {
        (0, 0)
    } else if pos_class(lines, col, line) == CharClass::Blank {
        let p = pred_pos(lines, col, line);
        skip_blank_back(lines, p.0, p.1)
    } else {
        (col, line)
    }
}

/// Moves left to the start of the run of class `k` that `(col, line)`
/// sits in: stops where the position just before has another class.
pub open spec fn skip_class_back(lines: Seq<Seq<char>>, col: int, line: int, k: CharClass) -> (
    int,
    int,
)
    recommends
        0 <= line < lines.len(),
        0 <= col <= lines[line].len(),
    decreases line, col when 0 <= col && 0 <= line
{
    if col <= 0 && line <= 0 {
        (0, 0)
    } else {
        let p = pred_pos(lines, col, line);
        if pos_class(lines, p.0, p.1) == k {
            skip_class_back(lines, p.0, p.1, k)
        } else {
            (col, line)
        }
    }
}

/// Where a backward word motion lands: over any blanks just before the
/// cursor, then to the start of the run it reaches.
pub open spec fn word_back(lines: Seq<Seq<char>>, col: int, line: int) -> (int, int)
    recommends
        0 <= line < lines.len(),
        0 <= col <= lines[line].len(),
{
    if col <= 0 && line <= 0 {
        (0, 0)
    } else {
        let p = pred_pos(lines, col, line);
        let q = if pos_class(lines, p.0, p.1) == CharClass::Blank {
            skip_blank_back(lines, p.0, p.1)
        } else {
            p
        };
        let k = pos_class(lines, q.0, q.1);
        if k == CharClass::Blank {
            q
        } else {
            skip_class_back(lines, q.0, q.1, k)
        }
    }
}

/// The first index at or after `from` where `l` holds `q`, or `-1`.
pub open spec fn scan_fwd(l: Seq<char>, from: int, q: char) -> int
    recommends
        0 <= from,
    decreases l.len() - from when 0 <= from
{
    if from >= l.len() {
        -1
    } else if l[from] == q {
        from
    } else {
        scan_fwd(l, from + 1, q)
    }
}

/// The last index at or before `from` (and inside `l`) where `l` holds
/// `q`, or `-1`.
pub open spec fn scan_back(l: Seq<char>, from: int, q: char) -> int
    decreases from + 1 when -1 <= from
{
    if from < 0 {
        -1
    } else if from >= l.len() {
        scan_back(l, l.len() - 1, q)
    } else if l[from] == q {
        from
    } else {
        scan_back(l, from - 1, q)
    }
}

/// `skip_class_fwd` keeps positions inside the text, and lands at
/// column zero when it runs past the last line.
pub proof fn lemma_skip_fwd_valid(lines: Seq<Seq<char>>, col: int, line: int, k: CharClass)
    requires
        0 <= line <= lines.len(),
        0 <= col,
        line < lines.len() ==> col <= lines[line].len(),
        line == lines.len() ==> col == 0,
    ensures
        ({
            let r = skip_class_fwd(lines, col, line, k);
            &&& line <= r.1 <= lines.len()
            &&& 0 <= r.0
            &&& r.1 < lines.len() ==> r.0 <= lines[r.1].len()
            &&& r.1 == lines.len() ==> r.0 == 0
        }),
    decreases lines.len() - line, (if line < lines.len() {
        lines[line].len() - col
    } else {
        0
    }),
{
    if line >= lines.len() {
    } else if col < lines[line].len() {
        if class_of(lines[line][col]) == k {
            lemma_skip_fwd_valid(lines, col + 1, line, k);
        }
    } else {
        if k == CharClass::Blank {
            lemma_skip_fwd_valid(lines, 0, line + 1, k);
        }
    }
}

/// `skip_blank_back` keeps positions valid.
pub proof fn lemma_skip_blank_back_valid(lines: Seq<Seq<char>>, col: int, line: int)
    requires
        0 <= line < lines.len(),
        0 <= col <= lines[line].len(),
    ensures
        ({
            let r = skip_blank_back(lines, col, line);
            &&& 0 <= r.1 <= line
            &&& 0 <= r.0 <= lines[r.1].len()
        }),
    decreases line, col,
{
    if col <= 0 && line <= 0 {
    } else if pos_class(lines, col, line) == CharClass::Blank {
        let p = pred_pos(lines, col, line);
        lemma_skip_blank_back_valid(lines, p.0, p.1);
    }
}

/// `skip_class_back` keeps positions valid.
pub proof fn lemma_skip_class_back_valid(lines: Seq<Seq<char>>, col: int, line: int, k: CharClass)
    requires
        0 <= line < lines.len(),
        0 <= col <= lines[line].len(),
    ensures
        ({
            let r = skip_class_back(lines, col, line, k);
            &&& 0 <= r.1 <= line
            &&& 0 <= r.0 <= lines[r.1].len()
        }),
    decreases line, col,
{
    if col <= 0 && line <= 0 {
    } else {
        let p = pred_pos(lines, col, line);
        if pos_class(lines, p.0, p.1) == k {
            lemma_skip_class_back_valid(lines, p.0, p.1, k);
        }
    }
}

/// `word_fwd` lands inside the text or at `(0, line count)`.
pub proof fn lemma_word_fwd_valid(lines: Seq<Seq<char>>, col: int, line: int)
    requires
        0 <= line < lines.len(),
        0 <= col <= lines[line].len(),
    ensures
        ({
            let r = word_fwd(lines, col, line);
            &&& 0 <= r.1 <= lines.len()
            &&& 0 <= r.0
            &&& r.1 < lines.len() ==> r.0 <= lines[r.1].len()
            &&& r.1 == lines.len() ==> r.0 == 0
        }),
{
    let k = pos_class(lines, col, line);
    if k != CharClass::Blank {
        lemma_skip_fwd_valid(lines, col, line, k);
        let p = skip_class_fwd(lines, col, line, k);
        lemma_skip_fwd_valid(lines, p.0, p.1, CharClass::Blank);
    } else {
        lemma_skip_fwd_valid(lines, col, line, CharClass::Blank);
    }
}

/// `word_back` lands inside the text.
pub proof fn lemma_word_back_valid(lines: Seq<Seq<char>>, col: int, line: int)
    requires
        0 <= line < lines.len(),
        0 <= col <= lines[line].len(),
    ensures
        ({
            let r = word_back(lines, col, line);
            &&& 0 <= r.1 < lines.len()
            &&& 0 <= r.0 <= lines[r.1].len()
        }),
{
    if !(col <= 0 && line <= 0) {
        let p = pred_pos(lines, col, line);
        if pos_class(lines, p.0, p.1) == CharClass::Blank {
            lemma_skip_blank_back_valid(lines, p.0, p.1);
            let q = skip_blank_back(lines, p.0, p.1);
            if pos_class(lines, q.0, q.1) != CharClass::Blank {
                lemma_skip_class_back_valid(lines, q.0, q.1, pos_class(lines, q.0, q.1));
            }
        } else {
            lemma_skip_class_back_valid(lines, p.0, p.1, pos_class(lines, p.0, p.1));
        }
    }
}

/// `scan_fwd` points at a hit inside the line, or misses.
pub proof fn lemma_scan_fwd_valid(l: Seq<char>, from: int, q: char)
    requires
        0 <= from,
    ensures
        ({
            let r = scan_fwd(l, from, q);
            r == -1 || (from <= r < l.len() && l[r] == q)
        }),
    decreases l.len() - from,
{
    if from < l.len() && l[from] != q {
        lemma_scan_fwd_valid(l, from + 1, q);
    }
}

/// `scan_back` points at a hit inside the line, or misses.
pub proof fn lemma_scan_back_valid(l: Seq<char>, from: int, q: char)
    requires
        -1 <= from,
    ensures
        ({
            let r = scan_back(l, from, q);
            r == -1 || (0 <= r < l.len() && r <= from && l[r] == q)
        }),
    decreases from + 1,
{
    if from >= 0 {
        if from >= l.len() {
            lemma_scan_back_valid(l, l.len() - 1, q);
        } else if l[from] != q {
            lemma_scan_back_valid(l, from - 1, q);
        }
    }
}

/// The class of one character, executable form.
pub fn classify(c: char) -> (r: CharClass)
    ensures
        r == class_of(c),
{
    let u = c as u32;
    if (97 <= u && u <= 122) || (65 <= u && u <= 90) || (48 <= u && u <= 57) || u == 95 {
        CharClass::WordChar
    } else if u == 32 || u == 9 {
        CharClass::Blank
    } else {
        CharClass::Other
    }
}

/// The abstract text a vector of line vectors stands for.
pub open spec fn lines_view(lines: Seq<Vec<char>>) -> Seq<Seq<char>> {
    lines.map_values(|l: Vec<char>| l@)
}

/// Executable [`skip_class_fwd`].
pub fn skip_fwd_exec(lines: &Vec<Vec<char>>, col: usize, line: usize, k: CharClass) -> (r: (
    usize,
    usize,
))
    requires
        line <= lines@.len(),
        line < lines@.len() ==> col <= lines@[line as int]@.len(),
        line == lines@.len() ==> col == 0,
    ensures
        (r.0 as int, r.1 as int) == skip_class_fwd(lines_view(lines@), col as int, line as int, k),
    decreases lines@.len() - line, (if (line as int) < lines@.len() {
        lines@[line as int]@.len() - col
    } else {
        0
    }),
{
    let n = lines.len();
    if line >= n {
        (col, line)
    } else if col < lines[line].len() {
        if classify(lines[line][col]) == k {
            skip_fwd_exec(lines, col + 1, line, k)
        } else {
            (col, line)
        }
    } else {
        if k == CharClass::Blank {
            skip_fwd_exec(lines, 0, line + 1, k)
        } else {
            (col, line)
        }
    }
}

/// Executable [`word_fwd`].
pub fn word_fwd_exec(lines: &Vec<Vec<char>>, col: usize, line: usize) -> (r: (usize, usize))
    requires
        line < lines@.len(),
        col <= lines@[line as int]@.len(),
    ensures
        (r.0 as int, r.1 as int) == word_fwd(lines_view(lines@), col as int, line as int),
{
    let k = if col < lines[line].len() {
        classify(lines[line][col])
    } else {
        CharClass::Blank
    };
    let p = if k == CharClass::Blank {
        (col, line)
    } else {
        let p0 = skip_fwd_exec(lines, col, line, k);
        proof {
            lemma_skip_fwd_valid(lines_view(lines@), col as int, line as int, k);
        }
        p0
    };
    skip_fwd_exec(lines, p.0, p.1, CharClass::Blank)
}

/// Executable [`pred_pos`].
fn pred_exec(lines: &Vec<Vec<char>>, col: usize, line: usize) -> (r: (usize, usize))
    requires
        line < lines@.len(),
        col > 0 || line > 0,
    ensures
        (r.0 as int, r.1 as int) == pred_pos(lines_view(lines@), col as int, line as int),
{
    if col > 0 {
        (col - 1, line)
    } else {
        (lines[line - 1].len(), line - 1)
    }
}

/// Executable [`skip_blank_back`].
pub fn skip_blank_back_exec(lines: &Vec<Vec<char>>, col: usize, line: usize) -> (r: (usize, usize))
    requires
        line < lines@.len(),
        col <= lines@[line as int]@.len(),
    ensures
        (r.0 as int, r.1 as int) == skip_blank_back(lines_view(lines@), col as int, line as int),
    decreases line, col,
{
    if col == 0 && line == 0 {
        (0, 0)
    } else {
        let cls = if col < lines[line].len() {
            classify(lines[line][col])
        } else {
            CharClass::Blank
        };
        if cls == CharClass::Blank {
            let p = pred_exec(lines, col, line);
            skip_blank_back_exec(lines, p.0, p.1)
        } else {
            (col, line)
        }
    }
}

/// Executable [`skip_class_back`].
pub fn skip_class_back_exec(lines: &Vec<Vec<char>>, col: usize, line: usize, k: CharClass) -> (r: (
    usize,
    usize,
))
    requires
        line < lines@.len(),
        col <= lines@[line as int]@.len(),
    ensures
        (r.0 as int, r.1 as int) == skip_class_back(lines_view(lines@), col as int, line as int, k),
    decreases line, col,
{
    if col == 0 && line == 0 {
        (0, 0)
    } else {
        let p = pred_exec(lines, col, line);
        let cls = if p.0 < lines[p.1].len() {
            classify(lines[p.1][p.0])
        } else {
            CharClass::Blank
        };
        if cls == k {
            skip_class_back_exec(lines, p.0, p.1, k)
        } else {
            (col, line)
        }
    }
}

/// Executable [`word_back`].
pub fn word_back_exec(lines: &Vec<Vec<char>>, col: usize, line: usize) -> (r: (usize, usize))
    requires
        line < lines@.len(),
        col <= lines@[line as int]@.len(),
    ensures
        (r.0 as int, r.1 as int) == word_back(lines_view(lines@), col as int, line as int),
{
    if col == 0 && line == 0 {
        (0, 0)
    } else {
        let p = pred_exec(lines, col, line);
        let pcls = if p.0 < lines[p.1].len() {
            classify(lines[p.1][p.0])
        } else {
            CharClass::Blank
        };
        let q = if pcls == CharClass::Blank {
            let q0 = skip_blank_back_exec(lines, p.0, p.1);
            proof {
                lemma_skip_blank_back_valid(lines_view(lines@), p.0 as int, p.1 as int);
            }
            q0
        } else {
            p
        };
        let qcls = if q.0 < lines[q.1].len() {
            classify(lines[q.1][q.0])
        } else {
            CharClass::Blank
        };
        if qcls == CharClass::Blank {
            q
        } else {
            skip_class_back_exec(lines, q.0, q.1, qcls)
        }
    }
}

/// Executable [`scan_fwd`]: `None` for a miss.
pub fn scan_fwd_exec(l: &Vec<char>, from: usize, q: char) -> (r: Option<usize>)
    ensures
        ({
            let m = scan_fwd(l@, from as int, q);
            match r {
                Some(i) => i as int == m,
                None => m == -1,
            }
        }),
    decreases l@.len() - from,
{
    if from >= l.len() {
        None
    } else if l[from] == q {
        Some(from)
    } else {
        scan_fwd_exec(l, from + 1, q)
    }
}

/// Executable [`scan_back`]: `None` for a miss. `from` may point past
/// the line; the scan starts at the line's last character then.
pub fn scan_back_exec(l: &Vec<char>, from: usize, q: char) -> (r: Option<usize>)
    ensures
        ({
            let m = scan_back(l@, from as int, q);
            match r {
                Some(i) => i as int == m,
                None => m == -1,
            }
        }),
{
    let n = l.len();
    if n == 0 {
        proof {
            lemma_scan_back_valid(l@, from as int, q);
        }
        return None;
    }
    let mut i: usize = if from >= n - 1 {
        n
    } else {
        from + 1
    };
    proof {
        if from >= n {
            assert(scan_back(l@, from as int, q) == scan_back(l@, n as int - 1, q));
        }
    }
    // i is one past the next position to inspect
    while i > 0
        invariant
            i <= l@.len(),
            l@.len() == n,
            scan_back(l@, from as int, q) == scan_back(l@, i as int - 1, q),
        decreases i,
    {
        if l[i - 1] == q {
            return Some(i - 1);
        }
        i = i - 1;
    }
    None
}

} // verus!
