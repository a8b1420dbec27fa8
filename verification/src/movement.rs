//! Motions: specifications of cursor displacements (`h`, `3w`, `f,`, …),
//! parsed from the front of a pending keystroke string.
//!
//! A motion says *where* the cursor would go; it carries an [`Inclusion`]
//! tag that says whether the position it resolves to is excluded from,
//! included in, or widens to whole lines of, the range an operator acts on.

use vstd::prelude::*;

verus! {

/// How a resolved motion range treats its endpoint: the endpoint is left
/// out (`Exclusive`), taken in (`Inclusive`), or the range spans whole
/// lines (`Linewise`).
#[derive(Clone, Copy, PartialEq, Eq, Structural, Debug)]
pub enum Inclusion {
    Exclusive,
    Inclusive,
    Linewise,
}

/// A cursor motion, independent of any operator that may consume it.
///
/// Directions are booleans: `Char(true)` moves right, `Line(true)` moves
/// up, `Word(true)` scans forwards, and `CharScan { direction: true, .. }`
/// scans forwards. `Rep(n, m)` repeats `m` from each intermediate
/// endpoint, `n` taken to be at least one.
#[derive(Debug, PartialEq, Eq)]
pub enum Movement {
    Char(bool),
    Line(bool, Inclusion),
    Word(bool, Inclusion),
    CharScan { query: char, direction: bool, inclusion: Inclusion, place_to_side: bool },
    StartOfLine,
    EndOfLine,
    Rep(usize, Box<Movement>),
}

/// True of the ten ASCII digit characters.
pub open spec fn is_digit_char(c: char) -> bool {
    48 <= c as u32 && c as u32 <= 57
}

/// Numeric value of an ASCII digit character.
pub open spec fn digit_char_val(c: char) -> int {
    c as u32 - 48
}

/// Index just past the run of digit characters that starts at `i`.
pub open spec fn digit_run_end(s: Seq<char>, i: int) -> int
    recommends
        0 <= i <= s.len(),
    decreases s.len() - i when 0 <= i <= s.len()
{
    if i < s.len() && is_digit_char(s[i]) {
        digit_run_end(s, i + 1)
    } else {
        i
    }
}

/// Base-ten value of the digits `s[i .. j]` accumulated onto `acc`,
/// or `None` as soon as the value passes `usize::MAX` (a count too
/// large to repeat is not a motion).
pub open spec fn digits_val(s: Seq<char>, i: int, j: int, acc: int) -> Option<int>
    recommends
        0 <= i <= j <= s.len(),
    decreases j - i when i <= j
{
    if i >= j {
        Some(acc)
    } else {
        let v = acc * 10 + digit_char_val(s[i]);
        if v > usize::MAX as int {
            None
        } else {
            digits_val(s, i + 1, j, v)
        }
    }
}

/// The motion grammar, consuming `s` from position `i`.
///
/// A leading digit run is a repeat count and wraps the rest in `Rep`;
/// a digit run with nothing after it is not yet resolvable. The scan
/// motions `t`/`T`/`f`/`F` consume one following query character. When
/// not at the start of an action (`first` is false), a bare `d`, `c` or
/// `y` stands for the whole current line, so that a doubled operator
/// acts linewise.
pub open spec fn parse_from(s: Seq<char>, i: int, first: bool) -> Option<Movement>
    recommends
        0 <= i <= s.len(),
{
    if i >= s.len() {
        None
    } else if is_digit_char(s[i]) {
        // A digit run is maximal, so what follows it never starts with a
        // digit: one level of `Rep` is all the grammar ever builds.
        let j = digit_run_end(s, i);
        if j >= s.len() {
            None
        } else {
            match digits_val(s, i, j, 0) {
                Some(n) => match parse_motion_char(s, j, false) {
                    Some(m) => Some(Movement::Rep(n as usize, Box::new(m))),
                    None => None,
                },
                None => None,
            }
        }
    } else {
        parse_motion_char(s, i, first)
    }
}

/// A single motion letter at position `i`, with its possible scan query
/// at `i + 1`.
pub open spec fn parse_motion_char(s: Seq<char>, i: int, first: bool) -> Option<Movement>
    recommends
        0 <= i < s.len(),
{
    {
        let c = s[i];
        if c == 'h' {
            Some(Movement::Char(false))
        } else if c == 'l' {
            Some(Movement::Char(true))
        } else if c == 'j' {
            Some(Movement::Line(false, Inclusion::Linewise))
        } else if c == 'k' {
            Some(Movement::Line(true, Inclusion::Linewise))
        } else if c == 'w' {
            Some(Movement::Word(true, Inclusion::Exclusive))
        } else if c == 'b' {
            Some(Movement::Word(false, Inclusion::Exclusive))
        } else if c == 'e' {
            Some(Movement::Word(true, Inclusion::Inclusive))
        } else if c == '^' {
            Some(Movement::StartOfLine)
        } else if c == '$' {
            Some(Movement::EndOfLine)
        } else if c == 't' {
            if i + 1 < s.len() {
                Some(Movement::CharScan {
                    query: s[i + 1],
                    direction: true,
                    inclusion: Inclusion::Inclusive,
                    place_to_side: true,
                })
            } else {
                None
            }
        } else if c == 'T' {
            if i + 1 < s.len() {
                Some(Movement::CharScan {
                    query: s[i + 1],
                    direction: false,
                    inclusion: Inclusion::Exclusive,
                    place_to_side: true,
                })
            } else {
                None
            }
        } else if c == 'f' {
            if i + 1 < s.len() {
                Some(Movement::CharScan {
                    query: s[i + 1],
                    direction: true,
                    inclusion: Inclusion::Inclusive,
                    place_to_side: false,
                })
            } else {
                None
            }
        } else if c == 'F' {
            if i + 1 < s.len() {
                Some(Movement::CharScan {
                    query: s[i + 1],
                    direction: false,
                    inclusion: Inclusion::Exclusive,
                    place_to_side: false,
                })
            } else {
                None
            }
        } else if !first && (c == 'd' || c == 'c' || c == 'y') {
            Some(Movement::Line(false, Inclusion::Inclusive))
        } else {
            None
        }
    }
}

/// Whether more keystrokes could still turn `s[i ..]` into a motion:
/// an empty rest (an operator still waiting for its motion), a digit
/// run awaiting its motion letter, or a scan letter awaiting its query
/// character. A repeat count too large for the machine can never
/// resolve, so it is not viable.
pub open spec fn motion_viable(s: Seq<char>, i: int, first: bool) -> bool
    recommends
        0 <= i <= s.len(),
{
    if i >= s.len() {
        true
    } else if is_digit_char(s[i]) {
        let j = digit_run_end(s, i);
        match digits_val(s, i, j, 0) {
            Some(_) => if j >= s.len() {
                true
            } else {
                motion_letter_viable(s, j, false)
            },
            None => false,
        }
    } else {
        motion_letter_viable(s, i, first)
    }
}

/// Whether the letter at `i` is, or could with more input become, a
/// motion: every motion letter counts, a scan letter counts whether or
/// not its query has arrived yet, and after an operator a bare `d`,
/// `c` or `y` counts too.
pub open spec fn motion_letter_viable(s: Seq<char>, i: int, first: bool) -> bool
    recommends
        0 <= i < s.len(),
{
    let c = s[i];
    ||| c == 'h' || c == 'l' || c == 'j' || c == 'k' || c == 'w' || c == 'b' || c == 'e'
        || c == '^' || c == '$'
    ||| c == 't' || c == 'T' || c == 'f' || c == 'F'
    ||| (!first && (c == 'd' || c == 'c' || c == 'y'))
}

/// Every character of the digit run starting at `i` is a digit.
proof fn lemma_digit_run_digits(s: Seq<char>, i: int)
    requires
        0 <= i <= s.len(),
    ensures
        i <= digit_run_end(s, i) <= s.len(),
        forall|k: int| i <= k < digit_run_end(s, i) ==> is_digit_char(s[k]),
    decreases s.len() - i,
{
    if i < s.len() && is_digit_char(s[i]) {
        lemma_digit_run_digits(s, i + 1);
    }
}

impl Movement {
    /// The inclusion tag a motion carries; `Rep` inherits its inner
    /// motion's tag.
    pub open spec fn inclusion_spec(self) -> Inclusion
        decreases self,
    {
        match self {
            Movement::Char(_) => Inclusion::Exclusive,
            Movement::Line(_, i) => i,
            Movement::Word(_, i) => i,
            Movement::CharScan { inclusion, .. } => inclusion,
            Movement::StartOfLine => Inclusion::Exclusive,
            Movement::EndOfLine => Inclusion::Inclusive,
            Movement::Rep(_, mv) => mv.inclusion_spec(),
        }
    }

    /// How a range resolved from this motion treats its endpoint.
    pub fn inclusion_mode(&self) -> (r: Inclusion)
        ensures
            r == self.inclusion_spec(),
        decreases *self,
    {
        match self {
            Movement::Char(_) => Inclusion::Exclusive,
            Movement::Line(_, i) => *i,
            Movement::Word(_, i) => *i,
            Movement::CharScan { inclusion, .. } => *inclusion,
            Movement::StartOfLine => Inclusion::Exclusive,
            Movement::EndOfLine => Inclusion::Inclusive,
            Movement::Rep(_, mv) => mv.inclusion_mode(),
        }
    }

    /// Parses a motion from the front of the pending characters `s`.
    ///
    /// `first` says whether the string starts an action of its own; only
    /// then is a bare `d`, `c` or `y` refused (those are operators, not
    /// motions, at the start of an action). `None` means the input is not
    /// (yet) a motion: the caller keeps accumulating keystrokes.
    pub fn parse(s: &Vec<char>, first: bool) -> (r: Option<Movement>)
        ensures
            r == parse_from(s@, 0, first),
    {
        Self::parse_at(s, 0, first)
    }

    /// Parses a motion from position `i`, mirroring [`parse_from`].
    #[verifier::loop_isolation(false)]
    pub(crate) fn parse_at(s: &Vec<char>, i: usize, first: bool) -> (r: Option<Movement>)
        requires
            i <= s@.len(),
        ensures
            r == parse_from(s@, i as int, first),
    {
        if i >= s.len() {
            return None;
        }
        let c = s[i];
        if is_digit(c) {
            // A repeat count: find the end of the digit run.
            let mut j = i;
            while j < s.len() && is_digit(s[j])
                invariant
                    i <= j <= s@.len(),
                    digit_run_end(s@, i as int) == digit_run_end(s@, j as int),
                decreases s@.len() - j,
            {
                j = j + 1;
            }
            assert(digit_run_end(s@, i as int) == j);
            if j >= s.len() {
                return None;
            }
            proof {
                lemma_digit_run_digits(s@, i as int);
            }
            // Accumulate the count, giving up past usize::MAX.
            let mut acc: usize = 0;
            let mut k = i;
            while k < j
                invariant
                    i <= k <= j <= s@.len(),
                    forall|t: int| i <= t < j ==> is_digit_char(s@[t]),
                    digits_val(s@, i as int, j as int, 0) == digits_val(
                        s@,
                        k as int,
                        j as int,
                        acc as int,
                    ),
                decreases j - k,
            {
                let d = (s[k] as u32 - 48) as usize;
                let wide: u128 = acc as u128 * 10 + d as u128;
                if wide > usize::MAX as u128 {
                    proof {
                        assert(acc as int * 10 + digit_char_val(s@[k as int]) > usize::MAX as int);
                        assert(digits_val(s@, k as int, j as int, acc as int) is None);
                    }
                    return None;
                }
                acc = wide as usize;
                k = k + 1;
            }
            match Self::parse_char(s, j, false) {
                Some(m) => Some(Movement::Rep(acc, Box::new(m))),
                None => None,
            }
        } else {
            Self::parse_char(s, i, first)
        }
    }

    /// Dispatches on a single motion letter, mirroring [`parse_motion_char`].
    fn parse_char(s: &Vec<char>, i: usize, first: bool) -> (r: Option<Movement>)
        requires
            i < s@.len(),
        ensures
            r == parse_motion_char(s@, i as int, first),
    {
        let n = s.len();
        let c = s[i];
        {
            match c {
                'h' => Some(Movement::Char(false)),
                'l' => Some(Movement::Char(true)),
                'j' => Some(Movement::Line(false, Inclusion::Linewise)),
                'k' => Some(Movement::Line(true, Inclusion::Linewise)),
                'w' => Some(Movement::Word(true, Inclusion::Exclusive)),
                'b' => Some(Movement::Word(false, Inclusion::Exclusive)),
                'e' => Some(Movement::Word(true, Inclusion::Inclusive)),
                '^' => Some(Movement::StartOfLine),
                '$' => Some(Movement::EndOfLine),
                't' => if i + 1 < n {
                    Some(
                        Movement::CharScan {
                            query: s[i + 1],
                            direction: true,
                            inclusion: Inclusion::Inclusive,
                            place_to_side: true,
                        },
                    )
                } else {
                    None
                },
                'T' => if i + 1 < n {
                    Some(
                        Movement::CharScan {
                            query: s[i + 1],
                            direction: false,
                            inclusion: Inclusion::Exclusive,
                            place_to_side: true,
                        },
                    )
                } else {
                    None
                },
                'f' => if i + 1 < n {
                    Some(
                        Movement::CharScan {
                            query: s[i + 1],
                            direction: true,
                            inclusion: Inclusion::Inclusive,
                            place_to_side: false,
                        },
                    )
                } else {
                    None
                },
                'F' => if i + 1 < n {
                    Some(
                        Movement::CharScan {
                            query: s[i + 1],
                            direction: false,
                            inclusion: Inclusion::Exclusive,
                            place_to_side: false,
                        },
                    )
                } else {
                    None
                },
                'd' | 'c' | 'y' => if !first {
                    Some(Movement::Line(false, Inclusion::Inclusive))
                } else {
                    None
                },
                _ => None,
            }
        }
    }
}

impl Movement {
    /// Whether `s[i ..]` is, or could with more keystrokes become, a
    /// motion, mirroring [`motion_viable`].
    #[verifier::loop_isolation(false)]
    pub(crate) fn viable_at(s: &Vec<char>, i: usize, first: bool) -> (r: bool)
        requires
            i <= s@.len(),
        ensures
            r == motion_viable(s@, i as int, first),
    {
        if i >= s.len() {
            return true;
        }
        if is_digit(s[i]) {
            let mut j = i;
            while j < s.len() && is_digit(s[j])
                invariant
                    i <= j <= s@.len(),
                    digit_run_end(s@, i as int) == digit_run_end(s@, j as int),
                decreases s@.len() - j,
            {
                j = j + 1;
            }
            assert(digit_run_end(s@, i as int) == j);
            proof {
                lemma_digit_run_digits(s@, i as int);
            }
            // The count must fit the machine, or no extension resolves.
            let mut acc: usize = 0;
            let mut k = i;
            while k < j
                invariant
                    i <= k <= j <= s@.len(),
                    forall|t: int| i <= t < j ==> is_digit_char(s@[t]),
                    digits_val(s@, i as int, j as int, 0) == digits_val(
                        s@,
                        k as int,
                        j as int,
                        acc as int,
                    ),
                decreases j - k,
            {
                let d = (s[k] as u32 - 48) as usize;
                let wide: u128 = acc as u128 * 10 + d as u128;
                if wide > usize::MAX as u128 {
                    proof {
                        assert(acc as int * 10 + digit_char_val(s@[k as int]) > usize::MAX as int);
                        assert(digits_val(s@, k as int, j as int, acc as int) is None);
                    }
                    return false;
                }
                acc = wide as usize;
                k = k + 1;
            }
            if j >= s.len() {
                true
            } else {
                Self::viable_letter(s, j, false)
            }
        } else {
            Self::viable_letter(s, i, first)
        }
    }

    /// Mirrors [`motion_letter_viable`].
    fn viable_letter(s: &Vec<char>, i: usize, first: bool) -> (r: bool)
        requires
            i < s@.len(),
        ensures
            r == motion_letter_viable(s@, i as int, first),
    {
        match s[i] {
            'h' | 'l' | 'j' | 'k' | 'w' | 'b' | 'e' | '^' | '$' => true,
            't' | 'T' | 'f' | 'F' => true,
            'd' | 'c' | 'y' => !first,
            _ => false,
        }
    }
}

/// Whether `c` is an ASCII digit.
fn is_digit(c: char) -> (r: bool)
    ensures
        r == is_digit_char(c),
{
    let u = c as u32;
    48 <= u && u <= 57
}

} // verus!
