//! Time offsets and the two ways a timestamp is written.

use crate::number::{decimal, spec_decimal};
use crate::scan::{lemma_run_len_bounds, parsed, tail, CharClass};
use vstd::prelude::*;

verus! {

/// A time offset from zero, in milliseconds.
#[derive(Clone, Copy, Debug, PartialEq, Eq)]
pub struct Millis(pub u64);

impl DeepView for Millis {
    type V = Millis;

    open spec fn deep_view(&self) -> Millis {
        *self
    }
}

impl Millis {
    /// The offset of `ms` milliseconds.
    pub fn from_millis(ms: u64) -> (r: Millis)
        ensures
            r == Millis(ms),
    {
        Millis(ms)
    }

    /// The offset in milliseconds.
    pub fn as_millis(&self) -> (r: u64)
        ensures
            r == self.0,
    {
        self.0
    }
}

/// How the last group of a timestamp is set off and what it counts.
#[derive(Clone, Copy, Debug, PartialEq, Eq)]
pub enum Clock {
    /// `H:MM:SS.cc` or `H:MM:SS:cc`: the last group counts hundredths.
    Hundredths,
    /// `H:MM:SS,mmm`: the last group counts milliseconds.
    Milliseconds,
}

impl Clock {
    /// Whether `c` may stand before the last group.
    pub open spec fn separates(self, c: char) -> bool {
        match self {
            Clock::Hundredths => c == ':' || c == '.',
            Clock::Milliseconds => c == ',',
        }
    }

    /// Milliseconds in one unit of the last group.
    pub open spec fn unit(self) -> int {
        match self {
            Clock::Hundredths => 10,
            Clock::Milliseconds => 1,
        }
    }
}

/// The milliseconds in `h` hours, `m` minutes, `s` seconds and `last` units
/// of the clock's last group.
pub open spec fn total_millis(h: int, m: int, s: int, last: int, clock: Clock) -> int {
    h * 3_600_000 + m * 60_000 + s * 1_000 + last * clock.unit()
}

/// A decimal followed by a character that `ok` accepts.
pub open spec fn spec_group(s: Seq<char>, ok: spec_fn(char) -> bool) -> Option<(u64, int)> {
    match spec_decimal(s) {
        Some((v, n)) => if n < s.len() && ok(s[n]) {
            Some((v, n + 1))
        } else {
            None
        },
        None => None,
    }
}

/// The timestamp at the start of `s`: hours, minutes, seconds and a last
/// group, each a decimal, the first three followed by `:`, `:` and the
/// clock's separator. There is none where the total does not fit in 64 bits.
pub open spec fn spec_timestamp(s: Seq<char>, clock: Clock) -> Option<(Millis, int)> {
    match spec_group(s, |c: char| c == ':') {
        Some((h, a)) => match spec_group(s.skip(a), |c: char| c == ':') {
            Some((m, b)) => match spec_group(s.skip(a + b), |c: char| clock.separates(c)) {
                Some((sec, c)) => match spec_decimal(s.skip(a + b + c)) {
                    Some((last, d)) => if total_millis(
                        h as int,
                        m as int,
                        sec as int,
                        last as int,
                        clock,
                    ) <= u64::MAX {
                        Some(
                            (
                                Millis(
                                    total_millis(h as int, m as int, sec as int, last as int, clock)
                                        as u64,
                                ),
                                a + b + c + d,
                            ),
                        )
                    } else {
                        None
                    },
                    None => None,
                },
                None => None,
            },
            None => None,
        },
        None => None,
    }
}

/// A timestamp is not empty and lies within the input.
pub proof fn lemma_timestamp_bounds(s: Seq<char>, clock: Clock)
    ensures
        spec_timestamp(s, clock) matches Some((_, n)) ==> 0 < n <= s.len(),
{
    lemma_run_len_bounds(s, CharClass::Digit);
    if let Some((h, a)) = spec_group(s, |c: char| c == ':') {
        lemma_run_len_bounds(s.skip(a), CharClass::Digit);
        if let Some((m, b)) = spec_group(s.skip(a), |c: char| c == ':') {
            lemma_run_len_bounds(s.skip(a + b), CharClass::Digit);
            if let Some((sec, c)) = spec_group(s.skip(a + b), |c: char| clock.separates(c)) {
                lemma_run_len_bounds(s.skip(a + b + c), CharClass::Digit);
            }
        }
    }
}

/// The timestamp `H:MM:SS.cc` at the start of `s`.
pub open spec fn spec_duration(s: Seq<char>) -> Option<(Millis, int)> {
    spec_timestamp(s, Clock::Hundredths)
}

fn colon_group(input: &[char]) -> (r: Option<(u64, usize)>)
    ensures
        parsed(r) == spec_group(input@, |c: char| c == ':'),
        r matches Some((_, n)) ==> 0 < n <= input.len(),
{
    match decimal(input) {
        Some((v, n)) => if n < input.len() && input[n] == ':' {
            Some((v, n + 1))
        } else {
            None
        },
        None => None,
    }
}

fn last_group(input: &[char], clock: Clock) -> (r: Option<(u64, usize)>)
    ensures
        parsed(r) == spec_group(input@, |c: char| clock.separates(c)),
        r matches Some((_, n)) ==> 0 < n <= input.len(),
{
    match decimal(input) {
        Some((v, n)) => {
            if n < input.len() && (match clock {
                Clock::Hundredths => input[n] == ':' || input[n] == '.',
                Clock::Milliseconds => input[n] == ',',
            }) {
                Some((v, n + 1))
            } else {
                None
            }
        },
        None => None,
    }
}

/// Reads a timestamp in the way of `clock`.
pub fn timestamp(input: &[char], clock: Clock) -> (r: Option<(Millis, usize)>)
    ensures
        parsed(r) == spec_timestamp(input@, clock),
        r matches Some((_, n)) ==> 0 < n <= input.len(),
{
    let (h, a) = match colon_group(input) {
        Some(p) => p,
        None => { return None; },
    };
    let (m, b) = match colon_group(tail(input, a)) {
        Some(p) => p,
        None => { return None; },
    };
    let (s, c) = match last_group(tail(input, a + b), clock) {
        Some(p) => p,
        None => { return None; },
    };
    let (last, d) = match decimal(tail(input, a + b + c)) {
        Some(p) => p,
        None => { return None; },
    };
    let unit: u128 = match clock {
        Clock::Hundredths => 10,
        Clock::Milliseconds => 1,
    };
    let total: u128 = h as u128 * 3_600_000 + m as u128 * 60_000 + s as u128 * 1_000 + last as u128
        * unit;
    if total <= u64::MAX as u128 {
        Some((Millis(total as u64), a + b + c + d))
    } else {
        None
    }
}

/// Reads a timestamp written `H:MM:SS.cc`, its last group in hundredths of a
/// second.
pub fn duration(input: &[char]) -> (r: Option<(Millis, usize)>)
    ensures
        parsed(r) == spec_duration(input@),
        r matches Some((_, n)) ==> 0 < n <= input.len(),
{
    timestamp(input, Clock::Hundredths)
}

/// The two clocks agree: a last group of `c` hundredths and one of ten
/// times as many milliseconds make the same time.
pub proof fn lemma_clocks_agree(h: int, m: int, s: int, c: int)
    ensures
        total_millis(h, m, s, c, Clock::Hundredths) == total_millis(
            h,
            m,
            s,
            10 * c,
            Clock::Milliseconds,
        ),
{
}

} // verus!
