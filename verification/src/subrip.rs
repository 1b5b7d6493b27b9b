//! SubRip records: a number, two timestamps, and lines of text.

use crate::document::{in_line, line_ending, spec_line_ending};
use crate::error::{ErrorKind, Fault, ParseError};
use crate::number::{decimal, spec_decimal};
use crate::scan::{head, lemma_run_len_bounds, literal, run, run_len, spec_literal, tail, CharClass};
use crate::time::{lemma_timestamp_bounds, spec_timestamp, timestamp, Clock, Millis};
use vstd::prelude::*;

verus! {

/// One SubRip record.
#[derive(Debug, PartialEq, Eq)]
pub struct Entry {
    pub index: u32,
    pub start: Millis,
    pub end: Millis,
    /// The lines of the record, a line feed between each two.
    pub text: String,
}

/// What a record is, with its text as characters.
pub struct RecordModel {
    pub index: u32,
    pub start: Millis,
    pub end: Millis,
    pub text: Seq<char>,
}

impl DeepView for Entry {
    type V = RecordModel;

    open spec fn deep_view(&self) -> RecordModel {
        RecordModel { index: self.index, start: self.start, end: self.end, text: self.text@ }
    }
}

impl Clone for Entry {
    fn clone(&self) -> (r: Entry)
        ensures
            r.deep_view() == self.deep_view(),
    {
        Entry { index: self.index, start: self.start, end: self.end, text: self.text.clone() }
    }
}

/// The line with the number of a record at the start of `s`: a decimal
/// that fits in 32 bits, and a line end.
pub open spec fn spec_index_line(s: Seq<char>) -> Option<(u32, int)> {
    match spec_decimal(s) {
        Some((index, n)) => match spec_line_ending(s.skip(n)) {
            Some(e) => if index <= u32::MAX {
                Some((index as u32, n + e))
            } else {
                None
            },
            None => None,
        },
        None => None,
    }
}

fn index_line(input: &[char]) -> (r: Option<(u32, usize)>)
    ensures
        r matches Some((index, n)) ==> spec_index_line(input@) == Some((index, n as int)) && 0 < n
            <= input.len(),
        r is None ==> spec_index_line(input@) is None,
{
    match decimal(input) {
        Some((index, n)) => match line_ending(tail(input, n)) {
            Some(e) => if index <= u32::MAX as u64 {
                Some((index as u32, n + e))
            } else {
                None
            },
            None => None,
        },
        None => None,
    }
}

/// The arrow between two timestamps at the start of `s`: `-->`, with the
/// spaces, tabs and line ends on either side of it.
pub open spec fn spec_arrow(s: Seq<char>) -> Option<int> {
    let before = run_len(s, CharClass::LineSpace);
    match spec_literal(s.skip(before), "-->"@) {
        Some(k) => Some(before + k + run_len(s.skip(before + k), CharClass::LineSpace)),
        None => None,
    }
}

fn arrow(input: &[char]) -> (r: Option<usize>)
    ensures
        r matches Some(n) ==> spec_arrow(input@) == Some(n as int) && n <= input.len(),
        r is None ==> spec_arrow(input@) is None,
{
    let before = run(input, CharClass::LineSpace);
    match literal(tail(input, before), "-->") {
        Some(k) => {
            assert(input@.skip(before as int).skip(k as int) =~= input@.skip(before + k));
            let after = run(tail(input, before + k), CharClass::LineSpace);
            Some(before + k + after)
        },
        None => None,
    }
}

/// The line with the times of a record at the start of `s`: a timestamp,
/// the arrow, a timestamp, and a line end. The timestamps are written
/// `H:MM:SS,mmm`, their last group in milliseconds.
pub open spec fn spec_times_line(s: Seq<char>) -> Option<(Millis, Millis, int)> {
    match spec_timestamp(s, Clock::Milliseconds) {
        Some((start, a)) => match spec_arrow(s.skip(a)) {
            Some(b) => match spec_timestamp(s.skip(a + b), Clock::Milliseconds) {
                Some((end, c)) => match spec_line_ending(s.skip(a + b + c)) {
                    Some(e) => Some((start, end, a + b + c + e)),
                    None => None,
                },
                None => None,
            },
            None => None,
        },
        None => None,
    }
}

fn times_line(input: &[char]) -> (r: Option<(Millis, Millis, usize)>)
    ensures
        r matches Some((start, end, n)) ==> spec_times_line(input@) == Some(
            (start, end, n as int),
        ) && 0 < n <= input.len(),
        r is None ==> spec_times_line(input@) is None,
{
    let (start, a) = match timestamp(input, Clock::Milliseconds) {
        Some(found) => found,
        None => { return None; },
    };
    let b = match arrow(tail(input, a)) {
        Some(found) => found,
        None => { return None; },
    };
    let (end, c) = match timestamp(tail(input, a + b), Clock::Milliseconds) {
        Some(found) => found,
        None => { return None; },
    };
    match line_ending(tail(input, a + b + c)) {
        Some(e) => Some((start, end, a + b + c + e)),
        None => None,
    }
}

/// The line of text at the start of `s`, and how long it is with its line
/// end: at least one character, up to a line end or the end of the input.
pub open spec fn spec_text_row(s: Seq<char>) -> Option<(Seq<char>, int)> {
    let n = run_len(s, in_line());
    if n == 0 {
        None
    } else if n == s.len() {
        Some((s.take(n), n))
    } else {
        match spec_line_ending(s.skip(n)) {
            Some(e) => Some((s.take(n), n + e)),
            None => None,
        }
    }
}

/// A line of text is not empty and lies within the input.
pub proof fn lemma_text_row_bounds(s: Seq<char>)
    ensures
        spec_text_row(s) matches Some((_, n)) ==> 0 < n <= s.len(),
{
    lemma_run_len_bounds(s, in_line());
}

/// The text that the lines at the start of `s` make after the text `first`,
/// a line feed before each, and how long the lines are.
pub open spec fn spec_more_text(s: Seq<char>, first: Seq<char>) -> (Seq<char>, int)
    decreases s.len(),
{
    match spec_text_row(s) {
        Some((line, n)) => {
            proof {
                lemma_text_row_bounds(s);
            }
            let (text, m) = spec_more_text(s.skip(n), first + seq!['\n'] + line);
            (text, n + m)
        },
        None => (first, 0),
    }
}

/// The text of a record at the start of `s`, and how long it is: one or
/// more lines, up to a blank line or the end of the input, joined by line
/// feeds.
pub open spec fn spec_text(s: Seq<char>) -> Option<(Seq<char>, int)> {
    match spec_text_row(s) {
        Some((line, n)) => Some(
            (spec_more_text(s.skip(n), line).0, n + spec_more_text(s.skip(n), line).1),
        ),
        None => None,
    }
}

fn text_row(input: &[char]) -> (r: Option<(usize, usize)>)
    ensures
        r matches Some((len, n)) ==> spec_text_row(input@) == Some(
            (input@.take(len as int), n as int),
        ) && 0 < len <= n <= input.len(),
        r is None ==> spec_text_row(input@) is None,
{
    let n = run(input, CharClass::Except('\n', '\r', '\r'));
    if n == 0 {
        None
    } else if n == input.len() {
        Some((n, n))
    } else {
        match line_ending(tail(input, n)) {
            Some(e) => Some((n, n + e)),
            None => None,
        }
    }
}

fn push_all(out: &mut String, chars: &[char])
    ensures
        final(out)@ == old(out)@ + chars@,
{
    let mut i: usize = 0;
    assert(old(out)@ + chars@.take(0) =~= old(out)@);
    while i < chars.len()
        invariant
            i <= chars.len(),
            out@ == old(out)@ + chars@.take(i as int),
        decreases chars.len() - i,
    {
        out.push(chars[i]);
        assert(old(out)@ + chars@.take(i + 1) =~= (old(out)@ + chars@.take(i as int)).push(
            chars@[i as int],
        ));
        i = i + 1;
    }
    assert(chars@.take(chars@.len() as int) =~= chars@);
}

fn text(input: &[char]) -> (r: Option<(String, usize)>)
    ensures
        r matches Some((found, n)) ==> spec_text(input@) == Some((found@, n as int)) && 0 < n
            <= input.len(),
        r is None ==> spec_text(input@) is None,
{
    let (len, n) = match text_row(input) {
        Some(found) => found,
        None => { return None; },
    };
    let mut out = String::new();
    push_all(&mut out, head(input, len));
    assert(out@ =~= input@.take(len as int));
    let mut at: usize = n;
    let ghost first = out@;
    let ghost total = spec_more_text(input@.skip(n as int), first);
    loop
        invariant
            0 < at <= input.len(),
            spec_text_row(input@) == Some((first, n as int)),
            total == spec_more_text(input@.skip(n as int), first),
            total.0 == spec_more_text(input@.skip(at as int), out@).0,
            total.1 + n == at + spec_more_text(input@.skip(at as int), out@).1,
        decreases input.len() - at,
    {
        let rest = tail(input, at);
        match text_row(rest) {
            Some((len, m)) => {
                let ghost before = out@;
                out.push('\n');
                push_all(&mut out, head(rest, len));
                proof {
                    assert(out@ =~= before + seq!['\n'] + rest@.take(len as int));
                    assert(rest@.skip(m as int) =~= input@.skip(at + m));
                }
                at = at + m;
            },
            None => {
                return Some((out, at));
            },
        }
    }
}

/// The record at the start of `s`, and how long it is: whitespace, the
/// line with the number, the line with the times, and the text. Each part
/// that is missing is a structural failure at the place where it should
/// stand.
pub open spec fn spec_entry(s: Seq<char>) -> Result<(RecordModel, int), Fault> {
    let w = run_len(s, CharClass::Whitespace);
    match spec_index_line(s.skip(w)) {
        None => Err(Fault { kind: ErrorKind::MissingIndex, offset: w }),
        Some((index, a)) => match spec_times_line(s.skip(w + a)) {
            None => Err(Fault { kind: ErrorKind::MissingTimes, offset: w + a }),
            Some((start, end, b)) => match spec_text(s.skip(w + a + b)) {
                None => Err(Fault { kind: ErrorKind::MissingText, offset: w + a + b }),
                Some((text, c)) => Ok((RecordModel { index, start, end, text }, w + a + b + c)),
            },
        },
    }
}

/// The text of a record lies within the input.
pub proof fn lemma_more_text_bounds(s: Seq<char>, first: Seq<char>)
    ensures
        0 <= spec_more_text(s, first).1 <= s.len(),
    decreases s.len(),
{
    lemma_text_row_bounds(s);
    if let Some((line, n)) = spec_text_row(s) {
        lemma_more_text_bounds(s.skip(n), first + seq!['\n'] + line);
    }
}

/// A record is not empty and lies within the input.
pub proof fn lemma_entry_bounds(s: Seq<char>)
    ensures
        spec_entry(s) matches Ok((_, n)) ==> 0 < n <= s.len(),
{
    lemma_run_len_bounds(s, CharClass::Whitespace);
    let w = run_len(s, CharClass::Whitespace);
    let s1 = s.skip(w);
    lemma_run_len_bounds(s1, CharClass::Digit);
    if let Some((index, a)) = spec_index_line(s1) {
        let s2 = s.skip(w + a);
        if let Some((start, end, b)) = spec_times_line(s2) {
            lemma_times_line_bounds(s2);
            let s3 = s.skip(w + a + b);
            lemma_text_row_bounds(s3);
            if let Some((line, n)) = spec_text_row(s3) {
                lemma_more_text_bounds(s3.skip(n), line);
            }
        }
    }
}

/// The line with the times lies within the input.
pub proof fn lemma_times_line_bounds(s: Seq<char>)
    ensures
        spec_times_line(s) matches Some((_, _, n)) ==> 0 < n <= s.len(),
{
    lemma_timestamp_bounds(s, Clock::Milliseconds);
    if let Some((start, a)) = spec_timestamp(s, Clock::Milliseconds) {
        let s1 = s.skip(a);
        lemma_run_len_bounds(s1, CharClass::LineSpace);
        let before = run_len(s1, CharClass::LineSpace);
        reveal_strlit("-->");
        if let Some(k) = spec_literal(s1.skip(before), "-->"@) {
            lemma_run_len_bounds(s1.skip(before + k), CharClass::LineSpace);
        }
        if let Some(b) = spec_arrow(s1) {
            lemma_timestamp_bounds(s.skip(a + b), Clock::Milliseconds);
        }
    }
}

/// Reads one record.
pub fn entry(input: &[char]) -> (r: Result<(Entry, usize), ParseError>)
    ensures
        crate::error::outcome(r) == spec_entry(input@),
        r matches Ok((_, n)) ==> 0 < n <= input.len(),
        r matches Err(e) ==> e.offset <= input.len(),
{
    let w = run(input, CharClass::Whitespace);
    let (index, a) = match index_line(tail(input, w)) {
        Some(found) => found,
        None => {
            return Err(ParseError { kind: ErrorKind::MissingIndex, offset: w });
        },
    };
    let (start, end, b) = match times_line(tail(input, w + a)) {
        Some(found) => found,
        None => {
            return Err(ParseError { kind: ErrorKind::MissingTimes, offset: w + a });
        },
    };
    match text(tail(input, w + a + b)) {
        Some((found, c)) => Ok((Entry { index, start, end, text: found }, w + a + b + c)),
        None => Err(ParseError { kind: ErrorKind::MissingText, offset: w + a + b }),
    }
}

/// The records at the start of `s`, one after the other, up to the first
/// thing that is no record, and how long they are.
pub open spec fn spec_entries(s: Seq<char>) -> (Seq<RecordModel>, int)
    decreases s.len(),
{
    match spec_entry(s) {
        Ok((record, n)) => {
            proof {
                lemma_entry_bounds(s);
            }
            let (more, m) = spec_entries(s.skip(n));
            (seq![record] + more, n + m)
        },
        Err(_) => (Seq::empty(), 0),
    }
}

/// Reads records up to the first thing that is none.
pub fn entries(input: &[char]) -> (r: (Vec<Entry>, usize))
    ensures
        (r.0.deep_view(), r.1 as int) == spec_entries(input@),
        r.1 <= input.len(),
{
    let mut out: Vec<Entry> = Vec::new();
    let mut at: usize = 0;
    let ghost total = spec_entries(input@);
    proof {
        assert(out.deep_view() =~= Seq::<RecordModel>::empty());
        assert(input@.skip(0) =~= input@);
        assert(Seq::<RecordModel>::empty() + total.0 =~= total.0);
    }
    loop
        invariant
            at <= input.len(),
            total == spec_entries(input@),
            total.0 == out.deep_view() + spec_entries(input@.skip(at as int)).0,
            total.1 == at + spec_entries(input@.skip(at as int)).1,
        decreases input.len() - at,
    {
        let rest = tail(input, at);
        match entry(rest) {
            Ok((record, n)) => {
                let ghost before = out.deep_view();
                let ghost model = record.deep_view();
                out.push(record);
                proof {
                    assert(out.deep_view() =~= before.push(model));
                    assert(rest@.skip(n as int) =~= input@.skip(at + n));
                    let more = spec_entries(input@.skip(at + n)).0;
                    assert(before + (seq![model] + more) =~= before.push(model) + more);
                }
                at = at + n;
            },
            Err(_) => {
                assert(out.deep_view() + Seq::<RecordModel>::empty() =~= out.deep_view());
                return (out, at);
            },
        }
    }
}

} // verus!
