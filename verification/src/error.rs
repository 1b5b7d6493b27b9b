//! What makes a text unreadable, and where.

use vstd::prelude::*;

verus! {

/// The structural failures: each ends the parse of the section or row in
/// which it occurs.
#[derive(Clone, Copy, Debug, PartialEq, Eq)]
pub enum ErrorKind {
    /// A section does not begin with a name in square brackets.
    MalformedHeader,
    /// The line that should begin with `Format:` does not.
    MissingFormat,
    /// The header of a section of settings is not followed by a line ending.
    MissingLineEnd,
    /// A style row gives its style no name.
    MissingName,
    /// A dialogue row does not begin with its kind and a colon.
    MissingKind,
    /// A dialogue row has no comma after its first field.
    MissingField,
    /// A `{` opens a block that no `}` closes.
    UnterminatedBlock,
    /// A colour tag holds something other than hexadecimal digits.
    InvalidColor,
    /// A record does not begin with its number on a line of its own.
    MissingIndex,
    /// A record lacks the line with its two timestamps.
    MissingTimes,
    /// A record has no line of text.
    MissingText,
}

/// A structural failure and the offset, in characters from the start of the
/// input, of the text that caused it.
#[derive(Clone, Copy, Debug, PartialEq, Eq)]
pub struct ParseError {
    pub kind: ErrorKind,
    pub offset: usize,
}

/// A structural failure as specifications see it.
pub struct Fault {
    pub kind: ErrorKind,
    pub offset: int,
}

impl DeepView for ParseError {
    type V = Fault;

    open spec fn deep_view(&self) -> Fault {
        Fault { kind: self.kind, offset: self.offset as int }
    }
}

impl Fault {
    /// The same failure, seen from `by` characters further to the left.
    pub open spec fn shifted(self, by: int) -> Fault {
        Fault { kind: self.kind, offset: self.offset + by }
    }
}

/// What a parser that may fail structurally yields, as specifications see
/// it.
pub open spec fn scanned<T: DeepView>(r: Result<Option<(T, usize)>, ParseError>) -> Result<
    Option<(T::V, int)>,
    Fault,
> {
    match r {
        Ok(Some((value, n))) => Ok(Some((value.deep_view(), n as int))),
        Ok(None) => Ok(None),
        Err(e) => Err(e.deep_view()),
    }
}

/// What a parser that matches or fails structurally yields, as
/// specifications see it.
pub open spec fn outcome<T: DeepView>(r: Result<(T, usize), ParseError>) -> Result<
    (T::V, int),
    Fault,
> {
    match r {
        Ok((value, n)) => Ok((value.deep_view(), n as int)),
        Err(e) => Err(e.deep_view()),
    }
}

/// The items read so far, followed by what the rest of a list gives: its
/// items, or its failure seen from the start of the list.
pub open spec fn joined<T>(done: Seq<T>, at: int, rest: Result<Seq<T>, Fault>) -> Result<
    Seq<T>,
    Fault,
> {
    match rest {
        Ok(more) => Ok(done + more),
        Err(e) => Err(e.shifted(at)),
    }
}

/// What a list gives that begins with `item`, which spans `by` characters,
/// and goes on as `rest`.
pub open spec fn after<T>(item: T, by: int, rest: Result<Seq<T>, Fault>) -> Result<
    Seq<T>,
    Fault,
> {
    match rest {
        Ok(more) => Ok(seq![item] + more),
        Err(e) => Err(e.shifted(by)),
    }
}

/// Reading one more item moves it from the rest of the list to the items
/// read so far.
pub proof fn lemma_joined_step<T>(
    done: Seq<T>,
    at: int,
    item: T,
    by: int,
    rest: Result<Seq<T>, Fault>,
)
    ensures
        joined(done, at, after(item, by, rest)) == joined(done.push(item), at + by, rest),
{
    match rest {
        Ok(more) => {
            assert(done + (seq![item] + more) =~= done.push(item) + more);
        },
        Err(e) => {},
    }
}

/// A list that ends here adds nothing to the items read so far.
pub proof fn lemma_joined_end<T>(done: Seq<T>, at: int)
    ensures
        joined(done, at, Ok(Seq::empty())) == Ok::<Seq<T>, Fault>(done),
{
    assert(done + Seq::<T>::empty() =~= done);
}

/// A list read from its start is all rest.
pub proof fn lemma_joined_start<T>(rest: Result<Seq<T>, Fault>)
    ensures
        joined(Seq::empty(), 0, rest) == rest,
{
    match rest {
        Ok(more) => {
            assert(Seq::<T>::empty() + more =~= more);
        },
        Err(e) => {},
    }
}

/// The items read so far over `at` characters, followed by what the rest of
/// a list gives: its items and their length, or its failure seen from the
/// start of the list.
pub open spec fn joined_span<T>(done: Seq<T>, at: int, rest: Result<(Seq<T>, int), Fault>) -> Result<
    (Seq<T>, int),
    Fault,
> {
    match rest {
        Ok((more, n)) => Ok((done + more, at + n)),
        Err(e) => Err(e.shifted(at)),
    }
}

/// What a list gives that begins with `item`, which spans `by` characters,
/// and goes on as `rest`.
pub open spec fn after_span<T>(item: T, by: int, rest: Result<(Seq<T>, int), Fault>) -> Result<
    (Seq<T>, int),
    Fault,
> {
    match rest {
        Ok((more, n)) => Ok((seq![item] + more, by + n)),
        Err(e) => Err(e.shifted(by)),
    }
}

/// Reading one more item moves it from the rest of the list to the items
/// read so far.
pub proof fn lemma_joined_span_step<T>(
    done: Seq<T>,
    at: int,
    item: T,
    by: int,
    rest: Result<(Seq<T>, int), Fault>,
)
    ensures
        joined_span(done, at, after_span(item, by, rest)) == joined_span(
            done.push(item),
            at + by,
            rest,
        ),
{
    match rest {
        Ok((more, n)) => {
            assert(done + (seq![item] + more) =~= done.push(item) + more);
        },
        Err(e) => {},
    }
}

/// A list that ends here adds nothing to the items read so far.
pub proof fn lemma_joined_span_end<T>(done: Seq<T>, at: int)
    ensures
        joined_span(done, at, Ok((Seq::empty(), 0))) == Ok::<(Seq<T>, int), Fault>((done, at)),
{
    assert(done + Seq::<T>::empty() =~= done);
}

/// A list read from its start is all rest.
pub proof fn lemma_joined_span_start<T>(rest: Result<(Seq<T>, int), Fault>)
    ensures
        joined_span(Seq::empty(), 0, rest) == rest,
{
    match rest {
        Ok((more, n)) => {
            assert(Seq::<T>::empty() + more =~= more);
        },
        Err(e) => {},
    }
}

} // verus!
