//! Whole documents: sections in order, and the dialogue rows of the events.

use crate::document::{in_line, lemma_section_bounds, section, spec_section, Section, SectionModel};
use crate::entry::{spec_subtitle, subtitle, Entry, EntryModel};
use crate::error::{
    after_span, joined_span, lemma_joined_span_end, lemma_joined_span_start,
    lemma_joined_span_step, Fault, ParseError,
};
use crate::scan::{head, lemma_run_len_bounds, run, run_len, tail, CharClass};
use vstd::prelude::*;

verus! {

/// A document: its sections in order, and the dialogue rows that follow the
/// schema of the events, in order.
#[derive(Debug, PartialEq, Eq)]
pub struct Document {
    pub sections: Vec<Section>,
    pub entries: Vec<Entry>,
}

/// What a document is, with its contents as models.
pub struct DocumentModel {
    pub sections: Seq<SectionModel>,
    pub entries: Seq<EntryModel>,
}

impl DeepView for Document {
    type V = DocumentModel;

    open spec fn deep_view(&self) -> DocumentModel {
        DocumentModel { sections: self.sections.deep_view(), entries: self.entries.deep_view() }
    }
}

impl Document {
    /// Whether the tables of every section are well formed. Every document
    /// that `document` reads is.
    pub open spec fn well_formed(self) -> bool {
        forall|i: int| 0 <= i < self.sections@.len() ==> (#[trigger] self.sections@[i]).well_formed()
    }
}

/// A line that begins with something other than whitespace is not empty.
pub proof fn lemma_row_not_empty(t: Seq<char>)
    requires
        t.len() > 0,
        !CharClass::Whitespace.has(t[0]),
    ensures
        0 < run_len(t, in_line()) <= t.len(),
{
    lemma_run_len_bounds(t, in_line());
}

/// The dialogue rows at the start of `s`, under the schema `schema`, and how
/// long they are: one to a line, blank lines between them passed over, up
/// to the end of the input or a line that begins the next section. A row
/// that fails structurally fails them all.
pub open spec fn spec_event_rows(s: Seq<char>, schema: Seq<Seq<char>>) -> Result<
    (Seq<EntryModel>, int),
    Fault,
>
    decreases s.len(),
{
    let w = run_len(s, CharClass::Whitespace);
    let t = s.skip(w);
    if t.len() == 0 || t[0] == '[' {
        Ok((Seq::empty(), 0))
    } else {
        let n = run_len(t, in_line());
        proof {
            lemma_run_len_bounds(s, CharClass::Whitespace);
            lemma_row_not_empty(t);
        }
        match spec_subtitle(t.take(n), schema) {
            Err(e) => Err(e.shifted(w)),
            Ok(entry) => after_span(entry, w + n, spec_event_rows(s.skip(w + n), schema)),
        }
    }
}

/// Dialogue rows lie within the input.
pub proof fn lemma_event_rows_bounds(s: Seq<char>, schema: Seq<Seq<char>>)
    ensures
        spec_event_rows(s, schema) matches Ok((_, n)) ==> 0 <= n <= s.len(),
    decreases s.len(),
{
    let w = run_len(s, CharClass::Whitespace);
    let t = s.skip(w);
    lemma_run_len_bounds(s, CharClass::Whitespace);
    if !(t.len() == 0 || t[0] == '[') {
        lemma_row_not_empty(t);
        let n = run_len(t, in_line());
        lemma_event_rows_bounds(s.skip(w + n), schema);
    }
}

/// Reads the dialogue rows that follow the schema of the events.
#[verifier::rlimit(40)]
pub fn event_rows(input: &[char], schema: &Vec<String>) -> (r: Result<
    (Vec<Entry>, usize),
    ParseError,
>)
    ensures
        crate::error::outcome(r) == spec_event_rows(input@, schema.deep_view()),
        r matches Ok((_, n)) ==> n <= input.len(),
        r matches Err(e) ==> e.offset <= input.len(),
{
    let mut out: Vec<Entry> = Vec::new();
    let mut at: usize = 0;
    let ghost names = schema.deep_view();
    proof {
        lemma_joined_span_start(spec_event_rows(input@, names));
        assert(out.deep_view() =~= Seq::<EntryModel>::empty());
        assert(input@.skip(0) =~= input@);
    }
    loop
        invariant
            at <= input.len(),
            names == schema.deep_view(),
            spec_event_rows(input@, names) == joined_span(
                out.deep_view(),
                at as int,
                spec_event_rows(input@.skip(at as int), names),
            ),
        decreases input.len() - at,
    {
        let rest = tail(input, at);
        let w = run(rest, CharClass::Whitespace);
        let t = tail(rest, w);
        proof {
            lemma_joined_span_end(out.deep_view(), at as int);
        }
        if t.len() == 0 || t[0] == '[' {
            return Ok((out, at));
        }
        proof {
            lemma_run_len_bounds(rest@, CharClass::Whitespace);
            lemma_row_not_empty(t@);
        }
        let n = run(t, CharClass::Except('\n', '\r', '\r'));
        match subtitle(head(t, n), schema) {
            Err(e) => {
                return Err(ParseError { kind: e.kind, offset: e.offset + at + w });
            },
            Ok(entry) => {
                let ghost before = out.deep_view();
                let ghost model = entry.deep_view();
                out.push(entry);
                proof {
                    assert(out.deep_view() =~= before.push(model));
                    assert(rest@.skip(w + n) =~= input@.skip(at + w + n));
                    lemma_joined_span_step(
                        before,
                        at as int,
                        model,
                        w + n,
                        spec_event_rows(input@.skip(at + w + n), names),
                    );
                }
                at = at + w + n;
            },
        }
    }
}

/// The dialogue rows that follow the section `section`: those under its
/// schema where it is the schema of the events, and none else.
pub open spec fn spec_rows_after(section: SectionModel, s: Seq<char>) -> Result<
    (Seq<EntryModel>, int),
    Fault,
> {
    match section {
        SectionModel::EventsHeader(schema) => spec_event_rows(s, schema),
        _ => Ok((Seq::empty(), 0)),
    }
}

/// A document that begins with the sections and rows read so far over `at`
/// characters and goes on as `rest`.
pub open spec fn spec_with(
    sections: Seq<SectionModel>,
    entries: Seq<EntryModel>,
    at: int,
    rest: Result<DocumentModel, Fault>,
) -> Result<DocumentModel, Fault> {
    match rest {
        Ok(more) => Ok(
            DocumentModel {
                sections: sections + more.sections,
                entries: entries + more.entries,
            },
        ),
        Err(e) => Err(e.shifted(at)),
    }
}

/// The next part of a document at the start of `s`, and how long it is:
/// whitespace, a section, and the dialogue rows that follow it. There is
/// none where only whitespace is left.
#[verifier::opaque]
pub open spec fn spec_part(s: Seq<char>) -> Result<
    Option<(SectionModel, Seq<EntryModel>, int)>,
    Fault,
> {
    let w = run_len(s, CharClass::Whitespace);
    let t = s.skip(w);
    if t.len() == 0 {
        Ok(None)
    } else {
        match spec_section(t) {
            Err(e) => Err(e.shifted(w)),
            Ok((section, n)) => match spec_rows_after(section, t.skip(n)) {
                Err(e) => Err(e.shifted(w + n)),
                Ok((entries, m)) => Ok(Some((section, entries, w + n + m))),
            },
        }
    }
}

/// A part of a document is not empty and lies within the input.
pub proof fn lemma_part_bounds(s: Seq<char>)
    ensures
        spec_part(s) matches Ok(Some((_, _, k))) ==> 0 < k <= s.len(),
{
    reveal(spec_part);
    let w = run_len(s, CharClass::Whitespace);
    let t = s.skip(w);
    lemma_run_len_bounds(s, CharClass::Whitespace);
    lemma_section_bounds(t);
    if let Ok((section, n)) = spec_section(t) {
        if let SectionModel::EventsHeader(schema) = section {
            lemma_event_rows_bounds(t.skip(n), schema);
        }
    }
}

/// The document that `s` is: sections one after the other, whitespace
/// between them passed over, and after the schema of the events the
/// dialogue rows under it. Any structural failure fails the document, at
/// its offset from the start of the document.
pub open spec fn spec_document(s: Seq<char>) -> Result<DocumentModel, Fault>
    decreases s.len(),
{
    match spec_part(s) {
        Err(e) => Err(e),
        Ok(None) => Ok(DocumentModel { sections: Seq::empty(), entries: Seq::empty() }),
        Ok(Some((section, entries, k))) => {
            proof {
                lemma_part_bounds(s);
            }
            spec_with(seq![section], entries, k, spec_document(s.skip(k)))
        },
    }
}

/// Going on with a document after one more section and its rows.
pub proof fn lemma_with_step(
    sections: Seq<SectionModel>,
    entries: Seq<EntryModel>,
    at: int,
    section: SectionModel,
    rows: Seq<EntryModel>,
    by: int,
    rest: Result<DocumentModel, Fault>,
)
    ensures
        spec_with(sections, entries, at, spec_with(seq![section], rows, by, rest)) == spec_with(
            sections.push(section),
            entries + rows,
            at + by,
            rest,
        ),
{
    match rest {
        Ok(more) => {
            assert(sections + (seq![section] + more.sections) =~= sections.push(section)
                + more.sections);
            assert(entries + (rows + more.entries) =~= (entries + rows) + more.entries);
        },
        Err(e) => {},
    }
}

fn rows_after(found: &Section, input: &[char]) -> (r: Result<(Vec<Entry>, usize), ParseError>)
    ensures
        crate::error::outcome(r) == spec_rows_after(found.deep_view(), input@),
        r matches Ok((_, n)) ==> n <= input.len(),
        r matches Err(e) ==> e.offset <= input.len(),
{
    match found.as_event_header() {
        Some(schema) => event_rows(input, schema),
        None => {
            let rows: Vec<Entry> = Vec::new();
            assert(rows.deep_view() =~= Seq::<EntryModel>::empty());
            Ok((rows, 0))
        },
    }
}

/// Reads the next part of a document: whitespace, a section, and the
/// dialogue rows that follow it.
pub fn part(input: &[char]) -> (r: Result<Option<(Section, Vec<Entry>, usize)>, ParseError>)
    ensures
        match r {
            Ok(Some((found, rows, k))) => spec_part(input@) == Ok::<
                Option<(SectionModel, Seq<EntryModel>, int)>,
                Fault,
            >(Some((found.deep_view(), rows.deep_view(), k as int))) && 0 < k <= input.len()
                && found.well_formed(),
            Ok(None) => spec_part(input@) == Ok::<
                Option<(SectionModel, Seq<EntryModel>, int)>,
                Fault,
            >(None),
            Err(e) => spec_part(input@) == Err::<
                Option<(SectionModel, Seq<EntryModel>, int)>,
                Fault,
            >(e.deep_view()) && e.offset <= input.len(),
        },
{
    reveal(spec_part);
    let w = run(input, CharClass::Whitespace);
    let t = tail(input, w);
    if t.len() == 0 {
        return Ok(None);
    }
    let (found, n) = match section(t) {
        Ok(found) => found,
        Err(e) => {
            return Err(ParseError { kind: e.kind, offset: e.offset + w });
        },
    };
    proof {
        lemma_section_bounds(t@);
    }
    match rows_after(&found, tail(t, n)) {
        Ok((rows, m)) => Ok(Some((found, rows, w + n + m))),
        Err(e) => Err(ParseError { kind: e.kind, offset: e.offset + w + n }),
    }
}

/// Reads a whole document.
pub fn document(input: &[char]) -> (r: Result<Document, ParseError>)
    ensures
        match r {
            Ok(found) => spec_document(input@) == Ok::<DocumentModel, Fault>(found.deep_view())
                && found.well_formed(),
            Err(e) => spec_document(input@) == Err::<DocumentModel, Fault>(e.deep_view())
                && e.offset <= input.len(),
        },
{
    let mut sections: Vec<Section> = Vec::new();
    let mut entries: Vec<Entry> = Vec::new();
    let mut at: usize = 0;
    proof {
        assert(sections.deep_view() =~= Seq::<SectionModel>::empty());
        assert(entries.deep_view() =~= Seq::<EntryModel>::empty());
        assert(input@.skip(0) =~= input@);
        match spec_document(input@) {
            Ok(all) => {
                assert(Seq::<SectionModel>::empty() + all.sections =~= all.sections);
                assert(Seq::<EntryModel>::empty() + all.entries =~= all.entries);
            },
            Err(e) => {},
        }
    }
    loop
        invariant
            at <= input.len(),
            forall|i: int| 0 <= i < sections@.len() ==> (#[trigger] sections@[i]).well_formed(),
            spec_document(input@) == spec_with(
                sections.deep_view(),
                entries.deep_view(),
                at as int,
                spec_document(input@.skip(at as int)),
            ),
        decreases input.len() - at,
    {
        let rest = tail(input, at);
        match part(rest) {
            Err(e) => {
                return Err(ParseError { kind: e.kind, offset: e.offset + at });
            },
            Ok(None) => {
                proof {
                    assert(sections.deep_view() + Seq::<SectionModel>::empty()
                        =~= sections.deep_view());
                    assert(entries.deep_view() + Seq::<EntryModel>::empty()
                        =~= entries.deep_view());
                }
                return Ok(Document { sections, entries });
            },
            Ok(Some((found, mut rows, k))) => {
                let ghost sections_before = sections.deep_view();
                let ghost entries_before = entries.deep_view();
                let ghost section_model = found.deep_view();
                let ghost rows_model = rows.deep_view();
                proof {
                    assert(rest@.skip(k as int) =~= input@.skip(at + k));
                    lemma_with_step(
                        sections_before,
                        entries_before,
                        at as int,
                        section_model,
                        rows_model,
                        k as int,
                        spec_document(input@.skip(at + k)),
                    );
                }
                sections.push(found);
                entries.append(&mut rows);
                proof {
                    assert(sections.deep_view() =~= sections_before.push(section_model));
                    assert(entries.deep_view() =~= entries_before + rows_model);
                }
                at = at + k;
            },
        }
    }
}

/// Determinism: two readings of the same input give the same document, or
/// the same failure.
pub proof fn lemma_document_deterministic(
    input: Seq<char>,
    first: Result<DocumentModel, Fault>,
    second: Result<DocumentModel, Fault>,
)
    requires
        first == spec_document(input),
        second == spec_document(input),
    ensures
        first == second,
{
}

} // verus!
