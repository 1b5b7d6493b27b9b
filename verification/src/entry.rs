//! Dialogue rows: the fields that a schema names, then free text.

use crate::error::{ErrorKind, Fault, ParseError};
use crate::line::{clone_sections, spec_text_line, text_line, TextModel, TextSection};
use crate::number::{signed, spec_signed, spec_unsigned, unsigned};
use crate::row::{
    lemma_cell_reordered, names_fields_once, reordered, spec_cell_below, spec_columns,
};
use crate::scan::{
    head, is_text, lemma_run_len_bounds, run, run_len, tail, to_chars, to_text, CharClass,
};
use crate::time::{duration, spec_duration, Millis};
use vstd::prelude::*;
use vstd::slice::slice_to_vec;

verus! {

/// One dialogue row.
#[derive(Debug, PartialEq, Eq)]
pub struct Entry {
    /// What the row is: `Dialogue`, `Comment` and the like.
    pub kind: String,
    pub layer: Option<isize>,
    pub start: Option<Millis>,
    pub end: Option<Millis>,
    /// The name of the style of the row, as written.
    pub style: Option<String>,
    pub name: Option<String>,
    pub margin_l: Option<usize>,
    pub margin_r: Option<usize>,
    pub margin_v: Option<usize>,
    pub effect: Option<String>,
    pub read_order: Option<isize>,
    pub text: Vec<TextSection>,
}

/// What a dialogue row is, with its texts as characters.
pub struct EntryModel {
    pub kind: Seq<char>,
    pub layer: Option<isize>,
    pub start: Option<Millis>,
    pub end: Option<Millis>,
    pub style: Option<Seq<char>>,
    pub name: Option<Seq<char>>,
    pub margin_l: Option<usize>,
    pub margin_r: Option<usize>,
    pub margin_v: Option<usize>,
    pub effect: Option<Seq<char>>,
    pub read_order: Option<isize>,
    pub text: Seq<TextModel>,
}

impl DeepView for Entry {
    type V = EntryModel;

    open spec fn deep_view(&self) -> EntryModel {
        EntryModel {
            kind: self.kind@,
            layer: self.layer,
            start: self.start,
            end: self.end,
            style: self.style.deep_view(),
            name: self.name.deep_view(),
            margin_l: self.margin_l,
            margin_r: self.margin_r,
            margin_v: self.margin_v,
            effect: self.effect.deep_view(),
            read_order: self.read_order,
            text: self.text.deep_view(),
        }
    }
}

fn clone_text(text: &Option<String>) -> (r: Option<String>)
    ensures
        r.deep_view() == text.deep_view(),
{
    match text {
        Some(s) => Some(s.clone()),
        None => None,
    }
}

impl Clone for Entry {
    fn clone(&self) -> (r: Entry)
        ensures
            r.deep_view() == self.deep_view(),
    {
        Entry {
            kind: self.kind.clone(),
            layer: self.layer,
            start: self.start,
            end: self.end,
            style: clone_text(&self.style),
            name: clone_text(&self.name),
            margin_l: self.margin_l,
            margin_r: self.margin_r,
            margin_v: self.margin_v,
            effect: clone_text(&self.effect),
            read_order: self.read_order,
            text: clone_sections(&self.text),
        }
    }
}

/// The plain text of the sections `text`, one run after the other.
pub open spec fn spec_plain_text(text: Seq<TextModel>) -> Seq<char>
    decreases text.len(),
{
    if text.len() == 0 {
        Seq::empty()
    } else {
        match text.last() {
            TextModel::Text(run) => spec_plain_text(text.drop_last()) + run,
            _ => spec_plain_text(text.drop_last()),
        }
    }
}

impl Entry {
    /// The text of the row without its tags and drawings.
    pub fn plain_text(&self) -> (r: String)
        ensures
            r@ == spec_plain_text(self.deep_view().text),
    {
        let mut out = String::new();
        let mut i: usize = 0;
        let ghost text = self.text.deep_view();
        assert(text.take(0) =~= Seq::<TextModel>::empty());
        while i < self.text.len()
            invariant
                i <= self.text.len(),
                text == self.text.deep_view(),
                out@ == spec_plain_text(text.take(i as int)),
            decreases self.text.len() - i,
        {
            proof {
                assert(text.take(i + 1).drop_last() =~= text.take(i as int));
                assert(text.take(i + 1).last() == self.text@[i as int].deep_view());
            }
            match &self.text[i] {
                TextSection::Text(run) => {
                    out = vstd::string::StringExecFns::concat(out, run.as_str());
                },
                _ => {},
            }
            i = i + 1;
        }
        assert(text.take(text.len() as int) =~= text);
        out
    }
}

/// The fields of a dialogue row that a column can stand for.
#[derive(Clone, Copy, Debug, PartialEq, Eq)]
pub enum EntryField {
    Layer,
    Start,
    End,
    Style,
    Name,
    MarginL,
    MarginR,
    MarginV,
    Effect,
}

/// How many fields a column can stand for.
pub const ENTRY_FIELDS: usize = 9;

/// The fields in the order in which their names are compared.
pub open spec fn spec_entry_field_at(i: int) -> EntryField {
    if i == 0 {
        EntryField::Layer
    } else if i == 1 {
        EntryField::Start
    } else if i == 2 {
        EntryField::End
    } else if i == 3 {
        EntryField::Style
    } else if i == 4 {
        EntryField::Name
    } else if i == 5 {
        EntryField::MarginL
    } else if i == 6 {
        EntryField::MarginR
    } else if i == 7 {
        EntryField::MarginV
    } else {
        EntryField::Effect
    }
}

fn entry_field_at(i: usize) -> (r: EntryField)
    ensures
        r == spec_entry_field_at(i as int),
{
    if i == 0 {
        EntryField::Layer
    } else if i == 1 {
        EntryField::Start
    } else if i == 2 {
        EntryField::End
    } else if i == 3 {
        EntryField::Style
    } else if i == 4 {
        EntryField::Name
    } else if i == 5 {
        EntryField::MarginL
    } else if i == 6 {
        EntryField::MarginR
    } else if i == 7 {
        EntryField::MarginV
    } else {
        EntryField::Effect
    }
}

impl EntryField {
    /// The column name that stands for the field.
    pub open spec fn spec_name(self) -> Seq<char> {
        match self {
            EntryField::Layer => "Layer"@,
            EntryField::Start => "Start"@,
            EntryField::End => "End"@,
            EntryField::Style => "Style"@,
            EntryField::Name => "Name"@,
            EntryField::MarginL => "MarginL"@,
            EntryField::MarginR => "MarginR"@,
            EntryField::MarginV => "MarginV"@,
            EntryField::Effect => "Effect"@,
        }
    }

    /// The column name that stands for the field.
    pub fn name(&self) -> (r: &'static str)
        ensures
            r@ == self.spec_name(),
    {
        match self {
            EntryField::Layer => "Layer",
            EntryField::Start => "Start",
            EntryField::End => "End",
            EntryField::Style => "Style",
            EntryField::Name => "Name",
            EntryField::MarginL => "MarginL",
            EntryField::MarginR => "MarginR",
            EntryField::MarginV => "MarginV",
            EntryField::Effect => "Effect",
        }
    }
}

/// The field, among those from the `i`-th on, that the column name `name`
/// stands for.
pub open spec fn spec_entry_field_from(name: Seq<char>, i: int) -> Option<EntryField>
    decreases ENTRY_FIELDS - i,
{
    if 0 <= i < ENTRY_FIELDS {
        if name == spec_entry_field_at(i).spec_name() {
            Some(spec_entry_field_at(i))
        } else {
            spec_entry_field_from(name, i + 1)
        }
    } else {
        None
    }
}

/// The field that the column name `name` stands for. A name that stands for
/// none is no error: its column is passed over.
pub open spec fn spec_entry_field(name: Seq<char>) -> Option<EntryField> {
    spec_entry_field_from(name, 0)
}

/// The lookup from column names to the fields of a dialogue row.
pub open spec fn entry_fields() -> spec_fn(Seq<char>) -> Option<EntryField> {
    |name: Seq<char>| spec_entry_field(name)
}

/// Finds the field that a column name stands for.
pub fn entry_field(name: &[char]) -> (r: Option<EntryField>)
    ensures
        r == spec_entry_field(name@),
{
    let mut i: usize = 0;
    while i < ENTRY_FIELDS
        invariant
            i <= ENTRY_FIELDS,
            spec_entry_field(name@) == spec_entry_field_from(name@, i as int),
        decreases ENTRY_FIELDS - i,
    {
        let field = entry_field_at(i);
        if is_text(name, field.name()) {
            return Some(field);
        }
        i = i + 1;
    }
    None
}

/// The time that a cell begins with, if it begins with one.
pub open spec fn spec_time(cell: Option<Seq<char>>) -> Option<Millis> {
    match cell {
        Some(v) => match spec_duration(v) {
            Some((time, _)) => Some(time),
            None => None,
        },
        None => None,
    }
}

/// The layer that a cell writes, if it writes one.
pub open spec fn spec_layer(cell: Option<Seq<char>>) -> Option<isize> {
    match cell {
        Some(v) => spec_signed(v),
        None => None,
    }
}

/// The margin that a cell writes, if it writes one.
pub open spec fn spec_margin(cell: Option<Seq<char>>) -> Option<usize> {
    match cell {
        Some(v) => spec_unsigned(v),
        None => None,
    }
}

/// The fields that the first `upto` columns of a row make, in a row without
/// kind or text.
pub open spec fn spec_entry_below(
    schema: Seq<Seq<char>>,
    cells: Seq<Option<Seq<char>>>,
    upto: int,
) -> EntryModel {
    EntryModel {
        kind: Seq::empty(),
        layer: spec_layer(spec_cell_below(schema, cells, entry_fields(), EntryField::Layer, upto)),
        start: spec_time(spec_cell_below(schema, cells, entry_fields(), EntryField::Start, upto)),
        end: spec_time(spec_cell_below(schema, cells, entry_fields(), EntryField::End, upto)),
        style: spec_cell_below(schema, cells, entry_fields(), EntryField::Style, upto),
        name: spec_cell_below(schema, cells, entry_fields(), EntryField::Name, upto),
        margin_l: spec_margin(
            spec_cell_below(schema, cells, entry_fields(), EntryField::MarginL, upto),
        ),
        margin_r: spec_margin(
            spec_cell_below(schema, cells, entry_fields(), EntryField::MarginR, upto),
        ),
        margin_v: spec_margin(
            spec_cell_below(schema, cells, entry_fields(), EntryField::MarginV, upto),
        ),
        effect: spec_cell_below(schema, cells, entry_fields(), EntryField::Effect, upto),
        read_order: None,
        text: Seq::empty(),
    }
}

/// The fields that a row makes under a schema: each from the cell of the
/// column that stands for it.
pub open spec fn spec_entry_row(schema: Seq<Seq<char>>, cells: Seq<Option<Seq<char>>>) -> EntryModel {
    spec_entry_below(schema, cells, spec_columns(schema, cells))
}

/// The row `entry` with the cell `v` put into `field`.
pub open spec fn spec_entry_set(entry: EntryModel, field: EntryField, v: Seq<char>) -> EntryModel {
    let cell = Some(v);
    match field {
        EntryField::Layer => EntryModel { layer: spec_layer(cell), ..entry },
        EntryField::Start => EntryModel { start: spec_time(cell), ..entry },
        EntryField::End => EntryModel { end: spec_time(cell), ..entry },
        EntryField::Style => EntryModel { style: cell, ..entry },
        EntryField::Name => EntryModel { name: cell, ..entry },
        EntryField::MarginL => EntryModel { margin_l: spec_margin(cell), ..entry },
        EntryField::MarginR => EntryModel { margin_r: spec_margin(cell), ..entry },
        EntryField::MarginV => EntryModel { margin_v: spec_margin(cell), ..entry },
        EntryField::Effect => EntryModel { effect: cell, ..entry },
    }
}

/// Taking one more column into account puts its cell into the field that
/// its name stands for, and changes nothing where it stands for none or the
/// cell is empty.
#[verifier::rlimit(40)]
pub proof fn lemma_entry_step(schema: Seq<Seq<char>>, cells: Seq<Option<Seq<char>>>, i: int)
    requires
        0 <= i < schema.len(),
        i < cells.len(),
    ensures
        spec_entry_below(schema, cells, i + 1) == match (spec_entry_field(schema[i]), cells[i]) {
            (Some(field), Some(v)) => spec_entry_set(spec_entry_below(schema, cells, i), field, v),
            _ => spec_entry_below(schema, cells, i),
        },
{
    let which = entry_fields();
    assert(which(schema[i]) == spec_entry_field(schema[i]));
}

fn time(cell: &[char]) -> (r: Option<Millis>)
    ensures
        r == spec_time(Some(cell@)),
{
    match duration(cell) {
        Some((time, _)) => Some(time),
        None => None,
    }
}

#[verifier::rlimit(40)]
fn set(entry: &mut Entry, field: EntryField, cell: &[char])
    ensures
        final(entry).deep_view() == spec_entry_set(old(entry).deep_view(), field, cell@),
{
    match field {
        EntryField::Layer => { entry.layer = signed(cell); },
        EntryField::Start => { entry.start = time(cell); },
        EntryField::End => { entry.end = time(cell); },
        EntryField::Style => { entry.style = Some(to_text(cell)); },
        EntryField::Name => { entry.name = Some(to_text(cell)); },
        EntryField::MarginL => { entry.margin_l = unsigned(cell); },
        EntryField::MarginR => { entry.margin_r = unsigned(cell); },
        EntryField::MarginV => { entry.margin_v = unsigned(cell); },
        EntryField::Effect => { entry.effect = Some(to_text(cell)); },
    }
}

/// Makes the fields of a dialogue row of its cells, each cell going to the
/// field that the name of its column stands for.
#[verifier::rlimit(40)]
pub fn entry_row(schema: &Vec<String>, cells: &Vec<Option<Vec<char>>>) -> (r: Entry)
    ensures
        r.deep_view() == spec_entry_row(schema.deep_view(), cells.deep_view()),
{
    let ghost names = schema.deep_view();
    let ghost row = cells.deep_view();
    let columns = if schema.len() <= cells.len() {
        schema.len()
    } else {
        cells.len()
    };
    let mut entry = Entry {
        kind: String::new(),
        layer: None,
        start: None,
        end: None,
        style: None,
        name: None,
        margin_l: None,
        margin_r: None,
        margin_v: None,
        effect: None,
        read_order: None,
        text: Vec::new(),
    };
    assert(entry.text.deep_view() =~= Seq::<TextModel>::empty());
    let mut i: usize = 0;
    while i < columns
        invariant
            i <= columns,
            columns == spec_columns(names, row),
            names == schema.deep_view(),
            row == cells.deep_view(),
            entry.deep_view() == spec_entry_below(names, row, i as int),
        decreases columns - i,
    {
        proof {
            lemma_entry_step(names, row, i as int);
            assert(names[i as int] == schema@[i as int]@);
            assert(row[i as int] == cells@[i as int].deep_view());
        }
        match &cells[i] {
            Some(cell) => {
                assert(cell.deep_view() =~= cell@);
                let name = to_chars(schema[i].as_str());
                match entry_field(name.as_slice()) {
                    Some(field) => {
                        set(&mut entry, field, cell.as_slice());
                    },
                    None => {},
                }
            },
            None => {},
        }
        i = i + 1;
    }
    entry
}

/// The most leading fields that a dialogue row can have before its text.
pub const LEADING_FIELDS: usize = 9;

/// The leading fields at the start of `s`, at most `max` of them, and how
/// long they are. A field is what stands before the next comma, and that
/// comma; where nothing stands before it, the cell is empty. The fields end
/// where no comma follows.
pub open spec fn spec_fields(s: Seq<char>, max: nat) -> (Seq<Option<Seq<char>>>, int)
    decreases max,
{
    let n = run_len(s, CharClass::Except(',', ',', ','));
    if max > 0 && n < s.len() {
        let cell = if n > 0 {
            Some(s.take(n))
        } else {
            None
        };
        let (more, m) = spec_fields(s.skip(n + 1), (max - 1) as nat);
        (seq![cell] + more, n + 1 + m)
    } else {
        (Seq::empty(), 0)
    }
}

/// Reads the leading fields of a dialogue row, at most `max` of them.
#[verifier::rlimit(40)]
pub fn fields(input: &[char], max: usize) -> (r: (Vec<Option<Vec<char>>>, usize))
    ensures
        (r.0.deep_view(), r.1 as int) == spec_fields(input@, max as nat),
        r.1 <= input.len(),
{
    let mut out: Vec<Option<Vec<char>>> = Vec::new();
    let mut at: usize = 0;
    let ghost total = spec_fields(input@, max as nat);
    proof {
        assert(out.deep_view() =~= Seq::<Option<Seq<char>>>::empty());
        assert(input@.skip(0) =~= input@);
        assert(Seq::<Option<Seq<char>>>::empty() + total.0 =~= total.0);
    }
    while out.len() < max
        invariant
            at <= input.len(),
            out.len() <= max,
            total == spec_fields(input@, max as nat),
            total.0 == out.deep_view() + spec_fields(
                input@.skip(at as int),
                (max - out.len()) as nat,
            ).0,
            total.1 == at + spec_fields(input@.skip(at as int), (max - out.len()) as nat).1,
        decreases max - out.len(),
    {
        let rest = tail(input, at);
        let n = run(rest, CharClass::Except(',', ',', ','));
        if n >= rest.len() {
            assert(out.deep_view() + Seq::<Option<Seq<char>>>::empty() =~= out.deep_view());
            return (out, at);
        }
        let ghost before = out.deep_view();
        let cell = if n > 0 {
            let text = slice_to_vec(head(rest, n));
            assert(text.deep_view() =~= rest@.take(n as int));
            Some(text)
        } else {
            None
        };
        let ghost model = cell.deep_view();
        out.push(cell);
        proof {
            assert(out.deep_view() =~= before.push(model));
            assert(rest@.skip(n + 1) =~= input@.skip(at + n + 1));
            let more = spec_fields(input@.skip(at + n + 1), (max - out.len()) as nat).0;
            assert(before + (seq![model] + more) =~= before.push(model) + more);
        }
        at = at + n + 1;
    }
    assert(out.deep_view() + Seq::<Option<Seq<char>>>::empty() =~= out.deep_view());
    (out, at)
}

/// The dialogue row that `s` is, under the schema `schema`: the kind, which
/// is what stands before the first colon; whitespace; leading fields, at
/// least one and at most nine, which the schema names; and the text, which
/// is all the rest, commas included.
pub open spec fn spec_subtitle(s: Seq<char>, schema: Seq<Seq<char>>) -> Result<EntryModel, Fault> {
    let k = run_len(s, CharClass::Except(':', ':', ':'));
    let body = s.skip(k + 1);
    let w = run_len(body, CharClass::Whitespace);
    let (cells, m) = spec_fields(body.skip(w), LEADING_FIELDS as nat);
    if !(0 < k < s.len()) {
        Err(Fault { kind: ErrorKind::MissingKind, offset: 0 })
    } else if cells.len() == 0 {
        Err(Fault { kind: ErrorKind::MissingField, offset: k + 1 + w })
    } else {
        match spec_text_line(body.skip(w + m)) {
            Err(e) => Err(e.shifted(k + 1 + w + m)),
            Ok(text) => Ok(EntryModel { kind: s.take(k), text, ..spec_entry_row(schema, cells) }),
        }
    }
}

/// Reads one dialogue row under the schema `definition`.
#[verifier::rlimit(40)]
pub fn subtitle(input: &[char], definition: &Vec<String>) -> (r: Result<Entry, ParseError>)
    ensures
        match r {
            Ok(entry) => spec_subtitle(input@, definition.deep_view()) == Ok::<EntryModel, Fault>(
                entry.deep_view(),
            ),
            Err(e) => spec_subtitle(input@, definition.deep_view()) == Err::<EntryModel, Fault>(
                e.deep_view(),
            ) && e.offset <= input.len(),
        },
{
    let k = run(input, CharClass::Except(':', ':', ':'));
    if k == 0 || k >= input.len() {
        return Err(ParseError { kind: ErrorKind::MissingKind, offset: 0 });
    }
    let body = tail(input, k + 1);
    let w = run(body, CharClass::Whitespace);
    let (cells, m) = fields(tail(body, w), LEADING_FIELDS);
    if cells.len() == 0 {
        return Err(ParseError { kind: ErrorKind::MissingField, offset: k + 1 + w });
    }
    assert(body@.skip(w as int).skip(m as int) =~= body@.skip(w + m));
    let text = match text_line(tail(body, w + m)) {
        Ok(text) => text,
        Err(e) => {
            return Err(ParseError { kind: e.kind, offset: e.offset + k + 1 + w + m });
        },
    };
    let mut entry = entry_row(definition, &cells);
    entry.kind = to_text(head(input, k));
    entry.text = text;
    Ok(entry)
}

/// Schema independence: where no two columns stand for the same field,
/// putting the columns of the schema in another order, and the cells of
/// each row with them, leaves the fields that the row makes as they were.
pub proof fn lemma_entry_row_reordered(
    schema: Seq<Seq<char>>,
    cells: Seq<Option<Seq<char>>>,
    schema2: Seq<Seq<char>>,
    cells2: Seq<Option<Seq<char>>>,
    to: Seq<int>,
    back: Seq<int>,
)
    requires
        reordered(schema, cells, schema2, cells2, to, back),
        names_fields_once(schema, entry_fields()),
    ensures
        spec_entry_row(schema2, cells2) == spec_entry_row(schema, cells),
{
    let which = entry_fields();
    assert forall|field: EntryField|
        spec_cell_below(schema2, cells2, which, field, spec_columns(schema2, cells2))
            == #[trigger] spec_cell_below(schema, cells, which, field, spec_columns(schema, cells)) by {
        lemma_cell_reordered(schema, cells, schema2, cells2, to, back, which, field);
    }
}

/// Determinism: two readings of the same row under the same schema give
/// the same row.
pub proof fn lemma_subtitle_deterministic(
    input: Seq<char>,
    schema: Seq<Seq<char>>,
    first: Result<EntryModel, Fault>,
    second: Result<EntryModel, Fault>,
)
    requires
        first == spec_subtitle(input, schema),
        second == spec_subtitle(input, schema),
    ensures
        first == second,
{
}

} // verus!
