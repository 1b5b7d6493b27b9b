//! Sections of a document: styles, the schema of the events, and settings.

use crate::error::{
    after_span, joined_span, lemma_joined_span_end, lemma_joined_span_start,
    lemma_joined_span_step, outcome, ErrorKind, Fault, ParseError,
};
use crate::scan::{
    head, is_text, lemma_run_len_bounds, literal, parsed, run, run_len, span, spec_literal, tail,
    to_text, CharClass,
};
use crate::style::{all_present, spec_style_row, style_row, Style, StyleModel};
use crate::table::Table;
use vstd::prelude::*;
use vstd::slice::slice_to_vec;

verus! {

/// The text `s` without the whitespace that it begins with.
pub open spec fn spec_trim_start(s: Seq<char>) -> Seq<char> {
    s.skip(run_len(s, CharClass::Whitespace))
}

/// The input without the whitespace that it begins with.
pub fn trim_start(input: &[char]) -> (r: &[char])
    ensures
        r@ == spec_trim_start(input@),
{
    let w = run(input, CharClass::Whitespace);
    tail(input, w)
}

/// The characters that run on in an item of a list: all but the comma and
/// the two that end a line.
pub open spec fn in_item() -> CharClass {
    CharClass::Except(',', '\n', '\r')
}

/// The list at the start of `s`, and how long it is: items with a comma
/// between each two, up to the end of the line. An item is what stands
/// before the next comma or line end, without the whitespace that it begins
/// with; it may be empty, and there is always at least one.
pub open spec fn spec_line_list(s: Seq<char>) -> (Seq<Seq<char>>, int)
    decreases s.len(),
{
    let n = run_len(s, in_item());
    let item = spec_trim_start(s.take(n));
    if n < s.len() && s[n] == ',' {
        proof {
            lemma_run_len_bounds(s, in_item());
        }
        let (more, m) = spec_line_list(s.skip(n + 1));
        (seq![item] + more, n + 1 + m)
    } else {
        (seq![item], n)
    }
}

/// A list lies within the input and has at least one item.
pub proof fn lemma_line_list_bounds(s: Seq<char>)
    ensures
        0 <= spec_line_list(s).1 <= s.len(),
        spec_line_list(s).0.len() >= 1,
    decreases s.len(),
{
    lemma_run_len_bounds(s, in_item());
    let n = run_len(s, in_item());
    if n < s.len() && s[n] == ',' {
        lemma_line_list_bounds(s.skip(n + 1));
    }
}

/// Reads a list of items set apart by commas, up to the end of the line.
#[verifier::rlimit(40)]
pub fn line_list(input: &[char]) -> (r: (Vec<Vec<char>>, usize))
    ensures
        (r.0.deep_view(), r.1 as int) == spec_line_list(input@),
        r.1 <= input.len(),
{
    let mut out: Vec<Vec<char>> = Vec::new();
    let mut at: usize = 0;
    let ghost total = spec_line_list(input@);
    proof {
        assert(out.deep_view() =~= Seq::<Seq<char>>::empty());
        assert(input@.skip(0) =~= input@);
        assert(Seq::<Seq<char>>::empty() + total.0 =~= total.0);
    }
    loop
        invariant
            at <= input.len(),
            total == spec_line_list(input@),
            total.0 == out.deep_view() + spec_line_list(input@.skip(at as int)).0,
            total.1 == at + spec_line_list(input@.skip(at as int)).1,
        decreases input.len() - at,
    {
        let rest = tail(input, at);
        let n = run(rest, CharClass::Except(',', '\n', '\r'));
        let item = slice_to_vec(trim_start(head(rest, n)));
        let ghost before = out.deep_view();
        let ghost model = spec_trim_start(rest@.take(n as int));
        assert(item.deep_view() =~= model);
        out.push(item);
        assert(out.deep_view() =~= before.push(model));
        if n < rest.len() && rest[n] == ',' {
            proof {
                assert(rest@.skip(n + 1) =~= input@.skip(at + n + 1));
                let more = spec_line_list(input@.skip(at + n + 1)).0;
                assert(before + (seq![model] + more) =~= before.push(model) + more);
            }
            at = at + n + 1;
        } else {
            assert(before + seq![model] =~= before.push(model));
            return (out, at + n);
        }
    }
}

/// The line end at the start of `s`: a line feed, or a carriage return and
/// a line feed.
pub open spec fn spec_line_ending(s: Seq<char>) -> Option<int> {
    if s.len() >= 1 && s[0] == '\n' {
        Some(1)
    } else if s.len() >= 2 && s[0] == '\r' && s[1] == '\n' {
        Some(2)
    } else {
        None
    }
}

/// Reads a line end.
pub fn line_ending(input: &[char]) -> (r: Option<usize>)
    ensures
        match r {
            Some(n) => spec_line_ending(input@) == Some(n as int) && 0 < n <= input.len(),
            None => spec_line_ending(input@) is None,
        },
{
    if input.len() >= 1 && input[0] == '\n' {
        Some(1)
    } else if input.len() >= 2 && input[0] == '\r' && input[1] == '\n' {
        Some(2)
    } else {
        None
    }
}

/// The header at the start of `s`: `[`, a name of at least one character,
/// and `]`.
pub open spec fn spec_header(s: Seq<char>) -> Option<(Seq<char>, int)> {
    let n = run_len(s.skip(1), CharClass::Except(']', ']', ']'));
    if s.len() > 0 && s[0] == '[' && n > 0 && 1 + n < s.len() {
        Some((s.subrange(1, 1 + n), n + 2))
    } else {
        None
    }
}

fn header(input: &[char]) -> (r: Option<(usize, usize)>)
    ensures
        match r {
            Some((n, len)) => spec_header(input@) == Some((input@.subrange(1, 1 + n), len as int))
                && len == n + 2 && len <= input.len(),
            None => spec_header(input@) is None,
        },
{
    if input.len() > 0 && input[0] == '[' {
        let n = run(tail(input, 1), CharClass::Except(']', ']', ']'));
        if n > 0 && 1 + n < input.len() {
            return Some((n, n + 2));
        }
    }
    None
}

/// The list that follows the literal `label` at the start of `s`.
pub open spec fn spec_labelled_list(s: Seq<char>, label: Seq<char>) -> Option<
    (Seq<Seq<char>>, int),
> {
    match spec_literal(s, label) {
        Some(k) => Some((spec_line_list(s.skip(k)).0, k + spec_line_list(s.skip(k)).1)),
        None => None,
    }
}

/// A list with its label lies within the input.
pub proof fn lemma_labelled_list_bounds(s: Seq<char>, label: Seq<char>)
    ensures
        spec_labelled_list(s, label) matches Some((_, n)) ==> label.len() <= n <= s.len(),
{
    if let Some(k) = spec_literal(s, label) {
        lemma_line_list_bounds(s.skip(k));
    }
}

fn labelled_list(input: &[char], label: &str) -> (r: Option<(Vec<Vec<char>>, usize)>)
    ensures
        parsed(r) == spec_labelled_list(input@, label@),
        r matches Some((_, n)) ==> label@.len() <= n <= input.len(),
{
    match literal(input, label) {
        Some(k) => {
            let (items, n) = line_list(tail(input, k));
            Some((items, k + n))
        },
        None => None,
    }
}

/// The schema at the start of `s`: whitespace, `Format:`, and the list of
/// the column names.
pub open spec fn spec_format(s: Seq<char>) -> Option<(Seq<Seq<char>>, int)> {
    let w = run_len(s, CharClass::Whitespace);
    match spec_labelled_list(s.skip(w), "Format:"@) {
        Some((names, n)) => Some((names, w + n)),
        None => None,
    }
}

fn format(input: &[char]) -> (r: Option<(Vec<Vec<char>>, usize)>)
    ensures
        parsed(r) == spec_format(input@),
        r matches Some((_, n)) ==> n <= input.len(),
{
    let w = run(input, CharClass::Whitespace);
    match labelled_list(tail(input, w), "Format:") {
        Some((names, n)) => Some((names, w + n)),
        None => None,
    }
}

/// The style rows that follow the first, and how long they are: as long as
/// a line end and then `Style:` with its cells follow, the row is taken. A
/// row that gives its style no name is a structural failure at its start.
pub open spec fn spec_more_style_rows(s: Seq<char>, schema: Seq<Seq<char>>) -> Result<
    (Seq<StyleModel>, int),
    Fault,
>
    decreases s.len(),
{
    match spec_line_ending(s) {
        Some(e) => match spec_labelled_list(s.skip(e), "Style:"@) {
            Some((cells, n)) => match spec_style_row(schema, all_present(cells)) {
                Some(style) => {
                    proof {
                        lemma_labelled_list_bounds(s.skip(e), "Style:"@);
                    }
                    after_span(style, e + n, spec_more_style_rows(s.skip(e + n), schema))
                },
                None => Err(Fault { kind: ErrorKind::MissingName, offset: e }),
            },
            None => Ok((Seq::empty(), 0)),
        },
        None => Ok((Seq::empty(), 0)),
    }
}

/// The style rows at the start of `s`, one to a line, and how long they
/// are. There may be none.
pub open spec fn spec_style_rows(s: Seq<char>, schema: Seq<Seq<char>>) -> Result<
    (Seq<StyleModel>, int),
    Fault,
> {
    match spec_labelled_list(s, "Style:"@) {
        Some((cells, n)) => match spec_style_row(schema, all_present(cells)) {
            Some(style) => after_span(style, n, spec_more_style_rows(s.skip(n), schema)),
            None => Err(Fault { kind: ErrorKind::MissingName, offset: 0 }),
        },
        None => Ok((Seq::empty(), 0)),
    }
}

/// The table that style rows make: each style under its name, a later one
/// in place of an earlier one of the same name.
pub open spec fn spec_style_table(rows: Seq<StyleModel>) -> Map<Seq<char>, StyleModel>
    decreases rows.len(),
{
    if rows.len() == 0 {
        Map::empty()
    } else {
        spec_style_table(rows.drop_last()).insert(rows.last().name, rows.last())
    }
}

/// What a table of styles holds, each style as its model.
pub open spec fn styles_model(table: Map<Seq<char>, Style>) -> Map<Seq<char>, StyleModel> {
    Map::new(|k: Seq<char>| table.contains_key(k), |k: Seq<char>| table[k].deep_view())
}

/// Reads style rows, one to a line, into a table.
#[verifier::rlimit(40)]
pub fn style_rows(input: &[char], schema: &Vec<Vec<char>>) -> (r: Result<
    (Table<Style>, usize),
    ParseError,
>)
    ensures
        match r {
            Ok((table, n)) => exists|rows: Seq<StyleModel>|
                spec_style_rows(input@, schema.deep_view()) == Ok::<(Seq<StyleModel>, int), Fault>(
                    (rows, n as int),
                ) && styles_model(table@) == spec_style_table(rows) && n <= input.len()
                    && table.well_formed(),
            Err(e) => spec_style_rows(input@, schema.deep_view()) == Err::<
                (Seq<StyleModel>, int),
                Fault,
            >(e.deep_view()) && e.offset <= input.len(),
        },
{
    let mut table: Table<Style> = Table::new();
    let ghost names = schema.deep_view();
    let ghost mut rows: Seq<StyleModel> = Seq::empty();
    assert(styles_model(table@) =~= spec_style_table(rows));
    let (cells, n) = match labelled_list(input, "Style:") {
        Some(found) => found,
        None => {
            return Ok((table, 0));
        },
    };
    let first = match style_row(schema, &cells) {
        Some(style) => style,
        None => {
            return Err(ParseError { kind: ErrorKind::MissingName, offset: 0 });
        },
    };
    proof {
        rows = rows.push(first.deep_view());
        assert(rows.drop_last() =~= Seq::<StyleModel>::empty());
    }
    let key = first.name.clone();
    table.insert(key, first);
    assert(styles_model(table@) =~= spec_style_table(rows));
    let mut at: usize = n;
    proof {
        lemma_joined_span_start(
            after_span(rows[0], n as int, spec_more_style_rows(input@.skip(n as int), names)),
        );
        lemma_joined_span_step(
            Seq::empty(),
            0,
            rows[0],
            n as int,
            spec_more_style_rows(input@.skip(n as int), names),
        );
        assert(Seq::<StyleModel>::empty().push(rows[0]) =~= rows);
    }
    loop
        invariant
            at <= input.len(),
            names == schema.deep_view(),
            table.well_formed(),
            styles_model(table@) == spec_style_table(rows),
            spec_style_rows(input@, names) == joined_span(
                rows,
                at as int,
                spec_more_style_rows(input@.skip(at as int), names),
            ),
        decreases input.len() - at,
    {
        let rest = tail(input, at);
        proof {
            lemma_joined_span_end(rows, at as int);
        }
        let e = match line_ending(rest) {
            Some(e) => e,
            None => {
                return Ok((table, at));
            },
        };
        let (cells, n) = match labelled_list(tail(rest, e), "Style:") {
            Some(found) => found,
            None => {
                return Ok((table, at));
            },
        };
        let style = match style_row(schema, &cells) {
            Some(style) => style,
            None => {
                return Err(ParseError { kind: ErrorKind::MissingName, offset: at + e });
            },
        };
        proof {
            assert(rest@.skip(e + n) =~= input@.skip(at + e + n));
            lemma_joined_span_step(
                rows,
                at as int,
                style.deep_view(),
                e + n,
                spec_more_style_rows(input@.skip(at + e + n), names),
            );
            let before = rows;
            rows = rows.push(style.deep_view());
            assert(rows.drop_last() =~= before);
        }
        let key = style.name.clone();
        table.insert(key, style);
        assert(styles_model(table@) =~= spec_style_table(rows));
        at = at + e + n;
    }
}

/// The characters that run on in a line: all but the two that end it.
pub open spec fn in_line() -> CharClass {
    CharClass::Except('\n', '\r', '\r')
}

/// The characters that run on in the key of a setting: all but the colon
/// and the two that end a line.
pub open spec fn in_key() -> CharClass {
    CharClass::Except(':', '\n', '\r')
}

/// A line of a section of settings.
pub enum SettingLine {
    /// A line that begins with `;`.
    Comment,
    /// A key and its value.
    Setting(Seq<char>, Seq<char>),
}

/// The line of settings at the start of `s`, and how long it is, with the
/// blank lines and the indentation before it and the line end after it.
///
/// A line that begins with `;` is a comment. Any other line is a key, a
/// colon, and a value, which is the rest of the line; key and value lose the
/// whitespace that they begin with. There is no such line where the input
/// ends, where a `[` begins the next section, where a line has no colon,
/// and where a line does not end in a line end.
pub open spec fn spec_setting(s: Seq<char>) -> Option<(SettingLine, int)> {
    let w = run_len(s, CharClass::LineSpace);
    let t = s.skip(w);
    if t.len() == 0 || t[0] == '[' {
        None
    } else if t[0] == ';' {
        let c = run_len(t, in_line());
        match spec_line_ending(t.skip(c)) {
            Some(e) => Some((SettingLine::Comment, w + c + e)),
            None => None,
        }
    } else {
        let k = run_len(t, in_key());
        let v = run_len(t.skip(k + 1), in_line());
        if k > 0 && k < t.len() && t[k] == ':' {
            match spec_line_ending(t.skip(k + 1 + v)) {
                Some(e) => Some(
                    (
                        SettingLine::Setting(
                            spec_trim_start(t.take(k)),
                            spec_trim_start(t.subrange(k + 1, k + 1 + v)),
                        ),
                        w + k + 1 + v + e,
                    ),
                ),
                None => None,
            }
        } else {
            None
        }
    }
}

/// A line of settings is not empty and lies within the input.
pub proof fn lemma_setting_bounds(s: Seq<char>)
    ensures
        spec_setting(s) matches Some((_, n)) ==> 0 < n <= s.len(),
{
    lemma_run_len_bounds(s, CharClass::LineSpace);
    let w = run_len(s, CharClass::LineSpace);
    let t = s.skip(w);
    lemma_run_len_bounds(t, in_line());
    lemma_run_len_bounds(t, in_key());
    let k = run_len(t, in_key());
    if k < t.len() {
        lemma_run_len_bounds(t.skip(k + 1), in_line());
    }
}

/// The settings that the lines at the start of `s` make, and how long the
/// lines are: each setting under its key, a later one in place of an earlier
/// one of the same key. Comments make nothing.
pub open spec fn spec_settings(s: Seq<char>) -> (Map<Seq<char>, Seq<char>>, int)
    decreases s.len(),
{
    spec_settings_into(s, Map::empty())
}

/// The settings that the lines at the start of `s` add to `so_far`, and how
/// long the lines are.
pub open spec fn spec_settings_into(s: Seq<char>, so_far: Map<Seq<char>, Seq<char>>) -> (
    Map<Seq<char>, Seq<char>>,
    int,
)
    decreases s.len(),
{
    match spec_setting(s) {
        Some((line, n)) => {
            proof {
                lemma_setting_bounds(s);
            }
            let next = match line {
                SettingLine::Comment => so_far,
                SettingLine::Setting(key, value) => so_far.insert(key, value),
            };
            let (all, m) = spec_settings_into(s.skip(n), next);
            (all, n + m)
        },
        None => (so_far, 0),
    }
}

/// What a table of settings holds, each value as its characters.
pub open spec fn settings_model(table: Map<Seq<char>, String>) -> Map<Seq<char>, Seq<char>> {
    Map::new(|k: Seq<char>| table.contains_key(k), |k: Seq<char>| table[k]@)
}

/// One line of settings: nothing for a comment, key and value else.
fn setting(input: &[char]) -> (r: Option<(Option<(String, String)>, usize)>)
    ensures
        match r {
            Some((None, n)) => spec_setting(input@) == Some((SettingLine::Comment, n as int)) && 0
                < n <= input.len(),
            Some((Some((key, value)), n)) => spec_setting(input@) == Some(
                (SettingLine::Setting(key@, value@), n as int),
            ) && 0 < n <= input.len(),
            None => spec_setting(input@) is None,
        },
{
    let w = run(input, CharClass::LineSpace);
    let t = tail(input, w);
    if t.len() == 0 || t[0] == '[' {
        return None;
    }
    if t[0] == ';' {
        let c = run(t, CharClass::Except('\n', '\r', '\r'));
        return match line_ending(tail(t, c)) {
            Some(e) => Some((None, w + c + e)),
            None => None,
        };
    }
    let k = run(t, CharClass::Except(':', '\n', '\r'));
    if !(k > 0 && k < t.len() && t[k] == ':') {
        return None;
    }
    let v = run(tail(t, k + 1), CharClass::Except('\n', '\r', '\r'));
    match line_ending(tail(t, k + 1 + v)) {
        Some(e) => {
            let key = to_text(trim_start(head(t, k)));
            let value = to_text(trim_start(span(t, k + 1, k + 1 + v)));
            Some((Some((key, value)), w + k + 1 + v + e))
        },
        None => None,
    }
}

/// Reads the lines of a section of settings into a table.
#[verifier::rlimit(40)]
pub fn settings(input: &[char]) -> (r: (Table<String>, usize))
    ensures
        (settings_model(r.0@), r.1 as int) == spec_settings(input@),
        r.1 <= input.len(),
        r.0.well_formed(),
{
    let mut table: Table<String> = Table::new();
    let mut at: usize = 0;
    let ghost total = spec_settings(input@);
    proof {
        assert(settings_model(table@) =~= Map::<Seq<char>, Seq<char>>::empty());
        assert(input@.skip(0) =~= input@);
    }
    loop
        invariant
            at <= input.len(),
            table.well_formed(),
            total == spec_settings(input@),
            total.0 == spec_settings_into(input@.skip(at as int), settings_model(table@)).0,
            total.1 == at + spec_settings_into(input@.skip(at as int), settings_model(table@)).1,
        decreases input.len() - at,
    {
        let rest = tail(input, at);
        match setting(rest) {
            Some((line, n)) => {
                let ghost before = settings_model(table@);
                match line {
                    Some((key, value)) => {
                        let ghost k = key@;
                        let ghost v = value@;
                        table.insert(key, value);
                        assert(settings_model(table@) =~= before.insert(k, v));
                    },
                    None => {},
                }
                assert(rest@.skip(n as int) =~= input@.skip(at + n));
                at = at + n;
            },
            None => {
                return (table, at);
            },
        }
    }
}

/// One section of a document.
#[derive(Debug, PartialEq, Eq)]
pub enum Section {
    /// The schema of the dialogue rows: the column names, in order.
    EventsHeader(Vec<String>),
    /// A section of settings, with its name.
    Other { name: String, settings: Table<String> },
    /// The styles, each under its name.
    Styles(Table<Style>),
}

/// What a section is, with its texts as characters.
pub enum SectionModel {
    EventsHeader(Seq<Seq<char>>),
    Other { name: Seq<char>, settings: Map<Seq<char>, Seq<char>> },
    Styles(Map<Seq<char>, StyleModel>),
}

impl DeepView for Section {
    type V = SectionModel;

    open spec fn deep_view(&self) -> SectionModel {
        match *self {
            Section::EventsHeader(names) => SectionModel::EventsHeader(names.deep_view()),
            Section::Other { name, settings } => SectionModel::Other {
                name: name@,
                settings: settings_model(settings@),
            },
            Section::Styles(table) => SectionModel::Styles(styles_model(table@)),
        }
    }
}

impl Clone for Section {
    fn clone(&self) -> (r: Section)
        ensures
            self.well_formed() ==> r.well_formed(),
    {
        match self {
            Section::EventsHeader(names) => Section::EventsHeader(names.clone()),
            Section::Other { name, settings } => Section::Other {
                name: name.clone(),
                settings: settings.clone(),
            },
            Section::Styles(table) => Section::Styles(table.clone()),
        }
    }
}

impl Section {
    /// Whether the tables of the section are well formed. Every section
    /// that `section` reads is.
    pub open spec fn well_formed(self) -> bool {
        match self {
            Section::EventsHeader(_) => true,
            Section::Other { name, settings } => settings.well_formed(),
            Section::Styles(table) => table.well_formed(),
        }
    }

    /// The column names, if this is the schema of the dialogue rows.
    pub fn as_event_header(&self) -> (r: Option<&Vec<String>>)
        ensures
            match *self {
                Section::EventsHeader(names) => r == Some(&names),
                _ => r is None,
            },
    {
        match self {
            Section::EventsHeader(names) => Some(names),
            _ => None,
        }
    }

    /// The table of styles, if this is the section of styles.
    pub fn as_styles(&self) -> (r: Option<&Table<Style>>)
        ensures
            match *self {
                Section::Styles(table) => r == Some(&table),
                _ => r is None,
            },
    {
        match self {
            Section::Styles(table) => Some(table),
            _ => None,
        }
    }

    /// The name and the table of settings, if this is a section of settings.
    pub fn as_settings(&self) -> (r: Option<(&String, &Table<String>)>)
        ensures
            match *self {
                Section::Other { name, settings } => r == Some((&name, &settings)),
                _ => r is None,
            },
    {
        match self {
            Section::Other { name, settings } => Some((name, settings)),
            _ => None,
        }
    }
}

/// What follows the header of the section of styles, and how long it is:
/// the schema, whitespace, and the style rows, which make a table.
pub open spec fn spec_styles_body(s: Seq<char>) -> Result<(SectionModel, int), Fault> {
    match spec_format(s) {
        None => Err(Fault { kind: ErrorKind::MissingFormat, offset: 0 }),
        Some((schema, f)) => {
            let w = run_len(s.skip(f), CharClass::Whitespace);
            match spec_style_rows(s.skip(f + w), schema) {
                Err(e) => Err(e.shifted(f + w)),
                Ok((rows, n)) => Ok((SectionModel::Styles(spec_style_table(rows)), f + w + n)),
            }
        },
    }
}

/// What follows the header of the section of events, and how long it is:
/// the schema of the dialogue rows.
pub open spec fn spec_events_body(s: Seq<char>) -> Result<(SectionModel, int), Fault> {
    match spec_format(s) {
        None => Err(Fault { kind: ErrorKind::MissingFormat, offset: 0 }),
        Some((schema, f)) => Ok((SectionModel::EventsHeader(schema), f)),
    }
}

/// What follows the header of a section of settings named `name`, and how
/// long it is: a line end, and lines of settings.
pub open spec fn spec_settings_body(s: Seq<char>, name: Seq<char>) -> Result<
    (SectionModel, int),
    Fault,
> {
    match spec_line_ending(s) {
        None => Err(Fault { kind: ErrorKind::MissingLineEnd, offset: 0 }),
        Some(e) => Ok(
            (
                SectionModel::Other { name, settings: spec_settings(s.skip(e)).0 },
                e + spec_settings(s.skip(e)).1,
            ),
        ),
    }
}

/// What follows a header of `h` characters, seen from the start of the
/// header.
pub open spec fn spec_after_header(h: int, body: Result<(SectionModel, int), Fault>) -> Result<
    (SectionModel, int),
    Fault,
> {
    match body {
        Ok((section, n)) => Ok((section, h + n)),
        Err(e) => Err(e.shifted(h)),
    }
}

/// The section at the start of `s`, and how long it is.
///
/// After the header `[V4+ Styles]` come the schema and the style rows,
/// which make a table; after `[Events]` comes the schema alone; after any
/// other header come a line end and lines of settings. A missing header, a
/// missing schema and a missing line end are structural failures, each at
/// the place where the missing thing should stand.
pub open spec fn spec_section(s: Seq<char>) -> Result<(SectionModel, int), Fault> {
    match spec_header(s) {
        None => Err(Fault { kind: ErrorKind::MalformedHeader, offset: 0 }),
        Some((name, h)) => spec_after_header(
            h,
            if name == "V4+ Styles"@ {
                spec_styles_body(s.skip(h))
            } else if name == "Events"@ {
                spec_events_body(s.skip(h))
            } else {
                spec_settings_body(s.skip(h), name)
            },
        ),
    }
}

fn names_of(items: &Vec<Vec<char>>) -> (r: Vec<String>)
    ensures
        r.deep_view() == items.deep_view(),
{
    let mut out: Vec<String> = Vec::new();
    let mut i: usize = 0;
    while i < items.len()
        invariant
            i <= items.len(),
            out.len() == i,
            forall|k: int| 0 <= k < i ==> (#[trigger] out@[k])@ == items@[k]@,
        decreases items.len() - i,
    {
        out.push(to_text(items[i].as_slice()));
        i = i + 1;
    }
    assert(out.deep_view() =~= items.deep_view()) by {
        assert forall|k: int| 0 <= k < out.len() implies out.deep_view()[k] == items.deep_view()[k] by {
            assert(out@[k]@ == items@[k]@);
            assert(items@[k].deep_view() =~= items@[k]@);
        }
    }
    out
}

fn styles_body(input: &[char]) -> (r: Result<(Section, usize), ParseError>)
    ensures
        outcome(r) == spec_styles_body(input@),
        r matches Ok((found, n)) ==> n <= input.len() && found.well_formed(),
        r matches Err(e) ==> e.offset <= input.len(),
{
    let (schema, f) = match format(input) {
        Some(found) => found,
        None => {
            return Err(ParseError { kind: ErrorKind::MissingFormat, offset: 0 });
        },
    };
    let rows_at = tail(input, f);
    let w = run(rows_at, CharClass::Whitespace);
    assert(rows_at@.skip(w as int) =~= input@.skip(f + w));
    match style_rows(tail(rows_at, w), &schema) {
        Err(e) => Err(ParseError { kind: e.kind, offset: e.offset + f + w }),
        Ok((table, m)) => Ok((Section::Styles(table), f + w + m)),
    }
}

fn events_body(input: &[char]) -> (r: Result<(Section, usize), ParseError>)
    ensures
        outcome(r) == spec_events_body(input@),
        r matches Ok((found, n)) ==> n <= input.len() && found.well_formed(),
        r matches Err(e) ==> e.offset <= input.len(),
{
    match format(input) {
        Some((schema, f)) => Ok((Section::EventsHeader(names_of(&schema)), f)),
        None => Err(ParseError { kind: ErrorKind::MissingFormat, offset: 0 }),
    }
}

fn settings_body(input: &[char], name: &[char]) -> (r: Result<(Section, usize), ParseError>)
    ensures
        outcome(r) == spec_settings_body(input@, name@),
        r matches Ok((found, n)) ==> n <= input.len() && found.well_formed(),
        r matches Err(e) ==> e.offset <= input.len(),
{
    match line_ending(input) {
        None => Err(ParseError { kind: ErrorKind::MissingLineEnd, offset: 0 }),
        Some(e) => {
            let (table, m) = settings(tail(input, e));
            Ok((Section::Other { name: to_text(name), settings: table }, e + m))
        },
    }
}

/// Reads one section of a document.
pub fn section(input: &[char]) -> (r: Result<(Section, usize), ParseError>)
    ensures
        outcome(r) == spec_section(input@),
        r matches Ok((found, n)) ==> n <= input.len() && found.well_formed(),
        r matches Err(e) ==> e.offset <= input.len(),
{
    let (n, h) = match header(input) {
        Some(found) => found,
        None => {
            return Err(ParseError { kind: ErrorKind::MalformedHeader, offset: 0 });
        },
    };
    let name = span(input, 1, 1 + n);
    let after = tail(input, h);
    let body = if is_text(name, "V4+ Styles") {
        styles_body(after)
    } else if is_text(name, "Events") {
        events_body(after)
    } else {
        settings_body(after, name)
    };
    match body {
        Ok((found, m)) => Ok((found, h + m)),
        Err(e) => Err(ParseError { kind: e.kind, offset: e.offset + h }),
    }
}

/// Determinism: two readings of the same input give the same section, of
/// the same length, or the same failure.
pub proof fn lemma_section_deterministic(
    input: Seq<char>,
    first: Result<(Section, usize), ParseError>,
    second: Result<(Section, usize), ParseError>,
)
    requires
        outcome(first) == spec_section(input),
        outcome(second) == spec_section(input),
    ensures
        outcome(first) == outcome(second),
{
}

/// Style rows lie within the input.
pub proof fn lemma_more_style_rows_bounds(s: Seq<char>, schema: Seq<Seq<char>>)
    ensures
        spec_more_style_rows(s, schema) matches Ok((_, n)) ==> 0 <= n <= s.len(),
    decreases s.len(),
{
    if let Some(e) = spec_line_ending(s) {
        lemma_labelled_list_bounds(s.skip(e), "Style:"@);
        if let Some((cells, n)) = spec_labelled_list(s.skip(e), "Style:"@) {
            if spec_style_row(schema, all_present(cells)) is Some {
                lemma_more_style_rows_bounds(s.skip(e + n), schema);
            }
        }
    }
}

/// Lines of settings lie within the input.
pub proof fn lemma_settings_bounds(s: Seq<char>, so_far: Map<Seq<char>, Seq<char>>)
    ensures
        0 <= spec_settings_into(s, so_far).1 <= s.len(),
    decreases s.len(),
{
    lemma_setting_bounds(s);
    if let Some((line, n)) = spec_setting(s) {
        let next = match line {
            SettingLine::Comment => so_far,
            SettingLine::Setting(key, value) => so_far.insert(key, value),
        };
        lemma_settings_bounds(s.skip(n), next);
    }
}

/// A section is not empty and lies within the input.
pub proof fn lemma_section_bounds(s: Seq<char>)
    ensures
        spec_section(s) matches Ok((_, n)) ==> 0 < n <= s.len(),
{
    lemma_run_len_bounds(s.skip(1), CharClass::Except(']', ']', ']'));
    if let Some((name, h)) = spec_header(s) {
        let body = s.skip(h);
        lemma_run_len_bounds(body, CharClass::Whitespace);
        let w0 = run_len(body, CharClass::Whitespace);
        lemma_labelled_list_bounds(body.skip(w0), "Format:"@);
        if let Some((schema, f)) = spec_format(body) {
            lemma_run_len_bounds(body.skip(f), CharClass::Whitespace);
            let w = run_len(body.skip(f), CharClass::Whitespace);
            let rows_at = body.skip(f + w);
            lemma_labelled_list_bounds(rows_at, "Style:"@);
            if let Some((cells, n)) = spec_labelled_list(rows_at, "Style:"@) {
                lemma_more_style_rows_bounds(rows_at.skip(n), schema);
            }
        }
        if let Some(e) = spec_line_ending(body) {
            lemma_settings_bounds(body.skip(e), Map::empty());
        }
    }
}

} // verus!
