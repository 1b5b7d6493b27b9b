//! Styles: named formatting profiles, read from rows under a schema.

use crate::color::{full_color, spec_full_color, Color};
use crate::number::{spec_unsigned, spec_whole_number, unsigned, Number};
use crate::row::{
    lemma_cell_reordered, names_fields_once, reordered, spec_cell, spec_cell_below, spec_columns,
};
use crate::scan::{is_text, to_text};
use vstd::prelude::*;

verus! {

/// A named formatting profile. What a row does not give is absent, never a
/// zero taken for a value.
#[derive(Debug, PartialEq, Eq)]
pub struct Style {
    pub name: String,
    pub fontname: String,
    pub fontsize: usize,
    pub primary_color: Option<Color>,
    pub secondary_color: Option<Color>,
    pub outline_color: Option<Color>,
    pub back_color: Option<Color>,
    pub bold: Option<bool>,
    pub italic: Option<bool>,
    pub underline: Option<bool>,
    pub strikeout: Option<bool>,
    pub scale_x: Option<usize>,
    pub scale_y: Option<usize>,
    pub spacing: Option<usize>,
    pub angle: Option<Number>,
    pub border_style: Option<usize>,
    pub outline_size: Option<usize>,
    pub shadow: Option<usize>,
    pub alignment: Option<usize>,
    pub margin_l: Option<usize>,
    pub margin_r: Option<usize>,
    pub margin_v: Option<usize>,
    pub encoding: Option<usize>,
}

/// What a style is, with its texts as characters.
pub struct StyleModel {
    pub name: Seq<char>,
    pub fontname: Seq<char>,
    pub fontsize: usize,
    pub primary_color: Option<Color>,
    pub secondary_color: Option<Color>,
    pub outline_color: Option<Color>,
    pub back_color: Option<Color>,
    pub bold: Option<bool>,
    pub italic: Option<bool>,
    pub underline: Option<bool>,
    pub strikeout: Option<bool>,
    pub scale_x: Option<usize>,
    pub scale_y: Option<usize>,
    pub spacing: Option<usize>,
    pub angle: Option<Seq<char>>,
    pub border_style: Option<usize>,
    pub outline_size: Option<usize>,
    pub shadow: Option<usize>,
    pub alignment: Option<usize>,
    pub margin_l: Option<usize>,
    pub margin_r: Option<usize>,
    pub margin_v: Option<usize>,
    pub encoding: Option<usize>,
}

impl DeepView for Style {
    type V = StyleModel;

    open spec fn deep_view(&self) -> StyleModel {
        StyleModel {
            name: self.name@,
            fontname: self.fontname@,
            fontsize: self.fontsize,
            primary_color: self.primary_color,
            secondary_color: self.secondary_color,
            outline_color: self.outline_color,
            back_color: self.back_color,
            bold: self.bold,
            italic: self.italic,
            underline: self.underline,
            strikeout: self.strikeout,
            scale_x: self.scale_x,
            scale_y: self.scale_y,
            spacing: self.spacing,
            angle: self.angle.deep_view(),
            border_style: self.border_style,
            outline_size: self.outline_size,
            shadow: self.shadow,
            alignment: self.alignment,
            margin_l: self.margin_l,
            margin_r: self.margin_r,
            margin_v: self.margin_v,
            encoding: self.encoding,
        }
    }
}

impl Clone for Style {
    fn clone(&self) -> (r: Style)
        ensures
            r.deep_view() == self.deep_view(),
    {
        Style {
            name: self.name.clone(),
            fontname: self.fontname.clone(),
            fontsize: self.fontsize,
            primary_color: self.primary_color,
            secondary_color: self.secondary_color,
            outline_color: self.outline_color,
            back_color: self.back_color,
            bold: self.bold,
            italic: self.italic,
            underline: self.underline,
            strikeout: self.strikeout,
            scale_x: self.scale_x,
            scale_y: self.scale_y,
            spacing: self.spacing,
            angle: match &self.angle {
                Some(angle) => Some(angle.clone()),
                None => None,
            },
            border_style: self.border_style,
            outline_size: self.outline_size,
            shadow: self.shadow,
            alignment: self.alignment,
            margin_l: self.margin_l,
            margin_r: self.margin_r,
            margin_v: self.margin_v,
            encoding: self.encoding,
        }
    }
}

impl Style {
    /// The style that no row has given anything yet.
    pub fn new() -> (r: Style)
        ensures
            r.deep_view() == spec_style_below(Seq::empty(), Seq::empty(), 0),
    {
        reveal(spec_style_below);
        Style {
            name: String::new(),
            fontname: String::new(),
            fontsize: 0,
            primary_color: None,
            secondary_color: None,
            outline_color: None,
            back_color: None,
            bold: None,
            italic: None,
            underline: None,
            strikeout: None,
            scale_x: None,
            scale_y: None,
            spacing: None,
            angle: None,
            border_style: None,
            outline_size: None,
            shadow: None,
            alignment: None,
            margin_l: None,
            margin_r: None,
            margin_v: None,
            encoding: None,
        }
    }
}

/// The fields of a style that a column can stand for.
#[derive(Clone, Copy, Debug, PartialEq, Eq)]
pub enum StyleField {
    Name,
    Fontname,
    Fontsize,
    PrimaryColour,
    SecondaryColour,
    OutlineColour,
    BackColour,
    Bold,
    Italic,
    Underline,
    StrikeOut,
    ScaleX,
    ScaleY,
    Spacing,
    Angle,
    BorderStyle,
    Outline,
    Shadow,
    Alignment,
    MarginL,
    MarginR,
    MarginV,
    Encoding,
}

/// How many fields a column can stand for.
pub const STYLE_FIELDS: usize = 23;

/// The fields in the order in which their names are compared.
pub open spec fn spec_style_field_at(i: int) -> StyleField {
    if i == 0 {
        StyleField::Name
    } else if i == 1 {
        StyleField::Fontname
    } else if i == 2 {
        StyleField::Fontsize
    } else if i == 3 {
        StyleField::PrimaryColour
    } else if i == 4 {
        StyleField::SecondaryColour
    } else if i == 5 {
        StyleField::OutlineColour
    } else if i == 6 {
        StyleField::BackColour
    } else if i == 7 {
        StyleField::Bold
    } else if i == 8 {
        StyleField::Italic
    } else if i == 9 {
        StyleField::Underline
    } else if i == 10 {
        StyleField::StrikeOut
    } else if i == 11 {
        StyleField::ScaleX
    } else if i == 12 {
        StyleField::ScaleY
    } else if i == 13 {
        StyleField::Spacing
    } else if i == 14 {
        StyleField::Angle
    } else if i == 15 {
        StyleField::BorderStyle
    } else if i == 16 {
        StyleField::Outline
    } else if i == 17 {
        StyleField::Shadow
    } else if i == 18 {
        StyleField::Alignment
    } else if i == 19 {
        StyleField::MarginL
    } else if i == 20 {
        StyleField::MarginR
    } else if i == 21 {
        StyleField::MarginV
    } else {
        StyleField::Encoding
    }
}

fn style_field_at(i: usize) -> (r: StyleField)
    ensures
        r == spec_style_field_at(i as int),
{
    if i == 0 {
        StyleField::Name
    } else if i == 1 {
        StyleField::Fontname
    } else if i == 2 {
        StyleField::Fontsize
    } else if i == 3 {
        StyleField::PrimaryColour
    } else if i == 4 {
        StyleField::SecondaryColour
    } else if i == 5 {
        StyleField::OutlineColour
    } else if i == 6 {
        StyleField::BackColour
    } else if i == 7 {
        StyleField::Bold
    } else if i == 8 {
        StyleField::Italic
    } else if i == 9 {
        StyleField::Underline
    } else if i == 10 {
        StyleField::StrikeOut
    } else if i == 11 {
        StyleField::ScaleX
    } else if i == 12 {
        StyleField::ScaleY
    } else if i == 13 {
        StyleField::Spacing
    } else if i == 14 {
        StyleField::Angle
    } else if i == 15 {
        StyleField::BorderStyle
    } else if i == 16 {
        StyleField::Outline
    } else if i == 17 {
        StyleField::Shadow
    } else if i == 18 {
        StyleField::Alignment
    } else if i == 19 {
        StyleField::MarginL
    } else if i == 20 {
        StyleField::MarginR
    } else if i == 21 {
        StyleField::MarginV
    } else {
        StyleField::Encoding
    }
}

impl StyleField {
    /// The column name that stands for the field.
    pub open spec fn spec_name(self) -> Seq<char> {
        match self {
            StyleField::Name => "Name"@,
            StyleField::Fontname => "Fontname"@,
            StyleField::Fontsize => "Fontsize"@,
            StyleField::PrimaryColour => "PrimaryColour"@,
            StyleField::SecondaryColour => "SecondaryColour"@,
            StyleField::OutlineColour => "OutlineColour"@,
            StyleField::BackColour => "BackColour"@,
            StyleField::Bold => "Bold"@,
            StyleField::Italic => "Italic"@,
            StyleField::Underline => "Underline"@,
            StyleField::StrikeOut => "StrikeOut"@,
            StyleField::ScaleX => "ScaleX"@,
            StyleField::ScaleY => "ScaleY"@,
            StyleField::Spacing => "Spacing"@,
            StyleField::Angle => "Angle"@,
            StyleField::BorderStyle => "BorderStyle"@,
            StyleField::Outline => "Outline"@,
            StyleField::Shadow => "Shadow"@,
            StyleField::Alignment => "Alignment"@,
            StyleField::MarginL => "MarginL"@,
            StyleField::MarginR => "MarginR"@,
            StyleField::MarginV => "MarginV"@,
            StyleField::Encoding => "Encoding"@,
        }
    }

    /// The column name that stands for the field.
    pub fn name(&self) -> (r: &'static str)
        ensures
            r@ == self.spec_name(),
    {
        match self {
            StyleField::Name => "Name",
            StyleField::Fontname => "Fontname",
            StyleField::Fontsize => "Fontsize",
            StyleField::PrimaryColour => "PrimaryColour",
            StyleField::SecondaryColour => "SecondaryColour",
            StyleField::OutlineColour => "OutlineColour",
            StyleField::BackColour => "BackColour",
            StyleField::Bold => "Bold",
            StyleField::Italic => "Italic",
            StyleField::Underline => "Underline",
            StyleField::StrikeOut => "StrikeOut",
            StyleField::ScaleX => "ScaleX",
            StyleField::ScaleY => "ScaleY",
            StyleField::Spacing => "Spacing",
            StyleField::Angle => "Angle",
            StyleField::BorderStyle => "BorderStyle",
            StyleField::Outline => "Outline",
            StyleField::Shadow => "Shadow",
            StyleField::Alignment => "Alignment",
            StyleField::MarginL => "MarginL",
            StyleField::MarginR => "MarginR",
            StyleField::MarginV => "MarginV",
            StyleField::Encoding => "Encoding",
        }
    }
}

/// The field, among those from the `i`-th on, that the column name `name`
/// stands for.
pub open spec fn spec_style_field_from(name: Seq<char>, i: int) -> Option<StyleField>
    decreases STYLE_FIELDS - i,
{
    if 0 <= i < STYLE_FIELDS {
        if name == spec_style_field_at(i).spec_name() {
            Some(spec_style_field_at(i))
        } else {
            spec_style_field_from(name, i + 1)
        }
    } else {
        None
    }
}

/// The field that the column name `name` stands for. A name that stands for
/// none is no error: its column is passed over.
pub open spec fn spec_style_field(name: Seq<char>) -> Option<StyleField> {
    spec_style_field_from(name, 0)
}

/// The lookup from column names to the fields of a style.
pub open spec fn style_fields() -> spec_fn(Seq<char>) -> Option<StyleField> {
    |name: Seq<char>| spec_style_field(name)
}

/// Finds the field that a column name stands for.
pub fn style_field(name: &[char]) -> (r: Option<StyleField>)
    ensures
        r == spec_style_field(name@),
{
    let mut i: usize = 0;
    while i < STYLE_FIELDS
        invariant
            i <= STYLE_FIELDS,
            spec_style_field(name@) == spec_style_field_from(name@, i as int),
        decreases STYLE_FIELDS - i,
    {
        let field = style_field_at(i);
        if is_text(name, field.name()) {
            return Some(field);
        }
        i = i + 1;
    }
    None
}

/// The text of a cell, empty where there is none.
pub open spec fn spec_text(cell: Option<Seq<char>>) -> Seq<char> {
    match cell {
        Some(v) => v,
        None => Seq::empty(),
    }
}

/// The size that a cell writes, 0 where there is none or it writes none.
pub open spec fn spec_size(cell: Option<Seq<char>>) -> usize {
    match spec_count(cell) {
        Some(n) => n,
        None => 0,
    }
}

/// The count that a cell writes, if it writes one.
pub open spec fn spec_count(cell: Option<Seq<char>>) -> Option<usize> {
    match cell {
        Some(v) => spec_unsigned(v),
        None => None,
    }
}

/// The colour that a cell begins with, if it begins with one written in
/// full.
pub open spec fn spec_colour(cell: Option<Seq<char>>) -> Option<Color> {
    match cell {
        Some(v) => match spec_full_color(v) {
            Some((color, _)) => Some(color),
            None => None,
        },
        None => None,
    }
}

/// The toggle that a cell writes: on for `-1`, off for anything else.
pub open spec fn spec_toggle(cell: Option<Seq<char>>) -> Option<bool> {
    match cell {
        Some(v) => Some(v == "-1"@),
        None => None,
    }
}

/// The number that a cell writes, if the whole of it is a numeric literal.
pub open spec fn spec_angle(cell: Option<Seq<char>>) -> Option<Seq<char>> {
    match cell {
        Some(v) => if spec_whole_number(v) {
            Some(v)
        } else {
            None
        },
        None => None,
    }
}

/// The style that the first `upto` columns of a row make.
#[verifier::opaque]
pub open spec fn spec_style_below(
    schema: Seq<Seq<char>>,
    cells: Seq<Option<Seq<char>>>,
    upto: int,
) -> StyleModel {
    StyleModel {
        name: spec_text(spec_cell_below(schema, cells, style_fields(), StyleField::Name, upto)),
        fontname: spec_text(
            spec_cell_below(schema, cells, style_fields(), StyleField::Fontname, upto),
        ),
        fontsize: spec_size(
            spec_cell_below(schema, cells, style_fields(), StyleField::Fontsize, upto),
        ),
        primary_color: spec_colour(
            spec_cell_below(schema, cells, style_fields(), StyleField::PrimaryColour, upto),
        ),
        secondary_color: spec_colour(
            spec_cell_below(schema, cells, style_fields(), StyleField::SecondaryColour, upto),
        ),
        outline_color: spec_colour(
            spec_cell_below(schema, cells, style_fields(), StyleField::OutlineColour, upto),
        ),
        back_color: spec_colour(
            spec_cell_below(schema, cells, style_fields(), StyleField::BackColour, upto),
        ),
        bold: spec_toggle(spec_cell_below(schema, cells, style_fields(), StyleField::Bold, upto)),
        italic: spec_toggle(
            spec_cell_below(schema, cells, style_fields(), StyleField::Italic, upto),
        ),
        underline: spec_toggle(
            spec_cell_below(schema, cells, style_fields(), StyleField::Underline, upto),
        ),
        strikeout: spec_toggle(
            spec_cell_below(schema, cells, style_fields(), StyleField::StrikeOut, upto),
        ),
        scale_x: spec_count(spec_cell_below(schema, cells, style_fields(), StyleField::ScaleX, upto)),
        scale_y: spec_count(spec_cell_below(schema, cells, style_fields(), StyleField::ScaleY, upto)),
        spacing: spec_count(
            spec_cell_below(schema, cells, style_fields(), StyleField::Spacing, upto),
        ),
        angle: spec_angle(spec_cell_below(schema, cells, style_fields(), StyleField::Angle, upto)),
        border_style: spec_count(
            spec_cell_below(schema, cells, style_fields(), StyleField::BorderStyle, upto),
        ),
        outline_size: spec_count(
            spec_cell_below(schema, cells, style_fields(), StyleField::Outline, upto),
        ),
        shadow: spec_count(spec_cell_below(schema, cells, style_fields(), StyleField::Shadow, upto)),
        alignment: spec_count(
            spec_cell_below(schema, cells, style_fields(), StyleField::Alignment, upto),
        ),
        margin_l: spec_count(
            spec_cell_below(schema, cells, style_fields(), StyleField::MarginL, upto),
        ),
        margin_r: spec_count(
            spec_cell_below(schema, cells, style_fields(), StyleField::MarginR, upto),
        ),
        margin_v: spec_count(
            spec_cell_below(schema, cells, style_fields(), StyleField::MarginV, upto),
        ),
        encoding: spec_count(
            spec_cell_below(schema, cells, style_fields(), StyleField::Encoding, upto),
        ),
    }
}

/// The style that a row makes under a schema: each field from the cell of
/// the column that stands for it. There is none where no column gives the
/// style a name.
pub open spec fn spec_style_row(schema: Seq<Seq<char>>, cells: Seq<Option<Seq<char>>>) -> Option<
    StyleModel,
> {
    if spec_cell(schema, cells, style_fields(), StyleField::Name) is Some {
        Some(spec_style_below(schema, cells, spec_columns(schema, cells)))
    } else {
        None
    }
}

/// The cells of a row that has none empty.
pub open spec fn all_present(cells: Seq<Seq<char>>) -> Seq<Option<Seq<char>>> {
    Seq::new(cells.len(), |i: int| Some(cells[i]))
}

/// The style `style` with the cell `v` put into `field`.
pub open spec fn spec_set(style: StyleModel, field: StyleField, v: Seq<char>) -> StyleModel {
    let cell = Some(v);
    match field {
        StyleField::Name => StyleModel { name: v, ..style },
        StyleField::Fontname => StyleModel { fontname: v, ..style },
        StyleField::Fontsize => StyleModel { fontsize: spec_size(cell), ..style },
        StyleField::PrimaryColour => StyleModel { primary_color: spec_colour(cell), ..style },
        StyleField::SecondaryColour => StyleModel { secondary_color: spec_colour(cell), ..style },
        StyleField::OutlineColour => StyleModel { outline_color: spec_colour(cell), ..style },
        StyleField::BackColour => StyleModel { back_color: spec_colour(cell), ..style },
        StyleField::Bold => StyleModel { bold: spec_toggle(cell), ..style },
        StyleField::Italic => StyleModel { italic: spec_toggle(cell), ..style },
        StyleField::Underline => StyleModel { underline: spec_toggle(cell), ..style },
        StyleField::StrikeOut => StyleModel { strikeout: spec_toggle(cell), ..style },
        StyleField::ScaleX => StyleModel { scale_x: spec_count(cell), ..style },
        StyleField::ScaleY => StyleModel { scale_y: spec_count(cell), ..style },
        StyleField::Spacing => StyleModel { spacing: spec_count(cell), ..style },
        StyleField::Angle => StyleModel { angle: spec_angle(cell), ..style },
        StyleField::BorderStyle => StyleModel { border_style: spec_count(cell), ..style },
        StyleField::Outline => StyleModel { outline_size: spec_count(cell), ..style },
        StyleField::Shadow => StyleModel { shadow: spec_count(cell), ..style },
        StyleField::Alignment => StyleModel { alignment: spec_count(cell), ..style },
        StyleField::MarginL => StyleModel { margin_l: spec_count(cell), ..style },
        StyleField::MarginR => StyleModel { margin_r: spec_count(cell), ..style },
        StyleField::MarginV => StyleModel { margin_v: spec_count(cell), ..style },
        StyleField::Encoding => StyleModel { encoding: spec_count(cell), ..style },
    }
}

/// Taking one more column into account puts its cell into the field that
/// its name stands for, and changes nothing where it stands for none.
#[verifier::rlimit(60)]
pub proof fn lemma_style_step(schema: Seq<Seq<char>>, cells: Seq<Option<Seq<char>>>, i: int)
    requires
        0 <= i < schema.len(),
        i < cells.len(),
    ensures
        spec_style_below(schema, cells, i + 1) == match (spec_style_field(schema[i]), cells[i]) {
            (Some(field), Some(v)) => spec_set(spec_style_below(schema, cells, i), field, v),
            _ => spec_style_below(schema, cells, i),
        },
{
    reveal(spec_style_below);
    let which = style_fields();
    assert(which(schema[i]) == spec_style_field(schema[i]));
}

/// Before any column is taken into account, every row makes the same style.
pub proof fn lemma_style_start(schema: Seq<Seq<char>>, cells: Seq<Option<Seq<char>>>)
    ensures
        spec_style_below(schema, cells, 0) == spec_style_below(Seq::empty(), Seq::empty(), 0),
{
    reveal(spec_style_below);
}

/// Puts the cell `cell` into `field`.
#[verifier::rlimit(40)]
fn set(style: &mut Style, field: StyleField, cell: &[char])
    ensures
        final(style).deep_view() == spec_set(old(style).deep_view(), field, cell@),
{
    proof {
        reveal_strlit("-1");
    }
    match field {
        StyleField::Name => { style.name = to_text(cell); },
        StyleField::Fontname => { style.fontname = to_text(cell); },
        StyleField::Fontsize => {
            style.fontsize = match unsigned(cell) {
                Some(n) => n,
                None => 0,
            };
        },
        StyleField::PrimaryColour => { style.primary_color = colour(cell); },
        StyleField::SecondaryColour => { style.secondary_color = colour(cell); },
        StyleField::OutlineColour => { style.outline_color = colour(cell); },
        StyleField::BackColour => { style.back_color = colour(cell); },
        StyleField::Bold => { style.bold = Some(is_text(cell, "-1")); },
        StyleField::Italic => { style.italic = Some(is_text(cell, "-1")); },
        StyleField::Underline => { style.underline = Some(is_text(cell, "-1")); },
        StyleField::StrikeOut => { style.strikeout = Some(is_text(cell, "-1")); },
        StyleField::ScaleX => { style.scale_x = unsigned(cell); },
        StyleField::ScaleY => { style.scale_y = unsigned(cell); },
        StyleField::Spacing => { style.spacing = unsigned(cell); },
        StyleField::Angle => { style.angle = Number::exact(cell); },
        StyleField::BorderStyle => { style.border_style = unsigned(cell); },
        StyleField::Outline => { style.outline_size = unsigned(cell); },
        StyleField::Shadow => { style.shadow = unsigned(cell); },
        StyleField::Alignment => { style.alignment = unsigned(cell); },
        StyleField::MarginL => { style.margin_l = unsigned(cell); },
        StyleField::MarginR => { style.margin_r = unsigned(cell); },
        StyleField::MarginV => { style.margin_v = unsigned(cell); },
        StyleField::Encoding => { style.encoding = unsigned(cell); },
    }
}

fn colour(cell: &[char]) -> (r: Option<Color>)
    ensures
        r == spec_colour(Some(cell@)),
{
    match full_color(cell) {
        Some((color, _)) => Some(color),
        None => None,
    }
}

/// Makes a style of a row, each cell going to the field that the name of
/// its column stands for.
#[verifier::rlimit(40)]
pub fn style_row(schema: &Vec<Vec<char>>, cells: &Vec<Vec<char>>) -> (r: Option<Style>)
    ensures
        r.deep_view() == spec_style_row(schema.deep_view(), all_present(cells.deep_view())),
{
    let ghost names = schema.deep_view();
    let ghost row = all_present(cells.deep_view());
    let columns = if schema.len() <= cells.len() {
        schema.len()
    } else {
        cells.len()
    };
    let mut style = Style::new();
    proof {
        lemma_style_start(names, row);
    }
    let mut named = false;
    let mut i: usize = 0;
    while i < columns
        invariant
            i <= columns,
            columns == spec_columns(names, row),
            names == schema.deep_view(),
            row == all_present(cells.deep_view()),
            style.deep_view() == spec_style_below(names, row, i as int),
            named == (spec_cell_below(names, row, style_fields(), StyleField::Name, i as int)
                is Some),
        decreases columns - i,
    {
        proof {
            lemma_style_step(names, row, i as int);
            let which = style_fields();
            assert(which(names[i as int]) == spec_style_field(names[i as int]));
            assert(names[i as int] == schema@[i as int]@);
            assert(row[i as int] == Some(cells@[i as int]@));
        }
        match style_field(schema[i].as_slice()) {
            Some(field) => {
                set(&mut style, field, cells[i].as_slice());
                match field {
                    StyleField::Name => { named = true; },
                    _ => {},
                }
            },
            None => {},
        }
        i = i + 1;
    }
    if named {
        Some(style)
    } else {
        None
    }
}

/// Schema independence: where no two columns stand for the same field,
/// putting the columns of the schema in another order, and the cells of
/// each row with them, leaves the style that the row makes as it was.
#[verifier::rlimit(40)]
pub proof fn lemma_style_row_reordered(
    schema: Seq<Seq<char>>,
    cells: Seq<Option<Seq<char>>>,
    schema2: Seq<Seq<char>>,
    cells2: Seq<Option<Seq<char>>>,
    to: Seq<int>,
    back: Seq<int>,
)
    requires
        reordered(schema, cells, schema2, cells2, to, back),
        names_fields_once(schema, style_fields()),
    ensures
        spec_style_row(schema2, cells2) == spec_style_row(schema, cells),
{
    reveal(spec_style_below);
    let which = style_fields();
    assert forall|field: StyleField|
        spec_cell_below(schema2, cells2, which, field, spec_columns(schema2, cells2))
            == #[trigger] spec_cell_below(schema, cells, which, field, spec_columns(schema, cells)) by {
        lemma_cell_reordered(schema, cells, schema2, cells2, to, back, which, field);
    }
}

} // verus!
