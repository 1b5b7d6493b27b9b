use substation::color::Color;
use substation::document::{line_list, section, settings, style_rows, Section};
use substation::entry::{entry_field, entry_row, fields, subtitle, Entry, EntryField};
use substation::error::{ErrorKind, ParseError};
use substation::line::TextSection;
use substation::number::Number;
use substation::scan::to_chars;
use substation::style::{style_field, style_row, Style, StyleField};
use substation::subrip;
use substation::tags::StyleOverride;
use substation::time::Millis;

fn rc(text: &str) -> Vec<char> {
    to_chars(text)
}

fn cells_of(row: &[&str]) -> Vec<Vec<char>> {
    row.iter().map(|cell| to_chars(cell)).collect()
}

fn names_of(row: &[&str]) -> Vec<String> {
    row.iter().map(|name| name.to_string()).collect()
}

#[test]
fn style_fields_by_name() {
    assert_eq!(style_field(&rc("Name")), Some(StyleField::Name));
    assert_eq!(style_field(&rc("PrimaryColour")), Some(StyleField::PrimaryColour));
    assert_eq!(style_field(&rc("StrikeOut")), Some(StyleField::StrikeOut));
    assert_eq!(style_field(&rc("Encoding")), Some(StyleField::Encoding));
    assert_eq!(style_field(&rc("name")), None);
    assert_eq!(style_field(&rc("Name ")), None);
    assert_eq!(style_field(&rc("")), None);
    assert_eq!(entry_field(&rc("Layer")), Some(EntryField::Layer));
    assert_eq!(entry_field(&rc("Effect")), Some(EntryField::Effect));
    assert_eq!(entry_field(&rc("Text")), None);
}

fn sample_style() -> Style {
    let mut style = Style::new();
    style.name = "Default".to_string();
    style.fontname = "Arial".to_string();
    style.fontsize = 20;
    style.primary_color = Some(Color { alpha: Some(0), blue: 0xFF, green: 0xFF, red: 0xFF });
    style.bold = Some(true);
    style.italic = Some(false);
    style.scale_x = Some(100);
    style.angle = Some(Number::new("1.5").unwrap());
    style.margin_l = Some(10);
    style
}

#[test]
fn a_style_row_goes_by_its_schema() {
    let schema = cells_of(&[
        "Name", "Fontname", "Fontsize", "PrimaryColour", "Bold", "Italic", "ScaleX", "Angle",
        "MarginL", "Unknown",
    ]);
    let cells =
        cells_of(&["Default", "Arial", "20", "&H00FFFFFF", "-1", "0", "100", "1.5", "10", "x"]);
    assert_eq!(style_row(&schema, &cells), Some(sample_style()));
}

#[test]
fn reordering_schema_and_row_changes_nothing() {
    let schema = cells_of(&[
        "MarginL", "Angle", "Unknown", "ScaleX", "Italic", "Bold", "PrimaryColour", "Fontsize",
        "Fontname", "Name",
    ]);
    let cells =
        cells_of(&["10", "1.5", "x", "100", "0", "-1", "&H00FFFFFF", "20", "Arial", "Default"]);
    assert_eq!(style_row(&schema, &cells), Some(sample_style()));
}

#[test]
fn a_style_row_degrades_field_by_field() {
    let schema = cells_of(&["Name", "Fontsize", "PrimaryColour", "ScaleX", "Angle", "Bold"]);
    let cells = cells_of(&["S", "big", "red", "-3", "steep", "yes"]);
    let mut expected = Style::new();
    expected.name = "S".to_string();
    expected.bold = Some(false);
    assert_eq!(style_row(&schema, &cells), Some(expected));
}

#[test]
fn a_short_row_leaves_the_rest_absent() {
    let schema = cells_of(&["Name", "Fontname", "Fontsize", "Bold"]);
    let mut expected = Style::new();
    expected.name = "S".to_string();
    expected.fontname = "Arial".to_string();
    assert_eq!(style_row(&schema, &cells_of(&["S", "Arial"])), Some(expected));
    let mut longer = Style::new();
    longer.name = "S".to_string();
    assert_eq!(style_row(&cells_of(&["Name"]), &cells_of(&["S", "Arial", "20"])), Some(longer));
}

#[test]
fn a_style_needs_a_name() {
    assert_eq!(style_row(&cells_of(&["Fontname"]), &cells_of(&["Arial"])), None);
    assert_eq!(style_row(&cells_of(&["Fontname", "Name"]), &cells_of(&["Arial"])), None);
    assert_eq!(style_row(&cells_of(&[]), &cells_of(&[])), None);
}

#[test]
fn the_last_of_two_columns_of_one_name_wins() {
    let schema = cells_of(&["Name", "Bold", "Bold"]);
    let style = style_row(&schema, &cells_of(&["S", "-1", "0"])).unwrap();
    assert_eq!(style.bold, Some(false));
    let style = style_row(&schema, &cells_of(&["S", "0", "-1"])).unwrap();
    assert_eq!(style.bold, Some(true));
}

#[test]
fn line_lists() {
    assert_eq!(line_list(&rc("Name, Fontname,Fontsize\nnext")), (cells_of(&["Name", "Fontname", "Fontsize"]), 23));
    assert_eq!(line_list(&rc("")), (cells_of(&[""]), 0));
    assert_eq!(line_list(&rc("a,,b ,")), (cells_of(&["a", "", "b ", ""]), 6));
    assert_eq!(line_list(&rc(" a\r\n")), (cells_of(&["a"]), 2));
}

const STYLES: &str = "[V4+ Styles]\nFormat: Name, Fontname, Fontsize, Bold\nStyle: Default,Arial,20,-1\nStyle: Alt,Times,18,0\nStyle: Default,Courier,12,0\n\n[Events]\n";

#[test]
fn a_section_of_styles() {
    let (found, n) = section(&rc(STYLES)).unwrap();
    assert_eq!(n, STYLES.len() - "\n\n[Events]\n".len());
    let table = found.as_styles().expect("styles");
    assert_eq!(table.len(), 2);
    let default = table.get("Default").unwrap();
    assert_eq!(default.fontname, "Courier");
    assert_eq!(default.fontsize, 12);
    assert_eq!(default.bold, Some(false));
    assert_eq!(default.italic, None);
    assert_eq!(table.get("Alt").unwrap().fontname, "Times");
    assert!(found.as_event_header().is_none());
    assert!(found.as_settings().is_none());
}

#[test]
fn style_rows_one_to_a_line() {
    let schema = cells_of(&["Name", "Fontsize"]);
    let (table, n) = style_rows(&rc("Style: A,1\r\nStyle: B,2\n\nStyle: C,3"), &schema).unwrap();
    assert_eq!(n, 22);
    assert_eq!(table.len(), 2);
    assert_eq!(table.get("B").unwrap().fontsize, 2);
    let (table, n) = style_rows(&rc("Dialogue: x"), &schema).unwrap();
    assert_eq!((table.len(), n), (0, 0));
    assert_eq!(
        style_rows(&rc("Style: A,1\nStyle: B,2"), &cells_of(&["Fontname"])).err(),
        Some(ParseError { kind: ErrorKind::MissingName, offset: 0 })
    );
    assert_eq!(
        style_rows(&rc("Style: A\nStyle: "), &cells_of(&["Name"])).map(|r| (r.0.len(), r.1)).ok(),
        Some((2, 16))
    );
}

#[test]
fn a_section_of_events() {
    let text = "[Events]\nFormat: Layer, Start, End, Style, Text\nDialogue: 0,0:00:00.00";
    let (found, n) = section(&rc(text)).unwrap();
    assert_eq!(n, 47);
    assert_eq!(
        found.as_event_header(),
        Some(&names_of(&["Layer", "Start", "End", "Style", "Text"]))
    );
}

#[test]
fn a_section_of_settings() {
    let text = "[Script Info]\n; a comment\nTitle: Example\n\n  PlayResX:  640\nTitle: Second\n[Events]\n";
    let (found, n) = section(&rc(text)).unwrap();
    assert_eq!(n, text.len() - "[Events]\n".len());
    let (name, table) = found.as_settings().expect("settings");
    assert_eq!(name, "Script Info");
    assert_eq!(table.len(), 2);
    assert_eq!(table.get("Title"), Some(&"Second".to_string()));
    assert_eq!(table.get("PlayResX"), Some(&"640".to_string()));
}

#[test]
fn settings_stop_where_no_setting_stands() {
    let (table, n) = settings(&rc("a: 1\nno colon here\nb: 2\n"));
    assert_eq!((table.len(), n), (1, 5));
    let (table, n) = settings(&rc("a: 1\nb: 2"));
    assert_eq!((table.len(), n), (1, 5));
    let (table, n) = settings(&rc("\n\n[Next]\n"));
    assert_eq!((table.len(), n), (0, 0));
    let (table, n) = settings(&rc(";only a comment\r\nk:v:w\r\n"));
    assert_eq!(n, 24);
    assert_eq!(table.get("k"), Some(&"v:w".to_string()));
}

#[test]
fn sections_fail_structurally() {
    let fails = |text: &str| section(&rc(text)).err();
    assert_eq!(fails("Events]"), Some(ParseError { kind: ErrorKind::MalformedHeader, offset: 0 }));
    assert_eq!(fails("[Events"), Some(ParseError { kind: ErrorKind::MalformedHeader, offset: 0 }));
    assert_eq!(fails("[]\n"), Some(ParseError { kind: ErrorKind::MalformedHeader, offset: 0 }));
    assert_eq!(fails(""), Some(ParseError { kind: ErrorKind::MalformedHeader, offset: 0 }));
    assert_eq!(
        fails("[Events]\nDialogue: x"),
        Some(ParseError { kind: ErrorKind::MissingFormat, offset: 8 })
    );
    assert_eq!(
        fails("[V4+ Styles]Style: x"),
        Some(ParseError { kind: ErrorKind::MissingFormat, offset: 12 })
    );
    assert_eq!(
        fails("[Script Info] Title: x\n"),
        Some(ParseError { kind: ErrorKind::MissingLineEnd, offset: 13 })
    );
    assert_eq!(
        fails("[V4+ Styles]\nFormat: Fontname\nStyle: Arial\n"),
        Some(ParseError { kind: ErrorKind::MissingName, offset: 30 })
    );
}

#[test]
fn leading_fields() {
    let (cells, n) = fields(&rc("0,,Default,text, with commas"), 9);
    assert_eq!(cells, vec![Some(rc("0")), None, Some(rc("Default")), Some(rc("text"))]);
    assert_eq!(n, 16);
    let (cells, n) = fields(&rc("a,b,c"), 2);
    assert_eq!((cells.len(), n), (2, 4));
    assert_eq!(fields(&rc("no comma"), 9), (vec![], 0));
    assert_eq!(fields(&rc("a,b"), 0), (vec![], 0));
}

fn definition() -> Vec<String> {
    names_of(&[
        "Layer", "Start", "End", "Style", "Name", "MarginL", "MarginR", "MarginV", "Effect", "Text",
    ])
}

#[test]
fn a_dialogue_row() {
    let row = "Dialogue: 0,0:00:01.00,0:00:03.50,Default,Alice,10,20,0030,,{\\i1}Hello, world";
    let entry = subtitle(&rc(row), &definition()).unwrap();
    assert_eq!(
        entry,
        Entry {
            kind: "Dialogue".to_string(),
            layer: Some(0),
            start: Some(Millis(1000)),
            end: Some(Millis(3500)),
            style: Some("Default".to_string()),
            name: Some("Alice".to_string()),
            margin_l: Some(10),
            margin_r: Some(20),
            margin_v: Some(30),
            effect: None,
            read_order: None,
            text: vec![
                TextSection::StyleOverride(vec![StyleOverride::Italic(true)]),
                TextSection::Text("Hello, world".to_string()),
            ],
        }
    );
    assert_eq!(entry.plain_text(), "Hello, world");
}

#[test]
fn a_dialogue_row_under_a_reordered_schema() {
    let first = subtitle(
        &rc("Comment: 0,0:00:01.00,0:00:03.50,Default,text"),
        &names_of(&["Layer", "Start", "End", "Style", "Text"]),
    )
    .unwrap();
    let second = subtitle(
        &rc("Comment: Default,0:00:03.50,0:00:01.00,0,text"),
        &names_of(&["Style", "End", "Start", "Layer", "Text"]),
    )
    .unwrap();
    assert_eq!(first, second);
    assert_eq!(first.kind, "Comment");
    assert_eq!(first.start, Some(Millis(1000)));
}

#[test]
fn a_dialogue_row_degrades_field_by_field() {
    let entry = subtitle(
        &rc("Dialogue: top,soon,0:00:03.50junk,,x,"),
        &names_of(&["Layer", "Start", "End", "Style", "MarginL"]),
    )
    .unwrap();
    assert_eq!(entry.layer, None);
    assert_eq!(entry.start, None);
    assert_eq!(entry.end, Some(Millis(3500)));
    assert_eq!(entry.style, None);
    assert_eq!(entry.margin_l, None);
    assert_eq!(entry.text, vec![]);
    assert_eq!(entry.plain_text(), "");
}

#[test]
fn an_unknown_tag_does_not_fail_the_row() {
    let entry = subtitle(&rc("Dialogue: 0,{\\xyz123}"), &definition()).unwrap();
    assert_eq!(
        entry.text,
        vec![TextSection::StyleOverride(vec![StyleOverride::Other("xyz123".to_string())])]
    );
}

#[test]
fn more_fields_than_names() {
    let entry = subtitle(&rc("Dialogue: 1,2,3,rest"), &names_of(&["Layer"])).unwrap();
    assert_eq!(entry.layer, Some(1));
    assert_eq!(entry.plain_text(), "rest");
}

#[test]
fn dialogue_rows_fail_structurally() {
    let fails = |text: &str| subtitle(&rc(text), &definition()).err();
    assert_eq!(fails("no kind"), Some(ParseError { kind: ErrorKind::MissingKind, offset: 0 }));
    assert_eq!(fails(": 0,x"), Some(ParseError { kind: ErrorKind::MissingKind, offset: 0 }));
    assert_eq!(fails(""), Some(ParseError { kind: ErrorKind::MissingKind, offset: 0 }));
    assert_eq!(
        fails("Dialogue:  no comma"),
        Some(ParseError { kind: ErrorKind::MissingField, offset: 11 })
    );
    assert_eq!(
        fails("Dialogue: 0,text{\\b1"),
        Some(ParseError { kind: ErrorKind::UnterminatedBlock, offset: 16 })
    );
}

#[test]
fn entry_rows_from_cells() {
    let entry = entry_row(
        &names_of(&["Name", "Effect", "Layer"]),
        &vec![Some(rc("Bob")), None, Some(rc("-2"))],
    );
    assert_eq!(entry.name, Some("Bob".to_string()));
    assert_eq!(entry.effect, None);
    assert_eq!(entry.layer, Some(-2));
    assert_eq!(entry.kind, "");
}

#[test]
fn plain_text_joins_the_text_runs() {
    let entry = subtitle(&rc("Dialogue: 0,a{\\b1}b{\\p1}m 0 0{\\p0}c"), &definition()).unwrap();
    assert_eq!(entry.plain_text(), "abc");
}

#[test]
fn a_subrip_record() {
    let text = "\n1\n00:01:02,500 --> 00:01:04,000\nFirst line\nSecond line\n\n2\n";
    let (record, n) = subrip::entry(&rc(text)).unwrap();
    assert_eq!(
        record,
        subrip::Entry {
            index: 1,
            start: Millis(62500),
            end: Millis(64000),
            text: "First line\nSecond line".to_string(),
        }
    );
    assert_eq!(n, text.len() - "\n2\n".len());
}

#[test]
fn subrip_records_in_order() {
    let text = "1\r\n00:00:01,000 --> 00:00:02,000\r\nOne\r\n\r\n2\n00:00:03,000-->00:00:04,000\nTwo\nlines\n\n3\nbroken";
    let (records, n) = subrip::entries(&rc(text));
    assert_eq!(records.len(), 2);
    assert_eq!(records[0].text, "One");
    assert_eq!(records[1].index, 2);
    assert_eq!(records[1].start, Millis(3000));
    assert_eq!(records[1].text, "Two\nlines");
    assert_eq!(n, text.len() - "\n3\nbroken".len());
    assert_eq!(subrip::entries(&rc("")), (vec![], 0));
}

#[test]
fn subrip_records_fail_structurally() {
    let fails = |text: &str| subrip::entry(&rc(text)).err();
    assert_eq!(fails("  x"), Some(ParseError { kind: ErrorKind::MissingIndex, offset: 2 }));
    assert_eq!(fails("1"), Some(ParseError { kind: ErrorKind::MissingIndex, offset: 0 }));
    assert_eq!(fails("4294967296\n"), Some(ParseError { kind: ErrorKind::MissingIndex, offset: 0 }));
    assert_eq!(
        fails("1\n00:00:01.000 --> 00:00:02,000\nx"),
        Some(ParseError { kind: ErrorKind::MissingTimes, offset: 2 })
    );
    assert_eq!(
        fails("1\n00:00:01,000 --> 00:00:02,000\n\nx"),
        Some(ParseError { kind: ErrorKind::MissingText, offset: 32 })
    );
    assert_eq!(
        fails("1\n00:00:01,000 --> 00:00:02,000\nx\rmore"),
        Some(ParseError { kind: ErrorKind::MissingText, offset: 32 })
    );
}

#[test]
fn a_record_may_end_with_the_input() {
    let (record, n) = subrip::entry(&rc("7\n00:00:01,000 --> 00:00:02,000\nlast")).unwrap();
    assert_eq!((record.index, record.text.as_str(), n), (7, "last", 36));
}

#[test]
fn the_section_kind_is_told_by_its_accessors() {
    let (found, _) = section(&rc("[Fonts]\n")).unwrap();
    assert!(matches!(found, Section::Other { .. }));
    let (found, _) = section(&rc("[Events]Format: a")).unwrap();
    assert!(matches!(found, Section::EventsHeader(_)));
}
