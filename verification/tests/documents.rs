use substation::document::Section;
use substation::error::{ErrorKind, ParseError};
use substation::scan::to_chars;
use substation::script::{document, event_rows, part};
use substation::time::Millis;

const SCRIPT: &str = "[Script Info]\n; made by hand\nTitle: Example\nPlayResX: 640\n\n[V4+ Styles]\nFormat: Name, Fontname, Fontsize, PrimaryColour, Bold\nStyle: Default,Arial,20,&H00FFFFFF,0\nStyle: Loud,Impact,40,&H000000FF,-1\n\n[Events]\nFormat: Layer, Start, End, Style, Name, MarginL, MarginR, MarginV, Effect, Text\nDialogue: 0,0:00:01.00,0:00:02.50,Default,,0,0,0,,Hello, {\\i1}world{\\i0}!\n\nComment: 0,0:00:03.00,0:00:04.00,Loud,,0,0,0,,{\\p1}m 0 0 l 10 10{\\p0}\nDialogue: 1,0:00:05.00,0:00:06.00,Loud,Bob,0,0,0,fx,Bye\n\n[Fonts]\n";

#[test]
fn a_whole_document() {
    let found = document(&to_chars(SCRIPT)).unwrap();
    assert_eq!(found.sections.len(), 4);
    let (name, settings) = found.sections[0].as_settings().unwrap();
    assert_eq!(name, "Script Info");
    assert_eq!(settings.get("Title"), Some(&"Example".to_string()));
    assert_eq!(settings.len(), 2);
    let styles = found.sections[1].as_styles().unwrap();
    assert_eq!(styles.len(), 2);
    assert_eq!(styles.get("Loud").unwrap().bold, Some(true));
    assert_eq!(found.sections[2].as_event_header().unwrap().len(), 10);
    assert!(matches!(&found.sections[3], Section::Other { name, .. } if name == "Fonts"));
    assert_eq!(found.entries.len(), 3);
    assert_eq!(found.entries[0].kind, "Dialogue");
    assert_eq!(found.entries[0].plain_text(), "Hello, world!");
    assert_eq!(found.entries[1].kind, "Comment");
    assert_eq!(found.entries[1].plain_text(), "");
    assert_eq!(found.entries[2].start, Some(Millis(5000)));
    assert_eq!(found.entries[2].name, Some("Bob".to_string()));
    assert_eq!(found.entries[2].effect, Some("fx".to_string()));
}

#[test]
fn reading_a_document_twice_gives_the_same() {
    let text = to_chars(SCRIPT);
    assert_eq!(document(&text), document(&text));
}

#[test]
fn an_empty_document() {
    let found = document(&to_chars(" \n\t ")).unwrap();
    assert!(found.sections.is_empty() && found.entries.is_empty());
    assert_eq!(document(&to_chars("")).map(|d| d.sections.len()), Ok(0));
    assert_eq!(part(&to_chars("  \n")), Ok(None));
}

#[test]
fn documents_fail_with_the_offset_in_the_document() {
    let fails = |text: &str| document(&to_chars(text)).err();
    assert_eq!(fails("  junk"), Some(ParseError { kind: ErrorKind::MalformedHeader, offset: 2 }));
    assert_eq!(
        fails("[A]\n\n[Events]\nDialogue: x"),
        Some(ParseError { kind: ErrorKind::MissingFormat, offset: 13 })
    );
    assert_eq!(
        fails("[Events]\nFormat: Layer, Text\nDialogue: 0,ok\nno kind here\n"),
        Some(ParseError { kind: ErrorKind::MissingKind, offset: 44 })
    );
    assert_eq!(
        fails("[Events]\nFormat: Layer, Text\nDialogue: 0,{\\b1\n"),
        Some(ParseError { kind: ErrorKind::UnterminatedBlock, offset: 41 })
    );
    assert_eq!(
        fails("[V4+ Styles]\nFormat: Fontname\nStyle: Arial\n"),
        Some(ParseError { kind: ErrorKind::MissingName, offset: 30 })
    );
}

#[test]
fn event_rows_end_at_the_next_section() {
    let schema = vec!["Layer".to_string(), "Text".to_string()];
    let text = "\nDialogue: 0,a\r\n  Comment: 1,b\n\n[Next]\nDialogue: 2,c";
    let (rows, n) = event_rows(&to_chars(text), &schema).unwrap();
    assert_eq!(rows.len(), 2);
    assert_eq!(rows[1].kind, "Comment");
    assert_eq!(rows[1].layer, Some(1));
    assert_eq!(n, 30);
    let (rows, n) = event_rows(&to_chars("[Next]"), &schema).unwrap();
    assert_eq!((rows.len(), n), (0, 0));
}
