use substation::color::Color;
use substation::drawing::{coordinates, drawing, DrawingCommand};
use substation::error::{ErrorKind, ParseError};
use substation::line::{enables_drawing, next_section, style_override, text_line, TextSection};
use substation::number::Number;
use substation::scan::to_chars;
use substation::tags::{
    alpha_style, bool_style, color_style, fallback_style, function, number_style, string_style,
    style, StyleOverride,
};
use substation::time::Millis;

fn gc(text: &str) -> Vec<char> {
    to_chars(text)
}

fn num(text: &str) -> Number {
    Number::new(text).expect("a numeric literal")
}

fn tag_of(text: &str) -> (StyleOverride, usize) {
    style(&gc(text)).expect("no structural failure").expect("a tag")
}

fn other(text: &str) -> StyleOverride {
    StyleOverride::Other(text.to_string())
}

#[test]
fn coordinates_are_set_apart_by_blanks() {
    let (xs, n) = coordinates(&gc("0 10\t-2.5  7 l 1 1"));
    assert_eq!(xs, vec![num("0"), num("10"), num("-2.5"), num("7")]);
    assert_eq!(n, 12);
    assert_eq!(coordinates(&gc("l 1 1")), (vec![], 0));
    assert_eq!(coordinates(&gc(" 1")), (vec![], 0));
    assert_eq!(coordinates(&gc("1 ")), (vec![num("1")], 1));
}

#[test]
fn drawing_reads_each_kind_of_command() {
    let (commands, n) = drawing(&gc("m 0 0 n 1 1 l 2 2 b 1 2 3 4 5 6 s 1 2 3 4 p 9 9 c"));
    assert_eq!(
        commands,
        vec![
            DrawingCommand::Move { x: num("0"), y: num("0") },
            DrawingCommand::MoveWithoutClosing { x: num("1"), y: num("1") },
            DrawingCommand::Line { x: num("2"), y: num("2") },
            DrawingCommand::Bezier {
                a_x: num("1"),
                a_y: num("2"),
                b_x: num("3"),
                b_y: num("4"),
                c_x: num("5"),
                c_y: num("6"),
            },
            DrawingCommand::UniformSpline(vec![(num("1"), num("2")), (num("3"), num("4"))]),
            DrawingCommand::ExtendBspline { x: num("9"), y: num("9") },
            DrawingCommand::CloseBspline,
        ]
    );
    assert_eq!(n, 49);
}

#[test]
fn one_letter_makes_one_command_for_each_pair() {
    let (commands, n) = drawing(&gc("l 1 2 3 4 5"));
    assert_eq!(
        commands,
        vec![
            DrawingCommand::Line { x: num("1"), y: num("2") },
            DrawingCommand::Line { x: num("3"), y: num("4") },
        ]
    );
    assert_eq!(n, 11);
    let (commands, _) = drawing(&gc("b 1 2 3 4 5 6 7 8"));
    assert_eq!(commands.len(), 1);
    let (commands, _) = drawing(&gc("s 1"));
    assert_eq!(commands, vec![DrawingCommand::UniformSpline(vec![])]);
}

#[test]
fn an_unknown_letter_ends_the_drawing() {
    let (commands, n) = drawing(&gc("  m 1 2 x 3 4"));
    assert_eq!(commands, vec![DrawingCommand::Move { x: num("1"), y: num("2") }]);
    assert_eq!(n, 7);
    assert_eq!(drawing(&gc("  plain")), (vec![], 2));
    assert_eq!(drawing(&gc("")), (vec![], 0));
    assert_eq!(drawing(&gc("m  1 2")), (vec![], 2));
}

#[test]
fn toggles() {
    assert_eq!(bool_style(&gc("be1")), Some((StyleOverride::BlurEdges(true), 3)));
    assert_eq!(bool_style(&gc("i0")), Some((StyleOverride::Italic(false), 2)));
    assert_eq!(bool_style(&gc("u1")), Some((StyleOverride::Underline(true), 2)));
    assert_eq!(bool_style(&gc("s1x")), Some((StyleOverride::StrikeOut(true), 2)));
    assert_eq!(bool_style(&gc("i2")), None);
    assert_eq!(bool_style(&gc("b1")), None);
    assert_eq!(bool_style(&gc("shad2")), None);
}

#[test]
fn font_name_runs_to_the_next_backslash() {
    assert_eq!(
        string_style(&gc("fnArial Black\\b1}")),
        Some((StyleOverride::FontName("Arial Black".to_string()), 13))
    );
    assert_eq!(string_style(&gc("fn\\b1")), Some((StyleOverride::FontName(String::new()), 2)));
    assert_eq!(string_style(&gc("fnArial}")), None);
    assert_eq!(string_style(&gc("fnArial}x\\b1")), None);
    assert_eq!(string_style(&gc("fnArial")), None);
    assert_eq!(tag_of("\\fnArial}"), (other("fnArial"), 8));
}

#[test]
fn colour_tags() {
    let c = Color { alpha: None, red: 0x04, green: 0x08, blue: 0x0C };
    assert_eq!(color_style(&gc("c&HC08040&")), Ok(Some((StyleOverride::Color(1, c), 10))));
    assert_eq!(color_style(&gc("3c&HC08040&x")), Ok(Some((StyleOverride::Color(3, c), 11))));
    assert_eq!(color_style(&gc("c&H&")), Ok(None));
    assert_eq!(color_style(&gc("c&HC08040")), Ok(None));
    assert_eq!(color_style(&gc("cHC08040&")), Ok(None));
    assert_eq!(
        color_style(&gc("2c&HXYZ&")),
        Err(ParseError { kind: ErrorKind::InvalidColor, offset: 4 })
    );
    assert_eq!(
        style(&gc("\\c&HXYZ&")),
        Err(ParseError { kind: ErrorKind::InvalidColor, offset: 4 })
    );
}

#[test]
fn alpha_tags() {
    assert_eq!(alpha_style(&gc("alpha&H80&")), Some((StyleOverride::Alpha(1, 0x80), 10)));
    assert_eq!(alpha_style(&gc("4a&FF&")), Some((StyleOverride::Alpha(4, 255), 6)));
    assert_eq!(alpha_style(&gc("alpha&H8&")), None);
    assert_eq!(alpha_style(&gc("alpha&H80")), None);
    assert_eq!(alpha_style(&gc("a&H80&")), None);
}

#[test]
fn numeric_tags() {
    let cases: Vec<(&str, StyleOverride)> = vec![
        ("frx1", StyleOverride::RotationX(num("1"))),
        ("fry1", StyleOverride::RotationY(num("1"))),
        ("frz1", StyleOverride::RotationZ(num("1"))),
        ("fr1", StyleOverride::RotationZ(num("1"))),
        ("fscx1", StyleOverride::ScaleX(num("1"))),
        ("fscy1", StyleOverride::ScaleY(num("1"))),
        ("fsp1", StyleOverride::LetterSpacing(num("1"))),
        ("fs1", StyleOverride::FontSize(num("1"))),
        ("bord1", StyleOverride::Border(num("1"))),
        ("shad1", StyleOverride::Shadow(num("1"))),
        ("an1", StyleOverride::NumpadLayoutAlignment(num("1"))),
        ("a1", StyleOverride::Alignment(num("1"))),
        ("k1", StyleOverride::KaraokeDuration(Millis(10))),
        ("q1", StyleOverride::WrappingStyle(num("1"))),
        ("b1", StyleOverride::Bold(num("1"))),
        ("p1", StyleOverride::DrawingMode(num("1"))),
    ];
    for (text, expected) in cases {
        assert_eq!(number_style(&gc(text)), Some((expected, text.len())), "on {:?}", text);
    }
    assert_eq!(number_style(&gc("fsx")), None);
    assert_eq!(number_style(&gc("z1")), None);
}

#[test]
fn rotation_z_wins_over_its_prefix() {
    assert_eq!(tag_of("\\frz30"), (StyleOverride::RotationZ(num("30")), 6));
    assert_eq!(tag_of("\\fscx120"), (StyleOverride::ScaleX(num("120")), 8));
    assert_eq!(tag_of("\\fs12.5\\b1"), (StyleOverride::FontSize(num("12.5")), 7));
    assert_eq!(tag_of("\\an8"), (StyleOverride::NumpadLayoutAlignment(num("8")), 4));
}

#[test]
fn karaoke_counts_hundredths() {
    assert_eq!(tag_of("\\k25").0, StyleOverride::KaraokeDuration(Millis(250)));
    assert_eq!(tag_of("\\k2.9").0, StyleOverride::KaraokeDuration(Millis(20)));
    assert_eq!(tag_of("\\k-5").0, StyleOverride::KaraokeDuration(Millis(0)));
    assert_eq!(tag_of("\\k1e30").0, StyleOverride::KaraokeDuration(Millis(u64::MAX)));
    assert_eq!(tag_of("\\k1e19").0, StyleOverride::KaraokeDuration(Millis(u64::MAX)));
}

#[test]
fn the_catch_all_takes_what_has_no_shape() {
    assert_eq!(fallback_style(&gc("xyz123}")), (other("xyz123"), 6));
    assert_eq!(fallback_style(&gc("xyz\\b1")), (other("xyz"), 3));
    assert_eq!(fallback_style(&gc("}")), (other(""), 0));
    assert_eq!(tag_of("\\xyz123}"), (other("xyz123"), 7));
    assert_eq!(tag_of("\\fs12em}"), (other("fs12em"), 7));
    assert_eq!(tag_of("\\"), (other(""), 1));
    assert_eq!(style(&gc("b1")), Ok(None));
    assert_eq!(style(&gc("")), Ok(None));
}

#[test]
fn clip_goes_three_ways() {
    assert_eq!(
        function(&gc("clip(0,0,10,10)")),
        Ok(Some((
            StyleOverride::Clip { a_x: num("0"), a_y: num("0"), b_x: num("10"), b_y: num("10") },
            15
        )))
    );
    assert_eq!(function(&gc("clip()")), Ok(Some((StyleOverride::EmptyClip, 6))));
    assert_eq!(
        function(&gc("clip(m 0 0 l 5 5)")),
        Ok(Some((
            StyleOverride::ClipToDrawing(
                None,
                vec![
                    DrawingCommand::Move { x: num("0"), y: num("0") },
                    DrawingCommand::Line { x: num("5"), y: num("5") },
                ]
            ),
            17
        )))
    );
    assert_eq!(
        function(&gc("clip(2, m 0 0)")),
        Ok(Some((
            StyleOverride::ClipToDrawing(
                Some(num("2")),
                vec![DrawingCommand::Move { x: num("0"), y: num("0") }]
            ),
            14
        )))
    );
    assert_eq!(
        function(&gc("clip(what)")),
        Ok(Some((StyleOverride::ClipToDrawing(None, vec![]), 10)))
    );
    assert_eq!(
        function(&gc("clip(1 , 2\n,3,4,5)")).map(|r| r.map(|t| t.0)),
        Ok(Some(StyleOverride::Clip {
            a_x: num("1"),
            a_y: num("2"),
            b_x: num("3"),
            b_y: num("4")
        }))
    );
}

#[test]
fn move_and_position() {
    assert_eq!(
        function(&gc("move(1,2,3,4)")),
        Ok(Some((
            StyleOverride::Move {
                start_x: num("1"),
                start_y: num("2"),
                end_x: num("3"),
                end_y: num("4"),
                start: None,
                end: None,
            },
            13
        )))
    );
    assert_eq!(
        function(&gc("move(1,2,3,4,100,200)")).map(|r| r.map(|t| t.0)),
        Ok(Some(StyleOverride::Move {
            start_x: num("1"),
            start_y: num("2"),
            end_x: num("3"),
            end_y: num("4"),
            start: Some(Millis(100)),
            end: Some(Millis(200)),
        }))
    );
    assert_eq!(
        function(&gc("move(1,2,3,4,100)")).map(|r| r.map(|t| t.0)),
        Ok(Some(StyleOverride::Move {
            start_x: num("1"),
            start_y: num("2"),
            end_x: num("3"),
            end_y: num("4"),
            start: Some(Millis(100)),
            end: None,
        }))
    );
    assert_eq!(
        function(&gc("pos(320,240)")),
        Ok(Some((
            StyleOverride::Move {
                start_x: num("320"),
                start_y: num("240"),
                end_x: num("320"),
                end_y: num("240"),
                start: Some(Millis(0)),
                end: Some(Millis(0)),
            },
            12
        )))
    );
    assert_eq!(function(&gc("move(1,2,3)")), Ok(None));
    assert_eq!(function(&gc("pos(1)")), Ok(None));
    assert_eq!(function(&gc("pos(1,2")), Ok(None));
    assert_eq!(function(&gc("pos 1,2)")), Ok(None));
}

#[test]
fn origin_and_fades() {
    assert_eq!(
        function(&gc("org(1.5,-2)")),
        Ok(Some((StyleOverride::Origin { x: num("1.5"), y: num("-2") }, 11)))
    );
    assert_eq!(function(&gc("org(1)")), Ok(None));
    assert_eq!(
        function(&gc("fade(255,32,224,0,500,2000,2200)")),
        Ok(Some((
            StyleOverride::Fade {
                starting_alpha: 255,
                middle_alpha: 32,
                ending_alpha: 224,
                start_time: Millis(0),
                in_between_time: Millis(500),
                late_time: Millis(2000),
                ending_time: Millis(2200),
            },
            32
        )))
    );
    assert_eq!(function(&gc("fade(256,32,224,0,500,2000,2200)")), Ok(None));
    assert_eq!(function(&gc("fade(255,32,224,0,500,2000)")), Ok(None));
    assert_eq!(
        function(&gc("fad(200, 300)")),
        Ok(Some((
            StyleOverride::FadeInAndOut { fade_in_for: Millis(200), fade_out_for: Millis(300) },
            13
        )))
    );
    assert_eq!(function(&gc("fad(200)")), Ok(None));
    assert_eq!(function(&gc("nothing(1)")), Ok(None));
}

#[test]
fn transitions_hold_tags() {
    assert_eq!(
        function(&gc("t(0,500,\\fs20,\\b1)")),
        Ok(Some((
            StyleOverride::Transition {
                start: Some(Millis(0)),
                end: Some(Millis(500)),
                acceleration: None,
                styles: vec![StyleOverride::FontSize(num("20")), StyleOverride::Bold(num("1"))],
            },
            18
        )))
    );
    assert_eq!(
        function(&gc("t(0,500,0.5,\\frz90)")).map(|r| r.map(|t| t.0)),
        Ok(Some(StyleOverride::Transition {
            start: Some(Millis(0)),
            end: Some(Millis(500)),
            acceleration: Some(num("0.5")),
            styles: vec![StyleOverride::RotationZ(num("90"))],
        }))
    );
    assert_eq!(
        function(&gc("t(,\\fs20\\b1)")).map(|r| r.map(|t| t.0)),
        Ok(Some(StyleOverride::Transition {
            start: None,
            end: None,
            acceleration: None,
            styles: vec![StyleOverride::FontSize(num("20"))],
        }))
    );
    assert_eq!(
        function(&gc("t(100,)")).map(|r| r.map(|t| t.0)),
        Ok(Some(StyleOverride::Transition {
            start: Some(Millis(100)),
            end: None,
            acceleration: None,
            styles: vec![],
        }))
    );
    assert_eq!(function(&gc("t(\\fs20)")), Ok(None));
    assert_eq!(
        function(&gc("t(0,1,\\c&HZZ&)")),
        Err(ParseError { kind: ErrorKind::InvalidColor, offset: 10 })
    );
}

#[test]
fn a_function_inside_a_transition_finds_no_bracket() {
    assert_eq!(
        tag_of("\\t(0,1,\\pos(1,2))").0,
        StyleOverride::Transition {
            start: Some(Millis(0)),
            end: Some(Millis(1)),
            acceleration: None,
            styles: vec![other("pos(1,2")],
        }
    );
}

#[test]
fn blocks() {
    assert_eq!(
        style_override(&gc("{\\b1\\i1}rest")),
        Ok(Some((vec![StyleOverride::Bold(num("1")), StyleOverride::Italic(true)], 8)))
    );
    assert_eq!(style_override(&gc("{}")), Ok(Some((vec![], 2))));
    assert_eq!(style_override(&gc("{note}")), Ok(Some((vec![other("note")], 6))));
    assert_eq!(
        style_override(&gc("{\\b1 \\i1}")),
        Ok(Some((vec![StyleOverride::Bold(num("1")), other(" \\i1")], 9)))
    );
    assert_eq!(style_override(&gc("text")), Ok(None));
    assert_eq!(style_override(&gc("")), Ok(None));
    assert_eq!(
        style_override(&gc("{\\b1")),
        Err(ParseError { kind: ErrorKind::UnterminatedBlock, offset: 0 })
    );
    assert_eq!(
        style_override(&gc("{\\1c&Hxx&}")),
        Err(ParseError { kind: ErrorKind::InvalidColor, offset: 6 })
    );
}

#[test]
fn an_unknown_tag_is_kept() {
    assert_eq!(style_override(&gc("{\\xyz123}")), Ok(Some((vec![other("xyz123")], 9))));
    assert_eq!(
        text_line(&gc("a{\\xyz123}b")),
        Ok(vec![
            TextSection::Text("a".to_string()),
            TextSection::StyleOverride(vec![other("xyz123")]),
            TextSection::Text("b".to_string()),
        ])
    );
}

#[test]
fn drawing_mode_hands_over_to_the_drawing_grammar() {
    assert_eq!(
        text_line(&gc("{\\p1}m 0 0 l 10 10{\\p0}plain")),
        Ok(vec![
            TextSection::StyleOverride(vec![StyleOverride::DrawingMode(num("1"))]),
            TextSection::Drawing(vec![
                DrawingCommand::Move { x: num("0"), y: num("0") },
                DrawingCommand::Line { x: num("10"), y: num("10") },
            ]),
            TextSection::StyleOverride(vec![StyleOverride::DrawingMode(num("0"))]),
            TextSection::Text("plain".to_string()),
        ])
    );
}

#[test]
fn drawing_mode_lasts_for_one_section() {
    assert_eq!(
        text_line(&gc("{\\p1}plain")),
        Ok(vec![
            TextSection::StyleOverride(vec![StyleOverride::DrawingMode(num("1"))]),
            TextSection::Drawing(vec![]),
            TextSection::Text("plain".to_string()),
        ])
    );
    assert_eq!(
        text_line(&gc("{\\p1}")),
        Ok(vec![TextSection::StyleOverride(vec![StyleOverride::DrawingMode(num("1"))])])
    );
    assert_eq!(
        text_line(&gc("{\\p0}m 0 0")),
        Ok(vec![
            TextSection::StyleOverride(vec![StyleOverride::DrawingMode(num("0"))]),
            TextSection::Text("m 0 0".to_string()),
        ])
    );
}

#[test]
fn the_last_tag_of_the_block_decides_the_mode() {
    assert!(enables_drawing(&vec![StyleOverride::DrawingMode(num("1"))]));
    assert!(enables_drawing(&vec![
        StyleOverride::Bold(num("1")),
        StyleOverride::DrawingMode(num("2"))
    ]));
    assert!(enables_drawing(&vec![
        StyleOverride::DrawingMode(num("0")),
        StyleOverride::DrawingMode(num("0.5"))
    ]));
    assert!(!enables_drawing(&vec![
        StyleOverride::DrawingMode(num("2")),
        StyleOverride::Bold(num("1"))
    ]));
    assert!(!enables_drawing(&vec![
        StyleOverride::DrawingMode(num("1")),
        StyleOverride::DrawingMode(num("0"))
    ]));
    assert!(!enables_drawing(&vec![StyleOverride::DrawingMode(num("0"))]));
    assert!(!enables_drawing(&vec![StyleOverride::DrawingMode(num("-1"))]));
    assert!(!enables_drawing(&vec![StyleOverride::DrawingMode(num("nan"))]));
    assert!(!enables_drawing(&vec![]));
    assert_eq!(
        text_line(&gc("{\\p1\\b1}m 0 0")),
        Ok(vec![
            TextSection::StyleOverride(vec![
                StyleOverride::DrawingMode(num("1")),
                StyleOverride::Bold(num("1"))
            ]),
            TextSection::Text("m 0 0".to_string()),
        ])
    );
}

#[test]
fn the_segmenter_steps_one_section_at_a_time() {
    assert_eq!(
        next_section(&gc("abc{\\b1}"), false),
        Ok((TextSection::Text("abc".to_string()), 3, false))
    );
    assert_eq!(
        next_section(&gc("{\\p1}m 0 0"), false),
        Ok((TextSection::StyleOverride(vec![StyleOverride::DrawingMode(num("1"))]), 5, true))
    );
    assert_eq!(
        next_section(&gc("m 0 0{\\p0}"), true),
        Ok((TextSection::Drawing(vec![DrawingCommand::Move { x: num("0"), y: num("0") }]), 5, false))
    );
    assert_eq!(next_section(&gc("abc"), true), Ok((TextSection::Drawing(vec![]), 0, false)));
}

#[test]
fn text_lines_and_their_failures() {
    assert_eq!(text_line(&gc("")), Ok(vec![]));
    assert_eq!(text_line(&gc("just text")), Ok(vec![TextSection::Text("just text".to_string())]));
    assert_eq!(
        text_line(&gc("abc{\\b1")),
        Err(ParseError { kind: ErrorKind::UnterminatedBlock, offset: 3 })
    );
    assert_eq!(
        text_line(&gc("ab{\\i1}{\\c&H!&}")),
        Err(ParseError { kind: ErrorKind::InvalidColor, offset: 12 })
    );
    assert_eq!(
        text_line(&gc("a}b")),
        Ok(vec![TextSection::Text("a}b".to_string())])
    );
}

#[test]
fn reading_twice_gives_the_same() {
    let text = gc("{\\an8\\t(0,1,\\fs2)}Hi{\\p1}m 0 0 b 1 2 3 4 5 6{\\p0}");
    assert_eq!(text_line(&text), text_line(&text));
}

#[test]
fn a_block_as_scripts_write_them() {
    let (tags, n) = style_override(&gc(
        "{\\an8\\pos(320,240)\\fad(200,300)\\c&HFFFFFF&\\3c&H0000FF&\\blur2\\fnArial\\b1\\fscx110\\k25}",
    ))
    .unwrap()
    .unwrap();
    assert_eq!(n, 84);
    assert_eq!(
        tags,
        vec![
            StyleOverride::NumpadLayoutAlignment(num("8")),
            StyleOverride::Move {
                start_x: num("320"),
                start_y: num("240"),
                end_x: num("320"),
                end_y: num("240"),
                start: Some(Millis(0)),
                end: Some(Millis(0)),
            },
            StyleOverride::FadeInAndOut { fade_in_for: Millis(200), fade_out_for: Millis(300) },
            StyleOverride::Color(1, Color { alpha: None, red: 0xFF, green: 0xFF, blue: 0xFF }),
            StyleOverride::Color(3, Color { alpha: None, red: 0xFF, green: 0x00, blue: 0x00 }),
            other("blur2"),
            StyleOverride::FontName("Arial".to_string()),
            StyleOverride::Bold(num("1")),
            StyleOverride::ScaleX(num("110")),
            StyleOverride::KaraokeDuration(Millis(250)),
        ]
    );
}
