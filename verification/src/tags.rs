//! Override tags: the backslash directives inside a `{...}` block.

use crate::color::{hex_primary, inline_color, spec_hex_primary, spec_inline_color, Color};
use crate::drawing::{
    clone_commands, drawing, spec_drawing, DrawingCommand, DrawingModel,
};
use crate::error::{
    after, joined, lemma_joined_end, lemma_joined_step, scanned, ErrorKind, Fault, ParseError,
};
use crate::number::{
    decimal, lemma_number_len_bounds, spec_bits, spec_truncate, truncate, decimal_or_float, spec_decimal,
    spec_number, Number,
};
use crate::scan::{
    head, lemma_run_len_bounds, literal, parsed, run, run_len, spec_literal, tail, to_text, ws,
    ws_inner, CharClass,
};
use crate::time::Millis;
use vstd::prelude::*;

verus! {

/// One override tag.
#[derive(Debug, PartialEq, Eq)]
pub enum StyleOverride {
    Bold(Number),
    Italic(bool),
    Underline(bool),
    StrikeOut(bool),
    Border(Number),
    Shadow(Number),
    BlurEdges(bool),
    FontName(String),
    FontSize(Number),
    ScaleX(Number),
    ScaleY(Number),
    LetterSpacing(Number),
    RotationX(Number),
    RotationY(Number),
    RotationZ(Number),
    Charset(u64),
    /// The colour slot (1 primary, 2 secondary, 3 outline, 4 background)
    /// and its colour.
    Color(u64, Color),
    /// The colour slot and its alpha.
    Alpha(u64, u8),
    Alignment(Number),
    NumpadLayoutAlignment(Number),
    KaraokeDuration(Millis),
    WrappingStyle(Number),
    Reset(Option<String>),
    DrawingMode(Number),
    BaselineOffset(Number),
    Transition {
        start: Option<Millis>,
        end: Option<Millis>,
        acceleration: Option<Number>,
        styles: Vec<StyleOverride>,
    },
    Move {
        start_x: Number,
        start_y: Number,
        end_x: Number,
        end_y: Number,
        start: Option<Millis>,
        end: Option<Millis>,
    },
    Origin { x: Number, y: Number },
    Fade {
        starting_alpha: u8,
        middle_alpha: u8,
        ending_alpha: u8,
        start_time: Millis,
        in_between_time: Millis,
        late_time: Millis,
        ending_time: Millis,
    },
    FadeInAndOut { fade_in_for: Millis, fade_out_for: Millis },
    Clip { a_x: Number, a_y: Number, b_x: Number, b_y: Number },
    ClipToDrawing(Option<Number>, Vec<DrawingCommand>),
    EmptyClip,
    /// Text that has the shape of no known tag, kept as written.
    Other(String),
}

/// What an override tag is, with every text and number as the characters it
/// was written with.
pub enum TagModel {
    Bold(Seq<char>),
    Italic(bool),
    Underline(bool),
    StrikeOut(bool),
    Border(Seq<char>),
    Shadow(Seq<char>),
    BlurEdges(bool),
    FontName(Seq<char>),
    FontSize(Seq<char>),
    ScaleX(Seq<char>),
    ScaleY(Seq<char>),
    LetterSpacing(Seq<char>),
    RotationX(Seq<char>),
    RotationY(Seq<char>),
    RotationZ(Seq<char>),
    Charset(u64),
    Color(u64, Color),
    Alpha(u64, u8),
    Alignment(Seq<char>),
    NumpadLayoutAlignment(Seq<char>),
    KaraokeDuration(Millis),
    WrappingStyle(Seq<char>),
    Reset(Option<Seq<char>>),
    DrawingMode(Seq<char>),
    BaselineOffset(Seq<char>),
    Transition {
        start: Option<Millis>,
        end: Option<Millis>,
        acceleration: Option<Seq<char>>,
        styles: Seq<TagModel>,
    },
    Move {
        start_x: Seq<char>,
        start_y: Seq<char>,
        end_x: Seq<char>,
        end_y: Seq<char>,
        start: Option<Millis>,
        end: Option<Millis>,
    },
    Origin { x: Seq<char>, y: Seq<char> },
    Fade {
        starting_alpha: u8,
        middle_alpha: u8,
        ending_alpha: u8,
        start_time: Millis,
        in_between_time: Millis,
        late_time: Millis,
        ending_time: Millis,
    },
    FadeInAndOut { fade_in_for: Millis, fade_out_for: Millis },
    Clip { a_x: Seq<char>, a_y: Seq<char>, b_x: Seq<char>, b_y: Seq<char> },
    ClipToDrawing(Option<Seq<char>>, Seq<DrawingModel>),
    EmptyClip,
    Other(Seq<char>),
}

impl StyleOverride {
    /// The model of this tag.
    pub open spec fn model(self) -> TagModel
        decreases self,
    {
        match self {
            StyleOverride::Bold(n) => TagModel::Bold(n.deep_view()),
            StyleOverride::Italic(b) => TagModel::Italic(b),
            StyleOverride::Underline(b) => TagModel::Underline(b),
            StyleOverride::StrikeOut(b) => TagModel::StrikeOut(b),
            StyleOverride::Border(n) => TagModel::Border(n.deep_view()),
            StyleOverride::Shadow(n) => TagModel::Shadow(n.deep_view()),
            StyleOverride::BlurEdges(b) => TagModel::BlurEdges(b),
            StyleOverride::FontName(s) => TagModel::FontName(s@),
            StyleOverride::FontSize(n) => TagModel::FontSize(n.deep_view()),
            StyleOverride::ScaleX(n) => TagModel::ScaleX(n.deep_view()),
            StyleOverride::ScaleY(n) => TagModel::ScaleY(n.deep_view()),
            StyleOverride::LetterSpacing(n) => TagModel::LetterSpacing(n.deep_view()),
            StyleOverride::RotationX(n) => TagModel::RotationX(n.deep_view()),
            StyleOverride::RotationY(n) => TagModel::RotationY(n.deep_view()),
            StyleOverride::RotationZ(n) => TagModel::RotationZ(n.deep_view()),
            StyleOverride::Charset(c) => TagModel::Charset(c),
            StyleOverride::Color(i, c) => TagModel::Color(i, c),
            StyleOverride::Alpha(i, a) => TagModel::Alpha(i, a),
            StyleOverride::Alignment(n) => TagModel::Alignment(n.deep_view()),
            StyleOverride::NumpadLayoutAlignment(n) => TagModel::NumpadLayoutAlignment(
                n.deep_view(),
            ),
            StyleOverride::KaraokeDuration(d) => TagModel::KaraokeDuration(d),
            StyleOverride::WrappingStyle(n) => TagModel::WrappingStyle(n.deep_view()),
            StyleOverride::Reset(s) => TagModel::Reset(s.deep_view()),
            StyleOverride::DrawingMode(n) => TagModel::DrawingMode(n.deep_view()),
            StyleOverride::BaselineOffset(n) => TagModel::BaselineOffset(n.deep_view()),
            StyleOverride::Transition { start, end, acceleration, styles } => TagModel::Transition {
                start,
                end,
                acceleration: acceleration.deep_view(),
                styles: Seq::new(
                    styles@.len(),
                    |i: int|
                        if 0 <= i < styles@.len() {
                            styles@[i].model()
                        } else {
                            TagModel::EmptyClip
                        },
                ),
            },
            StyleOverride::Move { start_x, start_y, end_x, end_y, start, end } => TagModel::Move {
                start_x: start_x.deep_view(),
                start_y: start_y.deep_view(),
                end_x: end_x.deep_view(),
                end_y: end_y.deep_view(),
                start,
                end,
            },
            StyleOverride::Origin { x, y } => TagModel::Origin {
                x: x.deep_view(),
                y: y.deep_view(),
            },
            StyleOverride::Fade {
                starting_alpha,
                middle_alpha,
                ending_alpha,
                start_time,
                in_between_time,
                late_time,
                ending_time,
            } => TagModel::Fade {
                starting_alpha,
                middle_alpha,
                ending_alpha,
                start_time,
                in_between_time,
                late_time,
                ending_time,
            },
            StyleOverride::FadeInAndOut { fade_in_for, fade_out_for } => TagModel::FadeInAndOut {
                fade_in_for,
                fade_out_for,
            },
            StyleOverride::Clip { a_x, a_y, b_x, b_y } => TagModel::Clip {
                a_x: a_x.deep_view(),
                a_y: a_y.deep_view(),
                b_x: b_x.deep_view(),
                b_y: b_y.deep_view(),
            },
            StyleOverride::ClipToDrawing(scale, commands) => TagModel::ClipToDrawing(
                scale.deep_view(),
                commands.deep_view(),
            ),
            StyleOverride::EmptyClip => TagModel::EmptyClip,
            StyleOverride::Other(s) => TagModel::Other(s@),
        }
    }
}

impl DeepView for StyleOverride {
    type V = TagModel;

    open spec fn deep_view(&self) -> TagModel {
        self.model()
    }
}

fn clone_text(text: &Option<String>) -> (r: Option<String>)
    ensures
        r.deep_view() == text.deep_view(),
{
    match text {
        Some(s) => Some(s.clone()),
        None => None,
    }
}

fn clone_number(number: &Option<Number>) -> (r: Option<Number>)
    ensures
        r.deep_view() == number.deep_view(),
{
    match number {
        Some(n) => Some(n.clone()),
        None => None,
    }
}

impl Clone for StyleOverride {
    #[verifier::rlimit(40)]
    fn clone(&self) -> (r: StyleOverride)
        ensures
            r.deep_view() == self.deep_view(),
        decreases self,
    {
        match self {
            StyleOverride::Bold(n) => StyleOverride::Bold(n.clone()),
            StyleOverride::Italic(b) => StyleOverride::Italic(*b),
            StyleOverride::Underline(b) => StyleOverride::Underline(*b),
            StyleOverride::StrikeOut(b) => StyleOverride::StrikeOut(*b),
            StyleOverride::Border(n) => StyleOverride::Border(n.clone()),
            StyleOverride::Shadow(n) => StyleOverride::Shadow(n.clone()),
            StyleOverride::BlurEdges(b) => StyleOverride::BlurEdges(*b),
            StyleOverride::FontName(s) => StyleOverride::FontName(s.clone()),
            StyleOverride::FontSize(n) => StyleOverride::FontSize(n.clone()),
            StyleOverride::ScaleX(n) => StyleOverride::ScaleX(n.clone()),
            StyleOverride::ScaleY(n) => StyleOverride::ScaleY(n.clone()),
            StyleOverride::LetterSpacing(n) => StyleOverride::LetterSpacing(n.clone()),
            StyleOverride::RotationX(n) => StyleOverride::RotationX(n.clone()),
            StyleOverride::RotationY(n) => StyleOverride::RotationY(n.clone()),
            StyleOverride::RotationZ(n) => StyleOverride::RotationZ(n.clone()),
            StyleOverride::Charset(c) => StyleOverride::Charset(*c),
            StyleOverride::Color(i, c) => StyleOverride::Color(*i, *c),
            StyleOverride::Alpha(i, a) => StyleOverride::Alpha(*i, *a),
            StyleOverride::Alignment(n) => StyleOverride::Alignment(n.clone()),
            StyleOverride::NumpadLayoutAlignment(n) => StyleOverride::NumpadLayoutAlignment(
                n.clone(),
            ),
            StyleOverride::KaraokeDuration(d) => StyleOverride::KaraokeDuration(*d),
            StyleOverride::WrappingStyle(n) => StyleOverride::WrappingStyle(n.clone()),
            StyleOverride::Reset(s) => StyleOverride::Reset(clone_text(s)),
            StyleOverride::DrawingMode(n) => StyleOverride::DrawingMode(n.clone()),
            StyleOverride::BaselineOffset(n) => StyleOverride::BaselineOffset(n.clone()),
            StyleOverride::Transition { start, end, acceleration, styles } => {
                let mut out: Vec<StyleOverride> = Vec::new();
                let mut i: usize = 0;
                while i < styles.len()
                    invariant
                        i <= styles.len(),
                        out@.len() == i,
                        *self matches StyleOverride::Transition { styles: own, .. } && own
                            == *styles,
                        forall|k: int|
                            0 <= k < i ==> (#[trigger] out@[k]).deep_view()
                                == styles@[k].deep_view(),
                    decreases styles.len() - i,
                {
                    out.push(styles[i].clone());
                    i = i + 1;
                }
                let pace = clone_number(acceleration);
                proof {
                    assert(out.deep_view() =~= styles.deep_view());
                    lemma_transition_model(*start, *end, *acceleration, *styles);
                    lemma_transition_model(*start, *end, pace, out);
                }
                StyleOverride::Transition { start: *start, end: *end, acceleration: pace, styles: out }
            },
            StyleOverride::Move { start_x, start_y, end_x, end_y, start, end } => StyleOverride::Move {
                start_x: start_x.clone(),
                start_y: start_y.clone(),
                end_x: end_x.clone(),
                end_y: end_y.clone(),
                start: *start,
                end: *end,
            },
            StyleOverride::Origin { x, y } => StyleOverride::Origin { x: x.clone(), y: y.clone() },
            StyleOverride::Fade {
                starting_alpha,
                middle_alpha,
                ending_alpha,
                start_time,
                in_between_time,
                late_time,
                ending_time,
            } => StyleOverride::Fade {
                starting_alpha: *starting_alpha,
                middle_alpha: *middle_alpha,
                ending_alpha: *ending_alpha,
                start_time: *start_time,
                in_between_time: *in_between_time,
                late_time: *late_time,
                ending_time: *ending_time,
            },
            StyleOverride::FadeInAndOut { fade_in_for, fade_out_for } => StyleOverride::FadeInAndOut {
                fade_in_for: *fade_in_for,
                fade_out_for: *fade_out_for,
            },
            StyleOverride::Clip { a_x, a_y, b_x, b_y } => StyleOverride::Clip {
                a_x: a_x.clone(),
                a_y: a_y.clone(),
                b_x: b_x.clone(),
                b_y: b_y.clone(),
            },
            StyleOverride::ClipToDrawing(scale, commands) => StyleOverride::ClipToDrawing(
                clone_number(scale),
                clone_commands(commands),
            ),
            StyleOverride::EmptyClip => StyleOverride::EmptyClip,
            StyleOverride::Other(s) => StyleOverride::Other(s.clone()),
        }
    }
}

/// A copy of a list of tags.
pub fn clone_tags(tags: &Vec<StyleOverride>) -> (r: Vec<StyleOverride>)
    ensures
        r.deep_view() == tags.deep_view(),
{
    let mut out: Vec<StyleOverride> = Vec::new();
    let mut i: usize = 0;
    while i < tags.len()
        invariant
            i <= tags.len(),
            out@.len() == i,
            forall|k: int| 0 <= k < i ==> (#[trigger] out@[k]).deep_view() == tags@[k].deep_view(),
        decreases tags.len() - i,
    {
        out.push(tags[i].clone());
        i = i + 1;
    }
    assert(out.deep_view() =~= tags.deep_view());
    out
}

/// Whether `c` is one of the two digits that switch a toggle.
pub open spec fn is_flag(c: char) -> bool {
    c == '0' || c == '1'
}

/// The toggle at the start of `s`: `be`, `i`, `u` or `s`, then `0` or `1`.
pub open spec fn spec_bool_style(s: Seq<char>) -> Option<(TagModel, int)> {
    if s.len() >= 3 && s[0] == 'b' && s[1] == 'e' && is_flag(s[2]) {
        Some((TagModel::BlurEdges(s[2] == '1'), 3))
    } else if s.len() >= 2 && s[0] == 'i' && is_flag(s[1]) {
        Some((TagModel::Italic(s[1] == '1'), 2))
    } else if s.len() >= 2 && s[0] == 'u' && is_flag(s[1]) {
        Some((TagModel::Underline(s[1] == '1'), 2))
    } else if s.len() >= 2 && s[0] == 's' && is_flag(s[1]) {
        Some((TagModel::StrikeOut(s[1] == '1'), 2))
    } else {
        None
    }
}

/// Reads a toggle.
pub fn bool_style(input: &[char]) -> (r: Option<(StyleOverride, usize)>)
    ensures
        parsed(r) == spec_bool_style(input@),
        r matches Some((_, n)) ==> 0 < n <= input.len(),
{
    let n = input.len();
    if n >= 3 && input[0] == 'b' && input[1] == 'e' && (input[2] == '0' || input[2] == '1') {
        Some((StyleOverride::BlurEdges(input[2] == '1'), 3))
    } else if n >= 2 && input[0] == 'i' && (input[1] == '0' || input[1] == '1') {
        Some((StyleOverride::Italic(input[1] == '1'), 2))
    } else if n >= 2 && input[0] == 'u' && (input[1] == '0' || input[1] == '1') {
        Some((StyleOverride::Underline(input[1] == '1'), 2))
    } else if n >= 2 && input[0] == 's' && (input[1] == '0' || input[1] == '1') {
        Some((StyleOverride::StrikeOut(input[1] == '1'), 2))
    } else {
        None
    }
}

/// The characters that run on inside a block: all but the backslash and
/// the closing brace.
pub open spec fn in_block() -> CharClass {
    CharClass::Except('\\', '}', '}')
}

/// The font name at the start of `s`: `fn`, then the name, which runs up to
/// the next backslash of the block. Where the block ends before another
/// backslash comes, this is no font name.
pub open spec fn spec_string_style(s: Seq<char>) -> Option<(TagModel, int)> {
    let n = run_len(s.skip(2), in_block());
    if s.len() >= 2 && s[0] == 'f' && s[1] == 'n' && 2 + n < s.len() && s[2 + n] == '\\' {
        Some((TagModel::FontName(s.subrange(2, 2 + n)), 2 + n))
    } else {
        None
    }
}

/// Reads a font name.
pub fn string_style(input: &[char]) -> (r: Option<(StyleOverride, usize)>)
    ensures
        parsed(r) == spec_string_style(input@),
        r matches Some((_, n)) ==> 0 < n <= input.len(),
{
    if input.len() >= 2 && input[0] == 'f' && input[1] == 'n' {
        let rest = tail(input, 2);
        let n = run(rest, CharClass::Except('\\', '}', '}'));
        if 2 + n < input.len() && input[2 + n] == '\\' {
            let name = to_text(head(rest, n));
            assert(rest@.take(n as int) =~= input@.subrange(2, 2 + n));
            return Some((StyleOverride::FontName(name), 2 + n));
        }
    }
    None
}

/// The colour slot named at the start of `s` and the characters that name
/// it: a decimal, or slot 1 and no characters where there is none.
pub open spec fn spec_channel(s: Seq<char>) -> (u64, int) {
    match spec_decimal(s) {
        Some((channel, n)) => (channel, n),
        None => (1, 0),
    }
}

fn channel(input: &[char]) -> (r: (u64, usize))
    ensures
        (r.0, r.1 as int) == spec_channel(input@),
        r.1 <= input.len(),
{
    match decimal(input) {
        Some((channel, n)) => (channel, n),
        None => (1, 0),
    }
}

/// The colour tag at the start of `s`: an optional slot, `c&H`, one or more
/// characters up to the next `&`, and that `&`. The characters must decode
/// as an inline colour: where they do not, the failure is structural.
pub open spec fn spec_color_style(s: Seq<char>) -> Result<Option<(TagModel, int)>, Fault> {
    let (channel, k) = spec_channel(s);
    let t = s.skip(k);
    let n = run_len(t.skip(3), CharClass::Except('&', '&', '&'));
    if spec_literal(t, "c&H"@) is Some && n > 0 && 3 + n < t.len() {
        match spec_inline_color(t.subrange(3, 3 + n)) {
            Some(color) => Ok(Some((TagModel::Color(channel, color), k + 3 + n + 1))),
            None => Err(Fault { kind: ErrorKind::InvalidColor, offset: k + 3 }),
        }
    } else {
        Ok(None)
    }
}

/// Reads a colour tag.
pub fn color_style(input: &[char]) -> (r: Result<Option<(StyleOverride, usize)>, ParseError>)
    ensures
        scanned(r) == spec_color_style(input@),
        r matches Ok(Some((_, n))) ==> 0 < n <= input.len(),
        r matches Err(e) ==> e.offset <= input.len(),
{
    proof {
        reveal_strlit("c&H");
    }
    let (slot, k) = channel(input);
    let t = tail(input, k);
    if literal(t, "c&H").is_none() {
        return Ok(None);
    }
    let raw_start = tail(t, 3);
    let n = run(raw_start, CharClass::Except('&', '&', '&'));
    if n == 0 || 3 + n >= t.len() {
        return Ok(None);
    }
    let raw = head(raw_start, n);
    assert(raw@ =~= t@.subrange(3, 3 + n));
    match inline_color(raw) {
        Some(color) => Ok(Some((StyleOverride::Color(slot, color), k + 3 + n + 1))),
        None => Err(ParseError { kind: ErrorKind::InvalidColor, offset: k + 3 }),
    }
}

/// The alpha tag at the start of `s`: an optional slot, `alpha&H` or `a&`,
/// two hexadecimal digits, and `&`.
pub open spec fn spec_alpha_style(s: Seq<char>) -> Option<(TagModel, int)> {
    let (channel, k) = spec_channel(s);
    let t = s.skip(k);
    let name = if spec_literal(t, "alpha&H"@) is Some {
        spec_literal(t, "alpha&H"@)
    } else {
        spec_literal(t, "a&"@)
    };
    match name {
        Some(p) => match spec_hex_primary(t.skip(p)) {
            Some((alpha, _)) => if p + 2 < t.len() && t[p + 2] == '&' {
                Some((TagModel::Alpha(channel, alpha), k + p + 3))
            } else {
                None
            },
            None => None,
        },
        None => None,
    }
}

/// Reads an alpha tag.
pub fn alpha_style(input: &[char]) -> (r: Option<(StyleOverride, usize)>)
    ensures
        parsed(r) == spec_alpha_style(input@),
        r matches Some((_, n)) ==> 0 < n <= input.len(),
{
    let (slot, k) = channel(input);
    let t = tail(input, k);
    let name = match literal(t, "alpha&H") {
        Some(p) => Some(p),
        None => literal(t, "a&"),
    };
    let p = match name {
        Some(p) => p,
        None => { return None; },
    };
    let (alpha, _) = match hex_primary(tail(t, p)) {
        Some(v) => v,
        None => { return None; },
    };
    if p + 2 < t.len() && t[p + 2] == '&' {
        Some((StyleOverride::Alpha(slot, alpha), k + p + 3))
    } else {
        None
    }
}

/// The number that follows the tag name `name` at the start of `s`.
pub open spec fn spec_numeric(s: Seq<char>, name: Seq<char>) -> Option<(Seq<char>, int)> {
    match spec_literal(s, name) {
        Some(k) => match spec_number(s.skip(k)) {
            Some((x, n)) => Some((x, k + n)),
            None => None,
        },
        None => None,
    }
}

fn numeric(input: &[char], name: &str) -> (r: Option<(Number, usize)>)
    ensures
        parsed(r) == spec_numeric(input@, name@),
        r matches Some((_, n)) ==> 0 < n <= input.len(),
{
    match literal(input, name) {
        Some(k) => match decimal_or_float(tail(input, k)) {
            Some((x, n)) => Some((x, k + n)),
            None => None,
        },
        None => None,
    }
}

/// The length of a karaoke syllable: the tag's number counts hundredths of a
/// second, is cut to a whole number, and the milliseconds are held within 64
/// bits.
pub open spec fn spec_karaoke(x: Seq<char>) -> Millis {
    if spec_truncate(spec_bits(x)) * 10 <= u64::MAX {
        Millis((spec_truncate(spec_bits(x)) * 10) as u64)
    } else {
        Millis(u64::MAX)
    }
}

fn karaoke(x: &Number) -> (r: Millis)
    ensures
        r == spec_karaoke(x.deep_view()),
{
    let hundredths = truncate(x.bits());
    if hundredths <= u64::MAX / 10 {
        Millis(hundredths * 10)
    } else {
        Millis(u64::MAX)
    }
}

/// The tags that are written as a name and a number.
#[derive(Clone, Copy, Debug, PartialEq, Eq)]
pub enum NumericTag {
    RotationX,
    RotationY,
    RotationZ,
    Rotation,
    ScaleX,
    ScaleY,
    LetterSpacing,
    FontSize,
    Border,
    Shadow,
    NumpadLayoutAlignment,
    Alignment,
    Karaoke,
    WrappingStyle,
    Bold,
    DrawingMode,
}

/// How many numeric tags there are.
pub const NUMERIC_TAGS: usize = 16;

/// The numeric tags in the order in which their names are tried: a name
/// comes after every longer name that begins with it.
pub open spec fn spec_numeric_tag(i: int) -> NumericTag {
    if i == 0 {
        NumericTag::RotationX
    } else if i == 1 {
        NumericTag::RotationY
    } else if i == 2 {
        NumericTag::RotationZ
    } else if i == 3 {
        NumericTag::Rotation
    } else if i == 4 {
        NumericTag::ScaleX
    } else if i == 5 {
        NumericTag::ScaleY
    } else if i == 6 {
        NumericTag::LetterSpacing
    } else if i == 7 {
        NumericTag::FontSize
    } else if i == 8 {
        NumericTag::Border
    } else if i == 9 {
        NumericTag::Shadow
    } else if i == 10 {
        NumericTag::NumpadLayoutAlignment
    } else if i == 11 {
        NumericTag::Alignment
    } else if i == 12 {
        NumericTag::Karaoke
    } else if i == 13 {
        NumericTag::WrappingStyle
    } else if i == 14 {
        NumericTag::Bold
    } else {
        NumericTag::DrawingMode
    }
}

fn numeric_tag(i: usize) -> (r: NumericTag)
    ensures
        r == spec_numeric_tag(i as int),
{
    if i == 0 {
        NumericTag::RotationX
    } else if i == 1 {
        NumericTag::RotationY
    } else if i == 2 {
        NumericTag::RotationZ
    } else if i == 3 {
        NumericTag::Rotation
    } else if i == 4 {
        NumericTag::ScaleX
    } else if i == 5 {
        NumericTag::ScaleY
    } else if i == 6 {
        NumericTag::LetterSpacing
    } else if i == 7 {
        NumericTag::FontSize
    } else if i == 8 {
        NumericTag::Border
    } else if i == 9 {
        NumericTag::Shadow
    } else if i == 10 {
        NumericTag::NumpadLayoutAlignment
    } else if i == 11 {
        NumericTag::Alignment
    } else if i == 12 {
        NumericTag::Karaoke
    } else if i == 13 {
        NumericTag::WrappingStyle
    } else if i == 14 {
        NumericTag::Bold
    } else {
        NumericTag::DrawingMode
    }
}

impl NumericTag {
    /// The name that the tag is written with.
    pub open spec fn spec_name(self) -> Seq<char> {
        match self {
            NumericTag::RotationX => "frx"@,
            NumericTag::RotationY => "fry"@,
            NumericTag::RotationZ => "frz"@,
            NumericTag::Rotation => "fr"@,
            NumericTag::ScaleX => "fscx"@,
            NumericTag::ScaleY => "fscy"@,
            NumericTag::LetterSpacing => "fsp"@,
            NumericTag::FontSize => "fs"@,
            NumericTag::Border => "bord"@,
            NumericTag::Shadow => "shad"@,
            NumericTag::NumpadLayoutAlignment => "an"@,
            NumericTag::Alignment => "a"@,
            NumericTag::Karaoke => "k"@,
            NumericTag::WrappingStyle => "q"@,
            NumericTag::Bold => "b"@,
            NumericTag::DrawingMode => "p"@,
        }
    }

    /// The name that the tag is written with.
    pub fn name(&self) -> (r: &'static str)
        ensures
            r@ == self.spec_name(),
    {
        match self {
            NumericTag::RotationX => "frx",
            NumericTag::RotationY => "fry",
            NumericTag::RotationZ => "frz",
            NumericTag::Rotation => "fr",
            NumericTag::ScaleX => "fscx",
            NumericTag::ScaleY => "fscy",
            NumericTag::LetterSpacing => "fsp",
            NumericTag::FontSize => "fs",
            NumericTag::Border => "bord",
            NumericTag::Shadow => "shad",
            NumericTag::NumpadLayoutAlignment => "an",
            NumericTag::Alignment => "a",
            NumericTag::Karaoke => "k",
            NumericTag::WrappingStyle => "q",
            NumericTag::Bold => "b",
            NumericTag::DrawingMode => "p",
        }
    }

    /// The tag that the number `x` makes.
    pub open spec fn spec_make(self, x: Seq<char>) -> TagModel {
        match self {
            NumericTag::RotationX => TagModel::RotationX(x),
            NumericTag::RotationY => TagModel::RotationY(x),
            NumericTag::RotationZ => TagModel::RotationZ(x),
            NumericTag::Rotation => TagModel::RotationZ(x),
            NumericTag::ScaleX => TagModel::ScaleX(x),
            NumericTag::ScaleY => TagModel::ScaleY(x),
            NumericTag::LetterSpacing => TagModel::LetterSpacing(x),
            NumericTag::FontSize => TagModel::FontSize(x),
            NumericTag::Border => TagModel::Border(x),
            NumericTag::Shadow => TagModel::Shadow(x),
            NumericTag::NumpadLayoutAlignment => TagModel::NumpadLayoutAlignment(x),
            NumericTag::Alignment => TagModel::Alignment(x),
            NumericTag::Karaoke => TagModel::KaraokeDuration(spec_karaoke(x)),
            NumericTag::WrappingStyle => TagModel::WrappingStyle(x),
            NumericTag::Bold => TagModel::Bold(x),
            NumericTag::DrawingMode => TagModel::DrawingMode(x),
        }
    }

    /// The tag that the number `x` makes.
    pub fn make(&self, x: Number) -> (r: StyleOverride)
        ensures
            r.deep_view() == self.spec_make(x.deep_view()),
    {
        match self {
            NumericTag::RotationX => StyleOverride::RotationX(x),
            NumericTag::RotationY => StyleOverride::RotationY(x),
            NumericTag::RotationZ => StyleOverride::RotationZ(x),
            NumericTag::Rotation => StyleOverride::RotationZ(x),
            NumericTag::ScaleX => StyleOverride::ScaleX(x),
            NumericTag::ScaleY => StyleOverride::ScaleY(x),
            NumericTag::LetterSpacing => StyleOverride::LetterSpacing(x),
            NumericTag::FontSize => StyleOverride::FontSize(x),
            NumericTag::Border => StyleOverride::Border(x),
            NumericTag::Shadow => StyleOverride::Shadow(x),
            NumericTag::NumpadLayoutAlignment => StyleOverride::NumpadLayoutAlignment(x),
            NumericTag::Alignment => StyleOverride::Alignment(x),
            NumericTag::Karaoke => StyleOverride::KaraokeDuration(karaoke(&x)),
            NumericTag::WrappingStyle => StyleOverride::WrappingStyle(x),
            NumericTag::Bold => StyleOverride::Bold(x),
            NumericTag::DrawingMode => StyleOverride::DrawingMode(x),
        }
    }
}

/// The numeric tag at the start of `s`, among those from the `i`-th on: the
/// first whose name and a number stand there.
pub open spec fn spec_number_style_from(s: Seq<char>, i: int) -> Option<(TagModel, int)>
    decreases NUMERIC_TAGS - i,
{
    if 0 <= i < NUMERIC_TAGS {
        match spec_numeric(s, spec_numeric_tag(i).spec_name()) {
            Some((x, n)) => Some((spec_numeric_tag(i).spec_make(x), n)),
            None => spec_number_style_from(s, i + 1),
        }
    } else {
        None
    }
}

/// The numeric tag at the start of `s`: a name and a number.
pub open spec fn spec_number_style(s: Seq<char>) -> Option<(TagModel, int)> {
    spec_number_style_from(s, 0)
}

/// Reads a numeric tag.
pub fn number_style(input: &[char]) -> (r: Option<(StyleOverride, usize)>)
    ensures
        parsed(r) == spec_number_style(input@),
        r matches Some((_, n)) ==> 0 < n <= input.len(),
{
    let mut i: usize = 0;
    while i < NUMERIC_TAGS
        invariant
            i <= NUMERIC_TAGS,
            spec_number_style(input@) == spec_number_style_from(input@, i as int),
        decreases NUMERIC_TAGS - i,
    {
        let tag = numeric_tag(i);
        match numeric(input, tag.name()) {
            Some((x, n)) => {
                return Some((tag.make(x), n));
            },
            None => {},
        }
        i = i + 1;
    }
    None
}

/// The catch-all at the start of `s`: whatever stands before the next
/// backslash or the end of the block, kept as written. It may be empty.
pub open spec fn spec_fallback_style(s: Seq<char>) -> (TagModel, int) {
    let n = run_len(s, in_block());
    (TagModel::Other(s.take(n)), n)
}

/// Reads the text of a tag of no known shape.
pub fn fallback_style(input: &[char]) -> (r: (StyleOverride, usize))
    ensures
        (r.0.deep_view(), r.1 as int) == spec_fallback_style(input@),
        r.1 <= input.len(),
{
    let n = run(input, CharClass::Except('\\', '}', '}'));
    (StyleOverride::Other(to_text(head(input, n))), n)
}

/// The comma at the start of `s`, with the spaces, tabs and line ends on
/// either side of it.
pub open spec fn spec_separator(s: Seq<char>) -> Option<int> {
    let before = run_len(s, CharClass::LineSpace);
    if before < s.len() && s[before] == ',' {
        Some(before + 1 + run_len(s.skip(before + 1), CharClass::LineSpace))
    } else {
        None
    }
}

/// A separator is not empty and lies within the input.
pub proof fn lemma_separator_bounds(s: Seq<char>)
    ensures
        spec_separator(s) matches Some(n) ==> 0 < n <= s.len(),
{
    lemma_run_len_bounds(s, CharClass::LineSpace);
    let before = run_len(s, CharClass::LineSpace);
    if before < s.len() {
        lemma_run_len_bounds(s.skip(before + 1), CharClass::LineSpace);
    }
}

/// The comma that `input` begins with.
fn comma(input: &[char]) -> (r: Option<((), usize)>)
    ensures
        r == if input@.len() > 0 && input@[0] == ',' {
            Some(((), 1usize))
        } else {
            None
        },
{
    if input.len() > 0 && input[0] == ',' {
        Some(((), 1))
    } else {
        None
    }
}

fn separator(input: &[char]) -> (r: Option<usize>)
    ensures
        match r {
            Some(n) => spec_separator(input@) == Some(n as int) && 0 < n <= input.len(),
            None => spec_separator(input@) is None,
        },
{
    let found = ws(comma, input);
    proof {
        let before = run_len(input@, CharClass::LineSpace);
        lemma_run_len_bounds(input@, CharClass::LineSpace);
        match found {
            Some((value, n)) => {
                let (rest, m) = choose|rest: &[char], m: usize|
                    (#[trigger] ws_inner(comma, input@, rest, Some((value, m)))) && m
                        <= rest@.len() && n == before + m + run_len(
                        rest@.skip(m as int),
                        CharClass::LineSpace,
                    );
                assert(m == 1);
                assert(rest@[0] == input@[before]);
                assert(rest@.skip(1) =~= input@.skip(before + 1));
                lemma_run_len_bounds(input@.skip(before + 1), CharClass::LineSpace);
            },
            None => {
                let (rest, inner) = choose|rest: &[char], inner: Option<((), usize)>|
                    (#[trigger] ws_inner(comma, input@, rest, inner)) && (inner matches Some(
                        (_, m),
                    ) ==> m > rest@.len());
                if before < input@.len() {
                    assert(rest@[0] == input@[before]);
                }
            },
        }
    }
    match found {
        Some((_, n)) => Some(n),
        None => None,
    }
}

/// A separator and then a number.
pub open spec fn spec_next_number(s: Seq<char>) -> Option<(Seq<char>, int)> {
    match spec_separator(s) {
        Some(k) => match spec_number(s.skip(k)) {
            Some((x, n)) => Some((x, k + n)),
            None => None,
        },
        None => None,
    }
}

fn next_number(input: &[char]) -> (r: Option<(Number, usize)>)
    ensures
        parsed(r) == spec_next_number(input@),
        r matches Some((_, n)) ==> 0 < n <= input.len(),
{
    match separator(input) {
        Some(k) => match decimal_or_float(tail(input, k)) {
            Some((x, n)) => Some((x, k + n)),
            None => None,
        },
        None => None,
    }
}

/// A separator and then a decimal.
pub open spec fn spec_next_decimal(s: Seq<char>) -> Option<(u64, int)> {
    match spec_separator(s) {
        Some(k) => match spec_decimal(s.skip(k)) {
            Some((x, n)) => Some((x, k + n)),
            None => None,
        },
        None => None,
    }
}

fn next_decimal(input: &[char]) -> (r: Option<(u64, usize)>)
    ensures
        parsed(r) == spec_next_decimal(input@),
        r matches Some((_, n)) ==> 0 < n <= input.len(),
{
    match separator(input) {
        Some(k) => match decimal(tail(input, k)) {
            Some((x, n)) => Some((x, k + n)),
            None => None,
        },
        None => None,
    }
}

/// `count` numbers at the start of `s`, a separator between each two.
pub open spec fn spec_number_row(s: Seq<char>, count: nat) -> Option<(Seq<Seq<char>>, int)>
    decreases count,
{
    if count == 0 {
        Some((Seq::empty(), 0))
    } else if count == 1 {
        match spec_number(s) {
            Some((x, n)) => Some((seq![x], n)),
            None => None,
        }
    } else {
        match spec_number_row(s, (count - 1) as nat) {
            Some((xs, n)) => match spec_next_number(s.skip(n)) {
                Some((x, m)) => Some((xs.push(x), n + m)),
                None => None,
            },
            None => None,
        }
    }
}

fn number_row(input: &[char], count: usize) -> (r: Option<(Vec<Number>, usize)>)
    requires
        count >= 1,
    ensures
        match r {
            Some((xs, n)) => spec_number_row(input@, count as nat) == Some(
                (xs.deep_view(), n as int),
            ) && n <= input.len() && xs@.len() == count,
            None => spec_number_row(input@, count as nat) is None,
        },
{
    let mut out: Vec<Number> = Vec::new();
    let (first, n) = match decimal_or_float(input) {
        Some(p) => p,
        None => {
            proof {
                lemma_number_row_prefix(input@, 1, count as nat);
            }
            return None;
        },
    };
    let ghost first_model = first.deep_view();
    out.push(first);
    assert(out.deep_view() =~= seq![first_model]);
    let mut at: usize = n;
    let mut i: usize = 1;
    while i < count
        invariant
            1 <= i <= count,
            at <= input.len(),
            out@.len() == i,
            spec_number_row(input@, i as nat) == Some((out.deep_view(), at as int)),
        decreases count - i,
    {
        match next_number(tail(input, at)) {
            Some((x, m)) => {
                let ghost before = out.deep_view();
                let ghost xm = x.deep_view();
                out.push(x);
                assert(out.deep_view() =~= before.push(xm));
                at = at + m;
                i = i + 1;
            },
            None => {
                proof {
                    lemma_number_row_prefix(input@, (i + 1) as nat, count as nat);
                }
                return None;
            },
        }
    }
    Some((out, at))
}

/// A row that fails at some length fails at every greater length.
pub proof fn lemma_number_row_prefix(s: Seq<char>, short: nat, long: nat)
    requires
        1 <= short <= long,
        spec_number_row(s, short) is None,
    ensures
        spec_number_row(s, long) is None,
    decreases long,
{
    if short < long {
        lemma_number_row_prefix(s, short, (long - 1) as nat);
    }
}

/// `count` decimals at the start of `s`, a separator between each two.
pub open spec fn spec_decimal_row(s: Seq<char>, count: nat) -> Option<(Seq<u64>, int)>
    decreases count,
{
    if count == 0 {
        Some((Seq::empty(), 0))
    } else if count == 1 {
        match spec_decimal(s) {
            Some((x, n)) => Some((seq![x], n)),
            None => None,
        }
    } else {
        match spec_decimal_row(s, (count - 1) as nat) {
            Some((xs, n)) => match spec_next_decimal(s.skip(n)) {
                Some((x, m)) => Some((xs.push(x), n + m)),
                None => None,
            },
            None => None,
        }
    }
}

/// A row that fails at some length fails at every greater length.
pub proof fn lemma_decimal_row_prefix(s: Seq<char>, short: nat, long: nat)
    requires
        1 <= short <= long,
        spec_decimal_row(s, short) is None,
    ensures
        spec_decimal_row(s, long) is None,
    decreases long,
{
    if short < long {
        lemma_decimal_row_prefix(s, short, (long - 1) as nat);
    }
}

fn decimal_row(input: &[char], count: usize) -> (r: Option<(Vec<u64>, usize)>)
    requires
        count >= 1,
    ensures
        match r {
            Some((xs, n)) => spec_decimal_row(input@, count as nat) == Some((xs@, n as int)) && n
                <= input.len() && xs@.len() == count,
            None => spec_decimal_row(input@, count as nat) is None,
        },
{
    let mut out: Vec<u64> = Vec::new();
    let (first, n) = match decimal(input) {
        Some(p) => p,
        None => {
            proof {
                lemma_decimal_row_prefix(input@, 1, count as nat);
            }
            return None;
        },
    };
    out.push(first);
    assert(out@ =~= seq![first]);
    let mut at: usize = n;
    let mut i: usize = 1;
    while i < count
        invariant
            1 <= i <= count,
            at <= input.len(),
            out@.len() == i,
            spec_decimal_row(input@, i as nat) == Some((out@, at as int)),
        decreases count - i,
    {
        match next_decimal(tail(input, at)) {
            Some((x, m)) => {
                out.push(x);
                at = at + m;
                i = i + 1;
            },
            None => {
                proof {
                    lemma_decimal_row_prefix(input@, (i + 1) as nat, count as nat);
                }
                return None;
            },
        }
    }
    Some((out, at))
}

/// The tags that are written as a name and arguments in round brackets.
#[derive(Clone, Copy, Debug, PartialEq, Eq)]
pub enum Function {
    Move,
    Position,
    Fade,
    Clip,
    FadeInAndOut,
    Origin,
    Transition,
}

/// The function named at the start of `s`, and the length of the name. The
/// names are tried in this order.
pub open spec fn spec_function_name(s: Seq<char>) -> Option<(Function, int)> {
    if let Some(n) = spec_literal(s, "move"@) {
        Some((Function::Move, n))
    } else if let Some(n) = spec_literal(s, "pos"@) {
        Some((Function::Position, n))
    } else if let Some(n) = spec_literal(s, "fade"@) {
        Some((Function::Fade, n))
    } else if let Some(n) = spec_literal(s, "clip"@) {
        Some((Function::Clip, n))
    } else if let Some(n) = spec_literal(s, "fad"@) {
        Some((Function::FadeInAndOut, n))
    } else if let Some(n) = spec_literal(s, "org"@) {
        Some((Function::Origin, n))
    } else if let Some(n) = spec_literal(s, "t"@) {
        Some((Function::Transition, n))
    } else {
        None
    }
}

fn function_name(input: &[char]) -> (r: Option<(Function, usize)>)
    ensures
        match r {
            Some((f, n)) => spec_function_name(input@) == Some((f, n as int)) && 0 < n
                <= input.len(),
            None => spec_function_name(input@) is None,
        },
{
    proof {
        reveal_strlit("move");
        reveal_strlit("pos");
        reveal_strlit("fade");
        reveal_strlit("clip");
        reveal_strlit("fad");
        reveal_strlit("org");
        reveal_strlit("t");
    }
    if let Some(n) = literal(input, "move") {
        Some((Function::Move, n))
    } else if let Some(n) = literal(input, "pos") {
        Some((Function::Position, n))
    } else if let Some(n) = literal(input, "fade") {
        Some((Function::Fade, n))
    } else if let Some(n) = literal(input, "clip") {
        Some((Function::Clip, n))
    } else if let Some(n) = literal(input, "fad") {
        Some((Function::FadeInAndOut, n))
    } else if let Some(n) = literal(input, "org") {
        Some((Function::Origin, n))
    } else if let Some(n) = literal(input, "t") {
        Some((Function::Transition, n))
    } else {
        None
    }
}

/// A call at the start of `s`: the function, where its arguments begin and
/// how long they are. The arguments are what stands between `(` and the
/// first `)`; they may be empty.
pub struct Call {
    pub function: Function,
    pub from: int,
    pub len: int,
}

impl Call {
    /// The arguments of the call in `s`.
    pub open spec fn arguments(self, s: Seq<char>) -> Seq<char> {
        s.subrange(self.from, self.from + self.len)
    }

    /// The length of the whole call, brackets included.
    pub open spec fn span(self) -> int {
        self.from + self.len + 1
    }
}

/// The call at the start of `s`.
pub open spec fn spec_call(s: Seq<char>) -> Option<Call> {
    match spec_function_name(s) {
        Some((function, k)) => {
            let n = run_len(s.skip(k + 1), CharClass::Except(')', ')', ')'));
            if k < s.len() && s[k] == '(' && k + 1 + n < s.len() {
                Some(Call { function, from: k + 1, len: n })
            } else {
                None
            }
        },
        None => None,
    }
}

/// A call lies within the input, and its arguments hold no `)`.
pub proof fn lemma_call_bounds(s: Seq<char>)
    ensures
        spec_call(s) matches Some(call) ==> 2 <= call.from && 0 <= call.len && call.span()
            <= s.len(),
{
    if let Some((function, k)) = spec_function_name(s) {
        reveal_strlit("move");
        reveal_strlit("pos");
        reveal_strlit("fade");
        reveal_strlit("clip");
        reveal_strlit("fad");
        reveal_strlit("org");
        reveal_strlit("t");
        if k < s.len() {
            lemma_run_len_bounds(s.skip(k + 1), CharClass::Except(')', ')', ')'));
        }
    }
}

fn call(input: &[char]) -> (r: Option<(Function, usize, usize)>)
    ensures
        match r {
            Some((function, from, len)) => spec_call(input@) == Some(
                Call { function, from: from as int, len: len as int },
            ) && 2 <= from && from + len + 1 <= input.len(),
            None => spec_call(input@) is None,
        },
{
    match function_name(input) {
        Some((function, k)) => {
            if k < input.len() && input[k] == '(' {
                let n = run(tail(input, k + 1), CharClass::Except(')', ')', ')'));
                if k + 1 + n < input.len() {
                    return Some((function, k + 1, n));
                }
            }
            None
        },
        None => None,
    }
}

/// The time that may follow: a separator and a decimal of milliseconds, or
/// nothing.
pub open spec fn spec_optional_time(s: Seq<char>) -> (Option<Millis>, int) {
    match spec_next_decimal(s) {
        Some((ms, n)) => (Some(Millis(ms)), n),
        None => (None, 0),
    }
}

fn optional_time(input: &[char]) -> (r: (Option<Millis>, usize))
    ensures
        (r.0, r.1 as int) == spec_optional_time(input@),
        r.1 <= input.len(),
{
    match next_decimal(input) {
        Some((ms, n)) => (Some(Millis(ms)), n),
        None => (None, 0),
    }
}

/// The scale that may stand before the drawing of a clip: a number and a
/// separator, or nothing.
pub open spec fn spec_clip_scale(s: Seq<char>) -> (Option<Seq<char>>, int) {
    match spec_number(s) {
        Some((x, n)) => match spec_separator(s.skip(n)) {
            Some(k) => (Some(x), n + k),
            None => (None, 0),
        },
        None => (None, 0),
    }
}

fn clip_scale(input: &[char]) -> (r: (Option<Number>, usize))
    ensures
        (r.0.deep_view(), r.1 as int) == spec_clip_scale(input@),
        r.1 <= input.len(),
{
    match decimal_or_float(input) {
        Some((x, n)) => match separator(tail(input, n)) {
            Some(k) => (Some(x), n + k),
            None => (None, 0),
        },
        None => (None, 0),
    }
}

/// What the arguments `args` of a clip make: a rectangle where they begin
/// with four numbers; no clip at all where they are empty; and else a
/// drawing, with the scale that may stand before it. What the drawing
/// grammar does not take is passed over.
pub open spec fn spec_clip(args: Seq<char>) -> TagModel {
    match spec_number_row(args, 4) {
        Some((xs, _)) => TagModel::Clip { a_x: xs[0], a_y: xs[1], b_x: xs[2], b_y: xs[3] },
        None => if args.len() == 0 {
            TagModel::EmptyClip
        } else {
            let (scale, k) = spec_clip_scale(args);
            TagModel::ClipToDrawing(scale, spec_drawing(args.skip(k)).0)
        },
    }
}

/// What the arguments `args` of `function` make, for every function but the
/// transition, whose arguments hold tags.
///
/// A move takes four numbers and up to two times; a position and an origin
/// two numbers; a fade three alphas up to 255 and four times; a fade in and
/// out two times. What follows the arguments that a function takes is
/// passed over.
pub open spec fn spec_plain_function(function: Function, args: Seq<char>) -> Option<TagModel> {
    match function {
        Function::Move => match spec_number_row(args, 4) {
            Some((xs, n)) => {
                let (start, a) = spec_optional_time(args.skip(n));
                let (end, _) = spec_optional_time(args.skip(n + a));
                Some(
                    TagModel::Move {
                        start_x: xs[0],
                        start_y: xs[1],
                        end_x: xs[2],
                        end_y: xs[3],
                        start,
                        end,
                    },
                )
            },
            None => None,
        },
        Function::Position => match spec_number_row(args, 2) {
            Some((xs, _)) => Some(
                TagModel::Move {
                    start_x: xs[0],
                    start_y: xs[1],
                    end_x: xs[0],
                    end_y: xs[1],
                    start: Some(Millis(0)),
                    end: Some(Millis(0)),
                },
            ),
            None => None,
        },
        Function::Origin => match spec_number_row(args, 2) {
            Some((xs, _)) => Some(TagModel::Origin { x: xs[0], y: xs[1] }),
            None => None,
        },
        Function::Fade => match spec_decimal_row(args, 7) {
            Some((xs, _)) => if xs[0] <= u8::MAX && xs[1] <= u8::MAX && xs[2] <= u8::MAX {
                Some(
                    TagModel::Fade {
                        starting_alpha: xs[0] as u8,
                        middle_alpha: xs[1] as u8,
                        ending_alpha: xs[2] as u8,
                        start_time: Millis(xs[3]),
                        in_between_time: Millis(xs[4]),
                        late_time: Millis(xs[5]),
                        ending_time: Millis(xs[6]),
                    },
                )
            } else {
                None
            },
            None => None,
        },
        Function::FadeInAndOut => match spec_decimal_row(args, 2) {
            Some((xs, _)) => Some(
                TagModel::FadeInAndOut { fade_in_for: Millis(xs[0]), fade_out_for: Millis(xs[1]) },
            ),
            None => None,
        },
        Function::Clip => Some(spec_clip(args)),
        Function::Transition => None,
    }
}

fn clip(args: &[char]) -> (r: StyleOverride)
    ensures
        r.deep_view() == spec_clip(args@),
{
    match number_row(args, 4) {
        Some((xs, _)) => StyleOverride::Clip {
            a_x: xs[0].clone(),
            a_y: xs[1].clone(),
            b_x: xs[2].clone(),
            b_y: xs[3].clone(),
        },
        None => if args.len() == 0 {
            StyleOverride::EmptyClip
        } else {
            let (scale, k) = clip_scale(args);
            let (commands, _) = drawing(tail(args, k));
            StyleOverride::ClipToDrawing(scale, commands)
        },
    }
}

#[verifier::rlimit(40)]
fn plain_function(function: Function, args: &[char]) -> (r: Option<StyleOverride>)
    ensures
        r.deep_view() == spec_plain_function(function, args@),
{
    match function {
        Function::Move => match number_row(args, 4) {
            Some((xs, n)) => {
                let (start, a) = optional_time(tail(args, n));
                let (end, _) = optional_time(tail(args, n + a));
                Some(
                    StyleOverride::Move {
                        start_x: xs[0].clone(),
                        start_y: xs[1].clone(),
                        end_x: xs[2].clone(),
                        end_y: xs[3].clone(),
                        start,
                        end,
                    },
                )
            },
            None => None,
        },
        Function::Position => match number_row(args, 2) {
            Some((xs, _)) => Some(
                StyleOverride::Move {
                    start_x: xs[0].clone(),
                    start_y: xs[1].clone(),
                    end_x: xs[0].clone(),
                    end_y: xs[1].clone(),
                    start: Some(Millis(0)),
                    end: Some(Millis(0)),
                },
            ),
            None => None,
        },
        Function::Origin => match number_row(args, 2) {
            Some((xs, _)) => Some(
                StyleOverride::Origin { x: xs[0].clone(), y: xs[1].clone() },
            ),
            None => None,
        },
        Function::Fade => match decimal_row(args, 7) {
            Some((xs, _)) => if xs[0] <= 255 && xs[1] <= 255 && xs[2] <= 255 {
                Some(
                    StyleOverride::Fade {
                        starting_alpha: xs[0] as u8,
                        middle_alpha: xs[1] as u8,
                        ending_alpha: xs[2] as u8,
                        start_time: Millis(xs[3]),
                        in_between_time: Millis(xs[4]),
                        late_time: Millis(xs[5]),
                        ending_time: Millis(xs[6]),
                    },
                )
            } else {
                None
            },
            None => None,
        },
        Function::FadeInAndOut => match decimal_row(args, 2) {
            Some((xs, _)) => Some(
                StyleOverride::FadeInAndOut {
                    fade_in_for: Millis(xs[0]),
                    fade_out_for: Millis(xs[1]),
                },
            ),
            None => None,
        },
        Function::Clip => Some(clip(args)),
        Function::Transition => None,
    }
}

/// What stands before the tags of a transition.
pub struct TransitionHead {
    pub start: Option<Millis>,
    pub end: Option<Millis>,
    pub acceleration: Option<Seq<char>>,
    pub len: int,
}

/// The head of a transition at the start of `args`: a start time, an end
/// time after a separator, an acceleration after a separator. Each may be
/// missing, and what is missing spans nothing.
pub open spec fn spec_transition_head(args: Seq<char>) -> TransitionHead {
    let (start, a) = match spec_decimal(args) {
        Some((ms, n)) => (Some(Millis(ms)), n),
        None => (None, 0),
    };
    let (end, b) = spec_optional_time(args.skip(a));
    let (acceleration, c) = match spec_next_number(args.skip(a + b)) {
        Some((x, n)) => (Some(x), n),
        None => (None, 0),
    };
    TransitionHead { start, end, acceleration, len: a + b + c }
}

/// The head of a transition lies within its arguments.
pub proof fn lemma_transition_head_bounds(args: Seq<char>)
    ensures
        0 <= spec_transition_head(args).len <= args.len(),
{
    lemma_run_len_bounds(args, CharClass::Digit);
    let a = match spec_decimal(args) {
        Some((ms, n)) => n,
        None => 0,
    };
    let s1 = args.skip(a);
    lemma_separator_bounds(s1);
    if let Some(k) = spec_separator(s1) {
        lemma_run_len_bounds(s1.skip(k), CharClass::Digit);
    }
    let b = spec_optional_time(s1).1;
    let s2 = args.skip(a + b);
    lemma_separator_bounds(s2);
    if let Some(k) = spec_separator(s2) {
        lemma_number_len_bounds(s2.skip(k));
    }
}

fn transition_head(args: &[char]) -> (r: (Option<Millis>, Option<Millis>, Option<Number>, usize))
    ensures
        spec_transition_head(args@) == (TransitionHead {
            start: r.0,
            end: r.1,
            acceleration: r.2.deep_view(),
            len: r.3 as int,
        }),
        r.3 <= args.len(),
{
    let (start, a) = match decimal(args) {
        Some((ms, n)) => (Some(Millis(ms)), n),
        None => (None, 0),
    };
    let (end, b) = optional_time(tail(args, a));
    let (acceleration, c) = match next_number(tail(args, a + b)) {
        Some((x, n)) => (Some(x), n),
        None => (None, 0),
    };
    (start, end, acceleration, a + b + c)
}

/// The tag at the start of `s`, which begins with a backslash. There is
/// none where `s` begins otherwise; a tag of no known shape is kept as
/// `Other`.
pub open spec fn spec_style(s: Seq<char>) -> Result<Option<(TagModel, int)>, Fault>
    decreases s.len(), 2int,
{
    if s.len() > 0 && s[0] == '\\' {
        match spec_tag(s.skip(1)) {
            Ok((tag, n)) => Ok(Some((tag, n + 1))),
            Err(e) => Err(e.shifted(1)),
        }
    } else {
        Ok(None)
    }
}

/// The tag at the start of `s` that is written without brackets. The
/// shapes are tried in this order: a toggle, a font name, a colour, an
/// alpha, a numeric tag.
#[verifier::opaque]
pub open spec fn spec_simple_tag(s: Seq<char>) -> Result<Option<(TagModel, int)>, Fault> {
    if spec_bool_style(s) is Some {
        Ok(spec_bool_style(s))
    } else if spec_string_style(s) is Some {
        Ok(spec_string_style(s))
    } else {
        match spec_color_style(s) {
            Err(e) => Err(e),
            Ok(Some(found)) => Ok(Some(found)),
            Ok(None) => if spec_alpha_style(s) is Some {
                Ok(spec_alpha_style(s))
            } else {
                Ok(spec_number_style(s))
            },
        }
    }
}

/// What follows the backslash of a tag: a tag written without brackets,
/// else a function, else the catch-all, which takes anything.
pub open spec fn spec_tag(s: Seq<char>) -> Result<(TagModel, int), Fault>
    decreases s.len(), 1int,
{
    match spec_simple_tag(s) {
        Err(e) => Err(e),
        Ok(Some(found)) => Ok(found),
        Ok(None) => match spec_function(s) {
            Err(e) => Err(e),
            Ok(Some(found)) => Ok(found),
            Ok(None) => Ok(spec_fallback_style(s)),
        },
    }
}

/// The function tag at the start of `s`: a call whose arguments have the
/// shape that the function takes.
pub open spec fn spec_function(s: Seq<char>) -> Result<Option<(TagModel, int)>, Fault>
    decreases s.len(), 0int,
{
    match spec_call(s) {
        Some(call) => if call.function == Function::Transition {
            proof {
                lemma_call_bounds(s);
            }
            match spec_transition(call.arguments(s)) {
                Ok(Some(tag)) => Ok(Some((tag, call.span()))),
                Ok(None) => Ok(None),
                Err(e) => Err(e.shifted(call.from)),
            }
        } else {
            match spec_plain_function(call.function, call.arguments(s)) {
                Some(tag) => Ok(Some((tag, call.span()))),
                None => Ok(None),
            }
        },
        None => Ok(None),
    }
}

/// What the arguments `args` of a transition make: the head, a separator,
/// and tags set apart by commas. What follows the tags is passed over.
pub open spec fn spec_transition(args: Seq<char>) -> Result<Option<TagModel>, Fault>
    decreases args.len(), 4int,
{
    let head = spec_transition_head(args);
    match spec_separator(args.skip(head.len)) {
        Some(k) => {
            proof {
                lemma_transition_head_bounds(args);
                lemma_separator_bounds(args.skip(head.len));
            }
            match spec_styles(args.skip(head.len + k)) {
                Ok(styles) => Ok(
                    Some(
                        TagModel::Transition {
                            start: head.start,
                            end: head.end,
                            acceleration: head.acceleration,
                            styles,
                        },
                    ),
                ),
                Err(e) => Err(e.shifted(head.len + k)),
            }
        },
        None => Ok(None),
    }
}

/// The tags at the start of `s`, a comma between each two. There may be
/// none. (A tag lies within its input, as `lemma_style_bounds` shows; the
/// test of its length is what lets the definition be seen to end.)
pub open spec fn spec_styles(s: Seq<char>) -> Result<Seq<TagModel>, Fault>
    decreases s.len(), 3int,
{
    match spec_style(s) {
        Err(e) => Err(e),
        Ok(None) => Ok(Seq::empty()),
        Ok(Some((tag, n))) => if 0 < n <= s.len() {
            joined(seq![tag], n, spec_more_styles(s.skip(n)))
        } else {
            Ok(seq![tag])
        },
    }
}

/// The tags that follow the first of a list: as long as a comma and then a
/// tag follow, the tag is taken. (The test of the length of the tag is, as
/// in `spec_styles`, always met.)
pub open spec fn spec_more_styles(s: Seq<char>) -> Result<Seq<TagModel>, Fault>
    decreases s.len(), 3int,
{
    if s.len() > 0 && s[0] == ',' {
        match spec_style(s.skip(1)) {
            Err(e) => Err(e.shifted(1)),
            Ok(None) => Ok(Seq::empty()),
            Ok(Some((tag, n))) => if 0 < n < s.len() {
                after(tag, 1 + n, spec_more_styles(s.skip(1 + n)))
            } else {
                Ok(seq![tag])
            },
        }
    } else {
        Ok(Seq::empty())
    }
}

/// The model of a transition holds the models of its tags.
pub proof fn lemma_transition_model(
    start: Option<Millis>,
    end: Option<Millis>,
    acceleration: Option<Number>,
    styles: Vec<StyleOverride>,
)
    ensures
        (StyleOverride::Transition { start, end, acceleration, styles }).deep_view()
            == (TagModel::Transition {
            start,
            end,
            acceleration: acceleration.deep_view(),
            styles: styles.deep_view(),
        }),
{
    let whole = (StyleOverride::Transition { start, end, acceleration, styles }).model();
    match whole {
        TagModel::Transition { styles: models, .. } => {
            assert(models =~= styles.deep_view());
        },
        _ => {},
    }
}

/// Reads one tag, backslash first.
#[verifier::rlimit(40)]
pub fn style(input: &[char]) -> (r: Result<Option<(StyleOverride, usize)>, ParseError>)
    ensures
        scanned(r) == spec_style(input@),
        r matches Ok(Some((_, n))) ==> 0 < n <= input.len(),
        r matches Err(e) ==> e.offset <= input.len(),
    decreases input.len(), 2int,
{
    if input.len() > 0 && input[0] == '\\' {
        match tag(tail(input, 1)) {
            Ok((found, n)) => Ok(Some((found, n + 1))),
            Err(e) => Err(ParseError { kind: e.kind, offset: e.offset + 1 }),
        }
    } else {
        Ok(None)
    }
}

#[verifier::rlimit(40)]
fn simple_tag(input: &[char]) -> (r: Result<Option<(StyleOverride, usize)>, ParseError>)
    ensures
        scanned(r) == spec_simple_tag(input@),
        r matches Ok(Some((_, n))) ==> 0 < n <= input.len(),
        r matches Err(e) ==> e.offset <= input.len(),
{
    reveal(spec_simple_tag);
    if let Some(found) = bool_style(input) {
        return Ok(Some(found));
    }
    if let Some(found) = string_style(input) {
        return Ok(Some(found));
    }
    match color_style(input) {
        Err(e) => { return Err(e); },
        Ok(Some(found)) => { return Ok(Some(found)); },
        Ok(None) => {},
    }
    if let Some(found) = alpha_style(input) {
        return Ok(Some(found));
    }
    Ok(number_style(input))
}

fn tag(input: &[char]) -> (r: Result<(StyleOverride, usize), ParseError>)
    ensures
        crate::error::outcome(r) == spec_tag(input@),
        r matches Ok((_, n)) ==> n <= input.len(),
        r matches Err(e) ==> e.offset <= input.len(),
    decreases input.len(), 1int,
{
    match simple_tag(input) {
        Err(e) => Err(e),
        Ok(Some(found)) => Ok(found),
        Ok(None) => match function(input) {
            Err(e) => Err(e),
            Ok(Some(found)) => Ok(found),
            Ok(None) => Ok(fallback_style(input)),
        },
    }
}

/// Reads a function tag: a name and arguments in round brackets.
#[verifier::rlimit(40)]
pub fn function(input: &[char]) -> (r: Result<Option<(StyleOverride, usize)>, ParseError>)
    ensures
        scanned(r) == spec_function(input@),
        r matches Ok(Some((_, n))) ==> 0 < n <= input.len(),
        r matches Err(e) ==> e.offset <= input.len(),
    decreases input.len(), 0int,
{
    match call(input) {
        Some((function, from, len)) => {
            let args = crate::scan::span(input, from, from + len);
            match function {
                Function::Transition => match transition(args) {
                    Ok(Some(found)) => Ok(Some((found, from + len + 1))),
                    Ok(None) => Ok(None),
                    Err(e) => Err(ParseError { kind: e.kind, offset: e.offset + from }),
                },
                _ => match plain_function(function, args) {
                    Some(found) => Ok(Some((found, from + len + 1))),
                    None => Ok(None),
                },
            }
        },
        None => Ok(None),
    }
}

fn transition(args: &[char]) -> (r: Result<Option<StyleOverride>, ParseError>)
    ensures
        match r {
            Ok(Some(found)) => spec_transition(args@) == Ok::<Option<TagModel>, Fault>(
                Some(found.deep_view()),
            ),
            Ok(None) => spec_transition(args@) == Ok::<Option<TagModel>, Fault>(None),
            Err(e) => spec_transition(args@) == Err::<Option<TagModel>, Fault>(e.deep_view())
                && e.offset <= args.len(),
        },
    decreases args.len(), 4int,
{
    let (start, end, acceleration, len) = transition_head(args);
    match separator(tail(args, len)) {
        Some(k) => match styles(tail(args, len + k)) {
            Ok(found) => {
                proof {
                    lemma_transition_model(start, end, acceleration, found);
                }
                Ok(Some(StyleOverride::Transition { start, end, acceleration, styles: found }))
            },
            Err(e) => Err(ParseError { kind: e.kind, offset: e.offset + len + k }),
        },
        None => Ok(None),
    }
}

/// What a comma and a tag at the start of `s` make of the list that goes
/// on there.
proof fn lemma_more_styles_unfold(s: Seq<char>)
    ensures
        spec_more_styles(s) == if s.len() > 0 && s[0] == ',' {
            match spec_style(s.skip(1)) {
                Err(e) => Err(e.shifted(1)),
                Ok(None) => Ok(Seq::empty()),
                Ok(Some((tag, n))) => if 0 < n < s.len() {
                    after(tag, 1 + n, spec_more_styles(s.skip(1 + n)))
                } else {
                    Ok(seq![tag])
                },
            }
        } else {
            Ok(Seq::empty())
        },
{
}

/// What a first tag at the start of `s` makes of the list that begins
/// there.
proof fn lemma_styles_unfold(s: Seq<char>)
    ensures
        spec_styles(s) == match spec_style(s) {
            Err(e) => Err(e),
            Ok(None) => Ok(Seq::empty()),
            Ok(Some((tag, n))) => if 0 < n <= s.len() {
                joined(seq![tag], n, spec_more_styles(s.skip(n)))
            } else {
                Ok(seq![tag])
            },
        },
{
}

#[verifier::rlimit(40)]
fn styles(input: &[char]) -> (r: Result<Vec<StyleOverride>, ParseError>)
    ensures
        match r {
            Ok(found) => spec_styles(input@) == Ok::<Seq<TagModel>, Fault>(found.deep_view()),
            Err(e) => spec_styles(input@) == Err::<Seq<TagModel>, Fault>(e.deep_view())
                && e.offset <= input.len(),
        },
    decreases input.len(), 3int,
{
    let mut out: Vec<StyleOverride> = Vec::new();
    proof {
        lemma_styles_unfold(input@);
    }
    let (first, n) = match style(input) {
        Err(e) => { return Err(e); },
        Ok(None) => {
            assert(out.deep_view() =~= Seq::<TagModel>::empty());
            return Ok(out);
        },
        Ok(Some(found)) => found,
    };
    let ghost first_model = first.deep_view();
    out.push(first);
    assert(out.deep_view() =~= seq![first_model]);
    let mut at: usize = n;
    loop
        invariant
            0 < at <= input.len(),
            spec_styles(input@) == joined(
                out.deep_view(),
                at as int,
                spec_more_styles(input@.skip(at as int)),
            ),
        decreases input.len() - at,
    {
        let rest = tail(input, at);
        proof {
            lemma_more_styles_unfold(rest@);
            lemma_joined_end(out.deep_view(), at as int);
        }
        if !(rest.len() > 0 && rest[0] == ',') {
            return Ok(out);
        }
        match style(tail(rest, 1)) {
            Err(e) => {
                return Err(ParseError { kind: e.kind, offset: e.offset + 1 + at });
            },
            Ok(None) => {
                return Ok(out);
            },
            Ok(Some((next, m))) => {
                let ghost before = out.deep_view();
                let ghost next_model = next.deep_view();
                out.push(next);
                proof {
                    assert(out.deep_view() =~= before.push(next_model));
                    assert(rest@.skip(1 + m) =~= input@.skip(at + 1 + m));
                    lemma_joined_step(
                        before,
                        at as int,
                        next_model,
                        1 + m,
                        spec_more_styles(input@.skip(at + 1 + m)),
                    );
                }
                at = at + 1 + m;
            },
        }
    }
}

/// A numeric tag is not empty and lies within the input.
pub proof fn lemma_number_style_bounds(s: Seq<char>, i: int)
    requires
        0 <= i,
    ensures
        spec_number_style_from(s, i) matches Some((_, n)) ==> 0 < n <= s.len(),
    decreases NUMERIC_TAGS - i,
{
    if i < NUMERIC_TAGS {
        let name = spec_numeric_tag(i).spec_name();
        if let Some(k) = spec_literal(s, name) {
            lemma_number_len_bounds(s.skip(k));
        }
        lemma_number_style_bounds(s, i + 1);
    }
}

/// A tag written without brackets is not empty and lies within the input.
pub proof fn lemma_simple_tag_bounds(s: Seq<char>)
    ensures
        spec_simple_tag(s) matches Ok(Some((_, n))) ==> 0 < n <= s.len(),
{
    reveal(spec_simple_tag);
    reveal_strlit("c&H");
    reveal_strlit("alpha&H");
    reveal_strlit("a&");
    lemma_run_len_bounds(s.skip(2), in_block());
    lemma_run_len_bounds(s, CharClass::Digit);
    let (channel, k) = spec_channel(s);
    let t = s.skip(k);
    lemma_run_len_bounds(t.skip(3), CharClass::Except('&', '&', '&'));
    lemma_number_style_bounds(s, 0);
}

/// A tag is not empty and lies within the input.
pub proof fn lemma_style_bounds(s: Seq<char>)
    ensures
        spec_style(s) matches Ok(Some((_, n))) ==> 0 < n <= s.len(),
{
    if s.len() > 0 && s[0] == '\\' {
        let t = s.skip(1);
        lemma_simple_tag_bounds(t);
        lemma_call_bounds(t);
        lemma_run_len_bounds(t, in_block());
    }
}

/// Resilience: whatever follows a backslash makes a tag, if only the
/// catch-all; and nothing but a colour tag that holds no colour makes a tag
/// fail.
pub proof fn lemma_style_total(s: Seq<char>)
    ensures
        s.len() > 0 && s[0] == '\\' ==> !(spec_style(s) matches Ok(None)),
        spec_style(s) matches Err(e) ==> e.kind == ErrorKind::InvalidColor,
    decreases s.len(), 2int,
{
    if s.len() > 0 && s[0] == '\\' {
        let t = s.skip(1);
        reveal(spec_simple_tag);
        if spec_simple_tag(t) matches Ok(None) {
            if let Some(call) = spec_call(t) {
                if call.function == Function::Transition {
                    lemma_call_bounds(t);
                    let args = call.arguments(t);
                    let head = spec_transition_head(args);
                    if let Some(k) = spec_separator(args.skip(head.len)) {
                        lemma_transition_head_bounds(args);
                        lemma_separator_bounds(args.skip(head.len));
                        lemma_styles_total(args.skip(head.len + k));
                    }
                }
            }
        }
    }
}

/// Nothing but a colour tag that holds no colour makes a list of tags fail.
pub proof fn lemma_styles_total(s: Seq<char>)
    ensures
        spec_styles(s) matches Err(e) ==> e.kind == ErrorKind::InvalidColor,
    decreases s.len(), 3int,
{
    lemma_style_total(s);
    if let Ok(Some((tag, n))) = spec_style(s) {
        if 0 < n <= s.len() {
            lemma_more_styles_total(s.skip(n));
        }
    }
}

/// Nothing but a colour tag that holds no colour makes the rest of a list
/// of tags fail.
pub proof fn lemma_more_styles_total(s: Seq<char>)
    ensures
        spec_more_styles(s) matches Err(e) ==> e.kind == ErrorKind::InvalidColor,
    decreases s.len(), 3int,
{
    if s.len() > 0 && s[0] == ',' {
        lemma_style_total(s.skip(1));
        if let Ok(Some((tag, n))) = spec_style(s.skip(1)) {
            if 0 < n < s.len() {
                lemma_more_styles_total(s.skip(1 + n));
            }
        }
    }
}

/// A clip with its brackets is always a tag: what is neither four numbers
/// nor empty is taken for a drawing.
pub proof fn lemma_clip_total(args: Seq<char>)
    ensures
        spec_plain_function(Function::Clip, args) is Some,
{
}

/// The arguments of a call hold no closing bracket, so that no call stands
/// anywhere in them: a function inside a function is never read as one.
pub proof fn lemma_no_call_in_arguments(s: Seq<char>, from: int)
    requires
        spec_call(s) is Some,
        0 <= from <= spec_call(s)->0.len,
    ensures
        spec_call(spec_call(s)->0.arguments(s).skip(from)) is None,
{
    let call = spec_call(s)->0;
    lemma_call_bounds(s);
    let k = call.from;
    let args = call.arguments(s);
    lemma_run_len_bounds(s.skip(k), CharClass::Except(')', ')', ')'));
    assert forall|i: int| 0 <= i < args.len() implies args[i] != ')' by {
        assert(args[i] == s.skip(k)[i]);
    }
    let inner = args.skip(from);
    assert forall|i: int| 0 <= i < inner.len() implies inner[i] != ')' by {
        assert(inner[i] == args[from + i]);
    }
    if let Some((function, j)) = spec_function_name(inner) {
        let rest = inner.skip(j + 1);
        let n = run_len(rest, CharClass::Except(')', ')', ')'));
        if j < inner.len() && j + 1 + n < inner.len() {
            lemma_run_len_bounds(rest, CharClass::Except(')', ')', ')'));
            assert(rest[n] == inner[j + 1 + n]);
        }
    }
}

/// Tag priority: in the order in which the names of the numeric tags are
/// tried, no name comes before a longer name that it begins. So a tag is
/// never taken for a shorter one: `frz` is not read as `fr`, nor `fscx` as
/// `fs`.
pub proof fn lemma_longer_names_first(i: int, j: int)
    requires
        0 <= i < j < NUMERIC_TAGS,
    ensures
        !spec_numeric_tag(i).spec_name().is_prefix_of(spec_numeric_tag(j).spec_name()),
{
    reveal_strlit("frx");
    reveal_strlit("fry");
    reveal_strlit("frz");
    reveal_strlit("fr");
    reveal_strlit("fscx");
    reveal_strlit("fscy");
    reveal_strlit("fsp");
    reveal_strlit("fs");
    reveal_strlit("bord");
    reveal_strlit("shad");
    reveal_strlit("an");
    reveal_strlit("a");
    reveal_strlit("k");
    reveal_strlit("q");
    reveal_strlit("b");
    reveal_strlit("p");
    let a = spec_numeric_tag(i).spec_name();
    let b = spec_numeric_tag(j).spec_name();
    if a.len() <= b.len() {
        assert(a[0] == b.subrange(0, a.len() as int)[0] || a != b.subrange(0, a.len() as int));
        if a.len() >= 2 {
            assert(a[1] == b.subrange(0, a.len() as int)[1] || a != b.subrange(
                0,
                a.len() as int,
            ));
        }
        if a.len() >= 3 {
            assert(a[2] == b.subrange(0, a.len() as int)[2] || a != b.subrange(
                0,
                a.len() as int,
            ));
        }
        if a.len() >= 4 {
            assert(a[3] == b.subrange(0, a.len() as int)[3] || a != b.subrange(
                0,
                a.len() as int,
            ));
        }
    }
}

} // verus!
