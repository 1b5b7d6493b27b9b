//! The text of a dialogue line: plain runs, blocks of tags, and drawings.

use crate::drawing::{
    clone_commands, drawing, lemma_drawing_bounds, spec_drawing, DrawingCommand, DrawingModel,
};
use crate::error::{
    after, after_span, joined, joined_span, lemma_joined_end, lemma_joined_span_end,
    lemma_joined_span_start, lemma_joined_span_step, lemma_joined_start, lemma_joined_step,
    scanned, ErrorKind, Fault, ParseError,
};
use crate::number::{is_positive, spec_bits, spec_is_positive};
use crate::scan::{head, lemma_run_len_bounds, run, run_len, tail, to_text, CharClass};
use crate::tags::{
    clone_tags, lemma_style_bounds, lemma_style_total, spec_style, style, StyleOverride, TagModel,
};
use vstd::prelude::*;

verus! {

/// One stretch of the text of a dialogue line.
#[derive(Debug, PartialEq, Eq)]
pub enum TextSection {
    /// Text to show as it stands.
    Text(String),
    /// The tags of one `{...}` block, in order.
    StyleOverride(Vec<StyleOverride>),
    /// The commands of a drawing, in order.
    Drawing(Vec<DrawingCommand>),
}

/// What a stretch of text is, with its contents as models.
pub enum TextModel {
    Text(Seq<char>),
    StyleOverride(Seq<TagModel>),
    Drawing(Seq<DrawingModel>),
}

impl DeepView for TextSection {
    type V = TextModel;

    open spec fn deep_view(&self) -> TextModel {
        match *self {
            TextSection::Text(s) => TextModel::Text(s@),
            TextSection::StyleOverride(tags) => TextModel::StyleOverride(tags.deep_view()),
            TextSection::Drawing(commands) => TextModel::Drawing(commands.deep_view()),
        }
    }
}

impl Clone for TextSection {
    fn clone(&self) -> (r: TextSection)
        ensures
            r.deep_view() == self.deep_view(),
    {
        match self {
            TextSection::Text(s) => TextSection::Text(s.clone()),
            TextSection::StyleOverride(tags) => TextSection::StyleOverride(clone_tags(tags)),
            TextSection::Drawing(commands) => TextSection::Drawing(clone_commands(commands)),
        }
    }
}

/// A copy of a list of sections.
pub fn clone_sections(sections: &Vec<TextSection>) -> (r: Vec<TextSection>)
    ensures
        r.deep_view() == sections.deep_view(),
{
    let mut out: Vec<TextSection> = Vec::new();
    let mut i: usize = 0;
    while i < sections.len()
        invariant
            i <= sections.len(),
            out@.len() == i,
            forall|k: int|
                0 <= k < i ==> (#[trigger] out@[k]).deep_view() == sections@[k].deep_view(),
        decreases sections.len() - i,
    {
        out.push(sections[i].clone());
        i = i + 1;
    }
    assert(out.deep_view() =~= sections.deep_view());
    out
}

/// What stands in a block from `s` on, up to its closing brace, and how
/// long it is: a tag wherever a backslash stands, and anything else, up to
/// the brace, kept as `Other`.
pub open spec fn spec_block_items(s: Seq<char>) -> Result<(Seq<TagModel>, int), Fault>
    decreases s.len(),
{
    if s.len() > 0 && s[0] == '\\' {
        match spec_style(s) {
            Err(e) => Err(e),
            Ok(Some((tag, n))) => {
                proof {
                    lemma_style_bounds(s);
                }
                after_span(tag, n, spec_block_items(s.skip(n)))
            },
            Ok(None) => Ok((Seq::empty(), 0)),
        }
    } else {
        let n = run_len(s, CharClass::Except('}', '}', '}'));
        if n > 0 {
            Ok((seq![TagModel::Other(s.take(n))], n))
        } else {
            Ok((Seq::empty(), 0))
        }
    }
}

/// The block at the start of `s`: `{`, what stands in it, and `}`. There is
/// none where `s` does not begin with `{`; a block that is not closed is a
/// structural failure at its opening brace.
pub open spec fn spec_style_override(s: Seq<char>) -> Result<Option<(Seq<TagModel>, int)>, Fault> {
    if s.len() > 0 && s[0] == '{' {
        match spec_block_items(s.skip(1)) {
            Err(e) => Err(e.shifted(1)),
            Ok((tags, n)) => if 1 + n < s.len() && s[1 + n] == '}' {
                Ok(Some((tags, n + 2)))
            } else {
                Err(Fault { kind: ErrorKind::UnterminatedBlock, offset: 0 })
            },
        }
    } else {
        Ok(None)
    }
}

/// What stands in a block lies within the input.
pub proof fn lemma_block_items_bounds(s: Seq<char>)
    ensures
        spec_block_items(s) matches Ok((_, n)) ==> 0 <= n <= s.len(),
    decreases s.len(),
{
    if s.len() > 0 && s[0] == '\\' {
        lemma_style_bounds(s);
        if let Ok(Some((tag, n))) = spec_style(s) {
            lemma_block_items_bounds(s.skip(n));
        }
    } else {
        lemma_run_len_bounds(s, CharClass::Except('}', '}', '}'));
    }
}

/// A block has its two braces at least and lies within the input.
pub proof fn lemma_style_override_bounds(s: Seq<char>)
    ensures
        spec_style_override(s) matches Ok(Some((_, n))) ==> 2 <= n <= s.len(),
{
    if s.len() > 0 {
        lemma_block_items_bounds(s.skip(1));
    }
}

/// Reads the tags of one block, braces included.
#[verifier::rlimit(40)]
pub fn style_override(input: &[char]) -> (r: Result<Option<(Vec<StyleOverride>, usize)>, ParseError>)
    ensures
        scanned(r) == spec_style_override(input@),
        r matches Ok(Some((_, n))) ==> 2 <= n <= input.len(),
        r matches Err(e) ==> e.offset <= input.len(),
{
    if !(input.len() > 0 && input[0] == '{') {
        return Ok(None);
    }
    let body = tail(input, 1);
    let mut out: Vec<StyleOverride> = Vec::new();
    let mut at: usize = 0;
    proof {
        lemma_joined_span_start(spec_block_items(body@));
        assert(out.deep_view() =~= Seq::<TagModel>::empty());
        assert(body@.skip(0) =~= body@);
    }
    loop
        invariant_except_break
            spec_block_items(body@) == joined_span(
                out.deep_view(),
                at as int,
                spec_block_items(body@.skip(at as int)),
            ),
        invariant
            at <= body.len(),
            body.len() + 1 == input.len(),
            body@ == input@.skip(1),
            input@[0] == '{',
        ensures
            spec_block_items(body@) == Ok::<(Seq<TagModel>, int), Fault>(
                (out.deep_view(), at as int),
            ),
        decreases body.len() - at,
    {
        let rest = tail(body, at);
        proof {
            lemma_joined_span_end(out.deep_view(), at as int);
        }
        if rest.len() > 0 && rest[0] == '\\' {
            match style(rest) {
                Err(e) => {
                    return Err(ParseError { kind: e.kind, offset: e.offset + at + 1 });
                },
                Ok(None) => {
                    break ;
                },
                Ok(Some((tag, n))) => {
                    let ghost before = out.deep_view();
                    let ghost model = tag.deep_view();
                    out.push(tag);
                    proof {
                        assert(out.deep_view() =~= before.push(model));
                        assert(rest@.skip(n as int) =~= body@.skip(at + n));
                        lemma_joined_span_step(
                            before,
                            at as int,
                            model,
                            n as int,
                            spec_block_items(body@.skip(at + n)),
                        );
                    }
                    at = at + n;
                },
            }
        } else {
            let n = run(rest, CharClass::Except('}', '}', '}'));
            if n > 0 {
                let ghost before = out.deep_view();
                out.push(StyleOverride::Other(to_text(head(rest, n))));
                proof {
                    let model = TagModel::Other(rest@.take(n as int));
                    assert(out.deep_view() =~= before.push(model));
                    assert(before + seq![model] =~= before.push(model));
                }
                at = at + n;
            }
            break ;
        }
    }
    if at < body.len() && body[at] == '}' {
        Ok(Some((out, at + 2)))
    } else {
        Err(ParseError { kind: ErrorKind::UnterminatedBlock, offset: 0 })
    }
}

/// Whether a block switches drawing on: its last tag is a drawing mode
/// greater than zero.
pub open spec fn spec_enables_drawing(tags: Seq<TagModel>) -> bool {
    tags.len() > 0 && (tags.last() matches TagModel::DrawingMode(x) && spec_is_positive(
        spec_bits(x),
    ))
}

/// Whether the tags of a block switch drawing on.
pub fn enables_drawing(tags: &Vec<StyleOverride>) -> (r: bool)
    ensures
        r == spec_enables_drawing(tags.deep_view()),
{
    let n = tags.len();
    if n == 0 {
        return false;
    }
    assert(tags.deep_view().last() == tags@[n - 1].deep_view());
    match &tags[n - 1] {
        StyleOverride::DrawingMode(x) => is_positive(x.bits()),
        _ => false,
    }
}

/// One step of the segmenter: the section read, its length, and whether
/// what follows it is read in drawing mode.
pub struct Step {
    pub section: TextModel,
    pub len: int,
    pub drawing: bool,
}

/// The section at the start of the text `s`, read in drawing mode or not.
///
/// In drawing mode the section is a drawing, whatever it holds, and the
/// mode ends with it. Otherwise the section is the text up to the next `{`,
/// or else the block that begins there, and the block decides the mode of
/// what follows it. An empty text gives an empty run of text.
#[verifier::opaque]
pub open spec fn spec_next_section(s: Seq<char>, drawing: bool) -> Result<Step, Fault> {
    let text = run_len(s, CharClass::Except('{', '{', '{'));
    if drawing {
        Ok(Step { section: TextModel::Drawing(spec_drawing(s).0), len: spec_drawing(s).1, drawing: false })
    } else if text > 0 {
        Ok(Step { section: TextModel::Text(s.take(text)), len: text, drawing: false })
    } else {
        match spec_style_override(s) {
            Err(e) => Err(e),
            Ok(Some((tags, n))) => Ok(
                Step {
                    section: TextModel::StyleOverride(tags),
                    len: n,
                    drawing: spec_enables_drawing(tags),
                },
            ),
            Ok(None) => Ok(Step { section: TextModel::Text(Seq::empty()), len: 0, drawing: false }),
        }
    }
}

/// A section lies within a text, and of a text that is not empty it takes
/// at least one character, or else ends drawing mode.
pub proof fn lemma_next_section_bounds(s: Seq<char>, drawing: bool)
    ensures
        spec_next_section(s, drawing) matches Ok(step) ==> 0 <= step.len <= s.len() && (step.len
            > 0 || (drawing && !step.drawing) || s.len() == 0),
{
    reveal(spec_next_section);
    lemma_drawing_bounds(s);
    lemma_run_len_bounds(s, CharClass::Except('{', '{', '{'));
    lemma_style_override_bounds(s);
}

/// The sections of the text `s`, read in drawing mode or not: section after
/// section, each read in the mode that the one before it left, until the
/// text is used up.
pub open spec fn spec_sections(s: Seq<char>, drawing: bool) -> Result<Seq<TextModel>, Fault>
    decreases s.len(), (if drawing { 1int } else { 0int }),
{
    if s.len() == 0 {
        Ok(Seq::empty())
    } else {
        match spec_next_section(s, drawing) {
            Err(e) => Err(e),
            Ok(step) => {
                proof {
                    lemma_next_section_bounds(s, drawing);
                }
                after(step.section, step.len, spec_sections(s.skip(step.len), step.drawing))
            },
        }
    }
}

/// The sections of a whole text: reading begins outside drawing mode.
pub open spec fn spec_text_line(s: Seq<char>) -> Result<Seq<TextModel>, Fault> {
    spec_sections(s, false)
}

/// Reads the next section of a text, in drawing mode or not, and says in
/// which mode to go on. Of a text that is not empty it reads at least one
/// character, or else leaves drawing mode.
#[verifier::rlimit(40)]
pub fn next_section(input: &[char], in_drawing: bool) -> (r: Result<
    (TextSection, usize, bool),
    ParseError,
>)
    ensures
        match r {
            Ok((section, n, next)) => spec_next_section(input@, in_drawing) == Ok::<Step, Fault>(
                Step { section: section.deep_view(), len: n as int, drawing: next },
            ) && n <= input.len() && (n > 0 || (in_drawing && !next) || input.len() == 0),
            Err(e) => spec_next_section(input@, in_drawing) == Err::<Step, Fault>(e.deep_view())
                && e.offset <= input.len(),
        },
{
    reveal(spec_next_section);
    if in_drawing {
        let (commands, n) = drawing(input);
        return Ok((TextSection::Drawing(commands), n, false));
    }
    let n = run(input, CharClass::Except('{', '{', '{'));
    if n > 0 {
        return Ok((TextSection::Text(to_text(head(input, n))), n, false));
    }
    match style_override(input) {
        Err(e) => Err(e),
        Ok(Some((tags, m))) => {
            let next = enables_drawing(&tags);
            Ok((TextSection::StyleOverride(tags), m, next))
        },
        Ok(None) => {
            proof {
                lemma_run_len_bounds(input@, CharClass::Except('{', '{', '{'));
            }
            Ok((TextSection::Text(String::new()), 0, false))
        },
    }
}

/// Splits the text of a dialogue line into its sections.
#[verifier::rlimit(40)]
pub fn text_line(input: &[char]) -> (r: Result<Vec<TextSection>, ParseError>)
    ensures
        match r {
            Ok(sections) => spec_text_line(input@) == Ok::<Seq<TextModel>, Fault>(
                sections.deep_view(),
            ),
            Err(e) => spec_text_line(input@) == Err::<Seq<TextModel>, Fault>(e.deep_view())
                && e.offset <= input.len(),
        },
{
    let mut out: Vec<TextSection> = Vec::new();
    let mut at: usize = 0;
    let mut in_drawing = false;
    proof {
        lemma_joined_start(spec_sections(input@, false));
        assert(out.deep_view() =~= Seq::<TextModel>::empty());
        assert(input@.skip(0) =~= input@);
    }
    while at < input.len()
        invariant
            at <= input.len(),
            spec_text_line(input@) == joined(
                out.deep_view(),
                at as int,
                spec_sections(input@.skip(at as int), in_drawing),
            ),
        decreases input.len() - at, (if in_drawing { 1int } else { 0int }),
    {
        let rest = tail(input, at);
        let ghost before = out.deep_view();
        match next_section(rest, in_drawing) {
            Err(e) => {
                return Err(ParseError { kind: e.kind, offset: e.offset + at });
            },
            Ok((section, n, next)) => {
                let ghost model = section.deep_view();
                out.push(section);
                proof {
                    assert(out.deep_view() =~= before.push(model));
                    assert(rest@.skip(n as int) =~= input@.skip(at + n));
                    lemma_joined_step(
                        before,
                        at as int,
                        model,
                        n as int,
                        spec_sections(input@.skip(at + n), next),
                    );
                }
                at = at + n;
                in_drawing = next;
            },
        }
    }
    proof {
        lemma_joined_end(out.deep_view(), at as int);
    }
    Ok(out)
}

/// The handoff to the drawing grammar: outside drawing mode no section is
/// a drawing, and every drawing ends the mode.
pub proof fn lemma_drawing_handoff(s: Seq<char>, drawing: bool)
    ensures
        spec_next_section(s, drawing) matches Ok(step) ==> (step.section is Drawing <==> drawing)
            && (drawing ==> !step.drawing),
{
    reveal(spec_next_section);
}

/// Nothing but a block that is not closed and a colour tag that holds no
/// colour makes a text fail.
pub proof fn lemma_sections_total(s: Seq<char>, drawing: bool)
    ensures
        spec_sections(s, drawing) matches Err(e) ==> e.kind == ErrorKind::UnterminatedBlock
            || e.kind == ErrorKind::InvalidColor,
    decreases s.len(), (if drawing { 1int } else { 0int }),
{
    if s.len() > 0 {
        reveal(spec_next_section);
        lemma_style_override_total(s);
        if let Ok(step) = spec_next_section(s, drawing) {
            lemma_next_section_bounds(s, drawing);
            lemma_sections_total(s.skip(step.len), step.drawing);
        }
    }
}

/// Nothing but a missing closing brace and a colour tag that holds no
/// colour makes a block fail.
pub proof fn lemma_style_override_total(s: Seq<char>)
    ensures
        spec_style_override(s) matches Err(e) ==> e.kind == ErrorKind::UnterminatedBlock
            || e.kind == ErrorKind::InvalidColor,
{
    if s.len() > 0 {
        lemma_block_items_total(s.skip(1));
    }
}

/// Nothing but a colour tag that holds no colour makes what stands in a
/// block fail.
pub proof fn lemma_block_items_total(s: Seq<char>)
    ensures
        spec_block_items(s) matches Err(e) ==> e.kind == ErrorKind::InvalidColor,
    decreases s.len(),
{
    if s.len() > 0 && s[0] == '\\' {
        lemma_style_total(s);
        lemma_style_bounds(s);
        if let Ok(Some((tag, n))) = spec_style(s) {
            lemma_block_items_total(s.skip(n));
        }
    }
}

} // verus!
