//! Vector drawing paths: a command letter, then coordinates.

use crate::number::{lemma_number_len_bounds, decimal_or_float, spec_number, Number};
use crate::scan::{lemma_run_len_bounds, parsed, run, run_len, tail, CharClass};
use vstd::prelude::*;

verus! {

/// One step of a drawing path.
#[derive(Debug, PartialEq, Eq)]
pub enum DrawingCommand {
    Move { x: Number, y: Number },
    MoveWithoutClosing { x: Number, y: Number },
    Line { x: Number, y: Number },
    Bezier { a_x: Number, a_y: Number, b_x: Number, b_y: Number, c_x: Number, c_y: Number },
    UniformSpline(Vec<(Number, Number)>),
    ExtendBspline { x: Number, y: Number },
    CloseBspline,
}

/// What a drawing command is, with every number as the literal it was
/// written as.
pub enum DrawingModel {
    Move { x: Seq<char>, y: Seq<char> },
    MoveWithoutClosing { x: Seq<char>, y: Seq<char> },
    Line { x: Seq<char>, y: Seq<char> },
    Bezier {
        a_x: Seq<char>,
        a_y: Seq<char>,
        b_x: Seq<char>,
        b_y: Seq<char>,
        c_x: Seq<char>,
        c_y: Seq<char>,
    },
    UniformSpline(Seq<(Seq<char>, Seq<char>)>),
    ExtendBspline { x: Seq<char>, y: Seq<char> },
    CloseBspline,
}

impl DeepView for DrawingCommand {
    type V = DrawingModel;

    open spec fn deep_view(&self) -> DrawingModel {
        match *self {
            DrawingCommand::Move { x, y } => DrawingModel::Move {
                x: x.deep_view(),
                y: y.deep_view(),
            },
            DrawingCommand::MoveWithoutClosing { x, y } => DrawingModel::MoveWithoutClosing {
                x: x.deep_view(),
                y: y.deep_view(),
            },
            DrawingCommand::Line { x, y } => DrawingModel::Line {
                x: x.deep_view(),
                y: y.deep_view(),
            },
            DrawingCommand::Bezier { a_x, a_y, b_x, b_y, c_x, c_y } => DrawingModel::Bezier {
                a_x: a_x.deep_view(),
                a_y: a_y.deep_view(),
                b_x: b_x.deep_view(),
                b_y: b_y.deep_view(),
                c_x: c_x.deep_view(),
                c_y: c_y.deep_view(),
            },
            DrawingCommand::UniformSpline(points) => DrawingModel::UniformSpline(
                points.deep_view(),
            ),
            DrawingCommand::ExtendBspline { x, y } => DrawingModel::ExtendBspline {
                x: x.deep_view(),
                y: y.deep_view(),
            },
            DrawingCommand::CloseBspline => DrawingModel::CloseBspline,
        }
    }
}

/// A copy of a list of commands.
pub fn clone_commands(commands: &Vec<DrawingCommand>) -> (r: Vec<DrawingCommand>)
    ensures
        r.deep_view() == commands.deep_view(),
{
    let mut out: Vec<DrawingCommand> = Vec::new();
    let mut i: usize = 0;
    while i < commands.len()
        invariant
            i <= commands.len(),
            out@.len() == i,
            forall|k: int|
                0 <= k < i ==> (#[trigger] out@[k]).deep_view() == commands@[k].deep_view(),
        decreases commands.len() - i,
    {
        out.push(commands[i].clone());
        i = i + 1;
    }
    assert(out.deep_view() =~= commands.deep_view());
    out
}

impl Clone for DrawingCommand {
    fn clone(&self) -> (r: DrawingCommand)
        ensures
            r.deep_view() == self.deep_view(),
    {
        match self {
            DrawingCommand::Move { x, y } => DrawingCommand::Move { x: x.clone(), y: y.clone() },
            DrawingCommand::MoveWithoutClosing { x, y } => DrawingCommand::MoveWithoutClosing {
                x: x.clone(),
                y: y.clone(),
            },
            DrawingCommand::Line { x, y } => DrawingCommand::Line { x: x.clone(), y: y.clone() },
            DrawingCommand::Bezier { a_x, a_y, b_x, b_y, c_x, c_y } => DrawingCommand::Bezier {
                a_x: a_x.clone(),
                a_y: a_y.clone(),
                b_x: b_x.clone(),
                b_y: b_y.clone(),
                c_x: c_x.clone(),
                c_y: c_y.clone(),
            },
            DrawingCommand::UniformSpline(points) => {
                let mut out: Vec<(Number, Number)> = Vec::new();
                let mut i: usize = 0;
                while i < points.len()
                    invariant
                        i <= points.len(),
                        out@.len() == i,
                        forall|k: int|
                            0 <= k < i ==> (#[trigger] out@[k]).deep_view()
                                == points@[k].deep_view(),
                    decreases points.len() - i,
                {
                    out.push((points[i].0.clone(), points[i].1.clone()));
                    i = i + 1;
                }
                assert(out.deep_view() =~= points.deep_view());
                DrawingCommand::UniformSpline(out)
            },
            DrawingCommand::ExtendBspline { x, y } => DrawingCommand::ExtendBspline {
                x: x.clone(),
                y: y.clone(),
            },
            DrawingCommand::CloseBspline => DrawingCommand::CloseBspline,
        }
    }
}

/// The coordinates that follow the first one: as long as blanks and then a
/// number follow, the number is taken.
pub open spec fn spec_more_coordinates(s: Seq<char>) -> (Seq<Seq<char>>, int)
    decreases s.len(),
{
    let blanks = run_len(s, CharClass::Blank);
    if blanks > 0 {
        match spec_number(s.skip(blanks)) {
            Some((x, n)) => {
                proof {
                    lemma_run_len_bounds(s, CharClass::Blank);
                    lemma_number_len_bounds(s.skip(blanks));
                }
                let (xs, m) = spec_more_coordinates(s.skip(blanks + n));
                (seq![x] + xs, blanks + n + m)
            },
            None => (Seq::empty(), 0),
        }
    } else {
        (Seq::empty(), 0)
    }
}

/// The numbers at the start of `s`, set apart by spaces or tabs, and how much
/// of `s` they span. There may be none.
pub open spec fn spec_coordinates(s: Seq<char>) -> (Seq<Seq<char>>, int) {
    match spec_number(s) {
        Some((x, n)) => {
            let (xs, m) = spec_more_coordinates(s.skip(n));
            (seq![x] + xs, n + m)
        },
        None => (Seq::empty(), 0),
    }
}

/// Coordinates lie within the input.
pub proof fn lemma_more_coordinates_bounds(s: Seq<char>)
    ensures
        0 <= spec_more_coordinates(s).1 <= s.len(),
    decreases s.len(),
{
    let blanks = run_len(s, CharClass::Blank);
    lemma_run_len_bounds(s, CharClass::Blank);
    if blanks > 0 {
        lemma_number_len_bounds(s.skip(blanks));
        if let Some((x, n)) = spec_number(s.skip(blanks)) {
            lemma_more_coordinates_bounds(s.skip(blanks + n));
        }
    }
}

/// Coordinates lie within the input.
pub proof fn lemma_coordinates_bounds(s: Seq<char>)
    ensures
        0 <= spec_coordinates(s).1 <= s.len(),
{
    lemma_number_len_bounds(s);
    if let Some((x, n)) = spec_number(s) {
        lemma_more_coordinates_bounds(s.skip(n));
    }
}

/// The models of a list of numbers.
pub open spec fn models(v: Seq<Number>) -> Seq<Seq<char>> {
    Seq::new(v.len(), |i: int| v[i].deep_view())
}

/// Reads the numbers at the start of `input`, set apart by spaces or tabs.
pub fn coordinates(input: &[char]) -> (r: (Vec<Number>, usize))
    ensures
        (models(r.0@), r.1 as int) == spec_coordinates(input@),
        r.1 <= input.len(),
{
    let mut out: Vec<Number> = Vec::new();
    let (first, n) = match decimal_or_float(input) {
        Some(p) => p,
        None => {
            assert(models(out@) =~= Seq::<Seq<char>>::empty());
            return (out, 0);
        },
    };
    let ghost first_model = first.deep_view();
    out.push(first);
    let mut at: usize = n;
    let ghost total = spec_coordinates(input@);
    assert(models(out@) =~= seq![first_model]);
    loop
        invariant
            at <= input.len(),
            total == spec_coordinates(input@),
            total.0 == models(out@) + spec_more_coordinates(input@.skip(at as int)).0,
            total.1 == at + spec_more_coordinates(input@.skip(at as int)).1,
        decreases input.len() - at,
    {
        let rest = tail(input, at);
        let blanks = run(rest, CharClass::Blank);
        if blanks == 0 {
            assert(models(out@) + Seq::<Seq<char>>::empty() =~= models(out@));
            return (out, at);
        }
        match decimal_or_float(tail(rest, blanks)) {
            Some((x, n)) => {
                let ghost before = models(out@);
                let ghost xm = x.deep_view();
                out.push(x);
                proof {
                    assert(rest@.skip(blanks + n) =~= input@.skip(at + blanks + n));
                    let more = spec_more_coordinates(input@.skip(at + blanks + n)).0;
                    assert(models(out@) =~= before + seq![xm]);
                    assert(before + (seq![xm] + more) =~= (before + seq![xm]) + more);
                }
                at = at + blanks + n;
            },
            None => {
                assert(models(out@) + Seq::<Seq<char>>::empty() =~= models(out@));
                return (out, at);
            },
        }
    }
}

/// The kinds of command that take coordinates.
#[derive(Clone, Copy, Debug, PartialEq, Eq)]
pub enum PathKind {
    Move,
    MoveWithoutClosing,
    Line,
    Bezier,
    UniformSpline,
    ExtendBspline,
}

/// The kind of command that the letter `c` begins.
pub open spec fn spec_path_kind(c: char) -> Option<PathKind> {
    if c == 'm' {
        Some(PathKind::Move)
    } else if c == 'n' {
        Some(PathKind::MoveWithoutClosing)
    } else if c == 'l' {
        Some(PathKind::Line)
    } else if c == 'b' {
        Some(PathKind::Bezier)
    } else if c == 's' {
        Some(PathKind::UniformSpline)
    } else if c == 'p' {
        Some(PathKind::ExtendBspline)
    } else {
        None
    }
}

/// The coordinates two by two; one left over is dropped.
pub open spec fn spec_points(xs: Seq<Seq<char>>) -> Seq<(Seq<char>, Seq<char>)> {
    Seq::new((xs.len() / 2) as nat, |i: int| (xs[2 * i], xs[2 * i + 1]))
}

/// The commands that coordinates after a letter of `kind` make: one for each
/// pair, or for each six with a Bézier curve, what is left over being
/// dropped; and a single command of all the pairs with a spline.
pub open spec fn spec_path(kind: PathKind, xs: Seq<Seq<char>>) -> Seq<DrawingModel> {
    match kind {
        PathKind::Move => Seq::new(
            (xs.len() / 2) as nat,
            |i: int| DrawingModel::Move { x: xs[2 * i], y: xs[2 * i + 1] },
        ),
        PathKind::MoveWithoutClosing => Seq::new(
            (xs.len() / 2) as nat,
            |i: int| DrawingModel::MoveWithoutClosing { x: xs[2 * i], y: xs[2 * i + 1] },
        ),
        PathKind::Line => Seq::new(
            (xs.len() / 2) as nat,
            |i: int| DrawingModel::Line { x: xs[2 * i], y: xs[2 * i + 1] },
        ),
        PathKind::ExtendBspline => Seq::new(
            (xs.len() / 2) as nat,
            |i: int| DrawingModel::ExtendBspline { x: xs[2 * i], y: xs[2 * i + 1] },
        ),
        PathKind::Bezier => Seq::new(
            (xs.len() / 6) as nat,
            |i: int|
                DrawingModel::Bezier {
                    a_x: xs[6 * i],
                    a_y: xs[6 * i + 1],
                    b_x: xs[6 * i + 2],
                    b_y: xs[6 * i + 3],
                    c_x: xs[6 * i + 4],
                    c_y: xs[6 * i + 5],
                },
        ),
        PathKind::UniformSpline => seq![DrawingModel::UniformSpline(spec_points(xs))],
    }
}

/// The command at the start of `s`, after any whitespace: a letter, one
/// space and coordinates, which make as many commands as `spec_path` says;
/// or the letter `c` alone.
pub open spec fn spec_command(s: Seq<char>) -> Option<(Seq<DrawingModel>, int)> {
    let w = run_len(s, CharClass::Whitespace);
    let t = s.skip(w);
    if t.len() >= 2 && t[1] == ' ' && spec_path_kind(t[0]) is Some {
        let (xs, n) = spec_coordinates(t.skip(2));
        Some((spec_path(spec_path_kind(t[0])->0, xs), w + 2 + n))
    } else if t.len() >= 1 && t[0] == 'c' {
        Some((seq![DrawingModel::CloseBspline], w + 1))
    } else {
        None
    }
}

/// A command is not empty and lies within the input.
pub proof fn lemma_command_bounds(s: Seq<char>)
    ensures
        spec_command(s) matches Some((_, n)) ==> 0 < n <= s.len(),
{
    lemma_run_len_bounds(s, CharClass::Whitespace);
    let w = run_len(s, CharClass::Whitespace);
    let t = s.skip(w);
    if t.len() >= 2 {
        lemma_coordinates_bounds(t.skip(2));
    }
}

/// The commands at the start of `s`, one after the other, up to the first
/// thing that is no command.
pub open spec fn spec_commands(s: Seq<char>) -> (Seq<DrawingModel>, int)
    decreases s.len(),
{
    match spec_command(s) {
        Some((commands, n)) => {
            proof {
                lemma_command_bounds(s);
            }
            let (more, m) = spec_commands(s.skip(n));
            (commands + more, n + m)
        },
        None => (Seq::empty(), 0),
    }
}

/// The drawing at the start of `s`: whitespace, then commands. It may hold
/// no command, and spans the whitespace even then.
pub open spec fn spec_drawing(s: Seq<char>) -> (Seq<DrawingModel>, int) {
    let w = run_len(s, CharClass::Whitespace);
    let (commands, n) = spec_commands(s.skip(w));
    (commands, w + n)
}

/// Commands lie within the input.
pub proof fn lemma_commands_bounds(s: Seq<char>)
    ensures
        0 <= spec_commands(s).1 <= s.len(),
    decreases s.len(),
{
    lemma_command_bounds(s);
    if let Some((commands, n)) = spec_command(s) {
        lemma_commands_bounds(s.skip(n));
    }
}

/// A drawing lies within the input.
pub proof fn lemma_drawing_bounds(s: Seq<char>)
    ensures
        0 <= spec_drawing(s).1 <= s.len(),
{
    lemma_run_len_bounds(s, CharClass::Whitespace);
    lemma_commands_bounds(s.skip(run_len(s, CharClass::Whitespace)));
}

fn path_kind(c: char) -> (r: Option<PathKind>)
    ensures
        r == spec_path_kind(c),
{
    if c == 'm' {
        Some(PathKind::Move)
    } else if c == 'n' {
        Some(PathKind::MoveWithoutClosing)
    } else if c == 'l' {
        Some(PathKind::Line)
    } else if c == 'b' {
        Some(PathKind::Bezier)
    } else if c == 's' {
        Some(PathKind::UniformSpline)
    } else if c == 'p' {
        Some(PathKind::ExtendBspline)
    } else {
        None
    }
}

fn points(xs: &Vec<Number>) -> (r: Vec<(Number, Number)>)
    ensures
        r.deep_view() == spec_points(models(xs@)),
{
    let count = xs.len() / 2;
    let mut out: Vec<(Number, Number)> = Vec::new();
    let mut i: usize = 0;
    while i < count
        invariant
            i <= count,
            count == xs.len() / 2,
            out@.len() == i,
            forall|k: int|
                0 <= k < i ==> (#[trigger] out@[k]).deep_view() == spec_points(models(xs@))[k],
        decreases count - i,
    {
        out.push((xs[2 * i].clone(), xs[2 * i + 1].clone()));
        i = i + 1;
    }
    assert(out.deep_view() =~= spec_points(models(xs@)));
    out
}

/// The commands that the coordinates `xs` make after a letter of `kind`.
fn path(kind: PathKind, xs: &Vec<Number>) -> (r: Vec<DrawingCommand>)
    ensures
        r.deep_view() == spec_path(kind, models(xs@)),
{
    let mut out: Vec<DrawingCommand> = Vec::new();
    let ghost want = spec_path(kind, models(xs@));
    match kind {
        PathKind::UniformSpline => {
            out.push(DrawingCommand::UniformSpline(points(xs)));
        },
        PathKind::Bezier => {
            let count = xs.len() / 6;
            let mut i: usize = 0;
            while i < count
                invariant
                    i <= count,
                    count == xs.len() / 6,
                    kind == PathKind::Bezier,
                    want == spec_path(kind, models(xs@)),
                    out@.len() == i,
                    forall|k: int| 0 <= k < i ==> (#[trigger] out@[k]).deep_view() == want[k],
                decreases count - i,
            {
                out.push(
                    DrawingCommand::Bezier {
                        a_x: xs[6 * i].clone(),
                        a_y: xs[6 * i + 1].clone(),
                        b_x: xs[6 * i + 2].clone(),
                        b_y: xs[6 * i + 3].clone(),
                        c_x: xs[6 * i + 4].clone(),
                        c_y: xs[6 * i + 5].clone(),
                    },
                );
                i = i + 1;
            }
        },
        _ => {
            let count = xs.len() / 2;
            let mut i: usize = 0;
            while i < count
                invariant
                    i <= count,
                    count == xs.len() / 2,
                    kind != PathKind::Bezier,
                    kind != PathKind::UniformSpline,
                    want == spec_path(kind, models(xs@)),
                    out@.len() == i,
                    forall|k: int| 0 <= k < i ==> (#[trigger] out@[k]).deep_view() == want[k],
                decreases count - i,
            {
                let x = xs[2 * i].clone();
                let y = xs[2 * i + 1].clone();
                out.push(
                    match kind {
                        PathKind::Move => DrawingCommand::Move { x, y },
                        PathKind::MoveWithoutClosing => DrawingCommand::MoveWithoutClosing { x, y },
                        PathKind::Line => DrawingCommand::Line { x, y },
                        _ => DrawingCommand::ExtendBspline { x, y },
                    },
                );
                i = i + 1;
            }
        },
    }
    assert(out.deep_view() =~= want);
    out
}

/// Reads one drawing command with its coordinates.
fn command(input: &[char]) -> (r: Option<(Vec<DrawingCommand>, usize)>)
    ensures
        parsed(r) == spec_command(input@),
        r matches Some((_, n)) ==> 0 < n <= input.len(),
{
    let w = run(input, CharClass::Whitespace);
    let t = tail(input, w);
    if t.len() >= 2 && t[1] == ' ' {
        if let Some(kind) = path_kind(t[0]) {
            let (xs, n) = coordinates(tail(t, 2));
            return Some((path(kind, &xs), w + 2 + n));
        }
    }
    if t.len() >= 1 && t[0] == 'c' {
        let mut out: Vec<DrawingCommand> = Vec::new();
        out.push(DrawingCommand::CloseBspline);
        assert(out.deep_view() =~= seq![DrawingModel::CloseBspline]);
        Some((out, w + 1))
    } else {
        None
    }
}

/// Reads a drawing: commands up to the first thing that is none.
pub fn drawing(input: &[char]) -> (r: (Vec<DrawingCommand>, usize))
    ensures
        (r.0.deep_view(), r.1 as int) == spec_drawing(input@),
        r.1 <= input.len(),
{
    let w = run(input, CharClass::Whitespace);
    let body = tail(input, w);
    let mut out: Vec<DrawingCommand> = Vec::new();
    let mut at: usize = 0;
    let ghost total = spec_commands(body@);
    assert(out.deep_view() =~= Seq::<DrawingModel>::empty());
    assert(body@.skip(0) =~= body@);
    assert(Seq::<DrawingModel>::empty() + total.0 =~= total.0);
    loop
        invariant
            at <= body.len(),
            w + body.len() == input.len(),
            w == run_len(input@, CharClass::Whitespace),
            body@ == input@.skip(w as int),
            total == spec_commands(body@),
            total.0 == out.deep_view() + spec_commands(body@.skip(at as int)).0,
            total.1 == at + spec_commands(body@.skip(at as int)).1,
        decreases body.len() - at,
    {
        let rest = tail(body, at);
        match command(rest) {
            Some((mut commands, n)) => {
                let ghost before = out.deep_view();
                let ghost added = commands.deep_view();
                out.append(&mut commands);
                proof {
                    assert(rest@.skip(n as int) =~= body@.skip(at + n));
                    let more = spec_commands(body@.skip(at + n)).0;
                    assert(out.deep_view() =~= before + added);
                    assert(before + (added + more) =~= (before + added) + more);
                }
                at = at + n;
            },
            None => {
                assert(out.deep_view() + Seq::<DrawingModel>::empty() =~= out.deep_view());
                return (out, w + at);
            },
        }
    }
}

} // verus!
