//! Character classes and the scanning primitives the grammars are built from.

use vstd::prelude::*;
use vstd::slice::slice_subrange;

verus! {

/// A set of characters that a scanner can test membership of.
#[derive(Clone, Copy, Debug, PartialEq, Eq)]
pub enum CharClass {
    /// `0` to `9`.
    Digit,
    /// `0` to `9`, `a` to `f`, `A` to `F`.
    HexDigit,
    /// Space and tab.
    Blank,
    /// Space, tab, carriage return and line feed.
    LineSpace,
    /// Every character with the Unicode `White_Space` property.
    Whitespace,
    /// Every character but the three named (name one twice to exclude fewer).
    Except(char, char, char),
}

/// Whether `c` is a decimal digit.
pub open spec fn is_digit(c: char) -> bool {
    '0' <= c && c <= '9'
}

/// The number that the decimal digit `c` writes.
pub open spec fn digit_value(c: char) -> int {
    c as u32 - '0' as u32
}

/// Whether `c` is a hexadecimal digit, in either case.
pub open spec fn is_hex(c: char) -> bool {
    is_digit(c) || ('a' <= c && c <= 'f') || ('A' <= c && c <= 'F')
}

/// The number that the hexadecimal digit `c` writes.
pub open spec fn hex_value(c: char) -> int {
    if is_digit(c) {
        c as u32 - '0' as u32
    } else if 'a' <= c && c <= 'f' {
        c as u32 - 'a' as u32 + 10
    } else {
        c as u32 - 'A' as u32 + 10
    }
}

/// Whether `c` is a space or a tab.
pub open spec fn is_blank(c: char) -> bool {
    c == ' ' || c == '\t'
}

/// Whether `c` is a space, a tab, a carriage return or a line feed.
pub open spec fn is_line_space(c: char) -> bool {
    c == ' ' || c == '\t' || c == '\r' || c == '\n'
}

/// Whether `c` has the Unicode `White_Space` property.
pub open spec fn is_whitespace(c: char) -> bool {
    let u = c as u32;
    ||| (0x09 <= u && u <= 0x0D)
    ||| u == 0x20
    ||| u == 0x85
    ||| u == 0xA0
    ||| u == 0x1680
    ||| (0x2000 <= u && u <= 0x200A)
    ||| u == 0x2028
    ||| u == 0x2029
    ||| u == 0x202F
    ||| u == 0x205F
    ||| u == 0x3000
}

impl CharClass {
    /// Whether `c` belongs to the class.
    pub open spec fn has(self, c: char) -> bool {
        match self {
            CharClass::Digit => is_digit(c),
            CharClass::HexDigit => is_hex(c),
            CharClass::Blank => is_blank(c),
            CharClass::LineSpace => is_line_space(c),
            CharClass::Whitespace => is_whitespace(c),
            CharClass::Except(x, y, z) => c != x && c != y && c != z,
        }
    }

    /// Whether `c` belongs to the class.
    pub fn contains(&self, c: char) -> (r: bool)
        ensures
            r == self.has(c),
    {
        match self {
            CharClass::Digit => c >= '0' && c <= '9',
            CharClass::HexDigit => is_hex_digit(c),
            CharClass::Blank => c == ' ' || c == '\t',
            CharClass::LineSpace => c == ' ' || c == '\t' || c == '\r' || c == '\n',
            CharClass::Whitespace => {
                let u: u32 = c as u32;
                (0x09 <= u && u <= 0x0D) || u == 0x20 || u == 0x85 || u == 0xA0 || u == 0x1680 || (
                0x2000 <= u && u <= 0x200A) || u == 0x2028 || u == 0x2029 || u == 0x202F || u
                    == 0x205F || u == 0x3000
            },
            CharClass::Except(x, y, z) => c != *x && c != *y && c != *z,
        }
    }
}

/// Whether `c` is a hexadecimal digit, in either case.
pub fn is_hex_digit(c: char) -> (r: bool)
    ensures
        r == is_hex(c),
{
    (c >= '0' && c <= '9') || (c >= 'a' && c <= 'f') || (c >= 'A' && c <= 'F')
}

/// Length of the longest prefix of `s` made of characters of `class`.
pub open spec fn run_len(s: Seq<char>, class: CharClass) -> int
    decreases s.len(),
{
    if s.len() > 0 && class.has(s[0]) {
        1 + run_len(s.drop_first(), class)
    } else {
        0
    }
}

/// A prefix is the longest run of `class` exactly when all of it is in the
/// class and what follows it, if anything, is not.
pub proof fn lemma_run_len(s: Seq<char>, class: CharClass, n: int)
    requires
        0 <= n <= s.len(),
        forall|i: int| 0 <= i < n ==> class.has(#[trigger] s[i]),
        n == s.len() || !class.has(s[n]),
    ensures
        run_len(s, class) == n,
    decreases n,
{
    if n > 0 {
        let t = s.drop_first();
        assert forall|i: int| 0 <= i < n - 1 implies class.has(#[trigger] t[i]) by {
            assert(t[i] == s[i + 1]);
        }
        lemma_run_len(t, class, n - 1);
    }
}

/// The longest run is within the input, all of it is in the class, and what
/// follows it is not.
pub proof fn lemma_run_len_bounds(s: Seq<char>, class: CharClass)
    ensures
        0 <= run_len(s, class) <= s.len(),
        forall|i: int| 0 <= i < run_len(s, class) ==> class.has(#[trigger] s[i]),
        run_len(s, class) < s.len() ==> !class.has(s[run_len(s, class)]),
    decreases s.len(),
{
    if s.len() > 0 && class.has(s[0]) {
        let t = s.drop_first();
        lemma_run_len_bounds(t, class);
        assert forall|i: int| 0 <= i < run_len(s, class) implies class.has(#[trigger] s[i]) by {
            if i > 0 {
                assert(s[i] == t[i - 1]);
            }
        }
        if run_len(s, class) < s.len() {
            assert(s[run_len(s, class)] == t[run_len(t, class)]);
        }
    }
}

/// Cutting the input anywhere at or after the end of its longest run leaves
/// the run as it was.
pub proof fn lemma_run_len_take(s: Seq<char>, class: CharClass, k: int)
    requires
        run_len(s, class) <= k <= s.len(),
    ensures
        run_len(s.take(k), class) == run_len(s, class),
{
    lemma_run_len_bounds(s, class);
    let n = run_len(s, class);
    let t = s.take(k);
    assert forall|i: int| 0 <= i < n implies class.has(#[trigger] t[i]) by {
        assert(t[i] == s[i]);
    }
    if n < k {
        assert(t[n] == s[n]);
    }
    lemma_run_len(t, class, n);
}

/// Counts the leading characters of `input` that belong to `class`.
pub fn run(input: &[char], class: CharClass) -> (n: usize)
    ensures
        n == run_len(input@, class),
        n <= input.len(),
{
    let mut n: usize = 0;
    while n < input.len() && class.contains(input[n])
        invariant
            n <= input@.len(),
            forall|i: int| 0 <= i < n ==> class.has(#[trigger] input@[i]),
        decreases input@.len() - n,
    {
        n = n + 1;
    }
    proof {
        lemma_run_len(input@, class, n as int);
    }
    n
}

/// What a parser yields, as specifications see it: the model of the value and
/// the number of characters consumed.
pub open spec fn parsed<T: DeepView>(r: Option<(T, usize)>) -> Option<(T::V, int)> {
    match r {
        Some((value, n)) => Some((value.deep_view(), n as int)),
        None => None,
    }
}

/// The input without its first `n` characters.
pub fn tail(input: &[char], n: usize) -> (r: &[char])
    requires
        n <= input@.len(),
    ensures
        r@ == input@.skip(n as int),
        r.len() == input.len() - n,
{
    slice_subrange(input, n, input.len())
}

/// The characters of the input from `from` up to `to`.
pub fn span(input: &[char], from: usize, to: usize) -> (r: &[char])
    requires
        from <= to <= input@.len(),
    ensures
        r@ == input@.subrange(from as int, to as int),
        r.len() == to - from,
{
    slice_subrange(input, from, to)
}

/// The first `n` characters of the input.
pub fn head(input: &[char], n: usize) -> (r: &[char])
    requires
        n <= input@.len(),
    ensures
        r@ == input@.take(n as int),
        r.len() == n,
{
    slice_subrange(input, 0, n)
}


/// What recognising the literal `text` at the start of `s` consumes.
pub open spec fn spec_literal(s: Seq<char>, text: Seq<char>) -> Option<int> {
    if text.is_prefix_of(s) {
        Some(text.len() as int)
    } else {
        None
    }
}

/// Recognises the literal `text` at the start of `input` and says how many
/// characters it spans.
pub fn literal(input: &[char], text: &str) -> (r: Option<usize>)
    ensures
        match r {
            Some(n) => spec_literal(input@, text@) == Some(n as int),
            None => spec_literal(input@, text@) is None,
        },
{
    let mut ok = true;
    let mut i: usize = 0;
    let ghost mut bad: int = 0;
    for c in it: text.chars()
        invariant
            it.seq() == text@,
            ok ==> i == it.index() && i <= input@.len() && forall|j: int|
                0 <= j < i ==> input@[j] == text@[j],
            !ok ==> 0 <= bad < text@.len() && (bad >= input@.len() || input@[bad] != text@[bad]),
    {
        if ok {
            if i < input.len() && input[i] == c {
                i = i + 1;
            } else {
                ok = false;
                proof {
                    bad = i as int;
                }
            }
        }
    }
    proof {
        if !ok && bad < input@.len() && text@.len() <= input@.len() {
            assert(input@.subrange(0, text@.len() as int)[bad] == input@[bad]);
        }
    }
    if ok {
        Some(i)
    } else {
        None
    }
}

/// Whether `input` is exactly the characters of `text`.
pub fn is_text(input: &[char], text: &str) -> (r: bool)
    ensures
        r == (input@ == text@),
{
    match literal(input, text) {
        Some(n) => {
            proof {
                if n == input@.len() {
                    assert(input@.subrange(0, n as int) =~= input@);
                }
            }
            n == input.len()
        },
        None => false,
    }
}

/// The characters of `text`, one element each.
pub fn to_chars(text: &str) -> (v: Vec<char>)
    ensures
        v@ == text@,
{
    let mut v: Vec<char> = Vec::new();
    for c in it: text.chars()
        invariant
            v@ == it.seq().take(it.index()),
            it.seq() == text@,
    {
        v.push(c);
    }
    v
}

/// `String::push` appends one character.
pub assume_specification[ String::push ](s: &mut String, c: char)
    ensures
        final(s)@ == old(s)@.push(c),
;

/// A string holding the characters of `chars`.
pub fn to_text(chars: &[char]) -> (s: String)
    ensures
        s@ == chars@,
{
    let mut s = String::new();
    let mut i: usize = 0;
    while i < chars.len()
        invariant
            i <= chars@.len(),
            s@ == chars@.take(i as int),
        decreases chars@.len() - i,
    {
        s.push(chars[i]);
        i = i + 1;
        assert(chars@.take(i as int) =~= chars@.take(i as int - 1).push(chars@[i as int - 1]));
    }
    assert(chars@.take(chars@.len() as int) =~= chars@);
    s
}

/// Whether `inner`, run on `rest`, which is `input` without the spaces, tabs
/// and line ends that it begins with, may yield `found`.
pub open spec fn ws_inner<O, F: Fn(&[char]) -> Option<(O, usize)>>(
    inner: F,
    input: Seq<char>,
    rest: &[char],
    found: Option<(O, usize)>,
) -> bool {
    rest@ == input.skip(run_len(input, CharClass::LineSpace)) && inner.ensures((rest,), found)
}

/// Runs `inner` on the input without the spaces, tabs and line ends that it
/// begins with, and passes over those that follow what `inner` read.
///
/// The result is what `inner` yields there, the length made up of the three
/// stretches; there is none where `inner` yields none, or claims to have
/// read more than there is.
pub fn ws<O, F: Fn(&[char]) -> Option<(O, usize)>>(inner: F, input: &[char]) -> (r: Option<
    (O, usize),
>)
    requires
        forall|rest: &[char]| inner.requires((rest,)),
    ensures
        match r {
            Some((value, n)) => exists|rest: &[char], m: usize|
                (#[trigger] ws_inner(inner, input@, rest, Some((value, m)))) && m <= rest@.len()
                    && n == run_len(input@, CharClass::LineSpace) + m + run_len(
                    rest@.skip(m as int),
                    CharClass::LineSpace,
                ),
            None => exists|rest: &[char], found: Option<(O, usize)>|
                (#[trigger] ws_inner(inner, input@, rest, found)) && (found matches Some(
                    (_, m),
                ) ==> m > rest@.len()),
        },
        r matches Some((_, n)) ==> n <= input.len(),
{
    let before = run(input, CharClass::LineSpace);
    let rest = tail(input, before);
    let found = inner(rest);
    assert(ws_inner(inner, input@, rest, found));
    match found {
        Some((value, m)) => {
            if m <= rest.len() {
                let after = run(tail(rest, m), CharClass::LineSpace);
                let r = Some((value, before + m + after));
                assert(r matches Some((v, _)) && ws_inner(inner, input@, rest, Some((v, m))));
                r
            } else {
                None
            }
        },
        None => None,
    }
}

} // verus!
