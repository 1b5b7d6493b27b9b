//! Decimal integers and numeric literals.
//!
//! A numeric literal is kept as written, together with the bits of the
//! double that it writes; what the grammars need to know of its value is
//! computed from the bits.

use crate::scan::{
    digit_value, is_digit, lemma_run_len_bounds, lemma_run_len_take, parsed, run, run_len, to_chars,
    to_text, CharClass,
};
use vstd::prelude::*;

verus! {

/// The number that a run of decimal digits writes (0 for the empty run).
pub open spec fn digits_value(ds: Seq<char>) -> nat
    decreases ds.len(),
{
    if ds.len() == 0 {
        0
    } else {
        (digits_value(ds.drop_last()) * 10 + digit_value(ds.last())) as nat
    }
}

/// A longer run of digits writes a number at least as large as any of its
/// prefixes.
pub proof fn lemma_digits_value_monotone(ds: Seq<char>, k: int)
    requires
        0 <= k <= ds.len(),
        forall|i: int| 0 <= i < ds.len() ==> is_digit(#[trigger] ds[i]),
    ensures
        digits_value(ds.take(k)) <= digits_value(ds),
    decreases ds.len(),
{
    if k == ds.len() {
        assert(ds.take(k) =~= ds);
    } else {
        assert(ds.drop_last().take(k) =~= ds.take(k));
        lemma_digits_value_monotone(ds.drop_last(), k);
    }
}

/// The unsigned decimal at the start of `s`: its digits, as many as there
/// are, provided the number fits in 64 bits.
pub open spec fn spec_decimal(s: Seq<char>) -> Option<(u64, int)> {
    let n = run_len(s, CharClass::Digit);
    if n > 0 && digits_value(s.take(n)) <= u64::MAX {
        Some((digits_value(s.take(n)) as u64, n))
    } else {
        None
    }
}

/// The number written by the first `n` characters of `input`, all digits, or
/// `None` where it does not fit in 64 bits.
fn digits_to_u64(input: &[char], n: usize) -> (r: Option<u64>)
    requires
        n <= input@.len(),
        forall|i: int| 0 <= i < n ==> is_digit(#[trigger] input@[i]),
    ensures
        match r {
            Some(v) => v == digits_value(input@.take(n as int)),
            None => digits_value(input@.take(n as int)) > u64::MAX,
        },
{
    let ghost ds = input@.take(n as int);
    let mut value: u64 = 0;
    let mut i: usize = 0;
    assert(ds.take(0) =~= Seq::<char>::empty());
    while i < n
        invariant
            i <= n <= input@.len(),
            ds == input@.take(n as int),
            forall|j: int| 0 <= j < ds.len() ==> is_digit(#[trigger] ds[j]),
            value == digits_value(ds.take(i as int)),
        decreases n - i,
    {
        assert(is_digit(ds[i as int]));
        let d: u64 = (input[i] as u32 - '0' as u32) as u64;
        proof {
            assert(ds.take(i as int + 1).drop_last() =~= ds.take(i as int));
            assert(ds.take(i as int + 1).last() == input@[i as int]);
            lemma_digits_value_monotone(ds, i as int + 1);
        }
        if value > (u64::MAX - d) / 10 {
            return None;
        }
        value = value * 10 + d;
        i = i + 1;
    }
    assert(ds.take(n as int) =~= ds);
    Some(value)
}

/// Reads an unsigned decimal from the start of `input`.
pub fn decimal(input: &[char]) -> (r: Option<(u64, usize)>)
    ensures
        parsed(r) == spec_decimal(input@),
        r matches Some((_, n)) ==> 0 < n <= input@.len(),
{
    let n = run(input, CharClass::Digit);
    if n == 0 {
        return None;
    }
    proof {
        lemma_run_len_bounds(input@, CharClass::Digit);
    }
    match digits_to_u64(input, n) {
        Some(v) => Some((v, n)),
        None => None,
    }
}

/// The unsigned integer that the whole of `s` writes: an optional `+`, then
/// digits only, at least one, within the range of `usize`.
pub open spec fn spec_unsigned(s: Seq<char>) -> Option<usize> {
    let plus: int = if s.len() > 0 && s[0] == '+' {
        1
    } else {
        0
    };
    let ds = s.skip(plus);
    if ds.len() > 0 && run_len(ds, CharClass::Digit) == ds.len() && digits_value(ds)
        <= usize::MAX {
        Some(digits_value(ds) as usize)
    } else {
        None
    }
}

/// Reads the whole of `input` as an unsigned integer.
pub fn unsigned(input: &[char]) -> (r: Option<usize>)
    ensures
        r == spec_unsigned(input@),
{
    let plus: usize = if input.len() > 0 && input[0] == '+' {
        1
    } else {
        0
    };
    let ds = crate::scan::tail(input, plus);
    let n = run(ds, CharClass::Digit);
    if n == 0 || n < ds.len() {
        return None;
    }
    proof {
        lemma_run_len_bounds(ds@, CharClass::Digit);
        assert(ds@.take(n as int) =~= ds@);
    }
    match digits_to_u64(ds, n) {
        Some(v) => if v <= usize::MAX as u64 {
            Some(v as usize)
        } else {
            None
        },
        None => None,
    }
}

/// The signed integer that the whole of `s` writes: an optional `+` or `-`,
/// then digits only, at least one, within the range of `isize`.
pub open spec fn spec_signed(s: Seq<char>) -> Option<isize> {
    let sign = sign_len(s);
    let ds = s.skip(sign);
    let value: int = if s.len() > 0 && s[0] == '-' {
        -(digits_value(ds) as int)
    } else {
        digits_value(ds) as int
    };
    if ds.len() > 0 && run_len(ds, CharClass::Digit) == ds.len() && isize::MIN <= value
        <= isize::MAX {
        Some(value as isize)
    } else {
        None
    }
}

/// Reads the whole of `input` as a signed integer.
pub fn signed(input: &[char]) -> (r: Option<isize>)
    ensures
        r == spec_signed(input@),
{
    let negative = input.len() > 0 && input[0] == '-';
    let sign: usize = if input.len() > 0 && (input[0] == '+' || input[0] == '-') {
        1
    } else {
        0
    };
    let ds = crate::scan::tail(input, sign);
    let n = run(ds, CharClass::Digit);
    if n == 0 || n < ds.len() {
        return None;
    }
    proof {
        lemma_run_len_bounds(ds@, CharClass::Digit);
        assert(ds@.take(n as int) =~= ds@);
    }
    match digits_to_u64(ds, n) {
        Some(v) => {
            if negative {
                if v <= isize::MAX as u64 {
                    Some(-(v as isize))
                } else if v == isize::MAX as u64 + 1 {
                    Some(isize::MIN)
                } else {
                    None
                }
            } else if v <= isize::MAX as u64 {
                Some(v as isize)
            } else {
                None
            }
        },
        None => None,
    }
}

/// 1 where `s` begins with a sign, else 0.
pub open spec fn sign_len(s: Seq<char>) -> int {
    if s.len() > 0 && (s[0] == '+' || s[0] == '-') {
        1
    } else {
        0
    }
}

/// Length of the mantissa at the start of `s`: digits with an optional
/// fraction, or a fraction alone.
pub open spec fn mantissa_len(s: Seq<char>) -> Option<int> {
    let whole = run_len(s, CharClass::Digit);
    if whole > 0 {
        if whole < s.len() && s[whole] == '.' {
            Some(whole + 1 + run_len(s.skip(whole + 1), CharClass::Digit))
        } else {
            Some(whole)
        }
    } else if s.len() > 0 && s[0] == '.' && run_len(s.skip(1), CharClass::Digit) > 0 {
        Some(1 + run_len(s.skip(1), CharClass::Digit))
    } else {
        None
    }
}

/// Length of the exponent at the start of `s`: 0 where none begins, and
/// `None` where one begins but has no digits.
pub open spec fn exponent_len(s: Seq<char>) -> Option<int> {
    if s.len() > 0 && (s[0] == 'e' || s[0] == 'E') {
        let sign = sign_len(s.skip(1));
        let digits = run_len(s.skip(1 + sign), CharClass::Digit);
        if digits > 0 {
            Some(1 + sign + digits)
        } else {
            None
        }
    } else {
        Some(0)
    }
}

/// Whether `s` begins with the three letters given, in either case.
pub open spec fn begins_with_word(s: Seq<char>, a: char, b: char, c: char) -> bool {
    &&& s.len() >= 3
    &&& (s[0] == a || s[0] as u32 == a as u32 - 32)
    &&& (s[1] == b || s[1] as u32 == b as u32 - 32)
    &&& (s[2] == c || s[2] as u32 == c as u32 - 32)
}

/// Length of the numeric literal at the start of `s`.
///
/// A literal is a sign, a mantissa and an exponent, of which only the
/// mantissa is required; or one of the words `nan` and `inf` in any case. A
/// mantissa followed by an exponent mark without digits is no literal.
pub open spec fn spec_number_len(s: Seq<char>) -> Option<int> {
    let sign = sign_len(s);
    match mantissa_len(s.skip(sign)) {
        Some(m) => match exponent_len(s.skip(sign + m)) {
            Some(e) => Some(sign + m + e),
            None => None,
        },
        None => if begins_with_word(s, 'n', 'a', 'n') || begins_with_word(s, 'i', 'n', 'f') {
            Some(3)
        } else {
            None
        },
    }
}

/// Whether the whole of `text` is a numeric literal that writes a double.
pub open spec fn spec_whole_number(text: Seq<char>) -> bool {
    spec_number_len(text) == Some(text.len() as int) && double_bits_of(text) is Some
}

/// The numeric literal at the start of `s`, as written. It counts only
/// where it writes a double.
pub open spec fn spec_number(s: Seq<char>) -> Option<(Seq<char>, int)> {
    match spec_number_len(s) {
        Some(n) => if double_bits_of(s.take(n)) is Some {
            Some((s.take(n), n))
        } else {
            None
        },
        None => None,
    }
}

/// A literal is not empty and lies within the input.
pub proof fn lemma_number_len_bounds(s: Seq<char>)
    ensures
        spec_number_len(s) matches Some(n) ==> 0 < n <= s.len(),
{
    let sign = sign_len(s);
    let t = s.skip(sign);
    lemma_run_len_bounds(t, CharClass::Digit);
    let whole = run_len(t, CharClass::Digit);
    if t.len() > whole + 1 {
        lemma_run_len_bounds(t.skip(whole + 1), CharClass::Digit);
    }
    if t.len() > 0 {
        lemma_run_len_bounds(t.skip(1), CharClass::Digit);
    }
    if let Some(m) = mantissa_len(t) {
        let u = s.skip(sign + m);
        if u.len() > 0 {
            let esign = sign_len(u.skip(1));
            lemma_run_len_bounds(u.skip(1 + esign), CharClass::Digit);
        }
    }
}

fn sign_at(input: &[char], at: usize) -> (n: usize)
    requires
        at <= input@.len(),
    ensures
        n == sign_len(input@.skip(at as int)),
        at + n <= input.len(),
{
    if at < input.len() && (input[at] == '+' || input[at] == '-') {
        1
    } else {
        0
    }
}

fn digits_at(input: &[char], at: usize) -> (n: usize)
    requires
        at <= input@.len(),
    ensures
        n == run_len(input@.skip(at as int), CharClass::Digit),
        at + n <= input.len(),
{
    run(crate::scan::tail(input, at), CharClass::Digit)
}

fn word_at_start(input: &[char], a: char, b: char, c: char) -> (r: bool)
    requires
        'a' <= a <= 'z',
        'a' <= b <= 'z',
        'a' <= c <= 'z',
    ensures
        r == begins_with_word(input@, a, b, c),
{
    input.len() >= 3 && (input[0] == a || input[0] as u32 == a as u32 - 32) && (input[1] == b
        || input[1] as u32 == b as u32 - 32) && (input[2] == c || input[2] as u32 == c as u32
        - 32)
}

fn mantissa_at(input: &[char], at: usize) -> (r: Option<usize>)
    requires
        at <= input@.len(),
    ensures
        match r {
            Some(n) => mantissa_len(input@.skip(at as int)) == Some(n as int) && 0 < n && at + n
                <= input.len(),
            None => mantissa_len(input@.skip(at as int)) is None,
        },
{
    let ghost t = input@.skip(at as int);
    let whole = digits_at(input, at);
    if whole > 0 {
        let dot = at + whole;
        if dot < input.len() && input[dot] == '.' {
            assert(t[whole as int] == '.');
            assert(t.skip(whole + 1) =~= input@.skip(dot + 1));
            let frac = digits_at(input, dot + 1);
            Some(whole + 1 + frac)
        } else {
            assert(whole < t.len() ==> t[whole as int] == input@[dot as int]);
            Some(whole)
        }
    } else if at < input.len() && input[at] == '.' {
        assert(t[0] == '.');
        assert(t.skip(1) =~= input@.skip(at + 1));
        let frac = digits_at(input, at + 1);
        if frac == 0 {
            None
        } else {
            Some(1 + frac)
        }
    } else {
        assert(t.len() > 0 ==> t[0] == input@[at as int]);
        None
    }
}

fn exponent_at(input: &[char], at: usize) -> (r: Option<usize>)
    requires
        at <= input@.len(),
    ensures
        match r {
            Some(n) => exponent_len(input@.skip(at as int)) == Some(n as int) && at + n
                <= input.len(),
            None => exponent_len(input@.skip(at as int)) is None,
        },
{
    let ghost u = input@.skip(at as int);
    if at < input.len() && (input[at] == 'e' || input[at] == 'E') {
        assert(u[0] == input@[at as int]);
        assert(u.skip(1) =~= input@.skip(at + 1));
        let sign = sign_at(input, at + 1);
        assert(u.skip(1 + sign) =~= input@.skip(at + 1 + sign));
        let digits = digits_at(input, at + 1 + sign);
        if digits == 0 {
            None
        } else {
            Some(1 + sign + digits)
        }
    } else {
        assert(u.len() > 0 ==> u[0] == input@[at as int]);
        Some(0)
    }
}

/// Measures the numeric literal at the start of `input`.
pub fn number_len(input: &[char]) -> (r: Option<usize>)
    ensures
        match r {
            Some(n) => spec_number_len(input@) == Some(n as int) && 0 < n <= input@.len(),
            None => spec_number_len(input@) is None,
        },
{
    assert(input@.skip(0) =~= input@);
    let sign = sign_at(input, 0);
    match mantissa_at(input, sign) {
        Some(m) => match exponent_at(input, sign + m) {
            Some(e) => Some(sign + m + e),
            None => None,
        },
        None => if word_at_start(input, 'n', 'a', 'n') || word_at_start(input, 'i', 'n', 'f') {
            Some(3)
        } else {
            None
        },
    }
}

/// The bits of the IEEE 754 double that the text writes at its start, as
/// `nom::number::complete::double` reads it; `None` where it reads none.
pub uninterp spec fn double_bits_of(text: Seq<char>) -> Option<u64>;

/// Calls `nom::number::complete::double` on `text` and hands back the bits
/// of the double that it read, or `None` where it read none. What is
/// claimed of the call, and not proved: its result is a function of the
/// text alone.
#[verifier::external_body]
fn double_bits(text: &str) -> (r: Option<u64>)
    ensures
        r == double_bits_of(text@),
{
    match nom::number::complete::double::<&str, nom::error::Error<&str>>(text) {
        Ok((_, value)) => Some(value.to_bits()),
        Err(_) => None,
    }
}

/// The bits of the double that the literal `text` writes, 0 where
/// `double_bits_of` knows none.
pub open spec fn spec_bits(text: Seq<char>) -> u64 {
    match double_bits_of(text) {
        Some(bits) => bits,
        None => 0,
    }
}

/// Whether the double with the bits `bits` is greater than zero: its sign
/// bit is clear, and it is neither zero nor a NaN.
pub open spec fn spec_is_positive(bits: u64) -> bool {
    0 < bits && bits <= 0x7FF0_0000_0000_0000
}

/// Whether the double with the bits `bits` is greater than zero.
pub fn is_positive(bits: u64) -> (r: bool)
    ensures
        r == spec_is_positive(bits),
{
    0 < bits && bits <= 0x7FF0_0000_0000_0000
}

/// The double with the bits `bits` cut to a whole number and held within
/// 64 bits: 0 for a negative number and for a NaN, the largest value for
/// what is too large, and else the significand moved by the exponent.
///
/// A double has a sign bit, eleven bits of exponent, biased by 1023, and
/// fifty-two bits of fraction under an implied leading one.
pub open spec fn spec_truncate(bits: u64) -> u64 {
    let exponent = (bits >> 52) & 0x7FF;
    let fraction = bits & 0xF_FFFF_FFFF_FFFF;
    let significand = fraction | 0x10_0000_0000_0000;
    if bits >> 63 == 1 {
        0
    } else if exponent == 0x7FF {
        if fraction == 0 {
            u64::MAX
        } else {
            0
        }
    } else if exponent < 1023 {
        0
    } else if exponent >= 1087 {
        u64::MAX
    } else if exponent >= 1075 {
        significand << ((exponent - 1075) as u64)
    } else {
        significand >> ((1075 - exponent) as u64)
    }
}

/// Cuts the double with the bits `bits` to a whole number.
pub fn truncate(bits: u64) -> (r: u64)
    ensures
        r == spec_truncate(bits),
{
    let exponent = (bits >> 52) & 0x7FF;
    let fraction = bits & 0xF_FFFF_FFFF_FFFF;
    let significand = fraction | 0x10_0000_0000_0000;
    if bits >> 63 == 1 {
        0
    } else if exponent == 0x7FF {
        if fraction == 0 {
            u64::MAX
        } else {
            0
        }
    } else if exponent < 1023 {
        0
    } else if exponent >= 1087 {
        u64::MAX
    } else if exponent >= 1075 {
        significand << (exponent - 1075)
    } else {
        significand >> (1075 - exponent)
    }
}

/// A numeric literal: the text as it was written, and the double that it
/// writes.
#[derive(Debug, PartialEq, Eq)]
pub struct Number {
    text: String,
    bits: u64,
}

impl DeepView for Number {
    type V = Seq<char>;

    closed spec fn deep_view(&self) -> Seq<char> {
        self.text@
    }
}

impl Clone for Number {
    fn clone(&self) -> (r: Number)
        ensures
            r.deep_view() == self.deep_view(),
    {
        proof {
            use_type_invariant(self);
        }
        Number { text: self.text.clone(), bits: self.bits }
    }
}

impl Number {
    /// Every `Number` holds exactly one literal.
    #[verifier::type_invariant]
    pub closed spec fn well_formed(self) -> bool {
        &&& spec_number_len(self.text@) == Some(self.text@.len() as int)
        &&& double_bits_of(self.text@) == Some(self.bits)
    }

    /// The bits of the double that the literal writes.
    pub fn bits(&self) -> (r: u64)
        ensures
            double_bits_of(self.deep_view()) == Some(r),
            r == spec_bits(self.deep_view()),
    {
        proof {
            use_type_invariant(self);
        }
        self.bits
    }

    /// The literal as written.
    pub fn text(&self) -> (r: &str)
        ensures
            r@ == self.deep_view(),
    {
        self.text.as_str()
    }

    /// The number that the whole of `text` writes, if it is a literal.
    pub fn new(text: &str) -> (r: Option<Number>)
        ensures
            match r {
                Some(n) => n.deep_view() == text@ && spec_whole_number(text@),
                None => !spec_whole_number(text@),
            },
    {
        let chars = to_chars(text);
        Number::exact(chars.as_slice())
    }

    /// The number that the whole of `input` writes, if it is a literal.
    pub fn exact(input: &[char]) -> (r: Option<Number>)
        ensures
            match r {
                Some(n) => n.deep_view() == input@ && spec_whole_number(input@),
                None => !spec_whole_number(input@),
            },
    {
        match number_len(input) {
            Some(n) => if n == input.len() {
                let text = to_text(input);
                match double_bits(text.as_str()) {
                    Some(bits) => Some(Number { text, bits }),
                    None => None,
                }
            } else {
                None
            },
            None => None,
        }
    }
}

/// Reads a numeric literal from the start of `input`.
pub fn decimal_or_float(input: &[char]) -> (r: Option<(Number, usize)>)
    ensures
        parsed(r) == spec_number(input@),
        r matches Some((_, n)) ==> 0 < n <= input@.len(),
{
    match number_len(input) {
        Some(n) => {
            let lit = crate::scan::head(input, n);
            proof {
                lemma_literal_is_whole(input@, n as int);
            }
            let text = to_text(lit);
            match double_bits(text.as_str()) {
                Some(bits) => Some((Number { text, bits }, n)),
                None => None,
            }
        },
        None => None,
    }
}

/// The literal at the start of an input is itself a literal, whole.
#[verifier::rlimit(40)]
pub proof fn lemma_literal_is_whole(s: Seq<char>, n: int)
    requires
        spec_number_len(s) == Some(n),
    ensures
        spec_number_len(s.take(n)) == Some(n),
{
    lemma_number_len_bounds(s);
    let t = s.take(n);
    let sign = sign_len(s);
    assert(sign_len(t) == sign);
    let s1 = s.skip(sign);
    let t1 = t.skip(sign);
    assert(t1 =~= s1.take(n - sign));
    lemma_run_len_bounds(s1, CharClass::Digit);
    let whole = run_len(s1, CharClass::Digit);
    match mantissa_len(s1) {
        Some(m) => {
            if whole > 0 {
                if whole < s1.len() && s1[whole] == '.' {
                    let s2 = s1.skip(whole + 1);
                    lemma_run_len_bounds(s2, CharClass::Digit);
                    lemma_exponent_bounds(s.skip(sign + m));
                    lemma_run_len_take(s1, CharClass::Digit, n - sign);
                    assert(t1.skip(whole + 1) =~= s2.take(n - sign - whole - 1));
                    lemma_run_len_take(s2, CharClass::Digit, n - sign - whole - 1);
                    assert(t1[whole] == '.');
                } else {
                    lemma_exponent_bounds(s.skip(sign + m));
                    lemma_run_len_take(s1, CharClass::Digit, n - sign);
                    if whole < t1.len() {
                        assert(t1[whole] == s1[whole]);
                    }
                }
            } else {
                let s2 = s1.skip(1);
                lemma_run_len_bounds(s2, CharClass::Digit);
                lemma_exponent_bounds(s.skip(sign + m));
                lemma_run_len_take(s1, CharClass::Digit, n - sign);
                assert(t1.skip(1) =~= s2.take(n - sign - 1));
                lemma_run_len_take(s2, CharClass::Digit, n - sign - 1);
                assert(t1[0] == '.');
            }
            assert(mantissa_len(t1) == Some(m));
            let u = s.skip(sign + m);
            let v = t.skip(sign + m);
            assert(v =~= u.take(n - sign - m));
            if u.len() > 0 && (u[0] == 'e' || u[0] == 'E') {
                let esign = sign_len(u.skip(1));
                let u2 = u.skip(1 + esign);
                lemma_run_len_bounds(u2, CharClass::Digit);
                assert(v[0] == u[0]);
                assert(v.skip(1) =~= u.skip(1).take(n - sign - m - 1));
                assert(sign_len(v.skip(1)) == esign);
                assert(v.skip(1 + esign) =~= u2.take(n - sign - m - 1 - esign));
                lemma_run_len_take(u2, CharClass::Digit, n - sign - m - 1 - esign);
            } else {
                assert(v.len() == 0);
            }
        },
        None => {
            assert(sign == 0);
            assert(s1 =~= s);
            assert(t1 =~= t);
            assert(t[0] == s[0] && t[1] == s[1] && t[2] == s[2]);
            lemma_run_len_take(s, CharClass::Digit, 3);
            assert(mantissa_len(t) is None);
        },
    }
}

/// An exponent lies within the input.
pub proof fn lemma_exponent_bounds(s: Seq<char>)
    ensures
        exponent_len(s) matches Some(e) ==> 0 <= e <= s.len(),
{
    if s.len() > 0 {
        let sign = sign_len(s.skip(1));
        lemma_run_len_bounds(s.skip(1 + sign), CharClass::Digit);
    }
}

} // verus!
