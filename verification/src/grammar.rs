//! The mathematical model of the dimension-expression grammar.
//!
//! A dimension expression is a base value followed by zero or more chained
//! segments, in the concrete syntax
//!
//! ```text
//! calculation := digits unit (":" operator number unit)*
//! number      := digits ("." digits)?
//! unit        := "%" | "px" | ""
//! operator    := "+" | "-" | "*" | "/" | "%" | "^"
//! ```
//!
//! This module defines the grammar and its parse function over `Seq<char>`,
//! which the executable parser in `calc` is proved to implement exactly.

use vstd::prelude::*;

use crate::calc::Operation;
use crate::calc::Unit;

verus! {

/// Abstract form of a parsed value: the exact numeral text and its unit.
#[verifier::ext_equal]
pub struct ValueView {
    pub number: Seq<char>,
    pub unit: Unit,
}

/// Abstract form of one chained step: an operator and the value it applies.
#[verifier::ext_equal]
pub struct SegmentView {
    pub op: Operation,
    pub value: ValueView,
}

/// Abstract form of a whole expression: a base value and its segments, in
/// source order.
#[verifier::ext_equal]
pub struct CalculationView {
    pub base: ValueView,
    pub segments: Seq<SegmentView>,
}

/// Abstract form of a parse failure.
#[verifier::ext_equal]
pub enum ParseErrorView {
    /// The source does not begin with a numeral.
    InvalidSyntax,
    /// A `:`-delimited chunk does not match `operator number unit`.
    InvalidSegment(Seq<char>),
    /// The first character of a chunk is not one of the six operators.
    InvalidOperator(char),
    /// A trailing unit token is not `%`, `px` or empty.
    InvalidUnit(Seq<char>),
}

pub open spec fn is_digit(c: char) -> bool {
    48 <= c as int <= 57
}

pub open spec fn is_op_char(c: char) -> bool {
    c == '+' || c == '-' || c == '*' || c == '/' || c == '%' || c == '^'
}

/// The operation written as the character `c`.
pub open spec fn op_of_char(c: char) -> Operation
    recommends
        is_op_char(c),
{
    if c == '+' {
        Operation::Add
    } else if c == '-' {
        Operation::Subtract
    } else if c == '*' {
        Operation::Multiply
    } else if c == '/' {
        Operation::Divide
    } else if c == '%' {
        Operation::Remainder
    } else {
        Operation::Exponent
    }
}

/// The character that writes the operation `op`.
pub open spec fn op_char(op: Operation) -> char {
    match op {
        Operation::Add => '+',
        Operation::Subtract => '-',
        Operation::Multiply => '*',
        Operation::Divide => '/',
        Operation::Remainder => '%',
        Operation::Exponent => '^',
    }
}

/// The unit named by the token `s`, if `s` is one of the three unit tokens.
pub open spec fn unit_of_text(s: Seq<char>) -> Option<Unit> {
    if s.len() == 0 {
        Option::Some(Unit::Bare)
    } else if s.len() == 1 && s[0] == '%' {
        Option::Some(Unit::Percent)
    } else if s.len() == 2 && s[0] == 'p' && s[1] == 'x' {
        Option::Some(Unit::Pixel)
    } else {
        Option::None
    }
}

/// The token that writes the unit `u`.
pub open spec fn unit_text(u: Unit) -> Seq<char> {
    match u {
        Unit::Bare => Seq::empty(),
        Unit::Percent => seq!['%'],
        Unit::Pixel => seq!['p', 'x'],
    }
}

/// A run of one or more digits.
pub open spec fn is_digits_text(s: Seq<char>) -> bool {
    s.len() > 0 && forall|j: int| 0 <= j < s.len() ==> is_digit(#[trigger] s[j])
}

/// A numeral: digits with an optional fractional part.
pub open spec fn is_number_text(s: Seq<char>) -> bool {
    ||| is_digits_text(s)
    ||| exists|k: int|
        0 < k < s.len() && #[trigger] s[k] == '.' && is_digits_text(s.take(k)) && is_digits_text(
            s.skip(k + 1),
        )
}

/// The first position at or after `i` that does not hold a digit.
pub open spec fn digits_end(s: Seq<char>, i: int) -> int
    decreases s.len() - i
        when 0 <= i <= s.len()
{
    if i >= s.len() || !is_digit(s[i]) {
        i
    } else {
        digits_end(s, i + 1)
    }
}

/// The first position at or after `i` that holds a colon, or the end.
pub open spec fn colon_end(s: Seq<char>, i: int) -> int
    decreases s.len() - i
        when 0 <= i <= s.len()
{
    if i >= s.len() || s[i] == ':' {
        i
    } else {
        colon_end(s, i + 1)
    }
}

pub proof fn lemma_digits_end(s: Seq<char>, i: int)
    requires
        0 <= i <= s.len(),
    ensures
        i <= digits_end(s, i) <= s.len(),
        forall|j: int| i <= j < digits_end(s, i) ==> is_digit(#[trigger] s[j]),
        digits_end(s, i) < s.len() ==> !is_digit(s[digits_end(s, i)]),
    decreases s.len() - i,
{
    if i < s.len() && is_digit(s[i]) {
        lemma_digits_end(s, i + 1);
    }
}

pub proof fn lemma_colon_end(s: Seq<char>, i: int)
    requires
        0 <= i <= s.len(),
    ensures
        i <= colon_end(s, i) <= s.len(),
        forall|j: int| i <= j < colon_end(s, i) ==> #[trigger] s[j] != ':',
        colon_end(s, i) < s.len() ==> s[colon_end(s, i)] == ':',
    decreases s.len() - i,
{
    if i < s.len() && s[i] != ':' {
        lemma_colon_end(s, i + 1);
    }
}

/// `digits_end` is pinned down by what it scans: a run of digits from `i`
/// to `j`, with `j` the end or the first non-digit, makes `j` the answer.
pub proof fn lemma_digits_end_is(s: Seq<char>, i: int, j: int)
    requires
        0 <= i <= j <= s.len(),
        forall|t: int| i <= t < j ==> is_digit(#[trigger] s[t]),
        j < s.len() ==> !is_digit(s[j]),
    ensures
        digits_end(s, i) == j,
    decreases j - i,
{
    if i < j {
        lemma_digits_end_is(s, i + 1, j);
    }
}

/// `colon_end` is pinned down in the same way.
pub proof fn lemma_colon_end_is(s: Seq<char>, i: int, j: int)
    requires
        0 <= i <= j <= s.len(),
        forall|t: int| i <= t < j ==> #[trigger] s[t] != ':',
        j < s.len() ==> s[j] == ':',
    ensures
        colon_end(s, i) == j,
    decreases j - i,
{
    if i < j {
        lemma_colon_end_is(s, i + 1, j);
    }
}

/// Where the numeral that starts at `i` ends: its digits, and a fractional
/// part only where a point is followed by a further digit.
pub open spec fn number_end(s: Seq<char>, i: int) -> int
    recommends
        0 <= i <= s.len(),
{
    let d = digits_end(s, i);
    if d < s.len() && s[d] == '.' && d + 1 < s.len() && is_digit(s[d + 1]) {
        digits_end(s, d + 1)
    } else {
        d
    }
}

/// The source text that a value writes back to: its numeral followed by
/// its unit token.
pub open spec fn value_text(v: ValueView) -> Seq<char> {
    v.number + unit_text(v.unit)
}

/// The source text of one segment: the colon that introduces it, its
/// operator character, and its value.
pub open spec fn segment_text(seg: SegmentView) -> Seq<char> {
    seq![':'] + seq![op_char(seg.op)] + value_text(seg.value)
}

/// The source text of a run of segments, in order.
pub open spec fn segments_text(segs: Seq<SegmentView>) -> Seq<char>
    decreases segs.len(),
{
    if segs.len() == 0 {
        Seq::empty()
    } else {
        segment_text(segs[0]) + segments_text(segs.skip(1))
    }
}

/// The source text of a whole calculation.
pub open spec fn calculation_text(c: CalculationView) -> Seq<char> {
    value_text(c.base) + segments_text(c.segments)
}

/// A well-formed segment value: its numeral is a number of the grammar.
pub open spec fn wf_value(v: ValueView) -> bool {
    is_number_text(v.number)
}

/// A well-formed base value: the grammar gives the base a plain run of
/// digits, with no fractional part.
pub open spec fn wf_base(v: ValueView) -> bool {
    is_digits_text(v.number)
}

pub open spec fn wf_segment(seg: SegmentView) -> bool {
    wf_value(seg.value)
}

/// What the parser guarantees of every calculation it builds.
pub open spec fn wf_calculation(c: CalculationView) -> bool {
    &&& wf_base(c.base)
    &&& forall|k: int| 0 <= k < c.segments.len() ==> wf_segment(#[trigger] c.segments[k])
}

/// Parse one `:`-delimited chunk as `operator number unit`.
pub open spec fn parse_segment_text(chunk: Seq<char>) -> Result<SegmentView, ParseErrorView> {
    if chunk.len() == 0 {
        Err(ParseErrorView::InvalidSegment(chunk))
    } else if !is_op_char(chunk[0]) {
        Err(ParseErrorView::InvalidOperator(chunk[0]))
    } else if chunk.len() == 1 || !is_digit(chunk[1]) {
        Err(ParseErrorView::InvalidSegment(chunk))
    } else {
        let e = number_end(chunk, 1);
        match unit_of_text(chunk.subrange(e, chunk.len() as int)) {
            Option::Some(u) => Ok(
                SegmentView {
                    op: op_of_char(chunk[0]),
                    value: ValueView { number: chunk.subrange(1, e), unit: u },
                },
            ),
            Option::None => Err(ParseErrorView::InvalidUnit(chunk.subrange(e, chunk.len() as int))),
        }
    }
}

/// Parse the segments that begin at position `i` of `s`, where `i` is the
/// end of the source or the position of the colon that introduces the next
/// segment. Segments are delivered in source order; the first failing chunk
/// decides the error.
pub open spec fn parse_segments_text(s: Seq<char>, i: int) -> Result<
    Seq<SegmentView>,
    ParseErrorView,
>
    decreases s.len() - i
        when 0 <= i <= s.len()
{
    if i >= s.len() {
        Ok(Seq::empty())
    } else {
        let next = colon_end(s, i + 1);
        proof {
            lemma_colon_end(s, i + 1);
        }
        match parse_segment_text(s.subrange(i + 1, next)) {
            Err(e) => Err(e),
            Ok(seg) => match parse_segments_text(s, next) {
                Err(e) => Err(e),
                Ok(rest) => Ok(seq![seg] + rest),
            },
        }
    }
}

/// Parse a whole source text: a leading run of digits, then a unit token
/// that reaches to the first colon, then the segments.
pub open spec fn parse_text(s: Seq<char>) -> Result<CalculationView, ParseErrorView> {
    if s.len() == 0 || !is_digit(s[0]) {
        Err(ParseErrorView::InvalidSyntax)
    } else {
        let d = digits_end(s, 0);
        let u = colon_end(s, d);
        match unit_of_text(s.subrange(d, u)) {
            Option::None => Err(ParseErrorView::InvalidUnit(s.subrange(d, u))),
            Option::Some(unit) => match parse_segments_text(s, u) {
                Err(e) => Err(e),
                Ok(segments) => Ok(
                    CalculationView {
                        base: ValueView { number: s.subrange(0, d), unit },
                        segments,
                    },
                ),
            },
        }
    }
}

} // verus!
