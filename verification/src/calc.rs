//! The dimension-expression engine: typed form of an expression and the
//! parser that builds it from source text.
//!
//! A configuration field such as `"100%:-50px"` is parsed once into a
//! [`Calculation`]; a consumer then resolves it against a basis (for
//! example a screen width) as often as it likes. The parser is proved to
//! agree exactly with the grammar model in [`crate::grammar`].

use vstd::prelude::*;

use crate::grammar::CalculationView;
use crate::grammar::ParseErrorView;
use crate::grammar::SegmentView;
use crate::grammar::ValueView;
use crate::grammar::colon_end;
use crate::grammar::digits_end;
use crate::grammar::is_digit;
use crate::grammar::is_op_char;
use crate::grammar::lemma_colon_end;
use crate::grammar::op_of_char;
use crate::grammar::parse_segment_text;
use crate::grammar::parse_segments_text;
use crate::grammar::parse_text;
use crate::grammar::unit_of_text;

verus! {

/// The unit attached to a parsed magnitude. A bare number and a `Pixel`
/// value are numerically identical when a value is resolved; they are kept
/// apart so that the source text of an expression can be reconstructed
/// exactly.
#[derive(Clone, Copy, Debug, PartialEq, Eq, Structural)]
pub enum Unit {
    Pixel,
    Percent,
    Bare,
}

/// One of the six chained operators of the expression grammar.
#[derive(Clone, Copy, Debug, PartialEq, Eq, Structural)]
pub enum Operation {
    Add,
    Subtract,
    Multiply,
    Divide,
    Exponent,
    Remainder,
}

/// Why a source text was rejected. Every failure carries the offending
/// piece of the source, so a configuration loader can name it.
#[derive(Clone, Debug, PartialEq, Eq)]
pub enum ParseError {
    /// The source does not begin with a numeral.
    InvalidSyntax,
    /// A `:`-delimited chunk does not match `operator number unit`.
    InvalidSegment(String),
    /// The first character of a chunk is not one of the six operators.
    InvalidOperator(char),
    /// A trailing unit token is not `%`, `px` or empty.
    InvalidUnit(String),
}

impl View for ParseError {
    type V = ParseErrorView;

    open spec fn view(&self) -> ParseErrorView {
        match self {
            ParseError::InvalidSyntax => ParseErrorView::InvalidSyntax,
            ParseError::InvalidSegment(t) => ParseErrorView::InvalidSegment(t@),
            ParseError::InvalidOperator(c) => ParseErrorView::InvalidOperator(*c),
            ParseError::InvalidUnit(t) => ParseErrorView::InvalidUnit(t@),
        }
    }
}

/// A magnitude and its unit. The magnitude is kept as the exact numeral
/// text of the source; a consumer converts it to its numeric form when the
/// expression is resolved.
#[derive(Clone, Debug, PartialEq, Eq)]
pub struct Value {
    pub number: String,
    pub unit: Unit,
}

impl View for Value {
    type V = ValueView;

    open spec fn view(&self) -> ValueView {
        ValueView { number: self.number@, unit: self.unit }
    }
}

/// One chained step: an operation and the value it applies to the running
/// accumulator.
#[derive(Clone, Debug, PartialEq, Eq)]
pub struct Segment {
    pub op: Operation,
    pub value: Value,
}

impl View for Segment {
    type V = SegmentView;

    open spec fn view(&self) -> SegmentView {
        SegmentView { op: self.op, value: self.value@ }
    }
}

/// A parsed dimension expression: a base value and its segments, applied
/// strictly left to right.
#[derive(Clone, Debug, PartialEq, Eq)]
pub struct Calculation {
    pub base: Value,
    pub segments: Vec<Segment>,
}

impl View for Calculation {
    type V = CalculationView;

    open spec fn view(&self) -> CalculationView {
        CalculationView { base: self.base@, segments: seg_views(self.segments@) }
    }
}

/// The views of a sequence of parsed segments.
pub open spec fn seg_views(segs: Seq<Segment>) -> Seq<SegmentView> {
    segs.map_values(|s: Segment| s@)
}

/// A parse result, seen through the views of both sides.
pub open spec fn result_view<T: View, E: View>(r: Result<T, E>) -> Result<T::V, E::V> {
    match r {
        Ok(t) => Ok(t@),
        Err(e) => Err(e@),
    }
}

fn digit(c: char) -> (r: bool)
    ensures
        r == is_digit(c),
{
    let u = c as u32;
    48 <= u && u <= 57
}

impl Unit {
    /// Parse a unit token: `%`, `px` or the empty token.
    pub fn parse(s: &str) -> (r: Result<Unit, ParseError>)
        ensures
            match r {
                Ok(u) => unit_of_text(s@) == Option::Some(u),
                Err(e) => unit_of_text(s@) is None && e@ == ParseErrorView::InvalidUnit(s@),
            },
    {
        let n = s.unicode_len();
        if n == 0 {
            Ok(Unit::Bare)
        } else if n == 1 && s.get_char(0) == '%' {
            Ok(Unit::Percent)
        } else if n == 2 && s.get_char(0) == 'p' && s.get_char(1) == 'x' {
            Ok(Unit::Pixel)
        } else {
            Err(ParseError::InvalidUnit(s.to_owned()))
        }
    }
}

/// The end of the run of digits that starts at `from`.
fn scan_digits(s: &str, n: usize, from: usize) -> (r: usize)
    requires
        n as nat == s@.len(),
        from <= n,
    ensures
        from <= r <= n,
        r as int == digits_end(s@, from as int),
{
    let mut i = from;
    while i < n
        invariant_except_break
            n as nat == s@.len(),
            from <= i <= n,
            digits_end(s@, from as int) == digits_end(s@, i as int),
        ensures
            from <= i <= n,
            i as int == digits_end(s@, from as int),
        decreases n - i,
    {
        let c = s.get_char(i);
        if !digit(c) {
            break ;
        }
        i = i + 1;
    }
    i
}

/// The position of the first colon at or after `from`, or the end.
fn scan_to_colon(s: &str, n: usize, from: usize) -> (r: usize)
    requires
        n as nat == s@.len(),
        from <= n,
    ensures
        from <= r <= n,
        r as int == colon_end(s@, from as int),
{
    let mut i = from;
    while i < n
        invariant_except_break
            n as nat == s@.len(),
            from <= i <= n,
            colon_end(s@, from as int) == colon_end(s@, i as int),
        ensures
            from <= i <= n,
            i as int == colon_end(s@, from as int),
        decreases n - i,
    {
        let c = s.get_char(i);
        if c == ':' {
            break ;
        }
        i = i + 1;
    }
    i
}

impl Operation {
    /// Parse an operator character.
    pub fn parse(c: char) -> (r: Result<Operation, ParseError>)
        ensures
            is_op_char(c) ==> r == Ok::<Operation, ParseError>(op_of_char(c)),
            !is_op_char(c) ==> r == Err::<Operation, ParseError>(ParseError::InvalidOperator(c)),
    {
        match c {
            '+' => Ok(Operation::Add),
            '-' => Ok(Operation::Subtract),
            '*' => Ok(Operation::Multiply),
            '/' => Ok(Operation::Divide),
            '%' => Ok(Operation::Remainder),
            '^' => Ok(Operation::Exponent),
            _ => Err(ParseError::InvalidOperator(c)),
        }
    }
}

impl Calculation {
    /// Parse a whole source text into a calculation.
    ///
    /// The result agrees exactly with the grammar model: a well-formed
    /// source yields its unique parse, and a malformed one yields the
    /// typed error that the model assigns to it.
    #[verifier::loop_isolation(false)]
    pub fn parse(source: &str) -> (r: Result<Calculation, ParseError>)
        ensures
            result_view(r) == parse_text(source@),
    {
        let n = source.unicode_len();
        if n == 0 {
            return Err(ParseError::InvalidSyntax);
        }
        if !digit(source.get_char(0)) {
            return Err(ParseError::InvalidSyntax);
        }
        let d = scan_digits(source, n, 0);
        let u_end = scan_to_colon(source, n, d);
        let unit = match Unit::parse(source.substring_char(d, u_end)) {
            Ok(u) => u,
            Err(e) => {
                return Err(e);
            },
        };
        let base = Value { number: source.substring_char(0, d).to_owned(), unit };
        let mut segments: Vec<Segment> = Vec::new();
        let mut i = u_end;
        proof {
            lemma_colon_end(source@, d as int);
            let rest = parse_segments_text(source@, u_end as int);
            if rest is Ok {
                assert(seg_views(segments@) + rest->Ok_0 =~= rest->Ok_0);
            }
        }
        while i < n
            invariant
                u_end <= i <= n,
                i < n ==> source@[i as int] == ':',
                parse_segments_text(source@, u_end as int) == (match parse_segments_text(
                    source@,
                    i as int,
                ) {
                    Ok(rest) => Ok::<Seq<SegmentView>, ParseErrorView>(seg_views(segments@) + rest),
                    Err(e) => Err::<Seq<SegmentView>, ParseErrorView>(e),
                }),
            decreases n - i,
        {
            let next = scan_to_colon(source, n, i + 1);
            proof {
                lemma_colon_end(source@, i as int + 1);
            }
            let chunk = source.substring_char(i + 1, next);
            match Segment::parse(chunk) {
                Ok(seg) => {
                    let ghost pre = segments@;
                    segments.push(seg);
                    proof {
                        assert(seg_views(segments@) =~= seg_views(pre) + seq![seg@]);
                        let rest = parse_segments_text(source@, next as int);
                        if rest is Ok {
                            assert(seg_views(pre) + (seq![seg@] + rest->Ok_0) =~= seg_views(
                                segments@,
                            ) + rest->Ok_0);
                        }
                    }
                },
                Err(e) => {
                    return Err(e);
                },
            }
            i = next;
        }
        proof {
            assert(seg_views(segments@) + Seq::<SegmentView>::empty() =~= seg_views(segments@));
        }
        Ok(Calculation { base, segments })
    }
}

impl Segment {
    /// Parse one `:`-delimited chunk as `operator number unit`.
    pub fn parse(chunk: &str) -> (r: Result<Segment, ParseError>)
        ensures
            result_view(r) == parse_segment_text(chunk@),
    {
        let n = chunk.unicode_len();
        if n == 0 {
            return Err(ParseError::InvalidSegment(chunk.to_owned()));
        }
        let op = match Operation::parse(chunk.get_char(0)) {
            Ok(op) => op,
            Err(e) => {
                return Err(e);
            },
        };
        if n == 1 || !digit(chunk.get_char(1)) {
            return Err(ParseError::InvalidSegment(chunk.to_owned()));
        }
        let d = scan_digits(chunk, n, 1);
        let e = if d < n && chunk.get_char(d) == '.' && d + 1 < n && digit(chunk.get_char(d + 1)) {
            scan_digits(chunk, n, d + 1)
        } else {
            d
        };
        let number = chunk.substring_char(1, e).to_owned();
        let unit_token = chunk.substring_char(e, n);
        match Unit::parse(unit_token) {
            Ok(unit) => Ok(Segment { op, value: Value { number, unit } }),
            Err(err) => Err(err),
        }
    }
}

} // verus!
