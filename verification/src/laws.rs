//! The general laws of the engine, stated and proved once and for all.
//!
//! The central law is the round trip between a source text and its parsed
//! form: every text the parser accepts is written back, character for
//! character, by the grammar's own rendering, and every well-formed
//! calculation is accepted. Together they say that the parser accepts
//! exactly the grammar, and that parsing loses nothing.

use vstd::prelude::*;

use crate::calc::Operation;
use crate::calc::Unit;
use crate::grammar::CalculationView;
use crate::grammar::calculation_text;
use crate::grammar::colon_end;
use crate::grammar::digits_end;
use crate::grammar::is_digit;
use crate::grammar::is_digits_text;
use crate::grammar::is_number_text;
use crate::grammar::is_op_char;
use crate::grammar::ParseErrorView;
use crate::grammar::SegmentView;
use crate::grammar::lemma_colon_end;
use crate::grammar::lemma_colon_end_is;
use crate::grammar::lemma_digits_end;
use crate::grammar::lemma_digits_end_is;
use crate::grammar::number_end;
use crate::grammar::op_char;
use crate::grammar::op_of_char;
use crate::grammar::parse_segment_text;
use crate::grammar::parse_segments_text;
use crate::grammar::parse_text;
use crate::grammar::segment_text;
use crate::grammar::segments_text;
use crate::grammar::unit_of_text;
use crate::grammar::unit_text;
use crate::grammar::value_text;
use crate::grammar::wf_calculation;
use crate::grammar::wf_segment;

verus! {

/// Law: each unit writes one token, and parsing that token names the same
/// unit again. With `lemma_unit_token_unambiguous` this makes the three
/// unit tokens and the three units interchangeable.
pub proof fn lemma_unit_token_round_trip()
    ensures
        forall|u: Unit| unit_of_text(#[trigger] unit_text(u)) == Option::Some(u),
{
    assert forall|u: Unit| unit_of_text(#[trigger] unit_text(u)) == Option::Some(u) by {
        match u {
            Unit::Bare => {
                assert(unit_text(u).len() == 0);
            },
            Unit::Percent => {
                assert(unit_text(u).len() == 1 && unit_text(u)[0] == '%');
            },
            Unit::Pixel => {
                assert(unit_text(u).len() == 2 && unit_text(u)[0] == 'p' && unit_text(u)[1] == 'x');
            },
        }
    }
}

/// Law: a token names at most one unit, and it is that unit's own token.
pub proof fn lemma_unit_token_unambiguous(s: Seq<char>, u: Unit)
    requires
        unit_of_text(s) == Option::Some(u),
    ensures
        unit_text(u) == s,
{
    assert(unit_text(u) =~= s);
}

/// Law: each operator character names one operation, and each operation is
/// written back as the character it was parsed from.
pub proof fn lemma_operator_round_trip()
    ensures
        forall|c: char| is_op_char(c) ==> op_char(#[trigger] op_of_char(c)) == c,
        forall|op: Operation|
            is_op_char(#[trigger] op_char(op)) && op_of_char(op_char(op)) == op,
{
}

/// An accepted chunk writes back to itself: operator character, numeral,
/// unit token, and the numeral is a number of the grammar.
proof fn lemma_parse_segment_sound(chunk: Seq<char>)
    requires
        parse_segment_text(chunk) is Ok,
    ensures
        ({
            let seg = parse_segment_text(chunk)->Ok_0;
            &&& wf_segment(seg)
            &&& seq![op_char(seg.op)] + value_text(seg.value) == chunk
        }),
{
    let seg = parse_segment_text(chunk)->Ok_0;
    let e = number_end(chunk, 1);
    let d1 = digits_end(chunk, 1);
    lemma_digits_end(chunk, 1);
    lemma_operator_round_trip();
    lemma_unit_token_unambiguous(chunk.subrange(e, chunk.len() as int), seg.value.unit);
    let number = chunk.subrange(1, e);
    if d1 < chunk.len() && chunk[d1] == '.' && d1 + 1 < chunk.len() && is_digit(chunk[d1 + 1]) {
        lemma_digits_end(chunk, d1 + 1);
        let k = d1 - 1;
        assert(number.take(k) =~= chunk.subrange(1, d1));
        assert(number.skip(k + 1) =~= chunk.subrange(d1 + 1, e));
        assert(is_digits_text(number.take(k)));
        assert(is_digits_text(number.skip(k + 1)));
        assert(number[k] == '.');
        assert(is_number_text(number));
    } else {
        assert(e == d1);
        assert(is_digits_text(number));
    }
    assert(seq![op_char(seg.op)] + value_text(seg.value) =~= chunk);
}

/// An accepted run of segments writes back to exactly the suffix it was
/// parsed from, keeping source order.
proof fn lemma_parse_segments_sound(s: Seq<char>, i: int)
    requires
        0 <= i <= s.len(),
        i < s.len() ==> s[i] == ':',
        parse_segments_text(s, i) is Ok,
    ensures
        ({
            let segs = parse_segments_text(s, i)->Ok_0;
            &&& segments_text(segs) == s.subrange(i, s.len() as int)
            &&& forall|k: int| 0 <= k < segs.len() ==> wf_segment(#[trigger] segs[k])
        }),
    decreases s.len() - i,
{
    let segs = parse_segments_text(s, i)->Ok_0;
    if i >= s.len() {
        assert(segments_text(segs) =~= s.subrange(i, s.len() as int));
    } else {
        let next = colon_end(s, i + 1);
        lemma_colon_end(s, i + 1);
        let chunk = s.subrange(i + 1, next);
        lemma_parse_segment_sound(chunk);
        lemma_parse_segments_sound(s, next);
        let seg = parse_segment_text(chunk)->Ok_0;
        let rest = parse_segments_text(s, next)->Ok_0;
        assert(segs == seq![seg] + rest);
        assert(segs[0] == seg);
        assert(segs.skip(1) =~= rest);
        assert(segment_text(seg) =~= seq![':'] + chunk);
        assert(segments_text(segs) =~= s.subrange(i, s.len() as int));
        assert forall|k: int| 0 <= k < segs.len() implies wf_segment(#[trigger] segs[k]) by {
            if k > 0 {
                assert(segs[k] == rest[k - 1]);
            }
        }
    }
}

/// The characters of a unit token: never a digit, a colon or a point.
proof fn lemma_unit_text_chars(u: Unit)
    ensures
        forall|t: int|
            0 <= t < unit_text(u).len() ==> !is_digit(#[trigger] unit_text(u)[t]) && unit_text(
                u,
            )[t] != ':' && unit_text(u)[t] != '.',
{
    match u {
        Unit::Bare => {
        },
        Unit::Percent => {
            assert(unit_text(u)[0] == '%');
        },
        Unit::Pixel => {
            assert(unit_text(u)[0] == 'p');
            assert(unit_text(u)[1] == 'x');
        },
    }
}

/// The character of an operator: one of the six, never a digit or a colon.
proof fn lemma_op_char_facts(op: Operation)
    ensures
        is_op_char(op_char(op)),
        !is_digit(op_char(op)),
        op_char(op) != ':',
{
}

/// The characters of a numeral: digits and at most one point, and the
/// first is a digit.
proof fn lemma_number_text_chars(number: Seq<char>)
    requires
        is_number_text(number),
    ensures
        number.len() > 0,
        is_digit(number[0]),
        forall|t: int|
            0 <= t < number.len() ==> is_digit(#[trigger] number[t]) || number[t] == '.',
{
    if is_digits_text(number) {
    } else {
        let k = choose|k: int|
            0 < k < number.len() && #[trigger] number[k] == '.' && is_digits_text(number.take(k))
                && is_digits_text(number.skip(k + 1));
        assert forall|t: int| 0 <= t < k implies is_digit(#[trigger] number[t]) by {
            assert(number[t] == number.take(k)[t]);
        }
        assert forall|t: int| k < t < number.len() implies is_digit(#[trigger] number[t]) by {
            assert(number[t] == number.skip(k + 1)[t - k - 1]);
        }
    }
}

/// A well-formed segment, written out as `operator numeral unit`, is
/// accepted back as exactly itself.
proof fn lemma_parse_segment_complete(seg: SegmentView)
    requires
        wf_segment(seg),
    ensures
        parse_segment_text(seq![op_char(seg.op)] + value_text(seg.value)) == Ok::<
            SegmentView,
            ParseErrorView,
        >(seg),
{
    let number = seg.value.number;
    let u = seg.value.unit;
    let chunk = seq![op_char(seg.op)] + value_text(seg.value);
    let d = number.len() as int;
    lemma_operator_round_trip();
    lemma_unit_token_round_trip();
    lemma_unit_text_chars(u);
    lemma_op_char_facts(seg.op);
    lemma_number_text_chars(number);
    assert(chunk.len() == 1 + d + unit_text(u).len());
    assert(chunk[0] == op_char(seg.op));
    assert forall|t: int| 1 <= t < 1 + d implies #[trigger] chunk[t] == number[t - 1] by {}
    assert forall|t: int| 1 + d <= t < chunk.len() implies #[trigger] chunk[t] == unit_text(u)[t - 1
        - d] by {}
    if is_digits_text(number) {
        lemma_digits_end_is(chunk, 1, 1 + d);
        assert(number_end(chunk, 1) == 1 + d);
    } else {
        let k = choose|k: int|
            0 < k < number.len() && #[trigger] number[k] == '.' && is_digits_text(number.take(k))
                && is_digits_text(number.skip(k + 1));
        assert forall|t: int| 0 <= t < k implies is_digit(#[trigger] number[t]) by {
            assert(number[t] == number.take(k)[t]);
        }
        assert forall|t: int| k < t < number.len() implies is_digit(#[trigger] number[t]) by {
            assert(number[t] == number.skip(k + 1)[t - k - 1]);
        }
        lemma_digits_end_is(chunk, 1, 1 + k);
        assert(chunk[1 + k] == '.');
        assert(is_digit(chunk[1 + k + 1]));
        lemma_digits_end_is(chunk, 1 + k + 1, 1 + d);
        assert(number_end(chunk, 1) == 1 + d);
    }
    assert(is_digit(chunk[1]));
    assert(chunk.subrange(1, 1 + d) =~= number);
    assert(chunk.subrange(1 + d, chunk.len() as int) =~= unit_text(u));
    assert(unit_of_text(chunk.subrange(1 + d, chunk.len() as int)) == Option::Some(u));
    assert(parse_segment_text(chunk) is Ok);
    assert(parse_segment_text(chunk)->Ok_0 =~= seg);
}

/// A run of well-formed segments, written out, is accepted back as exactly
/// itself from the position where its text begins.
proof fn lemma_parse_segments_complete(s: Seq<char>, i: int, segs: Seq<SegmentView>)
    requires
        0 <= i <= s.len(),
        s.subrange(i, s.len() as int) == segments_text(segs),
        forall|k: int| 0 <= k < segs.len() ==> wf_segment(#[trigger] segs[k]),
    ensures
        parse_segments_text(s, i) == Ok::<Seq<SegmentView>, ParseErrorView>(segs),
    decreases segs.len(),
{
    if segs.len() == 0 {
        assert(s.subrange(i, s.len() as int).len() == 0);
        assert(i == s.len());
        assert(Seq::<SegmentView>::empty() =~= segs);
    } else {
        let seg = segs[0];
        let rest = segs.skip(1);
        let chunk = seq![op_char(seg.op)] + value_text(seg.value);
        let clen = chunk.len() as int;
        lemma_unit_text_chars(seg.value.unit);
        lemma_op_char_facts(seg.op);
        lemma_number_text_chars(seg.value.number);
        assert(segments_text(segs) == segment_text(seg) + segments_text(rest));
        assert(segment_text(seg) =~= seq![':'] + chunk);
        assert(s.len() - i == 1 + clen + segments_text(rest).len());
        assert(s[i] == s.subrange(i, s.len() as int)[0]);
        assert(s[i] == ':');
        let d = seg.value.number.len() as int;
        assert forall|j: int| 0 <= j < clen implies #[trigger] chunk[j] != ':' by {
            if j == 0 {
            } else if j < 1 + d {
                assert(chunk[j] == seg.value.number[j - 1]);
            } else {
                assert(chunk[j] == unit_text(seg.value.unit)[j - 1 - d]);
            }
        }
        assert forall|t: int| i + 1 <= t < i + 1 + clen implies #[trigger] s[t] != ':' by {
            assert(s[t] == s.subrange(i, s.len() as int)[t - i]);
            assert(s.subrange(i, s.len() as int)[t - i] == chunk[t - i - 1]);
        }
        if rest.len() == 0 {
            assert(segments_text(rest).len() == 0);
        } else {
            assert(segments_text(rest) == segment_text(rest[0]) + segments_text(rest.skip(1)));
            assert(segments_text(rest)[0] == ':');
            assert(s[i + 1 + clen] == s.subrange(i, s.len() as int)[1 + clen]);
            assert(s[i + 1 + clen] == ':');
        }
        lemma_colon_end_is(s, i + 1, i + 1 + clen);
        assert(segment_text(seg).len() == 1 + clen);
        assert forall|t: int| 0 <= t < clen implies s.subrange(i + 1, i + 1 + clen)[t] == chunk[t] by {
            assert(s.subrange(i + 1, i + 1 + clen)[t] == s[i + 1 + t]);
            assert(s[i + 1 + t] == s.subrange(i, s.len() as int)[1 + t]);
            assert(s.subrange(i, s.len() as int)[1 + t] == segment_text(seg)[1 + t]);
            assert(segment_text(seg)[1 + t] == chunk[t]);
        }
        assert(s.subrange(i + 1, i + 1 + clen) =~= chunk);
        lemma_parse_segment_complete(seg);
        assert forall|t: int| 0 <= t < segments_text(rest).len() implies s.subrange(
            i + 1 + clen,
            s.len() as int,
        )[t] == segments_text(rest)[t] by {
            assert(s.subrange(i + 1 + clen, s.len() as int)[t] == s[i + 1 + clen + t]);
            assert(s[i + 1 + clen + t] == s.subrange(i, s.len() as int)[1 + clen + t]);
            assert(s.subrange(i, s.len() as int)[1 + clen + t] == segments_text(rest)[t]);
        }
        assert(s.subrange(i + 1 + clen, s.len() as int) =~= segments_text(rest));
        assert forall|k: int| 0 <= k < rest.len() implies wf_segment(#[trigger] rest[k]) by {
            assert(rest[k] == segs[k + 1]);
        }
        lemma_parse_segments_complete(s, i + 1 + clen, rest);
        assert(seq![seg] + rest =~= segs);
    }
}

/// Law (completeness): every well-formed calculation, written out in the
/// grammar's concrete syntax, is parsed back as exactly itself. The parser
/// rejects nothing that the grammar admits.
pub proof fn lemma_parse_complete(c: CalculationView)
    requires
        wf_calculation(c),
    ensures
        parse_text(calculation_text(c)) == Ok::<CalculationView, ParseErrorView>(c),
{
    let s = calculation_text(c);
    let number = c.base.number;
    let u = c.base.unit;
    let ulen = unit_text(u).len() as int;
    let d = number.len() as int;
    lemma_unit_text_chars(u);
    lemma_unit_token_round_trip();
    assert(s == (number + unit_text(u)) + segments_text(c.segments));
    assert(s.len() == d + ulen + segments_text(c.segments).len());
    assert forall|t: int| 0 <= t < d implies #[trigger] s[t] == number[t] by {}
    assert forall|t: int| d <= t < d + ulen implies #[trigger] s[t] == unit_text(u)[t - d] by {}
    if d + ulen < s.len() {
        assert(segments_text(c.segments).len() > 0);
        assert(c.segments.len() > 0);
        assert(segments_text(c.segments) == segment_text(c.segments[0]) + segments_text(
            c.segments.skip(1),
        ));
        assert(segments_text(c.segments)[0] == ':');
        assert(s[d + ulen] == segments_text(c.segments)[0]);
    }
    lemma_digits_end_is(s, 0, d);
    lemma_colon_end_is(s, d, d + ulen);
    assert(s.subrange(0, d) =~= number);
    assert(s.subrange(d, d + ulen) =~= unit_text(u));
    assert(unit_of_text(s.subrange(d, d + ulen)) == Option::Some(u));
    assert(s.subrange(d + ulen, s.len() as int) =~= segments_text(c.segments));
    lemma_parse_segments_complete(s, d + ulen, c.segments);
    assert(s.len() > 0 && is_digit(s[0]));
    assert(parse_text(s) is Ok);
    assert(parse_text(s)->Ok_0 =~= c);
}

/// Law (round trip): a source text that parses is written back, from its
/// parsed form alone, character for character; and everything the parser
/// builds is well-formed under the grammar. Together with
/// `lemma_parse_complete` this pins the parser to the grammar exactly.
pub proof fn lemma_parse_round_trip(s: Seq<char>)
    requires
        parse_text(s) is Ok,
    ensures
        wf_calculation(parse_text(s)->Ok_0),
        calculation_text(parse_text(s)->Ok_0) == s,
{
    let c = parse_text(s)->Ok_0;
    let d = digits_end(s, 0);
    let u = colon_end(s, d);
    lemma_digits_end(s, 0);
    lemma_colon_end(s, d);
    lemma_unit_token_unambiguous(s.subrange(d, u), c.base.unit);
    lemma_parse_segments_sound(s, u);
    assert(d >= 1);
    assert(is_digits_text(s.subrange(0, d)));
    assert(value_text(c.base) =~= s.subrange(0, u));
    assert(calculation_text(c) =~= s);
}

} // verus!
