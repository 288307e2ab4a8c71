use bamboo::calc::Calculation;
use bamboo::calc::Operation;
use bamboo::calc::ParseError;
use bamboo::calc::Segment;
use bamboo::calc::Unit;
use bamboo::calc::Value;

fn value(number: &str, unit: Unit) -> Value {
    Value { number: number.to_string(), unit }
}

fn segment(op: Operation, number: &str, unit: Unit) -> Segment {
    Segment { op, value: value(number, unit) }
}

#[test]
fn parse() {
    assert_eq!(
        Calculation::parse("100%:-50px").unwrap(),
        Calculation {
            base: value("100", Unit::Percent),
            segments: vec![segment(Operation::Subtract, "50", Unit::Pixel)],
        }
    );
}

#[test]
fn segment_order() {
    assert_eq!(
        Calculation::parse("10:+5:*2").unwrap(),
        Calculation {
            base: value("10", Unit::Bare),
            segments: vec![
                segment(Operation::Add, "5", Unit::Bare),
                segment(Operation::Multiply, "2", Unit::Bare),
            ],
        }
    );
}

#[test]
fn plain_number_no_segments() {
    assert_eq!(
        Calculation::parse("42").unwrap(),
        Calculation { base: value("42", Unit::Bare), segments: vec![] }
    );
}

#[test]
fn unit_tokens() {
    assert_eq!(Unit::parse(""), Ok(Unit::Bare));
    assert_eq!(Unit::parse("px"), Ok(Unit::Pixel));
    assert_eq!(Unit::parse("%"), Ok(Unit::Percent));
    assert_eq!(Unit::parse("pt"), Err(ParseError::InvalidUnit("pt".to_string())));
    assert_eq!(Calculation::parse("7").unwrap().base.unit, Unit::Bare);
    assert_eq!(Calculation::parse("7px").unwrap().base.unit, Unit::Pixel);
    assert_eq!(Calculation::parse("7%").unwrap().base.unit, Unit::Percent);
}

#[test]
fn operation_symbols() {
    assert_eq!(Operation::parse('+'), Ok(Operation::Add));
    assert_eq!(Operation::parse('-'), Ok(Operation::Subtract));
    assert_eq!(Operation::parse('*'), Ok(Operation::Multiply));
    assert_eq!(Operation::parse('/'), Ok(Operation::Divide));
    assert_eq!(Operation::parse('%'), Ok(Operation::Remainder));
    assert_eq!(Operation::parse('^'), Ok(Operation::Exponent));
    assert_eq!(Operation::parse('?'), Err(ParseError::InvalidOperator('?')));
}

#[test]
fn malformed_inputs() {
    assert_eq!(Calculation::parse(""), Err(ParseError::InvalidSyntax));
    assert_eq!(Calculation::parse("abc"), Err(ParseError::InvalidSyntax));
    assert_eq!(
        Calculation::parse("100xx"),
        Err(ParseError::InvalidUnit("xx".to_string()))
    );
    assert_eq!(
        Calculation::parse("100%:?5px"),
        Err(ParseError::InvalidOperator('?'))
    );
}

#[test]
fn invalid_segment_variants() {
    assert_eq!(
        Calculation::parse("100%:"),
        Err(ParseError::InvalidSegment("".to_string()))
    );
    assert_eq!(
        Calculation::parse("100::+5"),
        Err(ParseError::InvalidSegment("".to_string()))
    );
    assert_eq!(
        Calculation::parse("100%:+px"),
        Err(ParseError::InvalidSegment("+px".to_string()))
    );
    assert_eq!(
        Calculation::parse("100%:+5qq"),
        Err(ParseError::InvalidUnit("qq".to_string()))
    );
}

#[test]
fn fractional_segment_number() {
    assert_eq!(
        Calculation::parse("100%:*0.5").unwrap(),
        Calculation {
            base: value("100", Unit::Percent),
            segments: vec![segment(Operation::Multiply, "0.5", Unit::Bare)],
        }
    );
    assert_eq!(
        Calculation::parse("50%:-2.25px").unwrap().segments,
        vec![segment(Operation::Subtract, "2.25", Unit::Pixel)]
    );
}

#[test]
fn base_rejects_fractional_number() {
    assert_eq!(
        Calculation::parse("1.5px"),
        Err(ParseError::InvalidUnit(".5px".to_string()))
    );
}

#[test]
fn segment_number_needs_digits_around_point() {
    assert_eq!(
        Calculation::parse("10:+5.px"),
        Err(ParseError::InvalidUnit(".px".to_string()))
    );
    assert_eq!(
        Calculation::parse("10:+.5px"),
        Err(ParseError::InvalidSegment("+.5px".to_string()))
    );
}

#[test]
fn whitespace_is_not_trimmed() {
    assert_eq!(
        Calculation::parse("100%: -50px"),
        Err(ParseError::InvalidOperator(' '))
    );
    assert_eq!(
        Calculation::parse("100 %"),
        Err(ParseError::InvalidUnit(" %".to_string()))
    );
}
