//! Evaluation scenarios. Evaluation itself works on IEEE-754 floats and
//! therefore lives with the consumer, outside the verified library; the
//! resolver written here performs it the way a consumer does, and these
//! scenarios pin down that a parsed calculation carries exactly the
//! information evaluation needs, in exactly the right order.

use bamboo::calc::Calculation;
use bamboo::calc::Operation;
use bamboo::calc::Unit;
use bamboo::calc::Value;

fn resolve(value: &Value, basis: f32) -> f32 {
    let magnitude: f32 = value.number.parse().unwrap();
    match value.unit {
        Unit::Pixel | Unit::Bare => magnitude,
        Unit::Percent => (magnitude / 100.0) * basis,
    }
}

fn evaluate(calc: &Calculation, basis: f32) -> f32 {
    let mut acc = resolve(&calc.base, basis);
    for segment in &calc.segments {
        let v = resolve(&segment.value, basis);
        match segment.op {
            Operation::Add => acc += v,
            Operation::Subtract => acc -= v,
            Operation::Multiply => acc *= v,
            Operation::Divide => acc /= v,
            Operation::Remainder => acc %= v,
            Operation::Exponent => acc = acc.powf(v),
        }
    }
    acc
}

fn evaluate_source(source: &str, basis: f32) -> f32 {
    evaluate(&Calculation::parse(source).unwrap(), basis)
}

#[test]
fn calculate() {
    assert_eq!(evaluate_source("100%:-50px", 100.0).round(), 50.0);
    assert_eq!(evaluate_source("50%:-25px", 100.0).round(), 25.0);
    assert_eq!(evaluate_source("100px:-50px", 0.0).round(), 50.0);
    assert_eq!(evaluate_source("100%:+50px", 100.0).round(), 150.0);
    assert_eq!(evaluate_source("100%:*2", 100.0).round(), 200.0);
    assert_eq!(evaluate_source("100%:/2", 100.0).round(), 50.0);
    assert_eq!(evaluate_source("100%:^2", 4.0).round(), 16.0);
    assert_eq!(evaluate_source("100%:%2", 10.0).round(), 0.0);
}

#[test]
fn evaluation_is_left_to_right() {
    assert_eq!(evaluate_source("10:+5:*2", 0.0), 30.0);
    assert_eq!(evaluate_source("10:+5:*2", 999.0), 30.0);
}

#[test]
fn evaluation_is_idempotent() {
    let calc = Calculation::parse("33%:+7px:*1.5").unwrap();
    let first = evaluate(&calc, 640.0);
    let second = evaluate(&calc, 640.0);
    assert_eq!(first, second);
}

#[test]
fn percent_segments_resolve_against_the_basis() {
    assert_eq!(evaluate_source("100%:-10%", 200.0), 180.0);
}
