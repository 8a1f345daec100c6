use gridflow::value::{Value, SCALE};

fn units(n: u64) -> Value {
    Value::from_units(n, false)
}

fn neg_units(n: u64) -> Value {
    Value::from_units(n, true)
}

#[test]
fn construction_canonicalizes_negative_zero() {
    let v = Value::from_parts(true, 0);
    assert_eq!(v, Value::zero());
    assert!(!v.neg);
}

#[test]
fn from_units_magnitude() {
    assert_eq!(units(5).mag, 5 * SCALE);
    assert!(!units(5).neg);
    assert!(neg_units(5).neg);
}

#[test]
fn increment_and_decrement() {
    assert_eq!(units(5).inc(), units(6));
    assert_eq!(units(5).dec(), units(4));
    assert_eq!(units(0).dec(), neg_units(1));
    assert_eq!(neg_units(1).inc(), Value::zero());
    // -0.5 + 1 == 0.5
    assert_eq!(Value::from_parts(true, SCALE / 2).inc(), Value::from_parts(false, SCALE / 2));
}

#[test]
fn doubling_and_halving() {
    assert_eq!(units(3).dbl(), units(6));
    let two_and_half = Value::from_parts(false, 2 * SCALE + SCALE / 2);
    assert_eq!(units(5).halve(), two_and_half);
    assert_eq!(two_and_half.dbl(), units(5));
    // halving truncates toward zero at the resolution limit
    assert_eq!(Value::from_parts(false, 1).halve(), Value::zero());
    assert_eq!(Value::from_parts(true, 1).halve(), Value::zero());
    // -5 / 2 == -2.5
    assert_eq!(neg_units(5).halve(), Value::from_parts(true, 2 * SCALE + SCALE / 2));
}

#[test]
fn addition_signs_and_cancellation() {
    assert_eq!(units(5).add(neg_units(3)), units(2));
    assert_eq!(units(3).add(neg_units(5)), neg_units(2));
    assert_eq!(units(5).add(neg_units(5)), Value::zero());
    assert_eq!(neg_units(2).add(neg_units(3)), neg_units(5));
}

#[test]
fn addition_saturates_at_bound() {
    let top = Value::from_parts(false, u128::MAX);
    assert_eq!(top.add(units(1)), top);
    assert_eq!(top.inc(), top);
    let bottom = Value::from_parts(true, u128::MAX);
    assert_eq!(bottom.dec(), bottom);
}

#[test]
fn negation_instruction() {
    // zero has no sign to flip: it becomes one
    assert_eq!(Value::zero().bang(), units(1));
    assert_eq!(units(5).bang(), neg_units(5));
    assert_eq!(neg_units(5).bang(), units(5));
    // involution away from zero
    assert_eq!(units(7).bang().bang(), units(7));
    let half = Value::from_parts(true, SCALE / 2);
    assert_eq!(half.bang().bang(), half);
}

#[test]
fn clamp_to_unit_interval() {
    assert_eq!(neg_units(3).clamp01(), Value::zero());
    assert_eq!(units(2).clamp01(), units(1));
    let half = Value::from_parts(false, SCALE / 2);
    assert_eq!(half.clamp01(), half);
}

#[test]
fn rounding_ceil_floor_fract() {
    let two_and_half = Value::from_parts(false, 2 * SCALE + SCALE / 2);
    let minus_two_and_half = Value::from_parts(true, 2 * SCALE + SCALE / 2);
    assert_eq!(two_and_half.ceil_val(), units(3));
    assert_eq!(two_and_half.floor_val(), units(2));
    assert_eq!(minus_two_and_half.ceil_val(), neg_units(2));
    assert_eq!(minus_two_and_half.floor_val(), neg_units(3));
    assert_eq!(units(4).ceil_val(), units(4));
    assert_eq!(units(4).floor_val(), units(4));
    let half = Value::from_parts(false, SCALE / 2);
    assert_eq!(two_and_half.fract_val(), half);
    assert_eq!(minus_two_and_half.fract_val(), Value::from_parts(true, SCALE / 2));
    assert_eq!(units(4).fract_val(), Value::zero());
    // ceiling of -0.5 is zero, canonical
    assert_eq!(Value::from_parts(true, SCALE / 2).ceil_val(), Value::zero());
}

#[test]
fn parity_of_values() {
    assert!(units(4).is_even_int());
    assert!(units(0).is_even_int());
    assert!(neg_units(4).is_even_int());
    assert!(!units(3).is_even_int());
    assert!(!neg_units(3).is_even_int());
    // a non-integer is never an even integer
    assert!(!Value::from_parts(false, 2 * SCALE + SCALE / 2).is_even_int());
}

#[test]
fn ordering_of_values() {
    assert!(units(5).gt(units(3)));
    assert!(!units(3).gt(units(5)));
    assert!(neg_units(3).gt(neg_units(5)));
    assert!(units(1).gt(neg_units(1)));
    assert!(!neg_units(1).gt(units(1)));
    assert!(!units(5).gt(units(5)));
}

#[test]
fn predicates() {
    assert!(Value::zero().is_zero());
    assert!(!units(1).is_zero());
    assert!(neg_units(1).is_negative());
    assert!(!units(1).is_negative());
    assert!(!Value::zero().is_negative());
}

#[test]
fn units_digit_for_rendering() {
    assert_eq!(units(12).units_digit(), 2);
    assert_eq!(neg_units(3).units_digit(), 3);
    assert_eq!(Value::from_parts(false, 12 * SCALE + SCALE / 2).units_digit(), 2);
    assert_eq!(Value::zero().units_digit(), 0);
}
