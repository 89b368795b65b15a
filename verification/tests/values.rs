use expression_functions::{
    abs, clip_value_to_range, ends_with, fallback_with_range_clipping, is_null, is_null_or, max,
    min, negate, safe_divide, starts_with, substring, ternary, Error, Value,
};

fn float(x: f64) -> Value {
    Value::Float(x.to_bits())
}

fn as_f64(v: &Value) -> f64 {
    match v {
        Value::Float(bits) => f64::from_bits(*bits),
        other => panic!("expected a float, got {:?}", other),
    }
}

#[test]
fn is_null_substitutes_zero() {
    assert_eq!(is_null(Value::Empty), Ok(Value::Int(0)));
    assert_eq!(is_null(Value::Int(7)), Ok(Value::Int(7)));
    assert_eq!(
        is_null(Value::String("x".into())),
        Ok(Value::String("x".into()))
    );
}

#[test]
fn is_null_or_substitutes_the_alternative() {
    assert_eq!(is_null_or(Value::Empty, Value::Int(9)), Ok(Value::Int(9)));
    assert_eq!(is_null_or(Value::Int(1), Value::Int(9)), Ok(Value::Int(1)));
}

#[test]
fn negate_all_variants() {
    assert_eq!(negate(Value::Empty), Ok(Value::Empty));
    assert_eq!(negate(Value::Int(4)), Ok(Value::Int(-4)));
    assert_eq!(negate(float(2.5)), Ok(float(-2.5)));
    assert_eq!(negate(Value::Boolean(true)), Ok(Value::Boolean(false)));
    match negate(Value::String("abc".into())) {
        Err(Error::CustomError(message)) => assert_eq!(message, "Cannot negate a value abc"),
        other => panic!("expected a custom error, got {:?}", other),
    }
}

#[test]
fn abs_all_variants() {
    assert_eq!(abs(float(-3.5)), Ok(float(3.5)));
    assert_eq!(abs(float(3.5)), Ok(float(3.5)));
    assert_eq!(abs(Value::Int(-4)), Ok(Value::Int(4)));
    assert_eq!(abs(Value::Empty), Ok(Value::Empty));
    assert_eq!(abs(Value::Boolean(true)), Err(Error::InvalidArgumentType));
    assert_eq!(
        abs(Value::String("x".into())),
        Err(Error::InvalidArgumentType)
    );
}

#[test]
fn abs_of_negate_preserves_magnitude() {
    for v in [Value::Int(17), Value::Int(-3), float(2.25), float(-8.5)] {
        let negated = negate(v.clone()).unwrap();
        assert_eq!(abs(negated), abs(v));
    }
}

#[test]
fn safe_divide_numeric_pairs() {
    assert_eq!(safe_divide(float(6.0), float(2.0)), Ok(float(3.0)));
    assert_eq!(safe_divide(Value::Int(7), Value::Int(2)), Ok(Value::Int(3)));
    assert_eq!(
        safe_divide(Value::Int(-7), Value::Int(2)),
        Ok(Value::Int(-3))
    );
    assert_eq!(safe_divide(float(7.0), Value::Int(2)), Ok(float(3.5)));
    assert_eq!(safe_divide(Value::Int(7), float(2.0)), Ok(float(3.5)));
}

#[test]
fn safe_divide_by_zero_is_empty() {
    assert_eq!(safe_divide(float(1.5), float(0.0)), Ok(Value::Empty));
    assert_eq!(safe_divide(float(1.5), float(-0.0)), Ok(Value::Empty));
    assert_eq!(safe_divide(Value::Int(5), Value::Int(0)), Ok(Value::Empty));
    assert_eq!(safe_divide(float(1.5), Value::Int(0)), Ok(Value::Empty));
    assert_eq!(safe_divide(Value::Int(5), float(0.0)), Ok(Value::Empty));
}

#[test]
fn safe_divide_soft_and_hard_failures() {
    assert_eq!(safe_divide(Value::Empty, Value::Int(2)), Ok(Value::Empty));
    assert_eq!(safe_divide(Value::Int(2), Value::Empty), Ok(Value::Empty));
    assert_eq!(safe_divide(Value::Empty, Value::Empty), Ok(Value::Empty));
    assert_eq!(
        safe_divide(Value::Boolean(true), Value::Empty),
        Ok(Value::Empty)
    );
    assert_eq!(
        safe_divide(Value::String("x".into()), Value::Int(2)),
        Err(Error::InvalidArgumentType)
    );
    assert_eq!(
        safe_divide(Value::Boolean(true), Value::Int(2)),
        Err(Error::InvalidArgumentType)
    );
}

#[test]
fn clip_clamps_into_the_symmetric_range() {
    assert_eq!(clip_value_to_range(float(5.0), float(2.0)), Ok(float(2.0)));
    assert_eq!(
        clip_value_to_range(float(-5.0), float(2.0)),
        Ok(float(-2.0))
    );
    assert_eq!(clip_value_to_range(float(1.5), float(2.0)), Ok(float(1.5)));
    // Integers are widened to the float domain.
    assert_eq!(
        clip_value_to_range(Value::Int(5), Value::Int(2)),
        Ok(float(2.0))
    );
    // Missing and non-numeric operands stand in as zero.
    assert_eq!(
        clip_value_to_range(Value::Empty, float(2.0)),
        Ok(float(0.0))
    );
    assert_eq!(
        clip_value_to_range(Value::String("x".into()), float(2.0)),
        Ok(float(0.0))
    );
    let clipped = clip_value_to_range(float(7.25), Value::Empty).unwrap();
    assert_eq!(as_f64(&clipped), 0.0);
}

#[test]
fn fallback_branches_and_defaults() {
    // The primary branch clips the primary score.
    assert_eq!(
        fallback_with_range_clipping(
            Value::Boolean(true),
            float(5.0),
            float(-9.0),
            float(2.0),
            Value::Int(42),
        ),
        Ok(float(2.0))
    );
    // A missing primary score falls back to the caller's empty value.
    assert_eq!(
        fallback_with_range_clipping(
            Value::Boolean(true),
            Value::Empty,
            float(-9.0),
            float(2.0),
            Value::Int(42),
        ),
        Ok(Value::Int(42))
    );
    // The secondary branch clips the secondary score.
    assert_eq!(
        fallback_with_range_clipping(
            Value::Boolean(false),
            float(5.0),
            float(-9.0),
            float(2.0),
            Value::Int(42),
        ),
        Ok(float(-2.0))
    );
    // A missing secondary score falls back to a plain float zero.
    assert_eq!(
        fallback_with_range_clipping(
            Value::Boolean(false),
            float(5.0),
            Value::Empty,
            float(2.0),
            Value::Int(42),
        ),
        Ok(float(0.0))
    );
    // A non-boolean selector counts as false.
    assert_eq!(
        fallback_with_range_clipping(
            Value::Int(1),
            float(5.0),
            float(1.0),
            float(2.0),
            Value::Int(42),
        ),
        Ok(float(1.0))
    );
}

#[test]
fn ternary_selects_by_boolean() {
    assert_eq!(
        ternary(Value::Boolean(true), Value::Int(1), Value::Int(2)),
        Ok(Value::Int(1))
    );
    assert_eq!(
        ternary(Value::Boolean(false), Value::Int(1), Value::Int(2)),
        Ok(Value::Int(2))
    );
    match ternary(
        Value::Int(1),
        Value::String("a".into()),
        Value::String("b".into()),
    ) {
        Err(Error::CustomError(message)) => {
            assert_eq!(message, "First parameter must be a boolean");
        }
        other => panic!("expected a custom error, got {:?}", other),
    }
}

#[test]
fn substring_slices_and_falls_back() {
    let s = Value::String("hello world".into());
    assert_eq!(
        substring(s.clone(), Value::Int(0), Value::Int(5)),
        Ok(Value::String("hello".into()))
    );
    assert_eq!(
        substring(s.clone(), Value::Int(6), Value::Int(50)),
        Ok(Value::String("world".into()))
    );
    // An out-of-bounds start yields the empty string.
    assert_eq!(
        substring(s.clone(), Value::Int(11), Value::Int(3)),
        Ok(Value::String(String::new()))
    );
    // A negative start reinterprets as a huge unsigned index: out of bounds.
    assert_eq!(
        substring(s.clone(), Value::Int(-1), Value::Int(3)),
        Ok(Value::String(String::new()))
    );
    // A negative length reinterprets as huge: the slice runs to the end.
    assert_eq!(
        substring(s.clone(), Value::Int(6), Value::Int(-1)),
        Ok(Value::String("world".into()))
    );
    // An empty message has no character in bounds.
    assert_eq!(
        substring(Value::String(String::new()), Value::Int(0), Value::Int(3)),
        Ok(Value::String(String::new()))
    );
    // A non-string message yields the empty string, whatever the rest is.
    assert_eq!(
        substring(Value::Int(5), Value::Boolean(true), Value::Int(3)),
        Ok(Value::String(String::new()))
    );
    // A non-integer index on a string message is a hard error.
    assert_eq!(
        substring(s, Value::Boolean(true), Value::Int(3)),
        Err(Error::InvalidArgumentType)
    );
}

#[test]
fn prefix_and_suffix_predicates() {
    let m = Value::String("BTCUSD".into());
    assert_eq!(
        starts_with(&m, &Value::String("BTC".into())),
        Ok(Value::Boolean(true))
    );
    assert_eq!(
        starts_with(&m, &Value::String("ETH".into())),
        Ok(Value::Boolean(false))
    );
    assert_eq!(starts_with(&m, &Value::Int(3)), Ok(Value::Boolean(false)));
    assert_eq!(
        ends_with(&m, &Value::String("USD".into())),
        Ok(Value::Boolean(true))
    );
    assert_eq!(
        ends_with(&m, &Value::String("EUR".into())),
        Ok(Value::Boolean(false))
    );
    assert_eq!(
        ends_with(&Value::Empty, &Value::String("x".into())),
        Ok(Value::Boolean(false))
    );
}

#[test]
fn max_and_min_over_the_value_order() {
    assert_eq!(max(Value::Int(3), Value::Int(5)), Ok(Value::Int(5)));
    assert_eq!(min(Value::Int(3), Value::Int(5)), Ok(Value::Int(3)));
    assert_eq!(max(float(1.5), float(-2.5)), Ok(float(1.5)));
    assert_eq!(min(float(1.5), float(-2.5)), Ok(float(-2.5)));
    // A mixed pair widens the integer before comparing.
    assert_eq!(max(Value::Int(2), float(2.5)), Ok(float(2.5)));
    assert_eq!(min(Value::Int(2), float(2.5)), Ok(Value::Int(2)));
    assert_eq!(
        max(Value::String("abc".into()), Value::String("abd".into())),
        Ok(Value::String("abd".into()))
    );
    assert_eq!(
        min(Value::String("b".into()), Value::String("abc".into())),
        Ok(Value::String("abc".into()))
    );
    assert_eq!(
        max(Value::Boolean(false), Value::Boolean(true)),
        Ok(Value::Boolean(true))
    );
    // An unordered pair falls through to the second argument.
    assert_eq!(max(Value::Int(9), Value::Empty), Ok(Value::Empty));
    assert_eq!(min(Value::Int(9), Value::Empty), Ok(Value::Empty));
}
