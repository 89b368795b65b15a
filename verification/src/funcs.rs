//! Null handling, arithmetic safety, conditional selection and comparison
//! over dynamically typed values.
use vstd::prelude::*;
use vstd::arithmetic::div_mod::{
    lemma_div_is_ordered, lemma_div_is_ordered_by_denominator, lemma_div_nonincreasing,
};
use crate::value::{
    Value, Error, f64_neg, f64_abs, f64_lt, f64_is_nan, f64_is_zero, div_bits, float_of_int,
    float_neg_bits, float_abs_bits, float_is_zero, float_lt, float_div_bits, int_to_float_bits,
    value_lt_spec, value_lt,
};

verus! {

/// What `is_null` returns: the null sentinel is replaced by the integer
/// zero, every other value passes through unchanged.
pub open spec fn spec_is_null(v: Value) -> Value {
    if v is Empty {
        Value::Int(0)
    } else {
        v
    }
}

/// Replaces the null sentinel by `Int(0)`; any other value is returned
/// unchanged. Despite the name, this substitutes a value, it does not
/// answer a yes/no question.
pub fn is_null(value: Value) -> (r: Result<Value, Error>)
    ensures
        r == Ok::<Value, Error>(spec_is_null(value)),
{
    match value {
        Value::Empty => Ok(Value::Int(0)),
        v => Ok(v),
    }
}

/// What `is_null_or` returns: the alternative replaces the null sentinel.
pub open spec fn spec_is_null_or(v: Value, alternative: Value) -> Value {
    if v is Empty {
        alternative
    } else {
        v
    }
}

/// Returns `alternative` if `value` is the null sentinel, else `value`.
pub fn is_null_or(value: Value, alternative: Value) -> (r: Result<Value, Error>)
    ensures
        r == Ok::<Value, Error>(spec_is_null_or(value, alternative)),
{
    match value {
        Value::Empty => Ok(alternative),
        v => Ok(v),
    }
}

/// What `negate` returns on the variants it supports (all but `String`).
pub open spec fn spec_negate_ok(v: Value) -> Value {
    match v {
        Value::Empty => Value::Empty,
        Value::Int(i) => Value::Int((-i) as i64),
        Value::Float(b) => Value::Float(f64_neg(b)),
        Value::Boolean(b) => Value::Boolean(!b),
        _ => v,
    }
}

/// Negation: the null sentinel propagates, integers and floats change sign,
/// booleans are logically inverted, and a string cannot be negated.
pub fn negate(value: Value) -> (r: Result<Value, Error>)
    requires
        value matches Value::Int(i) ==> i != i64::MIN,
    ensures
        !(value is String) ==> r == Ok::<Value, Error>(spec_negate_ok(value)),
        value matches Value::String(s) ==> (r matches Err(Error::CustomError(m)) && m@
            == "Cannot negate a value "@ + s@),
{
    match value {
        Value::Empty => Ok(Value::Empty),
        Value::Int(i) => Ok(Value::Int(-i)),
        Value::Float(b) => Ok(Value::Float(float_neg_bits(b))),
        Value::Boolean(b) => Ok(Value::Boolean(!b)),
        Value::String(s) => {
            let mut m = "Cannot negate a value ".to_owned();
            m.append(s.as_str());
            Err(Error::CustomError(m))
        },
    }
}

/// What `abs` returns on the variants it supports (`Float`, `Int`, `Empty`).
pub open spec fn spec_abs_ok(v: Value) -> Value {
    match v {
        Value::Float(b) => Value::Float(f64_abs(b)),
        Value::Int(i) => Value::Int(
            if i < 0 {
                (-i) as i64
            } else {
                i
            },
        ),
        _ => v,
    }
}

/// Absolute value: floats and integers lose their sign, the null sentinel
/// propagates, and every other variant is an argument-type error.
pub fn abs(value: Value) -> (r: Result<Value, Error>)
    requires
        value matches Value::Int(i) ==> i != i64::MIN,
    ensures
        value is Boolean || value is String ==> r == Err::<Value, Error>(
            Error::InvalidArgumentType,
        ),
        !(value is Boolean) && !(value is String) ==> r == Ok::<Value, Error>(spec_abs_ok(value)),
{
    match value {
        Value::Float(b) => Ok(Value::Float(float_abs_bits(b))),
        Value::Int(i) => Ok(Value::Int(if i < 0 { -i } else { i })),
        Value::Empty => Ok(Value::Empty),
        _ => Err(Error::InvalidArgumentType),
    }
}

/// For every non-`Empty` numeric value, negation preserves the absolute
/// value: `abs(negate(v)) == abs(v)`.
pub proof fn lemma_abs_negate(v: Value)
    requires
        v is Int || v is Float,
        v matches Value::Int(i) ==> i != i64::MIN,
    ensures
        spec_abs_ok(spec_negate_ok(v)) == spec_abs_ok(v),
{
}

/// The magnitude of a signed integer, as a mathematical integer.
pub open spec fn int_abs(a: i64) -> int {
    if a < 0 {
        -(a as int)
    } else {
        a as int
    }
}

/// Truncating (round-toward-zero) signed division, as `/` on machine
/// integers performs it.
pub open spec fn spec_div_trunc(a: i64, b: i64) -> int {
    let q = int_abs(a) / int_abs(b);
    if (a < 0) != (b < 0) {
        -q
    } else {
        q
    }
}

/// Truncating signed division over the magnitudes, avoiding every overflow
/// but the excluded `i64::MIN / -1`.
fn div_trunc(a: i64, b: i64) -> (q: i64)
    requires
        b != 0,
        !(a == i64::MIN && b == -1),
    ensures
        q == spec_div_trunc(a, b),
{
    let ua: u64 = if a == i64::MIN {
        0x8000_0000_0000_0000u64
    } else if a < 0 {
        (-a) as u64
    } else {
        a as u64
    };
    let ub: u64 = if b == i64::MIN {
        0x8000_0000_0000_0000u64
    } else if b < 0 {
        (-b) as u64
    } else {
        b as u64
    };
    let uq: u64 = ua / ub;
    proof {
        assert(ua as int == int_abs(a));
        assert(ub as int == int_abs(b));
        if ub >= 2 {
            lemma_div_is_ordered_by_denominator(ua as int, 2, ub as int);
            lemma_div_is_ordered(ua as int, 0x8000_0000_0000_0000, 2);
        } else {
            assert(ub == 1);
            lemma_div_nonincreasing(ua as int, ub as int);
        }
    }
    if (a < 0) != (b < 0) {
        if uq == 0x8000_0000_0000_0000u64 {
            i64::MIN
        } else {
            -(uq as i64)
        }
    } else {
        uq as i64
    }
}

/// What `safe_divide` returns, for every pair of values: numeric pairs
/// divide (an `Int` operand beside a `Float` is widened), a zero divisor
/// and a null operand fall back softly to the null sentinel, and any other
/// pairing is an argument-type error.
pub open spec fn spec_safe_divide(left: Value, right: Value) -> Result<Value, Error> {
    match (left, right) {
        (Value::Float(a), Value::Float(b)) => if f64_is_zero(b) {
            Ok(Value::Empty)
        } else {
            Ok(Value::Float(div_bits(a, b)))
        },
        (Value::Int(a), Value::Int(b)) => if b == 0 {
            Ok(Value::Empty)
        } else {
            Ok(Value::Int(spec_div_trunc(a, b) as i64))
        },
        (Value::Float(a), Value::Int(b)) => if b == 0 {
            Ok(Value::Empty)
        } else {
            Ok(Value::Float(div_bits(a, float_of_int(b))))
        },
        (Value::Int(a), Value::Float(b)) => if f64_is_zero(b) {
            Ok(Value::Empty)
        } else {
            Ok(Value::Float(div_bits(float_of_int(a), b)))
        },
        (_, Value::Empty) => Ok(Value::Empty),
        (Value::Empty, _) => Ok(Value::Empty),
        _ => Err(Error::InvalidArgumentType),
    }
}

/// Division with an explicit zero guard: a zero divisor yields the null
/// sentinel rather than an error or an infinity.
pub fn safe_divide(left: Value, right: Value) -> (r: Result<Value, Error>)
    requires
        !(left == Value::Int(i64::MIN) && right == Value::Int(-1i64)),
    ensures
        r == spec_safe_divide(left, right),
{
    match (left, right) {
        (Value::Float(a), Value::Float(b)) => {
            if float_is_zero(b) {
                Ok(Value::Empty)
            } else {
                Ok(Value::Float(float_div_bits(a, b)))
            }
        },
        (Value::Int(a), Value::Int(b)) => {
            if b == 0 {
                Ok(Value::Empty)
            } else {
                Ok(Value::Int(div_trunc(a, b)))
            }
        },
        (Value::Float(a), Value::Int(b)) => {
            if b == 0 {
                Ok(Value::Empty)
            } else {
                let bf = int_to_float_bits(b);
                Ok(Value::Float(float_div_bits(a, bf)))
            }
        },
        (Value::Int(a), Value::Float(b)) => {
            if float_is_zero(b) {
                Ok(Value::Empty)
            } else {
                let af = int_to_float_bits(a);
                Ok(Value::Float(float_div_bits(af, b)))
            }
        },
        (_, Value::Empty) => Ok(Value::Empty),
        (Value::Empty, _) => Ok(Value::Empty),
        _ => Err(Error::InvalidArgumentType),
    }
}

/// Dividing any numeric value by a numeric zero — `Int(0)`, or a `Float`
/// whose pattern is one of the two IEEE zeros — yields the null sentinel.
pub proof fn lemma_safe_divide_by_zero(x: Value)
    requires
        x is Int || x is Float,
    ensures
        spec_safe_divide(x, Value::Int(0)) == Ok::<Value, Error>(Value::Empty),
        forall|b: u64|
            f64_is_zero(b) ==> spec_safe_divide(x, Value::Float(b)) == Ok::<Value, Error>(
                Value::Empty,
            ),
{
}

/// The float projection used by range clipping: a missing or non-numeric
/// value stands in as positive zero.
pub open spec fn float_proj(v: Value) -> u64 {
    match v.as_float_bits_spec() {
        Option::Some(b) => b,
        Option::None => 0,
    }
}

/// What clipping the pattern `vb` into the symmetric range around the
/// pattern `cb` yields.
pub open spec fn spec_clip(vb: u64, cb: u64) -> u64 {
    if f64_lt(cb, vb) {
        cb
    } else if f64_lt(vb, f64_neg(cb)) {
        f64_neg(cb)
    } else {
        vb
    }
}

/// Whenever neither operand is a NaN, the clipped pattern lies in the
/// symmetric range `[-|cb|, |cb|]` under the IEEE order.
pub proof fn lemma_clip_in_range(vb: u64, cb: u64)
    requires
        !f64_is_nan(vb),
        !f64_is_nan(cb),
    ensures
        !f64_lt(f64_abs(cb), spec_clip(vb, cb)),
        !f64_lt(spec_clip(vb, cb), f64_neg(f64_abs(cb))),
{
}

/// Clamps `value` into the symmetric range `[-|constant|, |constant|]` in
/// the float domain; missing or non-numeric arguments stand in as zero, and
/// the result is always a `Float`.
pub fn clip_value_to_range(value: Value, constant: Value) -> (r: Result<Value, Error>)
    ensures
        r == Ok::<Value, Error>(Value::Float(spec_clip(float_proj(value), float_proj(constant)))),
        !f64_is_nan(float_proj(value)) && !f64_is_nan(float_proj(constant)) ==> {
            let rb = spec_clip(float_proj(value), float_proj(constant));
            let cb = float_proj(constant);
            !f64_lt(f64_abs(cb), rb) && !f64_lt(rb, f64_neg(f64_abs(cb)))
        },
{
    let value_as_float: u64 = match value.as_float_or_none() {
        Ok(Some(b)) => b,
        _ => 0,
    };
    let constant_as_float: u64 = match constant.as_float_or_none() {
        Ok(Some(b)) => b,
        _ => 0,
    };
    let neg_constant = float_neg_bits(constant_as_float);
    let adjusted_value: u64 = if float_lt(constant_as_float, value_as_float) {
        constant_as_float
    } else if float_lt(value_as_float, neg_constant) {
        neg_constant
    } else {
        value_as_float
    };
    proof {
        if !f64_is_nan(float_proj(value)) && !f64_is_nan(float_proj(constant)) {
            lemma_clip_in_range(float_proj(value), float_proj(constant));
        }
    }
    Ok(Value::Float(adjusted_value))
}

/// What the fallback selection returns. The two branches fall back
/// differently on a missing score — the caller's `empty_value` on the
/// primary side, a plain float zero on the secondary side — and that
/// asymmetry is deliberate.
pub open spec fn spec_fallback_with_range_clipping(
    should_use_primary: Value,
    primary: Value,
    secondary: Value,
    range_to_clip: Value,
    empty_value: Value,
) -> Value {
    if should_use_primary.as_boolean_spec() == Option::Some(true) {
        if !(primary is Empty) {
            Value::Float(spec_clip(float_proj(primary), float_proj(range_to_clip)))
        } else {
            empty_value
        }
    } else {
        if !(secondary is Empty) {
            Value::Float(spec_clip(float_proj(secondary), float_proj(range_to_clip)))
        } else {
            Value::Float(0)
        }
    }
}

/// Chooses the primary or the secondary score by the boolean selector (a
/// non-boolean selector counts as false), clips the chosen score into the
/// symmetric range, and falls back when the chosen score is missing.
pub fn fallback_with_range_clipping(
    should_use_primary: Value,
    primary: Value,
    secondary: Value,
    range_to_clip: Value,
    empty_value: Value,
) -> (r: Result<Value, Error>)
    ensures
        r == Ok::<Value, Error>(
            spec_fallback_with_range_clipping(
                should_use_primary,
                primary,
                secondary,
                range_to_clip,
                empty_value,
            ),
        ),
{
    let use_primary: bool = match should_use_primary.as_boolean_or_none() {
        Ok(Some(b)) => b,
        _ => false,
    };
    if use_primary {
        if !primary.is_empty() {
            clip_value_to_range(primary, range_to_clip)
        } else {
            Ok(empty_value)
        }
    } else {
        if !secondary.is_empty() {
            clip_value_to_range(secondary, range_to_clip)
        } else {
            Ok(Value::Float(0))
        }
    }
}

/// Selects between two values by a boolean condition; any non-boolean
/// condition is a domain error.
pub fn ternary(condition: Value, true_value: Value, false_value: Value) -> (r: Result<
    Value,
    Error,
>)
    ensures
        condition == Value::Boolean(true) ==> r == Ok::<Value, Error>(true_value),
        condition == Value::Boolean(false) ==> r == Ok::<Value, Error>(false_value),
        !(condition is Boolean) ==> (r matches Err(Error::CustomError(m)) && m@
            == "First parameter must be a boolean"@),
{
    if let Value::Boolean(cond) = condition {
        if cond {
            Ok(true_value)
        } else {
            Ok(false_value)
        }
    } else {
        Err(Error::CustomError("First parameter must be a boolean".to_owned()))
    }
}

/// The larger of the two values under the value order; on an unordered
/// pair the comparison falls through and the second value is returned.
pub fn max(value1: Value, value2: Value) -> (r: Result<Value, Error>)
    ensures
        r == Ok::<Value, Error>(
            if value_lt_spec(&value2, &value1) {
                value1
            } else {
                value2
            },
        ),
{
    if value_lt(&value2, &value1) {
        Ok(value1)
    } else {
        Ok(value2)
    }
}

/// The smaller of the two values under the value order; on an unordered
/// pair the second value is returned.
pub fn min(value1: Value, value2: Value) -> (r: Result<Value, Error>)
    ensures
        r == Ok::<Value, Error>(
            if value_lt_spec(&value1, &value2) {
                value1
            } else {
                value2
            },
        ),
{
    if value_lt(&value1, &value2) {
        Ok(value1)
    } else {
        Ok(value2)
    }
}

} // verus!
