use vstd::prelude::*;
use vstd::string::StrSliceExecFns;
use rustc_apfloat::Float;

verus! {

/// The closed set of failure kinds that the function library produces.
#[derive(Debug, Clone, PartialEq)]
pub enum Error {
    /// A generic domain-rule violation, carrying a human-readable message.
    CustomError(String),
    /// A function received a `Value` variant it does not support.
    InvalidArgumentType,
    /// A structurally malformed composite key.
    InvalidInputString,
    /// A timestamp segment was present but could not be parsed.
    InvalidDateFormat,
}

/// A dynamically typed value carried through expression evaluation.
///
/// `Float` holds the IEEE 754 binary64 bit pattern of the number, so that
/// the library can state and prove exact facts about sign, magnitude and
/// ordering without computing with machine floats itself.
#[derive(Debug, Clone, PartialEq)]
pub enum Value {
    /// The unique null sentinel.
    Empty,
    Int(i64),
    /// An IEEE 754 binary64 value, represented by its bit pattern.
    Float(u64),
    Boolean(bool),
    String(String),
}

/// The sign bit of an IEEE 754 binary64 bit pattern.
pub const F64_SIGN_BIT: u64 = 0x8000_0000_0000_0000;

/// The magnitude (all bits but the sign) of the pattern of positive infinity.
pub const F64_INF_MAGNITUDE: u64 = 0x7FF0_0000_0000_0000;

/// The bit pattern with the sign bit cleared.
pub open spec fn f64_magnitude(b: u64) -> u64 {
    if b >= F64_SIGN_BIT {
        (b - F64_SIGN_BIT) as u64
    } else {
        b
    }
}

pub open spec fn f64_is_negative(b: u64) -> bool {
    b >= F64_SIGN_BIT
}

/// A pattern is a NaN when its magnitude exceeds that of infinity.
pub open spec fn f64_is_nan(b: u64) -> bool {
    f64_magnitude(b) > F64_INF_MAGNITUDE
}

/// Both positive and negative zero count as zero.
pub open spec fn f64_is_zero(b: u64) -> bool {
    f64_magnitude(b) == 0
}

/// IEEE 754 negation: the sign bit is flipped.
pub open spec fn f64_neg(b: u64) -> u64 {
    if b >= F64_SIGN_BIT {
        (b - F64_SIGN_BIT) as u64
    } else {
        (b + F64_SIGN_BIT) as u64
    }
}

/// IEEE 754 absolute value: the sign bit is cleared.
pub open spec fn f64_abs(b: u64) -> u64 {
    f64_magnitude(b)
}

/// The signed key that orders non-NaN binary64 patterns: negative patterns
/// order by descending magnitude below the non-negative ones, and the two
/// zeros share the key 0.
pub open spec fn f64_key(b: u64) -> int {
    if f64_is_negative(b) {
        -(f64_magnitude(b) as int)
    } else {
        f64_magnitude(b) as int
    }
}

/// The IEEE 754 `<` relation on binary64 bit patterns: false whenever either
/// operand is a NaN, and the key order otherwise.
pub open spec fn f64_lt(a: u64, b: u64) -> bool {
    &&& !f64_is_nan(a)
    &&& !f64_is_nan(b)
    &&& f64_key(a) < f64_key(b)
}

pub fn float_neg_bits(b: u64) -> (r: u64)
    ensures
        r == f64_neg(b),
{
    if b >= F64_SIGN_BIT {
        b - F64_SIGN_BIT
    } else {
        b + F64_SIGN_BIT
    }
}

pub fn float_abs_bits(b: u64) -> (r: u64)
    ensures
        r == f64_abs(b),
{
    if b >= F64_SIGN_BIT {
        b - F64_SIGN_BIT
    } else {
        b
    }
}

pub fn float_is_zero(b: u64) -> (r: bool)
    ensures
        r == f64_is_zero(b),
{
    let m: u64 = if b >= F64_SIGN_BIT {
        b - F64_SIGN_BIT
    } else {
        b
    };
    m == 0
}

pub fn float_lt(a: u64, b: u64) -> (r: bool)
    ensures
        r == f64_lt(a, b),
{
    let ma: u64 = if a >= F64_SIGN_BIT {
        a - F64_SIGN_BIT
    } else {
        a
    };
    let mb: u64 = if b >= F64_SIGN_BIT {
        b - F64_SIGN_BIT
    } else {
        b
    };
    if ma > F64_INF_MAGNITUDE || mb > F64_INF_MAGNITUDE {
        false
    } else if a >= F64_SIGN_BIT {
        if b >= F64_SIGN_BIT {
            mb < ma
        } else {
            ma > 0 || mb > 0
        }
    } else {
        if b >= F64_SIGN_BIT {
            false
        } else {
            ma < mb
        }
    }
}

/// The binary64 pattern that dividing the pattern `a` by the pattern `b`
/// yields; a function of the two patterns alone.
pub uninterp spec fn div_bits(a: u64, b: u64) -> u64;

/// The binary64 pattern nearest to the integer `i`; a function of `i` alone.
pub uninterp spec fn float_of_int(i: i64) -> u64;

/// Relies on rustc_apfloat's `Double` (IEEE 754 binary64) `div_r`: division
/// of the two operand patterns, rounding to nearest with ties to even, as the
/// hardware `/` does. The result depends on the operand bits alone.
#[verifier::external_body]
pub fn float_div_bits(a: u64, b: u64) -> (r: u64)
    ensures
        r == div_bits(a, b),
{
    let x = rustc_apfloat::ieee::Double::from_bits(a as u128);
    let y = rustc_apfloat::ieee::Double::from_bits(b as u128);
    x.div_r(y, rustc_apfloat::Round::NearestTiesToEven).value.to_bits() as u64
}

/// Relies on rustc_apfloat's `Double::from_i128`: conversion of an integer to
/// the nearest binary64 value, which is always finite (never a NaN) since
/// every `i64` lies well inside the binary64 range. The result depends on the
/// integer alone.
#[verifier::external_body]
pub fn int_to_float_bits(i: i64) -> (r: u64)
    ensures
        r == float_of_int(i) && !f64_is_nan(r),
{
    rustc_apfloat::ieee::Double::from_i128(i as i128).value.to_bits() as u64
}

impl Value {
    /// The numeric projection of a value: the binary64 pattern it stands
    /// for, if it is numeric.
    pub open spec fn as_float_bits_spec(&self) -> Option<u64> {
        match self {
            Value::Int(i) => Option::Some(float_of_int(*i)),
            Value::Float(b) => Option::Some(*b),
            _ => Option::None,
        }
    }

    pub open spec fn as_boolean_spec(&self) -> Option<bool> {
        match self {
            Value::Boolean(b) => Option::Some(*b),
            _ => Option::None,
        }
    }

    /// The single predicate that tests for the null sentinel.
    pub fn is_empty(&self) -> (r: bool)
        ensures
            r == (self is Empty),
    {
        match self {
            Value::Empty => true,
            _ => false,
        }
    }

    /// Numeric projection: `Int` values are widened to the float domain,
    /// `Float` values pass through, and every non-numeric value yields
    /// `None` rather than an error, so that callers may substitute a
    /// default.
    pub fn as_float_or_none(&self) -> (r: Result<Option<u64>, Error>)
        ensures
            r == Ok::<Option<u64>, Error>(self.as_float_bits_spec()),
    {
        match self {
            Value::Int(i) => Ok(Some(int_to_float_bits(*i))),
            Value::Float(b) => Ok(Some(*b)),
            _ => Ok(None),
        }
    }

    /// Boolean projection: only `Boolean` values project; everything else
    /// yields `None` rather than an error.
    pub fn as_boolean_or_none(&self) -> (r: Result<Option<bool>, Error>)
        ensures
            r == Ok::<Option<bool>, Error>(self.as_boolean_spec()),
    {
        match self {
            Value::Boolean(b) => Ok(Some(*b)),
            _ => Ok(None),
        }
    }

    /// Integer projection: only `Int` values project; everything else is a
    /// hard type error.
    pub fn as_int(&self) -> (r: Result<i64, Error>)
        ensures
            match self {
                Value::Int(i) => r == Ok::<i64, Error>(*i),
                _ => r == Err::<i64, Error>(Error::InvalidArgumentType),
            },
    {
        match self {
            Value::Int(i) => Ok(*i),
            _ => Err(Error::InvalidArgumentType),
        }
    }
}

/// Lexicographic order over character sequences.
pub open spec fn str_lt(a: Seq<char>, b: Seq<char>) -> bool
    decreases a.len(),
{
    if b.len() == 0 {
        false
    } else if a.len() == 0 {
        true
    } else if a[0] != b[0] {
        (a[0] as u32) < (b[0] as u32)
    } else {
        str_lt(a.skip(1), b.skip(1))
    }
}

/// Comparing two sequences that agree on their first `i` characters is the
/// same as comparing their tails from `i` on.
proof fn lemma_str_lt_skip(a: Seq<char>, b: Seq<char>, i: int)
    requires
        0 <= i <= a.len(),
        i <= b.len(),
        forall|j: int| 0 <= j < i ==> a[j] == b[j],
    ensures
        str_lt(a, b) == str_lt(a.skip(i), b.skip(i)),
    decreases i,
{
    if i == 0 {
        assert(a.skip(0) =~= a);
        assert(b.skip(0) =~= b);
    } else {
        assert(a[0] == b[0]);
        lemma_str_lt_skip(a.skip(1), b.skip(1), i - 1);
        assert(a.skip(1).skip(i - 1) =~= a.skip(i));
        assert(b.skip(1).skip(i - 1) =~= b.skip(i));
    }
}

/// The strict order over values: numeric values order by their float
/// projection (an `Int` operand is widened), booleans put `false` below
/// `true`, strings order lexicographically, and every other pairing is
/// unordered.
pub open spec fn value_lt_spec(a: &Value, b: &Value) -> bool {
    match (a, b) {
        (Value::Int(x), Value::Int(y)) => *x < *y,
        (Value::Float(x), Value::Float(y)) => f64_lt(*x, *y),
        (Value::Int(x), Value::Float(y)) => f64_lt(float_of_int(*x), *y),
        (Value::Float(x), Value::Int(y)) => f64_lt(*x, float_of_int(*y)),
        (Value::Boolean(x), Value::Boolean(y)) => !*x && *y,
        (Value::String(x), Value::String(y)) => str_lt(x@, y@),
        _ => false,
    }
}

fn str_lt_exec(a: &str, b: &str) -> (r: bool)
    ensures
        r == str_lt(a@, b@),
{
    let alen = a.unicode_len();
    let blen = b.unicode_len();
    let shorter: usize = if alen < blen {
        alen
    } else {
        blen
    };
    let mut i: usize = 0;
    while i < shorter
        invariant
            0 <= i <= shorter,
            shorter == if alen < blen {
                alen as int
            } else {
                blen as int
            },
            alen == a@.len(),
            blen == b@.len(),
            forall|j: int| 0 <= j < i ==> a@[j] == b@[j],
        decreases shorter - i,
    {
        let ca = a.get_char(i);
        let cb = b.get_char(i);
        if ca != cb {
            proof {
                lemma_str_lt_skip(a@, b@, i as int);
            }
            return (ca as u32) < (cb as u32);
        }
        i += 1;
    }
    proof {
        lemma_str_lt_skip(a@, b@, shorter as int);
    }
    alen < blen
}

/// Decides the strict value order; exact with respect to `value_lt_spec`.
pub fn value_lt(a: &Value, b: &Value) -> (r: bool)
    ensures
        r == value_lt_spec(a, b),
{
    match (a, b) {
        (Value::Int(x), Value::Int(y)) => *x < *y,
        (Value::Float(x), Value::Float(y)) => float_lt(*x, *y),
        (Value::Int(x), Value::Float(y)) => {
            let xf = int_to_float_bits(*x);
            float_lt(xf, *y)
        },
        (Value::Float(x), Value::Int(y)) => {
            let yf = int_to_float_bits(*y);
            float_lt(*x, yf)
        },
        (Value::Boolean(x), Value::Boolean(y)) => !*x && *y,
        (Value::String(x), Value::String(y)) => str_lt_exec(x.as_str(), y.as_str()),
        _ => false,
    }
}

} // verus!
