//! A library of pure built-in functions for a dynamically typed expression
//! evaluator over market/time-series records: a tagged-union `Value`, its
//! coercion rules, null propagation, safe arithmetic, string slicing,
//! conditional selection, and calendar-aligned timestamp rounding.
use vstd::prelude::*;

pub mod calendar;
pub mod funcs;
pub mod rounding;
pub mod strings;
pub mod value;

verus! {

pub use crate::value::{Value, Error};
pub use crate::funcs::{
    is_null, is_null_or, negate, abs, safe_divide, clip_value_to_range,
    fallback_with_range_clipping, ternary, max, min,
};
pub use crate::strings::{substring, starts_with, ends_with};
pub use crate::rounding::round_date_to_precision;
pub use crate::calendar::{DateTime, Precision, round_datetime_to_precision};

} // verus!
