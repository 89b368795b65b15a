//! String slicing and textual predicates over dynamically typed values.
use vstd::prelude::*;
use vstd::string::StrSliceExecFns;
use vstd::string::StringExecFns;
use crate::value::{Value, Error};

verus! {

/// The value of a signed integer reinterpreted as an unsigned machine word,
/// as an `as`-cast to an unsigned type performs it.
pub open spec fn wrap_to_u64(i: i64) -> u64 {
    if i >= 0 {
        i as u64
    } else {
        (i + 0x1_0000_0000_0000_0000) as u64
    }
}

fn wrap_u64(i: i64) -> (r: u64)
    ensures
        r == wrap_to_u64(i),
{
    if i >= 0 {
        i as u64
    } else {
        u64::MAX - ((-(i + 1)) as u64)
    }
}

/// What `substring` slices out of the character sequence `s`: nothing when
/// `start` is out of bounds, and otherwise the characters from `start` to
/// `start + len`, cut off at the end of `s`.
pub open spec fn spec_substring(s: Seq<char>, start: u64, len: u64) -> Seq<char> {
    if start < s.len() {
        let end = if start + len > s.len() {
            s.len() as int
        } else {
            start + len
        };
        s.subrange(start as int, end)
    } else {
        Seq::empty()
    }
}

/// The slice never exceeds the requested length nor the length of the
/// source, and an out-of-bounds start always yields the empty sequence.
pub proof fn lemma_substring_bounds(s: Seq<char>, start: u64, len: u64)
    ensures
        spec_substring(s, start, len).len() <= len,
        spec_substring(s, start, len).len() <= s.len(),
        start >= s.len() ==> spec_substring(s, start, len) == Seq::<char>::empty(),
{
}

/// Slices `message` by character position: `start` and `len` coerce to
/// integers and are reinterpreted as unsigned, an out-of-bounds start or a
/// non-string message yields the empty string rather than an error, and the
/// slice is cut off at the end of the string.
pub fn substring(message: Value, start: Value, len: Value) -> (r: Result<Value, Error>)
    ensures
        !(message is String) ==> (r matches Ok(v) && v matches Value::String(e) && e@
            == Seq::<char>::empty()),
        message is String && !(start is Int) ==> r == Err::<Value, Error>(
            Error::InvalidArgumentType,
        ),
        message is String && start is Int && !(len is Int) ==> r == Err::<Value, Error>(
            Error::InvalidArgumentType,
        ),
        message matches Value::String(s) ==> start matches Value::Int(a) ==> len
            matches Value::Int(b) ==> (r matches Ok(v) && v matches Value::String(out) && out@
            == spec_substring(s@, wrap_to_u64(a), wrap_to_u64(b))),
{
    if let Value::String(message) = message {
        let start_int: u64 = wrap_u64(start.as_int()?);
        let len_int: u64 = wrap_u64(len.as_int()?);
        let mlen: usize = message.as_str().unicode_len();
        if start_int < mlen as u64 {
            let rest: u64 = mlen as u64 - start_int;
            let end: usize = if len_int >= rest {
                mlen
            } else {
                (start_int + len_int) as usize
            };
            let sub = message.as_str().substring_char(start_int as usize, end);
            return Ok(Value::String(sub.to_owned()));
        }
        Ok(Value::String(String::new()))
    } else {
        Ok(Value::String(String::new()))
    }
}

/// Whether `p` is a prefix of `m`.
pub open spec fn spec_starts_with(m: Seq<char>, p: Seq<char>) -> bool {
    p.len() <= m.len() && m.subrange(0, p.len() as int) == p
}

/// Whether `p` is a suffix of `m`.
pub open spec fn spec_ends_with(m: Seq<char>, p: Seq<char>) -> bool {
    p.len() <= m.len() && m.subrange(m.len() - p.len(), m.len() as int) == p
}

fn str_starts_with(m: &str, p: &str) -> (r: bool)
    ensures
        r == spec_starts_with(m@, p@),
{
    let mlen = m.unicode_len();
    let plen = p.unicode_len();
    if plen > mlen {
        return false;
    }
    let mut i: usize = 0;
    while i < plen
        invariant
            0 <= i <= plen,
            plen == p@.len(),
            mlen == m@.len(),
            plen <= mlen,
            forall|j: int| 0 <= j < i ==> m@[j] == p@[j],
        decreases plen - i,
    {
        if m.get_char(i) != p.get_char(i) {
            assert(m@.subrange(0, plen as int) != p@) by {
                assert(m@.subrange(0, plen as int)[i as int] != p@[i as int]);
            }
            return false;
        }
        i += 1;
    }
    assert(m@.subrange(0, plen as int) =~= p@);
    true
}

fn str_ends_with(m: &str, p: &str) -> (r: bool)
    ensures
        r == spec_ends_with(m@, p@),
{
    let mlen = m.unicode_len();
    let plen = p.unicode_len();
    if plen > mlen {
        return false;
    }
    let off: usize = mlen - plen;
    let mut i: usize = 0;
    while i < plen
        invariant
            0 <= i <= plen,
            plen == p@.len(),
            mlen == m@.len(),
            plen <= mlen,
            off == mlen - plen,
            forall|j: int| 0 <= j < i ==> m@[off + j] == p@[j],
        decreases plen - i,
    {
        if m.get_char(off + i) != p.get_char(i) {
            assert(m@.subrange(off as int, mlen as int) != p@) by {
                assert(m@.subrange(off as int, mlen as int)[i as int] != p@[i as int]);
            }
            return false;
        }
        i += 1;
    }
    assert(m@.subrange(off as int, mlen as int) =~= p@);
    true
}

/// `Boolean(true)` exactly when both arguments are strings and the prefix
/// holds textually; every type mismatch yields `Boolean(false)`, not an
/// error.
pub fn starts_with(message: &Value, prefix: &Value) -> (r: Result<Value, Error>)
    ensures
        message matches Value::String(m) ==> prefix matches Value::String(p) ==> r == Ok::<
            Value,
            Error,
        >(Value::Boolean(spec_starts_with(m@, p@))),
        !(message is String && prefix is String) ==> r == Ok::<Value, Error>(
            Value::Boolean(false),
        ),
{
    if let (Value::String(m), Value::String(p)) = (message, prefix) {
        Ok(Value::Boolean(str_starts_with(m.as_str(), p.as_str())))
    } else {
        Ok(Value::Boolean(false))
    }
}

/// `Boolean(true)` exactly when both arguments are strings and the suffix
/// holds textually; every type mismatch yields `Boolean(false)`, not an
/// error.
pub fn ends_with(message: &Value, suffix: &Value) -> (r: Result<Value, Error>)
    ensures
        message matches Value::String(m) ==> suffix matches Value::String(p) ==> r == Ok::<
            Value,
            Error,
        >(Value::Boolean(spec_ends_with(m@, p@))),
        !(message is String && suffix is String) ==> r == Ok::<Value, Error>(
            Value::Boolean(false),
        ),
{
    if let (Value::String(m), Value::String(p)) = (message, suffix) {
        Ok(Value::Boolean(str_ends_with(m.as_str(), p.as_str())))
    } else {
        Ok(Value::Boolean(false))
    }
}

} // verus!
