//! Rounding of composite keys: an underscore-delimited prefix followed by a
//! timestamp in the `YYYY.MM.DD HH:MM:SS` wire format, truncated to a
//! named precision bucket.
use vstd::prelude::*;
use vstd::string::StrSliceExecFns;
use vstd::string::StringExecFns;
use vstd::arithmetic::div_mod::{
    lemma_fundamental_div_mod, lemma_mod_bound, lemma_div_denominator, lemma_div_is_ordered,
};
use crate::value::{Value, Error};
use crate::calendar::{
    DateTime, Precision, wf, days_in_month_exec, spec_truncate, round_datetime_to_precision,
};

verus! {

pub open spec fn is_digit(c: char) -> bool {
    48 <= c as u32 && c as u32 <= 57
}

pub open spec fn digit_val(c: char) -> int {
    c as u32 - 48
}

/// The decimal digit character for a digit value.
pub open spec fn digit_char(d: int) -> char {
    if d == 0 {
        '0'
    } else if d == 1 {
        '1'
    } else if d == 2 {
        '2'
    } else if d == 3 {
        '3'
    } else if d == 4 {
        '4'
    } else if d == 5 {
        '5'
    } else if d == 6 {
        '6'
    } else if d == 7 {
        '7'
    } else if d == 8 {
        '8'
    } else {
        '9'
    }
}

proof fn lemma_digit_char(d: int)
    requires
        0 <= d <= 9,
    ensures
        is_digit(digit_char(d)),
        digit_val(digit_char(d)) == d,
        digit_char(d) != '_',
{
}

pub open spec fn parse2(s: Seq<char>, i: int) -> int {
    10 * digit_val(s[i]) + digit_val(s[i + 1])
}

pub open spec fn parse4(s: Seq<char>, i: int) -> int {
    1000 * digit_val(s[i]) + 100 * digit_val(s[i + 1]) + 10 * digit_val(s[i + 2]) + digit_val(
        s[i + 3],
    )
}

/// The shape of the timestamp wire format: a zero-padded four-digit year
/// and two-digit fields, with the literal separators.
pub open spec fn ts_format_ok(s: Seq<char>) -> bool {
    &&& s.len() == 19
    &&& is_digit(s[0]) && is_digit(s[1]) && is_digit(s[2]) && is_digit(s[3])
    &&& s[4] == '.' && is_digit(s[5]) && is_digit(s[6])
    &&& s[7] == '.' && is_digit(s[8]) && is_digit(s[9])
    &&& s[10] == ' ' && is_digit(s[11]) && is_digit(s[12])
    &&& s[13] == ':' && is_digit(s[14]) && is_digit(s[15])
    &&& s[16] == ':' && is_digit(s[17]) && is_digit(s[18])
}

/// The timestamp a well-shaped segment denotes.
pub open spec fn parse_ts(s: Seq<char>) -> DateTime {
    DateTime {
        year: parse4(s, 0) as u32,
        month: parse2(s, 5) as u32,
        day: parse2(s, 8) as u32,
        hour: parse2(s, 11) as u32,
        minute: parse2(s, 14) as u32,
        second: parse2(s, 17) as u32,
    }
}

/// A segment parses strictly: it has the wire shape and denotes a
/// well-formed calendar timestamp.
pub open spec fn ts_valid(s: Seq<char>) -> bool {
    ts_format_ok(s) && wf(parse_ts(s))
}

fn digit_of(c: char) -> (r: Option<u32>)
    ensures
        match r {
            Option::Some(d) => is_digit(c) && d == digit_val(c) && d <= 9,
            Option::None => !is_digit(c),
        },
{
    let u = c as u32;
    if 48 <= u && u <= 57 {
        Some(u - 48)
    } else {
        None
    }
}

/// Strict parsing of a timestamp segment: `None` exactly on segments that
/// are malformed or denote no real calendar instant.
pub fn parse_timestamp(s: &str) -> (r: Option<DateTime>)
    ensures
        match r {
            Option::Some(dt) => ts_valid(s@) && dt == parse_ts(s@),
            Option::None => !ts_valid(s@),
        },
{
    if s.unicode_len() != 19 {
        return None;
    }
    let d0 = digit_of(s.get_char(0));
    let d1 = digit_of(s.get_char(1));
    let d2 = digit_of(s.get_char(2));
    let d3 = digit_of(s.get_char(3));
    let d5 = digit_of(s.get_char(5));
    let d6 = digit_of(s.get_char(6));
    let d8 = digit_of(s.get_char(8));
    let d9 = digit_of(s.get_char(9));
    let d11 = digit_of(s.get_char(11));
    let d12 = digit_of(s.get_char(12));
    let d14 = digit_of(s.get_char(14));
    let d15 = digit_of(s.get_char(15));
    let d17 = digit_of(s.get_char(17));
    let d18 = digit_of(s.get_char(18));
    if s.get_char(4) != '.' || s.get_char(7) != '.' || s.get_char(10) != ' ' || s.get_char(13)
        != ':' || s.get_char(16) != ':' {
        return None;
    }
    match (d0, d1, d2, d3, d5, d6, d8, d9, d11, d12, d14, d15, d17, d18) {
        (
            Some(y0),
            Some(y1),
            Some(y2),
            Some(y3),
            Some(mo0),
            Some(mo1),
            Some(da0),
            Some(da1),
            Some(h0),
            Some(h1),
            Some(mi0),
            Some(mi1),
            Some(se0),
            Some(se1),
        ) => {
            let year: u32 = 1000 * y0 + 100 * y1 + 10 * y2 + y3;
            let month: u32 = 10 * mo0 + mo1;
            let day: u32 = 10 * da0 + da1;
            let hour: u32 = 10 * h0 + h1;
            let minute: u32 = 10 * mi0 + mi1;
            let second: u32 = 10 * se0 + se1;
            if 1 <= month && month <= 12 && 1 <= day && day <= days_in_month_exec(year, month)
                && hour < 24 && minute < 60 && second < 60 {
                Some(DateTime { year, month, day, hour, minute, second })
            } else {
                None
            }
        },
        _ => None,
    }
}

pub open spec fn fmt2(n: int) -> Seq<char> {
    seq![digit_char(n / 10), digit_char(n % 10)]
}

pub open spec fn fmt4(n: int) -> Seq<char> {
    seq![
        digit_char(n / 1000),
        digit_char((n / 100) % 10),
        digit_char((n / 10) % 10),
        digit_char(n % 10),
    ]
}

/// The wire text of a timestamp: zero-padded fields with the literal
/// separators.
pub open spec fn spec_format(dt: DateTime) -> Seq<char> {
    fmt4(dt.year as int) + seq!['.'] + fmt2(dt.month as int) + seq!['.'] + fmt2(dt.day as int)
        + seq![' '] + fmt2(dt.hour as int) + seq![':'] + fmt2(dt.minute as int) + seq![':'] + fmt2(
        dt.second as int,
    )
}

proof fn lemma_decompose2(n: int)
    requires
        0 <= n < 100,
    ensures
        10 * (n / 10) + n % 10 == n,
        0 <= n / 10 <= 9,
        0 <= n % 10 <= 9,
{
    lemma_fundamental_div_mod(n, 10);
    lemma_mod_bound(n, 10);
    lemma_div_is_ordered(n, 99, 10);
}

proof fn lemma_decompose4(n: int)
    requires
        0 <= n <= 9999,
    ensures
        1000 * (n / 1000) + 100 * ((n / 100) % 10) + 10 * ((n / 10) % 10) + n % 10 == n,
        0 <= n / 1000 <= 9,
        0 <= (n / 100) % 10 <= 9,
        0 <= (n / 10) % 10 <= 9,
        0 <= n % 10 <= 9,
{
    lemma_fundamental_div_mod(n, 10);
    lemma_mod_bound(n, 10);
    lemma_fundamental_div_mod(n / 10, 10);
    lemma_mod_bound(n / 10, 10);
    lemma_fundamental_div_mod(n / 100, 10);
    lemma_mod_bound(n / 100, 10);
    lemma_div_denominator(n, 10, 10);
    lemma_div_denominator(n, 100, 10);
    lemma_div_is_ordered(n, 9999, 1000);
}

/// The wire text of a well-formed timestamp is nineteen characters, holds
/// no underscore, and parses back to exactly the timestamp it was written
/// from.
pub proof fn lemma_format_parses(dt: DateTime)
    requires
        wf(dt),
    ensures
        spec_format(dt).len() == 19,
        ts_valid(spec_format(dt)),
        parse_ts(spec_format(dt)) == dt,
        forall|j: int| 0 <= j < 19 ==> spec_format(dt)[j] != '_',
{
    let f = spec_format(dt);
    let y = dt.year as int;
    lemma_decompose4(y);
    lemma_decompose2(dt.month as int);
    lemma_decompose2(dt.day as int);
    lemma_decompose2(dt.hour as int);
    lemma_decompose2(dt.minute as int);
    lemma_decompose2(dt.second as int);
    assert(f.len() == 19);
    assert(f[0] == digit_char(y / 1000));
    assert(f[1] == digit_char((y / 100) % 10));
    assert(f[2] == digit_char((y / 10) % 10));
    assert(f[3] == digit_char(y % 10));
    assert(f[4] == '.');
    assert(f[5] == digit_char(dt.month as int / 10));
    assert(f[6] == digit_char(dt.month as int % 10));
    assert(f[7] == '.');
    assert(f[8] == digit_char(dt.day as int / 10));
    assert(f[9] == digit_char(dt.day as int % 10));
    assert(f[10] == ' ');
    assert(f[11] == digit_char(dt.hour as int / 10));
    assert(f[12] == digit_char(dt.hour as int % 10));
    assert(f[13] == ':');
    assert(f[14] == digit_char(dt.minute as int / 10));
    assert(f[15] == digit_char(dt.minute as int % 10));
    assert(f[16] == ':');
    assert(f[17] == digit_char(dt.second as int / 10));
    assert(f[18] == digit_char(dt.second as int % 10));
    assert forall|d: int| 0 <= d <= 9 implies is_digit(digit_char(d)) && digit_val(digit_char(d))
        == d && digit_char(d) != '_' by {
        lemma_digit_char(d);
    }
    assert(parse4(f, 0) == y);
    assert(parse2(f, 5) == dt.month);
    assert(parse2(f, 8) == dt.day);
    assert(parse2(f, 11) == dt.hour);
    assert(parse2(f, 14) == dt.minute);
    assert(parse2(f, 17) == dt.second);
    assert(parse_ts(f) == dt);
}

fn digit_str(d: u32) -> (r: &'static str)
    requires
        d <= 9,
    ensures
        r@ == seq![digit_char(d as int)],
{
    proof {
        reveal_strlit("0");
        reveal_strlit("1");
        reveal_strlit("2");
        reveal_strlit("3");
        reveal_strlit("4");
        reveal_strlit("5");
        reveal_strlit("6");
        reveal_strlit("7");
        reveal_strlit("8");
        reveal_strlit("9");
    }
    let r: &'static str = match d {
        0 => "0",
        1 => "1",
        2 => "2",
        3 => "3",
        4 => "4",
        5 => "5",
        6 => "6",
        7 => "7",
        8 => "8",
        _ => "9",
    };
    proof {
        assert(r@ =~= seq![digit_char(d as int)]);
    }
    r
}

fn push2(out: &mut String, n: u32)
    requires
        n < 100,
    ensures
        final(out)@ == old(out)@ + fmt2(n as int),
{
    out.append(digit_str(n / 10));
    out.append(digit_str(n % 10));
    proof {
        assert(out@ =~= old(out)@ + fmt2(n as int));
    }
}

fn push4(out: &mut String, n: u32)
    requires
        n < 10000,
    ensures
        final(out)@ == old(out)@ + fmt4(n as int),
{
    out.append(digit_str(n / 1000));
    out.append(digit_str((n / 100) % 10));
    out.append(digit_str((n / 10) % 10));
    out.append(digit_str(n % 10));
    proof {
        assert(out@ =~= old(out)@ + fmt4(n as int));
    }
}

/// Writes a timestamp in the wire format; exact with respect to
/// `spec_format`.
pub fn format_timestamp(dt: &DateTime) -> (r: String)
    requires
        wf(*dt),
    ensures
        r@ == spec_format(*dt),
{
    proof {
        reveal_strlit(".");
        reveal_strlit(" ");
        reveal_strlit(":");
    }
    let mut out = String::new();
    push4(&mut out, dt.year);
    out.append(".");
    push2(&mut out, dt.month);
    out.append(".");
    push2(&mut out, dt.day);
    out.append(" ");
    push2(&mut out, dt.hour);
    out.append(":");
    push2(&mut out, dt.minute);
    out.append(":");
    push2(&mut out, dt.second);
    proof {
        assert(out@ =~= spec_format(*dt));
    }
    out
}

/// The index of the last underscore of `s`, or minus one if there is none.
pub open spec fn last_underscore(s: Seq<char>) -> int
    decreases s.len(),
{
    if s.len() == 0 {
        -1
    } else if s[s.len() - 1] == '_' {
        s.len() - 1
    } else {
        last_underscore(s.drop_last())
    }
}

proof fn lemma_last_underscore_props(s: Seq<char>)
    ensures
        -1 <= last_underscore(s) < s.len(),
        last_underscore(s) >= 0 ==> s[last_underscore(s)] == '_',
        forall|j: int| last_underscore(s) < j < s.len() ==> s[j] != '_',
    decreases s.len(),
{
    if s.len() > 0 && s[s.len() - 1] != '_' {
        lemma_last_underscore_props(s.drop_last());
        if last_underscore(s) >= 0 {
            assert(s[last_underscore(s)] == s.drop_last()[last_underscore(s)]);
        }
        assert forall|j: int| last_underscore(s) < j < s.len() implies s[j] != '_' by {
            if j < s.len() - 1 {
                assert(s[j] == s.drop_last()[j]);
            }
        }
    }
}

proof fn lemma_last_underscore_unique(s: Seq<char>, l: int)
    requires
        -1 <= l < s.len(),
        l >= 0 ==> s[l] == '_',
        forall|j: int| l < j < s.len() ==> s[j] != '_',
    ensures
        last_underscore(s) == l,
{
    lemma_last_underscore_props(s);
}

/// Appending underscore-free text does not move the last underscore.
proof fn lemma_last_underscore_append(a: Seq<char>, b: Seq<char>)
    requires
        forall|j: int| 0 <= j < b.len() ==> b[j] != '_',
    ensures
        last_underscore(a + b) == last_underscore(a),
    decreases b.len(),
{
    if b.len() == 0 {
        assert(a + b =~= a);
    } else {
        assert((a + b).drop_last() =~= a + b.drop_last());
        lemma_last_underscore_append(a, b.drop_last());
    }
}

/// The timestamp segment of a key: everything after its last underscore.
pub open spec fn ts_part(s: Seq<char>) -> Seq<char> {
    s.skip(last_underscore(s) + 1)
}

/// What rounding writes in front of the timestamp: the key's own prefix up
/// to and including the last underscore, unless that prefix is empty.
pub open spec fn out_prefix(s: Seq<char>) -> Seq<char> {
    if last_underscore(s) >= 1 {
        s.take(last_underscore(s) + 1)
    } else {
        Seq::empty()
    }
}

/// The whole rounded key: the preserved prefix followed by the truncated
/// timestamp in wire format.
pub open spec fn spec_round_output(s: Seq<char>, p: Precision) -> Seq<char> {
    out_prefix(s) + spec_format(spec_truncate(parse_ts(ts_part(s)), p))
}

fn find_last_underscore(s: &str) -> (r: Option<usize>)
    ensures
        match r {
            Option::Some(i) => last_underscore(s@) == i,
            Option::None => last_underscore(s@) == -1,
        },
{
    let n = s.unicode_len();
    let mut i: usize = 0;
    let mut last: Option<usize> = None;
    while i < n
        invariant
            0 <= i <= n,
            n == s@.len(),
            match last {
                Option::Some(l) => l < i && s@[l as int] == '_' && forall|j: int|
                    l < j < i ==> s@[j] != '_',
                Option::None => forall|j: int| 0 <= j < i ==> s@[j] != '_',
            },
        decreases n - i,
    {
        if s.get_char(i) == '_' {
            last = Some(i);
        }
        i += 1;
    }
    proof {
        match last {
            Option::Some(l) => lemma_last_underscore_unique(s@, l as int),
            Option::None => lemma_last_underscore_unique(s@, -1),
        }
    }
    last
}

/// Lowercasing of the ASCII letters; every other character is untouched.
pub open spec fn lower_char(c: char) -> char {
    match c {
        'A' => 'a',
        'B' => 'b',
        'C' => 'c',
        'D' => 'd',
        'E' => 'e',
        'F' => 'f',
        'G' => 'g',
        'H' => 'h',
        'I' => 'i',
        'J' => 'j',
        'K' => 'k',
        'L' => 'l',
        'M' => 'm',
        'N' => 'n',
        'O' => 'o',
        'P' => 'p',
        'Q' => 'q',
        'R' => 'r',
        'S' => 's',
        'T' => 't',
        'U' => 'u',
        'V' => 'v',
        'W' => 'w',
        'X' => 'x',
        'Y' => 'y',
        'Z' => 'z',
        _ => c,
    }
}

pub open spec fn to_lower(s: Seq<char>) -> Seq<char> {
    s.map_values(|c: char| lower_char(c))
}

fn lower_char_exec(c: char) -> (r: char)
    ensures
        r == lower_char(c),
{
    match c {
        'A' => 'a',
        'B' => 'b',
        'C' => 'c',
        'D' => 'd',
        'E' => 'e',
        'F' => 'f',
        'G' => 'g',
        'H' => 'h',
        'I' => 'i',
        'J' => 'j',
        'K' => 'k',
        'L' => 'l',
        'M' => 'm',
        'N' => 'n',
        'O' => 'o',
        'P' => 'p',
        'Q' => 'q',
        'R' => 'r',
        'S' => 's',
        'T' => 't',
        'U' => 'u',
        'V' => 'v',
        'W' => 'w',
        'X' => 'x',
        'Y' => 'y',
        'Z' => 'z',
        _ => c,
    }
}

/// Relies on `String::push` of std: it appends exactly the one character
/// to the end of the string.
#[verifier::external_body]
fn push_char(s: &mut String, c: char)
    ensures
        final(s)@ == old(s)@ + seq![c],
{
    s.push(c);
}

fn to_lower_exec(s: &str) -> (r: String)
    ensures
        r@ == to_lower(s@),
{
    let n = s.unicode_len();
    let mut out = String::new();
    let mut i: usize = 0;
    while i < n
        invariant
            0 <= i <= n,
            n == s@.len(),
            out@ == to_lower(s@.take(i as int)),
        decreases n - i,
    {
        let c = lower_char_exec(s.get_char(i));
        push_char(&mut out, c);
        proof {
            assert(s@.take(i + 1) =~= s@.take(i as int) + seq![s@[i as int]]);
            assert(to_lower(s@.take(i + 1)) =~= to_lower(s@.take(i as int)) + seq![
                lower_char(s@[i as int]),
            ]);
        }
        i += 1;
    }
    proof {
        assert(s@.take(n as int) =~= s@);
    }
    out
}

/// The precision bucket a lowercased token selects, if any.
pub open spec fn spec_parse_precision(t: Seq<char>) -> Option<Precision> {
    if t == "m1"@ {
        Option::Some(Precision::Minute)
    } else if t == "m5"@ {
        Option::Some(Precision::FiveMinutes)
    } else if t == "m15"@ {
        Option::Some(Precision::QuarterHour)
    } else if t == "m30"@ {
        Option::Some(Precision::HalfHour)
    } else if t == "h1"@ {
        Option::Some(Precision::Hour)
    } else if t == "h4"@ {
        Option::Some(Precision::FourHours)
    } else if t == "d1"@ {
        Option::Some(Precision::Day)
    } else if t == "1w"@ {
        Option::Some(Precision::Week)
    } else if t == "1m"@ {
        Option::Some(Precision::Month)
    } else {
        Option::None
    }
}

fn precision_of_token(t: &String) -> (r: Option<Precision>)
    ensures
        r == spec_parse_precision(t@),
{
    if *t == "m1".to_owned() {
        Some(Precision::Minute)
    } else if *t == "m5".to_owned() {
        Some(Precision::FiveMinutes)
    } else if *t == "m15".to_owned() {
        Some(Precision::QuarterHour)
    } else if *t == "m30".to_owned() {
        Some(Precision::HalfHour)
    } else if *t == "h1".to_owned() {
        Some(Precision::Hour)
    } else if *t == "h4".to_owned() {
        Some(Precision::FourHours)
    } else if *t == "d1".to_owned() {
        Some(Precision::Day)
    } else if *t == "1w".to_owned() {
        Some(Precision::Week)
    } else if *t == "1m".to_owned() {
        Some(Precision::Month)
    } else {
        None
    }
}

/// Rounds the timestamp segment of a composite key to a precision bucket.
///
/// The key's last underscore-delimited segment must be a strict
/// `YYYY.MM.DD HH:MM:SS` timestamp; the segments before it are preserved
/// verbatim. The precision token is read case-insensitively. Non-string
/// arguments, an unparsable timestamp and an unknown token are the three
/// error paths, in that order of precedence.
pub fn round_date_to_precision(string: &Value, precision: &Value) -> (r: Result<Value, Error>)
    ensures
        !(string is String && precision is String) ==> r == Err::<Value, Error>(
            Error::InvalidArgumentType,
        ),
        string matches Value::String(s) ==> precision matches Value::String(p) ==> {
            &&& (!ts_valid(ts_part(s@)) ==> r == Err::<Value, Error>(Error::InvalidDateFormat))
            &&& (ts_valid(ts_part(s@)) ==> match spec_parse_precision(to_lower(p@)) {
                Option::Some(prec) => r matches Ok(v) && v matches Value::String(out) && out@
                    == spec_round_output(s@, prec),
                Option::None => r matches Err(Error::CustomError(m)) && m@ == "Precision "@
                    + to_lower(p@) + " is not recognised"@,
            })
        },
{
    if let (Value::String(s), Value::String(p)) = (string, precision) {
        let slen = s.as_str().unicode_len();
        let lu = find_last_underscore(s.as_str());
        proof {
            lemma_last_underscore_props(s@);
        }
        let start: usize = match lu {
            Some(i) => i + 1,
            None => 0,
        };
        let ts_str = s.as_str().substring_char(start, slen);
        proof {
            assert(ts_str@ =~= ts_part(s@));
        }
        match parse_timestamp(ts_str) {
            None => Err(Error::InvalidDateFormat),
            Some(dt) => {
                let lowered = to_lower_exec(p.as_str());
                match precision_of_token(&lowered) {
                    None => {
                        let mut m = "Precision ".to_owned();
                        m.append(lowered.as_str());
                        m.append(" is not recognised");
                        Err(Error::CustomError(m))
                    },
                    Some(prec) => {
                        let rounded = round_datetime_to_precision(dt, prec);
                        let fmt = format_timestamp(&rounded);
                        let mut out = String::new();
                        if let Some(i) = lu {
                            if i >= 1 {
                                out.append(s.as_str().substring_char(0, i + 1));
                            }
                        }
                        out.append(fmt.as_str());
                        proof {
                            assert(out@ =~= spec_round_output(s@, prec));
                        }
                        Ok(Value::String(out))
                    },
                }
            },
        }
    } else {
        Err(Error::InvalidArgumentType)
    }
}

/// Rounding is idempotent: rounding a rounded key at the same precision
/// returns it unchanged.
pub proof fn lemma_round_idempotent(s: Seq<char>, p: Precision)
    requires
        ts_valid(ts_part(s)),
    ensures
        ts_valid(ts_part(spec_round_output(s, p))),
        spec_round_output(spec_round_output(s, p), p) == spec_round_output(s, p),
{
    let dt = parse_ts(ts_part(s));
    let dt1 = spec_truncate(dt, p);
    crate::calendar::lemma_truncate_wf(dt, p);
    crate::calendar::lemma_truncate_idempotent(dt, p);
    let f = spec_format(dt1);
    lemma_format_parses(dt1);
    let o = spec_round_output(s, p);
    lemma_last_underscore_props(s);
    let lu = last_underscore(s);
    if lu >= 1 {
        let pre = s.take(lu + 1);
        assert(o == pre + f);
        assert(pre[pre.len() - 1] == '_');
        assert(last_underscore(pre) == lu);
        lemma_last_underscore_append(pre, f);
        assert(last_underscore(o) == lu);
        assert(ts_part(o) =~= f);
        assert(out_prefix(o) =~= pre);
        assert(spec_round_output(o, p) == out_prefix(o) + spec_format(
            spec_truncate(parse_ts(f), p),
        ));
        assert(spec_round_output(o, p) =~= o);
    } else {
        assert(out_prefix(s) =~= Seq::<char>::empty());
        assert(o =~= f);
        lemma_last_underscore_unique(o, -1);
        assert(ts_part(o) =~= f);
        assert(out_prefix(o) =~= Seq::<char>::empty());
        assert(spec_round_output(o, p) =~= o);
    }
}

} // verus!
