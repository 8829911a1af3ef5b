use vstd::prelude::*;

use crate::params::opt_view;

verus! {

/// The shortest wait a watch may ask for, in milliseconds.
pub const MIN_WAIT_MS: i64 = 10000;

/// The longest wait a watch may ask for, in milliseconds.
pub const MAX_WAIT_MS: i64 = 120000;

/// How much earlier than the client's own timeout the server answers.
pub const MARGIN_MS: i64 = 500;

/// The requested timeout held between the floor and the cap.
pub open spec fn clamp_spec(t: int) -> int {
    if t < 10000 {
        10000
    } else if t > 120000 {
        120000
    } else {
        t
    }
}

pub open spec fn is_digit(c: char) -> bool {
    '0' <= c && c <= '9'
}

pub open spec fn all_digits(s: Seq<char>) -> bool {
    forall|i: int| 0 <= i < s.len() ==> is_digit(#[trigger] s[i])
}

/// The value of a run of decimal digits.
pub open spec fn digits_value(s: Seq<char>) -> int
    decreases s.len(),
{
    if s.len() == 0 {
        0
    } else {
        digits_value(s.drop_last()) * 10 + (s.last() as int - '0' as int)
    }
}

/// The integer a decimal text stands for: an optional `+` or `-`, then one
/// or more digits, nothing else.
pub open spec fn decimal_of(s: Seq<char>) -> Option<int> {
    if s.len() >= 2 && s[0] == '-' && all_digits(s.drop_first()) {
        Some(-digits_value(s.drop_first()))
    } else if s.len() >= 2 && s[0] == '+' && all_digits(s.drop_first()) {
        Some(digits_value(s.drop_first()))
    } else if s.len() >= 1 && all_digits(s) {
        Some(digits_value(s))
    } else {
        None
    }
}

/// The timeout a header holds: a decimal that fits in an `i64`.
pub open spec fn timeout_of(s: Seq<char>) -> Option<int> {
    match decimal_of(s) {
        Some(v) => if i64::MIN <= v <= i64::MAX {
            Some(v)
        } else {
            None
        },
        None => None,
    }
}

/// The absolute deadline of a watch: `now + clamp(t) - 500` for a readable
/// timeout `t`; 0, a time already past, when there is none.
pub open spec fn deadline_spec(now: int, header: Option<Seq<char>>) -> int {
    match header {
        Some(h) => match timeout_of(h) {
            Some(t) => now + clamp_spec(t) - 500,
            None => 0,
        },
        None => 0,
    }
}

/// Relies on `<i64 as FromStr>::from_str`: it accepts an optional sign and
/// one or more ASCII digits, and fails on anything else or on overflow.
#[verifier::external_body]
fn parse_i64(s: &str) -> (r: Option<i64>)
    ensures
        r is Some <==> timeout_of(s@) is Some,
        r matches Some(v) ==> timeout_of(s@) == Some(v as int),
{
    s.parse::<i64>().ok()
}

/// The wait for a requested timeout: held between 10 s and 120 s, less the
/// 500 ms margin.
pub fn wait_ms(requested: i64) -> (r: i64)
    ensures
        r == clamp_spec(requested as int) - 500,
        MIN_WAIT_MS - MARGIN_MS <= r <= MAX_WAIT_MS - MARGIN_MS,
        requested < MIN_WAIT_MS ==> r == MIN_WAIT_MS - MARGIN_MS,
        requested > MAX_WAIT_MS ==> r == MAX_WAIT_MS - MARGIN_MS,
{
    let t = if requested < MIN_WAIT_MS {
        MIN_WAIT_MS
    } else if requested > MAX_WAIT_MS {
        MAX_WAIT_MS
    } else {
        requested
    };
    t - MARGIN_MS
}

/// The deadline of a watch made at `now_ms` with the given timeout header.
/// A missing or unreadable header gives 0: the watch only checks and returns.
pub fn listen_deadline(now_ms: i64, timeout: &Option<String>) -> (r: i64)
    requires
        now_ms <= i64::MAX - MAX_WAIT_MS,
    ensures
        r == deadline_spec(now_ms as int, opt_view(*timeout)),
{
    match timeout {
        Some(h) => match parse_i64(h.as_str()) {
            Some(v) => now_ms + wait_ms(v),
            None => 0,
        },
        None => 0,
    }
}

} // verus!
