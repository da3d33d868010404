//! The few outside calls the library depends on: the clock, the random
//! number generator, and two std conversions that vstd gives no
//! specification. Everything else in the crate is verified against the
//! contracts written here.

use vstd::prelude::*;

verus! {

/// Relies on chrono::Utc::now: seconds of the current Unix time. No two
/// calls are related and the clock may move freely, so nothing is promised
/// of the result.
#[verifier::external_body]
pub(crate) fn now_seconds() -> i64 {
    chrono::Utc::now().timestamp()
}

/// Relies on rand::random_range over `0..n`: a uniformly random value of
/// the range, which panics only when the range is empty.
#[verifier::external_body]
pub(crate) fn random_below(n: usize) -> (r: usize)
    requires
        n > 0,
    ensures
        r < n,
{
    rand::random_range(0..n)
}

/// Relies on String::from_iter over chars: the string of exactly the given
/// characters, in order.
#[verifier::external_body]
pub(crate) fn chars_to_string(v: &Vec<char>) -> (r: String)
    ensures
        r@ == v@,
{
    v.iter().collect()
}

/// Relies on char::from_u32: for a code point below 0x10000 that is no
/// surrogate, the character with exactly that code point.
#[verifier::external_body]
pub(crate) fn char_from_code(v: u32) -> (r: char)
    requires
        v < 0xD800 || (0xE000 <= v < 0x10000),
    ensures
        r == v as char,
{
    char::from_u32(v).unwrap()
}

} // verus!
