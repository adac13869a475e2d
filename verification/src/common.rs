//! Envelopes of JSON answers and random keys.

use rand::Rng;
use vstd::prelude::*;

verus! {

/// A JSON answer `{"value": ...}`.
pub struct Value<T> {
    pub value: T,
}

/// A JSON answer `{"values": [...]}`.
pub struct Values<T> {
    pub values: Vec<T>,
}

/// Whether `c` is an ASCII letter or digit.
pub open spec fn is_alphanumeric(c: char) -> bool {
    ('a' <= c <= 'z') || ('A' <= c <= 'Z') || ('0' <= c <= '9')
}

/// `n` characters drawn from the thread's random number generator.
/// Wraps `rand::Rng::sample_iter` with `rand::distributions::Alphanumeric`,
/// which the `rand` documentation describes as sampling ASCII letters and
/// digits; which characters come out is left open.
#[verifier::external_body]
pub fn random_string(n: usize) -> (res: String)
    ensures
        res@.len() == n,
        forall|i: int| 0 <= i < n ==> is_alphanumeric(#[trigger] res@[i]),
{
    rand::thread_rng().sample_iter(&rand::distributions::Alphanumeric).take(n).map(char::from).collect()
}

} // verus!
