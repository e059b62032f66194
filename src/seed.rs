use vstd::prelude::*;

use rand::distributions::Alphanumeric;
use rand::{thread_rng, Rng};

verus! {

/// Length of a generated seed.
pub const DEFAULT_GEN_SEED_LEN: usize = 40;

/// An ASCII letter or digit.
pub open spec fn is_alphanumeric(c: char) -> bool {
    let x = c as u32;
    (48 <= x <= 57) || (65 <= x <= 90) || (97 <= x <= 122)
}

/// Relies on rand's `thread_rng` sampled with `Alphanumeric`: `length` characters,
/// each drawn from the ASCII letters and digits.
#[verifier::external_body]
fn random_alphanumeric(length: usize) -> (r: String)
    ensures
        r@.len() == length,
        forall|i: int| 0 <= i < r@.len() ==> is_alphanumeric(#[trigger] r@[i]),
{
    thread_rng().sample_iter(Alphanumeric).take(length).map(char::from).collect()
}

/// A fresh random seed of `length` ASCII letters and digits.
pub fn gen_seed_string(length: usize) -> (r: String)
    ensures
        r@.len() == length,
        forall|i: int| 0 <= i < r@.len() ==> is_alphanumeric(#[trigger] r@[i]),
{
    random_alphanumeric(length)
}

} // verus!
