//! Random identifier strings, drawn through the `rand` crate.

use rand::Rng;
use rand::distr::Alphanumeric;
use vstd::prelude::*;

verus! {

/// An ASCII digit or letter: the character set `Alphanumeric` draws from.
pub open spec fn is_ascii_alphanumeric_char(c: char) -> bool {
    ||| 48 <= c as int <= 57
    ||| 65 <= c as int <= 90
    ||| 97 <= c as int <= 122
}

/// Relies on rand's `Alphanumeric` distribution: every sample is one byte
/// from a 62-character set of ASCII digits and letters, so taking
/// `num_chars` samples gives exactly that many characters, each an ASCII
/// digit or letter. Which characters come out is random.
#[verifier::external_body]
pub fn generate_random_string(num_chars: usize) -> (r: String)
    ensures
        r@.len() == num_chars,
        forall|i: int| 0 <= i < r@.len() ==> is_ascii_alphanumeric_char(#[trigger] r@[i]),
{
    rand::rng().sample_iter(&Alphanumeric).take(num_chars).map(char::from).collect()
}

} // verus!
