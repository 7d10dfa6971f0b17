//! Random, collision-resistant names for the scratch folders that carry
//! frames to and from the external encoder and decoder.

use vstd::prelude::*;
use rand::Rng;

verus! {

/// An ASCII letter or decimal digit.
pub open spec fn is_alphanumeric_char(c: char) -> bool {
    ('A' <= c && c <= 'Z') || ('a' <= c && c <= 'z') || ('0' <= c && c <= '9')
}

/// Relies on rand's thread-local generator sampling the `Alphanumeric`
/// distribution: every sample is one ASCII letter or digit, and taking
/// `length` samples yields exactly `length` of them. Nothing more can be
/// promised of a random value.
#[verifier::external_body]
pub fn rng_string(length: u8) -> (r: String)
    ensures
        r@.len() == length as nat,
        forall|i: int| 0 <= i < r@.len() ==> is_alphanumeric_char(#[trigger] r@[i]),
{
    let random_string: String = rand::thread_rng()
        .sample_iter(&rand::distributions::Alphanumeric)
        .take(length as usize)
        .map(char::from)
        .collect();
    random_string
}

/// The name of a fresh scratch folder: an underscore, 32 random
/// alphanumeric characters, and the ending `-tmp`. The random middle makes
/// the name collision-resistant within a run.
pub fn scratch_folder_name() -> (r: String)
    ensures
        r@.len() == 37,
        r@[0] == '_',
        forall|i: int| 1 <= i < 33 ==> is_alphanumeric_char(#[trigger] r@[i]),
        r@.subrange(33, 37) == "-tmp"@,
{
    let id = rng_string(32);
    let mut s = String::from_str("_");
    s.append(id.as_str());
    s.append("-tmp");
    proof {
        reveal_strlit("_");
        reveal_strlit("-tmp");
        assert(s@.subrange(33, 37) =~= "-tmp"@);
    }
    s
}

} // verus!
