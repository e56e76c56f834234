//! The randomness the core draws from outside crates: the per-session
//! identifier value, the healing shuffle, and the dictionary words of the
//! fake server name.

use vstd::prelude::*;
use rand::Rng;
use rand::seq::SliceRandom;
use crate::bridge::BridgeDescriptor;

verus! {

/// Relies on `rand::rngs::ThreadRng` through `Rng::gen`: one draw of a
/// random 128-bit value. Nothing is promised of a random result.
#[verifier::external_body]
pub fn random_u128() -> u128 {
    rand::thread_rng().gen()
}

/// Relies on `rand::seq::SliceRandom::shuffle`: a uniformly random in-place
/// permutation. Stated: the multiset of descriptors is unchanged.
#[verifier::external_body]
pub fn shuffle_bridges(v: &mut Vec<BridgeDescriptor>)
    ensures
        final(v)@.to_multiset() == old(v)@.to_multiset(),
{
    v.shuffle(&mut rand::thread_rng());
}

/// Relies on `eff_wordlist::short::random_word`: some word of the fixed
/// short wordlist; every word there is nonempty.
#[verifier::external_body]
pub fn random_short_word() -> (r: &'static str)
    ensures
        r@.len() >= 1,
{
    eff_wordlist::short::random_word()
}

/// Relies on `eff_wordlist::large::random_word`: some word of the fixed
/// large wordlist; every word there is nonempty.
#[verifier::external_body]
pub fn random_large_word() -> (r: &'static str)
    ensures
        r@.len() >= 1,
{
    eff_wordlist::large::random_word()
}

} // verus!
