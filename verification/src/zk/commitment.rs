//! Pedersen commitments for confidential queries.
//!
//! A commitment hides a value behind a random element; opening it with the
//! value and the randomness shows that they match.

use vstd::prelude::*;
use rand::Rng;
use starknet_crypto::{pedersen_hash, FieldElement};
use crate::bytes::eq32;

verus! {

/// A Pedersen commitment (32 bytes)
pub type Commitment = [u8; 32];

/// The big-endian bytes of the Starknet Pedersen hash of two field
/// elements made from `a` and `b`.
pub uninterp spec fn spec_pedersen(a: u64, b: u64) -> Seq<u8>;

/// Calls `starknet_crypto::pedersen_hash` on the field elements of `a` and
/// `b` (`FieldElement::from` of each) and returns `to_bytes_be` of the
/// result. The contract claims only that the bytes are the Pedersen hash of
/// these two numbers, a function of them alone.
#[verifier::external_body]
fn pedersen_hash_u64(a: u64, b: u64) -> (r: [u8; 32])
    ensures
        r@ == spec_pedersen(a, b),
{
    pedersen_hash(&FieldElement::from(a), &FieldElement::from(b)).to_bytes_be()
}

/// Draws a `u64` from `rand::thread_rng()` with `Rng::gen`. Nothing is
/// claimed of the value: it is random.
#[verifier::external_body]
pub(crate) fn random_u64() -> (r: u64) {
    rand::thread_rng().gen::<u64>()
}

/// The commitment to `value` with `randomness`: the Pedersen hash of the
/// value's two's-complement bits as a `u64` and the randomness.
pub open spec fn commitment_of(value: i64, randomness: u64) -> Seq<u8> {
    spec_pedersen(value as u64, randomness)
}

/// Whatever the sign of the value, a commitment is the Pedersen hash with
/// the value's 64 bits as its first input and the randomness as its second:
/// a non-negative value enters as itself, a negative one as its two's
/// complement, never in the randomness's place.
pub proof fn lemma_commitment_is_pedersen_of_value_then_randomness(value: i64, randomness: u64)
    ensures
        commitment_of(value, randomness) == spec_pedersen(value as u64, randomness),
        value >= 0 ==> commitment_of(value, randomness) == spec_pedersen(value as nat as u64, randomness),
        value < 0 ==> commitment_of(value, randomness) == spec_pedersen((value + 18446744073709551616int) as u64, randomness),
{
    if value < 0 {
        assert((value as u64) == ((value + 18446744073709551616int) as u64)) by (bit_vector);
    }
}

/// Create a Pedersen commitment to `value` hidden by `randomness`
pub fn pedersen_commit(value: i64, randomness: u64) -> (c: Commitment)
    ensures
        c@ == commitment_of(value, randomness),
{
    let value_u64 = value as u64;
    pedersen_hash_u64(value_u64, randomness)
}

/// Whether a commitment opens to the value and randomness
pub fn open_commitment(commitment: &Commitment, value: i64, randomness: u64) -> (b: bool)
    ensures
        b == opens(commitment@, value, randomness),
{
    let computed = pedersen_commit(value, randomness);
    eq32(&computed, commitment)
}

/// Commitments to each value with the given randomness, in order.
pub fn pedersen_commit_batch_with(values: &[i64], randomness: &[u64]) -> (cs: Vec<Commitment>)
    requires
        values@.len() == randomness@.len(),
    ensures
        cs@.len() == values@.len(),
        forall|i: int| 0 <= i < values@.len() ==> (#[trigger] cs@[i])@ == commitment_of(values@[i], randomness@[i]),
{
    let mut out: Vec<Commitment> = Vec::new();
    let mut i: usize = 0;
    while i < values.len()
        invariant
            i <= values@.len(),
            values@.len() == randomness@.len(),
            out@.len() == i,
            forall|j: int| 0 <= j < i ==> (#[trigger] out@[j])@ == commitment_of(values@[j], randomness@[j]),
        decreases values@.len() - i,
    {
        out.push(pedersen_commit(values[i], randomness[i]));
        i = i + 1;
    }
    out
}

/// Each commitment of `cs` is to the value at its position with the
/// randomness at its position.
pub open spec fn commits_with(cs: Seq<Commitment>, values: Seq<i64>, rs: Seq<u64>) -> bool {
    &&& cs.len() == values.len()
    &&& rs.len() == values.len()
    &&& forall|i: int| 0 <= i < values.len() ==> (#[trigger] cs[i])@ == commitment_of(values[i], rs[i])
}

/// Batch Pedersen commitments: one commitment per value, each hidden by a
/// fresh random element.
pub fn pedersen_commit_batch(values: &[i64]) -> (cs: Vec<Commitment>)
    ensures
        cs@.len() == values@.len(),
        exists|rs: Seq<u64>| #[trigger] commits_with(cs@, values@, rs),
{
    let mut randomness: Vec<u64> = Vec::new();
    let mut i: usize = 0;
    while i < values.len()
        invariant
            i <= values@.len(),
            randomness@.len() == i,
        decreases values@.len() - i,
    {
        randomness.push(random_u64());
        i = i + 1;
    }
    let cs = pedersen_commit_batch_with(values, randomness.as_slice());
    assert(commits_with(cs@, values@, randomness@));
    cs
}

/// Verify a batch of commitments: the three lists have one length and each
/// commitment opens to its value and randomness.
pub fn open_commitment_batch(commitments: &[Commitment], values: &[i64], randomness: &[u64]) -> (b: bool)
    ensures
        b == (commitments@.len() == values@.len() && values@.len() == randomness@.len() && forall|i: int|
            0 <= i < values@.len() ==> commitment_of(values@[i], randomness@[i]) == (#[trigger] commitments@[i])@),
{
    if commitments.len() != values.len() || values.len() != randomness.len() {
        return false;
    }
    let mut i: usize = 0;
    while i < values.len()
        invariant
            i <= values@.len(),
            commitments@.len() == values@.len(),
            values@.len() == randomness@.len(),
            forall|j: int| 0 <= j < i ==> commitment_of(values@[j], randomness@[j]) == (#[trigger] commitments@[j])@,
        decreases values@.len() - i,
    {
        if !open_commitment(&commitments[i], values[i], randomness[i]) {
            return false;
        }
        i = i + 1;
    }
    true
}

/// Whether a commitment opens to a value and randomness.
pub open spec fn opens(commitment: Seq<u8>, value: i64, randomness: u64) -> bool {
    commitment_of(value, randomness) == commitment
}

/// A commitment opens to the value and randomness it was made from, and a
/// commitment is a function of them: the same pair always gives the same
/// commitment.
pub proof fn lemma_commitment_opens(value: i64, randomness: u64, other: Seq<u8>)
    requires
        other == commitment_of(value, randomness),
    ensures
        opens(commitment_of(value, randomness), value, randomness),
        opens(other, value, randomness),
{
}

} // verus!
