//! Proof of work: a token whose repeated SHA-1 hash, keyed on a client's
//! identifier, starts with enough zero bits.

use crate::bytes::{le_bytes, put_le};
use vstd::prelude::*;

verus! {

/// How often the hash is applied in all.
pub const LOOPS: usize = 16;

/// The SHA-1 digest of `data`.
pub uninterp spec fn sha1_digest(data: Seq<u8>) -> Seq<u8>;

/// Hashes with `crypto_hash::digest` under `Algorithm::SHA1`. The digest
/// depends on the bytes alone, so the contract names it `sha1_digest(data)`
/// and says nothing more about it.
#[verifier::external_body]
fn sha1(data: &[u8]) -> (digest: Vec<u8>)
    ensures
        digest@ == sha1_digest(data@),
{
    crypto_hash::digest(crypto_hash::Algorithm::SHA1, data)
}

/// `data` after `rounds` applications of SHA-1.
pub open spec fn rehashed(data: Seq<u8>, rounds: nat) -> Seq<u8>
    decreases rounds,
{
    if rounds == 0 {
        data
    } else {
        sha1_digest(rehashed(data, (rounds - 1) as nat))
    }
}

/// The hash that decides whether `start` is a proof of work for `nonce`:
/// sixteen rounds of SHA-1 over the sixteen little-endian bytes of each.
pub open spec fn hashed(nonce: u128, start: u128) -> Seq<u8> {
    rehashed(le_bytes(nonce as nat, 16) + le_bytes(start as nat, 16), LOOPS as nat)
}

/// The number of zero bits above the highest set bit of a byte.
pub open spec fn byte_zeros(byte: u8) -> nat {
    if byte >= 128 {
        0
    } else if byte >= 64 {
        1
    } else if byte >= 32 {
        2
    } else if byte >= 16 {
        3
    } else if byte >= 8 {
        4
    } else if byte >= 4 {
        5
    } else if byte >= 2 {
        6
    } else if byte >= 1 {
        7
    } else {
        8
    }
}

/// The number of zero bits before the first set bit of `bytes`.
pub open spec fn leading_zero_bits(bytes: Seq<u8>) -> nat
    decreases bytes.len(),
{
    if bytes.len() == 0 {
        0
    } else if bytes[0] == 0 {
        8 + leading_zero_bits(bytes.drop_first())
    } else {
        byte_zeros(bytes[0])
    }
}

/// Whether `start` is a proof of work of the given strength for `nonce`.
pub open spec fn valid_workproof(nonce: u128, start: u128, strength: u32) -> bool {
    leading_zero_bits(hashed(nonce, start)) >= strength
}

/// Whether no token below `bound` is a proof of work.
pub open spec fn none_below(nonce: u128, strength: u32, bound: u128) -> bool {
    forall|start: u128| start < bound ==> !valid_workproof(nonce, start, strength)
}

/// The token that a search below `limit` finds: the smallest proof of
/// work, if there is one.
pub open spec fn first_workproof(nonce: u128, strength: u32, limit: u128) -> Option<u128> {
    if exists|start: u128| start < limit && valid_workproof(nonce, start, strength) {
        Some(
            choose|start: u128|
                start < limit && valid_workproof(nonce, start, strength) && none_below(
                    nonce,
                    strength,
                    start,
                ),
        )
    } else {
        None
    }
}

fn byte_leading_zeros(byte: u8) -> (zeros: u32)
    ensures
        zeros == byte_zeros(byte),
{
    if byte >= 128 {
        0
    } else if byte >= 64 {
        1
    } else if byte >= 32 {
        2
    } else if byte >= 16 {
        3
    } else if byte >= 8 {
        4
    } else if byte >= 4 {
        5
    } else if byte >= 2 {
        6
    } else if byte >= 1 {
        7
    } else {
        8
    }
}

fn hashing(nonce: u128, start: u128) -> (digest: Vec<u8>)
    ensures
        digest@ == hashed(nonce, start),
{
    let mut input: Vec<u8> = Vec::new();
    put_le(&mut input, nonce, 16);
    put_le(&mut input, start, 16);
    assert(input@ =~= le_bytes(nonce as nat, 16) + le_bytes(start as nat, 16));
    let mut cur = sha1(input.as_slice());
    let mut round: usize = 1;
    assert(rehashed(input@, 1) == sha1_digest(rehashed(input@, 0)));
    while round < LOOPS
        invariant
            1 <= round <= LOOPS,
            cur@ == rehashed(input@, round as nat),
        decreases LOOPS - round,
    {
        cur = sha1(cur.as_slice());
        round = round + 1;
    }
    cur
}

/// Counts the zero bits before the first set bit of `bytes`; a count that
/// a `u32` cannot hold comes back as `u32::MAX`.
pub fn get_leading(bytes: &[u8]) -> (zeros: u32)
    ensures
        zeros as nat == if leading_zero_bits(bytes@) <= u32::MAX {
            leading_zero_bits(bytes@)
        } else {
            u32::MAX as nat
        },
{
    let mut zeros: u32 = 0;
    let mut i: usize = 0;
    let len = bytes.len();
    let mut capped = false;
    assert(bytes@.skip(0) =~= bytes@);
    while i < len
        invariant
            i <= len == bytes@.len(),
            !capped ==> zeros as nat + leading_zero_bits(bytes@.skip(i as int))
                == leading_zero_bits(bytes@),
            !capped ==> forall|j: int| 0 <= j < i ==> bytes@[j] == 0,
            capped ==> zeros == u32::MAX && leading_zero_bits(bytes@) > u32::MAX,
        decreases len - i,
    {
        let byte = bytes[i];
        proof {
            assert(bytes@.skip(i as int)[0] == byte);
            assert(bytes@.skip(i as int).drop_first() =~= bytes@.skip(i + 1));
        }
        if !capped {
            let add = byte_leading_zeros(byte);
            if zeros > u32::MAX - add {
                capped = true;
                zeros = u32::MAX;
            } else {
                zeros = zeros + add;
            }
        }
        if byte != 0 {
            proof {
                assert(leading_zero_bits(bytes@.skip(i as int)) == byte_zeros(byte));
            }
            return zeros;
        }
        i = i + 1;
    }
    assert(bytes@.skip(len as int) =~= Seq::empty());
    zeros
}

/// Decides whether `start` is a proof of work of the given strength for
/// `nonce`.
pub fn verify_workproof(nonce: u128, start: u128, strength: u32) -> (ok: bool)
    ensures
        ok == valid_workproof(nonce, start, strength),
{
    let digest = hashing(nonce, start);
    get_leading(digest.as_slice()) >= strength
}

/// Searches the tokens below `limit` in rising order for a proof of work.
pub fn gen_workproof(nonce: u128, strength: u32, limit: u128) -> (found: Option<u128>)
    ensures
        found == first_workproof(nonce, strength, limit),
        match found {
            Some(start) => start < limit && valid_workproof(nonce, start, strength) && none_below(
                nonce,
                strength,
                start,
            ),
            None => none_below(nonce, strength, limit),
        },
{
    let mut start: u128 = 0;
    while start < limit
        invariant
            start <= limit,
            none_below(nonce, strength, start),
        decreases limit - start,
    {
        if verify_workproof(nonce, start, strength) {
            proof {
                lemma_first_workproof(nonce, strength, limit, start);
            }
            return Some(start);
        }
        start = start + 1;
    }
    None
}

/// The smallest proof of work below `limit` is what the search finds.
pub proof fn lemma_first_workproof(nonce: u128, strength: u32, limit: u128, start: u128)
    requires
        start < limit,
        valid_workproof(nonce, start, strength),
        none_below(nonce, strength, start),
    ensures
        first_workproof(nonce, strength, limit) == Some(start),
{
    let other = first_workproof(nonce, strength, limit)->0;
    assert(other < limit && valid_workproof(nonce, other, strength) && none_below(
        nonce,
        strength,
        other,
    ));
    assert(other == start);
}

/// A token that the search finds passes verification, for every nonce,
/// strength and limit.
pub proof fn lemma_generated_workproof_verifies(nonce: u128, strength: u32, limit: u128)
    ensures
        first_workproof(nonce, strength, limit) matches Some(start) ==> start < limit
            && valid_workproof(nonce, start, strength),
{
    if exists|start: u128| start < limit && valid_workproof(nonce, start, strength) {
        lemma_least_workproof(nonce, strength, limit);
    }
}

/// Where a proof of work exists below `limit`, a smallest one does.
pub proof fn lemma_least_workproof(nonce: u128, strength: u32, limit: u128)
    requires
        exists|start: u128| start < limit && valid_workproof(nonce, start, strength),
    ensures
        exists|start: u128|
            start < limit && valid_workproof(nonce, start, strength) && none_below(
                nonce,
                strength,
                start,
            ),
    decreases limit,
{
    let witness = choose|start: u128| start < limit && valid_workproof(nonce, start, strength);
    if none_below(nonce, strength, witness) {
    } else {
        lemma_least_workproof(nonce, strength, witness);
        let least = choose|start: u128|
            start < witness && valid_workproof(nonce, start, strength) && none_below(
                nonce,
                strength,
                start,
            );
        assert(least < limit && valid_workproof(nonce, least, strength) && none_below(
            nonce,
            strength,
            least,
        ));
    }
}

} // verus!
