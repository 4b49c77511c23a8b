//! The hash that turns a member into bit addresses.

use fasthash::murmur3::Hash128_x64;
use fasthash::FastHash;
use vstd::prelude::*;

verus! {

/// MurmurHash3 in its 64-bit, 128-bit-output form, of `bytes` under `seed`.
pub uninterp spec fn murmur3_x64_128(bytes: Seq<u8>, seed: u32) -> u128;

/// The longest input the hash accepts: it takes the length as a signed
/// 32-bit integer.
pub const MAX_MEMBER_LEN: usize = 0x7fff_ffff;

/// `hash_with_seed` of `fasthash::murmur3::Hash128_x64`: the hash is a
/// function of the bytes and the seed alone. This is the variant that
/// `fasthash::murmur3::hash128_with_seed` picks on 64-bit targets; it is
/// called by its own name so that the addresses do not depend on the
/// target's pointer width.
/// The hash reads the length as a signed 32-bit integer and goes astray on a
/// longer input, so inputs longer than `MAX_MEMBER_LEN` are ruled out.
#[verifier::external_body]
pub(crate) fn hash128(bytes: &[u8], seed: u32) -> (h: u128)
    requires
        bytes@.len() <= MAX_MEMBER_LEN,
    ensures
        h == murmur3_x64_128(bytes@, seed),
{
    Hash128_x64::hash_with_seed(bytes, seed)
}

/// The seed of the `i`-th hash round: the round's index, kept to 32 bits.
pub open spec fn seed_of(i: nat) -> u32 {
    (i % 0x1_0000_0000) as u32
}

/// Rounds get distinct seeds as long as there are no more of them than a
/// seed has values.
pub proof fn lemma_seeds_distinct(i: nat, j: nat)
    requires
        i < j < 0x1_0000_0000,
    ensures
        seed_of(i) != seed_of(j),
{
}

/// The address that round `i` gives to `bytes` in an array of `len` bits: the
/// hash reduced modulo `len`.
pub open spec fn bit_address(bytes: Seq<u8>, i: nat, len: nat) -> int
    recommends
        len > 0,
{
    murmur3_x64_128(bytes, seed_of(i)) as int % len as int
}

/// Every address lies inside the array.
pub proof fn lemma_address_in_range(bytes: Seq<u8>, i: nat, len: nat)
    requires
        len > 0,
    ensures
        0 <= bit_address(bytes, i, len) < len,
{
}

/// Whether one of the first `rounds` hash rounds gives address `j` to `bytes`
/// in an array of `len` bits.
pub open spec fn addressed_within(bytes: Seq<u8>, rounds: nat, len: nat, j: int) -> bool {
    exists|i: nat| i < rounds && #[trigger] bit_address(bytes, i, len) == j
}

/// One more round adds exactly that round's address.
pub proof fn lemma_addressed_within_next(bytes: Seq<u8>, rounds: nat, len: nat, j: int)
    ensures
        addressed_within(bytes, rounds + 1, len, j) == (addressed_within(bytes, rounds, len, j)
            || bit_address(bytes, rounds, len) == j),
{
    if addressed_within(bytes, rounds, len, j) {
        let i = choose|i: nat| i < rounds && #[trigger] bit_address(bytes, i, len) == j;
        assert(i < rounds + 1 && bit_address(bytes, i, len) == j);
    }
    if addressed_within(bytes, rounds + 1, len, j) {
        let i = choose|i: nat| i < rounds + 1 && #[trigger] bit_address(bytes, i, len) == j;
        if i != rounds {
            assert(i < rounds && bit_address(bytes, i, len) == j);
        }
    }
}

/// Computes the address that round `i` gives to `bytes` in `len` bits.
pub fn address(bytes: &[u8], i: usize, len: usize) -> (a: usize)
    requires
        bytes@.len() <= MAX_MEMBER_LEN,
        len > 0,
    ensures
        a == bit_address(bytes@, i as nat, len as nat),
        a < len,
{
    let seed: u32 = (i as u64 % 0x1_0000_0000u64) as u32;
    let h: u128 = hash128(bytes, seed);
    (h % (len as u128)) as usize
}

} // verus!
