//! A Bloom filter as a mathematical value, and what holds of it.

use crate::hash::{addressed_within, bit_address, lemma_address_in_range};
use vstd::prelude::*;

verus! {

/// The natural logarithm of two as a binary fraction of 128 places, rounded
/// down: `ln 2` lies between `LN2_Q128 / 2^128` and `(LN2_Q128 + 1) / 2^128`.
/// At this precision the whole part of `q * ln 2` is that of
/// `q * LN2_Q128 / 2^128` for every `q` below `2^64`.
pub const LN2_Q128: u128 = 0xB17217F7D1CF79ABC9E3B39803F2F6AF;

/// The upper 64 places of `LN2_Q128`.
pub const LN2_HIGH: u128 = 0xB17217F7D1CF79AB;

/// The lower 64 places of `LN2_Q128`.
pub const LN2_LOW: u128 = 0xC9E3B39803F2F6AF;

/// Two to the power of 64.
pub const Q64: u128 = 0x1_0000_0000_0000_0000;

/// Two to the power of 128, the denominator of `LN2_Q128`.
pub open spec fn q128() -> nat {
    0x1_0000_0000_0000_0000_0000_0000_0000_0000nat
}

/// How many members a filter of `m` bits and `k` hash rounds is sized for:
/// `floor((m / k) * ln 2)`, with the quotient `m / k` taken in whole numbers
/// and `ln 2` taken as `LN2_Q128 / 2^128`.
pub open spec fn derived_capacity(m: nat, k: nat) -> nat
    recommends
        k >= 1,
{
    ((m / k) * LN2_Q128 as nat) / q128()
}

/// A Bloom filter as a mathematical value.
#[verifier::ext_equal]
pub struct Filter {
    /// The bit array.
    pub bits: Seq<bool>,
    /// The number of hash rounds applied to each member.
    pub hashes: nat,
    /// The number of members the filter is sized for.
    pub capacity: nat,
    /// The number of members inserted so far.
    pub count: nat,
}

impl Filter {
    /// The filter of `m` zero bits and `k` hash rounds, with nothing inserted.
    pub open spec fn empty(m: nat, k: nat) -> Filter {
        Filter {
            bits: Seq::new(m, |i: int| false),
            hashes: k,
            capacity: derived_capacity(m, k),
            count: 0,
        }
    }

    /// What holds of every filter that the library builds: it applies at
    /// least one hash round, its capacity is the one derived from its size,
    /// and it holds no more members than that.
    pub open spec fn valid(self) -> bool {
        &&& self.hashes >= 1
        &&& self.capacity == derived_capacity(self.bits.len(), self.hashes)
        &&& self.count <= self.capacity
    }

    /// Whether some hash round gives address `j` to `bytes`.
    pub open spec fn addressed(self, bytes: Seq<u8>, j: int) -> bool {
        addressed_within(bytes, self.hashes, self.bits.len(), j)
    }

    /// Whether the filter reports `bytes` as present: every hash round
    /// addresses a bit that is set. A filter without bits reports nothing.
    pub open spec fn contains(self, bytes: Seq<u8>) -> bool {
        &&& self.bits.len() > 0
        &&& forall|i: nat|
            i < self.hashes ==> self.bits[#[trigger] bit_address(bytes, i, self.bits.len())]
    }

    /// Whether the filter holds as many members as it is sized for.
    pub open spec fn is_full(self) -> bool {
        self.count >= self.capacity
    }

    /// The filter with `bytes` inserted: the addressed bits are set, the
    /// others are as they were, and one more member is counted.
    pub open spec fn insert(self, bytes: Seq<u8>) -> Filter {
        Filter {
            bits: Seq::new(self.bits.len(), |j: int| self.bits[j] || self.addressed(bytes, j)),
            hashes: self.hashes,
            capacity: self.capacity,
            count: self.count + 1,
        }
    }

    /// The filter after an attempt to insert `bytes`: a full filter is left
    /// as it is.
    pub open spec fn after_set(self, bytes: Seq<u8>) -> Filter {
        if self.is_full() {
            self
        } else {
            self.insert(bytes)
        }
    }

    /// The filter after one attempt to insert each of `values`, in order.
    pub open spec fn after_sets(self, values: Seq<Seq<u8>>) -> Filter
        decreases values.len(),
    {
        if values.len() == 0 {
            self
        } else {
            self.after_sets(values.drop_last()).after_set(values.last())
        }
    }
}

/// The derived capacity `n` is the whole part of `(m / k) * ln 2`: the
/// largest `n` with `n * 2^128 <= (m / k) * LN2_Q128`.
pub proof fn lemma_capacity_is_floor(m: nat, k: nat)
    requires
        k >= 1,
    ensures
        derived_capacity(m, k) * q128() <= (m / k) * LN2_Q128,
        (m / k) * LN2_Q128 < (derived_capacity(m, k) + 1) * q128(),
{
    let x: int = ((m / k) * LN2_Q128) as int;
    let d: int = q128() as int;
    assert((x / d) * d <= x < (x / d + 1) * d) by (nonlinear_arith)
        requires
            d > 0,
    ;
}

/// The capacity never exceeds the quotient `m / k`, and so never `m`.
pub proof fn lemma_capacity_bound(m: nat, k: nat)
    requires
        k >= 1,
    ensures
        derived_capacity(m, k) <= m / k,
        derived_capacity(m, k) <= m,
{
    let q = m / k;
    assert(q <= m) by (nonlinear_arith)
        requires
            k >= 1,
            q == m / k,
    ;
    let l: int = LN2_Q128 as int;
    let d: int = q128() as int;
    assert((q * l) / d <= q) by (nonlinear_arith)
        requires
            0 <= l < d,
            0 <= q,
    ;
}

/// The product with `ln 2` can be formed in two halves of 64 places: the
/// low half contributes its carry, and the sum is divided once more.
pub proof fn lemma_capacity_in_halves(q: nat)
    ensures
        (q * LN2_HIGH + (q * LN2_LOW) / (Q64 as int)) / (Q64 as int) == (q * LN2_Q128 as nat)
            / q128(),
{
    let d: int = Q64 as int;
    let x: int = (q * LN2_Q128) as int;
    let low: int = (q * LN2_LOW) as int;
    let carry: int = low / d;
    let rest: int = low % d;
    let sum: int = q * LN2_HIGH + carry;
    assert(low == carry * d + rest && 0 <= rest < d) by {
        vstd::arithmetic::div_mod::lemma_fundamental_div_mod(low, d);
    }
    assert(x == sum * d + rest) by (nonlinear_arith)
        requires
            x == q * 0xB17217F7D1CF79ABC9E3B39803F2F6AF,
            sum == q * 0xB17217F7D1CF79AB + carry,
            q * 0xC9E3B39803F2F6AF == carry * d + rest,
            d == 0x1_0000_0000_0000_0000,
    ;
    vstd::arithmetic::div_mod::lemma_fundamental_div_mod_converse_div(x, d, sum, rest);
    vstd::arithmetic::div_mod::lemma_div_denominator(x, d, d);
}

/// Computes the capacity of a filter of `m` bits and `k` hash rounds.
pub fn capacity_for(m: usize, k: usize) -> (n: usize)
    requires
        k >= 1,
    ensures
        n == derived_capacity(m as nat, k as nat),
{
    let q: u128 = (m / k) as u128;
    let carry: u128 = (q * LN2_LOW) / Q64;
    let sum: u128 = q * LN2_HIGH + carry;
    proof {
        lemma_capacity_in_halves(q as nat);
        lemma_capacity_bound(m as nat, k as nat);
    }
    (sum / Q64) as usize
}

/// A filter of no bits is sized for no members, so a valid filter that is
/// not full has bits.
pub proof fn lemma_room_means_bits(f: Filter)
    requires
        f.valid(),
        !f.is_full(),
    ensures
        f.bits.len() > 0,
{
    if f.bits.len() == 0 {
        assert(0nat / f.hashes == 0) by (nonlinear_arith)
            requires
                f.hashes >= 1,
        ;
    }
}

/// An attempt to insert leaves a valid filter valid.
pub proof fn lemma_after_set_valid(f: Filter, bytes: Seq<u8>)
    requires
        f.valid(),
    ensures
        f.after_set(bytes).valid(),
{
}

/// Attempts to insert leave a valid filter valid.
pub proof fn lemma_after_sets_valid(f: Filter, values: Seq<Seq<u8>>)
    requires
        f.valid(),
    ensures
        f.after_sets(values).valid(),
    decreases values.len(),
{
    if values.len() > 0 {
        lemma_after_sets_valid(f, values.drop_last());
        lemma_after_set_valid(f.after_sets(values.drop_last()), values.last());
    }
}

/// No false negatives, first half: a member is reported present as soon as
/// it was inserted.
pub proof fn lemma_inserted_is_present(f: Filter, bytes: Seq<u8>)
    requires
        f.valid(),
        !f.is_full(),
    ensures
        f.after_set(bytes) == f.insert(bytes),
        f.insert(bytes).contains(bytes),
{
    lemma_room_means_bits(f);
    let g = f.insert(bytes);
    assert forall|i: nat| i < g.hashes implies g.bits[#[trigger] bit_address(
        bytes,
        i,
        g.bits.len(),
    )] by {
        let j = bit_address(bytes, i, f.bits.len());
        lemma_address_in_range(bytes, i, f.bits.len());
        assert(f.addressed(bytes, j));
    }
}

/// Bits are only ever set: what a filter reports present, it still reports
/// after any attempt to insert.
pub proof fn lemma_present_stays_present(f: Filter, bytes: Seq<u8>, other: Seq<u8>)
    requires
        f.contains(bytes),
    ensures
        f.after_set(other).contains(bytes),
{
    if !f.is_full() {
        let g = f.insert(other);
        assert forall|i: nat| i < g.hashes implies g.bits[#[trigger] bit_address(
            bytes,
            i,
            g.bits.len(),
        )] by {
            let j = bit_address(bytes, i, f.bits.len());
            lemma_address_in_range(bytes, i, f.bits.len());
            assert(f.bits[j]);
        }
    }
}

/// No false negatives, second half: what a filter reports present, it still
/// reports after any number of later attempts to insert.
pub proof fn lemma_present_after_sets(f: Filter, bytes: Seq<u8>, later: Seq<Seq<u8>>)
    requires
        f.contains(bytes),
    ensures
        f.after_sets(later).contains(bytes),
    decreases later.len(),
{
    if later.len() > 0 {
        lemma_present_after_sets(f, bytes, later.drop_last());
        lemma_present_stays_present(f.after_sets(later.drop_last()), bytes, later.last());
    }
}

/// No false negatives: a member that was inserted is reported present at
/// once, and after any number of later attempts to insert other values.
pub proof fn lemma_no_false_negatives(f: Filter, bytes: Seq<u8>, later: Seq<Seq<u8>>)
    requires
        f.valid(),
        !f.is_full(),
    ensures
        f.after_set(bytes).contains(bytes),
        f.after_set(bytes).after_sets(later).contains(bytes),
{
    lemma_inserted_is_present(f, bytes);
    lemma_present_after_sets(f.insert(bytes), bytes, later);
}

/// A full filter takes nothing: the attempt changes neither the count nor
/// any bit.
pub proof fn lemma_full_filter_unchanged(f: Filter, bytes: Seq<u8>)
    requires
        f.is_full(),
    ensures
        f.after_set(bytes) == f,
{
}

/// While there is room every attempt is counted: as many attempts as fit
/// into the capacity that is left raise the count by their number.
pub proof fn lemma_sets_within_capacity_are_counted(f: Filter, values: Seq<Seq<u8>>)
    requires
        f.count + values.len() <= f.capacity,
    ensures
        f.after_sets(values).count == f.count + values.len(),
        f.after_sets(values).capacity == f.capacity,
    decreases values.len(),
{
    if values.len() > 0 {
        lemma_sets_within_capacity_are_counted(f, values.drop_last());
    }
}

} // verus!
