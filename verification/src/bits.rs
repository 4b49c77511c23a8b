//! The bit array behind a filter: `bit_vec::BitVec`, seen by the verifier as a
//! sequence of booleans. Nothing in this file is proved; each contract states
//! what the vector's own code does.

use bit_vec::BitVec;
use vstd::prelude::*;

verus! {

/// `bit_vec::BitVec`, declared so that it can stand in fields and
/// signatures. Nothing of its inside is visible to the verifier.
#[verifier::external_type_specification]
#[verifier::external_body]
#[verifier::reject_recursive_types(B)]
pub struct ExBitVec<B>(BitVec<B>);

/// The bits that a vector holds, in index order.
pub uninterp spec fn bit_seq(v: BitVec<u32>) -> Seq<bool>;

/// `BitVec::from_elem`: a vector of `len` bits, every one equal to `bit`.
/// Running out of memory while allocating is outside this model.
#[verifier::external_body]
pub(crate) fn filled(len: usize, bit: bool) -> (v: BitVec<u32>)
    ensures
        bit_seq(v) == Seq::new(len as nat, |i: int| bit),
{
    BitVec::from_elem(len, bit)
}

/// `BitVec::get`: the bit at index `i`, or `None` when `i` is past the end.
#[verifier::external_body]
pub(crate) fn bit_at(v: &BitVec<u32>, i: usize) -> (b: Option<bool>)
    ensures
        b == if i < bit_seq(*v).len() {
            Some(bit_seq(*v)[i as int])
        } else {
            None
        },
{
    v.get(i)
}

/// `BitVec::set`: writes `x` at index `i` and leaves every other bit as it
/// was. The vector panics on an index past its end and on nothing else, so
/// with that ruled out the call always returns.
#[verifier::external_body]
pub(crate) fn put_bit(v: &mut BitVec<u32>, i: usize, x: bool)
    requires
        i < bit_seq(*old(v)).len(),
    ensures
        bit_seq(*final(v)) == bit_seq(*old(v)).update(i as int, x),
    no_unwind
{
    v.set(i, x)
}

} // verus!
