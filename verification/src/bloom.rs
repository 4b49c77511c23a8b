//! The filters themselves: one node per collection, and the registry that
//! holds the nodes by name.

use crate::bits::{bit_at, bit_seq, filled, put_bit};
use crate::filter::{
    capacity_for, derived_capacity, lemma_inserted_is_present, lemma_present_stays_present,
    lemma_room_means_bits, Filter,
};
use crate::hash::{
    address, addressed_within, bit_address, lemma_addressed_within_next, MAX_MEMBER_LEN,
};
use crate::registry::{
    after_create, after_delete, after_set, all_valid, create_result, delete_result, exist_result,
    lemma_exist_survives_set, lemma_set_then_exist, set_result, Registry,
};
use bit_vec::BitVec;
use vstd::prelude::*;
use vstd::utf8::encode_utf8;

verus! {

/// The ways in which an operation on a collection of filters can fail.
#[derive(Debug)]
pub enum BloomError {
    /// The named collection is not in the registry.
    DoesNotExist,
    /// The collection, or the value inside it, is already there.
    DuplicateError,
    /// The filter already holds as many values as it was sized for.
    MaxEntryReached,
    /// Reserved for failures that fit none of the above.
    Other,
}

impl BloomError {
    /// The stable numeric code under which the error is reported to callers.
    pub open spec fn code_spec(&self) -> int {
        match self {
            BloomError::DoesNotExist => 100,
            BloomError::DuplicateError => 101,
            BloomError::MaxEntryReached => 102,
            BloomError::Other => 103,
        }
    }

    /// Returns the stable numeric code of the error.
    pub fn code(&self) -> (c: i64)
        ensures
            c == self.code_spec(),
    {
        match self {
            BloomError::DoesNotExist => 100,
            BloomError::DuplicateError => 101,
            BloomError::MaxEntryReached => 102,
            BloomError::Other => 103,
        }
    }
}

/// Bits in a filter of the 16-bit profile.
pub const MAX_BITS_16: usize = 65535;

/// Hash rounds in a filter of the 16-bit profile.
pub const MAX_HASH_16: usize = 63;

/// Bits in a filter of the 32-bit profile, the default.
pub const MAX_BITS_32: usize = 4294967295;

/// Hash rounds in a filter of the 32-bit profile, the default.
pub const MAX_HASH_32: usize = 255;

/// One Bloom filter: a bit array of fixed size, the number of hash rounds,
/// and the count of members against the capacity derived from both.
pub struct BloomNode {
    /// The bit array of the filter.
    inner: BitVec,
    /// The number of bits in the array.
    m: usize,
    /// The number of members the filter is sized for.
    n: usize,
    /// The number of hash rounds applied to each member.
    k: usize,
    /// The number of members inserted so far.
    current: usize,
}

impl View for BloomNode {
    type V = Filter;

    closed spec fn view(&self) -> Filter {
        Filter {
            bits: bit_seq(self.inner),
            hashes: self.k as nat,
            capacity: self.n as nat,
            count: self.current as nat,
        }
    }
}

impl BloomNode {
    #[verifier::type_invariant]
    spec fn well_formed(self) -> bool {
        &&& self@.valid()
        &&& self.m == bit_seq(self.inner).len()
    }

    /// Creates a filter of `m` zero bits and `k` hash rounds, sized for
    /// `floor((m / k) * ln 2)` members.
    pub fn new(m: usize, k: usize) -> (node: BloomNode)
        requires
            k >= 1,
        ensures
            node@ == Filter::empty(m as nat, k as nat),
            node@.valid(),
    {
        let n: usize = capacity_for(m, k);
        BloomNode { inner: filled(m, false), m, n, k, current: 0 }
    }

    /// Reports whether `el` is present: whether every hash round addresses
    /// a bit that is set.
    pub fn has(&self, el: &[u8]) -> (present: bool)
        requires
            el@.len() <= MAX_MEMBER_LEN,
        ensures
            present == self@.contains(el@),
            self@.valid(),
    {
        proof {
            use_type_invariant(self);
        }
        if self.m == 0 {
            return false;
        }
        let mut i: usize = 0;
        while i < self.k
            invariant
                i <= self.k,
                self.m > 0,
                self.m == self@.bits.len(),
                self@.valid(),
                el@.len() <= MAX_MEMBER_LEN,
                forall|j: nat|
                    j < i ==> self@.bits[#[trigger] bit_address(el@, j, self@.bits.len())],
            decreases self.k - i,
        {
            let at: usize = address(el, i, self.m);
            match bit_at(&self.inner, at) {
                Some(true) => {},
                _ => {
                    assert(!self@.bits[bit_address(el@, i as nat, self@.bits.len())]);
                    return false;
                },
            }
            i += 1;
        }
        true
    }

    /// Inserts `el`, unless the filter is full. The capacity is checked once,
    /// before any bit is set: a full filter is left exactly as it was.
    pub fn set(&mut self, el: &[u8]) -> (r: Result<(), BloomError>)
        requires
            el@.len() <= MAX_MEMBER_LEN,
        ensures
            match r {
                Ok(()) => !old(self)@.is_full(),
                Err(e) => e is MaxEntryReached && old(self)@.is_full(),
            },
            final(self)@ == old(self)@.after_set(el@),
            final(self)@.valid(),
            r is Ok ==> final(self)@.contains(el@),
            forall|other: Seq<u8>| #[trigger]
                old(self)@.contains(other) ==> final(self)@.contains(other),
    {
        proof {
            use_type_invariant(&*self);
        }
        if self.current >= self.n {
            return Err(BloomError::MaxEntryReached);
        }
        let ghost before = self@;
        proof {
            lemma_room_means_bits(before);
            lemma_inserted_is_present(before, el@);
            assert forall|other: Seq<u8>| #[trigger] before.contains(other) implies before.insert(
                el@,
            ).contains(other) by {
                lemma_present_stays_present(before, other, el@);
            }
        }
        let mut i: usize = 0;
        while i < self.k
            invariant
                i <= self.k,
                self.m > 0,
                self.m == before.bits.len(),
                self.k == before.hashes,
                self.n == before.capacity,
                self.current == before.count,
                before.valid(),
                before.count < before.capacity,
                el@.len() <= MAX_MEMBER_LEN,
                bit_seq(self.inner).len() == before.bits.len(),
                forall|j: int|
                    0 <= j < before.bits.len() ==> #[trigger] bit_seq(self.inner)[j]
                        == (before.bits[j]
                        || addressed_within(el@, i as nat, before.bits.len(), j)),
            decreases self.k - i,
        {
            let at: usize = address(el, i, self.m);
            let ghost prior = bit_seq(self.inner);
            put_bit(&mut self.inner, at, true);
            i += 1;
            proof {
                let len = before.bits.len();
                assert forall|j: int| 0 <= j < len implies #[trigger] bit_seq(self.inner)[j]
                    == (before.bits[j] || addressed_within(el@, i as nat, len, j)) by {
                    lemma_addressed_within_next(el@, (i - 1) as nat, len, j);
                    assert(bit_seq(self.inner)[j] == (j == at || prior[j]));
                }
            }
        }
        self.current += 1;
        assert(self@ == before.insert(el@)) by {
            assert(self@.bits =~= before.insert(el@).bits);
        }
        Ok(())
    }

    /// The number of bits in the filter's array.
    pub fn bit_size(&self) -> (m: usize)
        ensures
            m == self@.bits.len(),
    {
        proof {
            use_type_invariant(self);
        }
        self.m
    }

    /// The number of hash rounds applied to each member.
    pub fn hash_count(&self) -> (k: usize)
        ensures
            k == self@.hashes,
    {
        self.k
    }

    /// The number of members the filter is sized for.
    pub fn capacity(&self) -> (n: usize)
        ensures
            n == self@.capacity,
            n == derived_capacity(self@.bits.len(), self@.hashes),
    {
        proof {
            use_type_invariant(self);
        }
        self.n
    }

    /// The number of members inserted so far, never more than the capacity.
    pub fn count(&self) -> (current: usize)
        ensures
            current == self@.count,
            current <= self@.capacity,
    {
        proof {
            use_type_invariant(self);
        }
        self.current
    }

    /// The number of bits that a filter of the default profile has.
    #[inline]
    pub fn max_bits() -> (m: usize)
        ensures
            m == MAX_BITS_32,
    {
        MAX_BITS_32
    }

    /// The number of hash rounds that a filter of the default profile applies.
    #[inline]
    pub fn max_hash() -> (k: usize)
        ensures
            k == MAX_HASH_32,
    {
        MAX_HASH_32
    }
}

/// One named filter of the registry.
struct Entry {
    name: String,
    node: BloomNode,
}

/// Whether no name occurs twice among `entries`.
spec fn names_distinct(entries: Seq<Entry>) -> bool {
    forall|i: int, j: int|
        0 <= i < j < entries.len() ==> (#[trigger] entries[i]).name@
            != (#[trigger] entries[j]).name@
}

/// Whether `name` occurs among `entries`.
spec fn named(entries: Seq<Entry>, name: Seq<char>) -> bool {
    exists|i: int| 0 <= i < entries.len() && (#[trigger] entries[i]).name@ == name
}

/// An index at which `name` occurs among `entries`, where it occurs at all.
spec fn position(entries: Seq<Entry>, name: Seq<char>) -> int {
    choose|i: int| 0 <= i < entries.len() && (#[trigger] entries[i]).name@ == name
}

/// The registry that `entries` stand for: each name with its filter.
spec fn registry(entries: Seq<Entry>) -> Registry {
    Map::new(
        |name: Seq<char>| named(entries, name),
        |name: Seq<char>| entries[position(entries, name)].node@,
    )
}

/// Where names are distinct, each entry's name leads to that entry's filter.
proof fn lemma_registry_at(entries: Seq<Entry>, i: int)
    requires
        names_distinct(entries),
        0 <= i < entries.len(),
    ensures
        registry(entries).dom().contains(entries[i].name@),
        registry(entries)[entries[i].name@] == entries[i].node@,
{
    let name = entries[i].name@;
    assert(named(entries, name));
    let p = position(entries, name);
    assert(p == i) by {
        if p < i {
            assert(entries[p].name@ != entries[i].name@);
        } else if i < p {
            assert(entries[i].name@ != entries[p].name@);
        }
    }
}

/// Appending an entry under a new name inserts it into the registry.
proof fn lemma_registry_push(entries: Seq<Entry>, e: Entry)
    requires
        names_distinct(entries),
        !named(entries, e.name@),
    ensures
        names_distinct(entries.push(e)),
        registry(entries.push(e)) == registry(entries).insert(e.name@, e.node@),
{
    let after = entries.push(e);
    assert(names_distinct(after)) by {
        assert forall|i: int, j: int| 0 <= i < j < after.len() implies (#[trigger] after[i]).name@
            != (#[trigger] after[j]).name@ by {
            if j == entries.len() {
                assert(entries[i].name@ != e.name@);
            } else {
                assert(entries[i].name@ != entries[j].name@);
            }
        }
    }
    assert forall|name: Seq<char>| #[trigger]
        registry(after).dom().contains(name) == registry(entries).insert(
            e.name@,
            e.node@,
        ).dom().contains(name) by {
        if named(entries, name) {
            let p = position(entries, name);
            assert(after[p].name@ == name);
        }
        if named(after, name) && name != e.name@ {
            let p = position(after, name);
            assert(entries[p].name@ == name);
        }
        if name == e.name@ {
            assert(after[entries.len() as int].name@ == name);
        }
    }
    assert forall|name: Seq<char>| #[trigger] registry(after).dom().contains(name) implies registry(
        after,
    )[name] == registry(entries).insert(e.name@, e.node@)[name] by {
        let p = position(after, name);
        lemma_registry_at(after, p);
        if name != e.name@ {
            assert(entries[p].name@ == name);
            lemma_registry_at(entries, p);
        }
    }
    assert(registry(after) =~= registry(entries).insert(e.name@, e.node@));
}

/// The index that the entry at `a` had before the entry at `gone` was taken
/// out.
spec fn shifted(a: int, gone: int) -> int {
    if a < gone {
        a
    } else {
        a + 1
    }
}

/// Taking an entry out removes its name from the registry.
proof fn lemma_registry_remove(entries: Seq<Entry>, i: int)
    requires
        names_distinct(entries),
        0 <= i < entries.len(),
    ensures
        names_distinct(entries.remove(i)),
        registry(entries.remove(i)) == registry(entries).remove(entries[i].name@),
{
    let after = entries.remove(i);
    let gone = entries[i].name@;
    assert forall|a: int| 0 <= a < after.len() implies #[trigger] after[a] == entries[shifted(
        a,
        i,
    )] by {}
    assert(names_distinct(after)) by {
        assert forall|a: int, b: int| 0 <= a < b < after.len() implies (#[trigger] after[a]).name@
            != (#[trigger] after[b]).name@ by {
            assert(entries[shifted(a, i)].name@ != entries[shifted(b, i)].name@);
        }
    }
    assert forall|name: Seq<char>| #[trigger]
        registry(after).dom().contains(name) == registry(entries).remove(gone).dom().contains(
            name,
        ) by {
        if named(after, name) {
            let a = position(after, name);
            let a0 = shifted(a, i);
            assert(entries[a0].name@ == name);
            if a0 < i {
                assert(entries[a0].name@ != entries[i].name@);
            } else {
                assert(entries[i].name@ != entries[a0].name@);
            }
        }
        if named(entries, name) && name != gone {
            let p = position(entries, name);
            let a = if p < i {
                p
            } else {
                p - 1
            };
            assert(shifted(a, i) == p);
            assert(after[a].name@ == name);
        }
    }
    assert forall|name: Seq<char>| #[trigger] registry(after).dom().contains(name) implies registry(
        after,
    )[name] == registry(entries).remove(gone)[name] by {
        let a = position(after, name);
        lemma_registry_at(after, a);
        lemma_registry_at(entries, shifted(a, i));
    }
    assert(registry(after) =~= registry(entries).remove(gone));
}

/// Replacing an entry by one of the same name replaces its filter in the
/// registry.
proof fn lemma_registry_update(entries: Seq<Entry>, i: int, e: Entry)
    requires
        names_distinct(entries),
        0 <= i < entries.len(),
        e.name@ == entries[i].name@,
    ensures
        names_distinct(entries.update(i, e)),
        registry(entries.update(i, e)) == registry(entries).insert(e.name@, e.node@),
{
    let after = entries.update(i, e);
    assert(names_distinct(after)) by {
        assert forall|a: int, b: int| 0 <= a < b < after.len() implies (#[trigger] after[a]).name@
            != (#[trigger] after[b]).name@ by {
            assert(entries[a].name@ != entries[b].name@);
        }
    }
    assert forall|name: Seq<char>| #[trigger]
        registry(after).dom().contains(name) == registry(entries).insert(
            e.name@,
            e.node@,
        ).dom().contains(name) by {
        if named(entries, name) {
            let p = position(entries, name);
            assert(after[p].name@ == name);
        }
        if named(after, name) {
            let p = position(after, name);
            assert(entries[p].name@ == name);
        }
        if name == e.name@ {
            assert(after[i].name@ == name);
        }
    }
    assert forall|name: Seq<char>| #[trigger] registry(after).dom().contains(name) implies registry(
        after,
    )[name] == registry(entries).insert(e.name@, e.node@)[name] by {
        let p = position(after, name);
        lemma_registry_at(after, p);
        if name != e.name@ {
            assert(entries[p].name@ == name);
            lemma_registry_at(entries, p);
        }
    }
    assert(registry(after) =~= registry(entries).insert(e.name@, e.node@));
}

/// Whether every filter among `entries` is valid.
spec fn nodes_valid(entries: Seq<Entry>) -> bool {
    forall|i: int| 0 <= i < entries.len() ==> (#[trigger] entries[i]).node@.valid()
}

/// Valid entries make a valid registry.
proof fn lemma_registry_valid(entries: Seq<Entry>)
    requires
        names_distinct(entries),
        nodes_valid(entries),
    ensures
        all_valid(registry(entries)),
{
    assert forall|name: Seq<char>| #[trigger]
        registry(entries).dom().contains(name) implies registry(entries)[name].valid() by {
        lemma_registry_at(entries, position(entries, name));
    }
}

/// The registry: one filter per collection, found by the collection's name.
/// No name occurs twice.
pub struct BloomCollection {
    entries: Vec<Entry>,
}

impl View for BloomCollection {
    type V = Registry;

    closed spec fn view(&self) -> Registry {
        registry(self.entries@)
    }
}

impl BloomCollection {
    #[verifier::type_invariant]
    spec fn well_formed(self) -> bool {
        &&& names_distinct(self.entries@)
        &&& nodes_valid(self.entries@)
    }

    /// Creates a registry without collections.
    pub fn new() -> (c: BloomCollection)
        ensures
            c@ == Registry::empty(),
    {
        let c = BloomCollection { entries: Vec::new() };
        assert(c@ =~= Registry::empty());
        c
    }

    /// Adds the collection `collection` with an empty filter of `m` bits and
    /// `k` hash rounds. A name that is taken is refused, not overwritten.
    pub fn create(&mut self, collection: String, m: usize, k: usize) -> (r: Result<(), BloomError>)
        requires
            k >= 1,
        ensures
            r == create_result(old(self)@, collection@),
            final(self)@ == after_create(old(self)@, collection@, m as nat, k as nat),
            all_valid(final(self)@),
    {
        proof {
            use_type_invariant(&*self);
            lemma_registry_valid(self.entries@);
        }
        match self.find(&collection) {
            Some(i) => {
                proof {
                    lemma_registry_at(self.entries@, i as int);
                }
                Err(BloomError::DuplicateError)
            },
            None => {
                let entry = Entry { name: collection, node: BloomNode::new(m, k) };
                let mut list: Vec<Entry> = Vec::new();
                core::mem::swap(&mut self.entries, &mut list);
                proof {
                    lemma_registry_push(list@, entry);
                }
                list.push(entry);
                proof {
                    lemma_registry_valid(list@);
                }
                self.entries = list;
                Ok(())
            },
        }
    }

    /// Reports whether the filter of `collection` holds `val`.
    pub fn exist(&self, collection: String, val: String) -> (r: Result<bool, BloomError>)
        requires
            encode_utf8(val@).len() <= MAX_MEMBER_LEN,
        ensures
            r == exist_result(self@, collection@, encode_utf8(val@)),
            all_valid(self@),
    {
        proof {
            use_type_invariant(self);
            lemma_registry_valid(self.entries@);
        }
        match self.find(&collection) {
            Some(i) => {
                proof {
                    lemma_registry_at(self.entries@, i as int);
                }
                Ok(self.entries[i].node.has(val.as_str().as_bytes()))
            },
            None => Err(BloomError::DoesNotExist),
        }
    }

    /// Inserts `val` into the filter of `collection`. Nothing changes unless
    /// the call succeeds: a value that the filter already reports is a
    /// duplicate and is not counted, and a full filter takes no more.
    pub fn set(&mut self, collection: String, val: String) -> (r: Result<(), BloomError>)
        requires
            encode_utf8(val@).len() <= MAX_MEMBER_LEN,
        ensures
            r == set_result(old(self)@, collection@, encode_utf8(val@)),
            final(self)@ == after_set(old(self)@, collection@, encode_utf8(val@)),
            all_valid(final(self)@),
            r is Ok ==> exist_result(final(self)@, collection@, encode_utf8(val@)) == Ok::<
                bool,
                BloomError,
            >(true),
            forall|name: Seq<char>, bytes: Seq<u8>|
                exist_result(old(self)@, name, bytes) == Ok::<bool, BloomError>(true)
                    ==> #[trigger] exist_result(final(self)@, name, bytes) == Ok::<
                    bool,
                    BloomError,
                >(true),
    {
        proof {
            use_type_invariant(&*self);
            lemma_registry_valid(self.entries@);
            let bytes = encode_utf8(val@);
            if set_result(self@, collection@, bytes) is Ok {
                lemma_set_then_exist(self@, collection@, bytes);
            }
            assert forall|name: Seq<char>, other: Seq<u8>|
                exist_result(self@, name, other) == Ok::<bool, BloomError>(
                    true,
                ) implies #[trigger] exist_result(
                after_set(self@, collection@, bytes),
                name,
                other,
            ) == Ok::<bool, BloomError>(true) by {
                lemma_exist_survives_set(self@, name, other, collection@, bytes);
            }
        }
        match self.find(&collection) {
            Some(i) => {
                proof {
                    lemma_registry_at(self.entries@, i as int);
                }
                if self.entries[i].node.has(val.as_str().as_bytes()) {
                    Err(BloomError::DuplicateError)
                } else {
                    let mut list: Vec<Entry> = Vec::new();
                    core::mem::swap(&mut self.entries, &mut list);
                    let ghost before = list@;
                    let inserted = list[i].node.set(val.as_str().as_bytes());
                    proof {
                        assert(list@[i as int].name@ == before[i as int].name@);
                        assert(list@ =~= before.update(i as int, list@[i as int]));
                        lemma_registry_update(before, i as int, list@[i as int]);
                        lemma_registry_valid(list@);
                    }
                    self.entries = list;
                    match inserted {
                        Ok(()) => Ok(()),
                        Err(_) => Err(BloomError::MaxEntryReached),
                    }
                }
            },
            None => Err(BloomError::DoesNotExist),
        }
    }

    /// Removes the collection `collection`; its filter is discarded.
    pub fn delete(&mut self, collection: String) -> (r: Result<(), BloomError>)
        ensures
            r == delete_result(old(self)@, collection@),
            final(self)@ == after_delete(old(self)@, collection@),
            all_valid(final(self)@),
            !final(self)@.dom().contains(collection@),
    {
        proof {
            use_type_invariant(&*self);
            lemma_registry_valid(self.entries@);
        }
        match self.find(&collection) {
            Some(i) => {
                let mut list: Vec<Entry> = Vec::new();
                core::mem::swap(&mut self.entries, &mut list);
                proof {
                    lemma_registry_at(list@, i as int);
                    lemma_registry_remove(list@, i as int);
                }
                let _ = list.remove(i);
                proof {
                    lemma_registry_valid(list@);
                }
                self.entries = list;
                Ok(())
            },
            None => {
                assert(self@ =~= self@.remove(collection@));
                Err(BloomError::DoesNotExist)
            },
        }
    }

    /// Reports whether the collection `collection` exists. Never fails and
    /// changes nothing.
    pub fn has_collection(&mut self, collection: String) -> (r: Result<bool, BloomError>)
        ensures
            r == Ok::<bool, BloomError>(old(self)@.dom().contains(collection@)),
            final(self)@ == old(self)@,
            all_valid(final(self)@),
    {
        proof {
            use_type_invariant(&*self);
            lemma_registry_valid(self.entries@);
        }
        match self.find(&collection) {
            Some(i) => {
                proof {
                    lemma_registry_at(self.entries@, i as int);
                }
                Ok(true)
            },
            None => Ok(false),
        }
    }

    /// The index of the entry named `name`, if there is one.
    fn find(&self, name: &String) -> (at: Option<usize>)
        ensures
            match at {
                Some(i) => i < self.entries@.len() && self.entries@[i as int].name@ == name@,
                None => !named(self.entries@, name@),
            },
    {
        let mut i: usize = 0;
        while i < self.entries.len()
            invariant
                i <= self.entries@.len(),
                forall|j: int| 0 <= j < i ==> (#[trigger] self.entries@[j]).name@ != name@,
            decreases self.entries@.len() - i,
        {
            if self.entries[i].name == *name {
                return Some(i);
            }
            i += 1;
        }
        None
    }
}

} // verus!
