//! The registry of named filters as a mathematical value: what each
//! operation answers, what it leaves behind, and what follows.

use crate::bloom::BloomError;
use crate::filter::Filter;
use vstd::prelude::*;

verus! {

/// A registry: each collection's name with its filter.
pub type Registry = Map<Seq<char>, Filter>;

/// Whether every filter of the registry is valid.
pub open spec fn all_valid(registry: Registry) -> bool {
    forall|name: Seq<char>| #[trigger]
        registry.dom().contains(name) ==> registry[name].valid()
}

/// What creating the collection `name` answers: a name that is taken is
/// refused.
pub open spec fn create_result(registry: Registry, name: Seq<char>) -> Result<(), BloomError> {
    if registry.dom().contains(name) {
        Err(BloomError::DuplicateError)
    } else {
        Ok(())
    }
}

/// The registry after the attempt to create `name` with `m` bits and `k`
/// hash rounds: a new name gets an empty filter, a taken one changes nothing.
pub open spec fn after_create(registry: Registry, name: Seq<char>, m: nat, k: nat) -> Registry {
    if registry.dom().contains(name) {
        registry
    } else {
        registry.insert(name, Filter::empty(m, k))
    }
}

/// What asking the collection `name` for `bytes` answers.
pub open spec fn exist_result(registry: Registry, name: Seq<char>, bytes: Seq<u8>) -> Result<
    bool,
    BloomError,
> {
    if registry.dom().contains(name) {
        Ok(registry[name].contains(bytes))
    } else {
        Err(BloomError::DoesNotExist)
    }
}

/// What inserting `bytes` into the collection `name` answers: the
/// collection has to exist, the value must not be reported present yet, and
/// the filter must have room, checked in this order.
pub open spec fn set_result(registry: Registry, name: Seq<char>, bytes: Seq<u8>) -> Result<
    (),
    BloomError,
> {
    if !registry.dom().contains(name) {
        Err(BloomError::DoesNotExist)
    } else if registry[name].contains(bytes) {
        Err(BloomError::DuplicateError)
    } else if registry[name].is_full() {
        Err(BloomError::MaxEntryReached)
    } else {
        Ok(())
    }
}

/// The registry after the attempt to insert `bytes` into `name`: changed
/// only where the attempt succeeds.
pub open spec fn after_set(registry: Registry, name: Seq<char>, bytes: Seq<u8>) -> Registry {
    if set_result(registry, name, bytes) is Ok {
        registry.insert(name, registry[name].insert(bytes))
    } else {
        registry
    }
}

/// The registry after one attempt to insert each of `values` into `name`, in
/// order.
pub open spec fn after_sets(registry: Registry, name: Seq<char>, values: Seq<Seq<u8>>) -> Registry
    decreases values.len(),
{
    if values.len() == 0 {
        registry
    } else {
        after_set(after_sets(registry, name, values.drop_last()), name, values.last())
    }
}

/// Whether every one of those attempts succeeds.
pub open spec fn all_accepted(registry: Registry, name: Seq<char>, values: Seq<Seq<u8>>) -> bool
    decreases values.len(),
{
    values.len() == 0 || (all_accepted(registry, name, values.drop_last()) && set_result(
        after_sets(registry, name, values.drop_last()),
        name,
        values.last(),
    ) is Ok)
}

/// Whether none of `values` is reported by the collection `name` at the
/// moment of its own insertion, after those before it were attempted.
pub open spec fn none_reported_early(
    registry: Registry,
    name: Seq<char>,
    values: Seq<Seq<u8>>,
) -> bool {
    forall|i: int|
        0 <= i < values.len() ==> !(#[trigger] after_sets(
            registry,
            name,
            values.take(i),
        ))[name].contains(values[i])
}

/// What deleting the collection `name` answers.
pub open spec fn delete_result(registry: Registry, name: Seq<char>) -> Result<(), BloomError> {
    if registry.dom().contains(name) {
        Ok(())
    } else {
        Err(BloomError::DoesNotExist)
    }
}

/// The registry after the attempt to delete `name`.
pub open spec fn after_delete(registry: Registry, name: Seq<char>) -> Registry {
    registry.remove(name)
}

/// Creating, inserting and deleting keep every filter of the registry valid.
pub proof fn lemma_operations_keep_validity(
    registry: Registry,
    name: Seq<char>,
    bytes: Seq<u8>,
    m: nat,
    k: nat,
)
    requires
        all_valid(registry),
        k >= 1,
    ensures
        all_valid(after_create(registry, name, m, k)),
        all_valid(after_set(registry, name, bytes)),
        all_valid(after_delete(registry, name)),
{
    assert(Filter::empty(m, k).valid());
    if registry.dom().contains(name) {
        crate::filter::lemma_after_set_valid(registry[name], bytes);
    }
}

/// Creating a collection whose name is taken fails as a duplicate and
/// leaves the registry, and with it every answer of the filter that was
/// there, as it was.
pub proof fn lemma_create_on_taken_name(registry: Registry, name: Seq<char>, m: nat, k: nat)
    requires
        registry.dom().contains(name),
    ensures
        create_result(registry, name) == Err::<(), BloomError>(BloomError::DuplicateError),
        after_create(registry, name, m, k) == registry,
        forall|bytes: Seq<u8>|
            exist_result(after_create(registry, name, m, k), name, bytes) == exist_result(
                registry,
                name,
                bytes,
            ),
{
}

/// Inserting a value that the collection already reports fails as a
/// duplicate and counts nothing.
pub proof fn lemma_set_of_present_value(registry: Registry, name: Seq<char>, bytes: Seq<u8>)
    requires
        registry.dom().contains(name),
        registry[name].contains(bytes),
    ensures
        set_result(registry, name, bytes) == Err::<(), BloomError>(BloomError::DuplicateError),
        after_set(registry, name, bytes) == registry,
        after_set(registry, name, bytes)[name].count == registry[name].count,
{
}

/// Inserting into a full collection a value that it does not report fails
/// for want of room and changes nothing.
pub proof fn lemma_set_on_full_collection(registry: Registry, name: Seq<char>, bytes: Seq<u8>)
    requires
        registry.dom().contains(name),
        !registry[name].contains(bytes),
        registry[name].is_full(),
    ensures
        set_result(registry, name, bytes) == Err::<(), BloomError>(BloomError::MaxEntryReached),
        after_set(registry, name, bytes) == registry,
{
}

/// A value that was inserted into a collection is reported by it, and
/// inserting it once more fails as a duplicate.
pub proof fn lemma_set_then_exist(registry: Registry, name: Seq<char>, bytes: Seq<u8>)
    requires
        all_valid(registry),
        set_result(registry, name, bytes) is Ok,
    ensures
        exist_result(after_set(registry, name, bytes), name, bytes) == Ok::<bool, BloomError>(
            true,
        ),
        set_result(after_set(registry, name, bytes), name, bytes) == Err::<(), BloomError>(
            BloomError::DuplicateError,
        ),
{
    crate::filter::lemma_inserted_is_present(registry[name], bytes);
}

/// What a collection reports, it still reports after any later attempt to
/// insert into it or into another collection.
pub proof fn lemma_exist_survives_set(
    registry: Registry,
    name: Seq<char>,
    bytes: Seq<u8>,
    target: Seq<char>,
    other: Seq<u8>,
)
    requires
        exist_result(registry, name, bytes) == Ok::<bool, BloomError>(true),
    ensures
        exist_result(after_set(registry, target, other), name, bytes) == Ok::<bool, BloomError>(
            true,
        ),
{
    if set_result(registry, target, other) is Ok && target == name {
        crate::filter::lemma_present_stays_present(registry[name], bytes, other);
    }
}

/// No insertion is lost: values that fit into the room that a collection
/// has left, none of them reported before its own turn, are all accepted, in
/// whatever order they arrive, and the count rises by their number.
pub proof fn lemma_sets_within_capacity_all_accepted(
    registry: Registry,
    name: Seq<char>,
    values: Seq<Seq<u8>>,
)
    requires
        registry.dom().contains(name),
        registry[name].count + values.len() <= registry[name].capacity,
        none_reported_early(registry, name, values),
    ensures
        all_accepted(registry, name, values),
        after_sets(registry, name, values).dom().contains(name),
        after_sets(registry, name, values)[name].count == registry[name].count + values.len(),
        after_sets(registry, name, values)[name].capacity == registry[name].capacity,
    decreases values.len(),
{
    if values.len() > 0 {
        let front = values.drop_last();
        assert(none_reported_early(registry, name, front)) by {
            assert forall|i: int| 0 <= i < front.len() implies !(#[trigger] after_sets(
                registry,
                name,
                front.take(i),
            ))[name].contains(front[i]) by {
                assert(front.take(i) == values.take(i));
            }
        }
        lemma_sets_within_capacity_all_accepted(registry, name, front);
        assert(values.take(values.len() - 1) == front);
    }
}

/// Once a collection is deleted it is gone: it is not found, and asking it
/// or inserting into it fails because it does not exist.
pub proof fn lemma_delete_then_absent(registry: Registry, name: Seq<char>, bytes: Seq<u8>)
    ensures
        !after_delete(registry, name).dom().contains(name),
        exist_result(after_delete(registry, name), name, bytes) == Err::<bool, BloomError>(
            BloomError::DoesNotExist,
        ),
        set_result(after_delete(registry, name), name, bytes) == Err::<(), BloomError>(
            BloomError::DoesNotExist,
        ),
        delete_result(after_delete(registry, name), name) == Err::<(), BloomError>(
            BloomError::DoesNotExist,
        ),
{
}

/// An operation on one collection leaves every other collection as it was.
pub proof fn lemma_other_collections_untouched(
    registry: Registry,
    name: Seq<char>,
    other: Seq<char>,
    bytes: Seq<u8>,
    m: nat,
    k: nat,
)
    requires
        name != other,
        registry.dom().contains(other),
    ensures
        after_create(registry, name, m, k).dom().contains(other),
        after_create(registry, name, m, k)[other] == registry[other],
        after_set(registry, name, bytes).dom().contains(other),
        after_set(registry, name, bytes)[other] == registry[other],
        after_delete(registry, name).dom().contains(other),
        after_delete(registry, name)[other] == registry[other],
{
}

} // verus!
