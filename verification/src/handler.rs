//! The remote operations on the registry. Each one answers the caller and,
//! when it has changed the registry, names the event to replicate.

use crate::bloom::{BloomCollection, BloomError, BloomNode, MAX_BITS_32, MAX_HASH_32};
use crate::hash::MAX_MEMBER_LEN;
use crate::registry::{
    after_create, after_delete, after_set, all_valid, create_result, delete_result, exist_result,
    set_result,
};
use crate::replication::Message;
use vstd::prelude::*;
use vstd::string::StringExecFns;
use vstd::utf8::encode_utf8;

verus! {

/// What one remote call comes to.
#[derive(Debug)]
pub struct Outcome {
    /// The answer to the caller: the boolean result, or the code of the error.
    pub reply: Result<bool, i64>,
    /// The event to hand to the replication queue, if the call changed the
    /// registry.
    pub event: Option<Message>,
}

/// The answer to the caller for the result of a query: the boolean as it
/// is, an error by its code.
pub open spec fn answer(result: Result<bool, BloomError>) -> Result<bool, i64> {
    match result {
        Ok(flag) => Ok(flag),
        Err(e) => Err(e.code_spec() as i64),
    }
}

/// The answer to the caller for the result of a mutation: `true` once it is
/// applied, else the code of the error.
pub open spec fn confirmation(result: Result<(), BloomError>) -> Result<bool, i64> {
    match result {
        Ok(()) => Ok(true),
        Err(e) => Err(e.code_spec() as i64),
    }
}

/// The event of a call: `event` where the call succeeded, none where it
/// failed.
pub open spec fn event_on_success(reply: Result<bool, i64>, event: Message) -> Option<Message> {
    if reply is Ok {
        Some(event)
    } else {
        None
    }
}

/// The version of the protocol that the handler speaks.
pub fn protocol_version() -> (version: String)
    ensures
        version@ == "v1"@,
{
    String::from_str("v1")
}

/// Creates a collection of the default profile. The event is issued only
/// once the registry holds the collection.
pub fn create(store: &mut BloomCollection, collection: String) -> (out: Outcome)
    ensures
        out.reply == confirmation(create_result(old(store)@, collection@)),
        out.event == event_on_success(out.reply, Message::Create(collection)),
        final(store)@ == after_create(
            old(store)@,
            collection@,
            MAX_BITS_32 as nat,
            MAX_HASH_32 as nat,
        ),
        all_valid(final(store)@),
{
    let name = collection.clone();
    match store.create(name, BloomNode::max_bits(), BloomNode::max_hash()) {
        Ok(()) => Outcome { reply: Ok(true), event: Some(Message::Create(collection)) },
        Err(e) => Outcome { reply: Err(e.code()), event: None },
    }
}

/// Reports whether a collection holds a value. A read replicates nothing.
pub fn has_key(store: &BloomCollection, collection: String, val: String) -> (out: Outcome)
    requires
        encode_utf8(val@).len() <= MAX_MEMBER_LEN,
    ensures
        out.reply == answer(exist_result(store@, collection@, encode_utf8(val@))),
        out.event is None,
{
    match store.exist(collection, val) {
        Ok(flag) => Outcome { reply: Ok(flag), event: None },
        Err(e) => Outcome { reply: Err(e.code()), event: None },
    }
}

/// Inserts a value into a collection. The event is issued only once the
/// filter holds the value.
pub fn set_key(store: &mut BloomCollection, collection: String, val: String) -> (out: Outcome)
    requires
        encode_utf8(val@).len() <= MAX_MEMBER_LEN,
    ensures
        out.reply == confirmation(set_result(old(store)@, collection@, encode_utf8(val@))),
        out.event == event_on_success(out.reply, Message::SetKey(collection, val)),
        final(store)@ == after_set(old(store)@, collection@, encode_utf8(val@)),
        all_valid(final(store)@),
{
    let name = collection.clone();
    let member = val.clone();
    match store.set(name, member) {
        Ok(()) => Outcome { reply: Ok(true), event: Some(Message::SetKey(collection, val)) },
        Err(e) => Outcome { reply: Err(e.code()), event: None },
    }
}

/// Deletes a collection. The event is issued only once the registry has let
/// go of it.
pub fn delete(store: &mut BloomCollection, collection: String) -> (out: Outcome)
    ensures
        out.reply == confirmation(delete_result(old(store)@, collection@)),
        out.event == event_on_success(out.reply, Message::Delete(collection)),
        final(store)@ == after_delete(old(store)@, collection@),
        all_valid(final(store)@),
{
    let name = collection.clone();
    match store.delete(name) {
        Ok(()) => Outcome { reply: Ok(true), event: Some(Message::Delete(collection)) },
        Err(e) => Outcome { reply: Err(e.code()), event: None },
    }
}

/// Reports whether a collection exists. A read replicates nothing, and this
/// one never fails.
pub fn has_collection(store: &mut BloomCollection, collection: String) -> (out: Outcome)
    ensures
        out.reply == Ok::<bool, i64>(old(store)@.dom().contains(collection@)),
        out.event is None,
        final(store)@ == old(store)@,
{
    match store.has_collection(collection) {
        Ok(flag) => Outcome { reply: Ok(flag), event: None },
        Err(e) => Outcome { reply: Err(e.code()), event: None },
    }
}

} // verus!
