//! What a local mutation becomes on its way to the peers: the event that
//! records it, the request that carries it, and one delivery per peer.

use vstd::prelude::*;
use vstd::string::StringExecFns;

verus! {

/// A mutation to be replicated.
#[derive(Debug, Clone)]
pub enum Message {
    /// A value was inserted into a collection: the collection, then the value.
    SetKey(String, String),
    /// A collection was created.
    Create(String),
    /// A collection was deleted.
    Delete(String),
    /// Nothing happened: a heartbeat.
    Heartbeat,
}

impl Default for Message {
    fn default() -> (m: Message)
        ensures
            m == Message::Heartbeat,
    {
        Message::Heartbeat
    }
}

/// A one-way remote call: a method name and its positional parameters.
#[derive(Debug)]
pub struct Request {
    /// The name of the remote method.
    pub method: String,
    /// The arguments, in the order in which the method takes them.
    pub params: Vec<String>,
}

impl Message {
    /// Whether the message records a mutation, and so is sent to the peers.
    pub open spec fn is_mutation(&self) -> bool {
        !(self is Heartbeat)
    }

    /// The remote method that applies the message on a peer.
    pub open spec fn method_name(&self) -> Seq<char> {
        match self {
            Message::SetKey(_, _) => "setKey"@,
            Message::Create(_) => "createCollection"@,
            Message::Delete(_) => "deleteCollection"@,
            Message::Heartbeat => Seq::empty(),
        }
    }

    /// The arguments of that method.
    pub open spec fn arguments(&self) -> Seq<String> {
        match self {
            Message::SetKey(collection, value) => seq![*collection, *value],
            Message::Create(collection) => seq![*collection],
            Message::Delete(collection) => seq![*collection],
            Message::Heartbeat => Seq::empty(),
        }
    }

    /// Whether `request` is the remote call that carries the message.
    pub open spec fn carried_by(&self, request: Request) -> bool {
        &&& request.method@ == self.method_name()
        &&& request.params@ == self.arguments()
    }

    /// Builds the remote call that applies the message on a peer. A
    /// heartbeat has none.
    pub fn request(&self) -> (r: Option<Request>)
        ensures
            match r {
                Some(request) => self.is_mutation() && self.carried_by(request),
                None => !self.is_mutation(),
            },
    {
        match self {
            Message::SetKey(collection, value) => {
                let mut params: Vec<String> = Vec::new();
                params.push(collection.clone());
                params.push(value.clone());
                assert(params@ =~= seq![*collection, *value]);
                Some(Request { method: String::from_str("setKey"), params })
            },
            Message::Create(collection) => {
                let mut params: Vec<String> = Vec::new();
                params.push(collection.clone());
                assert(params@ =~= seq![*collection]);
                Some(Request { method: String::from_str("createCollection"), params })
            },
            Message::Delete(collection) => {
                let mut params: Vec<String> = Vec::new();
                params.push(collection.clone());
                assert(params@ =~= seq![*collection]);
                Some(Request { method: String::from_str("deleteCollection"), params })
            },
            Message::Heartbeat => None,
        }
    }
}

/// Ends an encoded request with the newline that separates it from the next
/// one on the wire.
pub fn frame(payload: String) -> (line: String)
    ensures
        line@ == payload@.push('\n'),
{
    proof {
        reveal_strlit("\n");
    }
    let line = payload.concat("\n");
    assert(line@ =~= payload@.push('\n'));
    line
}

/// One request on its way to one peer.
#[derive(Debug)]
pub struct Delivery {
    /// The index of the peer among those of the controller.
    pub peer: usize,
    /// The request to write to that peer.
    pub request: Request,
}

/// Decides what is sent to whom. It holds the peers in the order in which
/// they were configured.
pub struct ReplicationController {
    peers: Vec<String>,
}

impl ReplicationController {
    /// The addresses of the peers, in order.
    pub closed spec fn peers(&self) -> Seq<String> {
        self.peers@
    }

    /// Creates a controller for `peers`; without a list there are none.
    pub fn new(peers: Option<Vec<String>>) -> (c: ReplicationController)
        ensures
            c.peers() == match peers {
                Some(list) => list@,
                None => Seq::<String>::empty(),
            },
    {
        match peers {
            Some(list) => ReplicationController { peers: list },
            None => ReplicationController { peers: Vec::new() },
        }
    }

    /// The number of peers.
    pub fn peer_count(&self) -> (n: usize)
        ensures
            n == self.peers().len(),
    {
        self.peers.len()
    }

    /// The address of peer `i`.
    pub fn peer(&self, i: usize) -> (address: &String)
        requires
            i < self.peers().len(),
        ensures
            *address == self.peers()[i as int],
    {
        &self.peers[i]
    }

    /// Fans a message out: one delivery of its request to every peer, in peer
    /// order. A heartbeat is delivered to nobody.
    pub fn fan_out(&self, msg: &Message) -> (deliveries: Vec<Delivery>)
        ensures
            !msg.is_mutation() ==> deliveries@.len() == 0,
            msg.is_mutation() ==> deliveries@.len() == self.peers().len(),
            forall|i: int|
                0 <= i < deliveries@.len() ==> (#[trigger] deliveries@[i]).peer == i
                    && msg.carried_by(deliveries@[i].request),
    {
        let mut deliveries: Vec<Delivery> = Vec::new();
        let mut i: usize = 0;
        while i < self.peers.len()
            invariant
                i <= self.peers@.len(),
                !msg.is_mutation() ==> deliveries@.len() == 0,
                msg.is_mutation() ==> deliveries@.len() == i,
                forall|j: int|
                    0 <= j < deliveries@.len() ==> (#[trigger] deliveries@[j]).peer == j
                        && msg.carried_by(deliveries@[j].request),
            decreases self.peers@.len() - i,
        {
            match msg.request() {
                Some(request) => {
                    deliveries.push(Delivery { peer: i, request });
                },
                None => {},
            }
            i += 1;
        }
        deliveries
    }
}

} // verus!
