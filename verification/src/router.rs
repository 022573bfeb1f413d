//! Component-keyed dispatch: a table of routing keys, looked up from a
//! packet's header. The table names handler slots; running a handler and
//! awaiting its result is outside work that the caller performs with the
//! slot this lookup returns.

use vstd::prelude::*;
use crate::codec::Codec;
use crate::error::DecodeError;
use crate::packet::{Packet, PacketHeader, PacketType};

verus! {

/// The routing key a packet header addresses: component id, command id,
/// and whether the packet is a notification (a subsystem may use one
/// command id twice, told apart by this flag).
pub open spec fn route_key(h: PacketHeader) -> (u16, u16, bool) {
    (h.component, h.command, h.ty == PacketType::Notify)
}

/// First position of a key in the route table, or -1 when absent.
pub open spec fn find_route(routes: Seq<(u16, u16, bool)>, key: (u16, u16, bool)) -> int
    decreases routes.len(),
{
    if routes.len() == 0 {
        -1
    } else if routes[0] == key {
        0
    } else {
        let r = find_route(routes.skip(1), key);
        if r < 0 {
            -1
        } else {
            1 + r
        }
    }
}

/// What `find_route` finds: the first position holding the key, or the
/// absence of the key.
pub proof fn lemma_find_route(routes: Seq<(u16, u16, bool)>, key: (u16, u16, bool))
    ensures
        find_route(routes, key) == -1 || 0 <= find_route(routes, key) < routes.len(),
        find_route(routes, key) == -1 ==> forall|j: int|
            0 <= j < routes.len() ==> routes[j] != key,
        find_route(routes, key) >= 0 ==> routes[find_route(routes, key)] == key,
        find_route(routes, key) >= 0 ==> forall|j: int|
            0 <= j < find_route(routes, key) ==> routes[j] != key,
    decreases routes.len(),
{
    if routes.len() > 0 && routes[0] != key {
        lemma_find_route(routes.skip(1), key);
        assert forall|j: int| 1 <= j < routes.len() implies routes[j] == routes.skip(1)[j - 1] by {
            assert(routes.skip(1)[j - 1] == routes[j]);
        }
    }
}

/// Error that can come out of handling a packet.
#[derive(Debug)]
pub enum HandleError {
    /// No handler is registered for the packet's routing key; the packet
    /// comes back so the caller can answer it with an empty or error
    /// response.
    MissingHandler(Packet),
    /// The packet's payload would not decode as the handler's request
    /// type. Raised by callers that decode a request for a found slot.
    Decoding(DecodeError),
}

/// A route table mapping routing keys to handler slots. Slot `i` names
/// the handler registered by the `route` call that returned `i`; the
/// handlers themselves live with the caller, outside this table.
pub struct Router {
    /// The registered routing keys; a key's position is its handler slot.
    pub routes: Vec<(u16, u16, bool)>,
}

impl Router {
    /// An empty route table.
    pub fn new() -> (r: Router)
        ensures
            r.routes@ == Seq::<(u16, u16, bool)>::empty(),
    {
        Router { routes: Vec::new() }
    }

    /// Registers a routing key and returns its handler slot. A key already
    /// registered keeps its slot, so storing the new handler there
    /// replaces the old one.
    #[verifier::loop_isolation(false)]
    pub fn route(&mut self, component: u16, command: u16, notify: bool) -> (slot: usize)
        ensures
            ({
                let key = (component, command, notify);
                let i = find_route(old(self).routes@, key);
                &&& (i >= 0 ==> slot == i && final(self).routes@ == old(self).routes@)
                &&& (i == -1 ==> slot == old(self).routes@.len() && final(self).routes@ == old(
                    self,
                ).routes@.push(key))
            }),
    {
        let key = (component, command, notify);
        proof {
            lemma_find_route(self.routes@, key);
        }
        let mut i: usize = 0;
        while i < self.routes.len()
            invariant
                i <= self.routes@.len(),
                key == (component, command, notify),
                forall|j: int| 0 <= j < i ==> self.routes@[j] != key,
            decreases self.routes@.len() - i,
        {
            let entry = self.routes[i];
            if entry.0 == component && entry.1 == command && entry.2 == notify {
                proof {
                    assert(self.routes@[i as int] == key);
                }
                return i;
            }
            i = i + 1;
        }
        self.routes.push(key);
        self.routes.len() - 1
    }

    /// Finds the handler slot for the packet's routing key. A packet whose
    /// key is not in the table comes back inside the missing-handler
    /// error; the caller then decodes the request and runs the slot's
    /// handler, answering with a response whose header mirrors the
    /// request.
    #[verifier::loop_isolation(false)]
    pub fn handle(&self, packet: Packet) -> (r: Result<(usize, Packet), HandleError>)
        ensures
            match r {
                Ok(sp) => {
                    let i = find_route(self.routes@, route_key(packet.header));
                    &&& i >= 0
                    &&& sp.0 == i
                    &&& sp.1.header == packet.header
                    &&& crate::payload::bytes_view(sp.1.contents) == crate::payload::bytes_view(
                        packet.contents,
                    )
                },
                Err(e) => e matches HandleError::MissingHandler(p) && find_route(
                    self.routes@,
                    route_key(packet.header),
                ) == -1 && p.header == packet.header && crate::payload::bytes_view(p.contents)
                    == crate::payload::bytes_view(packet.contents),
            },
    {
        let key = route_key_of(&packet.header);
        proof {
            lemma_find_route(self.routes@, key);
        }
        let mut i: usize = 0;
        while i < self.routes.len()
            invariant
                i <= self.routes@.len(),
                key == route_key(packet.header),
                forall|j: int| 0 <= j < i ==> self.routes@[j] != key,
            decreases self.routes@.len() - i,
        {
            let entry = self.routes[i];
            if entry.0 == key.0 && entry.1 == key.1 && entry.2 == key.2 {
                proof {
                    assert(self.routes@[i as int] == key);
                    lemma_find_route(self.routes@, key);
                }
                return Ok((i, packet));
            }
            i = i + 1;
        }
        proof {
            lemma_find_route(self.routes@, key);
        }
        Err(HandleError::MissingHandler(packet))
    }
}

/// The routing key a packet header addresses.
pub fn route_key_of(header: &PacketHeader) -> (r: (u16, u16, bool))
    ensures
        r == route_key(*header),
{
    (header.component, header.command, header.ty == PacketType::Notify)
}

/// Router dispatch law: the response built for a request mirrors the
/// request's component, command and id under the response kind, and its
/// payload decodes back to the value the handler returned.
pub proof fn lemma_dispatch_response<C: Codec>(h: PacketHeader, v: C)
    requires
        v.round_trip_ok(),
    ensures
        h.spec_with_type(PacketType::Response).component == h.component,
        h.spec_with_type(PacketType::Response).command == h.command,
        h.spec_with_type(PacketType::Response).id == h.id,
        h.spec_with_type(PacketType::Response).ty == PacketType::Response,
        C::dec(v.enc()) == Some((v.deep_view(), v.enc().len() as int)),
{
    C::lemma_round_trip(v, Seq::<u8>::empty());
    assert(v.enc() + Seq::<u8>::empty() =~= v.enc());
}

} // verus!
