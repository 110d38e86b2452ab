//! The life of one connection: `Upgrading`, `Open`, `Closing`, `Closed`.
//!
//! The transport runs the loop: it hands each event to the gateway and
//! performs the action that comes back. Opening and closing touch the shared
//! state, which the caller holds locked only for that one call.
use vstd::prelude::*;

use crate::counter::ConnectionCounter;
use crate::registry::Registry;

verus! {

/// One message-framed unit of the full-duplex transport.
#[derive(Debug, Clone, PartialEq, Eq)]
pub enum Frame {
    Text(String),
    Binary(Vec<u8>),
    Ping(Vec<u8>),
    Pong(Vec<u8>),
    Close,
}

/// What the transport reports to a gateway that is open.
#[derive(Debug, Clone, PartialEq, Eq)]
pub enum Event {
    /// A frame came in.
    Received(Frame),
    /// Reading from the peer failed.
    ReadError,
    /// Writing to the peer failed.
    WriteError,
    /// The peer went away without a close frame.
    Ended,
}

/// What the transport is to do next.
#[derive(Debug, Clone, PartialEq, Eq)]
pub enum Action {
    /// Send this frame to the same peer.
    Send(Frame),
    /// Nothing to send; wait for the next event.
    Wait,
    /// Stop reading and attempt a close handshake, whose failure is ignored.
    CloseHandshake,
}

/// Where a gateway is in its life.
#[derive(Debug, Clone, Copy, PartialEq, Eq, Structural)]
pub enum GatewayState {
    Upgrading,
    Open,
    Closing,
    Closed,
}

/// The state that all connections share: the live peers and their count.
pub struct ConnectionHub<C> {
    pub registry: Registry<C>,
    pub counter: ConnectionCounter,
}

impl<C> ConnectionHub<C> {
    /// The registry keeps its own invariant.
    pub open spec fn wf(&self) -> bool {
        self.registry.wf()
    }

    /// No peers, a count of zero.
    pub fn new() -> (r: ConnectionHub<C>)
        ensures
            r.wf(),
            r.registry@ == Map::<Seq<char>, C>::empty(),
            r.counter@ == 0,
    {
        ConnectionHub { registry: Registry::new(), counter: ConnectionCounter::new() }
    }
}

/// Counts one more live connection in the shared state.
pub fn increment_connections<C>(hub: &mut ConnectionHub<C>)
    requires
        old(hub).counter@ < u64::MAX,
    ensures
        final(hub).counter@ == old(hub).counter@ + 1,
        final(hub).registry == old(hub).registry,
{
    hub.counter.increment();
}

/// Counts one live connection fewer in the shared state, never going below zero.
pub fn decrement_connections<C>(hub: &mut ConnectionHub<C>)
    ensures
        old(hub).counter@ > 0 ==> final(hub).counter@ == old(hub).counter@ - 1,
        old(hub).counter@ == 0 ==> final(hub).counter@ == 0,
        final(hub).registry == old(hub).registry,
{
    hub.counter.decrement();
}

/// The action that an event calls for, and whether the connection stays open.
pub open spec fn reaction(event: Event) -> (Action, bool) {
    match event {
        Event::Received(Frame::Text(t)) => (Action::Send(Frame::Text(t)), true),
        Event::Received(Frame::Binary(b)) => (Action::Send(Frame::Binary(b)), true),
        Event::Received(Frame::Ping(_)) => (Action::Wait, true),
        Event::Received(Frame::Pong(_)) => (Action::Wait, true),
        _ => (Action::CloseHandshake, false),
    }
}

/// One connection, known to the shared state by its identifier.
pub struct Gateway {
    id: String,
    state: GatewayState,
}

impl Gateway {
    /// The identifier under which the connection registers.
    pub closed spec fn spec_id(&self) -> Seq<char> {
        self.id@
    }

    /// The current state.
    pub closed spec fn spec_state(&self) -> GatewayState {
        self.state
    }

    /// A gateway for a connection whose handshake the transport accepted.
    pub fn new(id: String) -> (r: Gateway)
        ensures
            r.spec_id() == id@,
            r.spec_state() == GatewayState::Upgrading,
    {
        Gateway { id, state: GatewayState::Upgrading }
    }

    /// The identifier of the connection.
    pub fn id(&self) -> (r: &String)
        ensures
            r@ == self.spec_id(),
    {
        &self.id
    }

    /// Where the gateway is in its life.
    pub fn state(&self) -> (r: GatewayState)
        ensures
            r == self.spec_state(),
    {
        self.state
    }

    /// Enters `Open`: registers the connection's channel and counts it.
    pub fn open<C>(&mut self, hub: &mut ConnectionHub<C>, channel: C)
        requires
            old(self).spec_state() == GatewayState::Upgrading,
            old(hub).wf(),
            old(hub).counter@ < u64::MAX,
        ensures
            final(self).spec_state() == GatewayState::Open,
            final(self).spec_id() == old(self).spec_id(),
            final(hub).wf(),
            final(hub).registry@ == old(hub).registry@.insert(old(self).spec_id(), channel),
            final(hub).counter@ == old(hub).counter@ + 1,
    {
        hub.registry.register(self.id.clone(), channel);
        increment_connections(hub);
        self.state = GatewayState::Open;
    }

    /// Reacts to an event while open: a text or binary frame is echoed to the
    /// same peer, ping and pong wait, and anything else leads to `Closing`.
    pub fn on_event(&mut self, event: Event) -> (r: Action)
        requires
            old(self).spec_state() == GatewayState::Open,
        ensures
            r == reaction(event).0,
            final(self).spec_id() == old(self).spec_id(),
            final(self).spec_state() == if reaction(event).1 {
                GatewayState::Open
            } else {
                GatewayState::Closing
            },
    {
        match event {
            Event::Received(Frame::Text(t)) => Action::Send(Frame::Text(t)),
            Event::Received(Frame::Binary(b)) => Action::Send(Frame::Binary(b)),
            Event::Received(Frame::Ping(_)) => Action::Wait,
            Event::Received(Frame::Pong(_)) => Action::Wait,
            _ => {
                self.state = GatewayState::Closing;
                Action::CloseHandshake
            },
        }
    }

    /// Enters `Closed` from `Open` or `Closing`: removes the connection's
    /// entry and uncounts it. It runs once, as the gateway is then closed.
    pub fn close<C>(&mut self, hub: &mut ConnectionHub<C>)
        requires
            old(self).spec_state() == GatewayState::Open || old(self).spec_state()
                == GatewayState::Closing,
            old(hub).wf(),
        ensures
            final(self).spec_state() == GatewayState::Closed,
            final(self).spec_id() == old(self).spec_id(),
            final(hub).wf(),
            final(hub).registry@ == old(hub).registry@.remove(old(self).spec_id()),
            old(hub).counter@ > 0 ==> final(hub).counter@ == old(hub).counter@ - 1,
            old(hub).counter@ == 0 ==> final(hub).counter@ == 0,
    {
        hub.registry.unregister(&self.id);
        decrement_connections(hub);
        self.state = GatewayState::Closed;
    }
}

/// Two connections with distinct identifiers that open one after the other
/// leave the same registry whichever opens first, with each identifier mapped
/// to its own connection's channel.
pub proof fn lemma_opens_commute<C>(
    peers: Map<Seq<char>, C>,
    a: Seq<char>,
    channel_a: C,
    b: Seq<char>,
    channel_b: C,
)
    requires
        a != b,
    ensures
        peers.insert(a, channel_a).insert(b, channel_b) == peers.insert(b, channel_b).insert(
            a,
            channel_a,
        ),
        peers.insert(a, channel_a).insert(b, channel_b)[a] == channel_a,
        peers.insert(a, channel_a).insert(b, channel_b)[b] == channel_b,
{
    assert(peers.insert(a, channel_a).insert(b, channel_b) =~= peers.insert(b, channel_b).insert(
        a,
        channel_a,
    ));
}

} // verus!
