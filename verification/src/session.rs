//! Per-connection session: the snapshot-then-subscribe lifecycle and the
//! server-side reaction to client frames.
//!
//! A session moves from `Connecting` to `Streaming` to `Closed`. On entering
//! `Streaming` it captures the store snapshot and registers with the
//! registry in one step, under the service's single exclusive reference, so
//! no entry appended around the join point is ever missed or seen twice. The
//! socket is push-only: inbound text is answered with a structured error,
//! pings with pongs, and binary payloads are passed back unchanged.

use vstd::prelude::*;

use crate::kernel::{KernelMessage, KernelService, LogEntryView};
use crate::registry::SubscriberView;
use crate::registry::WebsocketEventType;

verus! {

/// Error payload sent to a client that writes to the push-only socket.
pub struct WebsocketError {
    pub error: String,
}

impl WebsocketError {
    /// The one rejection this protocol ever sends.
    pub fn input_rejected() -> (e: WebsocketError)
        ensures
            e.error@ == "Websocket does not support inputs."@,
    {
        WebsocketError { error: "Websocket does not support inputs.".to_owned() }
    }
}

/// The one rejection payload this protocol ever sends, as a JSON object with
/// a single `error` field.
pub open spec fn input_rejected_json() -> Seq<char> {
    "{\"error\":\"Websocket does not support inputs.\"}"@
}

/// The serialized form of the rejection sent for inbound text.
pub fn input_rejected_error() -> (r: String)
    ensures
        r@ == input_rejected_json(),
{
    "{\"error\":\"Websocket does not support inputs.\"}".to_owned()
}

/// One inbound frame from the client.
pub enum ClientMessage {
    /// A text payload; this protocol rejects all of them.
    Text(String),
    /// A protocol ping with its payload.
    Ping(Vec<u8>),
    /// A binary payload; passed back unchanged.
    Binary(Vec<u8>),
    /// The peer closed the connection.
    Close,
}

/// One outbound frame sent in reaction to a client frame.
pub enum ServerReply {
    Text(String),
    Pong(Vec<u8>),
    Binary(Vec<u8>),
}

/// Reaction to one client frame: client-originated data is rejected with a
/// structured error, pings are answered per protocol, binary payloads are
/// echoed verbatim, and a close elicits nothing.
pub fn handle_client_message(msg: ClientMessage) -> (r: Option<ServerReply>)
    ensures
        match msg {
            ClientMessage::Text(_) => match r {
                Some(ServerReply::Text(t)) => t@ == input_rejected_json(),
                _ => false,
            },
            ClientMessage::Ping(p) => r == Some(ServerReply::Pong(p)),
            ClientMessage::Binary(b) => r == Some(ServerReply::Binary(b)),
            ClientMessage::Close => r is None,
        },
{
    match msg {
        ClientMessage::Text(_) => Some(ServerReply::Text(input_rejected_error())),
        ClientMessage::Ping(p) => Some(ServerReply::Pong(p)),
        ClientMessage::Binary(b) => Some(ServerReply::Binary(b)),
        ClientMessage::Close => None,
    }
}

/// Lifecycle of one client connection.
#[derive(Clone, Copy, Debug, PartialEq, Eq, Structural)]
pub enum SessionState {
    Connecting,
    Streaming,
    Closed,
}

/// One client connection's session: its lifecycle state and, while
/// streaming, the identifier of its registry subscription.
pub struct Session {
    /// Where in the `Connecting → Streaming → Closed` lifecycle this session
    /// stands.
    pub state: SessionState,
    /// The registry identifier of this session's subscriber, present exactly
    /// while the session is streaming.
    pub subscriber_id: Option<usize>,
}

impl Session {
    /// A session holds a subscriber identifier exactly while it is streaming.
    pub open spec fn wf(self) -> bool {
        (self.state is Streaming) <==> (self.subscriber_id is Some)
    }

    /// A fresh session for a connection that was just accepted.
    pub fn new() -> (s: Session)
        ensures
            s.wf(),
            s.state is Connecting,
    {
        Session { state: SessionState::Connecting, subscriber_id: None }
    }

    /// Moves the session from `Connecting` to `Streaming`: captures the
    /// snapshot of everything stored so far and registers a subscriber with
    /// an outbound queue bounded by `capacity`, in one step under the
    /// service's exclusive reference, so no entry appended around the join
    /// point is missed or duplicated. Returns the snapshot, which the caller
    /// sends as the first, combined frame.
    pub fn start(&mut self, service: &mut KernelService, capacity: usize) -> (snapshot: Vec<
        KernelMessage,
    >)
        requires
            old(self).state is Connecting,
            old(self).wf(),
            old(service)@.wf(),
            old(service)@.registry.next_id < usize::MAX,
        ensures
            final(self).wf(),
            final(self).state is Streaming,
            final(self).subscriber_id == Some(old(service)@.registry.next_id as usize),
            snapshot.deep_view() == old(service)@.entries,
            final(service)@.wf(),
            final(service)@.entries == old(service)@.entries,
            final(service)@.sequence_counter == old(service)@.sequence_counter,
            final(service)@.registry.events == old(service)@.registry.events,
            final(service)@.registry.next_id == old(service)@.registry.next_id + 1,
            final(service)@.registry.subscribers == old(service)@.registry.subscribers.push(
                SubscriberView {
                    id: old(service)@.registry.next_id,
                    event_type: WebsocketEventType::KernelBuffer,
                    capacity: capacity as nat,
                    queue: Seq::empty(),
                    joined_at: old(service)@.registry.events.len(),
                    taken: Seq::empty(),
                },
            ),
    {
        let (snapshot, id) = service.connect(capacity);
        self.state = SessionState::Streaming;
        self.subscriber_id = Some(id);
        snapshot
    }

    /// Hands this session everything waiting in its outbound queue, in
    /// delivery order; each returned entry is forwarded to the client as one
    /// independent frame. A session that is not streaming has nothing
    /// pending.
    pub fn poll(&self, service: &mut KernelService) -> (r: Vec<KernelMessage>)
        requires
            self.wf(),
            old(service)@.wf(),
        ensures
            final(service)@.wf(),
            final(service)@.entries == old(service)@.entries,
            final(service)@.registry.events == old(service)@.registry.events,
            !(self.state is Streaming) ==> final(service)@ == old(service)@
                && r.deep_view() == Seq::<LogEntryView>::empty(),
            match self.subscriber_id {
                Some(id) => {
                    &&& (exists|i: int|
                        0 <= i < old(service)@.registry.subscribers.len()
                            && old(service)@.registry.subscribers[i].id == id as nat)
                        ==> exists|i: int|
                        {
                            &&& 0 <= i < old(service)@.registry.subscribers.len()
                            &&& old(service)@.registry.subscribers[i].id == id as nat
                            &&& r.deep_view() == old(service)@.registry.subscribers[i].queue
                            &&& final(service)@.registry.subscribers
                                == old(service)@.registry.subscribers.update(
                                i,
                                old(service)@.registry.subscribers[i].flushed(),
                            )
                        }
                    &&& (forall|i: int|
                        0 <= i < old(service)@.registry.subscribers.len() ==> (
                        #[trigger] old(service)@.registry.subscribers[i]).id != id as nat) ==> {
                        &&& final(service)@ == old(service)@
                        &&& r.deep_view() == Seq::<LogEntryView>::empty()
                    }
                },
                None => true,
            },
    {
        match self.subscriber_id {
            Some(id) => service.take_pending(id),
            None => {
                let r: Vec<KernelMessage> = Vec::new();
                proof {
                    assert(r.deep_view() =~= Seq::<LogEntryView>::empty());
                }
                r
            },
        }
    }

    /// Ends the session: unregisters its subscriber, if it had one, and moves
    /// to `Closed`. No other subscriber is touched, so a disconnect can
    /// neither stall nor crash any other connection.
    pub fn finish(&mut self, service: &mut KernelService)
        requires
            old(self).wf(),
            old(service)@.wf(),
        ensures
            final(self).wf(),
            final(self).state is Closed,
            final(service)@.wf(),
            final(service)@.entries == old(service)@.entries,
            final(service)@.sequence_counter == old(service)@.sequence_counter,
            final(service)@.registry.events == old(service)@.registry.events,
            final(service)@.registry.next_id == old(service)@.registry.next_id,
            match old(self).subscriber_id {
                Some(id) => final(service)@.registry.subscribers
                    == old(service)@.registry.subscribers.filter(
                    |s: SubscriberView| s.id != id as nat,
                ),
                None => final(service)@ == old(service)@,
            },
    {
        match self.subscriber_id {
            Some(id) => service.disconnect(id),
            None => (),
        }
        self.state = SessionState::Closed;
        self.subscriber_id = None;
    }
}

} // verus!