//! Events that connections report.
//!
//! Each connection reports to its owner what happens on it; a server turns
//! what its inbound connections report into events for the application.
//! The events are generic in the message type, which the codec provides.
use vstd::prelude::*;

verus! {

/// What happens on one connection, as the connection reports it.
pub enum ClientEvent<M> {
    /// A message arrived.
    Message { client_id: u128, message: M },
    /// The connection was established.
    Connected { client_id: u128 },
    /// The connection was closed.
    Disconnected { client_id: u128 },
    /// The connection failed.
    Error { client_id: u128, error: String },
}

/// What happens on a server's connections, as the application sees it.
#[derive(Debug)]
pub enum ServerEvent<M> {
    /// A client sent a message.
    Message { client_id: u128, message: M },
    /// A client connected.
    Connected { client_id: u128 },
    /// A client disconnected.
    Disconnected { client_id: u128 },
    /// A client's connection failed.
    Error { client_id: u128, error: String },
}

/// The event a server passes on to the application for what the connection
/// with id `client_id` reported.  The server announces each connection
/// itself as soon as it accepts it, so the connection's own `Connected` is
/// not passed on; every event passed on carries the id the server gave the
/// connection.
pub open spec fn forwarded<M>(client_id: u128, event: ClientEvent<M>) -> Option<ServerEvent<M>> {
    match event {
        ClientEvent::Message { message, .. } => Some(ServerEvent::Message { client_id, message }),
        ClientEvent::Connected { .. } => None,
        ClientEvent::Disconnected { .. } => Some(ServerEvent::Disconnected { client_id }),
        ClientEvent::Error { error, .. } => Some(ServerEvent::Error { client_id, error }),
    }
}

/// Turns what the connection with id `client_id` reported into the event for
/// the application, if there is one.
pub fn forward_client_event<M>(client_id: u128, event: ClientEvent<M>) -> (r: Option<ServerEvent<M>>)
    ensures
        r == forwarded(client_id, event),
{
    match event {
        ClientEvent::Message { message, .. } => Some(ServerEvent::Message { client_id, message }),
        ClientEvent::Connected { .. } => None,
        ClientEvent::Disconnected { .. } => Some(ServerEvent::Disconnected { client_id }),
        ClientEvent::Error { error, .. } => Some(ServerEvent::Error { client_id, error }),
    }
}

/// The message an event carries, if it is a message; a client's `recv`
/// skips every other event.
pub fn message_of<M>(event: ClientEvent<M>) -> (r: Option<M>)
    ensures
        match event {
            ClientEvent::Message { message, .. } => r == Some(message),
            _ => r is None,
        },
{
    match event {
        ClientEvent::Message { message, .. } => Some(message),
        _ => None,
    }
}

/// A forwarded event always names the connection it was forwarded for, and
/// only a connection's own `Connected` is held back.
pub proof fn lemma_forwarded_names_connection<M>(client_id: u128, event: ClientEvent<M>)
    ensures
        forwarded(client_id, event) is None <==> event is Connected,
        forwarded(client_id, event) matches Some(e) ==> match e {
            ServerEvent::Message { client_id: id, .. } => id == client_id,
            ServerEvent::Connected { client_id: id } => id == client_id,
            ServerEvent::Disconnected { client_id: id } => id == client_id,
            ServerEvent::Error { client_id: id, .. } => id == client_id,
        },
{
}

/// Forwarding keeps the kind of each event and what it carries, whatever id
/// the connection itself put on it: a message stays that message, a
/// disconnect stays a disconnect, an error keeps its text; only the
/// connection's own `Connected` is held back.
pub proof fn lemma_forwarding_keeps_kind_and_payload<M>(client_id: u128, event: ClientEvent<M>)
    ensures
        event matches ClientEvent::Message { message: m, .. } ==> forwarded(client_id, event)
            == Some(ServerEvent::Message { client_id, message: m }),
        event is Disconnected ==> forwarded(client_id, event) == Some(
            ServerEvent::<M>::Disconnected { client_id },
        ),
        event matches ClientEvent::Error { error: e, .. } ==> forwarded(client_id, event) == Some(
            ServerEvent::<M>::Error { client_id, error: e },
        ),
        event is Connected ==> forwarded(client_id, event) is None,
{
}

/// How far a server's handling of one connection has gone.
#[derive(Clone, Copy, Debug, PartialEq, Eq, Structural)]
pub enum SessionPhase {
    /// The connection was accepted but not yet announced.
    Fresh,
    /// The connection was announced; its events are being passed on.
    Open,
    /// The connection's end was announced.
    Closed,
}

/// Whether `e` is a server event of the `Connected` kind.
pub open spec fn is_connected<M>(e: ServerEvent<M>) -> bool {
    e is Connected
}

/// The connection id a server event names.
pub open spec fn event_client<M>(e: ServerEvent<M>) -> u128 {
    match e {
        ServerEvent::Message { client_id, .. } => client_id,
        ServerEvent::Connected { client_id } => client_id,
        ServerEvent::Disconnected { client_id } => client_id,
        ServerEvent::Error { client_id, .. } => client_id,
    }
}

/// A server's handling of one inbound connection: it announces the
/// connection, passes on what the connection reports, and finally announces
/// its end and drops it from the server.
pub struct ClientSession<M> {
    client_id: u128,
    phase: SessionPhase,
    sent: Ghost<Seq<ServerEvent<M>>>,
}

impl<M> ClientSession<M> {
    /// The id the server gave the connection.
    pub closed spec fn id(&self) -> u128 {
        self.client_id
    }

    pub closed spec fn phase(&self) -> SessionPhase {
        self.phase
    }

    /// The events handed to the application for this connection so far.
    pub closed spec fn sent(&self) -> Seq<ServerEvent<M>> {
        self.sent@
    }

    /// What the application has been told of the connection is in order:
    /// nothing before the announcement; then `Connected` first and never
    /// again; every event naming this connection; `Disconnected` last once
    /// the session is closed.
    pub open spec fn wf(&self) -> bool {
        &&& self.phase() == SessionPhase::Fresh ==> self.sent().len() == 0
        &&& self.phase() != SessionPhase::Fresh ==> {
            &&& self.sent().len() >= 1
            &&& self.sent()[0] == ServerEvent::<M>::Connected { client_id: self.id() }
        }
        &&& forall|i: int| 1 <= i < self.sent().len() ==> !is_connected(#[trigger] self.sent()[i])
        &&& forall|i: int| 0 <= i < self.sent().len() ==> event_client(#[trigger] self.sent()[i]) == self.id()
        &&& self.phase() == SessionPhase::Closed ==> self.sent().last()
            == ServerEvent::<M>::Disconnected { client_id: self.id() }
    }

    /// A session for a connection just accepted under `client_id`.
    pub fn new(client_id: u128) -> (s: Self)
        ensures
            s.id() == client_id,
            s.phase() == SessionPhase::Fresh,
            s.sent() == Seq::<ServerEvent<M>>::empty(),
            s.wf(),
    {
        ClientSession { client_id, phase: SessionPhase::Fresh, sent: Ghost(Seq::empty()) }
    }

    /// The connection's id.
    pub fn client_id(&self) -> (id: u128)
        ensures
            id == self.id(),
    {
        self.client_id
    }

    /// The announcement the application receives first, before anything the
    /// connection reports.
    pub fn open(&mut self) -> (e: ServerEvent<M>)
        requires
            old(self).wf(),
            old(self).phase() == SessionPhase::Fresh,
        ensures
            e == (ServerEvent::<M>::Connected { client_id: old(self).id() }),
            final(self).id() == old(self).id(),
            final(self).phase() == SessionPhase::Open,
            final(self).sent() == seq![e],
            final(self).wf(),
    {
        let e = ServerEvent::Connected { client_id: self.client_id };
        self.phase = SessionPhase::Open;
        proof {
            self.sent@ = seq![e];
        }
        e
    }

    /// The event, if any, the application receives for what the connection
    /// reported: [`forwarded`] under the connection's id.
    pub fn forward(&mut self, event: ClientEvent<M>) -> (r: Option<ServerEvent<M>>)
        requires
            old(self).wf(),
            old(self).phase() == SessionPhase::Open,
        ensures
            r == forwarded(old(self).id(), event),
            final(self).id() == old(self).id(),
            final(self).phase() == SessionPhase::Open,
            final(self).sent() == (match r {
                Some(e) => old(self).sent().push(e),
                None => old(self).sent(),
            }),
            final(self).wf(),
    {
        let ghost ev = event;
        let r = forward_client_event(self.client_id, event);
        proof {
            lemma_forwarded_names_connection(self.client_id, ev);
        }
        match &r {
            Some(e) => {
                let ghost old_sent = self.sent@;
                proof {
                    self.sent@ = self.sent@.push(*e);
                }
                assert(forall|i: int| 0 <= i < old_sent.len() ==> self.sent@[i] == old_sent[i]);
            },
            None => {},
        }
        r
    }

    /// The connection ended: the announcement of its end, which the
    /// application receives last, and the id to drop from the server.
    pub fn close(&mut self) -> (r: (ServerEvent<M>, u128))
        requires
            old(self).wf(),
            old(self).phase() == SessionPhase::Open,
        ensures
            r.0 == (ServerEvent::<M>::Disconnected { client_id: old(self).id() }),
            r.1 == old(self).id(),
            final(self).id() == old(self).id(),
            final(self).phase() == SessionPhase::Closed,
            final(self).sent() == old(self).sent().push(r.0),
            final(self).wf(),
    {
        let e = ServerEvent::Disconnected { client_id: self.client_id };
        let ghost old_sent = self.sent@;
        proof {
            self.sent@ = self.sent@.push(e);
        }
        assert(forall|i: int| 0 <= i < old_sent.len() ==> self.sent@[i] == old_sent[i]);
        self.phase = SessionPhase::Closed;
        (e, self.client_id)
    }
}

} // verus!
