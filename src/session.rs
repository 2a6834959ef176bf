use crate::codec::{decode, decode_spec, result_view, DecodeError};
use crate::hub::{deliver_slot, Hub, HubView};
use crate::message::{welcome_text, MessageView, WsMessage};
use crate::registry::{Registry, RegistryError};
use vstd::prelude::*;

verus! {

/// The life of one connection.
#[derive(Debug, PartialEq, Eq, Clone, Copy, Structural)]
pub enum SessionState {
    Connecting,
    Upgrading,
    Active,
    Closing,
    Closed,
}

/// What happens to a connection.
#[derive(Debug, PartialEq, Eq, Clone, Copy, Structural)]
pub enum SessionEvent {
    /// The socket was accepted; the handshake begins.
    Accepted,
    /// The handshake completed.
    HandshakeSucceeded,
    /// The handshake failed (bad headers or an I/O error).
    HandshakeFailed,
    /// The inbound or the outbound loop ended, for any reason.
    LoopEnded,
    /// The registry entry was removed and the socket released.
    CleanedUp,
}

/// The state a session moves to on an event; an event that does not apply
/// to the state leaves it unchanged, and `Closed` is final.
pub open spec fn next_state_spec(s: SessionState, e: SessionEvent) -> SessionState {
    match (s, e) {
        (SessionState::Connecting, SessionEvent::Accepted) => SessionState::Upgrading,
        (SessionState::Upgrading, SessionEvent::HandshakeSucceeded) => SessionState::Active,
        (SessionState::Upgrading, SessionEvent::HandshakeFailed) => SessionState::Closed,
        (SessionState::Active, SessionEvent::LoopEnded) => SessionState::Closing,
        (SessionState::Closing, SessionEvent::CleanedUp) => SessionState::Closed,
        _ => s,
    }
}

pub fn next_state(s: SessionState, e: SessionEvent) -> (r: SessionState)
    ensures
        r == next_state_spec(s, e),
{
    match (s, e) {
        (SessionState::Connecting, SessionEvent::Accepted) => SessionState::Upgrading,
        (SessionState::Upgrading, SessionEvent::HandshakeSucceeded) => SessionState::Active,
        (SessionState::Upgrading, SessionEvent::HandshakeFailed) => SessionState::Closed,
        (SessionState::Active, SessionEvent::LoopEnded) => SessionState::Closing,
        (SessionState::Closing, SessionEvent::CleanedUp) => SessionState::Closed,
        _ => s,
    }
}

/// What the connection does on a transition.
#[derive(Debug, PartialEq, Eq, Clone, Copy, Structural)]
pub enum SessionAction {
    /// Run the protocol handshake.
    Handshake,
    /// Register the client, subscribe it, send it the welcome message, and
    /// start the inbound and outbound loops.
    Activate,
    /// Drop the connection; nothing was registered.
    Drop,
    /// Abandon the other loop, unregister the client and release the socket.
    CleanUp,
    /// Nothing to do.
    Nothing,
}

/// The action that goes with a transition; an event that does not apply to
/// the state asks for nothing.
pub open spec fn action_spec(s: SessionState, e: SessionEvent) -> SessionAction {
    match (s, e) {
        (SessionState::Connecting, SessionEvent::Accepted) => SessionAction::Handshake,
        (SessionState::Upgrading, SessionEvent::HandshakeSucceeded) => SessionAction::Activate,
        (SessionState::Upgrading, SessionEvent::HandshakeFailed) => SessionAction::Drop,
        (SessionState::Active, SessionEvent::LoopEnded) => SessionAction::CleanUp,
        _ => SessionAction::Nothing,
    }
}

/// The next state of a session and the action the connection takes for it.
pub fn step(s: SessionState, e: SessionEvent) -> (r: (SessionState, SessionAction))
    ensures
        r.0 == next_state_spec(s, e),
        r.1 == action_spec(s, e),
{
    let a = match (s, e) {
        (SessionState::Connecting, SessionEvent::Accepted) => SessionAction::Handshake,
        (SessionState::Upgrading, SessionEvent::HandshakeSucceeded) => SessionAction::Activate,
        (SessionState::Upgrading, SessionEvent::HandshakeFailed) => SessionAction::Drop,
        (SessionState::Active, SessionEvent::LoopEnded) => SessionAction::CleanUp,
        _ => SessionAction::Nothing,
    };
    (next_state(s, e), a)
}

/// What the inbound loop read from the socket.
#[derive(Debug, PartialEq, Eq, Clone, Copy, Structural)]
pub enum FrameKind {
    /// A text frame.
    Text,
    /// A close frame from the peer.
    Close,
    /// A read error, or the end of the stream.
    Error,
    /// Any other frame (binary, ping, pong).
    Other,
}

/// What the inbound loop does with what it read.
#[derive(Debug, PartialEq, Eq, Clone, Copy, Structural)]
pub enum InboundAction {
    /// Decode the text (or wrap it as a chat message) and publish it.
    Publish,
    /// Read on.
    Ignore,
    /// End the loop, which ends the session.
    EndLoop,
}

pub open spec fn inbound_action_spec(f: FrameKind) -> InboundAction {
    match f {
        FrameKind::Text => InboundAction::Publish,
        FrameKind::Close | FrameKind::Error => InboundAction::EndLoop,
        FrameKind::Other => InboundAction::Ignore,
    }
}

/// Decides what the inbound loop does with what it read.
pub fn inbound_action(f: FrameKind) -> (r: InboundAction)
    ensures
        r == inbound_action_spec(f),
{
    match f {
        FrameKind::Text => InboundAction::Publish,
        FrameKind::Close | FrameKind::Error => InboundAction::EndLoop,
        FrameKind::Other => InboundAction::Ignore,
    }
}

/// What a client's inbound text frame becomes: the decoded message when the
/// text decoded, else a chat message from that client carrying the raw text.
pub open spec fn inbound_spec(
    client: Seq<char>,
    text: Seq<char>,
    decoded: Result<MessageView, DecodeError>,
    timestamp: Seq<char>,
) -> MessageView {
    match decoded {
        Ok(m) => m,
        Err(_) => MessageView::Chat { user: client, message: text, timestamp },
    }
}

/// Decides the message to publish for inbound `text`, given what decoding it
/// gave.
pub fn resolve_inbound(
    client: &str,
    text: &str,
    decoded: Result<WsMessage, DecodeError>,
    timestamp: &str,
) -> (r: WsMessage)
    ensures
        r@ == inbound_spec(client@, text@, result_view(decoded), timestamp@),
{
    match decoded {
        Ok(m) => m,
        Err(_) => WsMessage::fallback_chat(client, text, timestamp),
    }
}

/// The message to publish for an inbound text frame of `client`.
pub fn inbound_message(client: &str, text: &str, timestamp: &str) -> (r: WsMessage)
    ensures
        r@ == inbound_spec(client@, text@, decode_spec(text@), timestamp@),
{
    resolve_inbound(client, text, decode(text), timestamp)
}

/// The shared state of all sessions as a value: each connected client's
/// subscription id, and the hub.
pub struct BrokerView {
    pub clients: Map<Seq<char>, usize>,
    pub hub: HubView,
}

impl BrokerView {
    /// Every registered client has its own open subscription.
    pub open spec fn wf(self) -> bool {
        &&& self.hub.wf()
        &&& forall|c: Seq<char>| #[trigger]
            self.clients.contains_key(c) ==> self.hub.is_open(self.clients[c] as int)
        &&& forall|c: Seq<char>, d: Seq<char>|
            #[trigger] self.clients.contains_key(c) && #[trigger] self.clients.contains_key(d) && c
                != d ==> self.clients[c] != self.clients[d]
    }

    pub open spec fn after_open(self, client: Seq<char>, id: usize) -> BrokerView {
        BrokerView { clients: self.clients.insert(client, id), hub: self.hub.after_subscribe(id as int) }
    }

    pub open spec fn after_close(self, client: Seq<char>) -> BrokerView {
        if self.clients.contains_key(client) {
            BrokerView {
                clients: self.clients.remove(client),
                hub: self.hub.after_unsubscribe(self.clients[client] as int),
            }
        } else {
            self
        }
    }

    pub open spec fn after_publish(self, m: MessageView) -> BrokerView {
        BrokerView { clients: self.clients, hub: self.hub.after_publish(m) }
    }

    pub open spec fn after_receive(self, id: usize) -> BrokerView {
        BrokerView { clients: self.clients, hub: self.hub.after_receive(id as int) }
    }
}

/// Inbound text is never dropped: text that decodes is relayed as the very
/// message it encodes, text that does not is relayed as a chat message from
/// its sender carrying the raw text, and either way the relayed message
/// reaches every open subscription.
pub proof fn lemma_inbound_is_relayed(v: BrokerView, client: Seq<char>, text: Seq<char>, timestamp: Seq<char>)
    requires
        v.wf(),
    ensures
        ({
            let m = inbound_spec(client, text, decode_spec(text), timestamp);
            &&& decode_spec(text) is Err ==> m == (MessageView::Chat { user: client, message: text, timestamp })
            &&& decode_spec(text) matches Ok(d) ==> m == d
            &&& v.after_publish(m).wf()
            &&& forall|i: int| #[trigger]
                v.hub.is_open(i) ==> v.after_publish(m).hub.is_open(i) && v.after_publish(
                    m,
                ).hub.pending(i).last() == m
        }),
{
    let m = inbound_spec(client, text, decode_spec(text), timestamp);
    crate::hub::lemma_publish_reaches_every_subscriber(v.hub, m);
    let after = v.after_publish(m);
    assert forall|c: Seq<char>| #[trigger] after.clients.contains_key(c) implies after.hub.is_open(
        after.clients[c] as int,
    ) by {
        assert(v.hub.is_open(v.clients[c] as int));
    }
}

/// Closing a client that has no entry changes nothing, and a session that
/// opens and then closes leaves no registry entry and no open subscription
/// behind.
pub proof fn lemma_session_leaves_no_residue(v: BrokerView, client: Seq<char>, id: usize)
    requires
        v.wf(),
        !v.clients.contains_key(client),
        v.hub.free_slot(id as int),
    ensures
        v.after_close(client) == v,
        v.after_open(client, id).after_close(client).clients == v.clients,
        v.after_open(client, id).after_close(client).hub.log == v.hub.log,
        forall|i: int| #[trigger]
            v.after_open(client, id).after_close(client).hub.is_open(i) == v.hub.is_open(i),
{
    let opened = v.after_open(client, id);
    let closed = opened.after_close(client);
    assert(opened.clients.contains_key(client));
    assert(opened.clients[client] == id);
    assert(closed.clients =~= v.clients);
    assert forall|i: int| #[trigger] closed.hub.is_open(i) == v.hub.is_open(i) by {
        if i != id as int && 0 <= i < v.hub.subs.len() {
            assert(closed.hub.subs[i] == v.hub.subs[i]);
        }
    }
}

/// The registry and the hub that all sessions share.
pub struct Broker {
    registry: Registry,
    hub: Hub,
}

impl View for Broker {
    type V = BrokerView;

    closed spec fn view(&self) -> BrokerView {
        BrokerView { clients: self.registry.view(), hub: self.hub@ }
    }
}

impl Broker {
    pub closed spec fn wf(&self) -> bool {
        &&& self.registry.wf()
        &&& self.hub.wf()
        &&& self@.wf()
    }

    /// The invariant of a broker, as its value states it: every registered
    /// client has its own open subscription, and every subscription holds the
    /// newest messages since it opened, in publish order.
    pub proof fn lemma_view_wf(&self)
        requires
            self.wf(),
        ensures
            self@.wf(),
    {
    }

    /// No client connected, nothing published.
    pub fn new() -> (r: Broker)
        ensures
            r.wf(),
            r@.clients == Map::<Seq<char>, usize>::empty(),
            r@.hub.log == Seq::<MessageView>::empty(),
            r@.hub.subs == Seq::<Option<crate::hub::SubView>>::empty(),
    {
        Broker { registry: Registry::new(), hub: Hub::new() }
    }

    /// Enters the active state for `client`: registers it with a new
    /// subscription and returns the subscription id with the welcome message
    /// that only this client gets. A client id that is already connected is
    /// refused and nothing changes.
    pub fn open_session(&mut self, client: String, timestamp: &str) -> (r: Result<(usize, WsMessage), RegistryError>)
        requires
            old(self).wf(),
        ensures
            final(self).wf(),
            old(self)@.clients.contains_key(client@) ==> r == Err::<(usize, WsMessage), RegistryError>(
                RegistryError::AlreadyRegistered,
            ) && final(self)@ == old(self)@,
            !old(self)@.clients.contains_key(client@) ==> (r matches Ok((id, welcome)) && old(
                self,
            )@.hub.free_slot(id as int) && final(self)@ == old(self)@.after_open(client@, id)
                && welcome@ == (MessageView::System {
                message: welcome_text(client@),
                timestamp: timestamp@,
            })),
    {
        if self.registry.lookup(&client).is_some() {
            return Err(RegistryError::AlreadyRegistered);
        }
        let ghost before = self@;
        let welcome = WsMessage::welcome(client.as_str(), timestamp);
        let id = self.hub.subscribe();
        let ghost c = client@;
        let reg = self.registry.register(client, id);
        assert(reg is Ok);
        assert(self@.wf()) by {
            assert forall|k: Seq<char>| #[trigger] self@.clients.contains_key(k) implies self@.hub.is_open(
                self@.clients[k] as int,
            ) by {
                if k != c {
                    assert(before.clients.contains_key(k));
                    assert(before.hub.is_open(before.clients[k] as int));
                }
            }
            assert forall|k: Seq<char>, d: Seq<char>|
                #[trigger] self@.clients.contains_key(k) && #[trigger] self@.clients.contains_key(d) && k
                    != d implies self@.clients[k] != self@.clients[d] by {
                if k != c && d != c {
                    assert(before.clients.contains_key(k) && before.clients.contains_key(d));
                } else if k == c {
                    assert(before.clients.contains_key(d));
                    assert(before.hub.is_open(before.clients[d] as int));
                } else {
                    assert(before.clients.contains_key(k));
                    assert(before.hub.is_open(before.clients[k] as int));
                }
            }
        }
        Ok((id, welcome))
    }

    /// Publishes `m` to every open subscription.
    pub fn publish(&mut self, m: WsMessage)
        requires
            old(self).wf(),
        ensures
            final(self).wf(),
            final(self)@ == old(self)@.after_publish(m@),
    {
        let ghost before = self@;
        let ghost mv = m@;
        self.hub.publish(m);
        assert(self@.wf()) by {
            assert forall|k: Seq<char>| #[trigger] self@.clients.contains_key(k) implies self@.hub.is_open(
                self@.clients[k] as int,
            ) by {
                let i = before.clients[k] as int;
                assert(before.hub.is_open(i));
                assert(self@.hub.subs[i] == deliver_slot(before.hub.subs[i], mv));
            }
            assert(self@.hub.wf());
            assert(self@.clients == before.clients);
        }
    }

    /// Handles an inbound text frame of `client`: publishes what it decodes
    /// to, or the chat message that carries it, and returns what was
    /// published.
    pub fn receive_text(&mut self, client: &str, text: &str, timestamp: &str) -> (r: WsMessage)
        requires
            old(self).wf(),
        ensures
            final(self).wf(),
            r@ == inbound_spec(client@, text@, decode_spec(text@), timestamp@),
            final(self)@ == old(self)@.after_publish(r@),
    {
        let m = inbound_message(client, text, timestamp);
        self.publish(m.copy_of());
        m
    }

    /// Takes the next message for subscription `id`, oldest first.
    pub fn next_outbound(&mut self, id: usize) -> (r: Option<WsMessage>)
        requires
            old(self).wf(),
        ensures
            final(self).wf(),
            final(self)@ == old(self)@.after_receive(id),
            old(self)@.hub.is_open(id as int) && old(self)@.hub.pending(id as int).len() > 0 ==> (r matches Some(m)
                && m@ == old(self)@.hub.pending(id as int)[0]),
            !(old(self)@.hub.is_open(id as int) && old(self)@.hub.pending(id as int).len() > 0) ==> r is None,
    {
        let ghost before = self@;
        let r = self.hub.try_recv(id);
        assert(self@.wf()) by {
            assert forall|k: Seq<char>| #[trigger] self@.clients.contains_key(k) implies self@.hub.is_open(
                self@.clients[k] as int,
            ) by {
                assert(before.hub.is_open(before.clients[k] as int));
            }
        }
        r
    }

    /// Leaves the session of `client`: removes its registry entry and closes
    /// its subscription. For a client with no entry nothing changes.
    pub fn close_session(&mut self, client: &String)
        requires
            old(self).wf(),
        ensures
            final(self).wf(),
            final(self)@ == old(self)@.after_close(client@),
    {
        let ghost before = self@;
        match self.registry.unregister(client) {
            Some(id) => {
                self.hub.unsubscribe(id);
                assert(self@.wf()) by {
                    assert forall|k: Seq<char>| #[trigger] self@.clients.contains_key(k) implies self@.hub.is_open(
                        self@.clients[k] as int,
                    ) by {
                        assert(before.clients.contains_key(k));
                        assert(before.clients[k] != before.clients[client@]);
                        assert(before.hub.is_open(before.clients[k] as int));
                    }
                }
            },
            None => {
                assert(self@.clients =~= before.clients);
            },
        }
    }

    /// The subscription id of `client`, if it is connected.
    pub fn handle_of(&self, client: &String) -> (r: Option<usize>)
        requires
            self.wf(),
        ensures
            r == (if self@.clients.contains_key(client@) {
                Some(self@.clients[client@])
            } else {
                None::<usize>
            }),
    {
        self.registry.lookup(client)
    }

    /// The number of connected clients.
    pub fn client_count(&self) -> (r: usize)
        requires
            self.wf(),
        ensures
            r == self@.clients.len(),
    {
        self.registry.len()
    }
}

} // verus!
