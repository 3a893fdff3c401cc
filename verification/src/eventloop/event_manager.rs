//! What the event loop decides, apart from the sockets: which readiness
//! notification means what, which identifier a new client gets, and what a
//! client's read-dispatch-write cycle does to the registry.

use crate::client::{
    received_view, spec_query, ClientID, ClientManager, ClientView, QueryAnswer,
    QueryStep,
};
use crate::connection::ConnectionView;
use crate::server::RedisServer;
use vstd::prelude::*;

verus! {

/// The identifier that stands for the listening socket. No client has it.
pub const ACCEPTOR: usize = 0;

/// How many readiness notifications one wait takes at most.
pub const EVENTS_SIZE: usize = 1024;

/// What a readiness notification asks for.
#[derive(Debug, Clone, Copy, PartialEq, Eq)]
pub enum IoEvent {
    /// The listening socket is ready: accept what is waiting.
    Accept,
    /// The client's socket is readable: run its cycle.
    Read(ClientID),
    /// The client's socket was closed, in one direction or both: remove
    /// the client.
    Close(ClientID),
    /// Nothing to do.
    Ignore,
}

/// What the loop has to do for a client after a step of its cycle.
#[derive(Debug)]
pub enum ClientAction {
    /// No client has the identifier; go on with the next notification.
    Skip,
    /// Read once from the client's socket and hand over what came.
    Read,
    /// Send these bytes to the client and flush.
    Reply(Vec<u8>),
    /// The socket has no more for now: leave the client as it is until its
    /// next notification.
    Wait,
    /// The client was removed from the registry: deregister its socket and
    /// close it.
    Disconnect,
}

/// `ClientAction` in a contract.
pub enum ActionView {
    Skip,
    Read,
    Reply(Seq<u8>),
    Wait,
    Disconnect,
}

/// How a call on a socket failed.
#[derive(Debug, Clone, Copy, PartialEq, Eq)]
pub enum IoFailure {
    /// The call was interrupted before it did anything.
    Interrupted,
    /// The call would have had to wait: the socket has no more for now.
    WouldBlock,
    /// Any other failure.
    Other,
}

/// What to do after an attempt to accept a connection.
#[derive(Debug, Clone, Copy, PartialEq, Eq)]
pub enum AcceptStep {
    /// Try to accept once more.
    Again,
    /// Every connection that was waiting has been accepted.
    Done,
}

/// What to do when the wait for notifications has failed.
#[derive(Debug, Clone, Copy, PartialEq, Eq)]
pub enum PollFailure {
    /// The wait was interrupted: go on, with no notification processed.
    Resume,
    /// The failure is not one of a single socket: the process ends.
    Fatal,
}

/// What the event manager holds.
pub struct EventManagerView {
    /// The identifier that the next client gets.
    pub next_id: usize,
    /// The registry of clients.
    pub clients: Map<ClientID, ClientView>,
}

/// The state behind the event loop's decisions: the generator of
/// identifiers and the registry of clients.
pub struct EventManager {
    id_generator: usize,
    client_manager: ClientManager,
}

impl View for EventManager {
    type V = EventManagerView;

    closed spec fn view(&self) -> EventManagerView {
        EventManagerView { next_id: self.id_generator, clients: self.client_manager@ }
    }
}

/// Whether identifiers are in order: the next one is above the listener's,
/// and every client has one between the two.
pub open spec fn ids_in_order(state: EventManagerView) -> bool {
    ACCEPTOR < state.next_id && forall|id: ClientID| #[trigger]
        state.clients.contains_key(id) ==> ACCEPTOR < id < state.next_id && state.clients[id].client_id
            == id
}

/// What a notification asks for: the listener's identifier means accept;
/// for a client, readable comes before closed.
pub open spec fn spec_classify(
    token: usize,
    readable: bool,
    read_closed: bool,
    write_closed: bool,
) -> IoEvent {
    if token == ACCEPTOR {
        IoEvent::Accept
    } else if readable {
        IoEvent::Read(token)
    } else if read_closed || write_closed {
        IoEvent::Close(token)
    } else {
        IoEvent::Ignore
    }
}

/// The client as it is entered at accept time.
pub open spec fn new_client(id: ClientID, address: Seq<char>) -> ClientView {
    ClientView {
        client_id: id,
        address,
        connection: ConnectionView { inbound: Seq::empty(), outbound: Seq::empty() },
    }
}

/// One step of the cycle of the client `token`: the action for the loop and
/// the registry afterwards. A client that is not there is passed over; a
/// client whose cycle ends, in a clean close or in an error, is removed.
pub open spec fn spec_read_for_client(
    clients: Map<ClientID, ClientView>,
    token: ClientID,
    received: Option<Seq<u8>>,
) -> (ActionView, Map<ClientID, ClientView>) {
    if !clients.contains_key(token) {
        (ActionView::Skip, clients)
    } else {
        let client = clients[token];
        let outcome = spec_query(client.connection, received);
        let after = ClientView {
            client_id: client.client_id,
            address: client.address,
            connection: outcome.connection,
        };
        match outcome.answer {
            QueryAnswer::Reply(bytes) => (ActionView::Reply(bytes), clients.insert(token, after)),
            QueryAnswer::WantRead => (ActionView::Read, clients.insert(token, after)),
            QueryAnswer::Closed => (ActionView::Disconnect, clients.remove(token)),
            QueryAnswer::ProtocolError => (ActionView::Disconnect, clients.remove(token)),
            QueryAnswer::IoError => (ActionView::Disconnect, clients.remove(token)),
        }
    }
}

/// What a failed read from the socket of the client `token` means: after an
/// interruption the read is tried again, a socket that has no more for now
/// is left alone, and any other failure removes the client. A client that
/// is not there is passed over.
pub open spec fn spec_read_failed(
    clients: Map<ClientID, ClientView>,
    token: ClientID,
    failure: IoFailure,
) -> (ActionView, Map<ClientID, ClientView>) {
    if !clients.contains_key(token) {
        (ActionView::Skip, clients)
    } else {
        match failure {
            IoFailure::Interrupted => (ActionView::Read, clients),
            IoFailure::WouldBlock => (ActionView::Wait, clients),
            IoFailure::Other => (ActionView::Disconnect, clients.remove(token)),
        }
    }
}

/// What it means that the socket of the client `token` cannot be used any
/// more, because a reply could not be sent or the socket could not be
/// registered: the client is removed. A client that is not there is passed
/// over.
pub open spec fn spec_socket_failed(clients: Map<ClientID, ClientView>, token: ClientID) -> (
    ActionView,
    Map<ClientID, ClientView>,
) {
    if !clients.contains_key(token) {
        (ActionView::Skip, clients)
    } else {
        (ActionView::Disconnect, clients.remove(token))
    }
}

/// When the burst of accepting ends: a connection that was accepted or an
/// interruption is followed by another attempt; the burst is over when
/// accepting would have to wait, and on any other failure.
pub open spec fn spec_after_accept(outcome: Result<(), IoFailure>) -> AcceptStep {
    match outcome {
        Ok(()) => AcceptStep::Again,
        Err(IoFailure::Interrupted) => AcceptStep::Again,
        Err(IoFailure::WouldBlock) => AcceptStep::Done,
        Err(IoFailure::Other) => AcceptStep::Done,
    }
}

/// The failure of one client does not disturb another: a step of the cycle
/// of the client `token` leaves every other client as it was, in the
/// registry or out of it.
pub proof fn lemma_other_clients_untouched(
    clients: Map<ClientID, ClientView>,
    token: ClientID,
    received: Option<Seq<u8>>,
    other: ClientID,
)
    requires
        other != token,
    ensures
        spec_read_for_client(clients, token, received).1.contains_key(other)
            == clients.contains_key(other),
        clients.contains_key(other) ==> spec_read_for_client(clients, token, received).1[other]
            == clients[other],
{
}

/// Whether `action` is the action `expected`.
pub open spec fn acts(action: ClientAction, expected: ActionView) -> bool {
    match expected {
        ActionView::Skip => action is Skip,
        ActionView::Read => action is Read,
        ActionView::Reply(bytes) => action matches ClientAction::Reply(sent) && sent@ == bytes,
        ActionView::Wait => action is Wait,
        ActionView::Disconnect => action is Disconnect,
    }
}

impl EventManager {
    /// The registry is well formed and identifiers are in order. Every
    /// event manager that this module hands out is so, and each operation
    /// keeps it so.
    pub closed spec fn wf(&self) -> bool {
        self.client_manager.wf() && ids_in_order(self@)
    }

    /// In an event manager that is well formed, identifiers are in order.
    pub proof fn lemma_ids_in_order(&self)
        requires
            self.wf(),
        ensures
            ids_in_order(self@),
    {
    }

    /// An event manager over the registry of a server that has not run yet.
    /// The first client gets the identifier after the listener's.
    pub fn new(redis_server: RedisServer) -> (manager: EventManager)
        requires
            redis_server.wf(),
        ensures
            manager.wf(),
            manager@.next_id == ACCEPTOR + 1,
            manager@.clients == Map::<ClientID, ClientView>::empty(),
    {
        EventManager { id_generator: 1, client_manager: redis_server.into_client_manager() }
    }

    /// The registry of clients.
    pub fn client_manager(&self) -> (manager: &ClientManager)
        ensures
            manager@ == self@.clients,
            self.wf() ==> manager.wf(),
    {
        &self.client_manager
    }

    /// Whether `token` names the listening socket.
    pub fn is_accept_event(token: usize) -> (r: bool)
        ensures
            r == (token == ACCEPTOR),
    {
        token == ACCEPTOR
    }

    /// What the notification for `token` asks for.
    pub fn classify(token: usize, readable: bool, read_closed: bool, write_closed: bool) -> (r:
        IoEvent)
        ensures
            r == spec_classify(token, readable, read_closed, write_closed),
    {
        if Self::is_accept_event(token) {
            IoEvent::Accept
        } else if readable {
            IoEvent::Read(token)
        } else if read_closed || write_closed {
            IoEvent::Close(token)
        } else {
            IoEvent::Ignore
        }
    }

    /// What to do when the wait for notifications has failed: go on if it
    /// was only interrupted, end the process otherwise.
    pub fn poll_failed(interrupted: bool) -> (r: PollFailure)
        ensures
            r == (if interrupted {
                PollFailure::Resume
            } else {
                PollFailure::Fatal
            }),
    {
        if interrupted {
            PollFailure::Resume
        } else {
            PollFailure::Fatal
        }
    }

    /// Enters a client that has just been accepted, under a fresh
    /// identifier, and hands the identifier out: register the socket under
    /// it. When no identifier is left the answer is `None` and nothing
    /// changes.
    pub fn accept_new_client(&mut self, address: String) -> (r: Option<ClientID>)
        requires
            old(self).wf(),
        ensures
            final(self).wf(),
            old(self)@.next_id == usize::MAX ==> r is None && final(self)@ == old(self)@,
            old(self)@.next_id < usize::MAX ==> r == Some(old(self)@.next_id) && !old(self)@.clients.contains_key(old(self)@.next_id) && final(self)@.next_id == old(self)@.next_id + 1 && final(self)@.clients == old(self)@.clients.insert(
                old(self)@.next_id,
                new_client(old(self)@.next_id, address@),
            ),
    {
        if self.id_generator == usize::MAX {
            return None;
        }
        let fd = self.id_generator;
        proof {
            let before = old(self)@;
            assert(ids_in_order(before));
            if before.clients.contains_key(fd) {
                assert(fd < before.next_id);
            }
        }
        if !self.client_manager.create_client(fd, address) {
            return None;
        }
        self.id_generator = fd + 1;
        proof {
            let before = old(self)@;
            let after = self@;
            assert forall|id: ClientID| #[trigger] after.clients.contains_key(id) implies ACCEPTOR
                < id < after.next_id && after.clients[id].client_id == id by {
                if id != fd {
                    assert(before.clients.contains_key(id));
                }
            }
        }
        Some(fd)
    }

    /// One step of the read-dispatch-write cycle of the client `token`.
    /// Call it with `None` when the client's socket is readable; whenever
    /// the answer is `Read`, read once from the socket and call it again
    /// with the bytes that came, none if the stream has ended.
    pub fn read_for_client(&mut self, token: ClientID, received: Option<&[u8]>) -> (action:
        ClientAction)
        requires
            old(self).wf(),
        ensures
            final(self).wf(),
            final(self)@.next_id == old(self)@.next_id,
            acts(
                action,
                spec_read_for_client(old(self)@.clients, token, received_view(received)).0,
            ),
            final(self)@.clients == spec_read_for_client(
                old(self)@.clients,
                token,
                received_view(received),
            ).1,
    {
        let mut client = match self.client_manager.take_client(token) {
            None => {
                assert(self@.clients =~= old(self)@.clients);
                return ClientAction::Skip;
            },
            Some(client) => client,
        };
        let ghost before = client@;
        match client.read_from_query(received) {
            Ok(QueryStep::Reply(bytes)) => {
                self.client_manager.put_client(client);
                assert(self@.clients =~= old(self)@.clients.insert(token, client@));
                ClientAction::Reply(bytes)
            },
            Ok(QueryStep::WantRead) => {
                self.client_manager.put_client(client);
                assert(self@.clients =~= old(self)@.clients.insert(token, client@));
                ClientAction::Read
            },
            Ok(QueryStep::Closed) => ClientAction::Disconnect,
            Err(_) => ClientAction::Disconnect,
        }
    }

    /// Removes every client from the registry: close their sockets. The
    /// generator of identifiers goes on from where it is.
    pub fn clear(&mut self)
        requires
            old(self).wf(),
        ensures
            final(self).wf(),
            final(self)@.next_id == old(self)@.next_id,
            final(self)@.clients == Map::<ClientID, ClientView>::empty(),
    {
        self.client_manager.clear();
    }

    /// What to do after an attempt to accept a connection, which succeeded
    /// or failed as `outcome` says.
    pub fn after_accept(outcome: Result<(), IoFailure>) -> (r: AcceptStep)
        ensures
            r == spec_after_accept(outcome),
    {
        match outcome {
            Ok(()) => AcceptStep::Again,
            Err(IoFailure::Interrupted) => AcceptStep::Again,
            Err(_) => AcceptStep::Done,
        }
    }

    /// Takes note that a read from the socket of the client `token` has
    /// failed, and says what to do about it.
    pub fn read_failed(&mut self, token: ClientID, failure: IoFailure) -> (action: ClientAction)
        requires
            old(self).wf(),
        ensures
            final(self).wf(),
            final(self)@.next_id == old(self)@.next_id,
            acts(action, spec_read_failed(old(self)@.clients, token, failure).0),
            final(self)@.clients == spec_read_failed(old(self)@.clients, token, failure).1,
    {
        if !self.client_manager.contains(token) {
            return ClientAction::Skip;
        }
        match failure {
            IoFailure::Interrupted => ClientAction::Read,
            IoFailure::WouldBlock => ClientAction::Wait,
            IoFailure::Other => {
                self.remove_client(token);
                ClientAction::Disconnect
            },
        }
    }

    /// Takes note that the socket of the client `token` cannot be used any
    /// more: a reply could not be sent, or the socket could not be
    /// registered. The client is removed.
    pub fn socket_failed(&mut self, token: ClientID) -> (action: ClientAction)
        requires
            old(self).wf(),
        ensures
            final(self).wf(),
            final(self)@.next_id == old(self)@.next_id,
            acts(action, spec_socket_failed(old(self)@.clients, token).0),
            final(self)@.clients == spec_socket_failed(old(self)@.clients, token).1,
    {
        if !self.client_manager.contains(token) {
            return ClientAction::Skip;
        }
        self.remove_client(token);
        ClientAction::Disconnect
    }

    /// Removes the client `token` from the registry. Where there is none,
    /// nothing happens.
    pub fn remove_client(&mut self, token: ClientID)
        requires
            old(self).wf(),
        ensures
            final(self).wf(),
            final(self)@.next_id == old(self)@.next_id,
            final(self)@.clients == old(self)@.clients.remove(token),
    {
        self.client_manager.remove_client(token);
        proof {
            let before = old(self)@;
            let after = self@;
            assert forall|id: ClientID| #[trigger] after.clients.contains_key(id) implies ACCEPTOR
                < id < after.next_id && after.clients[id].client_id == id by {
                assert(before.clients.contains_key(id));
            }
        }
    }
}

} // verus!
