//! The event loop as a whole: the state it is in, and the event manager
//! that it drives while it runs.

use crate::client::{received_view, ClientID, ClientView};
use crate::eventloop::event_manager::{
    acts, new_client, spec_read_failed, spec_read_for_client, spec_socket_failed, ClientAction,
    EventManager, EventManagerView, IoFailure, ACCEPTOR,
};
use crate::lifecycle::{Constructive, ConstructiveLiteLifecycle, LiteLifecycle};
use crate::server::RedisServer;
use vstd::prelude::*;

verus! {

/// The longest that one wait for notifications lasts, in seconds.
pub const WAIT_SECONDS: u64 = 1;

/// The state of an event loop. It only ever moves down this list.
#[derive(Debug, Clone, Copy, PartialEq, Eq)]
pub enum LoopState {
    /// Made, and not started yet.
    Initialized,
    /// Waiting for notifications and processing them.
    Running,
    /// Stopped for good.
    Stopped,
}

/// What an event loop is.
pub struct EventLoopView {
    pub state: LoopState,
    pub events: EventManagerView,
}

/// An event loop that one thread drives from start to stop.
pub struct SingleThreadEventLoop {
    io_event_loop: EventManager,
    state: LoopState,
}

impl View for SingleThreadEventLoop {
    type V = EventLoopView;

    closed spec fn view(&self) -> EventLoopView {
        EventLoopView { state: self.state, events: self.io_event_loop@ }
    }
}

/// Whether a loop may go from the state `from` to the state `to` in one
/// step, or stay.
pub open spec fn may_follow(from: LoopState, to: LoopState) -> bool {
    from == to || (from == LoopState::Initialized && to == LoopState::Running) || to
        == LoopState::Stopped
}

impl SingleThreadEventLoop {
    /// The event manager is well formed, and only a loop that runs holds
    /// clients. Every loop that this module hands out is so, and each
    /// operation keeps it so.
    pub closed spec fn wf(&self) -> bool {
        self.io_event_loop.wf() && (self.state != LoopState::Running ==> self.io_event_loop@.clients
            == Map::<ClientID, ClientView>::empty())
    }

    /// In a loop that is well formed, only a loop that runs holds clients.
    pub proof fn lemma_clients_only_while_running(&self)
        requires
            self.wf(),
        ensures
            self@.state != LoopState::Running ==> self@.events.clients == Map::<
                ClientID,
                ClientView,
            >::empty(),
    {
    }

    /// An event loop for `redis_server`, which has not run yet. The loop is
    /// not started.
    pub fn for_server(redis_server: RedisServer) -> (event_loop: SingleThreadEventLoop)
        requires
            redis_server.wf(),
        ensures
            event_loop.wf(),
            event_loop@.state == LoopState::Initialized,
            event_loop@.events.next_id == ACCEPTOR + 1,
            event_loop@.events.clients == Map::<ClientID, ClientView>::empty(),
    {
        SingleThreadEventLoop {
            io_event_loop: EventManager::new(redis_server),
            state: LoopState::Initialized,
        }
    }

    /// The state of the loop.
    pub fn state(&self) -> (state: LoopState)
        ensures
            state == self@.state,
    {
        self.state
    }

    /// Whether the loop is to go on waiting for notifications.
    pub fn is_running(&self) -> (r: bool)
        ensures
            r == (self@.state == LoopState::Running),
    {
        match self.state {
            LoopState::Running => true,
            _ => false,
        }
    }

    /// Starts a loop that has not run yet. A loop that runs or has stopped
    /// stays as it is, and the answer is `false`.
    pub fn start(&mut self) -> (started: bool)
        requires
            old(self).wf(),
        ensures
            final(self).wf(),
            final(self)@.events == old(self)@.events,
            started == (old(self)@.state == LoopState::Initialized),
            started ==> final(self)@.state == LoopState::Running,
            !started ==> final(self)@.state == old(self)@.state,
            may_follow(old(self)@.state, final(self)@.state),
    {
        match self.state {
            LoopState::Initialized => {
                self.state = LoopState::Running;
                true
            },
            _ => false,
        }
    }

    /// Stops the loop for good, from whatever state: every client is taken
    /// out of the registry, so close their sockets.
    pub fn stop(&mut self)
        requires
            old(self).wf(),
        ensures
            final(self).wf(),
            final(self)@.state == LoopState::Stopped,
            may_follow(old(self)@.state, final(self)@.state),
            final(self)@.events.next_id == old(self)@.events.next_id,
            final(self)@.events.clients == Map::<ClientID, ClientView>::empty(),
    {
        self.io_event_loop.clear();
        self.state = LoopState::Stopped;
    }

    /// The event manager, to read from.
    pub fn event_manager(&self) -> (events: &EventManager)
        ensures
            events@ == self@.events,
            self.wf() ==> events.wf(),
    {
        &self.io_event_loop
    }

    /// Enters a client that has just been accepted, as the event manager
    /// does. A loop that does not run accepts no client: the answer is `None`
    /// and nothing changes.
    pub fn accept_new_client(&mut self, address: String) -> (r: Option<ClientID>)
        requires
            old(self).wf(),
        ensures
            final(self).wf(),
            final(self)@.state == old(self)@.state,
            old(self)@.state != LoopState::Running || old(self)@.events.next_id == usize::MAX
                ==> r is None && final(self)@ == old(self)@,
            old(self)@.state == LoopState::Running && old(self)@.events.next_id < usize::MAX ==> r
                == Some(old(self)@.events.next_id) && !old(self)@.events.clients.contains_key(
                old(self)@.events.next_id,
            ) && final(self)@.events.next_id == old(self)@.events.next_id + 1 && final(self)@.events.clients == old(self)@.events.clients.insert(
                old(self)@.events.next_id,
                new_client(old(self)@.events.next_id, address@),
            ),
    {
        if !self.is_running() {
            return None;
        }
        self.io_event_loop.accept_new_client(address)
    }

    /// One step of the read-dispatch-write cycle of the client `token`, as
    /// the event manager takes it.
    pub fn read_for_client(&mut self, token: ClientID, received: Option<&[u8]>) -> (action:
        ClientAction)
        requires
            old(self).wf(),
        ensures
            final(self).wf(),
            final(self)@.state == old(self)@.state,
            final(self)@.events.next_id == old(self)@.events.next_id,
            acts(
                action,
                spec_read_for_client(old(self)@.events.clients, token, received_view(received)).0,
            ),
            final(self)@.events.clients == spec_read_for_client(
                old(self)@.events.clients,
                token,
                received_view(received),
            ).1,
    {
        self.io_event_loop.read_for_client(token, received)
    }

    /// Takes note that a read from the socket of the client `token` has
    /// failed, as the event manager does.
    pub fn read_failed(&mut self, token: ClientID, failure: IoFailure) -> (action: ClientAction)
        requires
            old(self).wf(),
        ensures
            final(self).wf(),
            final(self)@.state == old(self)@.state,
            final(self)@.events.next_id == old(self)@.events.next_id,
            acts(action, spec_read_failed(old(self)@.events.clients, token, failure).0),
            final(self)@.events.clients == spec_read_failed(
                old(self)@.events.clients,
                token,
                failure,
            ).1,
    {
        self.io_event_loop.read_failed(token, failure)
    }

    /// Takes note that the socket of the client `token` cannot be used any
    /// more, as the event manager does.
    pub fn socket_failed(&mut self, token: ClientID) -> (action: ClientAction)
        requires
            old(self).wf(),
        ensures
            final(self).wf(),
            final(self)@.state == old(self)@.state,
            final(self)@.events.next_id == old(self)@.events.next_id,
            acts(action, spec_socket_failed(old(self)@.events.clients, token).0),
            final(self)@.events.clients == spec_socket_failed(old(self)@.events.clients, token).1,
    {
        self.io_event_loop.socket_failed(token)
    }

    /// Removes the client `token` from the registry. Where there is none,
    /// nothing happens.
    pub fn remove_client(&mut self, token: ClientID)
        requires
            old(self).wf(),
        ensures
            final(self).wf(),
            final(self)@.state == old(self)@.state,
            final(self)@.events.next_id == old(self)@.events.next_id,
            final(self)@.events.clients == old(self)@.events.clients.remove(token),
    {
        self.io_event_loop.remove_client(token);
        assert(Map::<ClientID, ClientView>::empty().remove(token) =~= Map::<
            ClientID,
            ClientView,
        >::empty());
    }
}

impl Constructive for SingleThreadEventLoop {
    type Instance = SingleThreadEventLoop;

    /// An event loop for a server with the default configuration.
    fn new() -> (event_loop: SingleThreadEventLoop)
        ensures
            event_loop.wf(),
            event_loop@.state == LoopState::Initialized,
            event_loop@.events.clients == Map::<ClientID, ClientView>::empty(),
    {
        SingleThreadEventLoop::for_server(RedisServer::default())
    }
}

impl LiteLifecycle for SingleThreadEventLoop {

}

impl ConstructiveLiteLifecycle for SingleThreadEventLoop {

}

} // verus!
