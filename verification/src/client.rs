//! A connected client, and the registry of all of them.

use crate::command::{
    command_frame, response, spec_from_frame, theorem_command_semantics, Command,
};
use crate::connection::{
    spec_read_protocol, Connection, ConnectionView, ReadOutcome, ReadStep,
};
use crate::error::ConnectionError;
use crate::display::spec_parse_error_text;
use crate::parse::ParseError;
use crate::registry::{clients_of, map_clear, map_get, map_insert, map_new, map_remove};
use crate::decimal::decimal_digits;
use crate::protocol::ProtocolView;
use crate::wire::{spec_encode, spec_encode_items};
use crate::wire_laws::{
    all_survive_wire, lemma_encode_nonempty, survives_wire, theorem_round_trip,
};
use ahash::AHashMap;
use vstd::prelude::*;
use vstd::utf8::{encode_utf8, is_ascii_chars, is_ascii_chars_encode_utf8};

verus! {

/// The key of a client in the registry.
pub type ClientID = usize;

/// What a client is.
pub struct ClientView {
    pub client_id: ClientID,
    pub address: Seq<char>,
    pub connection: ConnectionView,
}

/// A connected client: its identifier, the address of its peer and its
/// connection.
#[derive(Debug)]
pub struct Client {
    client_id: ClientID,
    address: String,
    connection: Connection,
}

impl View for Client {
    type V = ClientView;

    closed spec fn view(&self) -> ClientView {
        ClientView {
            client_id: self.client_id,
            address: self.address@,
            connection: self.connection@,
        }
    }
}

/// What one round of a client's read-dispatch-write cycle comes to.
pub enum QueryStep {
    /// A command was read and answered: send these bytes, then flush.
    Reply(Vec<u8>),
    /// No complete frame is buffered: read from the socket and hand over
    /// what came.
    WantRead,
    /// The peer closed the stream between two frames.
    Closed,
}

/// `QueryStep` in a contract.
pub enum QueryAnswer {
    Reply(Seq<u8>),
    WantRead,
    Closed,
    /// The frame or the command is malformed.
    ProtocolError,
    /// The stream ended inside a frame, or the buffer is full.
    IoError,
}

/// The answer of one round and the connection after it.
pub struct QueryOutcome {
    pub answer: QueryAnswer,
    pub connection: ConnectionView,
}

/// One round of the cycle on the connection `conn`: read a frame, make a
/// command of it, queue the command's answer and hand out all that is
/// queued. A frame that is no command is used up all the same.
pub open spec fn spec_query(conn: ConnectionView, received: Option<Seq<u8>>) -> QueryOutcome {
    match spec_read_protocol(conn.inbound, received) {
        ReadOutcome::Frame { frame, inbound } => match spec_from_frame(frame) {
            Ok(command) => QueryOutcome {
                answer: QueryAnswer::Reply(conn.outbound + spec_encode(response(command))),
                connection: ConnectionView { inbound, outbound: Seq::empty() },
            },
            Err(_) => QueryOutcome {
                answer: QueryAnswer::ProtocolError,
                connection: ConnectionView { inbound, outbound: conn.outbound },
            },
        },
        ReadOutcome::WantRead { inbound } => QueryOutcome {
            answer: QueryAnswer::WantRead,
            connection: ConnectionView { inbound, outbound: conn.outbound },
        },
        ReadOutcome::Closed => QueryOutcome { answer: QueryAnswer::Closed, connection: conn },
        ReadOutcome::BadFrame { inbound } => QueryOutcome {
            answer: QueryAnswer::ProtocolError,
            connection: ConnectionView { inbound, outbound: conn.outbound },
        },
        ReadOutcome::Reset => QueryOutcome { answer: QueryAnswer::IoError, connection: conn },
        ReadOutcome::Overflow => QueryOutcome { answer: QueryAnswer::IoError, connection: conn },
    }
}

/// Whether `r` is the answer `answer`.
pub open spec fn answers(r: Result<QueryStep, ConnectionError>, answer: QueryAnswer) -> bool {
    match answer {
        QueryAnswer::Reply(bytes) => r matches Ok(QueryStep::Reply(sent)) && sent@ == bytes,
        QueryAnswer::WantRead => r matches Ok(QueryStep::WantRead),
        QueryAnswer::Closed => r matches Ok(QueryStep::Closed),
        QueryAnswer::ProtocolError => r matches Err(ConnectionError::Protocol(_)),
        QueryAnswer::IoError => r matches Err(ConnectionError::Io(_)),
    }
}

/// The given bytes, as a contract speaks of them.
pub open spec fn received_view(received: Option<&[u8]>) -> Option<Seq<u8>> {
    match received {
        Some(data) => Some(data@),
        None => None,
    }
}

/// The connection's error for a frame that is no command: a protocol error
/// that reads as the error of reading the command does.
fn command_error(e: ParseError) -> (r: ConnectionError)
    ensures
        r matches ConnectionError::Protocol(text) && text@ == spec_parse_error_text(e),
{
    match e {
        ParseError::EndOfStream => ConnectionError::Protocol(
            String::from_str("protocol error; unexpected end of stream"),
        ),
        ParseError::Other(message) => ConnectionError::Protocol(message),
    }
}

impl Client {
    /// The client `client_id` at `address`, with a connection that has
    /// received and sent nothing.
    pub fn new(client_id: ClientID, address: String) -> (c: Client)
        ensures
            c@ == (ClientView {
                client_id,
                address: address@,
                connection: ConnectionView { inbound: Seq::empty(), outbound: Seq::empty() },
            }),
    {
        Client { client_id, address, connection: Connection::new() }
    }

    /// The client's identifier.
    pub fn client_id(&self) -> (id: ClientID)
        ensures
            id == self@.client_id,
    {
        self.client_id
    }

    /// The address of the client's peer.
    pub fn address(&self) -> (address: &str)
        ensures
            address@ == self@.address,
    {
        self.address.as_str()
    }

    /// One round of the client's read-dispatch-write cycle. Call it first
    /// with `None`; whenever the answer is `WantRead`, read once from the
    /// socket and call it again with the bytes that came, none if the stream
    /// has ended.
    pub fn read_from_query(&mut self, received: Option<&[u8]>) -> (r: Result<
        QueryStep,
        ConnectionError,
    >)
        ensures
            final(self)@.client_id == old(self)@.client_id,
            final(self)@.address == old(self)@.address,
            final(self)@.connection == spec_query(
                old(self)@.connection,
                received_view(received),
            ).connection,
            answers(r, spec_query(old(self)@.connection, received_view(received)).answer),
    {
        let protocol = match self.connection.read_protocol(received) {
            Ok(ReadStep::Frame(protocol)) => protocol,
            Ok(ReadStep::WantRead) => return Ok(QueryStep::WantRead),
            Ok(ReadStep::Closed) => return Ok(QueryStep::Closed),
            Err(e) => return Err(e),
        };
        let command = match Command::from_frame(protocol) {
            Ok(command) => command,
            Err(e) => return Err(command_error(e)),
        };
        command.apply(&mut self.connection);
        Ok(QueryStep::Reply(self.connection.flush()))
    }
}

/// A connection that has received and sent nothing.
pub open spec fn fresh_connection() -> ConnectionView {
    ConnectionView { inbound: Seq::empty(), outbound: Seq::empty() }
}

/// A whole command is answered at once. Let the frame of a command that
/// survives the wire arrive in one piece at a connection that holds
/// nothing: the round hands out exactly the encoding of the command's
/// answer, and nothing stays buffered in either direction. The encoding is
/// taken to be no longer than the most that a buffer can hold on any machine.
pub proof fn theorem_command_answered(frame: ProtocolView)
    requires
        survives_wire(frame),
        spec_encode(frame).len() <= isize::MAX,
        spec_from_frame(frame) is Ok,
    ensures
        spec_query(fresh_connection(), Some(spec_encode(frame))) == (QueryOutcome {
            answer: QueryAnswer::Reply(spec_encode(response(spec_from_frame(frame)->Ok_0))),
            connection: fresh_connection(),
        }),
{
    let e = spec_encode(frame);
    theorem_round_trip(frame);
    lemma_encode_nonempty(frame);
    assert(Seq::<u8>::empty() + e =~= e);
    assert(e.skip(e.len() as int) =~= Seq::<u8>::empty());
    assert(Seq::<u8>::empty() + spec_encode(response(spec_from_frame(frame)->Ok_0))
        =~= spec_encode(response(spec_from_frame(frame)->Ok_0)));
}

/// The bytes of `PING` without a message, as a client sends it.
pub open spec fn ping_bytes() -> Seq<u8> {
    seq![42u8, 49u8, 13u8, 10u8, 36u8, 52u8, 13u8, 10u8, 80u8, 73u8, 78u8, 71u8, 13u8, 10u8]
}

/// The bytes of the answer `PONG`.
pub open spec fn pong_bytes() -> Seq<u8> {
    seq![43u8, 80u8, 79u8, 78u8, 71u8, 13u8, 10u8]
}

/// `PING` and `PONG` on the wire are the bytes above.
pub proof fn lemma_ping_pong_bytes()
    ensures
        spec_encode(command_frame("PING"@, seq![])) == ping_bytes(),
        spec_encode(ProtocolView::Simple("PONG"@)) == pong_bytes(),
        survives_wire(command_frame("PING"@, seq![])),
{
    reveal_strlit("PING");
    reveal_strlit("PONG");
    let ping = encode_utf8("PING"@);
    let pong = encode_utf8("PONG"@);
    assert(is_ascii_chars("PING"@));
    assert(is_ascii_chars("PONG"@));
    is_ascii_chars_encode_utf8("PING"@);
    is_ascii_chars_encode_utf8("PONG"@);
    assert(ping =~= seq![80u8, 73u8, 78u8, 71u8]);
    assert(pong =~= seq![80u8, 79u8, 78u8, 71u8]);
    assert(spec_encode(ProtocolView::Simple("PONG"@)) =~= pong_bytes());
    let field = ProtocolView::Bulk(ping);
    assert(decimal_digits(4) =~= seq![52u8]);
    assert(decimal_digits(1) =~= seq![49u8]);
    assert(spec_encode(field) =~= seq![36u8, 52u8, 13u8, 10u8, 80u8, 73u8, 78u8, 71u8, 13u8, 10u8]);
    let fields = command_frame("PING"@, seq![])->Array_0;
    assert(fields =~= seq![field]);
    assert(fields.drop_first() =~= Seq::<ProtocolView>::empty());
    assert(spec_encode_items(fields.drop_first()) =~= Seq::<u8>::empty());
    assert(spec_encode_items(fields) =~= spec_encode(field));
    assert(spec_encode(command_frame("PING"@, seq![])) =~= ping_bytes());
    assert(all_survive_wire(fields.drop_first()));
    assert(survives_wire(field));
    assert(all_survive_wire(fields));
}

/// A fresh client that receives the bytes of `PING` answers with exactly
/// the bytes of `PONG` and keeps nothing buffered.
pub proof fn theorem_ping_pong()
    ensures
        spec_query(fresh_connection(), Some(ping_bytes())) == (QueryOutcome {
            answer: QueryAnswer::Reply(pong_bytes()),
            connection: fresh_connection(),
        }),
{
    lemma_ping_pong_bytes();
    theorem_command_semantics(Seq::empty());
    theorem_command_answered(command_frame("PING"@, seq![]));
}

/// The registry as a map: a client that was entered is found under its
/// identifier, one that was removed is not, and neither touches the others.
pub proof fn lemma_registry(clients: Map<ClientID, ClientView>, id: ClientID, client: ClientView)
    ensures
        clients.insert(id, client).contains_key(id),
        clients.insert(id, client)[id] == client,
        !clients.remove(id).contains_key(id),
        clients.remove(id).remove(id) == clients.remove(id),
        forall|other: ClientID|
            other != id && clients.contains_key(other) ==> #[trigger] clients.insert(
                id,
                client,
            ).contains_key(other) && clients.insert(id, client)[other] == clients[other]
                && clients.remove(id).contains_key(other) && clients.remove(id)[other]
                == clients[other],
{
    assert(clients.remove(id).remove(id) =~= clients.remove(id));
}

/// The registry of the connected clients, each under its identifier.
#[derive(Debug)]
pub struct ClientManager {
    clients: AHashMap<ClientID, Client>,
}

impl View for ClientManager {
    type V = Map<ClientID, ClientView>;

    closed spec fn view(&self) -> Map<ClientID, ClientView> {
        clients_of(self.clients).map_values(|client: Client| client@)
    }
}

impl Default for ClientManager {
    /// A registry without clients.
    fn default() -> (manager: ClientManager)
        ensures
            manager.wf(),
            manager@ == Map::<ClientID, ClientView>::empty(),
    {
        let manager = ClientManager { clients: map_new() };
        assert(clients_of(manager.clients) =~= Map::empty());
        assert(manager@ =~= Map::empty());
        manager
    }
}

impl ClientManager {
    /// Every client stands under its own identifier. Every registry that
    /// this module hands out is so, and each operation keeps it so.
    pub closed spec fn wf(&self) -> bool {
        forall|id: ClientID| #[trigger]
            clients_of(self.clients).contains_key(id) ==> clients_of(self.clients)[id]@.client_id
                == id
    }

    /// In a registry that is well formed, a client's identifier is its key.
    pub proof fn lemma_keyed_by_id(&self)
        requires
            self.wf(),
        ensures
            forall|id: ClientID| #[trigger]
                self@.contains_key(id) ==> self@[id].client_id == id,
    {
        assert forall|id: ClientID| #[trigger] self@.contains_key(id) implies self@[id].client_id
            == id by {
            assert(clients_of(self.clients).contains_key(id));
        }
    }

    /// The client under `client_id`, if there is one. That there is none is
    /// an ordinary answer.
    pub fn get_client(&self, client_id: ClientID) -> (r: Option<&Client>)
        ensures
            match r {
                Some(client) => self@.contains_key(client_id) && client@ == self@[client_id],
                None => !self@.contains_key(client_id),
            },
    {
        map_get(&self.clients, client_id)
    }

    /// Whether a client stands under `client_id`.
    pub fn contains(&self, client_id: ClientID) -> (r: bool)
        ensures
            r == self@.contains_key(client_id),
    {
        map_get(&self.clients, client_id).is_some()
    }

    /// Enters a new client under `fd`, with a connection that has received
    /// and sent nothing. Where a client stands under `fd` already the call is
    /// rejected: the answer is `false`, and that client stays as it is.
    pub fn create_client(&mut self, fd: ClientID, address: String) -> (created: bool)
        requires
            old(self).wf(),
        ensures
            final(self).wf(),
            created == !old(self)@.contains_key(fd),
            created ==> final(self)@ == old(self)@.insert(
                fd,
                ClientView {
                    client_id: fd,
                    address: address@,
                    connection: ConnectionView { inbound: Seq::empty(), outbound: Seq::empty() },
                },
            ),
            !created ==> final(self)@ == old(self)@,
    {
        if self.contains(fd) {
            return false;
        }
        let client = Client::new(fd, address);
        map_insert(&mut self.clients, fd, client);
        assert(final(self)@ =~= old(self)@.insert(fd, client@));
        true
    }

    /// Takes the client under `client_id` out of the registry. Where there
    /// is none, nothing happens.
    pub fn remove_client(&mut self, client_id: ClientID)
        requires
            old(self).wf(),
        ensures
            final(self).wf(),
            final(self)@ == old(self)@.remove(client_id),
    {
        map_remove(&mut self.clients, client_id);
        assert(final(self)@ =~= old(self)@.remove(client_id));
    }

    /// Takes every client out of the registry.
    pub fn clear(&mut self)
        ensures
            final(self).wf(),
            final(self)@ == Map::<ClientID, ClientView>::empty(),
    {
        map_clear(&mut self.clients);
        assert(clients_of(self.clients) =~= Map::empty());
        assert(final(self)@ =~= Map::empty());
    }

    /// Takes the client under `client_id` out of the registry and hands it
    /// over, if there is one.
    pub fn take_client(&mut self, client_id: ClientID) -> (r: Option<Client>)
        requires
            old(self).wf(),
        ensures
            final(self).wf(),
            final(self)@ == old(self)@.remove(client_id),
            match r {
                Some(client) => old(self)@.contains_key(client_id) && client@ == old(self)@[client_id]
                    && client@.client_id == client_id,
                None => !old(self)@.contains_key(client_id),
            },
    {
        let r = map_remove(&mut self.clients, client_id);
        assert(final(self)@ =~= old(self)@.remove(client_id));
        r
    }

    /// Puts a client that was taken out back under its identifier. No other
    /// client may stand there.
    pub fn put_client(&mut self, client: Client)
        requires
            old(self).wf(),
            !old(self)@.contains_key(client@.client_id),
        ensures
            final(self).wf(),
            final(self)@ == old(self)@.insert(client@.client_id, client@),
    {
        let client_id = client.client_id();
        map_insert(&mut self.clients, client_id, client);
        assert(final(self)@ =~= old(self)@.insert(client@.client_id, client@));
    }
}

} // verus!
