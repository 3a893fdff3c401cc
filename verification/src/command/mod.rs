//! The commands that the server knows, and how a frame becomes one.

pub mod ping;
pub mod unknown;

use crate::command::ping::{ping_response, spec_parse_ping, Ping};
use crate::command::unknown::{unknown_message, Unknown};
use crate::connection::Connection;
use crate::parse::{field_string, ParseError, ParseFault, Parser};
use crate::protocol::{Protocol, ProtocolView};
use crate::text::{ascii_lowercase, lowercase, same_text, to_lowercase};
use crate::wire::spec_encode;
use vstd::prelude::*;
use vstd::utf8::{encode_utf8, encode_utf8_decode_utf8, encode_utf8_valid_utf8, is_ascii_chars};

verus! {

/// A command of a client.
#[derive(Debug)]
pub enum Command {
    Ping(Ping),
    Unknown(Unknown),
}

/// What a command says.
pub enum CommandView {
    /// `PING`, with the message to give back if there is one.
    Ping(Option<Seq<u8>>),
    /// A command of this name, which the server does not know.
    Unknown(Seq<char>),
}

impl View for Command {
    type V = CommandView;

    open spec fn view(&self) -> CommandView {
        match self {
            Command::Ping(cmd) => CommandView::Ping(cmd@),
            Command::Unknown(cmd) => CommandView::Unknown(cmd@),
        }
    }
}

/// The command of the name `name`, which is already in lower case, with the
/// fields `fields` after it. A name that is not known gives the unknown
/// command, whatever follows; a known command with fields left over is an
/// error.
pub open spec fn spec_command(name: Seq<char>, fields: Seq<ProtocolView>) -> Result<
    CommandView,
    ParseFault,
> {
    if name == "ping"@ {
        match spec_parse_ping(fields) {
            Err(fault) => Err(fault),
            Ok(msg) => if fields.len() > 1 {
                Err(ParseFault::Other)
            } else {
                Ok(CommandView::Ping(msg))
            },
        }
    } else {
        Ok(CommandView::Unknown(name))
    }
}

/// The command that a frame carries: the frame has to be an array, its first
/// field the command's name as text, in any case of letters.
pub open spec fn spec_from_frame(frame: ProtocolView) -> Result<CommandView, ParseFault> {
    match frame {
        ProtocolView::Array(fields) => if fields.len() == 0 {
            Err(ParseFault::EndOfStream)
        } else {
            match field_string(fields[0]) {
                None => Err(ParseFault::Other),
                Some(verb) => spec_command(lowercase(verb), fields.drop_first()),
            }
        },
        _ => Err(ParseFault::Other),
    }
}

/// The one frame that answers a command.
pub open spec fn response(command: CommandView) -> ProtocolView {
    match command {
        CommandView::Ping(msg) => ping_response(msg),
        CommandView::Unknown(name) => ProtocolView::Error(unknown_message(name)),
    }
}

/// A command that the server knows is rejected when fields are left over
/// after it has taken its own; a command that it does not know never is.
pub proof fn lemma_leftover_fields(name: Seq<char>, fields: Seq<ProtocolView>)
    ensures
        name == "ping"@ && fields.len() > 1 ==> spec_command(name, fields) is Err,
        name != "ping"@ ==> spec_command(name, fields) == Ok::<CommandView, ParseFault>(
            CommandView::Unknown(name),
        ),
{
}

/// The frame of a command whose verb and arguments are bulk strings.
pub open spec fn command_frame(verb: Seq<char>, arguments: Seq<Seq<u8>>) -> ProtocolView {
    ProtocolView::Array(
        seq![ProtocolView::Bulk(encode_utf8(verb))] + Seq::new(
            arguments.len(),
            |i: int| ProtocolView::Bulk(arguments[i]),
        ),
    )
}

/// `PING` in capitals is the command `ping`, and `FOO` is `foo`.
pub proof fn lemma_verbs_in_capitals()
    ensures
        lowercase("PING"@) == "ping"@,
        lowercase("FOO"@) == "foo"@,
        "foo"@ != "ping"@,
{
    reveal_strlit("PING");
    reveal_strlit("ping");
    reveal_strlit("FOO");
    reveal_strlit("foo");
    assert(is_ascii_chars("PING"@));
    assert(is_ascii_chars("FOO"@));
    assert(ascii_lowercase("PING"@) =~= "ping"@);
    assert(ascii_lowercase("FOO"@) =~= "foo"@);
    assert("foo"@.len() != "ping"@.len());
}

/// A command whose verb is a bulk string: the verb is read back as it was
/// written, and its lowercase form decides the command.
pub proof fn lemma_command_frame(verb: Seq<char>, arguments: Seq<Seq<u8>>)
    ensures
        spec_from_frame(command_frame(verb, arguments)) == spec_command(
            lowercase(verb),
            command_frame(verb, arguments)->Array_0.drop_first(),
        ),
        command_frame(verb, arguments)->Array_0.drop_first() == Seq::new(
            arguments.len(),
            |i: int| ProtocolView::Bulk(arguments[i]),
        ),
{
    encode_utf8_valid_utf8(verb);
    encode_utf8_decode_utf8(verb);
    let fields = command_frame(verb, arguments)->Array_0;
    assert(fields.drop_first() =~= Seq::new(
        arguments.len(),
        |i: int| ProtocolView::Bulk(arguments[i]),
    ));
}

/// What the three commands of every client come to: `PING` alone is
/// answered with the simple string `PONG`, `PING` with a message with the
/// message as a bulk string, and `FOO`, which the server does not know, with
/// the error `unknown command 'foo'`.
pub proof fn theorem_command_semantics(message: Seq<u8>)
    ensures
        spec_from_frame(command_frame("PING"@, seq![])) == Ok::<CommandView, ParseFault>(
            CommandView::Ping(None),
        ),
        response(CommandView::Ping(None)) == ProtocolView::Simple("PONG"@),
        spec_from_frame(command_frame("PING"@, seq![message])) == Ok::<CommandView, ParseFault>(
            CommandView::Ping(Some(message)),
        ),
        response(CommandView::Ping(Some(message))) == ProtocolView::Bulk(message),
        spec_from_frame(command_frame("FOO"@, seq![])) == Ok::<CommandView, ParseFault>(
            CommandView::Unknown("foo"@),
        ),
        response(CommandView::Unknown("foo"@)) == ProtocolView::Error(
            "unknown command '"@ + "foo"@ + "'"@,
        ),
        spec_from_frame(command_frame("PING"@, seq![message, message])) is Err,
{
    lemma_verbs_in_capitals();
    lemma_command_frame("PING"@, seq![]);
    lemma_command_frame("PING"@, seq![message]);
    lemma_command_frame("PING"@, seq![message, message]);
    lemma_command_frame("FOO"@, seq![]);
}

impl Command {
    /// Reads a command from a received frame.
    pub fn from_frame(protocol: Protocol) -> (r: Result<Command, ParseError>)
        ensures
            match spec_from_frame(protocol@) {
                Ok(command) => r is Ok && r->Ok_0@ == command,
                Err(fault) => r is Err && r->Err_0@ == fault,
            },
    {
        let mut parse = match Parser::new(protocol) {
            Ok(parse) => parse,
            Err(e) => return Err(e),
        };
        let verb = match parse.next_string() {
            Ok(verb) => verb,
            Err(e) => return Err(e),
        };
        let command_name = to_lowercase(verb.as_str());
        Self::from_name(command_name, &mut parse)
    }

    /// The command of the name `command_name`, which is already in lower
    /// case; `parse` holds the fields after the name.
    pub fn from_name(command_name: String, parse: &mut Parser) -> (r: Result<Command, ParseError>)
        ensures
            match spec_command(command_name@, old(parse)@) {
                Ok(command) => r is Ok && r->Ok_0@ == command,
                Err(fault) => r is Err && r->Err_0@ == fault,
            },
    {
        if same_text(command_name.as_str(), "ping") {
            let ping = match Ping::parse_frames(parse) {
                Ok(ping) => ping,
                Err(e) => return Err(e),
            };
            match parse.finish() {
                Ok(()) => Ok(Command::Ping(ping)),
                Err(e) => Err(e),
            }
        } else {
            Ok(Command::Unknown(Unknown::new(command_name)))
        }
    }

    /// Carries the command out: exactly one frame, its answer, is queued on
    /// `dst`.
    pub fn apply(self, dst: &mut Connection)
        ensures
            final(dst)@.inbound == old(dst)@.inbound,
            final(dst)@.outbound == old(dst)@.outbound + spec_encode(response(self@)),
    {
        match self {
            Command::Ping(cmd) => cmd.apply(dst),
            Command::Unknown(cmd) => cmd.apply(dst),
        }
    }

    /// The command's name.
    pub fn get_name(&self) -> (name: &str)
        ensures
            name@ == match self@ {
                CommandView::Ping(_) => "ping"@,
                CommandView::Unknown(name) => name,
            },
    {
        match self {
            Command::Ping(_) => "ping",
            Command::Unknown(cmd) => cmd.get_name(),
        }
    }
}

} // verus!
