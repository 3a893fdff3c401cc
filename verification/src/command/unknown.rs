//! The answer to a command that the server does not know.

use crate::connection::Connection;
use crate::protocol::{Protocol, ProtocolView};
use crate::wire::spec_encode;
use vstd::prelude::*;

verus! {

/// A command that the server does not know. Its view is the command's name.
#[derive(Debug)]
pub struct Unknown {
    command_name: String,
}

impl View for Unknown {
    type V = Seq<char>;

    closed spec fn view(&self) -> Seq<char> {
        self.command_name@
    }
}

/// The text of the reply to an unknown command of the name `name`.
pub open spec fn unknown_message(name: Seq<char>) -> Seq<char> {
    "unknown command '"@ + name + "'"@
}

impl Unknown {
    /// The unknown command of the name `key`.
    pub fn new(key: String) -> (u: Unknown)
        ensures
            u@ == key@,
    {
        Unknown { command_name: key }
    }

    /// The command's name.
    pub fn get_name(&self) -> (name: &str)
        ensures
            name@ == self@,
    {
        self.command_name.as_str()
    }

    /// Replies that the command is not known: one error frame, queued on
    /// `dst`.
    pub fn apply(self, dst: &mut Connection)
        ensures
            final(dst)@.inbound == old(dst)@.inbound,
            final(dst)@.outbound == old(dst)@.outbound + spec_encode(
                ProtocolView::Error(unknown_message(self@)),
            ),
    {
        let message = String::from_str("unknown command '");
        let message = message.concat(self.command_name.as_str());
        let message = message.concat("'");
        let response = Protocol::Error(message);
        dst.write_protocol(&response);
    }
}

} // verus!
