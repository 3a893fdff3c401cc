//! Network-facing core of an in-memory key-value server that speaks a
//! RESP-style wire protocol, without the sockets: the frame codec, the
//! buffering of one connection, the commands, the registry of clients and
//! the decisions of the event loop. A program around it waits on the
//! sockets, hands over the bytes that came and sends the bytes it is given.
//!
//! The wire format is stated once, over plain sequences of bytes, in `wire`;
//! `protocol` and `connection` hold the code that is proved to follow it, and
//! `wire_laws` what follows from it: that decoding undoes encoding and that a
//! frame which has arrived in part is only ever called incomplete.
//!
//! Three outside crates do work that is believed and not proved: `bytes`
//! (see `buffer`), `atoi` (see `decimal`) and `ahash` (see `registry`), and so
//! do two functions of the standard library (see `text`).

pub mod ae;
pub mod buffer;
pub mod client;
pub mod command;
pub mod connection;
pub mod convert;
pub mod cursor;
pub mod decimal;
pub mod display;
pub mod error;
pub mod eventloop;
pub mod lifecycle;
pub mod parse;
pub mod protocol;
pub mod protocol_eq;
pub mod registry;
pub mod server;
pub mod text;
pub mod wire;
pub mod wire_laws;
