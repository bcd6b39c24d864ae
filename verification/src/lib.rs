//! Core of a line-oriented chat relay for the classical IRC protocol:
//! bounded message buffers, the registry of clients, nicks, users and
//! channels, the command dispatcher, and the task of a connection as a
//! step function.
//!
//! The registry is one value. Its consistency (`registry::Core::wf`) is a
//! precondition and a postcondition of every operation, so it holds
//! wherever the registry can be observed; callers that share it between
//! tasks put it behind a lock of their own. Sockets never appear here:
//! `connection::ClientFuture::poll` takes what came of the last socket
//! operation and says which one to perform next.
//!
//! Contracts are stated over mathematical values: `model::CoreView` for the
//! registry, with the state changes of the protocol as functions on it
//! (`dispatch`, `connection`), and laws about them (`laws`, `consistency`).
//!
//! Taken on trust: that `String::push` appends a character, that lossy
//! UTF-8 decoding is a function of the bytes (`text`), and the wake handle
//! of the task runtime, of which nothing is claimed (`client`).

pub mod text;
pub mod buffer;
pub mod error;
pub mod irc;
pub mod parser;
pub mod client;
pub mod model;
pub mod laws;
pub mod registry;
pub mod audit;
pub mod lines;
pub mod command;
pub mod dispatch;
pub mod connection;
pub mod consistency;
