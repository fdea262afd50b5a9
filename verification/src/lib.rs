//! A command registry and dispatch protocol for user interfaces that call
//! named backend operations over a channel shaped like HTTP, and get JSON
//! back.
//!
//! A request names a command by its address. [`address`] turns the address
//! into the canonical command name, [`registry`] holds the commands,
//! [`dispatch`] finds the command and starts its handler, and [`exchange`]
//! takes a request from its arrival to its one response, built as
//! [`transport`] lays down. Nothing here performs I/O or starts a thread: the
//! caller delivers requests, runs futures and sends responses.
//!
//! JSON values are those of `serde_json` ([`json`]), deferred results those
//! of `futures` ([`deferred`]), and percent-decoding is that of
//! `percent-encoding` ([`percent`]).
//!
//! Beside the protocol stand the names under which functions and methods
//! become commands ([`naming`]) and the reference pages of the commands of a
//! program ([`docs`]).
pub mod address;
pub mod deferred;
pub mod dispatch;
pub mod docs;
pub mod encoding;
pub mod exchange;
pub mod json;
pub mod naming;
pub mod percent;
pub mod registry;
pub mod text;
pub mod transport;

pub use address::{join_address, normalize, resolve, strip_leading_slash, trim_slashes};
pub use dispatch::{dispatch, handle_command, immediate, typed, typed_later, Outcome};
pub use exchange::{accept, step, Action, Event, Phase};
pub use registry::{Command, Registry};
pub use transport::{
    arguments, complete, envelope, json_response, method_not_allowed, preflight, route, Request,
    Response, Route,
};
