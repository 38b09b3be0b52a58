//! Session engine of a real-time collaborative estimation tool.
//!
//! A session is one shared piece of group state: who takes part, what each
//! participant has submitted, and who may reveal, reset or remove. This crate
//! holds the rules of that state as verified functions over a mathematical
//! model; tasks, locks and transports live with the caller.
//!
//! - [`model`] is the mathematics: the state as a finite map and each rule as
//!   a function of it.
//! - [`state`] is the state in memory, [`SessionState`], with the rules proved
//!   against the model.
//! - [`connection`] cuts a connection's two loops into steps that never wait.
//! - [`session`] is the store that the connections of one session share.
//! - [`laws`] states what holds of every session, whatever happens to it.
//! - [`ident`], [`message`] and [`error`] are the identifiers, the messages
//!   and the refusals.

pub mod connection;
pub mod error;
pub mod ident;
pub mod laws;
pub mod message;
pub mod model;
pub mod session;
pub mod state;

pub use error::Error;
pub use ident::Counter;
pub use connection::{Announcement, Inbound, Phase, Reaction};
pub use message::{ClientMessage, ConnectionResult, ServerMessage};
pub use session::{may_open_session, Session};
pub use state::{SessionState, UserState};
