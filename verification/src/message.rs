//! What travels between a participant and the session.

use vstd::prelude::*;
use vstd::string::StringExecFns;
use crate::error::Error;
use crate::model::{CommandView, StateView};
use crate::state::SessionState;

verus! {

/// A command as a participant sends it.
#[derive(Debug)]
pub enum ClientMessage {
    /// Take this display name, or resume the inactive participant who has it.
    NameChange(String),
    /// Submit this estimate.
    SetPoints(String),
    /// Clear everybody's estimate; for the admin only.
    ResetPoints,
    /// Ask for the sender's own participant id.
    Whoami,
    /// Become the admin of a session that has none.
    ClaimSession,
    /// Remove the participant with this id; for the admin only.
    KickUser(String),
    /// Become a spectator, or stop being one.
    SetSpectator(bool),
    /// Keep the sender's place while the connection goes away.
    HoldConnection,
}

impl View for ClientMessage {
    type V = CommandView;

    open spec fn view(&self) -> CommandView {
        match self {
            ClientMessage::NameChange(name) => CommandView::NameChange(name@),
            ClientMessage::SetPoints(points) => CommandView::SetPoints(points@),
            ClientMessage::ResetPoints => CommandView::ResetPoints,
            ClientMessage::Whoami => CommandView::Whoami,
            ClientMessage::ClaimSession => CommandView::ClaimSession,
            ClientMessage::KickUser(id) => CommandView::KickUser(id@),
            ClientMessage::SetSpectator(is_spectator) => CommandView::SetSpectator(*is_spectator),
            ClientMessage::HoldConnection => CommandView::HoldConnection,
        }
    }
}

/// What the session tells a participant.
#[derive(Debug)]
pub enum ServerMessage {
    /// The session as this participant may see it.
    State(SessionState),
    /// The participant's own id, in answer to `Whoami`.
    Whoami(String),
    /// Why the participant was refused or is being disconnected.
    Error(String),
    /// Nothing to say; keeps the transport alive.
    KeepAlive,
}

/// A server message as the rules see it.
pub enum ServerMessageView {
    State(StateView),
    Whoami(Seq<char>),
    Error(Seq<char>),
    KeepAlive,
}

impl View for ServerMessage {
    type V = ServerMessageView;

    open spec fn view(&self) -> ServerMessageView {
        match self {
            ServerMessage::State(state) => ServerMessageView::State(state@),
            ServerMessage::Whoami(id) => ServerMessageView::Whoami(id@),
            ServerMessage::Error(text) => ServerMessageView::Error(text@),
            ServerMessage::KeepAlive => ServerMessageView::KeepAlive,
        }
    }
}

/// The seconds between two keep-alive messages on one connection.
pub const KEEP_ALIVE_SECS: u64 = 5;

/// The text that tells a participant that the admin removed it.
pub open spec fn kick_notice() -> Seq<char> {
    "You have been kicked from the session"@
}

/// The text that tells a client why it could not join.
pub open spec fn join_refusal_text(error: Error) -> Seq<char> {
    "Error joining session: "@ + error.name()
}

impl ServerMessage {
    /// The notice for a participant whose command failed with `error`.
    pub fn failure(error: Error) -> (message: ServerMessage)
        ensures
            message@ == ServerMessageView::Error(error.name()),
    {
        ServerMessage::Error(error.to_string())
    }

    /// The notice for a participant whom the admin removed.
    pub fn kicked() -> (message: ServerMessage)
        ensures
            message@ == ServerMessageView::Error(kick_notice()),
    {
        ServerMessage::Error(String::from_str("You have been kicked from the session"))
    }

    /// The notice for a client whose join was refused with `error`.
    pub fn join_refusal(error: Error) -> (message: ServerMessage)
        ensures
            message@ == ServerMessageView::Error(join_refusal_text(error)),
    {
        let mut text = String::from_str("Error joining session: ");
        text.append(error.as_str());
        ServerMessage::Error(text)
    }
}

/// How a connection's command loop ended when it ended in order.
#[derive(Debug, Clone, Copy, PartialEq, Eq, Structural)]
pub enum ConnectionResult {
    /// The transport closed; the participant leaves.
    Closed,
    /// The transport closed after the participant asked to be held.
    OnHold,
}

} // verus!
