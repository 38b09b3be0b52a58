//! One connection's share of the work, as steps without waiting.
//!
//! A connection runs two loops side by side. The command loop waits for the
//! next thing from the transport and hands it to [`SessionState::receive`],
//! which changes the state and says what to send and whether to go on. The
//! announce loop waits for the state to change and asks
//! [`SessionState::announce`] what this viewer gets to see. The waiting and
//! the sending are the caller's; every decision is made here.

use vstd::prelude::*;
use crate::error::Error;
use crate::message::{
    kick_notice, ClientMessage, ConnectionResult, ServerMessage, ServerMessageView,
};
use crate::model::{CommandView, StateView};
use crate::state::SessionState;

verus! {

/// Where a connection's command loop stands.
#[derive(Debug, Clone, Copy, PartialEq, Eq, Structural)]
pub enum Phase {
    /// Commands are heard.
    Listening,
    /// The participant asked to be held; only the transport's closing is expected.
    Holding,
}

/// What the transport delivered.
#[derive(Debug)]
pub enum Inbound {
    /// A command.
    Message(ClientMessage),
    /// Something that is no command: malformed, oversized or unrecognised.
    Malformed,
    /// The transport closed.
    Closed,
}

/// What the transport delivered, as the rules see it.
pub enum InboundView {
    Message(CommandView),
    Malformed,
    Closed,
}

impl View for Inbound {
    type V = InboundView;

    open spec fn view(&self) -> InboundView {
        match self {
            Inbound::Message(command) => InboundView::Message(command@),
            Inbound::Malformed => InboundView::Malformed,
            Inbound::Closed => InboundView::Closed,
        }
    }
}

/// What the command loop does after one delivery.
#[derive(Debug)]
pub enum Reaction {
    /// Send `reply`, if there is one, and wait for the next delivery in `phase`.
    Proceed { phase: Phase, reply: Option<ServerMessage> },
    /// Send `notice`, if there is one, and end the loop with `outcome`.
    Done { outcome: Result<ConnectionResult, Error>, notice: Option<ServerMessage> },
}

/// A reaction as the rules see it.
pub enum ReactionView {
    Proceed { phase: Phase, reply: Option<ServerMessageView> },
    Done { outcome: Result<ConnectionResult, Error>, notice: Option<ServerMessageView> },
}

/// The view of an optional server message.
pub open spec fn message_view(message: Option<ServerMessage>) -> Option<ServerMessageView> {
    match message {
        Some(m) => Some(m@),
        None => None,
    }
}

impl View for Reaction {
    type V = ReactionView;

    open spec fn view(&self) -> ReactionView {
        match self {
            Reaction::Proceed { phase, reply } => ReactionView::Proceed {
                phase: *phase,
                reply: message_view(*reply),
            },
            Reaction::Done { outcome, notice } => ReactionView::Done {
                outcome: *outcome,
                notice: message_view(*notice),
            },
        }
    }
}

/// The end of a command loop on `error`, which the participant is told.
pub open spec fn failed(error: Error) -> ReactionView {
    ReactionView::Done {
        outcome: Err(error),
        notice: Some(ServerMessageView::Error(error.name())),
    }
}

/// The end of a command loop on `error`, of which nothing is sent: the
/// announce loop tells a kicked participant, and nobody listens for an
/// absent one.
pub open spec fn dropped(error: Error) -> ReactionView {
    ReactionView::Done { outcome: Err(error), notice: None }
}

/// To go on listening with nothing to send.
pub open spec fn listening() -> ReactionView {
    ReactionView::Proceed { phase: Phase::Listening, reply: None }
}

impl StateView {
    /// The command loop's rule: the state after one delivery for the
    /// participant `issuer`, and what the loop does next.
    ///
    /// A held connection expects only to be closed. A listening one ends in
    /// order when the transport closes; otherwise the issuer must be a
    /// participant who is not kicked, and then the delivery is acted on: a
    /// command changes the state or ends the loop with its error, `Whoami` is
    /// answered, `HoldConnection` begins the hold.
    pub open spec fn react(self, issuer: Seq<char>, phase: Phase, inbound: InboundView) -> (
        StateView,
        ReactionView,
    ) {
        match phase {
            Phase::Holding => match inbound {
                InboundView::Closed => (
                    self,
                    ReactionView::Done { outcome: Ok(ConnectionResult::OnHold), notice: None },
                ),
                _ => (self, failed(Error::ConnectionNotClosedAfterHold)),
            },
            Phase::Listening => match inbound {
                InboundView::Closed => (
                    self,
                    ReactionView::Done { outcome: Ok(ConnectionResult::Closed), notice: None },
                ),
                InboundView::Malformed => match self.hears(issuer) {
                    Err(e) => (self, dropped(e)),
                    Ok(_) => (self, failed(Error::InvalidMessage)),
                },
                InboundView::Message(command) => match self.hears(issuer) {
                    Err(e) => (self, dropped(e)),
                    Ok(_) => match command {
                        CommandView::Whoami => (
                            self,
                            ReactionView::Proceed {
                                phase: Phase::Listening,
                                reply: Some(ServerMessageView::Whoami(issuer)),
                            },
                        ),
                        CommandView::HoldConnection => (
                            self,
                            ReactionView::Proceed { phase: Phase::Holding, reply: None },
                        ),
                        _ => match self.apply(issuer, command) {
                            Ok(next) => (next, listening()),
                            Err(e) => (self, failed(e)),
                        },
                    },
                },
            },
        }
    }

    /// The announce loop's rule: what `viewer` is sent after a change of the
    /// state, and whether the loop goes on. A viewer who is kicked or absent
    /// is sent a last notice.
    pub open spec fn announce(self, viewer: Seq<char>) -> (ServerMessageView, bool) {
        match self.project(viewer) {
            Ok(view) => (ServerMessageView::State(view), true),
            Err(e) => (
                ServerMessageView::Error(
                    if e == Error::UserKicked {
                        kick_notice()
                    } else {
                        e.name()
                    },
                ),
                false,
            ),
        }
    }
}

/// What the announce loop sends, and whether it was the last message.
#[derive(Debug)]
pub struct Announcement {
    /// The message for the viewer.
    pub message: ServerMessage,
    /// Whether the loop ends after sending it.
    pub last: bool,
}

impl SessionState {
    /// Acts on one delivery for the participant `issuer` whose command loop
    /// is in `phase`.
    pub fn receive(&mut self, issuer: &str, phase: Phase, inbound: &Inbound) -> (reaction: Reaction)
        ensures
            (final(self)@, reaction@) == old(self)@.react(issuer@, phase, inbound@),
    {
        match phase {
            Phase::Holding => match inbound {
                Inbound::Closed => Reaction::Done {
                    outcome: Ok(ConnectionResult::OnHold),
                    notice: None,
                },
                _ => Self::fail(Error::ConnectionNotClosedAfterHold),
            },
            Phase::Listening => match inbound {
                Inbound::Closed => Reaction::Done {
                    outcome: Ok(ConnectionResult::Closed),
                    notice: None,
                },
                Inbound::Malformed => match self.hear(issuer) {
                    Err(e) => Reaction::Done { outcome: Err(e), notice: None },
                    Ok(()) => Self::fail(Error::InvalidMessage),
                },
                Inbound::Message(command) => match self.hear(issuer) {
                    Err(e) => Reaction::Done { outcome: Err(e), notice: None },
                    Ok(()) => match command {
                        ClientMessage::Whoami => Reaction::Proceed {
                            phase: Phase::Listening,
                            reply: Some(ServerMessage::Whoami(issuer.to_owned())),
                        },
                        ClientMessage::HoldConnection => Reaction::Proceed {
                            phase: Phase::Holding,
                            reply: None,
                        },
                        _ => match self.apply(issuer, command) {
                            Ok(()) => Reaction::Proceed { phase: Phase::Listening, reply: None },
                            Err(e) => Self::fail(e),
                        },
                    },
                },
            },
        }
    }

    /// The end of a command loop on `error`, which the participant is told.
    fn fail(error: Error) -> (reaction: Reaction)
        ensures
            reaction@ == failed(error),
    {
        Reaction::Done { outcome: Err(error), notice: Some(ServerMessage::failure(error)) }
    }

    /// Whether commands from `issuer` are heard at all.
    pub fn hear(&self, issuer: &str) -> (r: Result<(), Error>)
        ensures
            r == self@.hears(issuer@),
    {
        match self.get(issuer) {
            None => Err(Error::UnknownUserId),
            Some(user) => if user.kicked {
                Err(Error::UserKicked)
            } else {
                Ok(())
            },
        }
    }

    /// What `viewer` is sent after a change of the state, and whether that
    /// ends its announce loop.
    pub fn announce(&self, viewer: &str) -> (sent: Announcement)
        ensures
            (sent.message@, !sent.last) == self@.announce(viewer@),
    {
        match self.project(viewer) {
            Ok(view) => Announcement { message: ServerMessage::State(view), last: false },
            Err(e) => {
                let message = match e {
                    Error::UserKicked => ServerMessage::kicked(),
                    _ => ServerMessage::failure(e),
                };
                Announcement { message, last: true }
            },
        }
    }
}

} // verus!
