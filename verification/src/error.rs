//! The ways in which a join or a command can be refused.

use vstd::prelude::*;
use vstd::string::StringExecFns;

verus! {

/// Why an operation was refused. Every refusal ends the operation or the
/// connection that raised it; none touches the session's state.
#[derive(Debug, Clone, Copy, PartialEq, Eq, Structural, Hash)]
pub enum Error {
    /// The input was malformed, oversized, unrecognised or not allowed for its sender.
    InvalidMessage,
    /// The sender lacks the admin role that the command needs, or the role is taken.
    InsufficientPermissions,
    /// The requested display name belongs to a participant who is still connected.
    DuplicateName,
    /// The registry already runs as many sessions as it may.
    MaxSessionsExceeded,
    /// The session already has as many participants as it may.
    MaxUsersExceeded,
    /// The participant id names nobody in the session.
    UnknownUserId,
    /// The sender has been removed from the session by its admin.
    UserKicked,
    /// Something arrived on a held connection before the transport closed.
    ConnectionNotClosedAfterHold,
}

impl Error {
    /// The text by which the error is reported to a client: its variant's name.
    pub open spec fn name(self) -> Seq<char> {
        match self {
            Error::InvalidMessage => "InvalidMessage"@,
            Error::InsufficientPermissions => "InsufficientPermissions"@,
            Error::DuplicateName => "DuplicateName"@,
            Error::MaxSessionsExceeded => "MaxSessionsExceeded"@,
            Error::MaxUsersExceeded => "MaxUsersExceeded"@,
            Error::UnknownUserId => "UnknownUserId"@,
            Error::UserKicked => "UserKicked"@,
            Error::ConnectionNotClosedAfterHold => "ConnectionNotClosedAfterHold"@,
        }
    }

    /// The error's name as borrowed text.
    pub fn as_str(&self) -> (s: &'static str)
        ensures
            s@ == self.name(),
    {
        match self {
            Error::InvalidMessage => "InvalidMessage",
            Error::InsufficientPermissions => "InsufficientPermissions",
            Error::DuplicateName => "DuplicateName",
            Error::MaxSessionsExceeded => "MaxSessionsExceeded",
            Error::MaxUsersExceeded => "MaxUsersExceeded",
            Error::UnknownUserId => "UnknownUserId",
            Error::UserKicked => "UserKicked",
            Error::ConnectionNotClosedAfterHold => "ConnectionNotClosedAfterHold",
        }
    }

    /// The error's name as an owned string.
    pub fn to_string(&self) -> (s: String)
        ensures
            s@ == self.name(),
    {
        String::from_str(self.as_str())
    }
}

} // verus!
