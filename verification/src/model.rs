//! The mathematical model of a session and the rules that change it.
//!
//! Everything here is specification: a session's state as a finite map from
//! participant id to participant, and each rule as a function from the state
//! before to the state after or to the reason for refusing. The executable
//! types elsewhere in the crate are proved to compute exactly these functions.

use vstd::prelude::*;
use crate::error::Error;

verus! {

/// The largest number of characters that a display name may have.
pub const MAX_NAME_LEN: usize = 32;

/// The largest number of characters that a submitted estimate may have.
pub const MAX_POINTS_LEN: usize = 8;

/// What stands in place of an estimate that a viewer may not see yet.
pub open spec fn hidden_points() -> Seq<char> {
    seq!['-', '1']
}

/// One participant, as the rules see it.
pub struct UserView {
    /// The display name, once one was chosen.
    pub name: Option<Seq<char>>,
    /// The submitted estimate; `None` until one is submitted.
    pub points: Option<Seq<char>>,
    /// Spectators watch without estimating.
    pub is_spectator: bool,
    /// Set for a participant who left on hold and may be taken over.
    pub is_inactive: bool,
    /// Set by the admin; the participant is about to be removed.
    pub kicked: bool,
}

/// A participant who has just joined.
pub open spec fn new_user() -> UserView {
    UserView { name: None, points: None, is_spectator: false, is_inactive: false, kicked: false }
}

/// The limits that every participant record obeys.
pub open spec fn user_wf(u: UserView) -> bool {
    &&& u.name matches Some(n) ==> n.len() <= MAX_NAME_LEN
    &&& u.points matches Some(p) ==> p.len() <= MAX_POINTS_LEN
    &&& u.is_spectator ==> u.points is None
}

/// A command as a participant sends it.
pub enum CommandView {
    NameChange(Seq<char>),
    SetPoints(Seq<char>),
    ResetPoints,
    Whoami,
    ClaimSession,
    KickUser(Seq<char>),
    SetSpectator(bool),
    HoldConnection,
}

/// The state of one session: its participants by id, and its admin.
pub struct StateView {
    pub users: Map<Seq<char>, UserView>,
    pub admin: Option<Seq<char>>,
}

impl StateView {
    /// The state of a session that nobody has joined.
    pub open spec fn empty() -> StateView {
        StateView { users: Map::empty(), admin: None }
    }

    /// Whether `id` names a participant.
    pub open spec fn has(self, id: Seq<char>) -> bool {
        self.users.dom().contains(id)
    }

    /// The display name of participant `id`, if there is such a participant and it has one.
    pub open spec fn name_of(self, id: Seq<char>) -> Option<Seq<char>> {
        if self.has(id) {
            self.users[id].name
        } else {
            None
        }
    }

    /// Whether `id` may be the admin: a participant who is not kicked.
    pub open spec fn may_lead(self, id: Seq<char>) -> bool {
        self.has(id) && !self.users[id].kicked
    }

    /// The admin, if there is one, is a participant who is not kicked.
    pub open spec fn admin_valid(self) -> bool {
        self.admin matches Some(a) ==> self.may_lead(a)
    }

    /// A consistent state: finitely many participants, each within its
    /// limits, no display name used twice, and an admin, if there is one, who
    /// is a participant and not kicked.
    pub open spec fn wf(self) -> bool {
        &&& self.users.dom().finite()
        &&& forall|id: Seq<char>| #[trigger] self.has(id) ==> user_wf(self.users[id])
        &&& forall|a: Seq<char>, b: Seq<char>|
            #![trigger self.name_of(a), self.name_of(b)]
            self.name_of(a) is Some && self.name_of(a) == self.name_of(b) ==> a == b
        &&& self.admin_valid()
    }

    /// The state with `users` for participants. The admin stays if it is
    /// among them and not kicked; otherwise the role lapses.
    pub open spec fn with_users(self, users: Map<Seq<char>, UserView>) -> StateView {
        StateView {
            users,
            admin: match self.admin {
                Some(a) => if users.dom().contains(a) && !users[a].kicked {
                    self.admin
                } else {
                    None
                },
                None => None,
            },
        }
    }

    /// The state with participant `id` set to `user`.
    pub open spec fn with_user(self, id: Seq<char>, user: UserView) -> StateView {
        StateView { users: self.users.insert(id, user), admin: self.admin }
    }

    /// Admission: a new participant under `id`, unless the session is full.
    pub open spec fn join(self, id: Seq<char>, max_users: nat) -> Result<StateView, Error> {
        if self.users.dom().len() >= max_users {
            Err(Error::MaxUsersExceeded)
        } else {
            Ok(self.with_user(id, new_user()))
        }
    }

    /// Departure. A participant who leaves on hold stays, marked inactive; any
    /// other departure removes the participant. Either way the admin role is
    /// given up if the participant had it.
    pub open spec fn leave(self, id: Seq<char>, on_hold: bool) -> StateView {
        StateView {
            users: if !on_hold {
                self.users.remove(id)
            } else if self.has(id) {
                self.users.insert(id, UserView { is_inactive: true, ..self.users[id] })
            } else {
                self.users
            },
            admin: if self.admin == Some(id) {
                None
            } else {
                self.admin
            },
        }
    }

    /// Whether `id` is a connected participant called `name`.
    pub open spec fn active_holder(self, id: Seq<char>, name: Seq<char>) -> bool {
        self.has(id) && self.users[id].name == Some(name) && !self.users[id].is_inactive
    }

    /// Whether `id` is an inactive participant called `name`.
    pub open spec fn stale_holder(self, id: Seq<char>, name: Seq<char>) -> bool {
        self.has(id) && self.users[id].name == Some(name) && self.users[id].is_inactive
    }

    /// `issuer` resumes the identity of the inactive participant `stale`: the
    /// record moves to the issuer's id, active again, and the stale id is gone.
    /// The admin role lapses if its holder is gone with the stale id, or is
    /// the issuer and the record it resumes is a kicked one.
    pub open spec fn take_over(self, issuer: Seq<char>, stale: Seq<char>) -> StateView {
        self.with_users(
            self.users.remove(stale).insert(
                issuer,
                UserView { is_inactive: false, ..self.users[stale] },
            ),
        )
    }

    /// The name change rule. A name that a connected participant holds is
    /// refused. A name that an inactive participant holds is taken over with
    /// that participant's record. Any other name is simply set.
    pub open spec fn rename(self, issuer: Seq<char>, name: Seq<char>) -> Result<StateView, Error> {
        if exists|id: Seq<char>| self.active_holder(id, name) {
            Err(Error::DuplicateName)
        } else if exists|id: Seq<char>| self.stale_holder(id, name) {
            Ok(self.take_over(issuer, choose|id: Seq<char>| self.stale_holder(id, name)))
        } else {
            Ok(self.with_user(issuer, UserView { name: Some(name), ..self.users[issuer] }))
        }
    }

    /// Every participant's estimate cleared.
    pub open spec fn without_points(self) -> StateView {
        StateView {
            users: Map::new(
                |id: Seq<char>| self.has(id),
                |id: Seq<char>| UserView { points: None, ..self.users[id] },
            ),
            admin: self.admin,
        }
    }

    /// Whether commands from `issuer` are heard at all: the issuer must be a
    /// participant, and not a kicked one.
    pub open spec fn hears(self, issuer: Seq<char>) -> Result<(), Error> {
        if !self.has(issuer) {
            Err(Error::UnknownUserId)
        } else if self.users[issuer].kicked {
            Err(Error::UserKicked)
        } else {
            Ok(())
        }
    }

    /// The command rules: the state after `issuer` sent `command`, or the
    /// reason for refusing it. A refused command changes nothing. An admin
    /// who kicks itself gives up the role with that.
    pub open spec fn apply(self, issuer: Seq<char>, command: CommandView) -> Result<
        StateView,
        Error,
    > {
        if self.hears(issuer) is Err {
            Err(self.hears(issuer)->Err_0)
        } else {
            let me = self.users[issuer];
            match command {
                CommandView::NameChange(name) => {
                    if name.len() <= MAX_NAME_LEN {
                        self.rename(issuer, name)
                    } else {
                        Err(Error::InvalidMessage)
                    }
                },
                CommandView::SetPoints(points) => {
                    if points.len() <= MAX_POINTS_LEN && !me.is_spectator {
                        Ok(self.with_user(issuer, UserView { points: Some(points), ..me }))
                    } else {
                        Err(Error::InvalidMessage)
                    }
                },
                CommandView::ResetPoints => {
                    if self.admin == Some(issuer) {
                        Ok(self.without_points())
                    } else {
                        Err(Error::InsufficientPermissions)
                    }
                },
                CommandView::Whoami => Ok(self),
                CommandView::ClaimSession => {
                    if self.admin is None {
                        Ok(StateView { users: self.users, admin: Some(issuer) })
                    } else {
                        Err(Error::InsufficientPermissions)
                    }
                },
                CommandView::KickUser(target) => {
                    if self.admin != Some(issuer) {
                        Err(Error::InsufficientPermissions)
                    } else if !self.has(target) {
                        Err(Error::UnknownUserId)
                    } else {
                        Ok(
                            self.with_users(
                                self.users.insert(
                                    target,
                                    UserView { kicked: true, ..self.users[target] },
                                ),
                            ),
                        )
                    }
                },
                CommandView::SetSpectator(is_spectator) => {
                    Ok(self.with_user(issuer, UserView { is_spectator, points: None, ..me }))
                },
                CommandView::HoldConnection => Ok(self),
            }
        }
    }

    /// Whether `id` is shown to viewers: kicked participants are not.
    pub open spec fn visible(self, id: Seq<char>) -> bool {
        self.has(id) && !self.users[id].kicked
    }

    /// Whether `id` is a visible participant who is expected to estimate and has not yet.
    pub open spec fn awaited(self, id: Seq<char>) -> bool {
        self.visible(id) && !self.users[id].is_spectator && self.users[id].points is None
    }

    /// Whether estimates are still hidden: somebody visible has yet to submit.
    pub open spec fn masking(self) -> bool {
        exists|id: Seq<char>| self.awaited(id)
    }

    /// Participant `id` as `viewer` may see it.
    pub open spec fn shown(self, viewer: Seq<char>, id: Seq<char>) -> UserView {
        let user = self.users[id];
        if self.masking() && id != viewer && user.points is Some {
            UserView { points: Some(hidden_points()), ..user }
        } else {
            user
        }
    }

    /// The view that `viewer` is allowed: no kicked participants, and the
    /// others' estimates hidden while somebody has yet to submit. A viewer who
    /// is absent or kicked gets no view but the reason to disconnect.
    pub open spec fn project(self, viewer: Seq<char>) -> Result<StateView, Error> {
        if self.hears(viewer) is Err {
            Err(self.hears(viewer)->Err_0)
        } else {
            Ok(
                StateView {
                    users: Map::new(
                        |id: Seq<char>| self.visible(id),
                        |id: Seq<char>| self.shown(viewer, id),
                    ),
                    admin: self.admin,
                },
            )
        }
    }
}

/// A consistent state stays consistent under any admin who may be it.
pub proof fn lemma_wf_admin(s: StateView, admin: Option<Seq<char>>)
    requires
        s.wf(),
        admin matches Some(a) ==> s.may_lead(a),
    ensures
        (StateView { users: s.users, admin }).wf(),
{
    lemma_wf_carried(s, StateView { users: s.users, admin });
}

/// A state is consistent if its admin is valid and each of its participants
/// is within its limits and has no name but the one that the same id has in
/// a consistent state.
pub proof fn lemma_wf_carried(s: StateView, t: StateView)
    requires
        s.wf(),
        t.users.dom().finite(),
        t.admin_valid(),
        forall|id: Seq<char>| #[trigger]
            t.has(id) ==> user_wf(t.users[id]) && (t.users[id].name is Some ==> s.name_of(id)
                == t.users[id].name),
    ensures
        t.wf(),
{
    assert forall|a: Seq<char>, b: Seq<char>|
        t.name_of(a) is Some && t.name_of(a) == t.name_of(b) implies a == b by {
        assert(t.has(a) && t.has(b));
        assert(s.name_of(a) == t.name_of(a));
        assert(s.name_of(b) == t.name_of(b));
    }
}

/// A new participant keeps the state consistent.
pub proof fn lemma_join_wf(s: StateView, id: Seq<char>, max_users: nat)
    requires
        s.wf(),
    ensures
        s.join(id, max_users) matches Ok(t) ==> t.wf(),
        s.with_user(id, new_user()).wf(),
{
    let t = s.with_user(id, new_user());
    lemma_wf_carried(s, t);
}

/// A departure keeps the state consistent.
pub proof fn lemma_leave_wf(s: StateView, id: Seq<char>, on_hold: bool)
    requires
        s.wf(),
    ensures
        s.leave(id, on_hold).wf(),
{
    let t = s.leave(id, on_hold);
    lemma_wf_carried(s, t);
}

/// In a consistent state at most one participant holds a given name.
pub proof fn lemma_holder_unique(s: StateView, a: Seq<char>, b: Seq<char>, name: Seq<char>)
    requires
        s.wf(),
        s.has(a) && s.users[a].name == Some(name),
        s.has(b) && s.users[b].name == Some(name),
    ensures
        a == b,
{
    assert(s.name_of(a) == Some(name));
    assert(s.name_of(b) == Some(name));
}

/// A name change keeps the state consistent.
pub proof fn lemma_rename_wf(s: StateView, issuer: Seq<char>, name: Seq<char>)
    requires
        s.wf(),
        s.has(issuer),
        name.len() <= MAX_NAME_LEN,
    ensures
        s.rename(issuer, name) matches Ok(t) ==> t.wf(),
{
    if s.rename(issuer, name) is Ok {
        let t = s.rename(issuer, name)->Ok_0;
        let taken = exists|id: Seq<char>| s.stale_holder(id, name);
        let stale = choose|id: Seq<char>| s.stale_holder(id, name);
        assert forall|a: Seq<char>| #[trigger] t.has(a) implies user_wf(t.users[a]) by {
            assert(s.has(a) || a == issuer);
            assert(taken ==> s.has(stale));
        }
        // Who is called `name` now is the issuer alone; the others are called as before.
        assert forall|a: Seq<char>, b: Seq<char>|
            t.name_of(a) is Some && t.name_of(a) == t.name_of(b) implies a == b by {
            if a != issuer {
                assert(s.name_of(a) == t.name_of(a));
                assert(!s.active_holder(a, name));
                assert(taken ==> s.name_of(stale) == Some(name));
                assert(!taken ==> !s.stale_holder(a, name));
            }
            if b != issuer {
                assert(s.name_of(b) == t.name_of(b));
                assert(!s.active_holder(b, name));
                assert(taken ==> s.name_of(stale) == Some(name));
                assert(!taken ==> !s.stale_holder(b, name));
            }
        }
    }
}

/// Clearing all estimates keeps the state consistent.
pub proof fn lemma_without_points_wf(s: StateView)
    requires
        s.wf(),
    ensures
        s.without_points().wf(),
        s.without_points().users.dom() == s.users.dom(),
{
    let t = s.without_points();
    assert(t.users.dom() =~= s.users.dom());
    lemma_wf_carried(s, t);
}

/// Every accepted command keeps the state consistent.
pub proof fn lemma_apply_wf(s: StateView, issuer: Seq<char>, command: CommandView)
    requires
        s.wf(),
    ensures
        s.apply(issuer, command) matches Ok(t) ==> t.wf(),
{
    if s.apply(issuer, command) is Ok {
        let t = s.apply(issuer, command)->Ok_0;
        assert(s.has(issuer));
        match command {
            CommandView::NameChange(name) => {
                lemma_rename_wf(s, issuer, name);
            },
            CommandView::ResetPoints => {
                lemma_without_points_wf(s);
            },
            CommandView::Whoami | CommandView::HoldConnection => {},
            _ => {
                lemma_wf_carried(s, t);
            },
        }
    }
}

/// A viewer's view is itself a consistent state.
pub proof fn lemma_project_wf(s: StateView, viewer: Seq<char>)
    requires
        s.wf(),
    ensures
        s.project(viewer) matches Ok(t) ==> t.wf(),
{
    if s.project(viewer) is Ok {
        let t = s.project(viewer)->Ok_0;
        assert(t.users.dom().subset_of(s.users.dom()));
        vstd::set_lib::lemma_len_subset(t.users.dom(), s.users.dom());
        lemma_wf_carried(s, t);
    }
}

} // verus!
