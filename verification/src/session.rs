//! A session: the state store that its connections share.
//!
//! A [`Session`] owns the current state, numbers the participants, enforces
//! the capacity and counts the committed changes, so that whoever publishes
//! the state can tell whether there is anything new to publish. It is meant
//! to sit behind one exclusive lock: each method is one whole mutation that
//! either commits or leaves everything as it was.

use vstd::prelude::*;
use crate::connection::{Announcement, Inbound, InboundView, Phase, Reaction, ReactionView};
use crate::connection::listening;
use crate::error::Error;
use crate::ident::{decimal, decimal_value, lemma_decimal_value, Counter};
use crate::message::ConnectionResult;
use crate::model::{lemma_apply_wf, lemma_join_wf, lemma_leave_wf, CommandView, StateView};
use crate::state::SessionState;

verus! {

/// Whether `id` is the identifier of a number that was handed out before the
/// counter reached `next`.
pub open spec fn issued(id: Seq<char>, next: nat) -> bool {
    let number = decimal_value(id);
    1 <= number < next && decimal(number) == id
}

/// The count of committed changes after one more, which starts over at the
/// end of its range.
pub open spec fn bump(version: nat) -> nat {
    if version >= u64::MAX {
        0
    } else {
        version + 1
    }
}

/// Whether the outcome of a command loop asks for the participant to be held.
pub open spec fn holds(outcome: Result<ConnectionResult, Error>) -> bool {
    outcome == Ok::<ConnectionResult, Error>(ConnectionResult::OnHold)
}

/// A session, as the rules see it.
pub struct SessionView {
    /// The name under which the registry knows the session.
    pub session_id: Seq<char>,
    /// The most participants that the session admits.
    pub max_users: nat,
    /// The number that the next participant gets.
    pub next_user_id: nat,
    /// The count of committed changes.
    pub version: nat,
    /// The current state.
    pub state: StateView,
}

impl SessionView {
    /// A session that nobody has joined.
    pub open spec fn new(session_id: Seq<char>, max_users: nat) -> SessionView {
        SessionView { session_id, max_users, next_user_id: 1, version: 0, state: StateView::empty() }
    }

    /// What holds of every session: a consistent state within the capacity,
    /// and only identifiers that the counter has handed out.
    pub open spec fn wf(self) -> bool {
        &&& self.next_user_id >= 1
        &&& self.version <= u64::MAX
        &&& self.state.wf()
        &&& self.state.users.dom().len() <= self.max_users
        &&& forall|id: Seq<char>| #[trigger] self.state.has(id) ==> issued(id, self.next_user_id)
    }

    /// The session with `state` in place of its state.
    pub open spec fn with_state(self, state: StateView) -> SessionView {
        SessionView { state, ..self }
    }

    /// The session after the change to `state` was committed.
    pub open spec fn commit(self, state: StateView) -> SessionView {
        SessionView { state, version: bump(self.version), ..self }
    }

    /// Admission. The next number is used up whether or not the session has
    /// room; its identifier goes to the new participant if it has.
    pub open spec fn join(self) -> (SessionView, Result<Seq<char>, Error>) {
        let id = decimal(self.next_user_id);
        let counted = SessionView { next_user_id: self.next_user_id + 1, ..self };
        match self.state.join(id, self.max_users) {
            Ok(state) => (counted.commit(state), Ok(id)),
            Err(e) => (counted, Err(e)),
        }
    }

    /// Departure of the participant `id` whose command loop ended with `outcome`.
    pub open spec fn leave(self, id: Seq<char>, outcome: Result<ConnectionResult, Error>) -> SessionView {
        self.commit(self.state.leave(id, holds(outcome)))
    }

    /// One delivery for the participant `issuer`: the session afterwards and
    /// what the command loop does next. An accepted command is a committed change.
    pub open spec fn receive(self, issuer: Seq<char>, phase: Phase, inbound: InboundView) -> (
        SessionView,
        ReactionView,
    ) {
        let (state, reaction) = self.state.react(issuer, phase, inbound);
        if reaction == listening() {
            (self.commit(state), reaction)
        } else {
            (self, reaction)
        }
    }
}

/// An identifier that was handed out stays handed out as the counter grows.
pub proof fn lemma_issued_grows(s: SessionView, next: nat)
    requires
        s.wf(),
        s.next_user_id <= next,
    ensures
        (SessionView { next_user_id: next, ..s }).wf(),
{
    let t = SessionView { next_user_id: next, ..s };
    assert forall|id: Seq<char>| #[trigger] t.state.has(id) implies issued(id, next) by {
        assert(s.state.has(id));
    }
}

/// The identifier that the next participant gets is nobody's yet.
pub proof fn lemma_next_id_fresh(s: SessionView)
    requires
        s.wf(),
    ensures
        !s.state.has(decimal(s.next_user_id)),
        issued(decimal(s.next_user_id), s.next_user_id + 1),
{
    lemma_decimal_value(s.next_user_id);
    if s.state.has(decimal(s.next_user_id)) {
        assert(issued(decimal(s.next_user_id), s.next_user_id));
    }
}

/// Admission keeps the session well formed.
pub proof fn lemma_session_join_wf(s: SessionView)
    requires
        s.wf(),
    ensures
        s.join().0.wf(),
{
    let id = decimal(s.next_user_id);
    let counted = SessionView { next_user_id: s.next_user_id + 1, ..s };
    lemma_issued_grows(s, s.next_user_id + 1);
    lemma_next_id_fresh(s);
    lemma_join_wf(s.state, id, s.max_users);
    if s.state.join(id, s.max_users) is Ok {
        let t = s.join().0;
        assert(t.state.users.dom() =~= s.state.users.dom().insert(id));
        assert forall|a: Seq<char>| #[trigger] t.state.has(a) implies issued(
            a,
            t.next_user_id,
        ) by {
            if a != id {
                assert(counted.state.has(a));
            }
        }
    }
}

/// A session stays well formed when its state gives way to a consistent one
/// with no participant that it did not have.
pub proof fn lemma_session_carried(s: SessionView, state: StateView)
    requires
        s.wf(),
        state.wf(),
        state.users.dom().subset_of(s.state.users.dom()),
    ensures
        s.with_state(state).wf(),
        s.commit(state).wf(),
{
    vstd::set_lib::lemma_len_subset(state.users.dom(), s.state.users.dom());
    assert forall|id: Seq<char>| #[trigger] state.has(id) implies issued(id, s.next_user_id) by {
        assert(s.state.has(id));
    }
}

/// A departure keeps the session well formed.
pub proof fn lemma_session_leave_wf(
    s: SessionView,
    id: Seq<char>,
    outcome: Result<ConnectionResult, Error>,
)
    requires
        s.wf(),
    ensures
        s.leave(id, outcome).wf(),
{
    lemma_leave_wf(s.state, id, holds(outcome));
    lemma_session_carried(s, s.state.leave(id, holds(outcome)));
}

/// An accepted command adds no participant.
pub proof fn lemma_apply_keeps(s: StateView, issuer: Seq<char>, command: CommandView)
    requires
        s.wf(),
    ensures
        s.apply(issuer, command) matches Ok(t) ==> t.users.dom().subset_of(s.users.dom()),
{
    if s.apply(issuer, command) is Ok {
        assert(s.has(issuer));
        match command {
            CommandView::NameChange(name) => {
                if exists|id: Seq<char>| s.stale_holder(id, name) {
                    let stale = choose|id: Seq<char>| s.stale_holder(id, name);
                    assert(s.has(stale));
                }
            },
            CommandView::KickUser(target) => {
                assert(s.has(target));
            },
            _ => {},
        }
    }
}

/// A delivery keeps the session well formed.
pub proof fn lemma_session_receive_wf(
    s: SessionView,
    issuer: Seq<char>,
    phase: Phase,
    inbound: InboundView,
)
    requires
        s.wf(),
    ensures
        s.receive(issuer, phase, inbound).0.wf(),
{
    let t = s.receive(issuer, phase, inbound).0;
    if t != s {
        let command = inbound->Message_0;
        assert(s.state.apply(issuer, command) == Ok::<StateView, Error>(t.state));
        lemma_apply_wf(s.state, issuer, command);
        lemma_apply_keeps(s.state, issuer, command);
        lemma_session_carried(s, t.state);
    }
}

/// Whether a registry that runs `open` sessions and may run `max_sessions`
/// can open one more: it cannot once it runs as many as it may.
pub fn may_open_session(open: usize, max_sessions: usize) -> (r: Result<(), Error>)
    ensures
        r == if open >= max_sessions {
            Err::<(), Error>(Error::MaxSessionsExceeded)
        } else {
            Ok::<(), Error>(())
        },
{
    if open >= max_sessions {
        Err(Error::MaxSessionsExceeded)
    } else {
        Ok(())
    }
}

/// The view of the identifier that a join handed out, or of its refusal.
pub open spec fn joined_view(r: Result<String, Error>) -> Result<Seq<char>, Error> {
    match r {
        Ok(id) => Ok(id@),
        Err(e) => Err(e),
    }
}

/// One session's state store.
#[derive(Debug)]
pub struct Session {
    session_id: String,
    max_users: usize,
    next_user_id: Counter,
    version: u64,
    state: SessionState,
}

impl View for Session {
    type V = SessionView;

    closed spec fn view(&self) -> SessionView {
        SessionView {
            session_id: self.session_id@,
            max_users: self.max_users as nat,
            next_user_id: self.next_user_id@,
            version: self.version as nat,
            state: self.state@,
        }
    }
}

impl Session {
    /// What holds of every value: its view is a well-formed session.
    #[verifier::type_invariant]
    pub closed spec fn inv(&self) -> bool {
        self@.wf()
    }

    /// The view of every value is a well-formed session of the model.
    pub proof fn lemma_inv(&self)
        requires
            self.inv(),
        ensures
            self@.wf(),
            self@.max_users <= usize::MAX,
    {
    }

    /// A session called `session_id` that admits `max_users` participants
    /// and that nobody has joined yet.
    pub fn new(session_id: &str, max_users: usize) -> (session: Self)
        ensures
            session@ == SessionView::new(session_id@, max_users as nat),
    {
        let state = SessionState::new();
        proof {
            use_type_invariant(&state);
            state.lemma_inv();
        }
        Session {
            session_id: session_id.to_owned(),
            max_users,
            next_user_id: Counter::starting_at(1),
            version: 0,
            state,
        }
    }

    /// The name under which the registry knows the session.
    pub fn session_id(&self) -> (id: &String)
        ensures
            id@ == self@.session_id,
    {
        &self.session_id
    }

    /// The most participants that the session admits.
    pub fn max_users(&self) -> (n: usize)
        ensures
            n == self@.max_users,
    {
        self.max_users
    }

    /// The identifier that the next participant gets.
    pub fn next_user_id(&self) -> (id: String)
        ensures
            id@ == decimal(self@.next_user_id),
    {
        self.next_user_id.render()
    }

    /// The count of committed changes. It differs before and after a call
    /// exactly if the call committed a change.
    pub fn version(&self) -> (n: u64)
        ensures
            n == self@.version,
    {
        self.version
    }

    /// The current state.
    pub fn state(&self) -> (state: &SessionState)
        ensures
            state@ == self@.state,
    {
        &self.state
    }

    /// A snapshot of the current state.
    pub fn read(&self) -> (snapshot: SessionState)
        ensures
            snapshot@ == self@.state,
    {
        self.state.clone()
    }

    /// Hands the state out and leaves an empty one behind.
    fn take_state(&mut self) -> (state: SessionState)
        ensures
            state@ == old(self)@.state,
            final(self)@ == old(self)@.with_state(StateView::empty()),
    {
        let mut state = SessionState::new();
        proof {
            use_type_invariant(&*self);
            use_type_invariant(&state);
            state.lemma_inv();
        }
        std::mem::swap(&mut state, &mut self.state);
        state
    }

    /// Puts `state` in place and counts the change, if it is one.
    fn put_state(&mut self, state: SessionState, committed: bool)
        requires
            old(self)@.with_state(state@).wf(),
        ensures
            final(self)@ == if committed {
                old(self)@.commit(state@)
            } else {
                old(self)@.with_state(state@)
            },
    {
        proof {
            use_type_invariant(&*self);
        }
        if committed {
            self.version = if self.version == u64::MAX {
                0
            } else {
                self.version + 1
            };
        }
        self.state = state;
    }

    /// Admits a participant and hands out its identifier, or refuses with
    /// `MaxUsersExceeded` if the session is full. A refusal leaves the state
    /// as it was; the number is used up either way.
    pub fn join(&mut self) -> (r: Result<String, Error>)
        ensures
            (final(self)@, joined_view(r)) == old(self)@.join(),
    {
        proof {
            use_type_invariant(&*self);
            lemma_session_join_wf(self@);
            lemma_issued_grows(self@, self@.next_user_id + 1);
        }
        let id = self.next_user_id.render();
        let mut state = self.take_state();
        let mut counter = Counter::starting_at(1);
        std::mem::swap(&mut counter, &mut self.next_user_id);
        counter.increment();
        self.next_user_id = counter;
        match state.join(id.as_str(), self.max_users) {
            Ok(()) => {
                self.put_state(state, true);
                Ok(id)
            },
            Err(e) => {
                self.put_state(state, false);
                Err(e)
            },
        }
    }

    /// Lets the participant `id` go whose command loop ended with `outcome`:
    /// held if it ended on hold, removed otherwise.
    pub fn leave(&mut self, id: &str, outcome: &Result<ConnectionResult, Error>)
        ensures
            final(self)@ == old(self)@.leave(id@, *outcome),
    {
        proof {
            use_type_invariant(&*self);
            lemma_session_leave_wf(self@, id@, *outcome);
        }
        let on_hold = match outcome {
            Ok(ConnectionResult::OnHold) => true,
            _ => false,
        };
        let mut state = self.take_state();
        state.leave(id, on_hold);
        self.put_state(state, true);
    }

    /// Acts on one delivery for the participant `issuer` whose command loop
    /// is in `phase`, and says what the loop does next.
    pub fn receive(&mut self, issuer: &str, phase: Phase, inbound: &Inbound) -> (reaction: Reaction)
        ensures
            (final(self)@, reaction@) == old(self)@.receive(issuer@, phase, inbound@),
    {
        proof {
            use_type_invariant(&*self);
            lemma_session_receive_wf(self@, issuer@, phase, inbound@);
        }
        let mut state = self.take_state();
        let reaction = state.receive(issuer, phase, inbound);
        let committed = match &reaction {
            Reaction::Proceed { phase: Phase::Listening, reply: None } => true,
            _ => false,
        };
        self.put_state(state, committed);
        reaction
    }

    /// The view that `viewer` is allowed, or the reason to disconnect it.
    pub fn project(&self, viewer: &str) -> (r: Result<SessionState, Error>)
        ensures
            match self@.state.project(viewer@) {
                Ok(t) => r is Ok && r->Ok_0@ == t,
                Err(e) => r is Err && r->Err_0 == e,
            },
    {
        self.state.project(viewer)
    }

    /// What `viewer` is sent after a change of the state, and whether that
    /// ends its announce loop.
    pub fn announce(&self, viewer: &str) -> (sent: Announcement)
        ensures
            (sent.message@, !sent.last) == self@.state.announce(viewer@),
    {
        self.state.announce(viewer)
    }
}

} // verus!
