//! What holds of every session, whatever happens to it.
//!
//! The rules of the model are functions of one state. The laws here speak of
//! what those functions keep true: of a single step, and of every state that
//! a session reaches through any sequence of joins, departures and
//! deliveries.

use vstd::prelude::*;
use crate::connection::{dropped, InboundView, Phase};
use crate::error::Error;
use crate::ident::{decimal, lemma_decimal_injective, lemma_decimal_value};
use crate::message::{kick_notice, ConnectionResult, ServerMessageView};
use crate::model::{
    hidden_points, lemma_apply_wf, lemma_holder_unique, lemma_project_wf, CommandView, StateView,
    UserView,
};
use crate::session::{
    issued, lemma_next_id_fresh, lemma_session_join_wf, lemma_session_leave_wf, lemma_session_receive_wf, SessionView,
};

verus! {

/// One thing that happens to a session.
pub enum Event {
    /// Somebody asks to join.
    Join,
    /// The participant `id` goes, its command loop having ended with `outcome`.
    Leave { id: Seq<char>, outcome: Result<ConnectionResult, Error> },
    /// The transport delivers `inbound` for the participant `issuer` whose
    /// command loop is in `phase`.
    Deliver { issuer: Seq<char>, phase: Phase, inbound: InboundView },
}

/// The session after one event.
pub open spec fn step(s: SessionView, event: Event) -> SessionView {
    match event {
        Event::Join => s.join().0,
        Event::Leave { id, outcome } => s.leave(id, outcome),
        Event::Deliver { issuer, phase, inbound } => s.receive(issuer, phase, inbound).0,
    }
}

/// The session after a sequence of events, the first event first.
pub open spec fn run(s: SessionView, events: Seq<Event>) -> SessionView
    decreases events.len(),
{
    if events.len() == 0 {
        s
    } else {
        step(run(s, events.drop_last()), events.last())
    }
}

/// Whether `event` is the departure of `id`.
pub open spec fn is_departure_of(event: Event, id: Seq<char>) -> bool {
    event matches Event::Leave { id: who, .. } && who == id
}

/// Every event keeps a session well formed.
pub proof fn law_step_keeps_wf(s: SessionView, event: Event)
    requires
        s.wf(),
    ensures
        step(s, event).wf(),
{
    match event {
        Event::Join => lemma_session_join_wf(s),
        Event::Leave { id, outcome } => lemma_session_leave_wf(s, id, outcome),
        Event::Deliver { issuer, phase, inbound } => lemma_session_receive_wf(
            s,
            issuer,
            phase,
            inbound,
        ),
    }
}

/// Every state that a session reaches is well formed: the participants are
/// within their limits, no display name is used twice, the admin is a
/// participant who is not kicked, the capacity is kept, and every identifier
/// in use was handed out by the counter.
pub proof fn law_reachable_wf(s: SessionView, events: Seq<Event>)
    requires
        s.wf(),
    ensures
        run(s, events).wf(),
    decreases events.len(),
{
    if events.len() > 0 {
        law_reachable_wf(s, events.drop_last());
        law_step_keeps_wf(run(s, events.drop_last()), events.last());
    }
}

/// Whatever happens to a session, its admin, if it has one, is a participant
/// and is not kicked.
pub proof fn law_admin_is_heard(s: SessionView, events: Seq<Event>)
    requires
        s.wf(),
    ensures
        run(s, events).state.admin matches Some(a) ==> run(s, events).state.has(a) && !run(
            s,
            events,
        ).state.users[a].kicked,
        run(s, events).state.admin matches Some(a) ==> run(s, events).state.hears(a) is Ok,
{
    law_reachable_wf(s, events);
}

/// Every accepted command leaves an admin, if any, who is a participant and
/// is not kicked.
pub proof fn law_command_keeps_admin_valid(s: StateView, issuer: Seq<char>, command: CommandView)
    requires
        s.wf(),
        s.apply(issuer, command) is Ok,
    ensures
        s.apply(issuer, command)->Ok_0.admin_valid(),
{
    lemma_apply_wf(s, issuer, command);
}

/// A view names an admin only if it shows that admin.
pub proof fn law_view_shows_admin(s: StateView, viewer: Seq<char>)
    requires
        s.wf(),
        s.project(viewer) is Ok,
    ensures
        s.project(viewer)->Ok_0.admin matches Some(a) ==> s.project(viewer)->Ok_0.has(a),
{
    lemma_project_wf(s, viewer);
}

/// A new session is well formed, and so is whatever becomes of it.
pub proof fn law_new_session_wf(session_id: Seq<char>, max_users: nat, events: Seq<Event>)
    ensures
        run(SessionView::new(session_id, max_users), events).wf(),
{
    let s = SessionView::new(session_id, max_users);
    assert forall|id: Seq<char>| s.state.name_of(id) is None by {}
    assert(s.wf());
    law_reachable_wf(s, events);
}

/// The counter moves with joins only: a join adds one, anything else leaves it.
pub proof fn law_counter_step(s: SessionView, event: Event)
    ensures
        step(s, event).next_user_id == if event is Join {
            s.next_user_id + 1
        } else {
            s.next_user_id
        },
{
}

/// The counter never falls: a longer history has a counter at least as high.
pub proof fn law_counter_never_falls(s: SessionView, events: Seq<Event>, i: int, j: int)
    requires
        0 <= i <= j <= events.len(),
    ensures
        run(s, events.take(i)).next_user_id <= run(s, events.take(j)).next_user_id,
    decreases j - i,
{
    if i < j {
        law_counter_never_falls(s, events, i, j - 1);
        assert(events.take(j).drop_last() =~= events.take(j - 1));
        law_counter_step(run(s, events.take(j - 1)), events[j - 1]);
    }
}

/// Participant ids are strictly increasing: of two joins in one history, the
/// later one is given the greater number, and so a different identifier.
pub proof fn law_ids_strictly_increasing(s: SessionView, events: Seq<Event>, i: int, j: int)
    requires
        0 <= i < j < events.len(),
        events[i] is Join,
        events[j] is Join,
    ensures
        run(s, events.take(i)).next_user_id < run(s, events.take(j)).next_user_id,
        run(s, events.take(i)).join().1 matches Ok(first) ==> first == decimal(
            run(s, events.take(i)).next_user_id,
        ),
        decimal(run(s, events.take(i)).next_user_id) != decimal(
            run(s, events.take(j)).next_user_id,
        ),
{
    let before = run(s, events.take(i));
    let later = run(s, events.take(j));
    assert(events.take(i + 1).drop_last() =~= events.take(i));
    law_counter_step(before, events[i]);
    law_counter_never_falls(s, events, i + 1, j);
    if decimal(before.next_user_id) == decimal(later.next_user_id) {
        lemma_decimal_injective(before.next_user_id, later.next_user_id);
    }
}

/// Participant ids are never reused: the identifier that a join hands out
/// was no participant's at any earlier point of the session's history.
pub proof fn law_ids_never_reused(s: SessionView, events: Seq<Event>, i: int, k: int)
    requires
        s.wf(),
        0 <= k <= i < events.len(),
        events[i] is Join,
    ensures
        !run(s, events.take(k)).state.has(decimal(run(s, events.take(i)).next_user_id)),
{
    let then = run(s, events.take(k));
    let now = run(s, events.take(i));
    let id = decimal(now.next_user_id);
    law_reachable_wf(s, events.take(k));
    law_counter_never_falls(s, events, k, i);
    lemma_decimal_value(now.next_user_id);
    if then.state.has(id) {
        assert(issued(id, then.next_user_id));
    }
}

/// A join is refused exactly if the session is full, always with
/// `MaxUsersExceeded`, and a refused join changes neither the state nor the
/// count of committed changes.
pub proof fn law_join_refused_iff_full(s: SessionView)
    ensures
        s.join().1 is Err <==> s.state.users.dom().len() >= s.max_users,
        s.join().1 matches Err(e) ==> e == Error::MaxUsersExceeded,
        s.join().1 is Err ==> s.join().0.state == s.state && s.join().0.version == s.version,
        s.join().1 matches Ok(id) ==> s.join().0.state == s.state.with_user(
            id,
            crate::model::new_user(),
        ),
{
}

/// What a viewer who is heard gets to see: exactly the participants who are
/// not kicked; itself as it is; and of the others everything but a submitted
/// estimate, which is replaced while somebody has yet to submit and shown
/// once nobody has.
pub proof fn law_masking(s: StateView, viewer: Seq<char>, id: Seq<char>)
    requires
        s.hears(viewer) is Ok,
    ensures
        s.project(viewer) is Ok,
        s.project(viewer)->Ok_0.admin == s.admin,
        s.project(viewer)->Ok_0.has(id) <==> s.visible(id),
        s.visible(id) ==> {
            let seen = s.project(viewer)->Ok_0.users[id];
            let user = s.users[id];
            &&& seen.name == user.name
            &&& seen.is_spectator == user.is_spectator
            &&& seen.is_inactive == user.is_inactive
            &&& !seen.kicked
            &&& id == viewer ==> seen.points == user.points
            &&& user.points is None ==> seen.points is None
            &&& id != viewer && user.points is Some ==> seen.points == if s.masking() {
                Some(hidden_points())
            } else {
                user.points
            }
        },
{
}

/// Estimates are hidden exactly while some participant who is shown and is
/// no spectator has none.
pub proof fn law_masking_iff_awaited(s: StateView)
    ensures
        s.masking() <==> exists|id: Seq<char>|
            s.has(id) && !s.users[id].kicked && !s.users[id].is_spectator && s.users[id].points
                is None,
{
    if s.masking() {
        let id = choose|id: Seq<char>| s.awaited(id);
        assert(s.has(id) && !s.users[id].kicked && !s.users[id].is_spectator && s.users[id].points
            is None);
    }
    if exists|id: Seq<char>|
        s.has(id) && !s.users[id].kicked && !s.users[id].is_spectator && s.users[id].points
            is None {
        let id = choose|id: Seq<char>|
            s.has(id) && !s.users[id].kicked && !s.users[id].is_spectator && s.users[id].points
                is None;
        assert(s.awaited(id));
    }
}

/// Once everybody who is expected to estimate has done so, every viewer
/// sees every participant who is shown exactly as it is.
pub proof fn law_revealed(s: StateView, viewer: Seq<char>, id: Seq<char>)
    requires
        s.hears(viewer) is Ok,
        !s.masking(),
        s.visible(id),
    ensures
        s.project(viewer)->Ok_0.users[id] == s.users[id],
{
}

/// After the admin reset the estimates nobody has one, so none is shown and
/// the hiding begins again as soon as somebody is expected to estimate.
pub proof fn law_reset_clears(s: StateView, issuer: Seq<char>, id: Seq<char>)
    requires
        s.apply(issuer, CommandView::ResetPoints) is Ok,
    ensures
        s.admin == Some(issuer),
        s.apply(issuer, CommandView::ResetPoints)->Ok_0.has(id) <==> s.has(id),
        s.has(id) ==> s.apply(issuer, CommandView::ResetPoints)->Ok_0.users[id] == (UserView {
            points: None,
            ..s.users[id]
        }),
{
}

/// Kicking takes effect at once: the target's next command fails with
/// `UserKicked` whatever the command, its command loop ends on its next
/// delivery, its announce loop sends the kick notice and ends, and no
/// viewer is shown the target any more. An admin who kicks itself is admin
/// no longer; nothing else changes.
pub proof fn law_kick(
    s: StateView,
    admin: Seq<char>,
    target: Seq<char>,
    command: CommandView,
    inbound: InboundView,
    viewer: Seq<char>,
)
    requires
        s.apply(admin, CommandView::KickUser(target)) is Ok,
    ensures
        s.admin == Some(admin) && s.has(target),
        ({
            let t = s.apply(admin, CommandView::KickUser(target))->Ok_0;
            &&& t.users == s.users.insert(target, UserView { kicked: true, ..s.users[target] })
            &&& t.admin == if target == admin {
                None
            } else {
                s.admin
            }
            &&& t.apply(target, command) == Err::<StateView, Error>(Error::UserKicked)
            &&& inbound !is Closed ==> t.react(target, Phase::Listening, inbound) == (
                t,
                dropped(Error::UserKicked),
            )
            &&& t.announce(target) == (ServerMessageView::Error(kick_notice()), false)
            &&& t.project(viewer) matches Ok(view) ==> !view.has(target)
        }),
{
}

/// A kicked participant stays kicked: no event but its own departure makes
/// a connected participant who is kicked anything else.
pub proof fn law_kicked_stays(s: SessionView, event: Event, target: Seq<char>)
    requires
        s.wf(),
        s.state.has(target),
        s.state.users[target].kicked,
        !s.state.users[target].is_inactive,
        !is_departure_of(event, target),
    ensures
        step(s, event).state.has(target),
        step(s, event).state.users[target].kicked,
        !step(s, event).state.users[target].is_inactive,
{
    match event {
        Event::Join => {
            lemma_next_id_fresh(s);
        },
        Event::Leave { id, outcome } => {},
        Event::Deliver { issuer, phase, inbound } => {
            let t = s.receive(issuer, phase, inbound).0;
            if t != s {
                let command = inbound->Message_0;
                assert(s.state.apply(issuer, command) == Ok::<StateView, Error>(t.state));
                assert(issuer != target);
                match command {
                    CommandView::NameChange(name) => {
                        if exists|id: Seq<char>| s.state.stale_holder(id, name) {
                            let stale = choose|id: Seq<char>| s.state.stale_holder(id, name);
                            assert(stale != target);
                        }
                    },
                    _ => {},
                }
            }
        },
    }
}

/// From the kick until it leaves, whatever else happens in the session, a
/// connected participant's commands fail with `UserKicked` and its announce
/// loop ends with the kick notice on the next change it is told of.
pub proof fn law_kicked_until_departure(
    s: SessionView,
    events: Seq<Event>,
    target: Seq<char>,
    command: CommandView,
)
    requires
        s.wf(),
        s.state.has(target),
        s.state.users[target].kicked,
        !s.state.users[target].is_inactive,
        forall|k: int| 0 <= k < events.len() ==> !is_departure_of(#[trigger] events[k], target),
    ensures
        run(s, events).state.has(target),
        run(s, events).state.users[target].kicked,
        !run(s, events).state.users[target].is_inactive,
        run(s, events).state.apply(target, command) == Err::<StateView, Error>(Error::UserKicked),
        run(s, events).state.announce(target) == (ServerMessageView::Error(kick_notice()), false),
    decreases events.len(),
{
    if events.len() > 0 {
        let earlier = events.drop_last();
        assert forall|k: int| 0 <= k < earlier.len() implies !is_departure_of(
            #[trigger] earlier[k],
            target,
        ) by {
            assert(earlier[k] == events[k]);
        }
        law_kicked_until_departure(s, earlier, target, command);
        law_reachable_wf(s, earlier);
        law_kicked_stays(run(s, earlier), events.last(), target);
    }
}

/// Taking over: a name that an inactive participant holds goes to the issuer
/// together with that participant's record, estimate and spectator flag as
/// they were, and the inactive participant's id is gone. Nobody else
/// changes. The admin stays unless it was the inactive participant, or is
/// the issuer and the record it resumes is a kicked one.
pub proof fn law_takeover(s: StateView, issuer: Seq<char>, stale: Seq<char>, name: Seq<char>)
    requires
        s.wf(),
        s.hears(issuer) is Ok,
        name.len() <= crate::model::MAX_NAME_LEN,
        s.stale_holder(stale, name),
    ensures
        s.apply(issuer, CommandView::NameChange(name)) is Ok,
        ({
            let t = s.apply(issuer, CommandView::NameChange(name))->Ok_0;
            &&& t.users == s.users.remove(stale).insert(
                issuer,
                UserView { is_inactive: false, ..s.users[stale] },
            )
            &&& t.has(issuer)
            &&& t.users[issuer].name == Some(name)
            &&& t.users[issuer].points == s.users[stale].points
            &&& t.users[issuer].is_spectator == s.users[stale].is_spectator
            &&& !t.users[issuer].is_inactive
            &&& stale != issuer ==> !t.has(stale)
            &&& t.admin == if s.admin == Some(stale) && stale != issuer {
                None
            } else if s.admin == Some(issuer) && s.users[stale].kicked {
                None
            } else {
                s.admin
            }
        }),
{
    assert forall|id: Seq<char>| s.active_holder(id, name) || s.stale_holder(id, name) implies id
        == stale by {
        lemma_holder_unique(s, id, stale, name);
    }
}

/// A name that a connected participant holds is refused with
/// `DuplicateName`, to its holder as to anybody else.
pub proof fn law_duplicate_name(s: StateView, issuer: Seq<char>, holder: Seq<char>, name: Seq<char>)
    requires
        s.hears(issuer) is Ok,
        name.len() <= crate::model::MAX_NAME_LEN,
        s.active_holder(holder, name),
    ensures
        s.apply(issuer, CommandView::NameChange(name)) == Err::<StateView, Error>(
            Error::DuplicateName,
        ),
{
}

/// A name that nobody holds is given to the issuer, and nothing else changes.
pub proof fn law_free_name(s: StateView, issuer: Seq<char>, name: Seq<char>)
    requires
        s.hears(issuer) is Ok,
        name.len() <= crate::model::MAX_NAME_LEN,
        forall|id: Seq<char>| s.has(id) ==> s.users[id].name != Some(name),
    ensures
        s.apply(issuer, CommandView::NameChange(name)) == Ok::<StateView, Error>(
            s.with_user(issuer, UserView { name: Some(name), ..s.users[issuer] }),
        ),
{
}

/// In a well-formed state at most one inactive participant holds a given name.
pub proof fn law_one_stale_holder(s: StateView, a: Seq<char>, b: Seq<char>, name: Seq<char>)
    requires
        s.wf(),
        s.stale_holder(a, name),
        s.stale_holder(b, name),
    ensures
        a == b,
{
    lemma_holder_unique(s, a, b, name);
}

/// A refused command changes nothing: whenever the command loop ends on an
/// error or merely answers, the state is the state before.
pub proof fn law_refusal_changes_nothing(
    s: StateView,
    issuer: Seq<char>,
    phase: Phase,
    inbound: InboundView,
)
    ensures
        s.react(issuer, phase, inbound).1 != crate::connection::listening() ==> s.react(
            issuer,
            phase,
            inbound,
        ).0 == s,
{
}

} // verus!
