//! The session state as it is held in memory.
//!
//! [`SessionState`] keeps its participants in a vector of entries, no id
//! twice. Its view is the finite map of the model, and every rule here is
//! proved to compute the model's function of the same name.

use vstd::prelude::*;
use vstd::string::StringExecFns;
use vstd::string::StrSliceExecFns;
use crate::error::Error;
use crate::message::ClientMessage;
use crate::model::{
    hidden_points, lemma_apply_wf, lemma_holder_unique, lemma_join_wf, lemma_leave_wf,
    lemma_project_wf, lemma_rename_wf, lemma_wf_admin, lemma_without_points_wf, new_user, StateView,
    UserView,
    MAX_NAME_LEN, MAX_POINTS_LEN,
};

verus! {

/// The view of an optional string: the characters, if there are any.
pub open spec fn text_view(text: Option<String>) -> Option<Seq<char>> {
    match text {
        Some(s) => Some(s@),
        None => None,
    }
}

/// A copy of an optional string.
fn clone_text(text: &Option<String>) -> (copy: Option<String>)
    ensures
        text_view(copy) == text_view(*text),
{
    match text {
        Some(s) => Some(s.clone()),
        None => None,
    }
}

/// One participant of a session.
#[derive(Debug)]
pub struct UserState {
    /// The display name, at most 32 characters, once one was chosen.
    pub name: Option<String>,
    /// The submitted estimate, at most 8 characters; `None` until one is submitted.
    pub points: Option<String>,
    /// Spectators watch without estimating.
    pub is_spectator: bool,
    /// Set for a participant who left on hold and may be taken over.
    pub is_inactive: bool,
    /// Set by the admin; never shown to viewers.
    pub kicked: bool,
}

impl View for UserState {
    type V = UserView;

    open spec fn view(&self) -> UserView {
        UserView {
            name: text_view(self.name),
            points: text_view(self.points),
            is_spectator: self.is_spectator,
            is_inactive: self.is_inactive,
            kicked: self.kicked,
        }
    }
}

impl UserState {
    /// A participant who has just joined: no name, no estimate, no flag set.
    pub fn new() -> (user: Self)
        ensures
            user@ == new_user(),
    {
        UserState { name: None, points: None, is_spectator: false, is_inactive: false, kicked: false }
    }
}

impl Default for UserState {
    fn default() -> (user: Self)
        ensures
            user@ == new_user(),
    {
        UserState::new()
    }
}

impl Clone for UserState {
    fn clone(&self) -> (copy: Self)
        ensures
            copy@ == self@,
    {
        UserState {
            name: clone_text(&self.name),
            points: clone_text(&self.points),
            is_spectator: self.is_spectator,
            is_inactive: self.is_inactive,
            kicked: self.kicked,
        }
    }
}

/// A participant under its id.
#[derive(Debug)]
struct Entry {
    id: String,
    user: UserState,
}

/// The ids of a sequence of entries, in order.
spec fn ids_of(entries: Seq<Entry>) -> Seq<Seq<char>> {
    entries.map_values(|e: Entry| e.id@)
}

/// The map that a sequence of entries stands for.
spec fn users_of(entries: Seq<Entry>) -> Map<Seq<char>, UserView> {
    Map::new(
        |id: Seq<char>| ids_of(entries).contains(id),
        |id: Seq<char>| entries[ids_of(entries).index_of(id)].user@,
    )
}

/// With no id twice, the entry at `i` is what the map holds under its id.
proof fn lemma_entry(entries: Seq<Entry>, i: int)
    requires
        ids_of(entries).no_duplicates(),
        0 <= i < entries.len(),
    ensures
        ids_of(entries).contains(entries[i].id@),
        ids_of(entries).index_of(entries[i].id@) == i,
        users_of(entries).dom().contains(entries[i].id@),
        users_of(entries)[entries[i].id@] == entries[i].user@,
{
    let ids = ids_of(entries);
    assert(ids[i] == entries[i].id@);
    let j = ids.index_of(entries[i].id@);
    assert(0 <= j < ids.len() && ids[j] == ids[i]);
}

/// An id that no entry carries is not in the map.
proof fn lemma_absent(entries: Seq<Entry>, id: Seq<char>)
    requires
        forall|k: int| 0 <= k < entries.len() ==> entries[k].id@ != id,
    ensures
        !users_of(entries).dom().contains(id),
{
    let ids = ids_of(entries);
    if ids.contains(id) {
        let k = choose|k: int| 0 <= k < ids.len() && ids[k] == id;
        assert(entries[k].id@ == id);
    }
}

/// An id in the map is carried by the entry at its index.
proof fn lemma_present(entries: Seq<Entry>, id: Seq<char>)
    requires
        users_of(entries).dom().contains(id),
    ensures
        0 <= ids_of(entries).index_of(id) < entries.len(),
        entries[ids_of(entries).index_of(id)].id@ == id,
{
    let ids = ids_of(entries);
    assert(ids.contains(id));
    let k = ids.index_of(id);
    assert(ids[k] == id);
}

/// With no id twice, the map has as many participants as there are entries.
proof fn lemma_size(entries: Seq<Entry>)
    requires
        ids_of(entries).no_duplicates(),
    ensures
        users_of(entries).dom().finite(),
        users_of(entries).dom().len() == entries.len(),
{
    let ids = ids_of(entries);
    ids.unique_seq_to_set();
    vstd::seq_lib::seq_to_set_is_finite(ids);
    assert(users_of(entries).dom() =~= ids.to_set());
}

/// Replacing the participant at `i` under the same id sets that id in the map.
proof fn lemma_replace(before: Seq<Entry>, after: Seq<Entry>, i: int)
    requires
        ids_of(before).no_duplicates(),
        0 <= i < before.len(),
        after.len() == before.len(),
        after[i].id@ == before[i].id@,
        forall|k: int| 0 <= k < before.len() && k != i ==> after[k] == before[k],
    ensures
        ids_of(after) == ids_of(before),
        users_of(after) == users_of(before).insert(before[i].id@, after[i].user@),
{
    assert(ids_of(after) =~= ids_of(before));
    let m = users_of(before).insert(before[i].id@, after[i].user@);
    lemma_entry(before, i);
    assert forall|id: Seq<char>| users_of(after).dom().contains(id) implies #[trigger] users_of(
        after,
    )[id] == m[id] by {
        lemma_present(after, id);
        let k = ids_of(after).index_of(id);
        lemma_entry(before, k);
    }
    assert(users_of(after) =~= m);
}

/// Appending a participant under a fresh id inserts it into the map.
proof fn lemma_append(before: Seq<Entry>, entry: Entry)
    requires
        ids_of(before).no_duplicates(),
        !users_of(before).dom().contains(entry.id@),
    ensures
        ids_of(before.push(entry)).no_duplicates(),
        users_of(before.push(entry)) == users_of(before).insert(entry.id@, entry.user@),
{
    let after = before.push(entry);
    let m = users_of(before).insert(entry.id@, entry.user@);
    assert(ids_of(after) =~= ids_of(before).push(entry.id@));
    assert forall|i: int, j: int|
        0 <= i < ids_of(after).len() && 0 <= j < ids_of(after).len() && i != j implies ids_of(
        after,
    )[i] != ids_of(after)[j] by {
        if i < before.len() {
            lemma_entry(before, i);
        }
        if j < before.len() {
            lemma_entry(before, j);
        }
    }
    assert forall|id: Seq<char>| m.dom().contains(id) implies users_of(after).dom().contains(
        id,
    ) by {
        if id == entry.id@ {
            assert(ids_of(after)[before.len() as int] == id);
        } else {
            lemma_present(before, id);
            let k = ids_of(before).index_of(id);
            assert(ids_of(after)[k] == id);
        }
    }
    assert forall|id: Seq<char>| users_of(after).dom().contains(id) implies m.dom().contains(id)
        && #[trigger] users_of(after)[id] == m[id] by {
        lemma_present(after, id);
        let k = ids_of(after).index_of(id);
        if k < before.len() {
            lemma_entry(before, k);
        }
    }
    assert(users_of(after) =~= m);
}

/// Taking the entry at `i` away removes its id from the map.
proof fn lemma_take_away(before: Seq<Entry>, i: int)
    requires
        ids_of(before).no_duplicates(),
        0 <= i < before.len(),
    ensures
        ids_of(before.remove(i)).no_duplicates(),
        users_of(before.remove(i)) == users_of(before).remove(before[i].id@),
{
    let after = before.remove(i);
    let m = users_of(before).remove(before[i].id@);
    assert(ids_of(after) =~= ids_of(before).remove(i));
    assert forall|a: int, b: int|
        0 <= a < ids_of(after).len() && 0 <= b < ids_of(after).len() && a != b implies ids_of(
        after,
    )[a] != ids_of(after)[b] by {
        let a0 = if a < i { a } else { a + 1 };
        let b0 = if b < i { b } else { b + 1 };
        assert(ids_of(after)[a] == ids_of(before)[a0]);
        assert(ids_of(after)[b] == ids_of(before)[b0]);
    }
    lemma_entry(before, i);
    assert forall|id: Seq<char>| m.dom().contains(id) implies users_of(after).dom().contains(
        id,
    ) by {
        lemma_present(before, id);
        let k = ids_of(before).index_of(id);
        let k1 = if k < i { k } else { k - 1 };
        assert(ids_of(after)[k1] == id);
    }
    assert forall|id: Seq<char>| users_of(after).dom().contains(id) implies m.dom().contains(id)
        && #[trigger] users_of(after)[id] == m[id] by {
        lemma_present(after, id);
        let k = ids_of(after).index_of(id);
        let k0 = if k < i { k } else { k + 1 };
        assert(after[k] == before[k0]);
        lemma_entry(before, k0);
        lemma_entry(after, k);
    }
    assert(users_of(after) =~= m);
}

/// The entries' ids and participants agree one by one, so the maps agree.
proof fn lemma_same(before: Seq<Entry>, after: Seq<Entry>)
    requires
        after.len() == before.len(),
        forall|k: int|
            0 <= k < before.len() ==> after[k].id@ == before[k].id@ && after[k].user@
                == before[k].user@,
    ensures
        ids_of(after) == ids_of(before),
        users_of(after) == users_of(before),
{
    assert(ids_of(after) =~= ids_of(before));
    assert(users_of(after) =~= users_of(before));
}

/// No entries stand for the empty map, which without an admin is the
/// consistent state of a session that nobody has joined.
proof fn lemma_no_entries()
    ensures
        users_of(Seq::<Entry>::empty()) == Map::<Seq<char>, UserView>::empty(),
        ids_of(Seq::<Entry>::empty()).no_duplicates(),
        (StateView { users: users_of(Seq::<Entry>::empty()), admin: None }).wf(),
{
    let none = Seq::<Entry>::empty();
    assert(users_of(none) =~= Map::<Seq<char>, UserView>::empty()) by {
        assert forall|id: Seq<char>| !users_of(none).dom().contains(id) by {
            lemma_absent(none, id);
        }
    }
    let empty = StateView { users: users_of(none), admin: None };
    assert forall|id: Seq<char>| empty.name_of(id) is None by {}
}

/// Whether an entry is shown, is expected to estimate, and has not yet.
spec fn entry_awaited(e: Entry) -> bool {
    !e.user.kicked && !e.user.is_spectator && e.user.points is None
}

/// What `viewer` is shown of the participants that stand before `i` among
/// `entries`: those of them who are not kicked, each as the viewer may see it.
spec fn shown_upto(s: StateView, entries: Seq<Entry>, viewer: Seq<char>, i: int) -> Map<
    Seq<char>,
    UserView,
> {
    Map::new(
        |id: Seq<char>| s.visible(id) && ids_of(entries).index_of(id) < i,
        |id: Seq<char>| s.shown(viewer, id),
    )
}

/// Before the first entry nothing is shown.
proof fn lemma_shown_none(s: StateView, entries: Seq<Entry>, viewer: Seq<char>)
    requires
        s.users == users_of(entries),
    ensures
        shown_upto(s, entries, viewer, 0) == users_of(Seq::<Entry>::empty()),
{
    lemma_no_entries();
    assert forall|id: Seq<char>| !shown_upto(s, entries, viewer, 0).dom().contains(id) by {
        if s.has(id) {
            lemma_present(entries, id);
        }
    }
    assert(shown_upto(s, entries, viewer, 0) =~= Map::<Seq<char>, UserView>::empty());
}

/// One entry further, the entry at `i` is shown as well unless it is kicked.
proof fn lemma_shown_step(s: StateView, entries: Seq<Entry>, viewer: Seq<char>, i: int)
    requires
        s.users == users_of(entries),
        ids_of(entries).no_duplicates(),
        0 <= i < entries.len(),
    ensures
        !shown_upto(s, entries, viewer, i).dom().contains(entries[i].id@),
        shown_upto(s, entries, viewer, i + 1) == if entries[i].user.kicked {
            shown_upto(s, entries, viewer, i)
        } else {
            shown_upto(s, entries, viewer, i).insert(entries[i].id@, s.shown(viewer, entries[i].id@))
        },
{
    lemma_entry(entries, i);
    let before = shown_upto(s, entries, viewer, i);
    let after = shown_upto(s, entries, viewer, i + 1);
    let grown = if entries[i].user.kicked {
        before
    } else {
        before.insert(entries[i].id@, s.shown(viewer, entries[i].id@))
    };
    assert forall|id: Seq<char>| after.dom().contains(id) implies grown.dom().contains(id) by {
        lemma_present(entries, id);
    }
    assert(after =~= grown);
}

/// Past the last entry everything is shown that the viewer gets to see.
proof fn lemma_shown_all(s: StateView, entries: Seq<Entry>, viewer: Seq<char>)
    requires
        s.users == users_of(entries),
        s.project(viewer) is Ok,
    ensures
        shown_upto(s, entries, viewer, entries.len() as int) == s.project(viewer)->Ok_0.users,
{
    let all = shown_upto(s, entries, viewer, entries.len() as int);
    let view = s.project(viewer)->Ok_0.users;
    assert forall|id: Seq<char>| view.dom().contains(id) implies all.dom().contains(id) by {
        lemma_present(entries, id);
    }
    assert(all =~= view);
}

/// Where the participant `id` stands among `entries`.
fn find(entries: &Vec<Entry>, id: &String) -> (at: Option<usize>)
    requires
        ids_of(entries@).no_duplicates(),
    ensures
        match at {
            Some(i) => i < entries@.len() && entries@[i as int].id@ == id@ && users_of(
                entries@,
            ).dom().contains(id@) && users_of(entries@)[id@] == entries@[i as int].user@,
            None => !users_of(entries@).dom().contains(id@),
        },
{
    let mut i: usize = 0;
    while i < entries.len()
        invariant
            i <= entries.len(),
            ids_of(entries@).no_duplicates(),
            forall|k: int| 0 <= k < i ==> entries@[k].id@ != id@,
        decreases entries.len() - i,
    {
        if entries[i].id == *id {
            proof {
                lemma_entry(entries@, i as int);
            }
            return Some(i);
        }
        i += 1;
    }
    proof {
        lemma_absent(entries@, id@);
    }
    None
}

/// The admin that stays with `entries`: `admin` if it is among them and not
/// kicked, else none.
fn settle_admin(entries: &Vec<Entry>, admin: Option<String>) -> (kept: Option<String>)
    requires
        ids_of(entries@).no_duplicates(),
    ensures
        text_view(kept) == (StateView { users: Map::empty(), admin: text_view(admin) }).with_users(
            users_of(entries@),
        ).admin,
{
    match admin {
        Some(a) => match find(entries, &a) {
            Some(i) => if entries[i].user.kicked {
                None
            } else {
                Some(a)
            },
            None => None,
        },
        None => None,
    }
}

/// The state of one session: its participants by id, and its admin.
///
/// A value of this type always stands for a consistent state of the model:
/// finitely many participants, each within its limits, no display name
/// twice, and an admin, if any, who is a participant and not kicked.
#[derive(Debug)]
pub struct SessionState {
    entries: Vec<Entry>,
    admin: Option<String>,
}

impl View for SessionState {
    type V = StateView;

    closed spec fn view(&self) -> StateView {
        StateView { users: users_of(self.entries@), admin: text_view(self.admin) }
    }
}

impl SessionState {
    /// What holds of every value: no id twice, and a well-formed view.
    #[verifier::type_invariant]
    pub closed spec fn inv(&self) -> bool {
        &&& ids_of(self.entries@).no_duplicates()
        &&& self@.wf()
    }

    /// The view of every value is a well-formed state of the model.
    pub proof fn lemma_inv(&self)
        requires
            self.inv(),
        ensures
            self@.wf(),
    {
    }

    /// The state of a session that nobody has joined.
    pub fn new() -> (state: Self)
        ensures
            state@ == StateView::empty(),
    {
        proof {
            lemma_no_entries();
        }
        SessionState { entries: Vec::new(), admin: None }
    }

    /// The number of participants.
    pub fn len(&self) -> (n: usize)
        ensures
            n == self@.users.dom().len(),
    {
        proof {
            use_type_invariant(self);
            lemma_size(self.entries@);
        }
        self.entries.len()
    }

    /// Whether nobody takes part.
    pub fn is_empty(&self) -> (empty: bool)
        ensures
            empty == (self@.users.dom().len() == 0),
    {
        self.len() == 0
    }

    /// Where the participant `id` stands among the entries.
    fn position(&self, id: &String) -> (at: Option<usize>)
        ensures
            match at {
                Some(i) => i < self.entries@.len() && self.entries@[i as int].id@ == id@
                    && self@.has(id@) && self@.users[id@] == self.entries@[i as int].user@,
                None => !self@.has(id@),
            },
    {
        proof {
            use_type_invariant(self);
        }
        find(&self.entries, id)
    }

    /// Whether `id` names a participant.
    pub fn contains(&self, id: &str) -> (found: bool)
        ensures
            found == self@.has(id@),
    {
        let key = String::from_str(id);
        self.position(&key).is_some()
    }

    /// The participant `id`, if there is one.
    pub fn get(&self, id: &str) -> (user: Option<&UserState>)
        ensures
            match user {
                Some(u) => self@.has(id@) && u@ == self@.users[id@],
                None => !self@.has(id@),
            },
    {
        let key = String::from_str(id);
        match self.position(&key) {
            Some(i) => Some(&self.entries[i].user),
            None => None,
        }
    }

    /// The admin's id, if the session has an admin.
    pub fn admin(&self) -> (admin: &Option<String>)
        ensures
            text_view(*admin) == self@.admin,
    {
        &self.admin
    }

    /// The participants' ids, each once, in no particular order.
    pub fn ids(&self) -> (ids: Vec<String>)
        ensures
            ids@.len() == self@.users.dom().len(),
            forall|i: int| 0 <= i < ids@.len() ==> self@.has(#[trigger] ids@[i]@),
            forall|i: int, j: int| 0 <= i < j < ids@.len() ==> ids@[i]@ != ids@[j]@,
    {
        proof {
            use_type_invariant(self);
            lemma_size(self.entries@);
        }
        let mut ids: Vec<String> = Vec::new();
        let mut i: usize = 0;
        while i < self.entries.len()
            invariant
                i <= self.entries.len(),
                ids@.len() == i,
                ids_of(self.entries@).no_duplicates(),
                forall|k: int| 0 <= k < i ==> ids@[k]@ == self.entries@[k].id@,
            decreases self.entries.len() - i,
        {
            ids.push(self.entries[i].id.clone());
            i += 1;
        }
        proof {
            assert forall|k: int| 0 <= k < ids@.len() implies self@.has(#[trigger] ids@[k]@) by {
                lemma_entry(self.entries@, k);
            }
            assert forall|a: int, b: int| 0 <= a < b < ids@.len() implies ids@[a]@ != ids@[b]@ by {
                assert(ids_of(self.entries@)[a] == ids@[a]@);
                assert(ids_of(self.entries@)[b] == ids@[b]@);
            }
        }
        ids
    }
}

impl SessionState {
    /// Hands the entries and the admin out and leaves an empty state behind.
    fn take(&mut self) -> (parts: (Vec<Entry>, Option<String>))
        ensures
            parts.0@ == old(self).entries@,
            parts.1 == old(self).admin,
            ids_of(parts.0@).no_duplicates(),
            old(self)@.wf(),
            final(self).entries@ == Seq::<Entry>::empty(),
            final(self).admin == None::<String>,
    {
        proof {
            use_type_invariant(&*self);
            lemma_wf_admin(self@, None);
            lemma_no_entries();
        }
        let mut admin: Option<String> = None;
        std::mem::swap(&mut admin, &mut self.admin);
        let mut entries: Vec<Entry> = Vec::new();
        std::mem::swap(&mut entries, &mut self.entries);
        (entries, admin)
    }

    /// Puts in place entries and an admin that stand for a consistent state.
    fn put(&mut self, entries: Vec<Entry>, admin: Option<String>)
        requires
            ids_of(entries@).no_duplicates(),
            (StateView { users: users_of(entries@), admin: text_view(admin) }).wf(),
        ensures
            final(self).entries@ == entries@,
            final(self).admin == admin,
    {
        proof {
            use_type_invariant(&*self);
            lemma_wf_admin(self@, None);
            lemma_wf_admin(StateView { users: users_of(entries@), admin: text_view(admin) }, None);
        }
        self.admin = None;
        self.entries = entries;
        self.admin = admin;
    }

    /// Whether `id` is the admin.
    fn is_admin(&self, id: &String) -> (yes: bool)
        ensures
            yes == (self@.admin == Some(id@)),
    {
        match &self.admin {
            Some(a) => *a == *id,
            None => false,
        }
    }

    /// Where a participant called `name` stands among the entries.
    fn holder_position(&self, name: &String) -> (at: Option<usize>)
        ensures
            match at {
                Some(j) => j < self.entries@.len() && self.entries@[j as int].user@.name == Some(
                    name@,
                ),
                None => forall|k: int|
                    0 <= k < self.entries@.len() ==> self.entries@[k].user@.name != Some(name@),
            },
    {
        let mut j: usize = 0;
        while j < self.entries.len()
            invariant
                j <= self.entries.len(),
                forall|k: int| 0 <= k < j ==> self.entries@[k].user@.name != Some(name@),
            decreases self.entries.len() - j,
        {
            let held = match &self.entries[j].user.name {
                Some(n) => *n == *name,
                None => false,
            };
            if held {
                return Some(j);
            }
            j += 1;
        }
        None
    }

    /// Whether estimates are still hidden from viewers.
    fn is_masking(&self) -> (masking: bool)
        ensures
            masking == self@.masking(),
    {
        proof {
            use_type_invariant(self);
        }
        let mut i: usize = 0;
        while i < self.entries.len()
            invariant
                i <= self.entries.len(),
                ids_of(self.entries@).no_duplicates(),
                forall|k: int| 0 <= k < i ==> !entry_awaited(self.entries@[k]),
            decreases self.entries.len() - i,
        {
            let e = &self.entries[i];
            if !e.user.kicked && !e.user.is_spectator && e.user.points.is_none() {
                proof {
                    lemma_entry(self.entries@, i as int);
                    assert(self@.awaited(e.id@));
                }
                return true;
            }
            i += 1;
        }
        proof {
            assert forall|id: Seq<char>| !self@.awaited(id) by {
                if self@.has(id) {
                    lemma_present(self.entries@, id);
                    assert(!entry_awaited(self.entries@[ids_of(self.entries@).index_of(id)]));
                }
            }
        }
        false
    }

    /// Admission: a new participant under `id`, unless the session already
    /// has `max_users` participants. A refusal changes nothing.
    pub fn join(&mut self, id: &str, max_users: usize) -> (r: Result<(), Error>)
        ensures
            match old(self)@.join(id@, max_users as nat) {
                Ok(t) => r is Ok && final(self)@ == t,
                Err(e) => r == Err::<(), Error>(e) && final(self)@ == old(self)@,
            },
    {
        proof {
            use_type_invariant(&*self);
            lemma_size(self.entries@);
            lemma_join_wf(self@, id@, max_users as nat);
        }
        if self.entries.len() >= max_users {
            return Err(Error::MaxUsersExceeded);
        }
        let key = String::from_str(id);
        let at = self.position(&key);
        let (mut entries, admin) = self.take();
        let ghost before = entries@;
        match at {
            Some(i) => {
                entries[i].user = UserState::new();
                proof {
                    lemma_replace(before, entries@, i as int);
                }
            },
            None => {
                let entry = Entry { id: key, user: UserState::new() };
                proof {
                    lemma_append(before, entry);
                }
                entries.push(entry);
            },
        }
        self.put(entries, admin);
        Ok(())
    }

    /// Departure. On hold the participant stays, marked inactive; otherwise
    /// it is removed. Either way it gives up the admin role if it had it.
    pub fn leave(&mut self, id: &str, on_hold: bool)
        ensures
            final(self)@ == old(self)@.leave(id@, on_hold),
    {
        proof {
            use_type_invariant(&*self);
            lemma_leave_wf(self@, id@, on_hold);
        }
        let key = String::from_str(id);
        let at = self.position(&key);
        let was_admin = self.is_admin(&key);
        let (mut entries, admin) = self.take();
        let admin = if was_admin {
            None
        } else {
            admin
        };
        match at {
            None => {
                assert(old(self)@.users.remove(id@) =~= old(self)@.users);
            },
            Some(i) => {
                let ghost before = entries@;
                if on_hold {
                    entries[i].user.is_inactive = true;
                    proof {
                        lemma_replace(before, entries@, i as int);
                    }
                } else {
                    entries.remove(i);
                    proof {
                        lemma_take_away(before, i as int);
                    }
                }
            },
        }
        self.put(entries, admin);
    }

    /// The name change rule, for an issuer who stands at `at`.
    fn rename(&mut self, at: usize, name: &String) -> (r: Result<(), Error>)
        requires
            at < old(self).entries@.len(),
            name@.len() <= MAX_NAME_LEN,
        ensures
            match old(self)@.rename(old(self).entries@[at as int].id@, name@) {
                Ok(t) => r is Ok && final(self)@ == t,
                Err(e) => r == Err::<(), Error>(e) && final(self)@ == old(self)@,
            },
    {
        proof {
            use_type_invariant(&*self);
            lemma_entry(self.entries@, at as int);
        }
        let ghost s = self@;
        let ghost issuer = self.entries@[at as int].id@;
        proof {
            lemma_rename_wf(s, issuer, name@);
        }
        match self.holder_position(name) {
            None => {
                proof {
                    assert forall|id: Seq<char>| !s.active_holder(id, name@) && !s.stale_holder(
                        id,
                        name@,
                    ) by {
                        if s.has(id) {
                            lemma_present(self.entries@, id);
                        }
                    }
                }
                let (mut entries, admin) = self.take();
                let ghost before = entries@;
                entries[at].user.name = Some(name.clone());
                proof {
                    lemma_replace(before, entries@, at as int);
                }
                self.put(entries, admin);
                Ok(())
            },
            Some(j) => {
                let ghost holder = self.entries@[j as int].id@;
                proof {
                    lemma_entry(self.entries@, j as int);
                    assert forall|id: Seq<char>|
                        s.active_holder(id, name@) || s.stale_holder(id, name@) implies id
                        == holder by {
                        lemma_holder_unique(s, id, holder, name@);
                    }
                }
                if !self.entries[j].user.is_inactive {
                    proof {
                        assert(s.active_holder(holder, name@));
                    }
                    return Err(Error::DuplicateName);
                }
                proof {
                    assert(s.stale_holder(holder, name@));
                    assert((choose|id: Seq<char>| s.stale_holder(id, name@)) == holder);
                }
                if j == at {
                    let (mut entries, admin) = self.take();
                    let ghost before = entries@;
                    entries[at].user.is_inactive = false;
                    proof {
                        lemma_replace(before, entries@, at as int);
                        assert(s.users.remove(holder).insert(issuer, entries@[at as int].user@)
                            =~= s.users.insert(issuer, entries@[at as int].user@));
                    }
                    let admin = settle_admin(&entries, admin);
                    self.put(entries, admin);
                } else {
                    let (mut entries, admin) = self.take();
                    let ghost before = entries@;
                    let stale = entries.remove(j);
                    let ghost between = entries@;
                    let to: usize = if j < at {
                        (at - 1) as usize
                    } else {
                        at
                    };
                    let mut user = stale.user;
                    user.is_inactive = false;
                    entries[to].user = user;
                    proof {
                        lemma_take_away(before, j as int);
                        assert(between[to as int] == before[at as int]);
                        lemma_replace(between, entries@, to as int);
                    }
                    let admin = settle_admin(&entries, admin);
                    self.put(entries, admin);
                }
                Ok(())
            },
        }
    }

    /// Clears every participant's estimate.
    fn clear_points(&mut self)
        ensures
            final(self)@ == old(self)@.without_points(),
    {
        proof {
            use_type_invariant(&*self);
            lemma_without_points_wf(self@);
        }
        let (mut entries, admin) = self.take();
        let ghost before = entries@;
        let mut i: usize = 0;
        while i < entries.len()
            invariant
                i <= entries@.len(),
                entries@.len() == before.len(),
                forall|k: int|
                    0 <= k < i ==> entries@[k].id@ == before[k].id@ && entries@[k].user@
                        == (UserView { points: None, ..before[k].user@ }),
                forall|k: int| i <= k < before.len() ==> entries@[k] == before[k],
            decreases entries@.len() - i,
        {
            entries[i].user.points = None;
            i += 1;
        }
        proof {
            assert(ids_of(entries@) =~= ids_of(before));
            let cleared = old(self)@.without_points();
            assert forall|id: Seq<char>| users_of(entries@).dom().contains(id) implies users_of(
                entries@,
            )[id] == #[trigger] cleared.users[id] by {
                lemma_present(entries@, id);
                lemma_entry(before, ids_of(entries@).index_of(id));
            }
            assert(users_of(entries@) =~= cleared.users);
        }
        self.put(entries, admin);
    }

    /// Applies one command of the participant `issuer`. A refused command
    /// changes nothing and says why it was refused. Whatever is accepted,
    /// the admin afterwards is a participant who is not kicked, or nobody.
    pub fn apply(&mut self, issuer: &str, command: &ClientMessage) -> (r: Result<(), Error>)
        ensures
            match old(self)@.apply(issuer@, command@) {
                Ok(t) => r is Ok && final(self)@ == t,
                Err(e) => r == Err::<(), Error>(e) && final(self)@ == old(self)@,
            },
    {
        proof {
            use_type_invariant(&*self);
            lemma_apply_wf(self@, issuer@, command@);
        }
        let key = String::from_str(issuer);
        let at = match self.position(&key) {
            Some(at) => at,
            None => {
                return Err(Error::UnknownUserId);
            },
        };
        if self.entries[at].user.kicked {
            return Err(Error::UserKicked);
        }
        match command {
            ClientMessage::NameChange(name) => {
                if name.as_str().unicode_len() <= MAX_NAME_LEN {
                    self.rename(at, name)
                } else {
                    Err(Error::InvalidMessage)
                }
            },
            ClientMessage::SetPoints(points) => {
                if points.as_str().unicode_len() <= MAX_POINTS_LEN
                    && !self.entries[at].user.is_spectator {
                    let (mut entries, admin) = self.take();
                    let ghost before = entries@;
                    entries[at].user.points = Some(points.clone());
                    proof {
                        lemma_replace(before, entries@, at as int);
                    }
                    self.put(entries, admin);
                    Ok(())
                } else {
                    Err(Error::InvalidMessage)
                }
            },
            ClientMessage::ResetPoints => {
                if self.is_admin(&key) {
                    self.clear_points();
                    Ok(())
                } else {
                    Err(Error::InsufficientPermissions)
                }
            },
            ClientMessage::Whoami => Ok(()),
            ClientMessage::ClaimSession => {
                if self.admin.is_none() {
                    self.admin = Some(key);
                    Ok(())
                } else {
                    Err(Error::InsufficientPermissions)
                }
            },
            ClientMessage::KickUser(target) => {
                if !self.is_admin(&key) {
                    return Err(Error::InsufficientPermissions);
                }
                match self.position(target) {
                    None => Err(Error::UnknownUserId),
                    Some(t) => {
                        let (mut entries, admin) = self.take();
                        let ghost before = entries@;
                        entries[t].user.kicked = true;
                        proof {
                            lemma_replace(before, entries@, t as int);
                        }
                        let admin = settle_admin(&entries, admin);
                        self.put(entries, admin);
                        Ok(())
                    },
                }
            },
            ClientMessage::SetSpectator(is_spectator) => {
                let (mut entries, admin) = self.take();
                let ghost before = entries@;
                entries[at].user.is_spectator = *is_spectator;
                entries[at].user.points = None;
                proof {
                    lemma_replace(before, entries@, at as int);
                }
                self.put(entries, admin);
                Ok(())
            },
            ClientMessage::HoldConnection => Ok(()),
        }
    }

    /// The view that `viewer` is allowed, or the reason to disconnect a
    /// viewer who is absent or kicked.
    pub fn project(&self, viewer: &str) -> (r: Result<SessionState, Error>)
        ensures
            match self@.project(viewer@) {
                Ok(t) => r is Ok && r->Ok_0@ == t,
                Err(e) => r is Err && r->Err_0 == e,
            },
    {
        proof {
            use_type_invariant(self);
            lemma_project_wf(self@, viewer@);
        }
        let key = String::from_str(viewer);
        let at = match self.position(&key) {
            Some(at) => at,
            None => {
                return Err(Error::UnknownUserId);
            },
        };
        if self.entries[at].user.kicked {
            return Err(Error::UserKicked);
        }
        let masking = self.is_masking();
        let ghost s = self@;
        let ghost all = self.entries@;
        let mut shown: Vec<Entry> = Vec::new();
        proof {
            lemma_no_entries();
        }
        let mut i: usize = 0;
        proof {
            lemma_shown_none(s, all, viewer@);
        }
        while i < self.entries.len()
            invariant
                i <= self.entries.len(),
                all == self.entries@,
                s == self@,
                key@ == viewer@,
                masking == s.masking(),
                ids_of(all).no_duplicates(),
                ids_of(shown@).no_duplicates(),
                users_of(shown@) == shown_upto(s, all, viewer@, i as int),
            decreases self.entries.len() - i,
        {
            let e = &self.entries[i];
            proof {
                lemma_entry(all, i as int);
                lemma_shown_step(s, all, viewer@, i as int);
            }
            if !e.user.kicked {
                let mut user = e.user.clone();
                if masking && e.id != key && user.points.is_some() {
                    proof {
                        reveal_strlit("-1");
                    }
                    let hidden = String::from_str("-1");
                    assert(hidden@ =~= hidden_points());
                    user.points = Some(hidden);
                }
                let entry = Entry { id: e.id.clone(), user };
                proof {
                    lemma_append(shown@, entry);
                }
                shown.push(entry);
            }
            i += 1;
        }
        let admin = clone_text(&self.admin);
        proof {
            lemma_shown_all(s, all, viewer@);
        }
        Ok(SessionState { entries: shown, admin })
    }
}

impl Clone for SessionState {
    fn clone(&self) -> (copy: Self)
        ensures
            copy@ == self@,
    {
        proof {
            use_type_invariant(self);
        }
        let mut entries: Vec<Entry> = Vec::new();
        let mut i: usize = 0;
        while i < self.entries.len()
            invariant
                i <= self.entries.len(),
                entries@.len() == i,
                forall|k: int|
                    0 <= k < i ==> entries@[k].id@ == self.entries@[k].id@ && entries@[k].user@
                        == self.entries@[k].user@,
            decreases self.entries.len() - i,
        {
            let e = &self.entries[i];
            entries.push(Entry { id: e.id.clone(), user: e.user.clone() });
            i += 1;
        }
        let admin = clone_text(&self.admin);
        proof {
            lemma_same(self.entries@, entries@);
        }
        SessionState { entries, admin }
    }
}

impl Default for SessionState {
    fn default() -> (state: Self)
        ensures
            state@ == StateView::empty(),
    {
        SessionState::new()
    }
}

} // verus!
