//! The user store: the records in creation order, and the counter that hands
//! out identifiers. Both change together, inside one `&mut self` call.

use vstd::prelude::*;
use crate::user::{views, User, UserView};

verus! {

/// The mathematical value of a store.
pub struct StoreView {
    /// The live records, oldest first.
    pub records: Seq<UserView>,
    /// The identifier that the next `create` hands out.
    pub next_id: nat,
}

impl StoreView {
    /// The store that holds nothing and has handed out no identifier.
    pub open spec fn empty() -> StoreView {
        StoreView { records: Seq::empty(), next_id: 0 }
    }

    /// Every live identifier was handed out before `next_id`, and the
    /// identifiers grow strictly along the records.
    pub open spec fn wf(self) -> bool {
        &&& forall|i: int| 0 <= i < self.records.len() ==> (#[trigger] self.records[i]).id < self.next_id
        &&& forall|i: int, j: int|
            0 <= i < j < self.records.len() ==> (#[trigger] self.records[i]).id < (#[trigger] self.records[j]).id
    }

    /// Whether a live record carries this identifier.
    pub open spec fn contains_id(self, id: nat) -> bool {
        exists|i: int| 0 <= i < self.records.len() && (#[trigger] self.records[i]).id == id
    }

    /// The record that `create` makes in this state.
    pub open spec fn fresh(self, name: Seq<char>, age: nat) -> UserView {
        UserView { id: self.next_id, name, age }
    }

    /// The state after `create`: the new record stands last, and the counter
    /// has moved on by one.
    pub open spec fn create(self, name: Seq<char>, age: nat) -> StoreView {
        StoreView { records: self.records.push(self.fresh(name, age)), next_id: self.next_id + 1 }
    }

    /// The state after `delete`: every record but those with this identifier,
    /// in the same order, and the same counter.
    pub open spec fn delete(self, id: nat) -> StoreView {
        StoreView { records: self.records.filter(|u: UserView| u.id != id), next_id: self.next_id }
    }
}

/// Dropping the records with an identifier that none of them carries changes nothing.
pub proof fn lemma_filter_absent(records: Seq<UserView>, id: nat)
    requires
        forall|i: int| 0 <= i < records.len() ==> (#[trigger] records[i]).id != id,
    ensures
        records.filter(|u: UserView| u.id != id) == records,
    decreases records.len(),
{
    reveal(Seq::filter);
    let keep = |u: UserView| u.id != id;
    if records.len() > 0 {
        lemma_filter_absent(records.drop_last(), id);
        assert(keep(records.last()));
        assert(records.drop_last().push(records.last()) =~= records);
    }
}

/// Where exactly one record carries an identifier, dropping the records with
/// that identifier removes the one at its position.
pub proof fn lemma_filter_present(records: Seq<UserView>, id: nat, at: int)
    requires
        0 <= at < records.len(),
        forall|i: int| 0 <= i < records.len() ==> ((#[trigger] records[i]).id == id <==> i == at),
    ensures
        records.filter(|u: UserView| u.id != id) == records.remove(at),
    decreases records.len(),
{
    reveal(Seq::filter);
    let keep = |u: UserView| u.id != id;
    let front = records.drop_last();
    if at == records.len() - 1 {
        assert(!keep(records.last()));
        lemma_filter_absent(front, id);
        assert(records.remove(at) =~= front);
    } else {
        assert(keep(records.last()));
        lemma_filter_present(front, id, at);
        assert(front.remove(at).push(records.last()) =~= records.remove(at));
    }
}

/// Taking one record out leaves a well-formed state well-formed.
pub proof fn lemma_remove_keeps_wf(state: StoreView, at: int)
    requires
        state.wf(),
        0 <= at < state.records.len(),
    ensures
        (StoreView { records: state.records.remove(at), next_id: state.next_id }).wf(),
{
    let rest = state.records.remove(at);
    assert forall|i: int| 0 <= i < rest.len() implies (#[trigger] rest[i]).id < state.next_id by {
        let from = if i < at { i } else { i + 1 };
        assert(rest[i] == state.records[from]);
    }
    assert forall|i: int, j: int| 0 <= i < j < rest.len() implies (#[trigger] rest[i]).id
            < (#[trigger] rest[j]).id by {
        let from_i = if i < at { i } else { i + 1 };
        let from_j = if j < at { j } else { j + 1 };
        assert(rest[i] == state.records[from_i]);
        assert(rest[j] == state.records[from_j]);
    }
}

/// An in-memory store of users.
pub struct UserStore {
    records: Vec<User>,
    next_id: u32,
}

impl View for UserStore {
    type V = StoreView;

    closed spec fn view(&self) -> StoreView {
        StoreView { records: views(self.records@), next_id: self.next_id as nat }
    }
}

impl UserStore {
    /// The invariant of the store; see [`StoreView::wf`].
    pub open spec fn wf(&self) -> bool {
        self@.wf()
    }

    /// An empty store whose first identifier is 0.
    pub fn new() -> (store: UserStore)
        ensures
            store.wf(),
            store@ == StoreView::empty(),
    {
        let store = UserStore { records: Vec::new(), next_id: 0 };
        assert(views(store.records@) =~= Seq::empty());
        store
    }

    /// The number of live records.
    pub fn len(&self) -> (n: usize)
        ensures
            n == self@.records.len(),
    {
        self.records.len()
    }

    /// The identifier that the next `create` hands out.
    pub fn next_id(&self) -> (id: u32)
        ensures
            id == self@.next_id,
    {
        self.next_id
    }

    /// Whether an identifier is left for another `create`.
    pub fn has_free_id(&self) -> (free: bool)
        ensures
            free == (self@.next_id < u32::MAX),
    {
        self.next_id < u32::MAX
    }

    /// Adds a record with the given name and age under the next identifier,
    /// and returns a copy of it.
    pub fn create(&mut self, name: String, age: u32) -> (user: User)
        requires
            old(self).wf(),
            old(self)@.next_id < u32::MAX,
        ensures
            final(self).wf(),
            final(self)@ == old(self)@.create(name@, age as nat),
            user@ == old(self)@.fresh(name@, age as nat),
    {
        let id = self.next_id;
        let user = User { id, name, age };
        let copy = user.clone();
        self.records.push(user);
        self.next_id = id + 1;
        proof {
            let before = old(self)@.records;
            let after = before.push(user@);
            assert(views(self.records@) =~= after);
            assert forall|i: int, j: int| 0 <= i < j < after.len() implies (#[trigger] after[i]).id
            < (#[trigger] after[j]).id by {
                assert(before[i].id < old(self)@.next_id);
                if j < before.len() {
                    assert(before[i].id < before[j].id);
                }
            }
        }
        copy
    }

    /// A copy of every live record, oldest first.
    pub fn list(&self) -> (users: Vec<User>)
        ensures
            views(users@) == self@.records,
            users.len() == self@.records.len(),
            forall|i: int| 0 <= i < users.len() ==> (#[trigger] users[i])@ == self@.records[i],
    {
        let mut users: Vec<User> = Vec::new();
        let mut i: usize = 0;
        while i < self.records.len()
            invariant
                0 <= i <= self.records.len(),
                users.len() == i,
                forall|k: int| 0 <= k < i ==> (#[trigger] users[k])@ == self.records[k]@,
            decreases self.records.len() - i,
        {
            users.push(self.records[i].clone());
            i += 1;
        }
        assert(views(users@) =~= views(self.records@));
        users
    }

    /// Removes the record with this identifier, if there is one, and says
    /// whether it did. Without such a record the store stays as it is.
    pub fn delete(&mut self, id: u32) -> (removed: bool)
        requires
            old(self).wf(),
        ensures
            final(self).wf(),
            removed == old(self)@.contains_id(id as nat),
            final(self)@ == old(self)@.delete(id as nat),
            !removed ==> *final(self) == *old(self),
    {
        let mut i: usize = 0;
        while i < self.records.len()
            invariant
                0 <= i <= self.records.len(),
                *self == *old(self),
                self.wf(),
                forall|k: int| 0 <= k < i ==> (#[trigger] self.records[k]).id != id,
            decreases self.records.len() - i,
        {
            if self.records[i].id == id {
                proof {
                    let before = self@.records;
                    assert(self.wf());
                    assert(before[i as int].id == id);
                    assert forall|k: int| 0 <= k < before.len() implies ((#[trigger] before[k]).id == id
                        <==> k == i) by {
                        if k != i {
                            if k < i {
                                assert(before[k].id < before[i as int].id);
                            } else {
                                assert(before[i as int].id < before[k].id);
                            }
                        }
                    }
                    lemma_filter_present(before, id as nat, i as int);
                    assert(views(self.records@.remove(i as int)) =~= before.remove(i as int));
                    lemma_remove_keeps_wf(self@, i as int);
                }
                self.records.remove(i);
                return true;
            }
            i += 1;
        }
        proof {
            let before = views(self.records@);
            assert forall|k: int| 0 <= k < before.len() implies (#[trigger] before[k]).id != id by {
                assert(self.records[k].id != id);
            }
            lemma_filter_absent(before, id as nat);
        }
        false
    }
}

} // verus!
