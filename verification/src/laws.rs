//! What holds of the store over whole histories of calls. Each call on a
//! store runs alone, under `&mut self`, so whatever callers do at the same
//! time reaches the store as one sequence of calls, and a history is such a
//! sequence.

use vstd::prelude::*;
use crate::store::{lemma_filter_absent, lemma_filter_present, lemma_remove_keeps_wf, StoreView};
use crate::user::UserView;

verus! {

/// One call on the store.
pub enum Call {
    /// `create` with this name and age.
    Create { name: Seq<char>, age: nat },
    /// `list`.
    List,
    /// `delete` of this identifier.
    Delete { id: nat },
}

/// The state that one call leaves.
pub open spec fn step(state: StoreView, call: Call) -> StoreView {
    match call {
        Call::Create { name, age } => state.create(name, age),
        Call::List => state,
        Call::Delete { id } => state.delete(id),
    }
}

/// The state that a history of calls leaves.
pub open spec fn run(start: StoreView, calls: Seq<Call>) -> StoreView
    decreases calls.len(),
{
    if calls.len() == 0 {
        start
    } else {
        step(run(start, calls.drop_last()), calls.last())
    }
}

/// The records that the `create` calls of a history returned, in the order
/// of the calls.
pub open spec fn created(start: StoreView, calls: Seq<Call>) -> Seq<UserView>
    decreases calls.len(),
{
    if calls.len() == 0 {
        Seq::empty()
    } else {
        let earlier = created(start, calls.drop_last());
        match calls.last() {
            Call::Create { name, age } => earlier.push(run(start, calls.drop_last()).fresh(name, age)),
            _ => earlier,
        }
    }
}

/// The position of the record with this identifier, where there is one.
pub open spec fn position(state: StoreView, id: nat) -> int {
    choose|i: int| 0 <= i < state.records.len() && (#[trigger] state.records[i]).id == id
}

/// No two live records carry the same identifier.
pub proof fn lemma_ids_distinct(state: StoreView, i: int, j: int)
    requires
        state.wf(),
        0 <= i < state.records.len(),
        0 <= j < state.records.len(),
        i != j,
    ensures
        state.records[i].id != state.records[j].id,
{
    if i < j {
        assert(state.records[i].id < state.records[j].id);
    } else {
        assert(state.records[j].id < state.records[i].id);
    }
}

/// `create` keeps the store well-formed, takes the counter as the new
/// identifier and moves the counter on by exactly one.
pub proof fn lemma_create(state: StoreView, name: Seq<char>, age: nat)
    requires
        state.wf(),
    ensures
        state.create(name, age).wf(),
        state.create(name, age).next_id == state.next_id + 1,
        state.create(name, age).records.len() == state.records.len() + 1,
        state.create(name, age).records.last() == (UserView { id: state.next_id, name, age }),
        state.create(name, age).records.drop_last() == state.records,
        !state.contains_id(state.next_id),
{
    let after = state.create(name, age).records;
    assert forall|i: int, j: int| 0 <= i < j < after.len() implies (#[trigger] after[i]).id
            < (#[trigger] after[j]).id by {
        assert(state.records[i].id < state.next_id);
        if j < state.records.len() {
            assert(state.records[i].id < state.records[j].id);
        }
    }
    assert(after.drop_last() =~= state.records);
}

/// `delete` of an identifier that a live record carries removes exactly that
/// record: the others stay, in their order, and the counter stays.
pub proof fn lemma_delete_present(state: StoreView, id: nat)
    requires
        state.wf(),
        state.contains_id(id),
    ensures
        0 <= position(state, id) < state.records.len(),
        state.records[position(state, id)].id == id,
        state.delete(id).records == state.records.remove(position(state, id)),
        state.delete(id).records.len() == state.records.len() - 1,
        state.delete(id).next_id == state.next_id,
        state.delete(id).wf(),
{
    let at = position(state, id);
    assert forall|k: int| 0 <= k < state.records.len() implies ((#[trigger] state.records[k]).id == id
        <==> k == at) by {
        if k != at {
            lemma_ids_distinct(state, k, at);
        }
    }
    lemma_filter_present(state.records, id, at);
    lemma_remove_keeps_wf(state, at);
}

/// `delete` of an identifier that no live record carries leaves the store as
/// it is.
pub proof fn lemma_delete_absent(state: StoreView, id: nat)
    requires
        !state.contains_id(id),
    ensures
        state.delete(id) == state,
{
    lemma_filter_absent(state.records, id);
}

/// `delete` keeps the store well-formed.
pub proof fn lemma_delete_keeps_wf(state: StoreView, id: nat)
    requires
        state.wf(),
    ensures
        state.delete(id).wf(),
{
    if state.contains_id(id) {
        lemma_delete_present(state, id);
    } else {
        lemma_delete_absent(state, id);
    }
}

/// After `delete` of an identifier no live record carries it, so a second
/// `delete` of it finds nothing and changes nothing.
pub proof fn lemma_delete_twice(state: StoreView, id: nat)
    ensures
        !state.delete(id).contains_id(id),
        state.delete(id).delete(id) == state.delete(id),
{
    let keep = |u: UserView| u.id != id;
    let rest = state.delete(id).records;
    assert forall|i: int| 0 <= i < rest.len() implies (#[trigger] rest[i]).id != id by {
        state.records.lemma_filter_pred(keep, i);
    }
    lemma_delete_absent(state.delete(id), id);
}

/// A history keeps the store well-formed, and the counter ends as many
/// above its start as the history holds `create` calls: it never goes back.
pub proof fn lemma_run(start: StoreView, calls: Seq<Call>)
    requires
        start.wf(),
    ensures
        run(start, calls).wf(),
        run(start, calls).next_id == start.next_id + created(start, calls).len(),
    decreases calls.len(),
{
    if calls.len() > 0 {
        let before = run(start, calls.drop_last());
        lemma_run(start, calls.drop_last());
        match calls.last() {
            Call::Create { name, age } => lemma_create(before, name, age),
            Call::List => {},
            Call::Delete { id } => lemma_delete_keeps_wf(before, id),
        }
    }
}

/// The `create` calls of a history get the identifiers from the counter's
/// start upwards, one after the other: none twice, none left out, whatever
/// other calls stand between them. Name and age are those of the call.
pub proof fn lemma_created_ids(start: StoreView, calls: Seq<Call>, k: int)
    requires
        start.wf(),
        0 <= k < created(start, calls).len(),
    ensures
        created(start, calls)[k].id == start.next_id + k,
    decreases calls.len(),
{
    if calls.len() > 0 {
        let front = calls.drop_last();
        lemma_run(start, front);
        if k < created(start, front).len() {
            lemma_created_ids(start, front, k);
        }
    }
}

/// On a store that starts empty, the identifiers that N `create` calls get
/// are 0, 1, .., N-1 in this order.
pub proof fn lemma_created_ids_from_empty(calls: Seq<Call>)
    ensures
        created(StoreView::empty(), calls).map_values(|u: UserView| u.id) == Seq::new(
            created(StoreView::empty(), calls).len(),
            |k: int| k as nat,
        ),
{
    let made = created(StoreView::empty(), calls);
    assert forall|k: int| 0 <= k < made.len() implies made[k].id == k as nat by {
        lemma_created_ids(StoreView::empty(), calls, k);
    }
    assert(made.map_values(|u: UserView| u.id) =~= Seq::new(made.len(), |k: int| k as nat));
}

/// Whether no `delete` of a history names an identifier that one of its
/// `create` calls gets.
pub open spec fn spares_created(start: StoreView, calls: Seq<Call>) -> bool {
    forall|k: int|
        0 <= k < calls.len() ==> (#[trigger] calls[k] matches Call::Delete { id } ==> id < start.next_id || id
            >= start.next_id + created(start, calls).len())
}

/// Where the `delete` calls of a history spare what its `create` calls
/// made, the store ends with exactly those records, in the order of their
/// making, behind what is left of the records it started with.
pub proof fn lemma_created_stay(start: StoreView, calls: Seq<Call>)
    requires
        start.wf(),
        spares_created(start, calls),
    ensures
        created(start, calls).len() <= run(start, calls).records.len(),
        run(start, calls).records.skip(run(start, calls).records.len() - created(start, calls).len())
            == created(start, calls),
        forall|i: int|
            0 <= i < run(start, calls).records.len() - created(start, calls).len() ==> (
            #[trigger] run(start, calls).records[i]).id < start.next_id,
    decreases calls.len(),
{
    let end = run(start, calls).records;
    let made = created(start, calls);
    if calls.len() == 0 {
        assert(end.skip(end.len() - made.len()) =~= made);
    } else {
        let front = calls.drop_last();
        let before = run(start, front);
        let earlier = created(start, front);
        assert(spares_created(start, front)) by {
            assert forall|k: int| 0 <= k < front.len() implies (#[trigger] front[k] matches Call::Delete {
                id,
            } ==> id < start.next_id || id >= start.next_id + earlier.len()) by {
                assert(front[k] == calls[k]);
            }
        }
        lemma_created_stay(start, front);
        lemma_run(start, front);
        let old_part = before.records.len() - earlier.len();
        match calls.last() {
            Call::Create { name, age } => {
                assert(end.skip(end.len() - made.len()) =~= before.records.skip(old_part).push(
                    before.fresh(name, age),
                ));
            },
            Call::List => {},
            Call::Delete { id } => {
                assert(calls[calls.len() - 1] == calls.last());
                let keep = |u: UserView| u.id != id;
                let head = before.records.take(old_part);
                let tail = before.records.skip(old_part);
                assert(before.records =~= head + tail);
                assert forall|i: int| 0 <= i < tail.len() implies (#[trigger] tail[i]).id != id by {
                    lemma_created_ids(start, front, i);
                }
                lemma_filter_absent(tail, id);
                Seq::filter_distributes_over_add(head, tail, keep);
                assert(end == head.filter(keep) + tail);
                head.lemma_filter_len(keep);
                assert(end.skip(end.len() - made.len()) =~= tail);
                assert forall|i: int| 0 <= i < end.len() - made.len() implies (#[trigger] end[i]).id
                    < start.next_id by {
                    let kept = head.filter(keep);
                    assert(end[i] == kept[i]);
                    assert(kept.contains(kept[i]));
                    head.lemma_filter_contains_rev(keep, kept[i]);
                    let from = choose|j: int| 0 <= j < head.len() && head[j] == kept[i];
                    assert(head[from] == before.records[from]);
                }
            },
        }
    }
}

/// On a store that starts empty, where the `delete` calls of a history
/// spare what its `create` calls made, the store ends with exactly the
/// records made, in the order of their making.
pub proof fn lemma_list_after_creates(calls: Seq<Call>)
    requires
        spares_created(StoreView::empty(), calls),
    ensures
        run(StoreView::empty(), calls).records == created(StoreView::empty(), calls),
{
    let start = StoreView::empty();
    lemma_created_stay(start, calls);
    let end = run(start, calls).records;
    let made = created(start, calls);
    if end.len() > made.len() {
        assert(end[0].id < start.next_id);
    }
    assert(end.skip(0) =~= end);
}

} // verus!
