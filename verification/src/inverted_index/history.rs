//! What holds of an index over a whole history of additions and deletions.

use crate::inverted_index::postings::ids_of;
use crate::inverted_index::IndexState;
use vstd::prelude::*;

verus! {

/// One change to an index.
pub enum Step {
    /// A document stored at `path`, whose content holds `tokens`, is added.
    Add { path: Seq<char>, tokens: Seq<Seq<char>> },
    /// The document `id` is deleted.
    Delete { id: u64 },
}

/// `state` after `step`.
pub open spec fn apply(state: IndexState, step: Step) -> IndexState {
    match step {
        Step::Add { path, tokens } => state.add(path, tokens),
        Step::Delete { id } => state.delete(id),
    }
}

/// The state that `steps`, taken in order, lead to from the empty index.
pub open spec fn replay(steps: Seq<Step>) -> IndexState
    decreases steps.len(),
{
    if steps.len() == 0 {
        IndexState::empty()
    } else {
        apply(replay(steps.drop_last()), steps.last())
    }
}

/// How many documents `steps` add.
pub open spec fn additions(steps: Seq<Step>) -> nat
    decreases steps.len(),
{
    if steps.len() == 0 {
        0
    } else {
        additions(steps.drop_last()) + if steps.last() is Add {
            1nat
        } else {
            0nat
        }
    }
}

/// How many deletions among `steps` meet a document that the catalogue
/// holds at that moment.
pub open spec fn removals(steps: Seq<Step>) -> nat
    decreases steps.len(),
{
    if steps.len() == 0 {
        0
    } else {
        removals(steps.drop_last()) + match steps.last() {
            Step::Delete { id } => if replay(steps.drop_last()).documents.contains_key(id) {
                1nat
            } else {
                0nat
            },
            Step::Add { .. } => 0nat,
        }
    }
}

/// The tokens of each document that is there after `steps`, by its id.
pub open spec fn contents(steps: Seq<Step>) -> Map<u64, Seq<Seq<char>>>
    decreases steps.len(),
{
    if steps.len() == 0 {
        Map::empty()
    } else {
        match steps.last() {
            Step::Add { path, tokens } => contents(steps.drop_last()).insert(
                replay(steps.drop_last()).next_id,
                tokens,
            ),
            Step::Delete { id } => contents(steps.drop_last()).remove(id),
        }
    }
}

/// `state` lists each document of `held` under the tokens of its content,
/// and lists nothing else.
pub open spec fn reflects(state: IndexState, held: Map<u64, Seq<Seq<char>>>) -> bool {
    &&& state.documents.dom() == held.dom()
    &&& forall|token: Seq<char>, id: u64|
        #[trigger] ids_of(state.index, token).contains(id) <==> held.contains_key(id)
            && held[id].contains(token)
}

/// Whether every addition among `steps` was given an id that the catalogue
/// did not hold at that moment.
pub open spec fn ids_were_free(steps: Seq<Step>) -> bool
    decreases steps.len(),
{
    if steps.len() == 0 {
        true
    } else {
        ids_were_free(steps.drop_last()) && (steps.last() is Add ==> !replay(
            steps.drop_last(),
        ).documents.contains_key(replay(steps.drop_last()).next_id))
    }
}

/// Starting from the empty index, the number of documents is the number of
/// additions less the number of deletions that met a document.
pub proof fn lemma_document_count(steps: Seq<Step>)
    requires
        ids_were_free(steps),
    ensures
        replay(steps).documents.dom().finite(),
        replay(steps).documents.len() == additions(steps) - removals(steps),
    decreases steps.len(),
{
    if steps.len() > 0 {
        lemma_document_count(steps.drop_last());
    }
}

/// Ids are given out in order from 0: as long as there were no more
/// additions than there are 64-bit values, each addition met an id that was
/// free, and every document's id lies below the number of additions. Until
/// the counter wraps, that number is the next id.
pub proof fn lemma_ids_are_given_in_order(steps: Seq<Step>)
    requires
        additions(steps) <= u64::MAX + 1,
    ensures
        ids_were_free(steps),
        forall|id: u64| replay(steps).documents.contains_key(id) ==> id < additions(steps),
        replay(steps).next_id == if additions(steps) <= u64::MAX {
            additions(steps) as int
        } else {
            0
        },
    decreases steps.len(),
{
    if steps.len() > 0 {
        lemma_ids_are_given_in_order(steps.drop_last());
    }
}

/// An index that only additions and deletions have changed since it was
/// empty lists each of its documents under exactly the tokens of that
/// document's content.
pub proof fn lemma_replay_reflects_contents(steps: Seq<Step>)
    requires
        ids_were_free(steps),
    ensures
        reflects(replay(steps), contents(steps)),
    decreases steps.len(),
{
    if steps.len() > 0 {
        let before = steps.drop_last();
        lemma_replay_reflects_contents(before);
        match steps.last() {
            Step::Add { path, tokens } => {
                lemma_add_reflects(replay(before), contents(before), path, tokens);
            },
            Step::Delete { id } => {
                lemma_delete_reflects(replay(before), contents(before), id);
            },
        }
    } else {
        assert(IndexState::empty().documents.dom() =~= Map::<u64, Seq<Seq<char>>>::empty().dom());
    }
}

/// In an index that only additions and deletions have changed since it
/// was empty, every id in a posting list is the id of a document in the
/// catalogue.
pub proof fn lemma_listed_documents_are_catalogued(steps: Seq<Step>, token: Seq<char>, id: u64)
    requires
        ids_were_free(steps),
        ids_of(replay(steps).index, token).contains(id),
    ensures
        replay(steps).documents.contains_key(id),
{
    lemma_replay_reflects_contents(steps);
}

/// Until the counter wraps, the id that the next document gets never goes
/// back, and a deletion leaves it alone.
pub proof fn lemma_next_id_grows(steps: Seq<Step>, n: int)
    requires
        additions(steps) <= u64::MAX,
        0 <= n <= steps.len(),
    ensures
        replay(steps.take(n)).next_id <= replay(steps).next_id,
{
    lemma_additions_grow(steps, n);
    lemma_ids_are_given_in_order(steps.take(n));
    lemma_ids_are_given_in_order(steps);
}

/// Among the first steps there are no more additions than among all.
proof fn lemma_additions_grow(steps: Seq<Step>, n: int)
    requires
        0 <= n <= steps.len(),
    ensures
        additions(steps.take(n)) <= additions(steps),
    decreases steps.len() - n,
{
    if n < steps.len() {
        lemma_additions_grow(steps, n + 1);
        assert(steps.take(n + 1).drop_last() =~= steps.take(n));
    } else {
        assert(steps.take(n) =~= steps);
    }
}

/// Adding a document under an id that is not in use lists it under the
/// tokens of its content and changes no other document's listing.
pub proof fn lemma_add_reflects(
    state: IndexState,
    held: Map<u64, Seq<Seq<char>>>,
    path: Seq<char>,
    tokens: Seq<Seq<char>>,
)
    requires
        reflects(state, held),
        !state.documents.contains_key(state.next_id),
    ensures
        reflects(state.add(path, tokens), held.insert(state.next_id, tokens)),
{
    let after = state.add(path, tokens);
    let held_after = held.insert(state.next_id, tokens);
    assert(after.documents.dom() =~= held_after.dom());
    assert forall|token: Seq<char>, id: u64| #[trigger]
        ids_of(after.index, token).contains(id) <==> held_after.contains_key(id)
            && held_after[id].contains(token) by {
        assert(ids_of(state.index, token).contains(id) <==> held.contains_key(id)
            && held[id].contains(token));
    }
}

/// Deleting a document takes it, and nothing else, out of every listing.
pub proof fn lemma_delete_reflects(state: IndexState, held: Map<u64, Seq<Seq<char>>>, id: u64)
    requires
        reflects(state, held),
    ensures
        reflects(state.delete(id), held.remove(id)),
{
    let after = state.delete(id);
    let held_after = held.remove(id);
    assert(after.documents.dom() =~= held_after.dom());
    assert forall|token: Seq<char>, other: u64| #[trigger]
        ids_of(after.index, token).contains(other) <==> held_after.contains_key(other)
            && held_after[other].contains(token) by {
        assert(ids_of(state.index, token).contains(other) <==> held.contains_key(other)
            && held[other].contains(token));
    }
}

/// A search returns exactly the documents whose content holds one of the
/// tokens searched for.
pub proof fn lemma_search_finds_holders(
    state: IndexState,
    held: Map<u64, Seq<Seq<char>>>,
    tokens: Seq<Seq<char>>,
)
    requires
        reflects(state, held),
    ensures
        state.search(tokens) == Set::new(
            |id: u64|
                held.contains_key(id) && exists|i: int|
                    0 <= i < tokens.len() && #[trigger] held[id].contains(tokens[i]),
        ),
{
    let holders = Set::new(
        |id: u64|
            held.contains_key(id) && exists|i: int|
                0 <= i < tokens.len() && #[trigger] held[id].contains(tokens[i]),
    );
    assert forall|id: u64| state.search(tokens).contains(id) <==> holders.contains(id) by {
        if state.search(tokens).contains(id) {
            let i = choose|i: int|
                0 <= i < tokens.len() && #[trigger] ids_of(state.index, tokens[i]).contains(id);
            assert(held[id].contains(tokens[i]));
        }
        if holders.contains(id) {
            let i = choose|i: int| 0 <= i < tokens.len() && #[trigger] held[id].contains(tokens[i]);
            assert(ids_of(state.index, tokens[i]).contains(id));
        }
    }
    assert(state.search(tokens) =~= holders);
}

/// A search for the one token `term` returns exactly the documents whose
/// content holds a token equal to `term`.
pub proof fn lemma_search_for_term(
    state: IndexState,
    held: Map<u64, Seq<Seq<char>>>,
    term: Seq<char>,
)
    requires
        reflects(state, held),
    ensures
        state.search(seq![term]) == Set::new(
            |id: u64| held.contains_key(id) && held[id].contains(term),
        ),
{
    lemma_search_finds_holders(state, held, seq![term]);
    let holders = Set::new(|id: u64| held.contains_key(id) && held[id].contains(term));
    assert forall|id: u64| state.search(seq![term]).contains(id) <==> holders.contains(id) by {
        if holders.contains(id) {
            assert(held[id].contains(seq![term][0]));
        }
    }
    assert(state.search(seq![term]) =~= holders);
}

/// Once a document is deleted the catalogue no longer holds it, and no
/// search returns it, whatever is searched for.
pub proof fn lemma_deleted_is_gone(state: IndexState, id: u64, tokens: Seq<Seq<char>>)
    ensures
        !state.delete(id).documents.contains_key(id),
        !state.delete(id).search(tokens).contains(id),
{
}

/// `state` after the documents of `batch` were added, in order.
pub open spec fn add_all(state: IndexState, batch: Seq<(Seq<char>, Seq<Seq<char>>)>) -> IndexState
    decreases batch.len(),
{
    if batch.len() == 0 {
        state
    } else {
        add_all(state, batch.drop_last()).add(batch.last().0, batch.last().1)
    }
}

/// Adding a batch of documents, in whatever order the additions take their
/// turn, gives each of them an id of its own: the ids from the counter's
/// value on, one after the other. Documents that were there before keep
/// theirs. This holds as long as the batch does not take the counter past
/// its last value.
pub proof fn lemma_batch_gets_distinct_ids(
    state: IndexState,
    batch: Seq<(Seq<char>, Seq<Seq<char>>)>,
)
    requires
        state.next_id + batch.len() <= u64::MAX + 1,
    ensures
        forall|k: int|
            0 <= k < batch.len() ==> #[trigger] add_all(state, batch).documents.contains_key(
                (state.next_id + k) as u64,
            ),
        forall|id: u64|
            add_all(state, batch).documents.contains_key(id) <==> state.documents.contains_key(id)
                || state.next_id <= id < state.next_id + batch.len(),
        add_all(state, batch).next_id == if state.next_id + batch.len() <= u64::MAX {
            state.next_id + batch.len()
        } else {
            0
        },
    decreases batch.len(),
{
    if batch.len() > 0 {
        lemma_batch_gets_distinct_ids(state, batch.drop_last());
    }
}

} // verus!
