//! Posting lists: for each token, the ids of the documents that hold it.

use crate::inverted_index::snapshot::{
    all_unsigned, is_posting_list, lemma_postings_error_stays, lists_postings, numbers_in,
    posting_ids, postings_from, SnapshotError,
};
use crate::json::{item_views, member_views, Json, JsonView, Member};
use std::collections::BTreeSet;
use std::collections::HashSet;
use vstd::prelude::*;
use vstd::std_specs::cmp::OrdSpec;
use vstd::std_specs::iter::IteratorSpec;

verus! {

broadcast use {
    vstd::std_specs::btree::group_btree_axioms,
    vstd::std_specs::hash::group_hash_axioms,
    vstd::laws_cmp::group_laws_cmp,
};

/// The ids listed under `token`: none where the token is unknown.
pub open spec fn ids_of(index: Map<Seq<char>, Set<u64>>, token: Seq<char>) -> Set<u64> {
    if index.contains_key(token) {
        index[token]
    } else {
        Set::empty()
    }
}

/// `index` once the document `id` is listed under each of `tokens`. A token
/// that occurs twice is listed once.
pub open spec fn with_document(
    index: Map<Seq<char>, Set<u64>>,
    id: u64,
    tokens: Seq<Seq<char>>,
) -> Map<Seq<char>, Set<u64>> {
    Map::new(
        |t: Seq<char>| index.contains_key(t) || tokens.contains(t),
        |t: Seq<char>|
            if tokens.contains(t) {
                ids_of(index, t).insert(id)
            } else {
                index[t]
            },
    )
}

/// `index` once `id` has left every posting list. The tokens stay, some of
/// them with an empty list.
pub open spec fn without_document(index: Map<Seq<char>, Set<u64>>, id: u64) -> Map<
    Seq<char>,
    Set<u64>,
> {
    index.map_values(|ids: Set<u64>| ids.remove(id))
}

/// The ids listed under at least one of `tokens`.
pub open spec fn matching(index: Map<Seq<char>, Set<u64>>, tokens: Seq<Seq<char>>) -> Set<u64> {
    Set::new(
        |id: u64|
            exists|i: int| 0 <= i < tokens.len() && #[trigger] ids_of(index, tokens[i]).contains(id),
    )
}

/// One token with the ids listed under it.
pub struct Posting {
    token: String,
    ids: BTreeSet<u64>,
}

/// The posting lists of an index, one per token.
pub struct Postings {
    entries: Vec<Posting>,
}

impl View for Postings {
    type V = Map<Seq<char>, Set<u64>>;

    closed spec fn view(&self) -> Map<Seq<char>, Set<u64>> {
        Map::new(|t: Seq<char>| self.has(t), |t: Seq<char>| self.entries[self.slot(t)].ids@)
    }
}

impl Postings {
    /// No token has two posting lists.
    pub closed spec fn wf(&self) -> bool {
        forall|i: int, j: int|
            0 <= i < j < self.entries.len() ==> self.entries[i].token@ != self.entries[j].token@
    }

    spec fn has(&self, token: Seq<char>) -> bool {
        exists|i: int| 0 <= i < self.entries.len() && self.entries[i].token@ == token
    }

    spec fn slot(&self, token: Seq<char>) -> int {
        choose|i: int| 0 <= i < self.entries.len() && self.entries[i].token@ == token
    }

    proof fn lemma_entries(&self)
        requires
            self.wf(),
        ensures
            forall|i: int|
                #![trigger self.entries[i]]
                0 <= i < self.entries.len() ==> self@.contains_key(self.entries[i].token@)
                    && self@[self.entries[i].token@] == self.entries[i].ids@,
            forall|t: Seq<char>|
                self@.contains_key(t) ==> 0 <= self.slot(t) < self.entries.len()
                    && self.entries[self.slot(t)].token@ == t,
    {
        assert forall|i: int| 0 <= i < self.entries.len() implies self@.contains_key(
            self.entries[i].token@,
        ) && self@[self.entries[i].token@] == (#[trigger] self.entries[i]).ids@ by {
            let t = self.entries[i].token@;
            assert(self.has(t));
            let k = self.slot(t);
            assert(k == i);
        }
    }

    /// An index without tokens.
    pub fn new() -> (postings: Postings)
        ensures
            postings.wf(),
            postings@ == Map::<Seq<char>, Set<u64>>::empty(),
    {
        let postings = Postings { entries: Vec::new() };
        assert(postings@ =~= Map::<Seq<char>, Set<u64>>::empty());
        postings
    }

    fn position(&self, token: &String) -> (found: Option<usize>)
        ensures
            match found {
                Some(i) => i < self.entries.len() && self.entries[i as int].token@ == token@,
                None => !self.has(token@),
            },
    {
        let mut i: usize = 0;
        while i < self.entries.len()
            invariant
                i <= self.entries.len(),
                forall|k: int| 0 <= k < i ==> self.entries[k].token@ != token@,
            decreases self.entries.len() - i,
        {
            if self.entries[i].token == *token {
                return Some(i);
            }
            i += 1;
        }
        None
    }

    /// Lists `id` under `token`, with a new posting list where the token had
    /// none.
    pub fn insert(&mut self, token: String, id: u64)
        requires
            old(self).wf(),
        ensures
            final(self).wf(),
            final(self)@ == old(self)@.insert(token@, ids_of(old(self)@, token@).insert(id)),
    {
        proof {
            self.lemma_entries();
        }
        match self.position(&token) {
            Some(i) => {
                self.entries[i].ids.insert(id);
                proof {
                    assert(self.wf());
                    self.lemma_entries();
                    let target = old(self)@.insert(token@, ids_of(old(self)@, token@).insert(id));
                    assert forall|t: Seq<char>| self@.contains_key(t) implies target.contains_key(
                        t,
                    ) && self@[t] == target[t] by {
                        let k = self.slot(t);
                        assert(old(self).entries[k].token@ == t);
                    }
                    assert forall|t: Seq<char>| target.contains_key(t) implies self@.contains_key(
                        t,
                    ) by {
                        if t != token@ {
                            let k = old(self).slot(t);
                            assert(self.entries[k].token@ == t);
                        } else {
                            assert(self.entries[i as int].token@ == t);
                        }
                    }
                    assert(self@ =~= target);
                }
            },
            None => {
                let mut ids = BTreeSet::new();
                ids.insert(id);
                self.entries.push(Posting { token, ids });
                proof {
                    assert(self.wf());
                    self.lemma_entries();
                    let target = old(self)@.insert(token@, ids_of(old(self)@, token@).insert(id));
                    let last = self.entries.len() - 1;
                    assert(self.entries[last].token@ == token@);
                    assert forall|t: Seq<char>| self@.contains_key(t) implies target.contains_key(
                        t,
                    ) && self@[t] == target[t] by {
                        let k = self.slot(t);
                        if k < last {
                            assert(old(self).entries[k].token@ == t);
                        }
                    }
                    assert forall|t: Seq<char>| target.contains_key(t) implies self@.contains_key(
                        t,
                    ) by {
                        if t != token@ {
                            let k = old(self).slot(t);
                            assert(self.entries[k].token@ == t);
                        }
                    }
                    assert(self@ =~= target);
                }
            },
        }
    }

    /// Sets the posting list of `token` to `ids`, in place of the one it had.
    pub fn put(&mut self, token: String, ids: BTreeSet<u64>)
        requires
            old(self).wf(),
        ensures
            final(self).wf(),
            final(self)@ == old(self)@.insert(token@, ids@),
    {
        proof {
            self.lemma_entries();
        }
        let ghost target = self@.insert(token@, ids@);
        match self.position(&token) {
            Some(i) => {
                self.entries[i].ids = ids;
                proof {
                    assert(self.wf());
                    self.lemma_entries();
                    assert forall|t: Seq<char>| self@.contains_key(t) implies target.contains_key(
                        t,
                    ) && self@[t] == target[t] by {
                        let k = self.slot(t);
                        assert(old(self).entries[k].token@ == t);
                    }
                    assert forall|t: Seq<char>| target.contains_key(t) implies self@.contains_key(
                        t,
                    ) by {
                        if t != token@ {
                            let k = old(self).slot(t);
                            assert(self.entries[k].token@ == t);
                        } else {
                            assert(self.entries[i as int].token@ == t);
                        }
                    }
                    assert(self@ =~= target);
                }
            },
            None => {
                self.entries.push(Posting { token, ids });
                proof {
                    assert(self.wf());
                    self.lemma_entries();
                    let last = self.entries.len() - 1;
                    assert(self.entries[last].token@ == token@);
                    assert forall|t: Seq<char>| self@.contains_key(t) implies target.contains_key(
                        t,
                    ) && self@[t] == target[t] by {
                        let k = self.slot(t);
                        if k < last {
                            assert(old(self).entries[k].token@ == t);
                        }
                    }
                    assert forall|t: Seq<char>| target.contains_key(t) implies self@.contains_key(
                        t,
                    ) by {
                        if t != token@ {
                            let k = old(self).slot(t);
                            assert(self.entries[k].token@ == t);
                        }
                    }
                    assert(self@ =~= target);
                }
            },
        }
    }

    /// Lists `id` under each of `tokens`.
    pub fn add_document(&mut self, id: u64, tokens: &Vec<String>)
        requires
            old(self).wf(),
        ensures
            final(self).wf(),
            final(self)@ == with_document(old(self)@, id, tokens.deep_view()),
    {
        let ghost before = self@;
        let ghost all = tokens.deep_view();
        assert(self@ =~= with_document(before, id, all.take(0)));
        let mut i: usize = 0;
        while i < tokens.len()
            invariant
                i <= tokens.len(),
                all == tokens.deep_view(),
                self.wf(),
                self@ == with_document(before, id, all.take(i as int)),
            decreases tokens.len() - i,
        {
            proof {
                lemma_with_document_step(before, id, all, i as int);
            }
            self.insert(tokens[i].clone(), id);
            i += 1;
        }
        assert(all.take(i as int) =~= all);
    }

    /// Takes `id` out of every posting list.
    pub fn remove_document(&mut self, id: u64)
        requires
            old(self).wf(),
        ensures
            final(self).wf(),
            final(self)@ == without_document(old(self)@, id),
    {
        let mut i: usize = 0;
        while i < self.entries.len()
            invariant
                i <= self.entries.len(),
                self.entries.len() == old(self).entries.len(),
                forall|k: int|
                    0 <= k < self.entries.len() ==> (#[trigger] self.entries[k]).token@ == old(
                        self,
                    ).entries[k].token@,
                forall|k: int|
                    0 <= k < i ==> (#[trigger] self.entries[k]).ids@ == old(
                        self,
                    ).entries[k].ids@.remove(id),
                forall|k: int|
                    i <= k < self.entries.len() ==> (#[trigger] self.entries[k]).ids@ == old(
                        self,
                    ).entries[k].ids@,
            decreases self.entries.len() - i,
        {
            self.entries[i].ids.remove(&id);
            i += 1;
        }
        proof {
            assert(self.wf());
            self.lemma_entries();
            old(self).lemma_entries();
            let target = without_document(old(self)@, id);
            assert forall|t: Seq<char>| self@.contains_key(t) implies target.contains_key(t)
                && self@[t] == target[t] by {
                let k = self.slot(t);
                assert(old(self).entries[k].token@ == t);
            }
            assert forall|t: Seq<char>| target.contains_key(t) implies self@.contains_key(t) by {
                let k = old(self).slot(t);
                assert(self.entries[k].token@ == t);
            }
            assert(self@ =~= target);
        }
    }

    /// The ids listed under at least one of `tokens`.
    pub fn search(&self, tokens: &Vec<String>) -> (found: HashSet<u64>)
        requires
            self.wf(),
        ensures
            found@ == matching(self@, tokens.deep_view()),
    {
        let ghost all = tokens.deep_view();
        let mut found: HashSet<u64> = HashSet::new();
        let mut i: usize = 0;
        assert(found@ =~= matching(self@, all.take(0)));
        while i < tokens.len()
            invariant
                i <= tokens.len(),
                all == tokens.deep_view(),
                self.wf(),
                found@ == matching(self@, all.take(i as int)),
            decreases tokens.len() - i,
        {
            proof {
                self.lemma_entries();
                lemma_matching_step(self@, all, i as int);
            }
            match self.position(&tokens[i]) {
                Some(k) => {
                    gather(&self.entries[k].ids, &mut found);
                },
                None => {
                    assert(found@.union(ids_of(self@, all[i as int])) =~= found@);
                },
            }
            i += 1;
        }
        assert(all.take(i as int) =~= all);
        found
    }

    /// Reads posting lists from the members that a snapshot holds under
    /// `index`.
    pub fn from_members(members: &Vec<Member>) -> (read: Result<Postings, SnapshotError>)
        ensures
            match read {
                Ok(postings) => postings.wf() && postings_from(member_views(members@)) == Ok::<
                    Map<Seq<char>, Set<u64>>,
                    SnapshotError,
                >(postings@),
                Err(e) => postings_from(member_views(members@)) == Err::<
                    Map<Seq<char>, Set<u64>>,
                    SnapshotError,
                >(e),
            },
    {
        let ghost all = member_views(members@);
        let mut postings = Postings::new();
        let mut i: usize = 0;
        assert(all.take(0) =~= Seq::<(Seq<char>, JsonView)>::empty());
        while i < members.len()
            invariant
                i <= members.len(),
                all == member_views(members@),
                postings.wf(),
                postings_from(all.take(i as int)) == Ok::<Map<Seq<char>, Set<u64>>, SnapshotError>(
                    postings@,
                ),
            decreases members.len() - i,
        {
            proof {
                assert(all.take(i + 1).drop_last() =~= all.take(i as int));
                assert(all.take(i + 1).last() == all[i as int]);
            }
            match read_ids(&members[i].value) {
                Ok(ids) => {
                    postings.put(members[i].name.clone(), ids);
                },
                Err(e) => {
                    proof {
                        lemma_postings_error_stays(all, i + 1);
                    }
                    return Err(e);
                },
            }
            i += 1;
        }
        assert(all.take(i as int) =~= all);
        Ok(postings)
    }

    /// The members that a snapshot holds under `index`: one for each token,
    /// with the token's ids in ascending order.
    pub fn to_members(&self) -> (members: Vec<Member>)
        requires
            self.wf(),
        ensures
            lists_postings(member_views(members@), self@),
            forall|i: int|
                0 <= i < members.len() ==> (#[trigger] member_views(members@)[i]).1.writable(1),
    {
        let mut members: Vec<Member> = Vec::new();
        let mut i: usize = 0;
        while i < self.entries.len()
            invariant
                i <= self.entries.len(),
                members.len() == i,
                forall|k: int|
                    0 <= k < i ==> (#[trigger] members[k]).name@ == self.entries[k].token@
                        && is_posting_list(members[k].value@, self.entries[k].ids@)
                        && members[k].value@.writable(1),
            decreases self.entries.len() - i,
        {
            let value = id_array(&self.entries[i].ids);
            members.push(Member { name: self.entries[i].token.clone(), value });
            i += 1;
        }
        proof {
            self.lemma_entries();
            let views = member_views(members@);
            assert forall|k: int| 0 <= k < views.len() implies self@.contains_key(
                (#[trigger] views[k]).0,
            ) && is_posting_list(views[k].1, self@[views[k].0]) by {
                assert(members[k].name@ == self.entries[k].token@);
            }
            assert forall|a: int, b: int| 0 <= a < b < views.len() implies views[a].0
                != views[b].0 by {
                assert(members[a].name@ == self.entries[a].token@);
                assert(members[b].name@ == self.entries[b].token@);
            }
            assert forall|token: Seq<char>| self@.contains_key(token) implies exists|k: int|
                0 <= k < views.len() && (#[trigger] views[k]).0 == token by {
                let k = self.slot(token);
                assert(members[k].name@ == self.entries[k].token@);
                assert(views[k].0 == token);
            }
            assert forall|k: int| 0 <= k < members.len() implies (#[trigger] views[k]).1.writable(
                1,
            ) by {
                assert(members[k].value@.writable(1));
            }
        }
        members
    }
}

/// Adds every id of `ids` to `into`.
fn gather(ids: &BTreeSet<u64>, into: &mut HashSet<u64>)
    ensures
        final(into)@ == old(into)@.union(ids@),
{
    let ghost before = into@;
    let ghost listed = vstd::std_specs::btree::spec_btree_keys_iter(ids).remaining();
    assert(into@ =~= before.union(Seq::<u64>::empty().to_set()));
    for id in it: ids.iter()
        invariant
            it.seq() == listed,
            into@ == before.union(listed.take(it.index()).unref().to_set()),
    {
        proof {
            let seen = listed.take(it.index()).unref();
            assert(listed.take(it.index() + 1).unref() =~= seen.push(*id));
            seen.lemma_push_to_set_commute(*id);
            assert(before.union(seen.to_set()).insert(*id) =~= before.union(
                seen.to_set().insert(*id),
            ));
        }
        into.insert(*id);
    }
    proof {
        assert(listed.take(listed.len() as int) =~= listed);
        assert(listed.unref().to_set() == ids@);
    }
}

/// Listing a document under one more token is one insertion.
proof fn lemma_with_document_step(
    index: Map<Seq<char>, Set<u64>>,
    id: u64,
    tokens: Seq<Seq<char>>,
    i: int,
)
    requires
        0 <= i < tokens.len(),
    ensures
        with_document(index, id, tokens.take(i + 1)) == with_document(
            index,
            id,
            tokens.take(i),
        ).insert(tokens[i], ids_of(with_document(index, id, tokens.take(i)), tokens[i]).insert(id)),
{
    let before = with_document(index, id, tokens.take(i));
    let after = with_document(index, id, tokens.take(i + 1));
    let target = before.insert(tokens[i], ids_of(before, tokens[i]).insert(id));
    assert(tokens.take(i + 1) =~= tokens.take(i).push(tokens[i]));
    assert forall|t: Seq<char>| tokens.take(i + 1).contains(t) <==> tokens.take(i).contains(t) || t
        == tokens[i] by {
        if tokens.take(i).contains(t) {
            let j = choose|j: int| 0 <= j < tokens.take(i).len() && tokens.take(i)[j] == t;
            assert(tokens.take(i + 1)[j] == t);
        }
        if t == tokens[i] {
            assert(tokens.take(i + 1)[i] == t);
        }
    }
    assert(ids_of(before, tokens[i]).insert(id) =~= ids_of(index, tokens[i]).insert(id));
    assert(after =~= target);
}

/// Searching for one more token adds the ids listed under it.
proof fn lemma_matching_step(index: Map<Seq<char>, Set<u64>>, tokens: Seq<Seq<char>>, i: int)
    requires
        0 <= i < tokens.len(),
    ensures
        matching(index, tokens.take(i + 1)) == matching(index, tokens.take(i)).union(
            ids_of(index, tokens[i]),
        ),
{
    let before = matching(index, tokens.take(i));
    let after = matching(index, tokens.take(i + 1));
    assert forall|id: u64| after.contains(id) <==> before.contains(id) || ids_of(
        index,
        tokens[i],
    ).contains(id) by {
        if after.contains(id) {
            let j = choose|j: int|
                0 <= j < tokens.take(i + 1).len() && #[trigger] ids_of(
                    index,
                    tokens.take(i + 1)[j],
                ).contains(id);
            if j < i {
                assert(ids_of(index, tokens.take(i)[j]).contains(id));
            }
        }
        if before.contains(id) {
            let j = choose|j: int|
                0 <= j < tokens.take(i).len() && #[trigger] ids_of(
                    index,
                    tokens.take(i)[j],
                ).contains(id);
            assert(ids_of(index, tokens.take(i + 1)[j]).contains(id));
        }
        if ids_of(index, tokens[i]).contains(id) {
            assert(ids_of(index, tokens.take(i + 1)[i]).contains(id));
        }
    }
    assert(after =~= before.union(ids_of(index, tokens[i])));
}

/// Reads the ids of one posting list.
fn read_ids(value: &Json) -> (read: Result<BTreeSet<u64>, SnapshotError>)
    ensures
        match read {
            Ok(ids) => posting_ids(value@) == Ok::<Set<u64>, SnapshotError>(ids@),
            Err(e) => posting_ids(value@) == Err::<Set<u64>, SnapshotError>(e),
        },
{
    match value.as_array() {
        None => Err(SnapshotError::Ids),
        Some(items) => {
            let ghost views = item_views(items@);
            let mut ids: BTreeSet<u64> = BTreeSet::new();
            let mut i: usize = 0;
            assert(ids@ =~= numbers_in(views.take(0)));
            while i < items.len()
                invariant
                    i <= items.len(),
                    views == item_views(items@),
                    value@ == JsonView::Array(views),
                    all_unsigned(views.take(i as int)),
                    ids@ == numbers_in(views.take(i as int)),
                decreases items.len() - i,
            {
                match items[i].as_u64() {
                    None => {
                        assert(!(views[i as int] is Unsigned));
                        return Err(SnapshotError::Id);
                    },
                    Some(id) => {
                        proof {
                            lemma_numbers_step(views, i as int, id);
                        }
                        ids.insert(id);
                    },
                }
                i += 1;
            }
            assert(views.take(i as int) =~= views);
            Ok(ids)
        },
    }
}

/// One more id read is one more id in the set.
proof fn lemma_numbers_step(items: Seq<JsonView>, i: int, id: u64)
    requires
        0 <= i < items.len(),
        items[i] == JsonView::Unsigned(id),
        all_unsigned(items.take(i)),
    ensures
        all_unsigned(items.take(i + 1)),
        numbers_in(items.take(i + 1)) == numbers_in(items.take(i)).insert(id),
{
    let before = items.take(i);
    let after = items.take(i + 1);
    assert forall|k: int| 0 <= k < after.len() implies #[trigger] after[k] is Unsigned by {
        if k < i {
            assert(before[k] is Unsigned);
        }
    }
    assert forall|x: u64| numbers_in(after).contains(x) <==> numbers_in(before).insert(
        id,
    ).contains(x) by {
        if numbers_in(after).contains(x) {
            let k = choose|k: int|
                0 <= k < after.len() && #[trigger] after[k] == JsonView::Unsigned(x);
            if k < i {
                assert(before[k] == JsonView::Unsigned(x));
            }
        }
        if numbers_in(before).contains(x) {
            let k = choose|k: int|
                0 <= k < before.len() && #[trigger] before[k] == JsonView::Unsigned(x);
            assert(after[k] == JsonView::Unsigned(x));
        }
        if x == id {
            assert(after[i] == JsonView::Unsigned(x));
        }
    }
    assert(numbers_in(after) =~= numbers_in(before).insert(id));
}

/// The ids of one posting list as a JSON array, in ascending order.
fn id_array(ids: &BTreeSet<u64>) -> (value: Json)
    ensures
        is_posting_list(value@, ids@),
        value@.writable(1),
{
    let ghost listed = vstd::std_specs::btree::spec_btree_keys_iter(ids).remaining();
    let mut items: Vec<Json> = Vec::new();
    for id in it: ids.iter()
        invariant
            it.seq() == listed,
            items.len() == it.index(),
            forall|k: int| 0 <= k < items.len() ==> (#[trigger] items[k])@ == JsonView::Unsigned(*listed[k]),
    {
        items.push(Json::Unsigned(*id));
    }
    proof {
        Json::lemma_array_view(items);
        let views = item_views(items@);
        assert(listed.unref().to_set() == ids@);
        assert forall|k: int| 0 <= k < views.len() implies #[trigger] views[k]
            == JsonView::Unsigned(*listed[k]) by {
            assert(items[k]@ == JsonView::Unsigned(*listed[k]));
        }
        assert forall|x: u64| numbers_in(views).contains(x) <==> ids@.contains(x) by {
            if numbers_in(views).contains(x) {
                let k = choose|k: int|
                    0 <= k < views.len() && #[trigger] views[k] == JsonView::Unsigned(x);
                assert(listed.unref()[k] == x);
                assert(listed.unref().contains(x));
            }
            if ids@.contains(x) {
                assert(listed.unref().contains(x));
                let k = choose|k: int| 0 <= k < listed.unref().len() && listed.unref()[k] == x;
                assert(views[k] == JsonView::Unsigned(x));
            }
        }
        assert(numbers_in(views) =~= ids@);
        assert forall|a: int, b: int| 0 <= a < b < views.len() implies views[a]->Unsigned_0
            < views[b]->Unsigned_0 by {
            lemma_listed_ascending(listed, a, b);
        }
        assert forall|k: int| 0 <= k < views.len() implies (#[trigger] views[k]).writable(0) by {}
    }
    Json::Array(items)
}

/// A set hands out its ids in ascending order.
proof fn lemma_listed_ascending(listed: Seq<&u64>, a: int, b: int)
    requires
        vstd::std_specs::btree::increasing_seq(listed),
        0 <= a < b < listed.len(),
    ensures
        *listed[a] < *listed[b],
{
    vstd::std_specs::btree::axiom_increasing_seq_meaning::<&u64>(listed);
    assert(OrdSpec::cmp_spec(&listed[a], &listed[b]) is Less);
}

} // verus!
