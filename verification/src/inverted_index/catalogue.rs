//! The catalogue: where the content of each document is stored.

use crate::decimal::{
    decimal_text, format_u64, lemma_decimal_round_trip, lemma_decimal_text_injective, parse_u64,
};
use crate::inverted_index::snapshot::{
    catalogue_from, lemma_catalogue_error_stays, lists_catalogue, names_document, SnapshotError,
};
use crate::json::{member_views, Json, JsonView, Member};
use std::collections::HashMap;
use vstd::prelude::*;
use vstd::std_specs::iter::IteratorSpec;

verus! {

broadcast use vstd::std_specs::hash::group_hash_axioms;

/// For each document, by its id, the path under which its content is
/// stored.
pub struct Catalogue {
    documents: HashMap<u64, String>,
}

impl View for Catalogue {
    type V = Map<u64, Seq<char>>;

    closed spec fn view(&self) -> Map<u64, Seq<char>> {
        self.documents@.map_values(|path: String| path@)
    }
}

impl Catalogue {
    /// A catalogue without documents.
    pub fn new() -> (catalogue: Catalogue)
        ensures
            catalogue@ == Map::<u64, Seq<char>>::empty(),
    {
        let catalogue = Catalogue { documents: HashMap::new() };
        assert(catalogue@ =~= Map::<u64, Seq<char>>::empty());
        catalogue
    }

    /// Notes that the content of the document `id` is stored at `path`, in
    /// place of what the catalogue held for that id.
    pub fn insert(&mut self, document_id: u64, path: String)
        ensures
            final(self)@ == old(self)@.insert(document_id, path@),
    {
        self.documents.insert(document_id, path);
        assert(self@ =~= old(self)@.insert(document_id, path@));
    }

    /// Takes the document `id` out and hands back the path that was held
    /// for it.
    pub fn remove(&mut self, document_id: u64) -> (path: Option<String>)
        ensures
            final(self)@ == old(self)@.remove(document_id),
            match path {
                Some(p) => old(self)@.contains_key(document_id) && p@ == old(
                    self,
                )@[document_id],
                None => !old(self)@.contains_key(document_id),
            },
    {
        let path = self.documents.remove(&document_id);
        assert(self@ =~= old(self)@.remove(document_id));
        path
    }

    /// Whether the catalogue holds the document `id`.
    pub fn contains(&self, document_id: u64) -> (held: bool)
        ensures
            held == self@.contains_key(document_id),
    {
        self.documents.contains_key(&document_id)
    }

    /// The path under which the content of the document `id` is stored.
    pub fn get(&self, document_id: u64) -> (path: Option<String>)
        ensures
            match path {
                Some(p) => self@.contains_key(document_id) && p@ == self@[document_id],
                None => !self@.contains_key(document_id),
            },
    {
        match self.documents.get(&document_id) {
            Some(path) => Some(path.clone()),
            None => None,
        }
    }

    /// The number of documents.
    pub fn len(&self) -> (count: usize)
        ensures
            count == self@.len(),
            self@.dom().finite(),
    {
        assert(self@.dom() =~= self.documents@.dom());
        self.documents.len()
    }

    /// Reads a catalogue from the members that a snapshot holds under
    /// `documents`.
    pub fn from_members(members: &Vec<Member>) -> (read: Result<Catalogue, SnapshotError>)
        ensures
            match read {
                Ok(catalogue) => catalogue_from(member_views(members@)) == Ok::<
                    Map<u64, Seq<char>>,
                    SnapshotError,
                >(catalogue@),
                Err(e) => catalogue_from(member_views(members@)) == Err::<
                    Map<u64, Seq<char>>,
                    SnapshotError,
                >(e),
            },
    {
        let ghost all = member_views(members@);
        let mut catalogue = Catalogue::new();
        let mut i: usize = 0;
        assert(all.take(0) =~= Seq::<(Seq<char>, JsonView)>::empty());
        while i < members.len()
            invariant
                i <= members.len(),
                all == member_views(members@),
                catalogue_from(all.take(i as int)) == Ok::<Map<u64, Seq<char>>, SnapshotError>(
                    catalogue@,
                ),
            decreases members.len() - i,
        {
            proof {
                assert(all.take(i + 1).drop_last() =~= all.take(i as int));
                assert(all.take(i + 1).last() == all[i as int]);
            }
            let id = match parse_u64(members[i].name.as_str()) {
                Some(id) => id,
                None => {
                    proof {
                        lemma_catalogue_error_stays(all, i + 1);
                    }
                    return Err(SnapshotError::Id);
                },
            };
            let path = match members[i].value.as_str() {
                Some(path) => path.clone(),
                None => {
                    proof {
                        lemma_catalogue_error_stays(all, i + 1);
                    }
                    return Err(SnapshotError::Document);
                },
            };
            catalogue.insert(id, path);
            i += 1;
        }
        assert(all.take(i as int) =~= all);
        Ok(catalogue)
    }

    /// The members that a snapshot holds under `documents`: one for each
    /// document, named by its id in decimal.
    pub fn to_members(&self) -> (members: Vec<Member>)
        ensures
            lists_catalogue(member_views(members@), self@),
            forall|i: int|
                0 <= i < members.len() ==> (#[trigger] member_views(members@)[i]).1.writable(0),
    {
        let ghost listed = vstd::std_specs::hash::spec_hash_map_iter(&self.documents).remaining();
        let mut members: Vec<Member> = Vec::new();
        for entry in it: self.documents.iter()
            invariant
                it.seq() == listed,
                listed.no_duplicates(),
                members.len() == it.index(),
                forall|k: int|
                    0 <= k < members.len() ==> (#[trigger] members[k]).name@ == decimal_text(
                        *listed[k].0 as nat,
                    ) && members[k].value@ == JsonView::Text(listed[k].1@),
        {
            let (id, path) = entry;
            members.push(Member { name: format_u64(*id), value: Json::Text(path.clone()) });
        }
        proof {
            let views = member_views(members@);
            let kept = self@;
            assert forall|k: int| 0 <= k < views.len() implies names_document(
                #[trigger] views[k],
                kept,
            ) by {
                assert(members[k].name@ == decimal_text(*listed[k].0 as nat));
                lemma_decimal_round_trip(*listed[k].0);
                assert(self.documents@.contains_key(*listed[k].0));
            }
            assert forall|a: int, b: int| 0 <= a < b < views.len() implies views[a].0
                != views[b].0 by {
                assert(members[a].name@ == decimal_text(*listed[a].0 as nat));
                assert(members[b].name@ == decimal_text(*listed[b].0 as nat));
                if views[a].0 == views[b].0 {
                    lemma_decimal_text_injective(*listed[a].0, *listed[b].0);
                    assert(self.documents@.contains_key(*listed[a].0));
                    assert(self.documents@[*listed[a].0] == *listed[a].1);
                    assert(self.documents@[*listed[b].0] == *listed[b].1);
                    assert(listed[a] == listed[b]);
                }
            }
            assert forall|id: u64| kept.contains_key(id) implies exists|k: int|
                0 <= k < views.len() && (#[trigger] views[k]).0 == decimal_text(id as nat) by {
                assert(self.documents@.contains_key(id));
                assert(listed.contains((&id, &self.documents@[id])));
                let k = choose|k: int|
                    0 <= k < listed.len() && listed[k] == (&id, &self.documents@[id]);
                assert(members[k].name@ == decimal_text(*listed[k].0 as nat));
                assert(views[k].0 == decimal_text(id as nat));
            }
            assert forall|k: int| 0 <= k < members.len() implies (#[trigger] views[k]).1.writable(
                0,
            ) by {
                assert(members[k].value@ == JsonView::Text(listed[k].1@));
            }
        }
        members
    }
}

} // verus!
