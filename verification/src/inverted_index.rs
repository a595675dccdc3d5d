//! The inverted index: which documents hold which tokens, where each
//! document is kept, and the id that the next document will get.

pub mod catalogue;
pub mod history;
pub mod postings;
pub mod snapshot;
pub mod tokenize;

use crate::inverted_index::catalogue::Catalogue;
use crate::inverted_index::postings::{matching, with_document, without_document, Postings};
use crate::inverted_index::snapshot::{is_snapshot, read_snapshot, snapshot_state, SnapshotError};
use crate::inverted_index::tokenize::{tokenize, tokens_of};
use crate::json::{
    json_text, lemma_writable_deeper, member_views, parse, render, Json, JsonView, Member,
    MAX_DEPTH,
};
use std::collections::HashSet;
use vstd::prelude::*;
use vstd::string::StringExecFns;

verus! {

/// What an index holds.
pub struct IndexState {
    /// For each token, the ids of the documents listed under it.
    pub index: Map<Seq<char>, Set<u64>>,
    /// For each document, the path under which its content is stored.
    pub documents: Map<u64, Seq<char>>,
    /// The id that the next document gets.
    pub next_id: u64,
}

impl IndexState {
    /// The state made of the given posting lists, catalogue and next id.
    pub open spec fn made_of(
        index: Map<Seq<char>, Set<u64>>,
        documents: Map<u64, Seq<char>>,
        next_id: u64,
    ) -> IndexState {
        IndexState { index, documents, next_id }
    }

    /// No token, no document, and 0 as the first id.
    pub open spec fn empty() -> IndexState {
        IndexState { index: Map::empty(), documents: Map::empty(), next_id: 0 }
    }

    /// The id after `id`. The counter wraps after the last 64-bit value.
    pub open spec fn id_after(id: u64) -> u64 {
        if id == u64::MAX {
            0
        } else {
            (id + 1) as u64
        }
    }

    /// The state once a document stored at `path`, whose content holds
    /// `tokens`, has been added: it gets the next id and is listed under each
    /// of its tokens.
    pub open spec fn add(self, path: Seq<char>, tokens: Seq<Seq<char>>) -> IndexState {
        IndexState {
            index: with_document(self.index, self.next_id, tokens),
            documents: self.documents.insert(self.next_id, path),
            next_id: Self::id_after(self.next_id),
        }
    }

    /// The state once the document `id` has been deleted: it has left the
    /// catalogue and every posting list. The id is not given out again.
    pub open spec fn delete(self, id: u64) -> IndexState {
        IndexState {
            index: without_document(self.index, id),
            documents: self.documents.remove(id),
            next_id: self.next_id,
        }
    }

    /// The ids listed under at least one of `tokens`.
    pub open spec fn search(self, tokens: Seq<Seq<char>>) -> Set<u64> {
        matching(self.index, tokens)
    }
}

/// An inverted index over stored documents. It keeps the path of each
/// document, never its content.
pub struct InvertedIndex {
    index: Postings,
    documents: Catalogue,
    last_document_id: u64,
}

impl View for InvertedIndex {
    type V = IndexState;

    closed spec fn view(&self) -> IndexState {
        IndexState {
            index: self.index@,
            documents: self.documents@,
            next_id: self.last_document_id,
        }
    }
}

impl InvertedIndex {
    /// The representation is sound: no token has two posting lists.
    pub closed spec fn wf(&self) -> bool {
        self.index.wf()
    }

    /// An empty index.
    pub fn new() -> (index: InvertedIndex)
        ensures
            index.wf(),
            index@ == IndexState::empty(),
    {
        InvertedIndex { index: Postings::new(), documents: Catalogue::new(), last_document_id: 0 }
    }

    /// The index made of the given posting lists, catalogue and next id.
    pub fn from_parts(index: Postings, documents: Catalogue, last_document_id: u64) -> (whole:
        InvertedIndex)
        requires
            index.wf(),
        ensures
            whole.wf(),
            whole@ == IndexState::made_of(index@, documents@, last_document_id),
    {
        InvertedIndex { index, documents, last_document_id }
    }

    /// The posting lists, the catalogue and the next id of the index.
    pub fn into_parts(self) -> (parts: (Postings, Catalogue, u64))
        requires
            self.wf(),
        ensures
            parts.0.wf(),
            self@ == IndexState::made_of(parts.0@, parts.1@, parts.2),
    {
        (self.index, self.documents, self.last_document_id)
    }

    /// Adds a document stored at `path` whose content holds `tokens`.
    pub fn add_tokens(&mut self, path: String, tokens: &Vec<String>)
        requires
            old(self).wf(),
        ensures
            final(self).wf(),
            final(self)@ == old(self)@.add(path@, tokens.deep_view()),
    {
        let id = self.last_document_id;
        self.last_document_id = if id == u64::MAX {
            0
        } else {
            id + 1
        };
        self.documents.insert(id, path);
        self.index.add_document(id, tokens);
    }

    /// Adds the document stored at `path`. `content` is what was read there,
    /// or `None` where it could not be read: the index then stays as it is,
    /// and no id is used up.
    pub fn add_document(&mut self, path: String, content: Option<&str>)
        requires
            old(self).wf(),
        ensures
            final(self).wf(),
            final(self)@ == match content {
                Some(text) => old(self)@.add(path@, tokens_of(text@)),
                None => old(self)@,
            },
    {
        match content {
            Some(text) => {
                let tokens = tokenize(text);
                self.add_tokens(path, &tokens);
            },
            None => {},
        }
    }

    /// The documents listed under at least one of `tokens`.
    pub fn search_tokens(&self, tokens: &Vec<String>) -> (found: HashSet<u64>)
        requires
            self.wf(),
        ensures
            found@ == self@.search(tokens.deep_view()),
    {
        self.index.search(tokens)
    }

    /// The documents that hold at least one token of `query`. Tokens are
    /// compared as they stand, case included.
    pub fn search(&self, query: &str) -> (found: HashSet<u64>)
        requires
            self.wf(),
        ensures
            found@ == self@.search(tokens_of(query@)),
    {
        let tokens = tokenize(query);
        self.search_tokens(&tokens)
    }

    /// Deletes the document `id` from the catalogue and from every posting
    /// list, and hands back the path of its content, which is now the
    /// caller's to remove. `None` says that the catalogue had no such
    /// document; the posting lists are scrubbed all the same.
    pub fn delete_document(&mut self, document_id: u64) -> (path: Option<String>)
        requires
            old(self).wf(),
        ensures
            final(self).wf(),
            final(self)@ == old(self)@.delete(document_id),
            match path {
                Some(p) => old(self)@.documents.contains_key(document_id) && p@ == old(
                    self,
                )@.documents[document_id],
                None => !old(self)@.documents.contains_key(document_id),
            },
    {
        let path = self.documents.remove(document_id);
        self.index.remove_document(document_id);
        path
    }

    /// Whether the catalogue holds the document `id`.
    pub fn document_exists(&self, document_id: u64) -> (exists: bool)
        ensures
            exists == self@.documents.contains_key(document_id),
    {
        self.documents.contains(document_id)
    }

    /// The path under which the content of the document `id` is stored.
    pub fn get_document_path(&self, document_id: u64) -> (path: Option<String>)
        ensures
            match path {
                Some(p) => self@.documents.contains_key(document_id) && p@
                    == self@.documents[document_id],
                None => !self@.documents.contains_key(document_id),
            },
    {
        self.documents.get(document_id)
    }

    /// The number of documents in the catalogue.
    pub fn get_document_count(&self) -> (count: usize)
        ensures
            count == self@.documents.len(),
    {
        self.documents.len()
    }

    /// Reads an index from a snapshot document.
    pub fn from_json(document: &Json) -> (read: Result<InvertedIndex, SnapshotError>)
        ensures
            match read {
                Ok(index) => index.wf() && snapshot_state(document@) == Ok::<
                    IndexState,
                    SnapshotError,
                >(index@),
                Err(e) => snapshot_state(document@) == Err::<IndexState, SnapshotError>(e),
            },
    {
        let index = match document.get(&String::from_str("index")) {
            Some(value) => match value.as_object() {
                Some(listed) => match Postings::from_members(listed) {
                    Ok(index) => index,
                    Err(e) => {
                        return Err(e);
                    },
                },
                None => {
                    return Err(SnapshotError::Index);
                },
            },
            None => {
                return Err(SnapshotError::Index);
            },
        };
        let documents = match document.get(&String::from_str("documents")) {
            Some(value) => match value.as_object() {
                Some(kept) => match Catalogue::from_members(kept) {
                    Ok(documents) => documents,
                    Err(e) => {
                        return Err(e);
                    },
                },
                None => {
                    return Err(SnapshotError::Documents);
                },
            },
            None => {
                return Err(SnapshotError::Documents);
            },
        };
        let last_document_id = match document.get(&String::from_str("last_document_id")) {
            Some(value) => match value.as_u64() {
                Some(id) => id,
                None => {
                    return Err(SnapshotError::LastDocumentId);
                },
            },
            None => {
                return Err(SnapshotError::LastDocumentId);
            },
        };
        Ok(InvertedIndex { index, documents, last_document_id })
    }

    /// Reads an index from the text of a snapshot. A text that is no
    /// snapshot is refused with the reason: nothing is guessed or skipped.
    pub fn load(text: &str) -> (read: Result<InvertedIndex, SnapshotError>)
        ensures
            match read {
                Ok(index) => index.wf() && read_snapshot(text@) == Ok::<IndexState, SnapshotError>(
                    index@,
                ),
                Err(e) => read_snapshot(text@) == Err::<IndexState, SnapshotError>(e),
            },
    {
        match parse(text) {
            Ok(document) => InvertedIndex::from_json(&document),
            Err(_) => Err(SnapshotError::Syntax),
        }
    }

    /// Opens an index: from the text of its snapshot where there is one,
    /// empty where there is none.
    pub fn open(snapshot: Option<&str>) -> (opened: Result<InvertedIndex, SnapshotError>)
        ensures
            match opened {
                Ok(index) => index.wf() && match snapshot {
                    Some(text) => read_snapshot(text@) == Ok::<IndexState, SnapshotError>(index@),
                    None => index@ == IndexState::empty(),
                },
                Err(e) => snapshot matches Some(text) && read_snapshot(text@) == Err::<
                    IndexState,
                    SnapshotError,
                >(e),
            },
    {
        match snapshot {
            Some(text) => InvertedIndex::load(text),
            None => Ok(InvertedIndex::new()),
        }
    }

    /// The snapshot document of the index.
    pub fn to_json(&self) -> (document: Json)
        requires
            self.wf(),
        ensures
            is_snapshot(document@, self@),
            document@.writable(MAX_DEPTH as nat),
    {
        snapshot_json(&self.index, &self.documents, self.last_document_id)
    }

    /// The text of the index's snapshot, for the caller to store in place
    /// of the snapshot before. The members of `index` and of `documents`
    /// come in no stated order.
    pub fn save(&self) -> (saved: Result<String, SnapshotError>)
        requires
            self.wf(),
        ensures
            exists|document: JsonView| #[trigger]
                is_snapshot(document, self@) && match saved {
                    Ok(text) => json_text(document) == Some(text@),
                    Err(e) => e is Unwritable && json_text(document) is None,
                },
    {
        let saved = snapshot_text(&self.index, &self.documents, self.last_document_id);
        proof {
            let state = IndexState::made_of(self.index@, self.documents@, self.last_document_id);
            let document = choose|document: JsonView| #[trigger]
                is_snapshot(document, state) && match saved {
                    Ok(text) => json_text(document) == Some(text@),
                    Err(e) => e is Unwritable && json_text(document) is None,
                };
            assert(is_snapshot(document, self@));
        }
        saved
    }

    /// The id that the next document gets.
    pub fn last_document_id(&self) -> (id: u64)
        ensures
            id == self@.next_id,
    {
        self.last_document_id
    }
}

/// The snapshot document of the index made of the given posting lists,
/// catalogue and next id.
pub fn snapshot_json(index: &Postings, documents: &Catalogue, last_document_id: u64) -> (document:
    Json)
    requires
        index.wf(),
    ensures
        is_snapshot(document@, IndexState::made_of(index@, documents@, last_document_id)),
        document@.writable(MAX_DEPTH as nat),
{
    let listed = index.to_members();
    let kept = documents.to_members();
    let ghost listed_views = member_views(listed@);
    let ghost kept_views = member_views(kept@);
    let index_value = Json::Object(listed);
    let documents_value = Json::Object(kept);
    proof {
        Json::lemma_object_view(listed);
        Json::lemma_object_view(kept);
        assert forall|i: int| 0 <= i < listed_views.len() implies (#[trigger] listed_views[i])
            .1.writable(126) by {
            lemma_writable_deeper(listed_views[i].1, 1, 126);
        }
        assert forall|i: int| 0 <= i < kept_views.len() implies (#[trigger] kept_views[i])
            .1.writable(126) by {
            lemma_writable_deeper(kept_views[i].1, 0, 126);
        }
        assert(index_value@.writable(127));
        assert(documents_value@.writable(127));
    }
    let mut members: Vec<Member> = Vec::new();
    members.push(Member { name: String::from_str("index"), value: index_value });
    members.push(Member { name: String::from_str("documents"), value: documents_value });
    members.push(
        Member {
            name: String::from_str("last_document_id"),
            value: Json::Unsigned(last_document_id),
        },
    );
    proof {
        Json::lemma_object_view(members);
        reveal_strlit("index");
        reveal_strlit("documents");
        reveal_strlit("last_document_id");
        let views = member_views(members@);
        assert(views[0] == ("index"@, index_value@));
        assert(views[1] == ("documents"@, documents_value@));
        assert(views[2] == ("last_document_id"@, JsonView::Unsigned(last_document_id)));
        assert("index"@.len() == 5);
        assert("documents"@.len() == 9);
        assert("last_document_id"@.len() == 16);
        assert(views.drop_first()[0] == views[1]);
        assert(views.drop_first().drop_first()[0] == views[2]);
        reveal_with_fuel(crate::json::first_named, 4);
        assert forall|i: int| 0 <= i < views.len() implies (#[trigger] views[i]).1.writable(
            127,
        ) by {}
    }
    Json::Object(members)
}

/// The text of the snapshot of the index made of the given posting lists,
/// catalogue and next id.
pub fn snapshot_text(index: &Postings, documents: &Catalogue, last_document_id: u64) -> (saved:
    Result<String, SnapshotError>)
    requires
        index.wf(),
    ensures
        exists|document: JsonView| #[trigger]
            is_snapshot(document, IndexState::made_of(index@, documents@, last_document_id))
                && match saved {
                Ok(text) => json_text(document) == Some(text@),
                Err(e) => e is Unwritable && json_text(document) is None,
            },
{
    let document = snapshot_json(index, documents, last_document_id);
    let saved = match render(&document) {
        Ok(text) => Ok(text),
        Err(_) => Err(SnapshotError::Unwritable),
    };
    assert(is_snapshot(document@, IndexState::made_of(index@, documents@, last_document_id)));
    saved
}

} // verus!
