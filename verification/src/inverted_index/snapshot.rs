//! The snapshot of an index: a JSON object with the posting lists under
//! `index`, the catalogue under `documents`, and the next id under
//! `last_document_id`.

use crate::decimal::{decimal_text, decimal_value, lemma_decimal_round_trip};
use crate::inverted_index::IndexState;
use crate::json::{json_document, JsonView};
use vstd::prelude::*;

verus! {

/// Why a text is no snapshot, or why an index could not be written.
#[derive(Debug)]
pub enum SnapshotError {
    /// The text is not JSON.
    Syntax,
    /// There is no object under `index`.
    Index,
    /// A posting list is not an array.
    Ids,
    /// An id is not an unsigned 64-bit integer: an item of a posting list,
    /// or the name under which the catalogue holds a document.
    Id,
    /// There is no object under `documents`.
    Documents,
    /// A document's path is not a string.
    Document,
    /// There is no unsigned 64-bit integer under `last_document_id`.
    LastDocumentId,
    /// The JSON writer gave up.
    Unwritable,
}

/// Whether every item is an unsigned integer.
pub open spec fn all_unsigned(items: Seq<JsonView>) -> bool {
    forall|i: int| 0 <= i < items.len() ==> #[trigger] items[i] is Unsigned
}

/// The numbers among `items`.
pub open spec fn numbers_in(items: Seq<JsonView>) -> Set<u64> {
    Set::new(|id: u64| exists|i: int| 0 <= i < items.len() && #[trigger] items[i] == JsonView::Unsigned(id))
}

/// The ids that a posting list's value stands for: it has to be an array of
/// ids. An id that is there twice counts once.
pub open spec fn posting_ids(value: JsonView) -> Result<Set<u64>, SnapshotError> {
    match value {
        JsonView::Array(items) => if all_unsigned(items) {
            Ok(numbers_in(items))
        } else {
            Err(SnapshotError::Id)
        },
        _ => Err(SnapshotError::Ids),
    }
}

/// The posting lists that the members under `index` stand for, read in
/// order: the first member that is wrong decides the error, and of two
/// members with one name the later counts.
pub open spec fn postings_from(members: Seq<(Seq<char>, JsonView)>) -> Result<
    Map<Seq<char>, Set<u64>>,
    SnapshotError,
>
    decreases members.len(),
{
    if members.len() == 0 {
        Ok(Map::empty())
    } else {
        match postings_from(members.drop_last()) {
            Err(e) => Err(e),
            Ok(index) => match posting_ids(members.last().1) {
                Err(e) => Err(e),
                Ok(ids) => Ok(index.insert(members.last().0, ids)),
            },
        }
    }
}

/// The catalogue entry that one member under `documents` stands for: its
/// name is the id in decimal, its value the path.
pub open spec fn catalogue_entry(member: (Seq<char>, JsonView)) -> Result<
    (u64, Seq<char>),
    SnapshotError,
> {
    match decimal_value(member.0) {
        None => Err(SnapshotError::Id),
        Some(id) => match member.1 {
            JsonView::Text(path) => Ok((id, path)),
            _ => Err(SnapshotError::Document),
        },
    }
}

/// The catalogue that the members under `documents` stand for, read in
/// order: the first member that is wrong decides the error, and of two
/// members with one id the later counts.
pub open spec fn catalogue_from(members: Seq<(Seq<char>, JsonView)>) -> Result<
    Map<u64, Seq<char>>,
    SnapshotError,
>
    decreases members.len(),
{
    if members.len() == 0 {
        Ok(Map::empty())
    } else {
        match catalogue_from(members.drop_last()) {
            Err(e) => Err(e),
            Ok(documents) => match catalogue_entry(members.last()) {
                Err(e) => Err(e),
                Ok(entry) => Ok(documents.insert(entry.0, entry.1)),
            },
        }
    }
}

/// The state that a snapshot document stands for. What is wrong first, in
/// the order `index`, `documents`, `last_document_id`, decides the error.
/// Members that the snapshot does not know are passed over.
pub open spec fn snapshot_state(document: JsonView) -> Result<IndexState, SnapshotError> {
    match document.field("index"@) {
        Some(JsonView::Object(listed)) => match postings_from(listed) {
            Err(e) => Err(e),
            Ok(index) => match document.field("documents"@) {
                Some(JsonView::Object(kept)) => match catalogue_from(kept) {
                    Err(e) => Err(e),
                    Ok(documents) => match document.field("last_document_id"@) {
                        Some(JsonView::Unsigned(next_id)) => Ok(
                            IndexState { index, documents, next_id },
                        ),
                        _ => Err(SnapshotError::LastDocumentId),
                    },
                },
                _ => Err(SnapshotError::Documents),
            },
        },
        _ => Err(SnapshotError::Index),
    }
}

/// The state that the text of a snapshot stands for.
pub open spec fn read_snapshot(text: Seq<char>) -> Result<IndexState, SnapshotError> {
    match json_document(text) {
        None => Err(SnapshotError::Syntax),
        Some(document) => snapshot_state(document),
    }
}

/// Whether `value` is the posting list `ids` as a snapshot writes it: the
/// array of the ids in ascending order.
pub open spec fn is_posting_list(value: JsonView, ids: Set<u64>) -> bool {
    &&& value is Array
    &&& all_unsigned(value->Array_0)
    &&& numbers_in(value->Array_0) == ids
    &&& forall|i: int, j: int|
        0 <= i < j < value->Array_0.len() ==> value->Array_0[i]->Unsigned_0
            < value->Array_0[j]->Unsigned_0
}

/// Whether `members` are the posting lists `index` as a snapshot writes
/// them: one member for each token, in any order, named by the token and
/// holding its posting list.
pub open spec fn lists_postings(
    members: Seq<(Seq<char>, JsonView)>,
    index: Map<Seq<char>, Set<u64>>,
) -> bool {
    &&& forall|i: int, j: int| 0 <= i < j < members.len() ==> members[i].0 != members[j].0
    &&& forall|i: int|
        0 <= i < members.len() ==> index.contains_key((#[trigger] members[i]).0)
            && is_posting_list(members[i].1, index[members[i].0])
    &&& forall|token: Seq<char>|
        index.contains_key(token) ==> exists|i: int|
            0 <= i < members.len() && (#[trigger] members[i]).0 == token
}

/// Whether `members` are the catalogue `documents` as a snapshot writes it:
/// one member for each document, in any order, named by the id in decimal
/// and holding the path.
pub open spec fn lists_catalogue(
    members: Seq<(Seq<char>, JsonView)>,
    documents: Map<u64, Seq<char>>,
) -> bool {
    &&& forall|i: int|
        0 <= i < members.len() ==> names_document((#[trigger] members[i]), documents)
    &&& forall|i: int, j: int| 0 <= i < j < members.len() ==> members[i].0 != members[j].0
    &&& forall|id: u64|
        documents.contains_key(id) ==> exists|i: int|
            0 <= i < members.len() && (#[trigger] members[i]).0 == decimal_text(id as nat)
}

/// Whether `member` stands for a document of the catalogue: its name is the
/// document's id in decimal, without sign or leading zeros, its value the
/// document's path.
pub open spec fn names_document(member: (Seq<char>, JsonView), documents: Map<u64, Seq<char>>) -> bool {
    &&& decimal_value(member.0) matches Some(id) && documents.contains_key(id) && member.0
        == decimal_text(id as nat) && member.1 == JsonView::Text(documents[id])
}

/// Whether `document` is the snapshot of `state`: an object of three
/// members, `index`, `documents` and `last_document_id`, that hold the
/// posting lists, the catalogue and the next id.
pub open spec fn is_snapshot(document: JsonView, state: IndexState) -> bool {
    &&& document is Object
    &&& document->Object_0.len() == 3
    &&& document.field("index"@) matches Some(JsonView::Object(listed)) && lists_postings(
        listed,
        state.index,
    )
    &&& document.field("documents"@) matches Some(JsonView::Object(kept)) && lists_catalogue(
        kept,
        state.documents,
    )
    &&& document.field("last_document_id"@) == Some(JsonView::Unsigned(state.next_id))
}

/// Posting lists that a snapshot lists are read back as they were.
pub proof fn lemma_postings_read_back(
    members: Seq<(Seq<char>, JsonView)>,
    index: Map<Seq<char>, Set<u64>>,
)
    requires
        lists_postings(members, index),
    ensures
        postings_from(members) == Ok::<Map<Seq<char>, Set<u64>>, SnapshotError>(index),
{
    lemma_postings_prefix(members, index, members.len() as int);
    assert(members.take(members.len() as int) =~= members);
    let read = postings_from(members)->Ok_0;
    assert forall|token: Seq<char>| index.contains_key(token) implies read.contains_key(token) by {
        let i = choose|i: int| 0 <= i < members.len() && (#[trigger] members[i]).0 == token;
    }
    assert(read =~= index);
}

proof fn lemma_postings_prefix(
    members: Seq<(Seq<char>, JsonView)>,
    index: Map<Seq<char>, Set<u64>>,
    n: int,
)
    requires
        lists_postings(members, index),
        0 <= n <= members.len(),
    ensures
        postings_from(members.take(n)) is Ok,
        forall|token: Seq<char>| #[trigger]
            postings_from(members.take(n))->Ok_0.contains_key(token) ==> index.contains_key(token)
                && postings_from(members.take(n))->Ok_0[token] == index[token],
        forall|i: int|
            0 <= i < n ==> postings_from(members.take(n))->Ok_0.contains_key(
                (#[trigger] members[i]).0,
            ),
    decreases n,
{
    if n > 0 {
        lemma_postings_prefix(members, index, n - 1);
        assert(members.take(n).drop_last() =~= members.take(n - 1));
        assert(members.take(n).last() == members[n - 1]);
        assert(is_posting_list(members[n - 1].1, index[members[n - 1].0]));
    }
}

/// A catalogue that a snapshot lists is read back as it was.
pub proof fn lemma_catalogue_read_back(
    members: Seq<(Seq<char>, JsonView)>,
    documents: Map<u64, Seq<char>>,
)
    requires
        lists_catalogue(members, documents),
    ensures
        catalogue_from(members) == Ok::<Map<u64, Seq<char>>, SnapshotError>(documents),
{
    lemma_catalogue_prefix(members, documents, members.len() as int);
    assert(members.take(members.len() as int) =~= members);
    let read = catalogue_from(members)->Ok_0;
    assert forall|id: u64| documents.contains_key(id) implies read.contains_key(id) by {
        let i = choose|i: int|
            0 <= i < members.len() && (#[trigger] members[i]).0 == decimal_text(id as nat);
        lemma_decimal_round_trip(id);
    }
    assert(read =~= documents);
}

proof fn lemma_catalogue_prefix(
    members: Seq<(Seq<char>, JsonView)>,
    documents: Map<u64, Seq<char>>,
    n: int,
)
    requires
        lists_catalogue(members, documents),
        0 <= n <= members.len(),
    ensures
        catalogue_from(members.take(n)) is Ok,
        forall|id: u64| #[trigger]
            catalogue_from(members.take(n))->Ok_0.contains_key(id) ==> documents.contains_key(id)
                && catalogue_from(members.take(n))->Ok_0[id] == documents[id],
        forall|i: int|
            0 <= i < n ==> decimal_value((#[trigger] members[i]).0) is Some
                && catalogue_from(members.take(n))->Ok_0.contains_key(
                decimal_value(members[i].0)->Some_0,
            ),
    decreases n,
{
    if n > 0 {
        lemma_catalogue_prefix(members, documents, n - 1);
        assert(members.take(n).drop_last() =~= members.take(n - 1));
        assert(members.take(n).last() == members[n - 1]);
        let member = members[n - 1];
        assert(names_document(member, documents));
    }
}

/// Reading the snapshot of a state gives the state back: the same posting
/// list for each token, the same catalogue, the same next id.
pub proof fn lemma_snapshot_reads_back(document: JsonView, state: IndexState)
    requires
        is_snapshot(document, state),
    ensures
        snapshot_state(document) == Ok::<IndexState, SnapshotError>(state),
{
    let listed = document.field("index"@)->Some_0->Object_0;
    let kept = document.field("documents"@)->Some_0->Object_0;
    lemma_postings_read_back(listed, state.index);
    lemma_catalogue_read_back(kept, state.documents);
}

/// A text from which the JSON reader takes a snapshot of a state is read
/// as that state, in whatever order the reader hands out the members: the
/// same document count, the same posting list for each token, the same next
/// id.
pub proof fn lemma_snapshot_text_reads_back(text: Seq<char>, document: JsonView, state: IndexState)
    requires
        json_document(text) == Some(document),
        is_snapshot(document, state),
    ensures
        read_snapshot(text) == Ok::<IndexState, SnapshotError>(state),
        read_snapshot(text)->Ok_0.documents.len() == state.documents.len(),
{
    lemma_snapshot_reads_back(document, state);
}

/// An error among the first members is the error of them all.
pub proof fn lemma_postings_error_stays(members: Seq<(Seq<char>, JsonView)>, n: int)
    requires
        0 <= n <= members.len(),
        postings_from(members.take(n)) is Err,
    ensures
        postings_from(members) == postings_from(members.take(n)),
    decreases members.len() - n,
{
    if n < members.len() {
        assert(members.take(n + 1).drop_last() =~= members.take(n));
        lemma_postings_error_stays(members, n + 1);
    } else {
        assert(members.take(n) =~= members);
    }
}

/// An error among the first members is the error of them all.
pub proof fn lemma_catalogue_error_stays(members: Seq<(Seq<char>, JsonView)>, n: int)
    requires
        0 <= n <= members.len(),
        catalogue_from(members.take(n)) is Err,
    ensures
        catalogue_from(members) == catalogue_from(members.take(n)),
    decreases members.len() - n,
{
    if n < members.len() {
        assert(members.take(n + 1).drop_last() =~= members.take(n));
        lemma_catalogue_error_stays(members, n + 1);
    } else {
        assert(members.take(n) =~= members);
    }
}

} // verus!
