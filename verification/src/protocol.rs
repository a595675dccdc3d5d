//! The vocabulary of the wire protocol: command and status tokens, length
//! fields, and what is answered to a search and to a deletion.

use crate::decimal::{decimal_text, format_u64};
use crate::inverted_index::catalogue::Catalogue;
use crate::scheduler::Task;
use std::collections::HashSet;
use vstd::prelude::*;
use vstd::slice::slice_to_vec;
use vstd::std_specs::iter::IteratorSpec;
use vstd::string::StringExecFns;

verus! {

broadcast use {vstd::std_specs::hash::group_hash_axioms, vstd::string::group_string_axioms};

/// The number of bytes of a command token.
pub const COMMAND_SIZE: usize = 6;

/// The number of bytes of a status token.
pub const STATUS_SIZE: usize = 7;

/// The number of bytes of a length field.
pub const LENGTH_SIZE: usize = 8;

/// The most bytes that are read from or written to a connection at once.
pub const BUFFER_SIZE: usize = 8192;

/// The directory in which uploaded documents are stored.
pub const UPLOADS_DIR: &'static str = "uploads";

/// The file that holds the snapshot of the index.
pub const STATE_FILE: &'static str = "index.json";

/// What a client asks for.
pub enum Command {
    /// Store a document and index it.
    Upload,
    /// Search the index.
    Search,
    /// Delete a document.
    Delete,
    /// Send a stored document back.
    Import,
    /// A token that names no command.
    Unknown(Vec<u8>),
}

/// How a request ended.
pub enum Status {
    Success,
    Error,
    Missing,
    Deleted,
}

/// The bytes of a text in ASCII.
pub open spec fn ascii(text: Seq<char>) -> Seq<u8> {
    Seq::new(text.len(), |i: int| text[i] as u8)
}

/// Whether two runs of bytes are the same.
fn same_bytes(a: &[u8], b: &[u8]) -> (same: bool)
    ensures
        same == (a@ == b@),
{
    if a.len() != b.len() {
        return false;
    }
    let mut i: usize = 0;
    while i < a.len()
        invariant
            i <= a.len(),
            a.len() == b.len(),
            forall|k: int| 0 <= k < i ==> a[k] == b[k],
        decreases a.len() - i,
    {
        if a[i] != b[i] {
            return false;
        }
        i += 1;
    }
    assert(a@ =~= b@);
    true
}

/// Whether `token` is `name` in ASCII.
fn names(token: &[u8], name: &str) -> (same: bool)
    requires
        name.is_ascii(),
    ensures
        same == (token@ == ascii(name@)),
{
    same_bytes(token, name.as_bytes())
}

impl Command {
    /// The command that `token` names: `UPLOAD`, `SEARCH`, `DELETE` or
    /// `IMPORT`, in capitals. Any other token is handed back as unknown.
    pub fn parse(token: &[u8]) -> (command: Command)
        ensures
            match command {
                Command::Upload => token@ == ascii("UPLOAD"@),
                Command::Search => token@ == ascii("SEARCH"@),
                Command::Delete => token@ == ascii("DELETE"@),
                Command::Import => token@ == ascii("IMPORT"@),
                Command::Unknown(bytes) => bytes@ == token@ && token@ != ascii("UPLOAD"@)
                    && token@ != ascii("SEARCH"@) && token@ != ascii("DELETE"@) && token@ != ascii(
                    "IMPORT"@,
                ),
            },
    {
        proof {
            reveal_strlit("UPLOAD");
            reveal_strlit("SEARCH");
            reveal_strlit("DELETE");
            reveal_strlit("IMPORT");
        }
        if names(token, "UPLOAD") {
            Command::Upload
        } else if names(token, "SEARCH") {
            Command::Search
        } else if names(token, "DELETE") {
            Command::Delete
        } else if names(token, "IMPORT") {
            Command::Import
        } else {
            Command::Unknown(slice_to_vec(token))
        }
    }
}

impl Status {
    /// The token that is sent for the status.
    pub open spec fn text(self) -> Seq<char> {
        match self {
            Status::Success => "SUCCESS"@,
            Status::Error => "*ERROR*"@,
            Status::Missing => "MISSING"@,
            Status::Deleted => "DELETED"@,
        }
    }

    /// The status that `token` names, if it names one.
    pub fn parse(token: &[u8]) -> (status: Option<Status>)
        ensures
            match status {
                Some(s) => token@ == ascii(s.text()),
                None => forall|s: Status| token@ != ascii(s.text()),
            },
    {
        proof {
            reveal_strlit("SUCCESS");
            reveal_strlit("*ERROR*");
            reveal_strlit("MISSING");
            reveal_strlit("DELETED");
        }
        if names(token, "SUCCESS") {
            Some(Status::Success)
        } else if names(token, "*ERROR*") {
            Some(Status::Error)
        } else if names(token, "MISSING") {
            Some(Status::Missing)
        } else if names(token, "DELETED") {
            Some(Status::Deleted)
        } else {
            None
        }
    }

    /// The token that is sent for the status: seven ASCII characters.
    pub fn token(&self) -> (token: &'static str)
        ensures
            token@ == self.text(),
            token@.len() == STATUS_SIZE,
            token.is_ascii(),
    {
        proof {
            reveal_strlit("SUCCESS");
            reveal_strlit("*ERROR*");
            reveal_strlit("MISSING");
            reveal_strlit("DELETED");
        }
        match self {
            Status::Success => "SUCCESS",
            Status::Error => "*ERROR*",
            Status::Missing => "MISSING",
            Status::Deleted => "DELETED",
        }
    }
}

/// The number that a length field of eight bytes holds, its most
/// significant byte first.
pub open spec fn length_value(field: Seq<u8>) -> nat {
    (((((((field[0] * 256 + field[1]) * 256 + field[2]) * 256 + field[3]) * 256 + field[4]) * 256
        + field[5]) * 256 + field[6]) * 256 + field[7]) as nat
}

/// Reads a length field. `None` says that the field does not have its eight
/// bytes.
pub fn decode_length(field: &[u8]) -> (length: Option<u64>)
    ensures
        match length {
            Some(n) => field@.len() == LENGTH_SIZE && n == length_value(field@),
            None => field@.len() != LENGTH_SIZE,
        },
{
    if field.len() != LENGTH_SIZE {
        return None;
    }
    let h0: u64 = field[0] as u64;
    let h1: u64 = h0 * 256 + field[1] as u64;
    let h2: u64 = h1 * 256 + field[2] as u64;
    let h3: u64 = h2 * 256 + field[3] as u64;
    let h4: u64 = h3 * 256 + field[4] as u64;
    let h5: u64 = h4 * 256 + field[5] as u64;
    let h6: u64 = h5 * 256 + field[6] as u64;
    let h7: u64 = h6 * 256 + field[7] as u64;
    Some(h7)
}

/// Writes `n` as a length field.
pub fn encode_length(n: u64) -> (field: Vec<u8>)
    ensures
        field@.len() == LENGTH_SIZE,
        length_value(field@) == n,
{
    let q6: u64 = n / 256;
    let q5: u64 = q6 / 256;
    let q4: u64 = q5 / 256;
    let q3: u64 = q4 / 256;
    let q2: u64 = q3 / 256;
    let q1: u64 = q2 / 256;
    let q0: u64 = q1 / 256;
    let mut field: Vec<u8> = Vec::with_capacity(LENGTH_SIZE);
    field.push(q0 as u8);
    field.push((q1 % 256) as u8);
    field.push((q2 % 256) as u8);
    field.push((q3 % 256) as u8);
    field.push((q4 % 256) as u8);
    field.push((q5 % 256) as u8);
    field.push((q6 % 256) as u8);
    field.push((n % 256) as u8);
    proof {
        assert(q0 < 256);
        assert(field@[0] * 256 + field@[1] == q1);
        assert(q1 * 256 + field@[2] == q2);
        assert(q2 * 256 + field@[3] == q3);
        assert(q3 * 256 + field@[4] == q4);
        assert(q4 * 256 + field@[5] == q5);
        assert(q5 * 256 + field@[6] == q6);
        assert(q6 * 256 + field@[7] == n);
    }
    field
}

/// The ids of `listing` in decimal, with a comma between one and the next.
pub open spec fn joined(listing: Seq<u64>) -> Seq<char>
    decreases listing.len(),
{
    if listing.len() == 0 {
        Seq::empty()
    } else if listing.len() == 1 {
        decimal_text(listing[0] as nat)
    } else {
        joined(listing.drop_last()) + seq![','] + decimal_text(listing.last() as nat)
    }
}

/// The answer to a search that found `found`: the token of success, then
/// the ids in decimal with commas between them, each id once, in no stated
/// order.
pub fn search_response(found: &HashSet<u64>) -> (response: String)
    ensures
        exists|listing: Seq<u64>|
            listing.no_duplicates() && listing.to_set() == found@ && response@ == "SUCCESS"@
                + #[trigger] joined(listing),
{
    let ghost listed = vstd::std_specs::hash::spec_hash_keys_iter(found).remaining();
    let mut response = String::from_str(Status::Success.token());
    let ghost head = response@;
    let mut first = true;
    assert(head + joined(listed.take(0).unref()) =~= head);
    for id in it: found.iter()
        invariant
            it.seq() == listed,
            first == (it.index() == 0),
            head == "SUCCESS"@,
            response@ == head + joined(listed.take(it.index()).unref()),
    {
        proof {
            reveal_strlit(",");
            let before = listed.take(it.index()).unref();
            let after = listed.take(it.index() + 1).unref();
            assert(after.drop_last() =~= before);
            assert(after.last() == *id);
            assert(before.len() > 0 ==> head + joined(after) =~= head + joined(before) + ","@
                + decimal_text(*id as nat));
            assert(before.len() == 0 ==> joined(before) =~= Seq::<char>::empty() && head + joined(
                after,
            ) =~= head + decimal_text(*id as nat));
        }
        if !first {
            response.append(",");
        }
        response.append(format_u64(*id).as_str());
        first = false;
    }
    proof {
        assert(listed.take(listed.len() as int) =~= listed);
        let listing = listed.unref();
        assert(listing.to_set() == found@);
        assert forall|a: int, b: int| 0 <= a < b < listing.len() implies listing[a]
            != listing[b] by {
            assert(listed[a] != listed[b]);
        }
        assert(response@ == "SUCCESS"@ + joined(listing));
    }
    response
}

/// What is answered to the request to delete the document `id`, and the
/// task to schedule for it: a document that the catalogue does not hold is
/// reported missing and nothing is scheduled.
pub fn plan_delete(documents: &Catalogue, document_id: u64) -> (plan: (Status, Option<Task>))
    ensures
        match plan.1 {
            Some(task) => documents@.contains_key(document_id) && plan.0 is Deleted && task
                == Task::DeleteDocument(document_id),
            None => !documents@.contains_key(document_id) && plan.0 is Missing,
        },
{
    if documents.contains(document_id) {
        (Status::Deleted, Some(Task::DeleteDocument(document_id)))
    } else {
        (Status::Missing, None)
    }
}

/// The path under which an upload is stored: the file `unique` with the
/// ending `.txt`, in the uploads directory. The task to schedule for the
/// upload adds the document at that path.
pub fn plan_upload(unique: &str) -> (task: Task)
    ensures
        task matches Task::AddDocument(path) && path@ == UPLOADS_DIR@ + "/"@ + unique@ + ".txt"@,
{
    let path = String::from_str(UPLOADS_DIR).concat("/").concat(unique).concat(".txt");
    Task::AddDocument(path)
}

/// The size of the buffer through which an upload of `file_size` bytes is
/// read.
pub fn upload_buffer_size(file_size: usize) -> (size: usize)
    ensures
        size == if file_size < BUFFER_SIZE {
            file_size
        } else {
            BUFFER_SIZE
        },
{
    if file_size < BUFFER_SIZE {
        file_size
    } else {
        BUFFER_SIZE
    }
}

} // verus!
