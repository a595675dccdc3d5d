use course_work_parallel_computing::inverted_index::postings::Postings;
use course_work_parallel_computing::json::{Json, Member};
use course_work_parallel_computing::inverted_index::snapshot::SnapshotError;
use course_work_parallel_computing::inverted_index::InvertedIndex;
use std::collections::{BTreeSet, HashSet};

fn words(list: &[&str]) -> Vec<String> {
    list.iter().map(|word| word.to_string()).collect()
}

fn ids(list: &[u64]) -> HashSet<u64> {
    list.iter().copied().collect()
}

#[test]
fn test_postings_list_documents_by_token() {
    let mut postings = Postings::new();
    postings.add_document(0, &words(&["a", "b", "a"]));
    postings.add_document(1, &words(&["b", "c"]));
    postings.insert(String::from("c"), 0);
    assert_eq!(postings.search(&words(&["a"])), ids(&[0]));
    assert_eq!(postings.search(&words(&["b"])), ids(&[0, 1]));
    assert_eq!(postings.search(&words(&["c"])), ids(&[0, 1]));
    assert_eq!(postings.search(&words(&["a", "c", "z"])), ids(&[0, 1]));
    assert_eq!(postings.search(&words(&["z"])), ids(&[]));
    assert_eq!(postings.search(&words(&[])), ids(&[]));
}

#[test]
fn test_postings_scrub_keeps_the_tokens() {
    let mut postings = Postings::new();
    postings.add_document(0, &words(&["only", "both"]));
    postings.add_document(1, &words(&["both"]));
    postings.remove_document(0);
    postings.remove_document(5);
    assert_eq!(postings.search(&words(&["only"])), ids(&[]));
    assert_eq!(postings.search(&words(&["both"])), ids(&[1]));
    let members = postings.to_members();
    let names: BTreeSet<&str> = members.iter().map(|m| m.name.as_str()).collect();
    assert_eq!(names, BTreeSet::from(["both", "only"]));
}

#[test]
fn test_postings_put_replaces_a_list() {
    let mut postings = Postings::new();
    postings.add_document(0, &words(&["t"]));
    postings.put(String::from("t"), BTreeSet::from([4, 2]));
    postings.put(String::from("u"), BTreeSet::new());
    assert_eq!(postings.search(&words(&["t"])), ids(&[2, 4]));
    assert_eq!(postings.search(&words(&["u"])), ids(&[]));
}

#[test]
fn test_postings_are_written_in_ascending_order() {
    let mut postings = Postings::new();
    for id in [5u64, 1, 9, 3] {
        postings.insert(String::from("t"), id);
    }
    let members = postings.to_members();
    assert_eq!(members.len(), 1);
    assert_eq!(members[0].name, "t");
    match &members[0].value {
        Json::Array(items) => {
            let listed: Vec<u64> = items
                .iter()
                .map(|item| match item {
                    Json::Unsigned(id) => *id,
                    _ => panic!("a posting list holds ids only"),
                })
                .collect();
            assert_eq!(listed, vec![1, 3, 5, 9]);
        }
        _ => panic!("a posting list is an array"),
    }
}

#[test]
fn test_of_two_members_with_one_name_the_later_counts() {
    let members = vec![
        Member { name: String::from("t"), value: Json::Array(vec![Json::Unsigned(1)]) },
        Member { name: String::from("u"), value: Json::Array(vec![]) },
        Member { name: String::from("t"), value: Json::Array(vec![Json::Unsigned(2)]) },
    ];
    let postings = Postings::from_members(&members).ok().unwrap();
    assert_eq!(postings.search(&words(&["t"])), ids(&[2]));
}

#[test]
fn test_index_reads_a_document_built_by_hand() {
    let document = Json::Object(vec![
        Member { name: String::from("last_document_id"), value: Json::Unsigned(3) },
        Member {
            name: String::from("documents"),
            value: Json::Object(vec![Member {
                name: String::from("2"),
                value: Json::Text(String::from("two.txt")),
            }]),
        },
        Member {
            name: String::from("index"),
            value: Json::Object(vec![Member {
                name: String::from("two"),
                value: Json::Array(vec![Json::Unsigned(2)]),
            }]),
        },
    ]);
    let index = InvertedIndex::from_json(&document).ok().unwrap();
    assert_eq!(index.get_document_count(), 1);
    assert_eq!(index.last_document_id(), 3);
    assert_eq!(index.search("two"), ids(&[2]));
    assert_eq!(index.get_document_path(2), Some(String::from("two.txt")));
}

#[test]
fn test_index_refuses_a_number_that_was_not_kept() {
    let document = Json::Object(vec![
        Member { name: String::from("index"), value: Json::Object(vec![]) },
        Member { name: String::from("documents"), value: Json::Object(vec![]) },
        Member { name: String::from("last_document_id"), value: Json::Number },
    ]);
    assert!(matches!(
        InvertedIndex::from_json(&document),
        Err(SnapshotError::LastDocumentId)
    ));
    assert!(matches!(
        InvertedIndex::from_json(&Json::Null),
        Err(SnapshotError::Index)
    ));
}

#[test]
fn test_index_document_has_its_three_members() {
    let mut index = InvertedIndex::new();
    index.add_document(String::from("p"), Some("w"));
    match index.to_json() {
        Json::Object(members) => {
            let names: Vec<&str> = members.iter().map(|m| m.name.as_str()).collect();
            assert_eq!(names, vec!["index", "documents", "last_document_id"]);
            assert!(matches!(members[2].value, Json::Unsigned(1)));
        }
        _ => panic!("a snapshot is an object"),
    }
}

#[test]
fn test_index_parts_make_the_index_again() {
    let mut index = InvertedIndex::new();
    index.add_document(String::from("p"), Some("w x"));
    let (postings, documents, next_id) = index.into_parts();
    assert_eq!(next_id, 1);
    assert_eq!(documents.len(), 1);
    let index = InvertedIndex::from_parts(postings, documents, next_id);
    assert_eq!(index.search("x"), ids(&[0]));
    assert_eq!(index.last_document_id(), 1);
}

#[test]
fn test_snapshot_document_is_read_back_as_the_same_index() {
    let mut index = InvertedIndex::new();
    index.add_document(String::from("a.txt"), Some("one two two"));
    index.add_document(String::from("b.txt"), Some("two three"));
    index.delete_document(0);
    index.add_document(String::from("c.txt"), Some("one"));
    let copy = InvertedIndex::from_json(&index.to_json()).ok().unwrap();
    assert_eq!(copy.get_document_count(), 2);
    assert_eq!(copy.last_document_id(), 3);
    for term in ["one", "two", "three", "four"] {
        assert_eq!(copy.search(term), index.search(term));
    }
    for id in 0..4 {
        assert_eq!(copy.get_document_path(id), index.get_document_path(id));
        assert_eq!(copy.document_exists(id), index.document_exists(id));
    }
}
