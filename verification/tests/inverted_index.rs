use course_work_parallel_computing::inverted_index::catalogue::Catalogue;
use course_work_parallel_computing::inverted_index::postings::Postings;
use course_work_parallel_computing::inverted_index::snapshot::SnapshotError;
use course_work_parallel_computing::inverted_index::InvertedIndex;
use std::collections::HashSet;

fn ids(list: &[u64]) -> HashSet<u64> {
    list.iter().copied().collect()
}

#[test]
fn test_new_creates_empty_index() {
    let index = InvertedIndex::new();
    assert_eq!(index.get_document_count(), 0);
}

#[test]
fn test_add_document() {
    let mut index = InvertedIndex::new();
    let file_path = String::from("test_file_add.txt");

    index.add_document(file_path.clone(), Some("rust programming language\n"));
    assert_eq!(index.get_document_count(), 1);

    let search_results = index.search("rust");
    assert_eq!(search_results.len(), 1);
}

#[test]
fn test_search() {
    let mut index = InvertedIndex::new();
    let file1 = String::from("test_file_search_1.txt");
    let file2 = String::from("test_file_search_2.txt");

    index.add_document(file1.clone(), Some("rust programming language\n"));
    index.add_document(file2.clone(), Some("rustaceans love rust\n"));

    let search_results = index.search("rust");
    assert_eq!(search_results.len(), 2);
}

#[test]
fn test_delete_document() {
    let mut index = InvertedIndex::new();
    let file_path = String::from("test_file_delete.txt");

    index.add_document(file_path.clone(), Some("hello world\n"));
    let doc_id = index.last_document_id() - 1;

    assert!(index.document_exists(doc_id));
    assert_eq!(index.delete_document(doc_id), Some(file_path));
    assert!(!index.document_exists(doc_id));
}

#[test]
fn test_save_and_load() {
    let text = {
        let mut index = InvertedIndex::new();
        let file_path = String::from("test_file_save.txt");
        index.add_document(file_path.clone(), Some("save and load test\n"));
        index.save().unwrap()
    };

    let index = InvertedIndex::load(&text).unwrap();
    assert_eq!(index.get_document_count(), 1);
}

#[test]
fn test_get_document_path() {
    let mut index = InvertedIndex::new();
    let file_path = String::from("test_file_path.txt");

    index.add_document(file_path.clone(), Some("document path test\n"));
    let doc_id = index.last_document_id() - 1;

    assert_eq!(index.get_document_path(doc_id), Some(file_path.clone()));
}

#[test]
fn test_add_search_delete_scenario() {
    let mut index = InvertedIndex::new();
    index.add_document(String::from("a.txt"), Some("rust programming language"));
    assert_eq!(index.last_document_id(), 1);
    assert!(index.document_exists(0));
    index.add_document(String::from("b.txt"), Some("rustaceans love rust"));
    assert_eq!(index.last_document_id(), 2);
    assert!(index.document_exists(1));
    assert_eq!(index.search("rust"), ids(&[0, 1]));
    assert_eq!(index.delete_document(0), Some(String::from("a.txt")));
    assert_eq!(index.search("rust"), ids(&[1]));
    assert!(!index.document_exists(0));
}

#[test]
fn test_unreadable_document_changes_nothing() {
    let mut index = InvertedIndex::new();
    index.add_document(String::from("gone.txt"), None);
    assert_eq!(index.get_document_count(), 0);
    assert_eq!(index.last_document_id(), 0);
    index.add_document(String::from("there.txt"), Some("word"));
    assert_eq!(index.last_document_id(), 1);
    assert_eq!(index.search("word"), ids(&[0]));
}

#[test]
fn test_count_is_additions_less_effective_deletions() {
    let mut index = InvertedIndex::new();
    index.add_document(String::from("a"), Some("one"));
    index.add_document(String::from("b"), Some("two"));
    index.add_document(String::from("c"), Some("three"));
    assert_eq!(index.delete_document(1), Some(String::from("b")));
    assert_eq!(index.delete_document(1), None);
    assert_eq!(index.delete_document(7), None);
    assert_eq!(index.get_document_count(), 2);
}

#[test]
fn test_search_is_a_union_over_the_query_tokens() {
    let mut index = InvertedIndex::new();
    index.add_document(String::from("a"), Some("red apple"));
    index.add_document(String::from("b"), Some("green pear"));
    index.add_document(String::from("c"), Some("blue plum"));
    assert_eq!(index.search("red pear"), ids(&[0, 1]));
    assert_eq!(index.search("plum"), ids(&[2]));
    assert_eq!(index.search("grape"), ids(&[]));
    assert_eq!(index.search(""), ids(&[]));
    assert_eq!(index.search("   "), ids(&[]));
}

#[test]
fn test_search_is_case_sensitive() {
    let mut index = InvertedIndex::new();
    index.add_document(String::from("a"), Some("Rust rust"));
    index.add_document(String::from("b"), Some("RUST"));
    assert_eq!(index.search("rust"), ids(&[0]));
    assert_eq!(index.search("Rust"), ids(&[0]));
    assert_eq!(index.search("RUST"), ids(&[1]));
}

#[test]
fn test_repeated_token_is_listed_once() {
    let mut index = InvertedIndex::new();
    index.add_document(String::from("a"), Some("echo echo echo"));
    assert_eq!(index.search("echo"), ids(&[0]));
    let text = index.save().unwrap();
    assert_eq!(text.matches("echo").count(), 1);
}

#[test]
fn test_search_tokens_matches_whole_tokens_only() {
    let mut index = InvertedIndex::new();
    index.add_tokens(
        String::from("a"),
        &vec![String::from("rustaceans"), String::from("love")],
    );
    assert_eq!(index.search_tokens(&vec![String::from("rust")]), ids(&[]));
    assert_eq!(
        index.search_tokens(&vec![String::from("love"), String::from("rust")]),
        ids(&[0])
    );
}

#[test]
fn test_deleted_id_is_not_given_out_again() {
    let mut index = InvertedIndex::new();
    index.add_document(String::from("a"), Some("x"));
    index.delete_document(0);
    index.add_document(String::from("b"), Some("x"));
    assert!(!index.document_exists(0));
    assert!(index.document_exists(1));
    assert_eq!(index.search("x"), ids(&[1]));
}

#[test]
fn test_batch_of_additions_gets_distinct_ids() {
    let mut index = InvertedIndex::new();
    for n in 0..50u64 {
        index.add_document(format!("doc_{n}"), Some("same words here"));
    }
    assert_eq!(index.get_document_count(), 50);
    assert_eq!(index.last_document_id(), 50);
    assert_eq!(index.search("same").len(), 50);
    for n in 0..50u64 {
        assert_eq!(index.get_document_path(n), Some(format!("doc_{n}")));
    }
}

#[test]
fn test_snapshot_round_trip() {
    let mut index = InvertedIndex::new();
    index.add_document(String::from("uploads/a.txt"), Some("rust programming language"));
    index.add_document(String::from("uploads/b.txt"), Some("rustaceans love rust"));
    index.add_document(String::from("uploads/c.txt"), Some("gone soon"));
    index.delete_document(2);
    let text = index.save().unwrap();
    let loaded = InvertedIndex::load(&text).unwrap();
    assert_eq!(loaded.get_document_count(), index.get_document_count());
    assert_eq!(loaded.last_document_id(), 3);
    assert_eq!(loaded.get_document_path(0), Some(String::from("uploads/a.txt")));
    assert_eq!(loaded.get_document_path(1), Some(String::from("uploads/b.txt")));
    assert_eq!(loaded.get_document_path(2), None);
    for term in ["rust", "programming", "language", "rustaceans", "love", "gone", "soon"] {
        assert_eq!(loaded.search(term), index.search(term));
    }
    assert_eq!(loaded.search("rust"), ids(&[0, 1]));
    assert_eq!(loaded.save().unwrap(), text);
}

#[test]
fn test_snapshot_text_of_empty_index() {
    let index = InvertedIndex::new();
    let text = index.save().unwrap();
    assert_eq!(
        text,
        "{\n  \"documents\": {},\n  \"index\": {},\n  \"last_document_id\": 0\n}"
    );
}

#[test]
fn test_snapshot_text_lists_ids_in_ascending_order() {
    let mut index = InvertedIndex::new();
    for n in 0..12u64 {
        index.add_document(format!("p{n}"), Some("w"));
    }
    index.delete_document(3);
    let text = index.save().unwrap();
    let compact: String = text.chars().filter(|c| !c.is_whitespace()).collect();
    assert!(compact.contains("\"w\":[0,1,2,4,5,6,7,8,9,10,11]"));
    assert!(compact.contains("\"10\":\"p10\""));
    assert!(compact.contains("\"last_document_id\":12"));
}

#[test]
fn test_load_reads_a_hand_written_snapshot() {
    let text = r#"{
        "index": { "cat": [4, 2, 2], "dog": [] },
        "documents": { "2": "two.txt", "+4": "four.txt" },
        "last_document_id": 9,
        "note": "members that the snapshot does not know are passed over"
    }"#;
    let mut index = InvertedIndex::load(text).unwrap();
    assert_eq!(index.get_document_count(), 2);
    assert_eq!(index.last_document_id(), 9);
    assert_eq!(index.search("cat"), ids(&[2, 4]));
    assert_eq!(index.search("dog"), ids(&[]));
    assert_eq!(index.get_document_path(4), Some(String::from("four.txt")));
    index.add_document(String::from("nine.txt"), Some("cat"));
    assert_eq!(index.search("cat"), ids(&[2, 4, 9]));
}

#[test]
fn test_open_without_snapshot_is_empty() {
    let index = InvertedIndex::open(None).unwrap();
    assert_eq!(index.get_document_count(), 0);
    assert_eq!(index.last_document_id(), 0);
}

#[test]
fn test_open_with_snapshot_loads_it() {
    let index = InvertedIndex::open(Some(
        r#"{"index": {"a": [0]}, "documents": {"0": "a.txt"}, "last_document_id": 1}"#,
    ))
    .unwrap();
    assert_eq!(index.get_document_count(), 1);
    assert_eq!(index.search("a"), ids(&[0]));
}

fn load_error(text: &str) -> SnapshotError {
    match InvertedIndex::load(text) {
        Ok(_) => panic!("the snapshot was accepted"),
        Err(e) => e,
    }
}

#[test]
fn test_load_refuses_text_that_is_not_json() {
    assert!(matches!(load_error("not json"), SnapshotError::Syntax));
    assert!(matches!(load_error(""), SnapshotError::Syntax));
    assert!(matches!(
        InvertedIndex::open(Some("{")),
        Err(SnapshotError::Syntax)
    ));
}

#[test]
fn test_load_refuses_missing_index() {
    assert!(matches!(load_error("{}"), SnapshotError::Index));
    assert!(matches!(load_error("[1, 2]"), SnapshotError::Index));
    assert!(matches!(
        load_error(r#"{"index": [], "documents": {}, "last_document_id": 0}"#),
        SnapshotError::Index
    ));
}

#[test]
fn test_load_refuses_posting_list_that_is_no_array() {
    assert!(matches!(
        load_error(r#"{"index": {"a": 5}, "documents": {}, "last_document_id": 0}"#),
        SnapshotError::Ids
    ));
}

#[test]
fn test_load_refuses_id_that_is_no_unsigned_integer() {
    assert!(matches!(
        load_error(r#"{"index": {"a": [1, -2]}, "documents": {}, "last_document_id": 0}"#),
        SnapshotError::Id
    ));
    assert!(matches!(
        load_error(r#"{"index": {"a": [1.5]}, "documents": {}, "last_document_id": 0}"#),
        SnapshotError::Id
    ));
    assert!(matches!(
        load_error(r#"{"index": {"a": ["1"]}, "documents": {}, "last_document_id": 0}"#),
        SnapshotError::Id
    ));
    assert!(matches!(
        load_error(r#"{"index": {}, "documents": {"x1": "p"}, "last_document_id": 0}"#),
        SnapshotError::Id
    ));
    assert!(matches!(
        load_error(
            r#"{"index": {}, "documents": {"18446744073709551616": "p"}, "last_document_id": 0}"#
        ),
        SnapshotError::Id
    ));
}

#[test]
fn test_load_reports_the_first_wrong_member() {
    assert!(matches!(
        load_error(r#"{"index": {"a": [true], "b": 5}, "documents": 3, "last_document_id": 0}"#),
        SnapshotError::Id
    ));
    assert!(matches!(
        load_error(r#"{"index": {"a": 5, "b": [true]}, "documents": 3, "last_document_id": 0}"#),
        SnapshotError::Ids
    ));
}

#[test]
fn test_load_refuses_missing_documents() {
    assert!(matches!(
        load_error(r#"{"index": {}, "last_document_id": 0}"#),
        SnapshotError::Documents
    ));
    assert!(matches!(
        load_error(r#"{"index": {}, "documents": "none", "last_document_id": 0}"#),
        SnapshotError::Documents
    ));
}

#[test]
fn test_load_refuses_path_that_is_no_string() {
    assert!(matches!(
        load_error(r#"{"index": {}, "documents": {"0": 17}, "last_document_id": 0}"#),
        SnapshotError::Document
    ));
}

#[test]
fn test_load_refuses_missing_last_document_id() {
    assert!(matches!(
        load_error(r#"{"index": {}, "documents": {}}"#),
        SnapshotError::LastDocumentId
    ));
    assert!(matches!(
        load_error(r#"{"index": {}, "documents": {}, "last_document_id": -1}"#),
        SnapshotError::LastDocumentId
    ));
    assert!(matches!(
        load_error(r#"{"index": {}, "documents": {}, "last_document_id": "7"}"#),
        SnapshotError::LastDocumentId
    ));
}

#[test]
fn test_id_counter_wraps_after_the_last_value() {
    let mut index = InvertedIndex::from_parts(Postings::new(), Catalogue::new(), u64::MAX);
    index.add_document(String::from("last"), Some("z"));
    assert!(index.document_exists(u64::MAX));
    assert_eq!(index.last_document_id(), 0);
    assert_eq!(index.search("z"), ids(&[u64::MAX]));
}

#[test]
fn test_deleting_an_unknown_document_scrubs_the_posting_lists() {
    let mut index = InvertedIndex::load(
        r#"{"index": {"stray": [8, 9]}, "documents": {"9": "nine.txt"}, "last_document_id": 10}"#,
    )
    .unwrap();
    assert_eq!(index.search("stray"), ids(&[8, 9]));
    assert_eq!(index.delete_document(8), None);
    assert_eq!(index.get_document_count(), 1);
    assert_eq!(index.search("stray"), ids(&[9]));
}

#[test]
fn test_search_does_not_depend_on_the_order_of_additions() {
    let mut one = InvertedIndex::new();
    one.add_document(String::from("x"), Some("apple pie"));
    one.add_document(String::from("y"), Some("cherry pie"));
    let mut other = InvertedIndex::new();
    other.add_document(String::from("y"), Some("cherry pie"));
    other.add_document(String::from("x"), Some("apple pie"));
    let paths = |index: &InvertedIndex, term: &str| {
        let mut paths: Vec<String> = index
            .search(term)
            .into_iter()
            .map(|id| index.get_document_path(id).unwrap())
            .collect();
        paths.sort();
        paths
    };
    for term in ["apple", "cherry", "pie", "plum"] {
        assert_eq!(paths(&one, term), paths(&other, term));
    }
    assert_eq!(paths(&one, "pie"), vec!["x", "y"]);
}
