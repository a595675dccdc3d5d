use course_work_parallel_computing::inverted_index::tokenize::tokenize;

#[test]
fn test_simple_sentence() {
    let text = "It's such a beautiful day!!";
    let tokens = tokenize(text);
    assert_eq!(tokens, vec!["It's", "such", "a", "beautiful", "day", "!!"]);
}

#[test]
fn test_with_multiple_spaces() {
    let text = "   Hello,    world!   ";
    let tokens = tokenize(text);
    assert_eq!(tokens, vec!["Hello", ",", "world", "!"]);
}

#[test]
fn test_empty_string() {
    let text = "";
    let tokens = tokenize(text);
    assert!(tokens.is_empty());
}

#[test]
fn test_with_only_punctuation() {
    let text = "?!.,";
    let tokens = tokenize(text);
    assert_eq!(tokens, vec!["?!.,"]);
}

#[test]
fn test_mixed_case_sentence() {
    let text = "Rust is Fun and Powerful!";
    let tokens = tokenize(text);
    assert_eq!(tokens, vec!["Rust", "is", "Fun", "and", "Powerful", "!"]);
}

#[test]
fn test_numbers_and_words() {
    let text = "I have 2 apples and 10 bananas.";
    let tokens = tokenize(text);
    assert_eq!(
        tokens,
        vec!["I", "have", "2", "apples", "and", "10", "bananas", "."]
    );
}

#[test]
fn test_with_special_characters() {
    let text = "Hello @world, how's #Rust?";
    let tokens = tokenize(text);
    assert_eq!(
        tokens,
        vec!["Hello", "@", "world", ",", "how's", "#", "Rust", "?"]
    );
}

#[test]
fn test_very_special_title() {
    let text = "=====================  Product Identification  =====================";
    let tokens = tokenize(text);
    assert_eq!(
        tokens,
        vec![
            "=====================",
            "Product",
            "Identification",
            "====================="
        ]
    );
}

#[test]
fn test_whitespace_only_yields_nothing() {
    assert!(tokenize(" \t\n ").is_empty());
}

#[test]
fn test_case_and_order_are_kept() {
    assert_eq!(tokenize("b A a B"), vec!["b", "A", "a", "B"]);
}

#[test]
fn test_apostrophes_and_hyphens_belong_to_words() {
    assert_eq!(tokenize("well-known isn't"), vec!["well-known", "isn't"]);
}

#[test]
fn test_punctuation_run_ends_at_a_letter() {
    assert_eq!(tokenize("...abc!?"), vec!["...", "abc", "!?"]);
}

#[test]
fn test_letters_beyond_ascii_are_word_characters() {
    assert_eq!(tokenize("naïve café"), vec!["naïve", "café"]);
}
