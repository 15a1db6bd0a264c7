use string_analyzer::filter::{Filters, QueryError};
use string_analyzer::interpret::interpret;

#[test]
fn single_word_query() {
    let i = interpret("find single word strings").ok().unwrap();
    assert_eq!(i.filters, Filters { word_count: Some(1), ..Filters::none() });
    assert_eq!(i.original, "find single word strings");
}

#[test]
fn conflicting_query() {
    assert!(matches!(interpret("palindromic and non-palindromic"), Err(QueryError::Conflicting)));
    assert!(matches!(interpret("non-palindromic strings"), Err(QueryError::Conflicting)));
}

#[test]
fn unparseable_query() {
    assert!(matches!(interpret("xyz"), Err(QueryError::Unparseable)));
    assert!(matches!(interpret("   "), Err(QueryError::Unparseable)));
    assert!(matches!(interpret(""), Err(QueryError::Unparseable)));
}

#[test]
fn palindrome_and_length_query() {
    let i = interpret("  Palindromic strings LONGER THAN 5 characters ").ok().unwrap();
    assert_eq!(i.original, "palindromic strings longer than 5 characters");
    assert_eq!(
        i.filters,
        Filters { is_palindrome: Some(true), min_length: Some(6), ..Filters::none() }
    );
    let j = interpret("show me a palindrome").ok().unwrap();
    assert_eq!(j.filters, Filters { is_palindrome: Some(true), ..Filters::none() });
}

#[test]
fn longer_than_without_number() {
    assert!(matches!(interpret("longer than five"), Err(QueryError::Unparseable)));
    assert!(matches!(interpret("longer than"), Err(QueryError::Unparseable)));
}

#[test]
fn letter_queries() {
    let i = interpret("strings containing the letter z").ok().unwrap();
    assert_eq!(i.filters, Filters { contains_character: Some('z'), ..Filters::none() });
    assert!(matches!(interpret("containing the letter 7"), Err(QueryError::Unparseable)));
    let j = interpret("words that contain the first vowel").ok().unwrap();
    assert_eq!(j.filters, Filters { contains_character: Some('a'), ..Filters::none() });
}

#[test]
fn single_word_palindromes() {
    let i = interpret("all single word palindromic strings").ok().unwrap();
    assert_eq!(
        i.filters,
        Filters { is_palindrome: Some(true), word_count: Some(1), ..Filters::none() }
    );
}
