use string_analyzer::analysis::{analyze_string, content_hash};

const HELLO_SHA256: &str = "2cf24dba5fb0a30e26e83b2ac5b9e29e1b161e5c1fa7425e73043362938b9824";

fn count_of(freq: &[(char, usize)], c: char) -> Option<usize> {
    freq.iter().find(|p| p.0 == c).map(|p| p.1)
}

#[test]
fn analyze_hello() {
    let p = analyze_string("hello");
    assert_eq!(p.length, 5);
    assert!(!p.is_palindrome);
    assert_eq!(p.unique_characters, 4);
    assert_eq!(p.word_count, 1);
    assert_eq!(p.sha256_hash, HELLO_SHA256);
    assert_eq!(p.character_frequency_map.len(), 4);
    assert_eq!(count_of(&p.character_frequency_map, 'l'), Some(2));
    assert_eq!(count_of(&p.character_frequency_map, 'h'), Some(1));
    assert_eq!(count_of(&p.character_frequency_map, 'z'), None);
}

#[test]
fn palindrome_is_case_insensitive() {
    assert!(analyze_string("Racecar").is_palindrome);
    assert!(!analyze_string("hello").is_palindrome);
}

#[test]
fn palindrome_keeps_spaces() {
    assert!(analyze_string("Able was I ere I saw Elba").is_palindrome);
    assert!(!analyze_string("never odd or even").is_palindrome);
}

#[test]
fn hash_is_deterministic() {
    let a = analyze_string("some text");
    let b = analyze_string("some text");
    assert_eq!(a.sha256_hash, b.sha256_hash);
    assert_eq!(content_hash("some text"), a.sha256_hash);
    assert_ne!(content_hash("some text"), content_hash("some text "));
}

#[test]
fn content_hash_is_lowercase_hex_of_digest() {
    let h = content_hash("hello");
    assert_eq!(h, HELLO_SHA256);
    assert_eq!(h.len(), 64);
    assert_eq!(
        content_hash(""),
        "e3b0c44298fc1c149afbf4c8996fb92427ae41e4649b934ca495991b7852b855"
    );
}

#[test]
fn characters_not_bytes() {
    let p = analyze_string("héllo wörld");
    assert_eq!(p.length, 11);
    assert_eq!(p.word_count, 2);
    assert_eq!(count_of(&p.character_frequency_map, 'é'), Some(1));
    assert_eq!(count_of(&p.character_frequency_map, ' '), Some(1));
    assert_eq!(p.unique_characters, 9);
}

#[test]
fn unique_characters_are_case_sensitive() {
    let p = analyze_string("aAa");
    assert_eq!(p.unique_characters, 2);
    assert_eq!(count_of(&p.character_frequency_map, 'a'), Some(2));
    assert_eq!(count_of(&p.character_frequency_map, 'A'), Some(1));
    assert!(p.is_palindrome);
}

#[test]
fn word_count_splits_on_any_whitespace() {
    assert_eq!(analyze_string("  a  b\tc\n").word_count, 3);
    assert_eq!(analyze_string("one").word_count, 1);
    assert_eq!(analyze_string("   ").word_count, 0);
}
