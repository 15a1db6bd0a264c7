use string_analyzer::filter::{parse_filters, Filters, QueryError};
use string_analyzer::store::{Store, StoreError};

fn values(entries: &[string_analyzer::store::Entry]) -> Vec<String> {
    let mut v: Vec<String> = entries.iter().map(|e| e.value.clone()).collect();
    v.sort();
    v
}

#[test]
fn create_twice_conflicts() {
    let mut s = Store::new();
    let first = s.create("hello");
    assert!(first.is_ok());
    let second = s.create("hello");
    assert!(matches!(second, Err(StoreError::Conflict)));
    assert_eq!(s.len(), 1);
    let all = s.list_all(&Filters::none());
    assert_eq!(values(&all), vec!["hello".to_string()]);
}

#[test]
fn create_fills_entry() {
    let mut s = Store::new();
    let e = s.create_at("hello", "2024-01-01T00:00:00.000Z".to_string()).unwrap();
    assert_eq!(e.value, "hello");
    assert_eq!(e.id, e.properties.sha256_hash);
    assert_eq!(e.properties.length, 5);
    assert_eq!(e.created_at, "2024-01-01T00:00:00.000Z");
}

#[test]
fn create_trims_and_get_finds() {
    let mut s = Store::new();
    let e = s.create("  hi  ").unwrap();
    assert_eq!(e.value, "hi");
    let found = s.get_by_value("hi").unwrap();
    assert_eq!(found.value, "hi");
    assert_eq!(found.id, e.id);
}

#[test]
fn lookup_does_not_trim() {
    let mut s = Store::new();
    s.create("  hi  ").unwrap();
    assert!(matches!(s.get_by_value("  hi  "), Err(StoreError::NotFound)));
    assert!(matches!(s.delete_by_value("  hi  "), Err(StoreError::NotFound)));
    assert_eq!(s.len(), 1);
}

#[test]
fn trimmed_duplicate_conflicts() {
    let mut s = Store::new();
    s.create("hi").unwrap();
    assert!(matches!(s.create("\thi \n"), Err(StoreError::Conflict)));
}

#[test]
fn empty_input_is_invalid() {
    let mut s = Store::new();
    assert!(matches!(s.create(""), Err(StoreError::InvalidInput)));
    assert!(matches!(s.create("   \t\n"), Err(StoreError::InvalidInput)));
    assert_eq!(s.len(), 0);
}

#[test]
fn get_missing_is_not_found() {
    let s = Store::new();
    assert!(matches!(s.get_by_value("nothing"), Err(StoreError::NotFound)));
}

#[test]
fn delete_missing_then_twice() {
    let mut s = Store::new();
    assert!(matches!(s.delete_by_value("ghost"), Err(StoreError::NotFound)));
    s.create("ghost").unwrap();
    assert!(s.delete_by_value("ghost").is_ok());
    assert!(matches!(s.delete_by_value("ghost"), Err(StoreError::NotFound)));
    assert_eq!(s.len(), 0);
    assert!(s.create("ghost").is_ok());
}

fn mixed_store() -> Store {
    let mut s = Store::new();
    for v in ["racecar", "level", "aa", "hello", "hello world", "Noon"] {
        s.create(v).unwrap();
    }
    s
}

#[test]
fn list_filters_combine_with_and() {
    let s = mixed_store();
    let f = Filters { min_length: Some(3), is_palindrome: Some(true), ..Filters::none() };
    let got = s.list_all(&f);
    assert_eq!(values(&got), vec!["Noon", "level", "racecar"]);
    for e in &got {
        assert!(e.properties.length >= 3 && e.properties.is_palindrome);
    }
}

#[test]
fn list_without_filters_returns_all() {
    let s = mixed_store();
    assert_eq!(s.list_all(&Filters::none()).len(), 6);
}

#[test]
fn list_other_filters() {
    let s = mixed_store();
    let f = Filters { max_length: Some(4), ..Filters::none() };
    assert_eq!(values(&s.list_all(&f)), vec!["Noon", "aa"]);
    let f = Filters { word_count: Some(2), ..Filters::none() };
    assert_eq!(values(&s.list_all(&f)), vec!["hello world"]);
    let f = Filters { contains_character: Some('w'), ..Filters::none() };
    assert_eq!(values(&s.list_all(&f)), vec!["hello world"]);
    let f = Filters { contains_character: Some('N'), ..Filters::none() };
    assert_eq!(values(&s.list_all(&f)), vec!["Noon"]);
    let f = Filters { is_palindrome: Some(false), ..Filters::none() };
    assert_eq!(values(&s.list_all(&f)), vec!["hello", "hello world"]);
}

#[test]
fn parse_filters_accepts_valid_values() {
    let f = parse_filters(Some("true"), Some("3"), Some("+10"), Some("1"), Some("é")).unwrap();
    assert_eq!(f.is_palindrome, Some(true));
    assert_eq!(f.min_length, Some(3));
    assert_eq!(f.max_length, Some(10));
    assert_eq!(f.word_count, Some(1));
    assert_eq!(f.contains_character, Some('é'));
    let g = parse_filters(Some("false"), None, None, None, None).unwrap();
    assert_eq!(g, Filters { is_palindrome: Some(false), ..Filters::none() });
    assert_eq!(parse_filters(None, None, None, None, None).unwrap(), Filters::none());
}

#[test]
fn parse_filters_rejects_bad_values() {
    let bad = Err(QueryError::ValidationError);
    assert_eq!(parse_filters(Some("yes"), None, None, None, None), bad);
    assert_eq!(parse_filters(Some("True"), None, None, None, None), bad);
    assert_eq!(parse_filters(None, Some("abc"), None, None, None), bad);
    assert_eq!(parse_filters(None, Some("-1"), None, None, None), bad);
    assert_eq!(parse_filters(None, None, Some(""), None, None), bad);
    assert_eq!(parse_filters(None, None, None, Some("1.5"), None), bad);
    assert_eq!(parse_filters(None, None, None, None, Some("ab")), bad);
    assert_eq!(parse_filters(None, None, None, None, Some("")), bad);
}

#[test]
fn create_trims_unicode_whitespace() {
    let mut s = Store::new();
    let e = s.create("\u{3000}wide\u{a0} ").unwrap();
    assert_eq!(e.value, "wide");
    assert_eq!(e.properties.length, 4);
    assert!(s.get_by_value("wide").is_ok());
}
