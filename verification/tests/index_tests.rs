use sphere::error::SphereError;
use sphere::index::{cache_dir_path, index_file_path, CacheIndex};

#[test]
fn absent_file_loads_empty_index() {
    let x = CacheIndex::load(None, "/tmp/index.json").unwrap();
    assert_eq!(x.len(), 0);
}

#[test]
fn whitespace_file_loads_empty_index() {
    let text = "  \n\t ".to_string();
    let x = CacheIndex::load(Some(&text), "/tmp/index.json").unwrap();
    assert_eq!(x.len(), 0);
}

#[test]
fn empty_object_loads_empty_index() {
    let text = "{}".to_string();
    let x = CacheIndex::load(Some(&text), "/tmp/index.json").unwrap();
    assert_eq!(x.len(), 0);
}

#[test]
fn malformed_file_is_index_parse_error_with_path() {
    let text = "{ not json".to_string();
    let e = CacheIndex::load(Some(&text), "/home/u/.sphere/cache/index.json").unwrap_err();
    assert_eq!(
        e,
        SphereError::IndexParse { path: "/home/u/.sphere/cache/index.json".to_string() }
    );
}

#[test]
fn trailing_garbage_is_index_parse_error() {
    let text = "{} x".to_string();
    let e = CacheIndex::load(Some(&text), "p").unwrap_err();
    assert_eq!(e, SphereError::IndexParse { path: "p".to_string() });
}

#[test]
fn loads_entries_and_looks_them_up() {
    let text = "{\n  \"com.example/a\": \"a.sphere\",\n  \"com.example/b\": \"/abs/b.sphere\"\n}"
        .to_string();
    let x = CacheIndex::load(Some(&text), "p").unwrap();
    assert_eq!(x.len(), 2);
    assert_eq!(x.get("com.example/a").map(|s| s.as_str()), Some("a.sphere"));
    assert_eq!(x.get("com.example/b").map(|s| s.as_str()), Some("/abs/b.sphere"));
    assert_eq!(x.get("com.example/c"), None);
}

#[test]
fn later_binding_of_a_key_wins() {
    let text = "{\"k\": \"one\", \"k\": \"two\"}".to_string();
    let x = CacheIndex::load(Some(&text), "p").unwrap();
    assert_eq!(x.len(), 1);
    assert_eq!(x.get("k").map(|s| s.as_str()), Some("two"));
}

#[test]
fn to_json_is_canonical_and_sorted() {
    let mut x = CacheIndex::new();
    x.cache_add("b", "2").unwrap();
    x.cache_add("a", "1").unwrap();
    assert_eq!(x.to_json(), "{\n  \"a\": \"1\",\n  \"b\": \"2\"\n}");
    let empty = CacheIndex::new();
    assert_eq!(empty.to_json(), "{}");
}

#[test]
fn save_and_load_round_trip() {
    let mut x = CacheIndex::new();
    x.cache_add("com.example/a", "a.sphere").unwrap();
    x.cache_add("odd \"key\"\\path", "va\tlue\nnext").unwrap();
    let text = x.to_json();
    let y = CacheIndex::load(Some(&text), "p").unwrap();
    assert_eq!(y.len(), 2);
    assert_eq!(y.get("com.example/a").map(|s| s.as_str()), Some("a.sphere"));
    assert_eq!(y.get("odd \"key\"\\path").map(|s| s.as_str()), Some("va\tlue\nnext"));
}

#[test]
fn listing_is_sorted_by_id() {
    let mut x = CacheIndex::new();
    x.cache_add("zeta", "z").unwrap();
    x.cache_add("alpha", "a").unwrap();
    x.cache_add("mid", "m").unwrap();
    assert_eq!(x.len(), 3);
    let first = x.entry_at(0);
    let second = x.entry_at(1);
    let third = x.entry_at(2);
    assert_eq!((first.0.as_str(), first.1.as_str()), ("alpha", "a"));
    assert_eq!((second.0.as_str(), second.1.as_str()), ("mid", "m"));
    assert_eq!((third.0.as_str(), third.1.as_str()), ("zeta", "z"));
}

#[test]
fn add_rejects_empty_id() {
    let mut x = CacheIndex::new();
    let e = x.cache_add("   ", "loc").unwrap_err();
    assert_eq!(e, SphereError::EmptyId);
    assert_eq!(x.len(), 0);
}

#[test]
fn add_twice_fails_without_mutating_the_index() {
    let mut x = CacheIndex::new();
    x.cache_add("com.example/a", "first.sphere").unwrap();
    let e = x.cache_add("com.example/a", "second.sphere").unwrap_err();
    assert_eq!(e, SphereError::DuplicateId { id: "com.example/a".to_string() });
    assert_eq!(x.len(), 1);
    assert_eq!(x.get("com.example/a").map(|s| s.as_str()), Some("first.sphere"));
}

#[test]
fn remove_returns_location_and_drops_entry() {
    let mut x = CacheIndex::new();
    x.cache_add("a", "a.sphere").unwrap();
    let loc = x.cache_remove("a").unwrap();
    assert_eq!(loc, "a.sphere");
    assert_eq!(x.len(), 0);
    assert_eq!(x.get("a"), None);
}

#[test]
fn remove_of_absent_id_fails_without_mutating() {
    let mut x = CacheIndex::new();
    x.cache_add("a", "1").unwrap();
    let e = x.cache_remove("b").unwrap_err();
    assert_eq!(e, SphereError::IdNotFound { id: "b".to_string() });
    assert_eq!(x.len(), 1);
}

#[test]
fn cache_paths_are_fixed_suffixes() {
    assert_eq!(cache_dir_path("/home/u"), "/home/u/.sphere/cache");
    assert_eq!(index_file_path("/home/u/.sphere/cache"), "/home/u/.sphere/cache/index.json");
}
