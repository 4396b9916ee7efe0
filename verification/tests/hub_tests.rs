use sphere::error::SphereError;
use sphere::hash::sha256_hex;
use sphere::hub::{
    accept_download, default_registry_base, parse_registry, registry_find, registry_index_url,
    sphere_file_url, HubEntry,
};
use sphere::index::CacheIndex;

const ABC_SHA256: &str = "ba7816bf8f01cfea414140de5dae2223b00361a396177a9cb410ff61f20015ad";

#[test]
fn sha256_of_empty_input_matches_known_digest() {
    let hex = sha256_hex(&Vec::new());
    assert_eq!(hex, "e3b0c44298fc1c149afbf4c8996fb92427ae41e4649b934ca495991b7852b855");
}

#[test]
fn sha256_of_abc_matches_known_digest() {
    let hex = sha256_hex(&b"abc".to_vec());
    assert_eq!(hex, ABC_SHA256);
}

fn registry_text() -> String {
    let mut t = String::new();
    t.push_str("{\n");
    t.push_str("  \"com.example/foo\": {\n");
    t.push_str("    \"filename\": \"com.example_foo.sphere\",\n");
    t.push_str("    \"description\": \"a foo\",\n");
    t.push_str("    \"author\": \"someone\",\n");
    t.push_str(
        "    \"hash_sha256\": \"ba7816bf8f01cfea414140de5dae2223b00361a396177a9cb410ff61f20015ad\"\n",
    );
    t.push_str("  },\n");
    t.push_str("  \"com.example/bar\": {\n");
    t.push_str("    \"filename\": \"bar.sphere\",\n");
    t.push_str("    \"description\": \"a bar\",\n");
    t.push_str("    \"author\": \"else\",\n");
    t.push_str(
        "    \"hash_sha256\": \"0000000000000000000000000000000000000000000000000000000000000000\"\n",
    );
    t.push_str("  }\n");
    t.push_str("}\n");
    t
}

#[test]
fn parses_registry_and_finds_entries() {
    let entries = parse_registry(&registry_text(), "https://example.test/index.json").unwrap();
    assert_eq!(entries.len(), 2);
    let e = registry_find(&entries, "com.example/foo", "foo").unwrap();
    assert_eq!(e.filename, "com.example_foo.sphere");
    assert_eq!(e.description, "a foo");
    assert_eq!(e.author, "someone");
    assert_eq!(e.hash_sha256, ABC_SHA256);
}

#[test]
fn absent_id_is_dependency_not_found() {
    let entries = parse_registry(&registry_text(), "u").unwrap();
    let e = registry_find(&entries, "com.example/none", "missing").unwrap_err();
    assert_eq!(
        e,
        SphereError::DependencyNotFound {
            id: "com.example/none".to_string(),
            alias: "missing".to_string(),
        }
    );
}

#[test]
fn registry_entry_missing_a_field_is_format_error() {
    let text = "{\"x\": {\"filename\": \"f\", \"description\": \"d\", \"author\": \"a\"}}";
    let e = parse_registry(text, "https://example.test/index.json").unwrap_err();
    assert_eq!(
        e,
        SphereError::RegistryFormat { url: "https://example.test/index.json".to_string() }
    );
}

#[test]
fn non_object_registry_is_format_error() {
    let e = parse_registry("[]", "u").unwrap_err();
    assert_eq!(e, SphereError::RegistryFormat { url: "u".to_string() });
}

#[test]
fn accept_download_admits_matching_bytes() {
    let mut index = CacheIndex::new();
    let entry = HubEntry {
        filename: "com.example_foo.sphere".to_string(),
        description: "a foo".to_string(),
        author: "someone".to_string(),
        hash_sha256: ABC_SHA256.to_string(),
    };
    accept_download(&mut index, "com.example/foo", &entry, &b"abc".to_vec()).unwrap();
    assert_eq!(
        index.get("com.example/foo").map(|s| s.as_str()),
        Some("com.example_foo.sphere")
    );
}

#[test]
fn accept_download_rejects_mismatch_and_leaves_index_unchanged() {
    let mut index = CacheIndex::new();
    index.cache_add("other", "other.sphere").unwrap();
    let entry = HubEntry {
        filename: "foo.sphere".to_string(),
        description: String::new(),
        author: String::new(),
        hash_sha256: ABC_SHA256.to_string(),
    };
    let e = accept_download(&mut index, "com.example/foo", &entry, &b"abd".to_vec()).unwrap_err();
    match e {
        SphereError::IntegrityMismatch { expected, computed } => {
            assert_eq!(expected, ABC_SHA256);
            assert_eq!(computed, sha256_hex(&b"abd".to_vec()));
            assert_ne!(computed, expected);
        },
        other => panic!("wrong error: {:?}", other),
    }
    assert_eq!(index.len(), 1);
    assert_eq!(index.get("com.example/foo"), None);
}

#[test]
fn urls_are_built_from_the_base() {
    let base = default_registry_base();
    assert_eq!(
        registry_index_url(&base),
        "https://raw.githubusercontent.com/Nakadra/sphere-hub-registry/main/registry/index.json"
    );
    assert_eq!(
        sphere_file_url(&base, "foo.sphere"),
        "https://raw.githubusercontent.com/Nakadra/sphere-hub-registry/main/registry/spheres/foo.sphere"
    );
}
