use sphere::error::SphereError;
use sphere::manifest::parse_manifest;

#[test]
fn parses_minimal_manifest() {
    let m = parse_manifest("entrypoint = \"echo hello\"").unwrap();
    assert_eq!(m.entrypoint, "echo hello");
    assert_eq!(m.id, None);
    assert!(m.dependencies.is_empty());
}

#[test]
fn parses_full_manifest() {
    let text = "# a manifest\nid = \"com.example/tool\"\nentrypoint = \"run --fast\"\n\n[dependencies]\nfoo = \"com.example/foo\"\nbar = \"com.example/bar\"\n";
    let m = parse_manifest(text).unwrap();
    assert_eq!(m.id.as_deref(), Some("com.example/tool"));
    assert_eq!(m.entrypoint, "run --fast");
    assert_eq!(
        m.dependencies,
        vec![
            ("foo".to_string(), "com.example/foo".to_string()),
            ("bar".to_string(), "com.example/bar".to_string()),
        ]
    );
}

#[test]
fn missing_entrypoint_is_missing_field() {
    let e = parse_manifest("id = \"x\"\n").unwrap_err();
    assert_eq!(
        e,
        SphereError::MissingField { field: "entrypoint".to_string() }
    );
}

#[test]
fn empty_manifest_is_missing_field() {
    let e = parse_manifest("").unwrap_err();
    assert_eq!(
        e,
        SphereError::MissingField { field: "entrypoint".to_string() }
    );
}

#[test]
fn empty_entrypoint_is_missing_field() {
    let e = parse_manifest("entrypoint = \"\"\n").unwrap_err();
    assert_eq!(
        e,
        SphereError::MissingField { field: "entrypoint".to_string() }
    );
}

#[test]
fn bad_line_is_parse_error_with_line_number() {
    let e = parse_manifest("entrypoint = \"x\"\noops\n").unwrap_err();
    assert_eq!(e, SphereError::Parse { line: 2 });
}

#[test]
fn unquoted_value_is_parse_error() {
    let e = parse_manifest("entrypoint = hello\n").unwrap_err();
    assert_eq!(e, SphereError::Parse { line: 1 });
}

#[test]
fn duplicate_key_is_parse_error() {
    let e = parse_manifest("entrypoint = \"a\"\nentrypoint = \"b\"\n").unwrap_err();
    assert_eq!(e, SphereError::Parse { line: 2 });
}

#[test]
fn duplicate_alias_is_parse_error() {
    let text = "entrypoint = \"x\"\n[dependencies]\nfoo = \"a\"\nfoo = \"b\"\n";
    let e = parse_manifest(text).unwrap_err();
    assert_eq!(e, SphereError::Parse { line: 4 });
}

#[test]
fn unterminated_string_is_parse_error() {
    let e = parse_manifest("entrypoint = \"abc\n").unwrap_err();
    assert_eq!(e, SphereError::Parse { line: 1 });
}

#[test]
fn escapes_decode_in_values() {
    let m = parse_manifest("entrypoint = \"a\\tb\\\"c\\\\d\\n\"").unwrap();
    assert_eq!(m.entrypoint, "a\tb\"c\\d\n");
}

#[test]
fn unknown_escape_is_parse_error() {
    let e = parse_manifest("entrypoint = \"a\\qb\"").unwrap_err();
    assert_eq!(e, SphereError::Parse { line: 1 });
}

#[test]
fn comments_and_blank_lines_are_ignored() {
    let text = "\n# heading\n   \nentrypoint = \"x\"  # trailing note\n#tail\n";
    let m = parse_manifest(text).unwrap();
    assert_eq!(m.entrypoint, "x");
}

#[test]
fn carriage_returns_are_trimmed() {
    let m = parse_manifest("entrypoint = \"x\"\r\n[dependencies]\r\nfoo = \"f\"\r\n").unwrap();
    assert_eq!(m.entrypoint, "x");
    assert_eq!(m.dependencies, vec![("foo".to_string(), "f".to_string())]);
}

#[test]
fn quoted_keys_are_accepted() {
    let text = "entrypoint = \"x\"\n[dependencies]\n\"my alias\" = \"com.example/a\"\n";
    let m = parse_manifest(text).unwrap();
    assert_eq!(
        m.dependencies,
        vec![("my alias".to_string(), "com.example/a".to_string())]
    );
}

#[test]
fn section_names_are_trimmed() {
    let text = "entrypoint = \"x\"\n[ dependencies ]\nfoo = \"f\"\n";
    let m = parse_manifest(text).unwrap();
    assert_eq!(m.dependencies, vec![("foo".to_string(), "f".to_string())]);
}

#[test]
fn unknown_sections_are_ignored() {
    let text = "entrypoint = \"x\"\n[metadata]\nnote = \"kept out\"\n[dependencies]\nfoo = \"f\"\n";
    let m = parse_manifest(text).unwrap();
    assert_eq!(m.dependencies, vec![("foo".to_string(), "f".to_string())]);
}

#[test]
fn unknown_root_keys_are_ignored() {
    let m = parse_manifest("name = \"n\"\nentrypoint = \"x\"\n").unwrap();
    assert_eq!(m.entrypoint, "x");
    assert_eq!(m.id, None);
}

#[test]
fn missing_bracket_is_parse_error() {
    let e = parse_manifest("[dependencies\nfoo = \"f\"\n").unwrap_err();
    assert_eq!(e, SphereError::Parse { line: 1 });
}
