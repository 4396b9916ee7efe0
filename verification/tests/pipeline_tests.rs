use sphere::error::SphereError;
use sphere::index::CacheIndex;
use sphere::manifest::parse_manifest;
use sphere::names::{branch_suffix, derive_cache_filename, publish_id};
use sphere::resolver::{lookup_location, resolve_dependency, resolve_location};
use sphere::{sandbox_path_env, shim_script, ExecutionResult};

#[test]
fn entrypoint_only_manifest_plans_no_dependencies() {
    let m = parse_manifest("entrypoint = \"echo hello\"").unwrap();
    assert_eq!(m.entrypoint, "echo hello");
    assert!(m.dependencies.is_empty());
}

#[test]
fn cached_dependency_resolves_to_a_shim_running_its_entrypoint() {
    let mut index = CacheIndex::new();
    index.cache_add("com.example/foo", "foo.sphere").unwrap();
    let manifest =
        parse_manifest("entrypoint = \"foo\"\n[dependencies]\nfoo = \"com.example/foo\"\n")
            .unwrap();
    assert_eq!(
        manifest.dependencies,
        vec![("foo".to_string(), "com.example/foo".to_string())]
    );
    let path = lookup_location(&index, "/home/u/.sphere/cache", "com.example/foo").unwrap();
    assert_eq!(path, "/home/u/.sphere/cache/foo.sphere");
    let dep = resolve_dependency("foo", "com.example/foo", "entrypoint = \"echo world\"").unwrap();
    assert_eq!(dep.alias, "foo");
    assert_eq!(dep.manifest.entrypoint, "echo world");
    let shim = shim_script(&dep.manifest.entrypoint);
    assert_eq!(shim, "#!/bin/sh\necho world\n");
    let path_env = sandbox_path_env("/sandbox/bin", "/usr/bin:/bin");
    assert_eq!(path_env, "/sandbox/bin:/usr/bin:/bin");
}

#[test]
fn uncached_dependency_directs_to_a_fetch() {
    let index = CacheIndex::new();
    assert_eq!(lookup_location(&index, "/c", "com.example/none"), None);
}

#[test]
fn repeated_resolution_of_a_populated_cache_is_identical() {
    let mut index = CacheIndex::new();
    index.cache_add("com.example/foo", "foo.sphere").unwrap();
    let first = lookup_location(&index, "/c", "com.example/foo");
    let second = lookup_location(&index, "/c", "com.example/foo");
    assert_eq!(first, second);
    assert_eq!(first, Some("/c/foo.sphere".to_string()));
    let dep_text = "entrypoint = \"echo world\"";
    let shim_one = shim_script(&parse_manifest(dep_text).unwrap().entrypoint);
    let shim_two = shim_script(&parse_manifest(dep_text).unwrap().entrypoint);
    assert_eq!(shim_one, shim_two);
    assert_eq!(shim_one.as_bytes(), shim_two.as_bytes());
}

#[test]
fn add_then_resolve_round_trips_the_entrypoint() {
    let original_file_text = "id = \"com.example/foo\"\nentrypoint = \"echo world\"\n";
    let mut index = CacheIndex::new();
    index.cache_add("com.example/foo", "/elsewhere/foo.sphere").unwrap();
    let path = lookup_location(&index, "/c", "com.example/foo").unwrap();
    assert_eq!(path, "/elsewhere/foo.sphere");
    let dep = resolve_dependency("foo", "com.example/foo", original_file_text).unwrap();
    let shim = shim_script(&dep.manifest.entrypoint);
    let original_entry = parse_manifest(original_file_text).unwrap().entrypoint;
    assert_eq!(&shim[10..shim.len() - 1], original_entry.as_str());
}

#[test]
fn locations_resolve_absolute_or_relative() {
    assert_eq!(resolve_location("/c", "/abs/x.sphere"), "/abs/x.sphere");
    assert_eq!(resolve_location("/c", "x.sphere"), "/c/x.sphere");
}

#[test]
fn dependency_manifest_errors_surface() {
    let e = resolve_dependency("foo", "id", "id = \"only\"").unwrap_err();
    assert_eq!(e, SphereError::MissingField { field: "entrypoint".to_string() });
    let e2 = resolve_dependency("foo", "id", "entrypoint =").unwrap_err();
    assert_eq!(e2, SphereError::Parse { line: 1 });
}

#[test]
fn derives_cache_filenames() {
    assert_eq!(
        derive_cache_filename("com.example/my-tool").unwrap(),
        "com.example_my-tool.sphere"
    );
    assert_eq!(derive_cache_filename("a.sphere").unwrap(), "a.sphere");
    assert_eq!(derive_cache_filename(".sphere").unwrap(), "sphere_sphere.sphere");
    assert_eq!(derive_cache_filename("~!@").unwrap(), "___.sphere");
    assert_eq!(derive_cache_filename(""), Err(SphereError::UnusableId));
}

#[test]
fn publish_id_requires_a_non_empty_id() {
    let m = parse_manifest("id = \"  com.example/x \"\nentrypoint = \"e\"\n").unwrap();
    assert_eq!(publish_id(&m).unwrap(), "com.example/x");
    let no_id = parse_manifest("entrypoint = \"e\"\n").unwrap();
    assert_eq!(
        publish_id(&no_id).unwrap_err(),
        SphereError::MissingField { field: "id".to_string() }
    );
    let blank_id = parse_manifest("id = \"   \"\nentrypoint = \"e\"\n").unwrap();
    assert_eq!(
        publish_id(&blank_id).unwrap_err(),
        SphereError::MissingField { field: "id".to_string() }
    );
}

#[test]
fn branch_suffix_keeps_leading_alphanumerics() {
    assert_eq!(branch_suffix("com.example/foo-tool"), "comexamplefoo");
    assert_eq!(branch_suffix("abc"), "abc");
    assert_eq!(branch_suffix(""), "");
}

#[test]
fn execution_result_success_is_exit_code_zero() {
    let ok = ExecutionResult { stdout: b"hello\n".to_vec(), stderr: Vec::new(), status: Some(0) };
    assert!(ok.success());
    let failed = ExecutionResult { stdout: Vec::new(), stderr: b"no".to_vec(), status: Some(1) };
    assert!(!failed.success());
    let signalled = ExecutionResult { stdout: Vec::new(), stderr: Vec::new(), status: None };
    assert!(!signalled.success());
}

#[test]
fn resolution_planning_follows_document_order() {
    let mut index = sphere::index::CacheIndex::new();
    index.cache_add("com.example/b", "b.sphere").unwrap();
    let manifest = parse_manifest(
        "entrypoint = \"x\"\n[dependencies]\nbee = \"com.example/b\"\nay = \"com.example/a\"\n",
    )
    .unwrap();
    let plans = sphere::resolver::plan_resolution(&manifest, &index, "/c");
    assert_eq!(plans.len(), 2);
    assert_eq!(plans[0].alias, "bee");
    assert_eq!(plans[0].id, "com.example/b");
    assert_eq!(plans[0].local, Some("/c/b.sphere".to_string()));
    assert_eq!(plans[1].alias, "ay");
    assert_eq!(plans[1].id, "com.example/a");
    assert_eq!(plans[1].local, None);
}
