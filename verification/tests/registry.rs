use pax_registry::handlers::archive_file_name;
use pax_registry::handlers::metadata_outcome;
use pax_registry::handlers::package_outcome;
use pax_registry::handlers::Outcome;
use pax_registry::metadata::PackageMetadata;
use pax_registry::paths::path_check;
use pax_registry::resolve::get_latest;
use pax_registry::resolve::get_version;

fn names(v: &[&str]) -> Vec<String> {
    v.iter().map(|s| s.to_string()).collect()
}

fn sample_versions() -> Vec<String> {
    names(&["1.0.0", "1.2.0", "1.2.5", "2.0.0"])
}

#[test]
fn rejects_parent_component() {
    assert_eq!(path_check("..", "/srv/registry"), None);
    assert_eq!(path_check("a/../b", "/srv/registry"), None);
    assert_eq!(path_check("../../etc/passwd", "/srv/registry"), None);
}

#[test]
fn accepts_plain_components() {
    assert_eq!(
        path_check("pkg", "/srv/registry"),
        Some("/srv/registry/pkg".to_string())
    );
    assert_eq!(
        path_check("a/b/c", "/srv/registry"),
        Some("/srv/registry/a/b/c".to_string())
    );
}

#[test]
fn skips_current_dir_and_empty_components() {
    assert_eq!(
        path_check("./a//b/.", "/srv/registry"),
        Some("/srv/registry/a/b".to_string())
    );
    assert_eq!(path_check("", "/srv/registry"), Some("/srv/registry".to_string()));
    assert_eq!(path_check("/", "/srv/registry"), Some("/srv/registry".to_string()));
    assert_eq!(
        path_check("///pkg", "/srv/registry"),
        Some("/srv/registry/pkg".to_string())
    );
}

#[test]
fn parent_component_rejected_wherever_it_stands() {
    assert_eq!(path_check("a/b/..", "/srv/registry"), None);
    assert_eq!(path_check("../a", "/srv/registry"), None);
    assert_eq!(path_check("a/../../b", "/srv/registry"), None);
}

#[test]
fn dotted_names_are_not_parent_markers() {
    assert_eq!(
        path_check("a.b/...", "/srv"),
        Some("/srv/a.b/...".to_string())
    );
    assert_eq!(path_check("..a", "/srv"), Some("/srv/..a".to_string()));
}

#[test]
fn resolve_major_prefix() {
    let v = sample_versions();
    assert_eq!(get_version(&v, "1"), Some(2));
    assert_eq!(v[2], "1.2.5");
}

#[test]
fn resolve_major_minor_prefix() {
    let v = sample_versions();
    assert_eq!(get_version(&v, "1.2"), Some(2));
}

#[test]
fn resolve_exact() {
    let v = sample_versions();
    assert_eq!(get_version(&v, "2.0.0"), Some(3));
    assert_eq!(v[3], "2.0.0");
    assert_eq!(get_version(&v, "1.2.0"), Some(1));
}

#[test]
fn resolve_absent_takes_highest() {
    let v = sample_versions();
    assert_eq!(get_latest(&v), Some(3));
}

#[test]
fn unparsable_directory_never_beats_a_real_version() {
    let v = names(&["latest", "1.0.0"]);
    assert_eq!(get_latest(&v), Some(1));
    let v = names(&["1.0.0", "latest"]);
    assert_eq!(get_latest(&v), Some(0));
}

#[test]
fn unparsable_directory_wins_only_alone() {
    let v = names(&["latest"]);
    assert_eq!(get_latest(&v), Some(0));
}

#[test]
fn equal_keys_take_the_last_enumerated() {
    // Unparsable names all share the lowest key, so the last one wins.
    let v = names(&["zzz", "latest", "stale"]);
    assert_eq!(get_latest(&v), Some(2));
}

#[test]
fn unparsable_name_ties_with_a_literal_zero_version() {
    // An unparsable name stands as 0.0.0 exactly, so against a literal
    // 0.0.0 directory the tie goes to the one enumerated last.
    let v = names(&["0.0.0", "latest"]);
    assert_eq!(get_latest(&v), Some(1));
    let v = names(&["latest", "0.0.0"]);
    assert_eq!(get_latest(&v), Some(1));
}

#[test]
fn backslashes_are_ordinary_name_characters() {
    assert_eq!(
        path_check("a\\b", "/srv"),
        Some("/srv/a\\b".to_string())
    );
}

#[test]
fn invalid_spec_shapes_match_nothing() {
    let v = sample_versions();
    assert_eq!(get_version(&v, "1.2.3.4"), None);
    assert_eq!(get_version(&v, "abc"), None);
    assert_eq!(get_version(&v, ""), None);
    assert_eq!(get_version(&v, "1."), None);
    assert_eq!(get_version(&v, ".1"), None);
    assert_eq!(get_version(&v, "1.a"), None);
}

#[test]
fn empty_directory_resolves_nothing() {
    let v: Vec<String> = Vec::new();
    assert_eq!(get_latest(&v), None);
    assert_eq!(get_version(&v, "1"), None);
    assert_eq!(get_version(&v, "1.2"), None);
    assert_eq!(get_version(&v, "1.2.3"), None);
    assert_eq!(get_version(&v, "abc"), None);
}

#[test]
fn spec_prefix_matching_is_textual() {
    // The documented sharp edge: spec "2" admits any name opening "2.",
    // and a name "20.0.0" is not admitted by spec "2".
    let v = names(&["20.0.0", "2.1.0"]);
    assert_eq!(get_version(&v, "2"), Some(1));
    assert_eq!(get_version(&v, "20"), Some(0));
}

#[test]
fn unmatched_specs_yield_nothing() {
    let v = sample_versions();
    assert_eq!(get_version(&v, "3"), None);
    assert_eq!(get_version(&v, "1.3"), None);
    assert_eq!(get_version(&v, "1.2.4"), None);
}

fn sample_metadata() -> PackageMetadata {
    PackageMetadata {
        name: "demo".to_string(),
        description: "A demonstration package".to_string(),
        version: "1.2.5".to_string(),
        origin: "https://example.invalid/demo".to_string(),
        build_dependencies: names(&["gcc", "make"]),
        runtime_dependencies: names(&["libc"]),
        build: "build.sh".to_string(),
        install: "install.sh".to_string(),
        uninstall: "uninstall.sh".to_string(),
        purge: "purge.sh".to_string(),
        hash: "d41d8cd98f00b204e9800998ecf8427e".to_string(),
    }
}

#[test]
fn metadata_round_trip_keeps_every_field() {
    let m = sample_metadata();
    let body = m.to_json();
    let v: serde_json::Value = serde_json::from_str(&body).unwrap();
    let obj = v.as_object().unwrap();
    assert_eq!(obj.len(), 11);
    assert_eq!(obj.get("name").unwrap().as_str().unwrap(), "demo");
    assert_eq!(
        obj.get("description").unwrap().as_str().unwrap(),
        "A demonstration package"
    );
    assert_eq!(obj.get("version").unwrap().as_str().unwrap(), "1.2.5");
    assert_eq!(
        obj.get("origin").unwrap().as_str().unwrap(),
        "https://example.invalid/demo"
    );
    let bd: Vec<&str> = obj
        .get("build_dependencies")
        .unwrap()
        .as_array()
        .unwrap()
        .iter()
        .map(|x| x.as_str().unwrap())
        .collect();
    assert_eq!(bd, vec!["gcc", "make"]);
    let rd: Vec<&str> = obj
        .get("runtime_dependencies")
        .unwrap()
        .as_array()
        .unwrap()
        .iter()
        .map(|x| x.as_str().unwrap())
        .collect();
    assert_eq!(rd, vec!["libc"]);
    assert_eq!(obj.get("build").unwrap().as_str().unwrap(), "build.sh");
    assert_eq!(obj.get("install").unwrap().as_str().unwrap(), "install.sh");
    assert_eq!(
        obj.get("uninstall").unwrap().as_str().unwrap(),
        "uninstall.sh"
    );
    assert_eq!(obj.get("purge").unwrap().as_str().unwrap(), "purge.sh");
    assert_eq!(
        obj.get("hash").unwrap().as_str().unwrap(),
        "d41d8cd98f00b204e9800998ecf8427e"
    );
}

#[test]
fn json_escaping_round_trips() {
    let mut m = sample_metadata();
    m.description = "say \"hi\"\\\n\ttab\r\u{8}\u{c}\u{1}\u{1f} end".to_string();
    let body = m.to_json();
    let v: serde_json::Value = serde_json::from_str(&body).unwrap();
    assert_eq!(
        v.as_object().unwrap().get("description").unwrap().as_str().unwrap(),
        "say \"hi\"\\\n\ttab\r\u{8}\u{c}\u{1}\u{1f} end"
    );
}

#[test]
fn json_encoding_matches_the_wire_format() {
    let mut m = sample_metadata();
    m.description = "d".to_string();
    m.origin = "o".to_string();
    m.build_dependencies = Vec::new();
    m.runtime_dependencies = names(&["x"]);
    m.build = "b".to_string();
    m.install = "i".to_string();
    m.uninstall = "u".to_string();
    m.purge = "p".to_string();
    m.hash = "h".to_string();
    assert_eq!(
        m.to_json(),
        "{\"name\":\"demo\",\"description\":\"d\",\"version\":\"1.2.5\",\"origin\":\"o\",\
         \"build_dependencies\":[],\"runtime_dependencies\":[\"x\"],\"build\":\"b\",\
         \"install\":\"i\",\"uninstall\":\"u\",\"purge\":\"p\",\"hash\":\"h\"}"
    );
}

#[test]
fn status_codes() {
    assert_eq!(Outcome::Success.status_code(), 200);
    assert_eq!(Outcome::Forbidden.status_code(), 403);
    assert_eq!(Outcome::NotFound.status_code(), 404);
    assert_eq!(Outcome::Internal.status_code(), 500);
}

#[test]
fn metadata_outcomes() {
    let m = sample_metadata();
    assert_eq!(metadata_outcome(false, false, false, None).0, Outcome::Forbidden);
    assert_eq!(metadata_outcome(true, false, false, None).0, Outcome::NotFound);
    assert_eq!(metadata_outcome(true, true, false, None).0, Outcome::NotFound);
    assert_eq!(metadata_outcome(true, true, true, None).0, Outcome::Internal);
    let (o, body) = metadata_outcome(true, true, true, Some(&m));
    assert_eq!(o, Outcome::Success);
    assert_eq!(body.unwrap(), m.to_json());
}

#[test]
fn package_outcomes() {
    assert_eq!(package_outcome(false, false, false, false, false), Outcome::Forbidden);
    assert_eq!(package_outcome(true, false, false, false, false), Outcome::NotFound);
    assert_eq!(package_outcome(true, true, false, false, false), Outcome::Forbidden);
    assert_eq!(package_outcome(true, true, true, false, false), Outcome::NotFound);
    assert_eq!(package_outcome(true, true, true, true, false), Outcome::Internal);
    assert_eq!(package_outcome(true, true, true, true, true), Outcome::Success);
}

#[test]
fn archive_file_names() {
    assert_eq!(archive_file_name("demo", "1.2.5"), "demo-1.2.5.pax");
    // A traversal hidden in the version is caught by validating the
    // derived file name, never by reading outside the registry root.
    let n = archive_file_name("demo", "../../etc/passwd");
    assert_eq!(path_check(&n, "/srv/registry/demo"), None);
}

#[test]
fn traversal_request_is_forbidden_not_missing() {
    let name_ok = path_check("../../etc/passwd", "/srv/registry").is_some();
    assert_eq!(
        package_outcome(name_ok, false, false, false, false),
        Outcome::Forbidden
    );
    assert_eq!(
        metadata_outcome(name_ok, false, false, None).0,
        Outcome::Forbidden
    );
}
