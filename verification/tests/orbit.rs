use starc::orbit::{
    dependency_candidates, dependency_names, main_cx_template, needs_rebuild, orbit_toml_template, parse_orbit_args,
    updated_lockfile, with_c_header_dependency, with_dependency, OrbitCommand,
};

#[test]
fn new_package_files() {
    assert_eq!(orbit_toml_template(), "[package]\nname = \"my_project\"\nversion = \"0.1.0\"\n\n[dependencies]\n");
    assert_eq!(main_cx_template(), "fn main() -> i32 {\n    print(\"Hello, World!\\n\")\n    return 0\n}\n");
}

#[test]
fn adding_a_dependency_to_a_new_manifest() {
    let toml = orbit_toml_template();
    let added = with_dependency(&toml, "geometry").unwrap();
    assert!(added.contains("\ngeometry = \"*\"\n"));
    assert_eq!(with_dependency(&added, "geometry"), None);
    let lock = updated_lockfile(None, "geometry", "*").unwrap();
    assert_eq!(lock, "# Orbit Lockfile\n\n[[package]]\nname = \"geometry\"\nversion = \"*\"\n");
    assert_eq!(updated_lockfile(Some(&lock), "geometry", "*"), None);
}

#[test]
fn dependencies_are_read_from_the_manifest() {
    let toml = "[package]\nname = \"p\"\nversion = \"0.1.0\"\n\n[dependencies]\n# comment = 1\ngeometry = \"*\"\n  math = { path = \"x\" }\nplain\n";
    assert_eq!(dependency_names(toml), vec!["geometry".to_string(), "math".to_string()]);
}

#[test]
fn dependency_search_order() {
    assert_eq!(
        dependency_candidates("geometry"),
        vec!["deps/geometry.cx", "../geometry.cx", "examples/geometry.cx", "stdlib/geometry.cx"]
    );
}

#[test]
fn c_header_dependency_entry() {
    let out = with_c_header_dependency("[dependencies]\n", "math_lib", "src/math_lib.cx").unwrap();
    assert_eq!(out, "[dependencies]\n\nmath_lib = { path = \"src/math_lib.cx\" }\n");
    assert_eq!(with_c_header_dependency(&out, "math_lib", "src/math_lib.cx"), None);
}

#[test]
fn rebuild_decisions() {
    assert!(needs_rebuild(None, &vec![Some(1)]));
    assert!(needs_rebuild(Some(5), &vec![None, None]));
    assert!(!needs_rebuild(Some(5), &vec![Some(3), None, Some(5)]));
    assert!(needs_rebuild(Some(5), &vec![Some(3), Some(6)]));
}

fn args(v: &[&str]) -> Vec<String> {
    v.iter().map(|s| s.to_string()).collect()
}

#[test]
fn orbit_command_line() {
    assert!(matches!(parse_orbit_args(&args(&["orbit"])), OrbitCommand::Usage));
    assert!(matches!(parse_orbit_args(&args(&["orbit", "init"])), OrbitCommand::Init));
    assert!(matches!(parse_orbit_args(&args(&["orbit", "build"])), OrbitCommand::Build));
    assert!(matches!(parse_orbit_args(&args(&["orbit", "add"])), OrbitCommand::MissingDependency));
    match parse_orbit_args(&args(&["orbit", "add", "geometry"])) {
        OrbitCommand::Add(d) => assert_eq!(d, "geometry"),
        _ => panic!("expected add"),
    }
    match parse_orbit_args(&args(&["orbit", "add", "--c-header", "m.h"])) {
        OrbitCommand::AddCHeader(p) => assert_eq!(p, "m.h"),
        _ => panic!("expected add --c-header"),
    }
    assert!(matches!(parse_orbit_args(&args(&["orbit", "add", "x", "--c-header"])), OrbitCommand::MissingHeaderPath));
    assert!(matches!(parse_orbit_args(&args(&["orbit", "frob"])), OrbitCommand::Usage));
}
