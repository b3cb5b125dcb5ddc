use rust_build_meta::meta::{BinaryListState, PathMapper, RustBuildMeta, TargetTriple, TestListState};
use rust_build_meta::order::compare;
use rust_build_meta::paths::convert_rel_path_to_main_sep;
use rust_build_meta::{RustBuildMetaSummary, RustNonTestBinarySummary};

fn s(x: &str) -> String {
    x.to_string()
}

fn bin(name: &str, kind: &str, path: &str) -> RustNonTestBinarySummary {
    RustNonTestBinarySummary::new(s(name), s(kind), s(path))
}

fn strings(v: &[&str]) -> Vec<String> {
    v.iter().map(|x| x.to_string()).collect()
}

fn sample() -> RustBuildMeta<BinaryListState> {
    let mut m = RustBuildMeta::new(s("/build/target"), Some(TargetTriple { triple: s("x86_64-unknown-linux-gnu") }));
    m.insert_base_output_directory(s("debug"));
    m.insert_base_output_directory(s("x86_64-unknown-linux-gnu/debug"));
    m.insert_linked_path(s("debug/build/foo/out"), s("foo 0.1.0"));
    m.insert_linked_path(s("debug/build/bar/out"), s("bar 0.2.0"));
    m.insert_linked_path(s("debug/build/foo/out"), s("baz 1.0.0"));
    m.insert_non_test_binary(s("foo 0.1.0"), bin("foo", "bin-exe", "debug/foo"));
    m.insert_non_test_binary(s("foo 0.1.0"), bin("foo-helper", "bin-exe", "debug/foo-helper"));
    m.insert_non_test_binary(s("bar 0.2.0"), bin("bar", "dylib", "debug/libbar.so"));
    m
}

fn execution(linked: &[&str], bases: &[&str], target: &str) -> RustBuildMeta<TestListState> {
    let mut m = RustBuildMeta::new(s(target), None);
    for l in linked {
        m.insert_linked_path(s(l), s("pkg"));
    }
    for b in bases {
        m.insert_base_output_directory(s(b));
    }
    m.map_paths(&PathMapper::new(None))
}

#[test]
fn new_starts_empty() {
    let m = RustBuildMeta::new(s("/t"), None);
    assert_eq!(m.target_directory(), "/t");
    assert!(m.base_output_directories().is_empty());
    assert!(m.non_test_binaries().is_empty());
    assert!(m.linked_paths().is_empty());
    assert!(m.target_triple().is_none());
}

#[test]
fn base_output_directories_sorted_and_unique() {
    let mut m = RustBuildMeta::new(s("/t"), None);
    m.insert_base_output_directory(s("release"));
    m.insert_base_output_directory(s("debug"));
    m.insert_base_output_directory(s("release"));
    m.insert_base_output_directory(s("a-b"));
    m.insert_base_output_directory(s("a/b"));
    assert_eq!(m.base_output_directories(), &strings(&["a/b", "a-b", "debug", "release"]));
}

#[test]
fn linked_paths_collect_requesters() {
    let m = sample();
    let linked = m.linked_paths();
    assert_eq!(linked.len(), 2);
    assert_eq!(linked[0].0, "debug/build/bar/out");
    assert_eq!(linked[0].1, strings(&["bar 0.2.0"]));
    assert_eq!(linked[1].0, "debug/build/foo/out");
    assert_eq!(linked[1].1, strings(&["baz 1.0.0", "foo 0.1.0"]));
}

#[test]
fn non_test_binaries_keyed_and_sorted() {
    let mut m = sample();
    m.insert_non_test_binary(s("foo 0.1.0"), bin("foo", "bin-exe", "debug/foo"));
    let b = m.non_test_binaries();
    assert_eq!(b.len(), 2);
    assert_eq!(b[0].0, "bar 0.2.0");
    assert_eq!(b[1].0, "foo 0.1.0");
    assert_eq!(b[1].1, vec![bin("foo", "bin-exe", "debug/foo"), bin("foo-helper", "bin-exe", "debug/foo-helper")]);
}

#[test]
fn map_paths_keeps_target_without_override() {
    let m = sample();
    let e = m.map_paths(&PathMapper::new(None));
    assert_eq!(e.target_directory(), "/build/target");
    assert_eq!(e.base_output_directories(), m.base_output_directories());
    assert_eq!(e.non_test_binaries(), m.non_test_binaries());
    assert_eq!(e.linked_paths(), m.linked_paths());
    assert_eq!(e.target_triple(), m.target_triple());
}

#[test]
fn map_paths_replaces_target_and_leaves_source() {
    let m = sample();
    let before = sample();
    let mapper = PathMapper::new(Some(s("/elsewhere/target")));
    assert_eq!(mapper.new_target_dir(), Some(&s("/elsewhere/target")));
    let e = m.map_paths(&mapper);
    assert_eq!(e.target_directory(), "/elsewhere/target");
    assert_eq!(e.base_output_directories(), m.base_output_directories());
    assert_eq!(e.linked_paths(), m.linked_paths());
    assert_eq!(m, before);
}

#[test]
fn dylib_paths_linked_before_base() {
    let m = execution(&["c/d", "a/b"], &["out1"], "target");
    let paths = m.dylib_paths_with(&vec![true, true], "/");
    assert_eq!(paths, strings(&["target/a/b", "target/c/d", "target/out1/deps", "target/out1"]));
}

#[test]
fn dylib_paths_drop_missing_linked() {
    let m = execution(&["a/b", "c/d"], &["out1"], "target");
    let paths = m.dylib_paths_with(&vec![false, true], "/");
    assert_eq!(paths, strings(&["target/c/d", "target/out1/deps", "target/out1"]));
}

#[test]
fn dylib_paths_never_filter_base() {
    let m = execution(&["a/b"], &["out2", "out1"], "target");
    let paths = m.dylib_paths_with(&vec![false], "/");
    assert_eq!(paths, strings(&["target/out1/deps", "target/out1", "target/out2/deps", "target/out2"]));
}

#[test]
fn dylib_paths_with_other_separator() {
    let m = execution(&["a/b"], &["x/debug"], "t");
    let paths = m.dylib_paths_with(&vec![true], "\\");
    assert_eq!(paths, strings(&["t/a\\b", "t/x\\debug/deps", "t/x\\debug"]));
}

#[test]
fn dylib_paths_check_the_disk() {
    let m = execution(&[".", "no-such-directory-here/x"], &["out1"], "/");
    assert_eq!(m.linked_path_candidates("/"), strings(&["/.", "/no-such-directory-here/x"]));
    assert_eq!(m.dylib_paths(), strings(&["/.", "/out1/deps", "/out1"]));
}

#[test]
fn empty_metadata() {
    let m = RustBuildMeta::<TestListState>::empty();
    assert!(m.dylib_paths().is_empty());
    let summary = m.to_summary();
    assert_eq!(summary.target_directory, "");
    assert!(summary.base_output_directories.is_empty());
    assert!(summary.non_test_binaries.is_empty());
    assert!(summary.linked_paths.is_empty());
    assert_eq!(summary.target_triple, None);
}

#[test]
fn summary_drops_requesters() {
    let summary = sample().to_summary();
    assert_eq!(summary.target_directory, "/build/target");
    assert_eq!(summary.base_output_directories, strings(&["debug", "x86_64-unknown-linux-gnu/debug"]));
    assert_eq!(summary.linked_paths, strings(&["debug/build/bar/out", "debug/build/foo/out"]));
    assert_eq!(summary.target_triple, Some(s("x86_64-unknown-linux-gnu")));
    assert_eq!(summary.non_test_binaries.len(), 2);
}

#[test]
fn round_trip_empties_requesters() {
    let m = sample();
    let back: RustBuildMeta<BinaryListState> = RustBuildMeta::from_summary(m.to_summary());
    assert_eq!(back.target_directory(), m.target_directory());
    assert_eq!(back.base_output_directories(), m.base_output_directories());
    assert_eq!(back.non_test_binaries(), m.non_test_binaries());
    assert_eq!(back.target_triple(), m.target_triple());
    let expected: Vec<(String, Vec<String>)> =
        m.linked_paths().iter().map(|(k, _)| (k.clone(), Vec::new())).collect();
    assert_eq!(back.linked_paths(), &expected);
    assert_ne!(back.linked_paths(), m.linked_paths());
}

#[test]
fn round_trip_in_execution_phase() {
    let m = sample().map_paths(&PathMapper::new(None));
    let back: RustBuildMeta<TestListState> = RustBuildMeta::from_summary(m.to_summary());
    assert_eq!(back.to_summary(), m.to_summary());
}

#[test]
fn summary_independent_of_insertion_order() {
    let mut a = RustBuildMeta::new(s("/t"), None);
    a.insert_base_output_directory(s("debug"));
    a.insert_base_output_directory(s("release"));
    a.insert_linked_path(s("x"), s("p"));
    a.insert_linked_path(s("y"), s("q"));
    a.insert_non_test_binary(s("p"), bin("one", "bin-exe", "debug/one"));
    a.insert_non_test_binary(s("p"), bin("two", "bin-exe", "debug/two"));
    let mut b = RustBuildMeta::new(s("/t"), None);
    b.insert_non_test_binary(s("p"), bin("two", "bin-exe", "debug/two"));
    b.insert_linked_path(s("y"), s("q"));
    b.insert_base_output_directory(s("release"));
    b.insert_non_test_binary(s("p"), bin("one", "bin-exe", "debug/one"));
    b.insert_linked_path(s("x"), s("p"));
    b.insert_base_output_directory(s("debug"));
    assert_eq!(a, b);
    assert_eq!(a.to_summary(), b.to_summary());
}

#[test]
fn from_summary_sorts_and_merges() {
    let summary = RustBuildMetaSummary {
        target_directory: s("/t"),
        base_output_directories: strings(&["release", "debug", "release"]),
        non_test_binaries: vec![
            (s("q"), vec![bin("b", "bin-exe", "debug/b")]),
            (s("p"), vec![bin("z", "bin-exe", "debug/z"), bin("a", "dylib", "debug/liba.so")]),
            (s("q"), vec![bin("a", "bin-exe", "debug/a")]),
        ],
        linked_paths: strings(&["y", "x", "y"]),
        target_triple: None,
    };
    let m: RustBuildMeta<BinaryListState> = RustBuildMeta::from_summary(summary);
    assert_eq!(m.base_output_directories(), &strings(&["debug", "release"]));
    let b = m.non_test_binaries();
    assert_eq!(b.len(), 2);
    assert_eq!(b[0], (s("p"), vec![bin("a", "dylib", "debug/liba.so"), bin("z", "bin-exe", "debug/z")]));
    assert_eq!(b[1], (s("q"), vec![bin("a", "bin-exe", "debug/a"), bin("b", "bin-exe", "debug/b")]));
    assert_eq!(m.linked_paths(), &vec![(s("x"), Vec::new()), (s("y"), Vec::new())]);
}

#[test]
fn unknown_triple_is_kept() {
    let t = TargetTriple::deserialize(Some(s("not-a-known-triple")));
    assert_eq!(t, Some(TargetTriple { triple: s("not-a-known-triple") }));
    assert_eq!(TargetTriple::deserialize(None), None);
    let summary = RustBuildMetaSummary {
        target_directory: s("/t"),
        base_output_directories: Vec::new(),
        non_test_binaries: Vec::new(),
        linked_paths: Vec::new(),
        target_triple: Some(s("not-a-known-triple")),
    };
    let m: RustBuildMeta<TestListState> = RustBuildMeta::from_summary(summary);
    assert_eq!(m.target_triple(), &Some(TargetTriple { triple: s("not-a-known-triple") }));
}

#[test]
fn triple_serializes_as_text() {
    let t = TargetTriple { triple: s("aarch64-apple-darwin") };
    assert_eq!(TargetTriple::serialize(Some(&t)), Some(s("aarch64-apple-darwin")));
    assert_eq!(TargetTriple::serialize(None), None);
}

#[test]
fn path_order_compares_components() {
    assert!(compare("a/b", "a-b", true) < 0);
    assert!(compare("a/b", "a-b", false) > 0);
    assert!(compare("a", "a/b", true) < 0);
    assert_eq!(compare("same", "same", true), 0);
    assert!(compare("b", "a", false) > 0);
}

#[test]
fn separators_rewritten() {
    assert_eq!(convert_rel_path_to_main_sep("a/b/c", "\\"), "a\\b\\c");
    assert_eq!(convert_rel_path_to_main_sep("a/b", "/"), "a/b");
    assert_eq!(convert_rel_path_to_main_sep("", "\\"), "");
}
