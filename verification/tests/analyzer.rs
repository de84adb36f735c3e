use pata::analyzer::{analyze_file, analyze_project, is_analyzed};

#[test]
fn detects_unsafe_and_todos() {
    let files = vec![("mod.rs".to_string(), "unsafe fn bad() {} // TODO\n".to_string())];
    let analysis = analyze_project(".", files).unwrap();
    assert_eq!(analysis.rust_files, 1);
    assert!(analysis.warnings.iter().any(|w| w.contains("unsafe")));
}

#[test]
fn insights_count_lines_markers_and_complexity() {
    let f = analyze_file("a.rs", "fn a() { match x {} }\nfn b(){}\nlet fnx = 1; // TODO FIXME\n").unwrap();
    assert_eq!(f.lines, 3);
    assert_eq!(f.todo_count, 2);
    assert!(!f.has_unsafe);
    assert_eq!(f.complexity_score, 3);
}

#[test]
fn project_lists_most_complex_first_and_warns() {
    let todos = "// TODO\n".repeat(6);
    let files = vec![
        ("a.rs".to_string(), "fn a() {}\n".to_string()),
        ("b.rs".to_string(), "fn b() {}\nfn c() {}\n".to_string()),
        ("c.rs".to_string(), todos),
        ("d.rs".to_string(), "fn d() {}\n".to_string()),
    ];
    let a = analyze_project("/repo", files).unwrap();
    assert_eq!(a.root, "/repo");
    assert_eq!(a.total_lines, 1 + 2 + 6 + 1);
    let order: Vec<&str> = a.insights.iter().map(|f| f.path.as_str()).collect();
    assert_eq!(order, vec!["b.rs", "a.rs", "d.rs", "c.rs"]);
    assert_eq!(a.warnings, vec!["c.rs has a high TODO/FIXME count".to_string()]);
}

#[test]
fn only_rust_files_outside_target_are_analyzed() {
    let comps = |v: &[&str]| v.iter().map(|s| s.to_string()).collect::<Vec<_>>();
    assert!(is_analyzed(&comps(&["src", "main.rs"]), Some("rs")));
    assert!(!is_analyzed(&comps(&["target", "x.rs"]), Some("rs")));
    assert!(!is_analyzed(&comps(&["src", "x.toml"]), Some("toml")));
    assert!(!is_analyzed(&comps(&["README"]), None));
}
