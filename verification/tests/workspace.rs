use pata::cli::{bounded_arg, check_lock_name, env_flag, parse_args, retrieval_limit};
use pata::coder::patch_prompt;
use pata::config::{parse_ram_gb, select_model_for_mac_m4, AppConfig};
use pata::retrieval::{excerpt, score_file, terms_of, top_n};
use pata::scanner::{extract_symbols, scan_metadata, scan_repo, summarize_module};
use pata::session::{append_session_entry, load_open_loops, recent_modules, render_recent};
use pata::status::{git_summary, latest_patch_id, validation_summary};
use pata::types::{CargoTargetStats, FileSummary, ProjectIndex, RetrievalHit};

#[test]
fn model_follows_memory_size() {
    assert_eq!(select_model_for_mac_m4(32), "qwen2.5-coder:14b-instruct-q4_K_M");
    assert_eq!(select_model_for_mac_m4(16), "qwen2.5-coder:7b-instruct-q4_K_M");
    assert_eq!(select_model_for_mac_m4(8), "deepseek-coder:6.7b-instruct-q4_K_M");
    assert_eq!(parse_ram_gb(" 17179869184\n"), Some(16));
    assert_eq!(parse_ram_gb("lots"), None);
    let cfg = AppConfig::defaults("/w", None);
    assert_eq!(cfg.model_name, "qwen2.5-coder:7b-instruct-q4_K_M");
    assert_eq!(cfg.protected_paths, vec!["src/core".to_string(), "src/engine".to_string()]);
    assert_eq!(AppConfig::path(), ".pata/config.json");
}

#[test]
fn command_line_flags_are_taken_out() {
    let args = vec!["--low-power".to_string(), "plan".to_string(), "goal".to_string(), "--verbose".to_string()];
    let (lp, vb, cmd, rest) = parse_args(&args, false, false);
    assert!(lp && vb);
    assert_eq!(cmd, "plan");
    assert_eq!(rest, vec!["goal".to_string()]);
    let (lp, vb, cmd, rest) = parse_args(&Vec::new(), false, true);
    assert!(!lp && vb);
    assert_eq!(cmd, "tui");
    assert!(rest.is_empty());
    assert!(env_flag(Some("on")) && env_flag(Some("1")) && !env_flag(Some("yes")) && !env_flag(None));
    assert_eq!(bounded_arg("abcd".to_string(), 3).unwrap_err(), "argument too large (max 3)");
    assert_eq!(bounded_arg("abc".to_string(), 3).unwrap(), "abc");
    assert_eq!(retrieval_limit(true, 8), 3);
    assert_eq!(retrieval_limit(false, 8), 8);
    assert!(check_lock_name("state-write").is_ok());
    assert_eq!(check_lock_name("../x").unwrap_err(), "invalid lock name");
}

#[test]
fn status_texts() {
    assert_eq!(validation_summary(None), "last-validate: unknown");
    assert_eq!(validation_summary(Some("  \n")), "last-validate: clean");
    assert_eq!(validation_summary(Some("e1\ne2\n")), "last-validate: issues (2)");
    assert_eq!(git_summary(true, true, b"\n", b"", ""), "clean");
    assert_eq!(git_summary(true, true, b" M a\n?? b\n", b"", ""), "dirty (2)");
    assert_eq!(git_summary(true, false, b"", b"fatal: no repo\n", ""), "invalid (fatal: no repo)");
    assert_eq!(git_summary(false, false, b"", b"", "not found"), "error (not found)");
    let names = vec!["p-2.diff".to_string(), "p-10.diff".to_string(), "p-3.meta".to_string(), "x.diff.diff".to_string()];
    assert_eq!(latest_patch_id(&names), Some("x".to_string()));
    assert_eq!(latest_patch_id(&vec!["a.meta".to_string()]), None);
}

#[test]
fn retrieval_scores_and_orders_hits() {
    let index = ProjectIndex {
        workspace_root: "/w".to_string(),
        packages: vec![],
        manifests: vec![],
        target_stats: CargoTargetStats { bins: 0, libs: 0, examples: 0, tests: 0 },
        file_summaries: vec![
            FileSummary { path: "src/other.rs".to_string(), lines: 3, symbols: vec![], module_summary: "functions=0".to_string() },
            FileSummary { path: "src/Scanner.rs".to_string(), lines: 3, symbols: vec!["fn scan_repo(root: &Path)".to_string()], module_summary: "scanner".to_string() },
            FileSummary { path: "src/lib.rs".to_string(), lines: 3, symbols: vec!["fn scan()".to_string()], module_summary: "x".to_string() },
        ],
    };
    let terms = terms_of("  Scan repo ");
    assert_eq!(terms, vec!["scan".to_string(), "repo".to_string()]);
    assert_eq!(score_file(&index.file_summaries[1], &terms), 13);
    let texts = vec![String::new(), "l1\nl2\n".to_string(), "a\n".to_string()];
    let hits: Vec<RetrievalHit> = top_n(&index, "scan repo", 5, &texts);
    assert_eq!(hits.len(), 2);
    assert_eq!(hits[0].path, "src/Scanner.rs");
    assert_eq!(hits[0].score, 13);
    assert_eq!(hits[0].excerpt, "l1\nl2");
    assert_eq!(hits[1].path, "src/lib.rs");
    assert_eq!(hits[1].score, 3);
    assert_eq!(top_n(&index, "scan repo", 1, &texts).len(), 1);
    let many: String = (0..12).map(|i| format!("line{i}\n")).collect();
    assert_eq!(excerpt(&many).lines().count(), 10);
    let prompt = patch_prompt("Fix it", &hits);
    assert!(prompt.contains("Persona contract version: persona.v2"));
    assert!(prompt.contains("Objective: Fix it.\nReturn only unified diff patch."));
    assert!(prompt.ends_with("FILE:src/Scanner.rs\nl1\nl2\n\nFILE:src/lib.rs\na"));
}

#[test]
fn scanner_reads_metadata_and_files() {
    let meta = r#"{"workspace_root":"/w","packages":[
        {"name":"b","manifest_path":"/w/b/Cargo.toml","targets":[{"kind":["lib"]},{"kind":["bin","test"]}]},
        {"name":"a","manifest_path":"/w/a/Cargo.toml","targets":[{"kind":["proc-macro","example"]}]},
        {"name":"a","manifest_path":"/w/a/Cargo.toml","targets":[]}]}"#;
    let m = scan_metadata(meta, "/root").unwrap();
    assert_eq!(m.workspace_root, "/w");
    assert_eq!(m.packages, vec!["a".to_string(), "b".to_string()]);
    assert_eq!(m.manifests, vec!["/w/a/Cargo.toml".to_string(), "/w/b/Cargo.toml".to_string()]);
    assert_eq!((m.target_stats.bins, m.target_stats.libs, m.target_stats.examples, m.target_stats.tests), (1, 2, 1, 1));
    assert_eq!(scan_metadata("[]", "/r").unwrap_err(), "cargo metadata json root invalid");
    assert_eq!(scan_metadata("{}", "/r").unwrap_err(), "cargo metadata missing packages");
    assert_eq!(scan_metadata("{", "/r").unwrap_err(), "unexpected char");
    let m2 = scan_metadata(r#"{"packages":[]}"#, "/r").unwrap();
    assert_eq!(m2.workspace_root, "/r");
    let files = vec![
        ("src/a.rs".to_string(), "fn a() {}\n".to_string()),
        ("src/b.rs".to_string(), "pub struct B { x: u8 }\nfn b() {}\nunsafe fn c() {}\n".to_string()),
        ("src/c.rs".to_string(), "enum C { X }\n".to_string()),
    ];
    let idx = scan_repo(m2, &files);
    let paths: Vec<&str> = idx.file_summaries.iter().map(|f| f.path.as_str()).collect();
    assert_eq!(paths, vec!["src/b.rs", "src/a.rs", "src/c.rs"]);
    assert_eq!(idx.file_summaries[0].lines, 3);
    assert_eq!(idx.file_summaries[0].symbols, vec!["fn b()".to_string()]);
    assert_eq!(idx.file_summaries[0].module_summary, "functions=1, data_types=0, unsafe_mentions=1");
    assert_eq!(summarize_module("struct A;\nenum B {}\n"), "functions=0, data_types=2, unsafe_mentions=0");
    let many: String = (0..20).map(|i| format!("fn f{i}() {{}}\n")).collect();
    assert_eq!(extract_symbols(&many).len(), 16);
}

#[test]
fn recent_memory_view_and_modules() {
    let loops = load_open_loops("ol-1\tbug\topen\tfix scanner\nol-2\tdoc\tclosed\twrite docs\nbroken line\n");
    assert_eq!(loops.len(), 2);
    let daily = "---\nfiles_touched=src/b.rs | src/a.rs\n---\nfiles_touched=src/a.rs |  src/c.rs \n";
    let view = render_recent("1\t2024-01-01\t2024-W01\n2\t2024-01-02\t2024-W01\n", &loops, "l1\nl2\n", "", "e1\n", daily);
    assert_eq!(
        view,
        "last_session=2\t2024-01-02\t2024-W01\nopen_loops=ol-1 [bug] fix scanner\nlessons=l1 | l2\npatches=\nlast_validate_errors=e1\nrecent_modules=src/a.rs | src/b.rs | src/c.rs\n"
    );
    assert_eq!(recent_modules(&view, 2), vec!["src/a.rs".to_string(), "src/b.rs".to_string()]);
    let empty = render_recent("", &Vec::new(), "", "", "", "");
    assert!(empty.starts_with("last_session=none\n"));
    assert!(recent_modules(&empty, 5).is_empty());
}

#[test]
fn sessions_log_is_bounded() {
    let one = append_session_entry("", 5, "2024-01-01", "2024-W01");
    assert_eq!(one, "5\t2024-01-01\t2024-W01\n");
    let mut log = String::new();
    for i in 0..301u64 {
        log = append_session_entry(&log, i, "d", "w");
    }
    assert_eq!(log.lines().count(), 200);
    assert!(log.starts_with("101\td\tw\n"));
    assert!(log.ends_with("300\td\tw\n"));
}
