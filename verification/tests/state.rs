use pata::state::{
    last_ollama_diag_text, last_status_text, last_validate_text, last_warning_text, read_state_file,
    state_name_allowed, StateFileMeta,
};
use pata::status::GlobalStatus;
use pata::types::{OllamaDiagnostic, ValidationResult};

fn plain(len: u64) -> Option<StateFileMeta> {
    Some(StateFileMeta { is_symlink: false, is_file: true, len })
}

#[test]
fn invalid_state_name_is_rejected() {
    let v = read_state_file("../bad", plain(3), Some("abc".to_string()));
    assert_eq!(v, "invalid-state-name");
}

#[test]
fn oversized_state_file_is_ignored() {
    let data = "x".repeat(220_000);
    let v = read_state_file("last_status.txt", plain(220_000), Some(data));
    assert_eq!(v, "unavailable");
}

#[test]
fn state_reads_are_cut_and_links_refused() {
    let long = "y".repeat(5000);
    let v = read_state_file("last_status.txt", plain(5000), Some(long));
    assert_eq!(v.chars().count(), 4000);
    assert_eq!(read_state_file("a.txt", plain(2), Some("ok".to_string())), "ok");
    assert_eq!(read_state_file("a.txt", None, None), "unavailable");
    assert_eq!(read_state_file("a.txt", plain(2), None), "unavailable");
    let link = Some(StateFileMeta { is_symlink: true, is_file: true, len: 2 });
    assert_eq!(read_state_file("a.txt", link, Some("ok".to_string())), "unavailable");
    let dir = Some(StateFileMeta { is_symlink: false, is_file: false, len: 2 });
    assert_eq!(read_state_file("a.txt", dir, Some("ok".to_string())), "unavailable");
    assert!(state_name_allowed("last_validate.txt"));
    assert!(!state_name_allowed("a/b"));
    assert!(!state_name_allowed("a-b"));
}

#[test]
fn state_texts_are_one_line_per_field() {
    let v = ValidationResult {
        eval_version: "e".to_string(),
        check_ok: true,
        clippy_ok: false,
        test_ok: true,
        total_duration_ms: 1,
        regression_alerts: Vec::new(),
        logs: Vec::new(),
    };
    assert_eq!(last_validate_text(&v), "ok=false\ncheck=true\nclippy=false\ntest=true\n");
    let d = OllamaDiagnostic {
        state: "ok".to_string(),
        message: "a\nb".to_string(),
        hint: "c\td".to_string(),
    };
    assert_eq!(last_ollama_diag_text(&d), "state=ok\nmessage=a b\nhint=c d\n");
    assert_eq!(last_warning_text("x\ry"), "x y\n");
    let s = GlobalStatus {
        git: "clean".to_string(),
        ollama: "ok".to_string(),
        model: "m".to_string(),
        memory: "ready".to_string(),
        validation: "no".to_string(),
        last_patch: "p1".to_string(),
        last_rollback: "none".to_string(),
        low_power: true,
        warning: "w\nx".to_string(),
    };
    assert_eq!(
        last_status_text(&s),
        "git=clean\nollama=ok\nmodel=m\nmemory=ready\nvalidation=no\nlast_patch=p1\nlast_rollback=none\nlow_power=true\nwarning=w x\n"
    );
}

#[test]
fn task_memory_is_compressed_past_two_hundred_lines() {
    let short: String = (0..200).map(|i| format!("{{\"n\":{i}}}\n")).collect();
    assert_eq!(pata::session::compress_task_memory(&short), None);
    let long: String = (0..250).map(|i| format!("l{i}\n")).collect();
    let c = pata::session::compress_task_memory(&long).unwrap();
    let ls: Vec<&str> = c.lines().collect();
    assert_eq!(ls.len(), 121);
    assert_eq!(ls[0], "{\"compressed\":true,\"dropped\":130}");
    assert_eq!(ls[1], "l130");
    assert_eq!(ls[120], "l249");
    assert!(c.ends_with("l249\n"));
}
