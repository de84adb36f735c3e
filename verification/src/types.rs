//! Data shared by the repository tools: scans, retrieval hits, patches,
//! reviews and validations.  Paths are kept as text.
use vstd::prelude::*;

verus! {

/// Counts of cargo targets by kind.
#[derive(Debug, Clone, Copy)]
pub struct CargoTargetStats {
    pub bins: usize,
    pub libs: usize,
    pub examples: usize,
    pub tests: usize,
}

/// What a scan records of one Rust file.
#[derive(Debug)]
pub struct FileSummary {
    pub path: String,
    pub lines: usize,
    pub symbols: Vec<String>,
    pub module_summary: String,
}

/// What a scan records of a workspace.
#[derive(Debug)]
pub struct ProjectIndex {
    pub workspace_root: String,
    pub packages: Vec<String>,
    pub manifests: Vec<String>,
    pub target_stats: CargoTargetStats,
    pub file_summaries: Vec<FileSummary>,
}

/// A file found for a query, with its score and first lines.
#[derive(Debug)]
pub struct RetrievalHit {
    pub path: String,
    pub score: usize,
    pub excerpt: String,
}

/// A proposed patch: identifier, objective, unified diff and files.
#[derive(Debug)]
pub struct PatchProposal {
    pub id: String,
    pub objective: String,
    pub diff: String,
    pub files: Vec<String>,
}

/// Risk assessment of a patch.
#[derive(Debug)]
pub struct RiskReport {
    pub score: u8,
    pub reasons: Vec<String>,
    pub sensitive_zones: Vec<String>,
    pub critical_files: Vec<String>,
    pub allowed: bool,
    pub recommendation: String,
}

/// Review of a patch.
#[derive(Debug)]
pub struct PatchReview {
    pub summary: String,
    pub files: Vec<String>,
    pub added_lines: usize,
    pub removed_lines: usize,
    pub hunk_count: usize,
    pub risk: RiskReport,
}

/// Outcome of the cargo checks.
#[derive(Debug)]
pub struct ValidationResult {
    pub eval_version: String,
    pub check_ok: bool,
    pub clippy_ok: bool,
    pub test_ok: bool,
    pub total_duration_ms: u128,
    pub regression_alerts: Vec<String>,
    pub logs: Vec<String>,
}

impl ValidationResult {
    /// Every check passed.
    pub fn ok(&self) -> (r: bool)
        ensures
            r == (self.check_ok && self.clippy_ok && self.test_ok),
    {
        self.check_ok && self.clippy_ok && self.test_ok
    }
}

/// Reachability of the local model server.
#[derive(Debug)]
pub struct OllamaStatus {
    pub reachable: bool,
    pub installed_models: Vec<String>,
    pub selected_model: String,
    pub message: String,
}

/// A diagnostic of the local model server.
#[derive(Debug)]
pub struct OllamaDiagnostic {
    pub state: String,
    pub message: String,
    pub hint: String,
}

} // verus!
