//! Application settings: the defaults and the model chosen for the memory
//! of the machine.
use crate::session::parsed_u64;
use crate::text::{owned, trim};
use vstd::prelude::*;

verus! {

/// The application settings.
#[derive(Debug)]
pub struct AppConfig {
    pub workspace: String,
    pub model_endpoint: String,
    pub model_name: String,
    pub optimization_interval_sec: u64,
    pub allow_auto_apply: bool,
    pub protected_paths: Vec<String>,
    pub max_loaded_files: usize,
}

/// The model for a machine with `ram_gb` gigabytes of memory.
pub open spec fn model_for_ram(ram_gb: nat) -> Seq<char> {
    if ram_gb >= 24 {
        "qwen2.5-coder:14b-instruct-q4_K_M"@
    } else if ram_gb >= 16 {
        "qwen2.5-coder:7b-instruct-q4_K_M"@
    } else {
        "deepseek-coder:6.7b-instruct-q4_K_M"@
    }
}

/// The model for a machine with `ram_gb` gigabytes of memory.
pub fn select_model_for_mac_m4(ram_gb: u64) -> (r: String)
    ensures
        r@ == model_for_ram(ram_gb as nat),
{
    if ram_gb >= 24 {
        owned("qwen2.5-coder:14b-instruct-q4_K_M")
    } else if ram_gb >= 16 {
        owned("qwen2.5-coder:7b-instruct-q4_K_M")
    } else {
        owned("deepseek-coder:6.7b-instruct-q4_K_M")
    }
}

/// The memory size reported by `sysctl -n hw.memsize`, in whole gigabytes.
pub open spec fn ram_gb_of(report: Seq<char>) -> Option<u64> {
    match parsed_u64(trim(report)) {
        Some(b) => Some((b / 1024 / 1024 / 1024) as u64),
        None => None,
    }
}

/// Reads the memory size from the output of `sysctl -n hw.memsize`.
pub fn parse_ram_gb(report: &str) -> (r: Option<u64>)
    ensures
        r == ram_gb_of(report@),
{
    let t = crate::text::str_trim(report);
    match crate::session::parse_u64(&t) {
        Some(b) => Some(b / 1024 / 1024 / 1024),
        None => None,
    }
}

impl AppConfig {
    /// Where the settings are stored, relative to the workspace.
    pub fn path() -> (r: String)
        ensures
            r@ == ".pata/config.json"@,
    {
        owned(".pata/config.json")
    }

    /// The default settings for a workspace, given the memory size when it
    /// is known (16 gigabytes are assumed otherwise).
    pub fn defaults(workspace: &str, ram_gb: Option<u64>) -> (r: AppConfig)
        ensures
            r.workspace@ == workspace@,
            r.model_endpoint@ == "http://127.0.0.1:11434/api/generate"@,
            r.model_name@ == model_for_ram(
                match ram_gb {
                    Some(g) => g as nat,
                    None => 16,
                },
            ),
            r.optimization_interval_sec == 600,
            !r.allow_auto_apply,
            r.protected_paths@.len() == 2,
            r.protected_paths@[0]@ == "src/core"@,
            r.protected_paths@[1]@ == "src/engine"@,
            r.max_loaded_files == 8,
    {
        let g = match ram_gb {
            Some(g) => g,
            None => 16,
        };
        let mut protected: Vec<String> = Vec::new();
        protected.push(owned("src/core"));
        protected.push(owned("src/engine"));
        AppConfig {
            workspace: owned(workspace),
            model_endpoint: owned("http://127.0.0.1:11434/api/generate"),
            model_name: select_model_for_mac_m4(g),
            optimization_interval_sec: 600,
            allow_auto_apply: false,
            protected_paths: protected,
            max_loaded_files: 8,
        }
    }
}

} // verus!
