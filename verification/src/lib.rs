pub mod text;
pub mod reasoning;
pub mod memory;
pub mod consolidation;
pub mod pipeline;
pub mod agent;
pub mod personas;
pub mod runtime;
pub mod checksum;
pub mod types;
pub mod review;
pub mod patch;
pub mod session;
pub mod ranking;
pub mod intelligence;
pub mod multiverse;
pub mod retrieval;
pub mod validation;
pub mod fingerprint;
pub mod config;
pub mod coder;
pub mod mission;
pub mod ui;
pub mod status;
pub mod cli;
pub mod scanner;
pub mod json;
pub mod evals;
pub mod state;
pub mod suite;
pub mod analyzer;
pub mod evaluator;
pub mod server;
pub mod registry;
