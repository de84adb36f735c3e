//! Runtime support: the deterministic model, the tools it offers, and
//! checks on the mode and the goal of a run.
use crate::text::{contains_sub, owned, push_str, str_contains, trim};
use vstd::prelude::*;

verus! {

/// The only model mode available.
pub const DETERMINISTIC_MODE: &'static str = "deterministic";

/// Longest goal accepted, in bytes.
pub const MAX_GOAL_LEN: usize = 2000;

/// The error for a model mode other than the deterministic one.
pub open spec fn unsupported_mode_text(mode: Seq<char>) -> Seq<char> {
    "unsupported model mode '"@ + mode + "': only "@ + "deterministic"@ + " is available in V2 runtime"@
}

/// Accepts only the deterministic mode.
pub fn ensure_deterministic_mode(mode: &str) -> (r: Result<(), String>)
    ensures
        match r {
            Ok(()) => mode@ == "deterministic"@,
            Err(m) => mode@ != "deterministic"@ && m@ == unsupported_mode_text(mode@),
        },
{
    if crate::text::str_eq(mode, DETERMINISTIC_MODE) {
        return Ok(());
    }
    let mut m = owned("unsupported model mode '");
    push_str(&mut m, mode);
    push_str(&mut m, "': only ");
    push_str(&mut m, DETERMINISTIC_MODE);
    push_str(&mut m, " is available in V2 runtime");
    Err(m)
}

/// Why a goal is refused, if it is.
pub open spec fn goal_problem(goal: Seq<char>) -> Option<Seq<char>> {
    if trim(goal).len() == 0 {
        Some("goal must not be empty"@)
    } else if vstd::utf8::encode_utf8(goal).len() > MAX_GOAL_LEN {
        Some("goal is too long (max 2000 chars)"@)
    } else {
        None
    }
}

/// A goal must not be blank and must fit in `MAX_GOAL_LEN` bytes.
pub fn validate_goal(goal: &str) -> (r: Result<(), String>)
    ensures
        match r {
            Ok(()) => goal_problem(goal@) is None,
            Err(m) => goal_problem(goal@) == Some(m@),
        },
{
    if crate::text::is_blank(goal) {
        return Err(owned("goal must not be empty"));
    }
    let bytes = goal.as_bytes();
    let n = bytes.len();
    if n > MAX_GOAL_LEN {
        return Err(owned("goal is too long (max 2000 chars)"));
    }
    Ok(())
}

/// The tools the local runtime registers.
pub open spec fn runtime_tools() -> Seq<Seq<char>> {
    seq!["filesystem.read"@, "filesystem.write"@, "cargo.check"@, "cargo.test"@, "git.diff"@]
}

/// The deterministic model provider.
#[derive(Debug, Clone, Copy)]
pub struct DeterministicModelProvider;

pub open spec fn personal_reply() -> Seq<char> {
    "CONTEXT_SUMMARY: You want better weekly organization with limited time and energy.\nPRIMARY_OBJECTIVE: Stabilize personal planning and focus on essential priorities.\nACTION_STRUCTURE: Plan weekly priorities on Sunday, set daily top-3 tasks, and review each evening.\nRISK_CHECK: Main constraint is limited evening energy; keep tasks small and review trade-offs.\nNEXT_STEP: Write tomorrow's top-3 tasks now and block 20 minutes for planning.\nFINAL_ANSWER: Use a lightweight routine, adjust weekly, and keep the plan realistic with constraints."@
}

pub open spec fn smb_reply() -> Seq<char> {
    "BUSINESS_CONTEXT: Small business with limited staff capacity and marketing budget.\nOPERATIONAL_OBJECTIVE: Increase repeat customer visits in the next 30 days.\nACTION_BACKLOG: 1) Daily follow-up messages, 2) Weekly offer bundle, 3) Inventory focus on top sellers.\nDECISION_SUPPORT: Assumption: retention actions will outperform broad paid ads under current budget.\nFOLLOW_UP_METRICS: Repeat visits/week, offer conversion rate, average basket size.\nFINAL_ANSWER: Execute low-cost retention actions first, track weekly metrics, and iterate quickly."@
}

pub open spec fn teacher_analyze() -> Seq<char> {
    "LEARNING_OBJECTIVE: Identify what the learner should understand from the topic."@
}

pub open spec fn dev_analyze() -> Seq<char> {
    "ANALYSIS: Investigate error scope and constraints"@
}

pub open spec fn teacher_hypothesis() -> Seq<char> {
    "LEVEL_ADAPTATION: beginner level, use plain language and one concept at a time."@
}

pub open spec fn dev_hypothesis() -> Seq<char> {
    "HYPOTHESIS: Root cause likely ownership mismatch"@
}

pub open spec fn teacher_action() -> Seq<char> {
    "EXPLANATION: Explain core concept with one concrete example before adding nuance."@
}

pub open spec fn dev_action() -> Seq<char> {
    "ACTION_PLAN: Apply scoped borrow refactor. VALIDATION: cargo check"@
}

pub open spec fn teacher_validation() -> Seq<char> {
    "LEARNING_OBJECTIVE: Understand Rust ownership for function arguments.\nLEVEL_ADAPTATION: beginner audience, short sentences and minimal jargon.\nEXPLANATION: In Rust, each value has one owner; moving a value transfers ownership.\nGUIDED_PRACTICE: Compare a function taking String by value versus &str by reference.\nUNDERSTANDING_CHECK: Why can you still use a variable after borrowing but not after move?\nFINAL_ANSWER: Start with ownership, then borrowing, then lifetimes using one compiled example each."@
}

pub open spec fn dev_validation() -> Seq<char> {
    "ANALYSIS: Investigate error scope and constraints.\nHYPOTHESIS: Root cause likely ownership mismatch.\nACTION_PLAN: Apply scoped borrow refactor and run cargo check.\nVALIDATION: Verify no compiler errors and tests remain green.\nDURABLE_RULES_CHECK: No contradiction with project rules.\nFINAL_ANSWER: Apply scoped borrow refactor, re-run cargo test, then review diff."@
}

pub open spec fn fallback() -> Seq<char> {
    "FINAL_ANSWER: deterministic fallback response."@
}

/// What the deterministic model answers: the persona is read from the
/// system prompt, the step from the user prompt.
pub open spec fn deterministic_reply(system_prompt: Seq<char>, user_prompt: Seq<char>) -> Seq<char> {
    let teacher = contains_sub(system_prompt, "pedagogical AI teacher"@);
    let personal = contains_sub(system_prompt, "structured personal productivity assistant"@);
    let smb = contains_sub(system_prompt, "SMB operations copilot"@);
    if personal {
        personal_reply() + "\nTRACE_NOTE: "@ + user_prompt
    } else if smb {
        smb_reply() + "\nTRACE_NOTE: "@ + user_prompt
    } else if contains_sub(user_prompt, "Analyze"@) {
        if teacher { teacher_analyze() } else { dev_analyze() }
    } else if contains_sub(user_prompt, "Hypothesis"@) {
        if teacher { teacher_hypothesis() } else { dev_hypothesis() }
    } else if contains_sub(user_prompt, "ActionOrTest"@) {
        if teacher { teacher_action() } else { dev_action() }
    } else if contains_sub(user_prompt, "Validation"@) {
        if teacher { teacher_validation() } else { dev_validation() }
    } else {
        fallback()
    }
}

impl DeterministicModelProvider {
    /// The provider's name.
    pub fn name(&self) -> (r: &'static str)
        ensures
            r@ == "deterministic-model"@,
    {
        "deterministic-model"
    }

    /// The deterministic completion of a prompt pair.
    pub fn reply(&self, system_prompt: &str, user_prompt: &str) -> (r: String)
        ensures
            r@ == deterministic_reply(system_prompt@, user_prompt@),
    {
        let teacher = str_contains(system_prompt, "pedagogical AI teacher");
        let personal = str_contains(system_prompt, "structured personal productivity assistant");
        let smb = str_contains(system_prompt, "SMB operations copilot");
        if personal {
            let mut r = owned("CONTEXT_SUMMARY: You want better weekly organization with limited time and energy.\nPRIMARY_OBJECTIVE: Stabilize personal planning and focus on essential priorities.\nACTION_STRUCTURE: Plan weekly priorities on Sunday, set daily top-3 tasks, and review each evening.\nRISK_CHECK: Main constraint is limited evening energy; keep tasks small and review trade-offs.\nNEXT_STEP: Write tomorrow's top-3 tasks now and block 20 minutes for planning.\nFINAL_ANSWER: Use a lightweight routine, adjust weekly, and keep the plan realistic with constraints.");
            push_str(&mut r, "\nTRACE_NOTE: ");
            push_str(&mut r, user_prompt);
            return r;
        }
        if smb {
            let mut r = owned("BUSINESS_CONTEXT: Small business with limited staff capacity and marketing budget.\nOPERATIONAL_OBJECTIVE: Increase repeat customer visits in the next 30 days.\nACTION_BACKLOG: 1) Daily follow-up messages, 2) Weekly offer bundle, 3) Inventory focus on top sellers.\nDECISION_SUPPORT: Assumption: retention actions will outperform broad paid ads under current budget.\nFOLLOW_UP_METRICS: Repeat visits/week, offer conversion rate, average basket size.\nFINAL_ANSWER: Execute low-cost retention actions first, track weekly metrics, and iterate quickly.");
            push_str(&mut r, "\nTRACE_NOTE: ");
            push_str(&mut r, user_prompt);
            return r;
        }
        if str_contains(user_prompt, "Analyze") {
            return if teacher {
                owned("LEARNING_OBJECTIVE: Identify what the learner should understand from the topic.")
            } else {
                owned("ANALYSIS: Investigate error scope and constraints")
            };
        }
        if str_contains(user_prompt, "Hypothesis") {
            return if teacher {
                owned("LEVEL_ADAPTATION: beginner level, use plain language and one concept at a time.")
            } else {
                owned("HYPOTHESIS: Root cause likely ownership mismatch")
            };
        }
        if str_contains(user_prompt, "ActionOrTest") {
            return if teacher {
                owned("EXPLANATION: Explain core concept with one concrete example before adding nuance.")
            } else {
                owned("ACTION_PLAN: Apply scoped borrow refactor. VALIDATION: cargo check")
            };
        }
        if str_contains(user_prompt, "Validation") {
            return if teacher {
                owned("LEARNING_OBJECTIVE: Understand Rust ownership for function arguments.\nLEVEL_ADAPTATION: beginner audience, short sentences and minimal jargon.\nEXPLANATION: In Rust, each value has one owner; moving a value transfers ownership.\nGUIDED_PRACTICE: Compare a function taking String by value versus &str by reference.\nUNDERSTANDING_CHECK: Why can you still use a variable after borrowing but not after move?\nFINAL_ANSWER: Start with ownership, then borrowing, then lifetimes using one compiled example each.")
            } else {
                owned("ANALYSIS: Investigate error scope and constraints.\nHYPOTHESIS: Root cause likely ownership mismatch.\nACTION_PLAN: Apply scoped borrow refactor and run cargo check.\nVALIDATION: Verify no compiler errors and tests remain green.\nDURABLE_RULES_CHECK: No contradiction with project rules.\nFINAL_ANSWER: Apply scoped borrow refactor, re-run cargo test, then review diff.")
            };
        }
        owned("FINAL_ANSWER: deterministic fallback response.")
    }
}

} // verus!
