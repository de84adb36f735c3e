//! Agent vocabulary shared by personas and runs: events, errors, and the
//! persona contract.
use crate::text::{owned, push_str, strings_of, views};
use vstd::prelude::*;

verus! {

/// High-level events reported with an agent result.
#[derive(Debug)]
pub enum AgentEvent {
    PlanCreated { steps: Vec<String> },
    ToolCalled { tool: String },
    ToolReturned { tool: String },
    ValidationPassed,
}

/// Errors of agents and personas.
#[derive(Debug)]
pub enum AgentError {
    ToolNotFound(String),
    Validation(String),
    Provider(String),
}

/// The text of an agent error.
pub open spec fn agent_error_text(e: AgentError) -> Seq<char> {
    match e {
        AgentError::ToolNotFound(s) => "tool not found: "@ + s@,
        AgentError::Validation(s) => "validation failed: "@ + s@,
        AgentError::Provider(s) => "provider error: "@ + s@,
    }
}

impl AgentError {
    /// The error's message.
    pub fn to_string(&self) -> (r: String)
        ensures
            r@ == agent_error_text(*self),
    {
        let (mut r, s) = match self {
            AgentError::ToolNotFound(s) => (owned("tool not found: "), s),
            AgentError::Validation(s) => (owned("validation failed: "), s),
            AgentError::Provider(s) => (owned("provider error: "), s),
        };
        push_str(&mut r, s.as_str());
        r
    }
}

/// A persona: a name, a system prompt, the tools it needs, and a check of
/// its drafts.  `verdict` is what `validate` answers for a draft: `None` when
/// the draft is accepted, else the validation message.
pub trait Persona {
    spec fn verdict(&self, draft: Seq<char>) -> Option<Seq<char>>;

    fn name(&self) -> &'static str;

    fn system_prompt(&self) -> String;

    fn allowed_tools(&self) -> Vec<String>;

    fn validate(&self, draft: &str) -> (r: Result<(), AgentError>)
        ensures
            match r {
                Ok(()) => self.verdict(draft@) is None,
                Err(AgentError::Validation(m)) => self.verdict(draft@) == Some(m@),
                Err(_) => false,
            },
    ;
}

/// The steps a simple (single-call) agent reports.
pub open spec fn simple_plan_steps() -> Seq<Seq<char>> {
    seq!["Analyse goal"@, "Generate first draft"@, "Validate output"@]
}

/// The events a simple agent reports after a validated draft.
pub fn simple_run_events() -> (r: Vec<AgentEvent>)
    ensures
        r@.len() == 2,
        r@[0] matches AgentEvent::PlanCreated { steps } && views(steps@) == simple_plan_steps(),
        r@[1] is ValidationPassed,
{
    let steps = strings_of(&["Analyse goal", "Generate first draft", "Validate output"]);
    proof {
        assert(views(steps@) =~= simple_plan_steps());
    }
    vec![AgentEvent::PlanCreated { steps }, AgentEvent::ValidationPassed]
}

/// The events an orchestrated run reports: the plan's phases, then a
/// validation when the global decision accepts the answer, else a revision
/// notice.
pub fn orchestrated_run_events(phase_names: Vec<String>, accepted: bool) -> (r: Vec<AgentEvent>)
    ensures
        r@.len() == 2,
        r@[0] matches AgentEvent::PlanCreated { steps } && steps@ == phase_names@,
        accepted ==> r@[1] is ValidationPassed,
        !accepted ==> (r@[1] matches AgentEvent::ToolReturned { tool } && tool@
            == "reasoning-revision-required"@),
{
    let last = if accepted {
        AgentEvent::ValidationPassed
    } else {
        AgentEvent::ToolReturned { tool: owned("reasoning-revision-required") }
    };
    vec![AgentEvent::PlanCreated { steps: phase_names }, last]
}

} // verus!
