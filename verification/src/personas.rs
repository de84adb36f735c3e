//! The personas: developer, teacher, personal assistant and small-business
//! copilot, each with a quality profile, a system prompt, the tools it needs
//! and a check of its drafts; and the registry that lists and creates them.
use crate::agent::{AgentError, Persona};
use crate::text::{
    ascii_lower_seq, chars_of, contains, contains_sub, join, join_strs, owned, push_str, strings_of,
    strs, to_ascii_lower, trim, views,
};
use vstd::prelude::*;

verus! {

// ---------------------------------------------------------------------------
// Shared pieces
// ---------------------------------------------------------------------------

/// A persona's system prompt from its introduction, profile lists, output
/// contract and closing sentence.
pub open spec fn persona_prompt(
    intro: Seq<char>,
    objectives: Seq<Seq<char>>,
    behaviors: Seq<Seq<char>>,
    criteria: Seq<Seq<char>>,
    guardrails: Seq<Seq<char>>,
    contract: Seq<char>,
    closing: Seq<char>,
) -> Seq<char> {
    intro + "\nObjectives: "@ + join(objectives, " | "@) + ".\nBehaviors: "@ + join(behaviors, " | "@)
        + ".\nQuality criteria: "@ + join(criteria, " | "@) + ".\nGuardrails: "@ + join(
        guardrails,
        " | "@,
    ) + ".\nOutput contract (in order): "@ + contract + ".\n"@ + closing
}

fn build_prompt(
    intro: &str,
    objectives: &Vec<&str>,
    behaviors: &Vec<&str>,
    criteria: &Vec<&str>,
    guardrails: &Vec<&str>,
    contract: &str,
    closing: &str,
) -> (r: String)
    ensures
        r@ == persona_prompt(
            intro@,
            strs(objectives@),
            strs(behaviors@),
            strs(criteria@),
            strs(guardrails@),
            contract@,
            closing@,
        ),
{
    let mut r = owned(intro);
    push_str(&mut r, "\nObjectives: ");
    let j = join_strs(objectives, " | ");
    push_str(&mut r, j.as_str());
    push_str(&mut r, ".\nBehaviors: ");
    let j = join_strs(behaviors, " | ");
    push_str(&mut r, j.as_str());
    push_str(&mut r, ".\nQuality criteria: ");
    let j = join_strs(criteria, " | ");
    push_str(&mut r, j.as_str());
    push_str(&mut r, ".\nGuardrails: ");
    let j = join_strs(guardrails, " | ");
    push_str(&mut r, j.as_str());
    push_str(&mut r, ".\nOutput contract (in order): ");
    push_str(&mut r, contract);
    push_str(&mut r, ".\n");
    push_str(&mut r, closing);
    r
}

/// The sections a draft lacks, in order.
pub open spec fn missing_sections(draft: Seq<char>, sections: Seq<Seq<char>>) -> Seq<Seq<char>> {
    sections.filter(|s: Seq<char>| !contains_sub(draft, s))
}

/// The common part of every persona's check: a draft must not be blank and
/// must hold each required section.
pub open spec fn sections_verdict(who: Seq<char>, draft: Seq<char>, sections: Seq<Seq<char>>) -> Option<
    Seq<char>,
> {
    if trim(draft).len() == 0 {
        Some(who + " persona response cannot be empty"@)
    } else if missing_sections(draft, sections).len() > 0 {
        Some(
            who + " persona response is missing required sections: "@ + join(
                missing_sections(draft, sections),
                ", "@,
            ),
        )
    } else {
        None
    }
}

fn check_sections(who: &str, draft: &str, sections: &Vec<&str>) -> (r: Option<String>)
    ensures
        match r {
            Some(m) => sections_verdict(who@, draft@, strs(sections@)) == Some(m@),
            None => sections_verdict(who@, draft@, strs(sections@)) is None,
        },
{
    if crate::text::is_blank(draft) {
        let mut m = owned(who);
        push_str(&mut m, " persona response cannot be empty");
        return Some(m);
    }
    let d = chars_of(draft);
    let ghost ss = strs(sections@);
    let ghost pred = |s: Seq<char>| !contains_sub(draft@, s);
    let mut missing: Vec<&str> = Vec::new();
    let mut i: usize = 0;
    assert(ss.take(0).filter(pred) =~= Seq::<Seq<char>>::empty()) by {
        reveal_with_fuel(Seq::filter, 1);
    }
    while i < sections.len()
        invariant
            i <= sections@.len(),
            d@ == draft@,
            ss == strs(sections@),
            pred == (|s: Seq<char>| !contains_sub(draft@, s)),
            strs(missing@) == ss.take(i as int).filter(pred),
        decreases sections.len() - i,
    {
        proof {
            assert(ss.take(i + 1) =~= ss.take(i as int).push(ss[i as int]));
            ss.take(i as int).lemma_filter_push(ss[i as int], pred);
        }
        let sec = chars_of(sections[i]);
        if !contains(&d, &sec) {
            let ghost before = strs(missing@);
            missing.push(sections[i]);
            assert(strs(missing@) =~= before.push(ss[i as int]));
        }
        i = i + 1;
    }
    assert(ss.take(i as int) =~= ss);
    if missing.len() > 0 {
        let mut m = owned(who);
        push_str(&mut m, " persona response is missing required sections: ");
        let j = join_strs(&missing, ", ");
        push_str(&mut m, j.as_str());
        return Some(m);
    }
    None
}

/// Whether the ASCII-lowercased draft contains `word`.
fn lower_contains(low: &Vec<char>, word: &str) -> (r: bool)
    ensures
        r == contains_sub(low@, word@),
{
    let w = chars_of(word);
    contains(low, &w)
}

// ---------------------------------------------------------------------------
// Developer persona
// ---------------------------------------------------------------------------

/// Public profile describing what the developer persona optimizes for.
#[derive(Debug)]
pub struct DeveloperQualityProfile {
    pub objectives: Vec<&'static str>,
    pub expected_behaviors: Vec<&'static str>,
    pub quality_criteria: Vec<&'static str>,
    pub guardrails: Vec<&'static str>,
}

#[derive(Debug, Default, Clone, Copy)]
pub struct DeveloperPersona;

pub open spec fn developer_objectives() -> Seq<Seq<char>> {
    seq!["Diagnose developer issues quickly and precisely"@, "Propose safe Rust-first implementation plans"@, "Validate proposed fixes before final answer"@]
}

pub open spec fn developer_behaviors() -> Seq<Seq<char>> {
    seq!["Analyze the problem and explicit constraints"@, "Formulate a testable hypothesis"@, "Propose concrete actions/tests"@, "Self-verify and flag contradictions with durable rules"@]
}

pub open spec fn developer_criteria() -> Seq<Seq<char>> {
    seq!["Technical precision"@, "Actionable next steps"@, "Verification evidence"@, "Consistency with project rules and architecture"@]
}

pub open spec fn developer_guardrails() -> Seq<Seq<char>> {
    seq!["Do not invent commands/results that were not executed"@, "Do not skip verification step"@, "Prefer minimal safe changes over speculative rewrites"@]
}

/// The sections every developer draft must hold.
pub open spec fn developer_sections() -> Seq<Seq<char>> {
    seq!["ANALYSIS:"@, "HYPOTHESIS:"@, "ACTION_PLAN:"@, "VALIDATION:"@, "DURABLE_RULES_CHECK:"@, "FINAL_ANSWER:"@]
}

/// What the developer persona answers for a draft.
pub open spec fn developer_verdict(draft: Seq<char>) -> Option<Seq<char>> {
    if sections_verdict("developer"@, draft, developer_sections()) is Some {
        sections_verdict("developer"@, draft, developer_sections())
    } else if {
        &&& contains_sub(draft, "CONTRADICTION_DETECTED"@)
        &&& !contains_sub(draft, "FINAL_ANSWER:"@)
    } {
        Some("contradiction was detected but no final answer fallback was provided"@)
    } else {
        None
    }
}

impl DeveloperPersona {
    pub fn quality_profile(&self) -> (r: DeveloperQualityProfile)
        ensures
            strs(r.objectives@) == developer_objectives(),
            strs(r.expected_behaviors@) == developer_behaviors(),
            strs(r.quality_criteria@) == developer_criteria(),
            strs(r.guardrails@) == developer_guardrails(),
    {
        let r = DeveloperQualityProfile {
            objectives: vec![
                "Diagnose developer issues quickly and precisely",
                "Propose safe Rust-first implementation plans",
                "Validate proposed fixes before final answer",
            ],
            expected_behaviors: vec![
                "Analyze the problem and explicit constraints",
                "Formulate a testable hypothesis",
                "Propose concrete actions/tests",
                "Self-verify and flag contradictions with durable rules",
            ],
            quality_criteria: vec![
                "Technical precision",
                "Actionable next steps",
                "Verification evidence",
                "Consistency with project rules and architecture",
            ],
            guardrails: vec![
                "Do not invent commands/results that were not executed",
                "Do not skip verification step",
                "Prefer minimal safe changes over speculative rewrites",
            ],
        };
        assert(strs(r.objectives@) =~= developer_objectives());
        assert(strs(r.expected_behaviors@) =~= developer_behaviors());
        assert(strs(r.quality_criteria@) =~= developer_criteria());
        assert(strs(r.guardrails@) =~= developer_guardrails());
        r
    }

    fn expected_sections(&self) -> (r: Vec<&'static str>)
        ensures
            strs(r@) == developer_sections(),
    {
        let r = vec![
            "ANALYSIS:",
            "HYPOTHESIS:",
            "ACTION_PLAN:",
            "VALIDATION:",
            "DURABLE_RULES_CHECK:",
            "FINAL_ANSWER:",
        ];
        assert(strs(r@) =~= developer_sections());
        r
    }
}

impl Persona for DeveloperPersona {
    open spec fn verdict(&self, draft: Seq<char>) -> Option<Seq<char>> {
        developer_verdict(draft)
    }

    fn name(&self) -> (r: &'static str)
        ensures
            r@ == "developer"@,
    {
        "developer"
    }

    fn system_prompt(&self) -> (r: String)
        ensures
            r@ == persona_prompt(
                "You are a senior Rust engineering copilot."@,
                developer_objectives(),
                developer_behaviors(),
                developer_criteria(),
                developer_guardrails(),
                "ANALYSIS, HYPOTHESIS, ACTION_PLAN, VALIDATION, DURABLE_RULES_CHECK, FINAL_ANSWER"@,
                "Be explicit, deterministic, and avoid unverifiable claims."@,
            ),
    {
        let p = self.quality_profile();
        build_prompt(
            "You are a senior Rust engineering copilot.",
            &p.objectives,
            &p.expected_behaviors,
            &p.quality_criteria,
            &p.guardrails,
            "ANALYSIS, HYPOTHESIS, ACTION_PLAN, VALIDATION, DURABLE_RULES_CHECK, FINAL_ANSWER",
            "Be explicit, deterministic, and avoid unverifiable claims.",
        )
    }

    fn allowed_tools(&self) -> (r: Vec<String>)
        ensures
            views(r@) == seq!["filesystem.read"@, "filesystem.write"@, "cargo.check"@, "cargo.test"@, "git.diff"@],
    {
        let r = strings_of(&["filesystem.read", "filesystem.write", "cargo.check", "cargo.test", "git.diff"]);
        assert(views(r@) =~= seq!["filesystem.read"@, "filesystem.write"@, "cargo.check"@, "cargo.test"@, "git.diff"@]);
        r
    }

    fn validate(&self, draft: &str) -> (r: Result<(), AgentError>) {
        let sections = self.expected_sections();
        match check_sections("developer", draft, &sections) {
            Some(m) => {
                return Err(AgentError::Validation(m));
            },
            None => {},
        }
        let d = chars_of(draft);
        let c1 = contains(&d, &chars_of("CONTRADICTION_DETECTED"));
        let c2 = contains(&d, &chars_of("FINAL_ANSWER:"));
        if c1 && !c2 {
            return Err(AgentError::Validation(owned("contradiction was detected but no final answer fallback was provided")));
        }
        Ok(())
    }
}

// ---------------------------------------------------------------------------
// Teacher persona
// ---------------------------------------------------------------------------

/// Public profile describing what the teacher persona optimizes for.
#[derive(Debug)]
pub struct TeacherQualityProfile {
    pub objectives: Vec<&'static str>,
    pub expected_behaviors: Vec<&'static str>,
    pub quality_criteria: Vec<&'static str>,
    pub guardrails: Vec<&'static str>,
}

#[derive(Debug, Default, Clone, Copy)]
pub struct TeacherPersona;

pub open spec fn teacher_objectives() -> Seq<Seq<char>> {
    seq!["Explain concepts clearly and accurately"@, "Adapt explanation depth to learner level"@, "Provide structured pedagogy with feedback loops"@]
}

pub open spec fn teacher_behaviors() -> Seq<Seq<char>> {
    seq!["State a clear learning objective"@, "Adjust complexity with explicit level adaptation"@, "Deliver scaffolded explanation and worked guidance"@, "Include coherence and misconception checks before final answer"@]
}

pub open spec fn teacher_criteria() -> Seq<Seq<char>> {
    seq!["Conceptual clarity"@, "Difficulty adaptation"@, "Pedagogical structure"@, "Internal consistency and factual caution"@]
}

pub open spec fn teacher_guardrails() -> Seq<Seq<char>> {
    seq!["Do not invent external facts when uncertain"@, "Do not skip learner-level adaptation"@, "Do not provide final answer without understanding check"@]
}

/// The sections every teacher draft must hold.
pub open spec fn teacher_sections() -> Seq<Seq<char>> {
    seq!["LEARNING_OBJECTIVE:"@, "LEVEL_ADAPTATION:"@, "EXPLANATION:"@, "GUIDED_PRACTICE:"@, "UNDERSTANDING_CHECK:"@, "FINAL_ANSWER:"@]
}

/// What the teacher persona answers for a draft.
pub open spec fn teacher_verdict(draft: Seq<char>) -> Option<Seq<char>> {
    if sections_verdict("teacher"@, draft, teacher_sections()) is Some {
        sections_verdict("teacher"@, draft, teacher_sections())
    } else if {
        &&& contains_sub(draft, "LEVEL_ADAPTATION:"@)
        &&& !contains_sub(ascii_lower_seq(draft), "beginner"@)
        &&& !contains_sub(ascii_lower_seq(draft), "intermediate"@)
        &&& !contains_sub(ascii_lower_seq(draft), "advanced"@)
    } {
        Some("teacher persona must state an explicit learner level (beginner/intermediate/advanced)"@)
    } else {
        None
    }
}

impl TeacherPersona {
    pub fn quality_profile(&self) -> (r: TeacherQualityProfile)
        ensures
            strs(r.objectives@) == teacher_objectives(),
            strs(r.expected_behaviors@) == teacher_behaviors(),
            strs(r.quality_criteria@) == teacher_criteria(),
            strs(r.guardrails@) == teacher_guardrails(),
    {
        let r = TeacherQualityProfile {
            objectives: vec![
                "Explain concepts clearly and accurately",
                "Adapt explanation depth to learner level",
                "Provide structured pedagogy with feedback loops",
            ],
            expected_behaviors: vec![
                "State a clear learning objective",
                "Adjust complexity with explicit level adaptation",
                "Deliver scaffolded explanation and worked guidance",
                "Include coherence and misconception checks before final answer",
            ],
            quality_criteria: vec![
                "Conceptual clarity",
                "Difficulty adaptation",
                "Pedagogical structure",
                "Internal consistency and factual caution",
            ],
            guardrails: vec![
                "Do not invent external facts when uncertain",
                "Do not skip learner-level adaptation",
                "Do not provide final answer without understanding check",
            ],
        };
        assert(strs(r.objectives@) =~= teacher_objectives());
        assert(strs(r.expected_behaviors@) =~= teacher_behaviors());
        assert(strs(r.quality_criteria@) =~= teacher_criteria());
        assert(strs(r.guardrails@) =~= teacher_guardrails());
        r
    }

    fn expected_sections(&self) -> (r: Vec<&'static str>)
        ensures
            strs(r@) == teacher_sections(),
    {
        let r = vec![
            "LEARNING_OBJECTIVE:",
            "LEVEL_ADAPTATION:",
            "EXPLANATION:",
            "GUIDED_PRACTICE:",
            "UNDERSTANDING_CHECK:",
            "FINAL_ANSWER:",
        ];
        assert(strs(r@) =~= teacher_sections());
        r
    }
}

impl Persona for TeacherPersona {
    open spec fn verdict(&self, draft: Seq<char>) -> Option<Seq<char>> {
        teacher_verdict(draft)
    }

    fn name(&self) -> (r: &'static str)
        ensures
            r@ == "teacher"@,
    {
        "teacher"
    }

    fn system_prompt(&self) -> (r: String)
        ensures
            r@ == persona_prompt(
                "You are a pedagogical AI teacher."@,
                teacher_objectives(),
                teacher_behaviors(),
                teacher_criteria(),
                teacher_guardrails(),
                "LEARNING_OBJECTIVE, LEVEL_ADAPTATION, EXPLANATION, GUIDED_PRACTICE, UNDERSTANDING_CHECK, FINAL_ANSWER"@,
                "Keep explanations explicit, coherent, and adapted to learner level."@,
            ),
    {
        let p = self.quality_profile();
        build_prompt(
            "You are a pedagogical AI teacher.",
            &p.objectives,
            &p.expected_behaviors,
            &p.quality_criteria,
            &p.guardrails,
            "LEARNING_OBJECTIVE, LEVEL_ADAPTATION, EXPLANATION, GUIDED_PRACTICE, UNDERSTANDING_CHECK, FINAL_ANSWER",
            "Keep explanations explicit, coherent, and adapted to learner level.",
        )
    }

    fn allowed_tools(&self) -> (r: Vec<String>)
        ensures
            views(r@) == seq!["filesystem.read"@, "git.diff"@],
    {
        let r = strings_of(&["filesystem.read", "git.diff"]);
        assert(views(r@) =~= seq!["filesystem.read"@, "git.diff"@]);
        r
    }

    fn validate(&self, draft: &str) -> (r: Result<(), AgentError>) {
        let sections = self.expected_sections();
        match check_sections("teacher", draft, &sections) {
            Some(m) => {
                return Err(AgentError::Validation(m));
            },
            None => {},
        }
        let d = chars_of(draft);
        let low = to_ascii_lower(&d);
        let has_level_section = contains(&d, &chars_of("LEVEL_ADAPTATION:"));
        if has_level_section && !lower_contains(&low, "beginner") && !lower_contains(&low, "intermediate")
            && !lower_contains(&low, "advanced") {
            return Err(AgentError::Validation(owned("teacher persona must state an explicit learner level (beginner/intermediate/advanced)")));
        }
        Ok(())
    }
}

// ---------------------------------------------------------------------------
// Personal persona
// ---------------------------------------------------------------------------

/// What the personal-assistant persona optimizes for.
#[derive(Debug)]
pub struct PersonalQualityProfile {
    pub objectives: Vec<&'static str>,
    pub expected_behaviors: Vec<&'static str>,
    pub quality_criteria: Vec<&'static str>,
    pub guardrails: Vec<&'static str>,
}

#[derive(Debug, Default, Clone, Copy)]
pub struct PersonalPersona;

pub open spec fn personal_objectives() -> Seq<Seq<char>> {
    seq!["Clarify personal goals and priorities"@, "Structure realistic action plans"@, "Support consistent and safe decision-making"@]
}

pub open spec fn personal_behaviors() -> Seq<Seq<char>> {
    seq!["Summarize user context before proposing actions"@, "Break plans into concrete and feasible steps"@, "Surface risks, constraints and trade-offs"@, "End with one immediately actionable next step"@]
}

pub open spec fn personal_criteria() -> Seq<Seq<char>> {
    seq!["Practical relevance"@, "Clarity of priorities"@, "Feasibility of action plan"@, "Prudence and coherence"@]
}

pub open spec fn personal_guardrails() -> Seq<Seq<char>> {
    seq!["Do not provide unsafe or absolute advice"@, "Do not ignore constraints provided by user"@, "Do not skip risk/constraint check before final answer"@]
}

/// The sections every personal draft must hold.
pub open spec fn personal_sections() -> Seq<Seq<char>> {
    seq!["CONTEXT_SUMMARY:"@, "PRIMARY_OBJECTIVE:"@, "ACTION_STRUCTURE:"@, "RISK_CHECK:"@, "NEXT_STEP:"@, "FINAL_ANSWER:"@]
}

/// What the personal persona answers for a draft.
pub open spec fn personal_verdict(draft: Seq<char>) -> Option<Seq<char>> {
    if sections_verdict("personal"@, draft, personal_sections()) is Some {
        sections_verdict("personal"@, draft, personal_sections())
    } else if {
        &&& !contains_sub(ascii_lower_seq(draft), "constraint"@)
        &&& !contains_sub(ascii_lower_seq(draft), "risk"@)
    } {
        Some("personal persona must explicitly mention a risk or constraint check"@)
    } else {
        None
    }
}

impl PersonalPersona {
    pub fn quality_profile(&self) -> (r: PersonalQualityProfile)
        ensures
            strs(r.objectives@) == personal_objectives(),
            strs(r.expected_behaviors@) == personal_behaviors(),
            strs(r.quality_criteria@) == personal_criteria(),
            strs(r.guardrails@) == personal_guardrails(),
    {
        let r = PersonalQualityProfile {
            objectives: vec![
                "Clarify personal goals and priorities",
                "Structure realistic action plans",
                "Support consistent and safe decision-making",
            ],
            expected_behaviors: vec![
                "Summarize user context before proposing actions",
                "Break plans into concrete and feasible steps",
                "Surface risks, constraints and trade-offs",
                "End with one immediately actionable next step",
            ],
            quality_criteria: vec![
                "Practical relevance",
                "Clarity of priorities",
                "Feasibility of action plan",
                "Prudence and coherence",
            ],
            guardrails: vec![
                "Do not provide unsafe or absolute advice",
                "Do not ignore constraints provided by user",
                "Do not skip risk/constraint check before final answer",
            ],
        };
        assert(strs(r.objectives@) =~= personal_objectives());
        assert(strs(r.expected_behaviors@) =~= personal_behaviors());
        assert(strs(r.quality_criteria@) =~= personal_criteria());
        assert(strs(r.guardrails@) =~= personal_guardrails());
        r
    }

    fn expected_sections(&self) -> (r: Vec<&'static str>)
        ensures
            strs(r@) == personal_sections(),
    {
        let r = vec![
            "CONTEXT_SUMMARY:",
            "PRIMARY_OBJECTIVE:",
            "ACTION_STRUCTURE:",
            "RISK_CHECK:",
            "NEXT_STEP:",
            "FINAL_ANSWER:",
        ];
        assert(strs(r@) =~= personal_sections());
        r
    }
}

impl Persona for PersonalPersona {
    open spec fn verdict(&self, draft: Seq<char>) -> Option<Seq<char>> {
        personal_verdict(draft)
    }

    fn name(&self) -> (r: &'static str)
        ensures
            r@ == "personal"@,
    {
        "personal"
    }

    fn system_prompt(&self) -> (r: String)
        ensures
            r@ == persona_prompt(
                "You are a structured personal productivity assistant."@,
                personal_objectives(),
                personal_behaviors(),
                personal_criteria(),
                personal_guardrails(),
                "CONTEXT_SUMMARY, PRIMARY_OBJECTIVE, ACTION_STRUCTURE, RISK_CHECK, NEXT_STEP, FINAL_ANSWER"@,
                "Be practical, coherent, and prudent."@,
            ),
    {
        let p = self.quality_profile();
        build_prompt(
            "You are a structured personal productivity assistant.",
            &p.objectives,
            &p.expected_behaviors,
            &p.quality_criteria,
            &p.guardrails,
            "CONTEXT_SUMMARY, PRIMARY_OBJECTIVE, ACTION_STRUCTURE, RISK_CHECK, NEXT_STEP, FINAL_ANSWER",
            "Be practical, coherent, and prudent.",
        )
    }

    fn allowed_tools(&self) -> (r: Vec<String>)
        ensures
            views(r@) == seq!["filesystem.read"@, "git.diff"@],
    {
        let r = strings_of(&["filesystem.read", "git.diff"]);
        assert(views(r@) =~= seq!["filesystem.read"@, "git.diff"@]);
        r
    }

    fn validate(&self, draft: &str) -> (r: Result<(), AgentError>) {
        let sections = self.expected_sections();
        match check_sections("personal", draft, &sections) {
            Some(m) => {
                return Err(AgentError::Validation(m));
            },
            None => {},
        }
        let d = chars_of(draft);
        let low = to_ascii_lower(&d);
        if !lower_contains(&low, "constraint") && !lower_contains(&low, "risk") {
            return Err(AgentError::Validation(owned("personal persona must explicitly mention a risk or constraint check")));
        }
        Ok(())
    }
}

// ---------------------------------------------------------------------------
// Smb persona
// ---------------------------------------------------------------------------

/// What the small-business persona optimizes for.
#[derive(Debug)]
pub struct SmbQualityProfile {
    pub objectives: Vec<&'static str>,
    pub expected_behaviors: Vec<&'static str>,
    pub quality_criteria: Vec<&'static str>,
    pub guardrails: Vec<&'static str>,
}

#[derive(Debug, Default, Clone, Copy)]
pub struct SmbPersona;

pub open spec fn smb_objectives() -> Seq<Seq<char>> {
    seq!["Improve small-business operational clarity"@, "Support practical day-to-day decisions"@, "Structure business follow-up actions"@]
}

pub open spec fn smb_behaviors() -> Seq<Seq<char>> {
    seq!["Summarize business context and constraints"@, "Propose a prioritized operational action backlog"@, "Provide simple decision support with assumptions"@, "Define follow-up metrics and next checkpoints"@]
}

pub open spec fn smb_criteria() -> Seq<Seq<char>> {
    seq!["Operational usefulness"@, "Prioritization clarity"@, "Decision pragmatism"@, "Execution follow-through"@]
}

pub open spec fn smb_guardrails() -> Seq<Seq<char>> {
    seq!["Do not provide legal/financial certainty claims"@, "Do not ignore business constraints (budget/time/capacity)"@, "Do not skip assumptions and follow-up metrics"@]
}

/// The sections every smb draft must hold.
pub open spec fn smb_sections() -> Seq<Seq<char>> {
    seq!["BUSINESS_CONTEXT:"@, "OPERATIONAL_OBJECTIVE:"@, "ACTION_BACKLOG:"@, "DECISION_SUPPORT:"@, "FOLLOW_UP_METRICS:"@, "FINAL_ANSWER:"@]
}

/// What the smb persona answers for a draft.
pub open spec fn smb_verdict(draft: Seq<char>) -> Option<Seq<char>> {
    if sections_verdict("smb"@, draft, smb_sections()) is Some {
        sections_verdict("smb"@, draft, smb_sections())
    } else if {
        &&& !contains_sub(ascii_lower_seq(draft), "assumption"@)
    } {
        Some("smb persona must include explicit assumptions for decision support"@)
    } else {
        None
    }
}

impl SmbPersona {
    pub fn quality_profile(&self) -> (r: SmbQualityProfile)
        ensures
            strs(r.objectives@) == smb_objectives(),
            strs(r.expected_behaviors@) == smb_behaviors(),
            strs(r.quality_criteria@) == smb_criteria(),
            strs(r.guardrails@) == smb_guardrails(),
    {
        let r = SmbQualityProfile {
            objectives: vec![
                "Improve small-business operational clarity",
                "Support practical day-to-day decisions",
                "Structure business follow-up actions",
            ],
            expected_behaviors: vec![
                "Summarize business context and constraints",
                "Propose a prioritized operational action backlog",
                "Provide simple decision support with assumptions",
                "Define follow-up metrics and next checkpoints",
            ],
            quality_criteria: vec![
                "Operational usefulness",
                "Prioritization clarity",
                "Decision pragmatism",
                "Execution follow-through",
            ],
            guardrails: vec![
                "Do not provide legal/financial certainty claims",
                "Do not ignore business constraints (budget/time/capacity)",
                "Do not skip assumptions and follow-up metrics",
            ],
        };
        assert(strs(r.objectives@) =~= smb_objectives());
        assert(strs(r.expected_behaviors@) =~= smb_behaviors());
        assert(strs(r.quality_criteria@) =~= smb_criteria());
        assert(strs(r.guardrails@) =~= smb_guardrails());
        r
    }

    fn expected_sections(&self) -> (r: Vec<&'static str>)
        ensures
            strs(r@) == smb_sections(),
    {
        let r = vec![
            "BUSINESS_CONTEXT:",
            "OPERATIONAL_OBJECTIVE:",
            "ACTION_BACKLOG:",
            "DECISION_SUPPORT:",
            "FOLLOW_UP_METRICS:",
            "FINAL_ANSWER:",
        ];
        assert(strs(r@) =~= smb_sections());
        r
    }
}

impl Persona for SmbPersona {
    open spec fn verdict(&self, draft: Seq<char>) -> Option<Seq<char>> {
        smb_verdict(draft)
    }

    fn name(&self) -> (r: &'static str)
        ensures
            r@ == "smb"@,
    {
        "smb"
    }

    fn system_prompt(&self) -> (r: String)
        ensures
            r@ == persona_prompt(
                "You are a practical SMB operations copilot."@,
                smb_objectives(),
                smb_behaviors(),
                smb_criteria(),
                smb_guardrails(),
                "BUSINESS_CONTEXT, OPERATIONAL_OBJECTIVE, ACTION_BACKLOG, DECISION_SUPPORT, FOLLOW_UP_METRICS, FINAL_ANSWER"@,
                "Keep answers pragmatic, constrained, and execution-oriented."@,
            ),
    {
        let p = self.quality_profile();
        build_prompt(
            "You are a practical SMB operations copilot.",
            &p.objectives,
            &p.expected_behaviors,
            &p.quality_criteria,
            &p.guardrails,
            "BUSINESS_CONTEXT, OPERATIONAL_OBJECTIVE, ACTION_BACKLOG, DECISION_SUPPORT, FOLLOW_UP_METRICS, FINAL_ANSWER",
            "Keep answers pragmatic, constrained, and execution-oriented.",
        )
    }

    fn allowed_tools(&self) -> (r: Vec<String>)
        ensures
            views(r@) == seq!["filesystem.read"@, "git.diff"@],
    {
        let r = strings_of(&["filesystem.read", "git.diff"]);
        assert(views(r@) =~= seq!["filesystem.read"@, "git.diff"@]);
        r
    }

    fn validate(&self, draft: &str) -> (r: Result<(), AgentError>) {
        let sections = self.expected_sections();
        match check_sections("smb", draft, &sections) {
            Some(m) => {
                return Err(AgentError::Validation(m));
            },
            None => {},
        }
        let d = chars_of(draft);
        let low = to_ascii_lower(&d);
        if !lower_contains(&low, "assumption") {
            return Err(AgentError::Validation(owned("smb persona must include explicit assumptions for decision support")));
        }
        Ok(())
    }
}

/// The registry entry of the developer persona.
pub open spec fn developer_metadata_view() -> MetadataView {
    MetadataView {
        name: "developer"@,
        description: "Rust-first engineering copilot for diagnosis, safe fixes and verification."@,
        objectives: seq!["Diagnose technical issues quickly and precisely"@, "Propose minimal safe implementation plans"@, "Validate results before final answer"@],
        use_cases: seq!["Compile/runtime error debugging"@, "Refactor planning with safety checks"@, "Patch validation before commit"@],
        guardrails: seq!["Do not invent command outputs"@, "Do not skip verification steps"@, "Prefer small safe changes over speculative rewrites"@],
    }
}

/// The registry entry of the teacher persona.
pub open spec fn teacher_metadata_view() -> MetadataView {
    MetadataView {
        name: "teacher"@,
        description: "Pedagogical guide that adapts explanations to learner level."@,
        objectives: seq!["Explain concepts clearly and accurately"@, "Adapt depth to beginner/intermediate/advanced levels"@, "Use structured pedagogy with understanding checks"@],
        use_cases: seq!["Concept onboarding sessions"@, "Step-by-step explanation with guided practice"@, "Knowledge checks for learners"@],
        guardrails: seq!["Do not skip level adaptation"@, "Do not omit understanding checks"@, "Do not invent uncertain external facts"@],
    }
}

/// The registry entry of the personal persona.
pub open spec fn personal_metadata_view() -> MetadataView {
    MetadataView {
        name: "personal"@,
        description: "Structured personal assistant for organization, prioritization and prudent action planning."@,
        objectives: seq!["Clarify personal goals and priorities"@, "Structure realistic personal action plans"@, "Maintain coherent and prudent guidance"@],
        use_cases: seq!["Weekly planning and personal organization"@, "Goal clarification and action sequencing"@, "Personal summary and next-step planning"@],
        guardrails: seq!["Do not skip risk/constraint checks"@, "Do not give absolute unsafe advice"@, "Keep plans feasible with explicit trade-offs"@],
    }
}

/// The registry entry of the smb persona.
pub open spec fn smb_metadata_view() -> MetadataView {
    MetadataView {
        name: "smb"@,
        description: "Small-business copilot for practical operations, decisions and action follow-up."@,
        objectives: seq!["Improve operational clarity for small teams"@, "Support simple business decisions with assumptions"@, "Turn priorities into trackable action plans"@],
        use_cases: seq!["Weekly operations planning"@, "Prioritized SMB task backlog setup"@, "Business action summaries with follow-up metrics"@],
        guardrails: seq!["No legal/financial certainty claims"@, "Always consider budget/time/capacity constraints"@, "Always include assumptions and follow-up metrics"@],
    }
}

// ---------------------------------------------------------------------------
// Registry
// ---------------------------------------------------------------------------

/// Registry entry of a persona.
#[derive(Debug)]
pub struct PersonaMetadata {
    pub name: &'static str,
    pub description: &'static str,
    pub objectives: Vec<&'static str>,
    pub use_cases: Vec<&'static str>,
    pub guardrails: Vec<&'static str>,
}

/// What a registry entry says.
pub struct MetadataView {
    pub name: Seq<char>,
    pub description: Seq<char>,
    pub objectives: Seq<Seq<char>>,
    pub use_cases: Seq<Seq<char>>,
    pub guardrails: Seq<Seq<char>>,
}

pub open spec fn metadata_view(m: PersonaMetadata) -> MetadataView {
    MetadataView {
        name: m.name@,
        description: m.description@,
        objectives: strs(m.objectives@),
        use_cases: strs(m.use_cases@),
        guardrails: strs(m.guardrails@),
    }
}

/// The registry's entries, in order.
pub open spec fn registry_views() -> Seq<MetadataView> {
    seq![developer_metadata_view(), teacher_metadata_view(), personal_metadata_view(), smb_metadata_view()]
}

/// The registered persona names, in order.
pub open spec fn persona_names() -> Seq<Seq<char>> {
    seq!["developer"@, "teacher"@, "personal"@, "smb"@]
}

/// One of the registered personas.
#[derive(Debug, Clone, Copy)]
pub enum AnyPersona {
    Developer(DeveloperPersona),
    Teacher(TeacherPersona),
    Personal(PersonalPersona),
    Smb(SmbPersona),
}

/// The name of a registered persona.
pub open spec fn any_persona_name(p: AnyPersona) -> Seq<char> {
    match p {
        AnyPersona::Developer(_) => "developer"@,
        AnyPersona::Teacher(_) => "teacher"@,
        AnyPersona::Personal(_) => "personal"@,
        AnyPersona::Smb(_) => "smb"@,
    }
}

/// The system prompt of a registered persona.
pub open spec fn any_persona_prompt(p: AnyPersona) -> Seq<char> {
    match p {
        AnyPersona::Developer(_) => persona_prompt(
            "You are a senior Rust engineering copilot."@,
            developer_objectives(),
            developer_behaviors(),
            developer_criteria(),
            developer_guardrails(),
            "ANALYSIS, HYPOTHESIS, ACTION_PLAN, VALIDATION, DURABLE_RULES_CHECK, FINAL_ANSWER"@,
            "Be explicit, deterministic, and avoid unverifiable claims."@,
        ),
        AnyPersona::Teacher(_) => persona_prompt(
            "You are a pedagogical AI teacher."@,
            teacher_objectives(),
            teacher_behaviors(),
            teacher_criteria(),
            teacher_guardrails(),
            "LEARNING_OBJECTIVE, LEVEL_ADAPTATION, EXPLANATION, GUIDED_PRACTICE, UNDERSTANDING_CHECK, FINAL_ANSWER"@,
            "Keep explanations explicit, coherent, and adapted to learner level."@,
        ),
        AnyPersona::Personal(_) => persona_prompt(
            "You are a structured personal productivity assistant."@,
            personal_objectives(),
            personal_behaviors(),
            personal_criteria(),
            personal_guardrails(),
            "CONTEXT_SUMMARY, PRIMARY_OBJECTIVE, ACTION_STRUCTURE, RISK_CHECK, NEXT_STEP, FINAL_ANSWER"@,
            "Be practical, coherent, and prudent."@,
        ),
        AnyPersona::Smb(_) => persona_prompt(
            "You are a practical SMB operations copilot."@,
            smb_objectives(),
            smb_behaviors(),
            smb_criteria(),
            smb_guardrails(),
            "BUSINESS_CONTEXT, OPERATIONAL_OBJECTIVE, ACTION_BACKLOG, DECISION_SUPPORT, FOLLOW_UP_METRICS, FINAL_ANSWER"@,
            "Keep answers pragmatic, constrained, and execution-oriented."@,
        ),
    }
}

/// The tools a registered persona needs: the developer reads, writes,
/// runs cargo and diffs; the others read and diff.
pub open spec fn any_persona_tools(p: AnyPersona) -> Seq<Seq<char>> {
    match p {
        AnyPersona::Developer(_) => seq![
            "filesystem.read"@,
            "filesystem.write"@,
            "cargo.check"@,
            "cargo.test"@,
            "git.diff"@,
        ],
        _ => seq!["filesystem.read"@, "git.diff"@],
    }
}

impl Persona for AnyPersona {
    open spec fn verdict(&self, draft: Seq<char>) -> Option<Seq<char>> {
        match self {
            AnyPersona::Developer(_) => developer_verdict(draft),
            AnyPersona::Teacher(_) => teacher_verdict(draft),
            AnyPersona::Personal(_) => personal_verdict(draft),
            AnyPersona::Smb(_) => smb_verdict(draft),
        }
    }

    fn name(&self) -> (r: &'static str)
        ensures
            r@ == any_persona_name(*self),
    {
        match self {
            AnyPersona::Developer(p) => p.name(),
            AnyPersona::Teacher(p) => p.name(),
            AnyPersona::Personal(p) => p.name(),
            AnyPersona::Smb(p) => p.name(),
        }
    }

    fn system_prompt(&self) -> (r: String)
        ensures
            r@ == any_persona_prompt(*self),
    {
        match self {
            AnyPersona::Developer(p) => p.system_prompt(),
            AnyPersona::Teacher(p) => p.system_prompt(),
            AnyPersona::Personal(p) => p.system_prompt(),
            AnyPersona::Smb(p) => p.system_prompt(),
        }
    }

    fn allowed_tools(&self) -> (r: Vec<String>)
        ensures
            views(r@) == any_persona_tools(*self),
    {
        match self {
            AnyPersona::Developer(p) => p.allowed_tools(),
            AnyPersona::Teacher(p) => p.allowed_tools(),
            AnyPersona::Personal(p) => p.allowed_tools(),
            AnyPersona::Smb(p) => p.allowed_tools(),
        }
    }

    fn validate(&self, draft: &str) -> (r: Result<(), AgentError>) {
        match self {
            AnyPersona::Developer(p) => p.validate(draft),
            AnyPersona::Teacher(p) => p.validate(draft),
            AnyPersona::Personal(p) => p.validate(draft),
            AnyPersona::Smb(p) => p.validate(draft),
        }
    }
}

/// The registry lists the personas under their names, in order, and
/// each name is distinct.
pub proof fn lemma_registry_names()
    ensures
        registry_views().len() == 4,
        persona_names().len() == 4,
        forall|k: int| 0 <= k < 4 ==> #[trigger] registry_views()[k].name == persona_names()[k],
        persona_names()[0] == "developer"@,
        persona_names()[1] == "teacher"@,
        persona_names()[2] == "personal"@,
        persona_names()[3] == "smb"@,
{
}

/// The catalogue of personas.
#[derive(Debug)]
pub struct PersonaRegistry;

/// The error for an unknown persona name.
pub open spec fn unknown_persona_text(name: Seq<char>) -> Seq<char> {
    "unknown persona '"@ + name + "'. Available personas: "@ + join(persona_names(), ", "@)
}

impl PersonaRegistry {
    /// The entries of every persona, in order.
    pub fn list() -> (r: Vec<PersonaMetadata>)
        ensures
            Seq::new(r@.len(), |i: int| metadata_view(r@[i])) == registry_views(),
    {
        let r = vec![
            Self::developer_metadata(),
            Self::teacher_metadata(),
            Self::personal_metadata(),
            Self::smb_metadata(),
        ];
        assert(Seq::new(r@.len(), |i: int| metadata_view(r@[i])) =~= registry_views());
        r
    }

    /// The persona registered under `name`.
    pub fn create(name: &str) -> (r: Result<AnyPersona, String>)
        ensures
            match r {
                Ok(p) => persona_names().contains(name@) && any_persona_name(p) == name@,
                Err(m) => !persona_names().contains(name@) && m@ == unknown_persona_text(name@),
            },
    {
        proof {
            lemma_registry_names();
        }
        if crate::text::str_eq(name, "developer") {
            Ok(AnyPersona::Developer(DeveloperPersona))
        } else if crate::text::str_eq(name, "teacher") {
            Ok(AnyPersona::Teacher(TeacherPersona))
        } else if crate::text::str_eq(name, "personal") {
            Ok(AnyPersona::Personal(PersonalPersona))
        } else if crate::text::str_eq(name, "smb") {
            Ok(AnyPersona::Smb(SmbPersona))
        } else {
            let mut m = owned("unknown persona '");
            push_str(&mut m, name);
            push_str(&mut m, "'. Available personas: ");
            let list = Self::list();
            let mut names: Vec<&str> = Vec::new();
            let mut i: usize = 0;
            while i < list.len()
                invariant
                    i <= list@.len(),
                    list@.len() == 4,
                    forall|k: int| 0 <= k < 4 ==> #[trigger] registry_views()[k].name == persona_names()[k],
                    Seq::new(list@.len(), |k: int| metadata_view(list@[k])) == registry_views(),
                    strs(names@) == persona_names().take(i as int),
                decreases list.len() - i,
            {
                assert(Seq::new(list@.len(), |k: int| metadata_view(list@[k]))[i as int] == registry_views()[i as int]);
                assert(metadata_view(list@[i as int]).name == persona_names()[i as int]);
                let ghost before = strs(names@);
                names.push(list[i].name);
                assert(strs(names@) =~= before.push(persona_names()[i as int]));
                i = i + 1;
                assert(strs(names@) =~= persona_names().take(i as int));
            }
            assert(persona_names().take(4) =~= persona_names());
            let j = join_strs(&names, ", ");
            push_str(&mut m, j.as_str());
            assert(!persona_names().contains(name@)) by {
                if persona_names().contains(name@) {
                    let k = choose|k: int| 0 <= k < 4 && persona_names()[k] == name@;
                    assert(k == 0 || k == 1 || k == 2 || k == 3);
                }
            }
            Err(m)
        }
    }

    /// Whether a persona is registered under `name`.
    pub fn is_registered(name: &str) -> (r: bool)
        ensures
            r == persona_names().contains(name@),
    {
        let list = Self::list();
        proof {
            lemma_registry_names();
        }
        let mut i: usize = 0;
        while i < list.len()
            invariant
                i <= list@.len(),
                list@.len() == 4,
                forall|k: int| 0 <= k < 4 ==> #[trigger] registry_views()[k].name == persona_names()[k],
                Seq::new(list@.len(), |k: int| metadata_view(list@[k])) == registry_views(),
                forall|k: int| 0 <= k < i ==> persona_names()[k] != name@,
            decreases list.len() - i,
        {
            assert(Seq::new(list@.len(), |k: int| metadata_view(list@[k]))[i as int] == registry_views()[i as int]);
                assert(metadata_view(list@[i as int]).name == persona_names()[i as int]);
            if crate::text::str_eq(list[i].name, name) {
                assert(persona_names()[i as int] == name@);
                return true;
            }
            i = i + 1;
        }
        assert(!persona_names().contains(name@)) by {
            if persona_names().contains(name@) {
                let k = choose|k: int| 0 <= k < persona_names().len() && persona_names()[k] == name@;
                assert(persona_names()[k] != name@);
            }
        }
        false
    }

    fn developer_metadata() -> (r: PersonaMetadata)
        ensures
            metadata_view(r) == developer_metadata_view(),
    {
        let r = PersonaMetadata {
            name: "developer",
            description: "Rust-first engineering copilot for diagnosis, safe fixes and verification.",
            objectives: vec![
                "Diagnose technical issues quickly and precisely",
                "Propose minimal safe implementation plans",
                "Validate results before final answer",
            ],
            use_cases: vec![
                "Compile/runtime error debugging",
                "Refactor planning with safety checks",
                "Patch validation before commit",
            ],
            guardrails: vec![
                "Do not invent command outputs",
                "Do not skip verification steps",
                "Prefer small safe changes over speculative rewrites",
            ],
        };
        assert(strs(r.objectives@) =~= developer_metadata_view().objectives);
        assert(strs(r.use_cases@) =~= developer_metadata_view().use_cases);
        assert(strs(r.guardrails@) =~= developer_metadata_view().guardrails);
        r
    }

    fn teacher_metadata() -> (r: PersonaMetadata)
        ensures
            metadata_view(r) == teacher_metadata_view(),
    {
        let r = PersonaMetadata {
            name: "teacher",
            description: "Pedagogical guide that adapts explanations to learner level.",
            objectives: vec![
                "Explain concepts clearly and accurately",
                "Adapt depth to beginner/intermediate/advanced levels",
                "Use structured pedagogy with understanding checks",
            ],
            use_cases: vec![
                "Concept onboarding sessions",
                "Step-by-step explanation with guided practice",
                "Knowledge checks for learners",
            ],
            guardrails: vec![
                "Do not skip level adaptation",
                "Do not omit understanding checks",
                "Do not invent uncertain external facts",
            ],
        };
        assert(strs(r.objectives@) =~= teacher_metadata_view().objectives);
        assert(strs(r.use_cases@) =~= teacher_metadata_view().use_cases);
        assert(strs(r.guardrails@) =~= teacher_metadata_view().guardrails);
        r
    }

    fn personal_metadata() -> (r: PersonaMetadata)
        ensures
            metadata_view(r) == personal_metadata_view(),
    {
        let r = PersonaMetadata {
            name: "personal",
            description: "Structured personal assistant for organization, prioritization and prudent action planning.",
            objectives: vec![
                "Clarify personal goals and priorities",
                "Structure realistic personal action plans",
                "Maintain coherent and prudent guidance",
            ],
            use_cases: vec![
                "Weekly planning and personal organization",
                "Goal clarification and action sequencing",
                "Personal summary and next-step planning",
            ],
            guardrails: vec![
                "Do not skip risk/constraint checks",
                "Do not give absolute unsafe advice",
                "Keep plans feasible with explicit trade-offs",
            ],
        };
        assert(strs(r.objectives@) =~= personal_metadata_view().objectives);
        assert(strs(r.use_cases@) =~= personal_metadata_view().use_cases);
        assert(strs(r.guardrails@) =~= personal_metadata_view().guardrails);
        r
    }

    fn smb_metadata() -> (r: PersonaMetadata)
        ensures
            metadata_view(r) == smb_metadata_view(),
    {
        let r = PersonaMetadata {
            name: "smb",
            description: "Small-business copilot for practical operations, decisions and action follow-up.",
            objectives: vec![
                "Improve operational clarity for small teams",
                "Support simple business decisions with assumptions",
                "Turn priorities into trackable action plans",
            ],
            use_cases: vec![
                "Weekly operations planning",
                "Prioritized SMB task backlog setup",
                "Business action summaries with follow-up metrics",
            ],
            guardrails: vec![
                "No legal/financial certainty claims",
                "Always consider budget/time/capacity constraints",
                "Always include assumptions and follow-up metrics",
            ],
        };
        assert(strs(r.objectives@) =~= smb_metadata_view().objectives);
        assert(strs(r.use_cases@) =~= smb_metadata_view().use_cases);
        assert(strs(r.guardrails@) =~= smb_metadata_view().guardrails);
        r
    }
}

} // verus!
