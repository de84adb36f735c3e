//! The persona contract given to the code model and the prompt built from
//! an objective and the retrieved files.
use crate::retrieval::{hit_view, hit_views};
use crate::text::{join, join_strings, join_strs, owned, push_str, strs, views};
use crate::types::RetrievalHit;
use vstd::prelude::*;

verus! {

/// The version of the persona contract.
pub const PERSONA_CONTRACT_VERSION: &'static str = "persona.v2";

/// The clauses of the persona contract.
pub open spec fn contract_clauses() -> Seq<Seq<char>> {
    seq![
        "Role: senior Rust engineer focused on production reliability."@,
        "Output contract: return unified diff only, no markdown fences."@,
        "Safety contract: avoid destructive shell commands and secrets."@,
        "Testing contract: include changes that keep check/clippy/test green."@,
        "Scope contract: limit edits to files needed for the objective."@,
        "Rollback contract: keep patch reversible and deterministic."@,
    ]
}

/// The persona contract: its version and clauses.
#[derive(Debug, Clone)]
pub struct PersonaContractSnapshot {
    pub version: &'static str,
    pub clauses: Vec<&'static str>,
}

fn contract_list() -> (r: Vec<&'static str>)
    ensures
        strs(r@) == contract_clauses(),
{
    let r = vec![
        "Role: senior Rust engineer focused on production reliability.",
        "Output contract: return unified diff only, no markdown fences.",
        "Safety contract: avoid destructive shell commands and secrets.",
        "Testing contract: include changes that keep check/clippy/test green.",
        "Scope contract: limit edits to files needed for the objective.",
        "Rollback contract: keep patch reversible and deterministic.",
    ];
    assert(strs(r@) =~= contract_clauses());
    r
}

/// The current persona contract.
pub fn persona_contract_snapshot() -> (r: PersonaContractSnapshot)
    ensures
        r.version@ == PERSONA_CONTRACT_VERSION@,
        strs(r.clauses@) == contract_clauses(),
{
    PersonaContractSnapshot { version: PERSONA_CONTRACT_VERSION, clauses: contract_list() }
}

/// The context block of one retrieved file.
pub open spec fn hit_context(path: Seq<char>, excerpt: Seq<char>) -> Seq<char> {
    "FILE:"@ + path + "\n"@ + excerpt
}

/// The prompt for the code model: the contract, the objective and the
/// retrieved files.
pub open spec fn patch_prompt_text(objective: Seq<char>, hits: Seq<(Seq<char>, nat, Seq<char>)>) -> Seq<char> {
    "You are a Rust code assistant.\nPersona contract version: "@ + PERSONA_CONTRACT_VERSION@ + "\n"@
        + join(contract_clauses(), "\n"@) + "\nObjective: "@ + objective
        + ".\nReturn only unified diff patch.\nContext:\n"@ + join(
        Seq::new(hits.len(), |i: int| hit_context(hits[i].0, hits[i].2)),
        "\n\n"@,
    )
}

/// Builds the prompt for the code model.
pub fn patch_prompt(objective: &str, hits: &Vec<RetrievalHit>) -> (r: String)
    ensures
        r@ == patch_prompt_text(objective@, hit_views(hits@)),
{
    let mut blocks: Vec<String> = Vec::new();
    let mut i: usize = 0;
    while i < hits.len()
        invariant
            i <= hits@.len(),
            views(blocks@) == Seq::new(
                i as nat,
                |j: int| hit_context(hit_views(hits@)[j].0, hit_views(hits@)[j].2),
            ),
        decreases hits.len() - i,
    {
        let mut b = owned("FILE:");
        push_str(&mut b, hits[i].path.as_str());
        push_str(&mut b, "\n");
        push_str(&mut b, hits[i].excerpt.as_str());
        let ghost before = views(blocks@);
        assert(b@ == hit_context(hit_views(hits@)[i as int].0, hit_views(hits@)[i as int].2));
        blocks.push(b);
        assert(views(blocks@) =~= before.push(b@));
        i = i + 1;
        assert(views(blocks@) =~= Seq::new(
            i as nat,
            |j: int| hit_context(hit_views(hits@)[j].0, hit_views(hits@)[j].2),
        ));
    }
    let context = join_strings(&blocks, "\n\n");
    let contract = join_strs(&contract_list(), "\n");
    let mut p = owned("You are a Rust code assistant.\nPersona contract version: ");
    push_str(&mut p, PERSONA_CONTRACT_VERSION);
    push_str(&mut p, "\n");
    push_str(&mut p, contract.as_str());
    push_str(&mut p, "\nObjective: ");
    push_str(&mut p, objective);
    push_str(&mut p, ".\nReturn only unified diff patch.\nContext:\n");
    push_str(&mut p, context.as_str());
    p
}

} // verus!
