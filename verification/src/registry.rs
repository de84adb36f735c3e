//! The tool registry of an agent, and the simple agent: one model call,
//! made only when the persona's tools are registered, whose draft the
//! persona then validates.
use crate::agent::{simple_plan_steps, simple_run_events, AgentEvent, Persona};
use crate::personas::{any_persona_tools, AnyPersona};
use crate::runtime::runtime_tools;
use crate::text::{copy_string, owned, push_str, str_eq, views};
use vstd::prelude::*;

verus! {

/// The tools an agent may call, by name.
#[derive(Debug)]
pub struct ToolRegistry {
    names: Vec<String>,
}

/// The first needed tool that is not registered, if any.
pub open spec fn first_unregistered(needed: Seq<Seq<char>>, names: Set<Seq<char>>) -> Option<Seq<char>>
    decreases needed.len(),
{
    if needed.len() == 0 {
        None
    } else if !names.contains(needed[0]) {
        Some(needed[0])
    } else {
        first_unregistered(needed.drop_first(), names)
    }
}

impl ToolRegistry {
    /// The names of the registered tools.
    pub closed spec fn names(&self) -> Set<Seq<char>> {
        views(self.names@).to_set()
    }

    /// An empty registry.
    pub fn new() -> (r: Self)
        ensures
            r.names() == Set::<Seq<char>>::empty(),
    {
        let r = ToolRegistry { names: Vec::new() };
        assert(views(r.names@).to_set() =~= Set::<Seq<char>>::empty());
        r
    }

    /// Whether a tool is registered under `name`.
    pub fn contains(&self, name: &str) -> (r: bool)
        ensures
            r == self.names().contains(name@),
    {
        let ghost vs = views(self.names@);
        let mut i: usize = 0;
        while i < self.names.len()
            invariant
                i <= self.names@.len(),
                vs == views(self.names@),
                forall|k: int| 0 <= k < i ==> vs[k] != name@,
            decreases self.names.len() - i,
        {
            if str_eq(self.names[i].as_str(), name) {
                assert(vs.contains(vs[i as int]));
                return true;
            }
            i = i + 1;
        }
        assert(!vs.contains(name@));
        false
    }

    /// Registers a tool under `name`; a tool already registered under that
    /// name is replaced.
    pub fn register(&mut self, name: &str)
        ensures
            final(self).names() == old(self).names().insert(name@),
    {
        if !self.contains(name) {
            let ghost b = views(self.names@);
            self.names.push(owned(name));
            let ghost a = views(self.names@);
            assert(a =~= b.push(name@));
            assert forall|y: Seq<char>| a.to_set().contains(y) <==> b.to_set().insert(name@).contains(y) by {
                if a.contains(y) {
                    let k = choose|k: int| 0 <= k < a.len() && a[k] == y;
                    if k < b.len() {
                        assert(b[k] == y);
                    }
                }
                if b.contains(y) {
                    let k = choose|k: int| 0 <= k < b.len() && b[k] == y;
                    assert(a[k] == y);
                }
                if y == name@ {
                    assert(a[b.len() as int] == y);
                }
            }
            assert(a.to_set() =~= b.to_set().insert(name@));
        } else {
            assert(old(self).names().insert(name@) =~= old(self).names());
        }
    }

    /// Looks a tool up before a call: refused when no tool has that name.
    pub fn check_invoke(&self, name: &str) -> (r: Result<(), String>)
        ensures
            r is Ok <==> self.names().contains(name@),
            r matches Err(m) ==> m@ == "unknown tool: "@ + name@,
    {
        if self.contains(name) {
            Ok(())
        } else {
            let mut m = owned("unknown tool: ");
            push_str(&mut m, name);
            Err(m)
        }
    }

    /// The first of `needed` that is not registered, if any.
    pub fn first_unregistered_of(&self, needed: &Vec<String>) -> (r: Option<String>)
        ensures
            match r {
                Some(t) => first_unregistered(views(needed@), self.names()) == Some(t@),
                None => first_unregistered(views(needed@), self.names()) is None,
            },
    {
        let ghost n = views(needed@);
        let mut i: usize = 0;
        assert(n.skip(0) =~= n);
        while i < needed.len()
            invariant
                i <= needed@.len(),
                n == views(needed@),
                first_unregistered(n, self.names()) == first_unregistered(n.skip(i as int), self.names()),
            decreases needed.len() - i,
        {
            assert(n.skip(i as int)[0] == needed@[i as int]@);
            if !self.contains(needed[i].as_str()) {
                return Some(copy_string(&needed[i]));
            }
            assert(n.skip(i as int).drop_first() =~= n.skip(i + 1));
            i = i + 1;
        }
        assert(n.skip(i as int).len() == 0);
        None
    }
}

/// The registry of the local runtime: its tools, by name.
pub fn build_tool_registry() -> (r: ToolRegistry)
    ensures
        r.names() == runtime_tools().to_set(),
{
    let mut r = ToolRegistry::new();
    r.register("filesystem.read");
    r.register("filesystem.write");
    r.register("cargo.check");
    r.register("cargo.test");
    r.register("git.diff");
    proof {
        reveal_strlit("filesystem.read");
        reveal_strlit("filesystem.write");
        reveal_strlit("cargo.check");
        reveal_strlit("cargo.test");
        reveal_strlit("git.diff");
        let t = runtime_tools();
        assert(t.to_set() =~= Set::<Seq<char>>::empty().insert(t[0]).insert(t[1]).insert(t[2]).insert(t[3]).insert(
            t[4],
        )) by {
            assert forall|x: Seq<char>| t.to_set().contains(x) implies x == t[0] || x == t[1] || x == t[2] || x == t[3]
                || x == t[4] by {
                let k = choose|k: int| 0 <= k < t.len() && t[k] == x;
            }
            assert(t.contains(t[0]) && t.contains(t[1]) && t.contains(t[2]) && t.contains(t[3]) && t.contains(t[4]));
        }
    }
    r
}

/// The answer of a simple agent: the validated draft, a confidence of one
/// half (in hundredths), and its events.
#[derive(Debug)]
pub struct SimpleRunResult {
    pub answer: String,
    pub confidence_pct: u32,
    pub events: Vec<AgentEvent>,
}

/// A simple agent: a persona and the tools it may call. Its run makes one
/// model call with the persona's system prompt and the goal.
#[derive(Debug)]
pub struct SimpleAgent {
    pub persona: AnyPersona,
    pub tools: ToolRegistry,
}

impl SimpleAgent {
    pub fn new(persona: AnyPersona, tools: ToolRegistry) -> (r: Self)
        ensures
            r.persona == persona,
            r.tools.names() == tools.names(),
    {
        SimpleAgent { persona, tools }
    }

    /// Before the model call: refused when the persona needs a tool that is
    /// not registered (the first such tool in the persona's order).
    pub fn check_tools(&self) -> (r: Result<(), String>)
        ensures
            match first_unregistered(any_persona_tools(self.persona), self.tools.names()) {
                Some(t) => r matches Err(m) && m@ == "persona expects unavailable tool: "@ + t,
                None => r is Ok,
            },
    {
        let needed = self.persona.allowed_tools();
        match self.tools.first_unregistered_of(&needed) {
            Some(t) => {
                let mut m = owned("persona expects unavailable tool: ");
                push_str(&mut m, t.as_str());
                Err(m)
            },
            None => Ok(()),
        }
    }

    /// After the model call: the persona validates the draft; an accepted
    /// draft is the answer, a refused one gives the validation error's text.
    pub fn finish(&self, draft: String) -> (r: Result<SimpleRunResult, String>)
        ensures
            match self.persona.verdict(draft@) {
                None => r matches Ok(res) && {
                    &&& res.answer@ == draft@
                    &&& res.confidence_pct == 50
                    &&& res.events@.len() == 2
                    &&& res.events@[0] matches AgentEvent::PlanCreated { steps } && views(steps@)
                        == simple_plan_steps()
                    &&& res.events@[1] is ValidationPassed
                },
                Some(m) => r matches Err(e) && e@ == "validation failed: "@ + m,
            },
    {
        match self.persona.validate(draft.as_str()) {
            Ok(()) => Ok(SimpleRunResult { answer: draft, confidence_pct: 50, events: simple_run_events() }),
            Err(e) => Err(e.to_string()),
        }
    }
}

} // verus!
