//! Operating modes: how much to retrieve and how much to validate.
use crate::text::str_eq;
use vstd::prelude::*;

verus! {

/// How thoroughly the agent works.
#[derive(Debug, Clone, Copy, PartialEq, Eq, Structural)]
pub enum IntelligenceMode {
    Safe,
    Fast,
    Deep,
    LowPower,
}

/// The name of a mode.
pub open spec fn mode_name(m: IntelligenceMode) -> Seq<char> {
    match m {
        IntelligenceMode::Safe => "safe"@,
        IntelligenceMode::Fast => "fast"@,
        IntelligenceMode::Deep => "deep"@,
        IntelligenceMode::LowPower => "low-power"@,
    }
}

/// The mode a name designates, if any.
pub open spec fn mode_named(s: Seq<char>) -> Option<IntelligenceMode> {
    if s == "safe"@ {
        Some(IntelligenceMode::Safe)
    } else if s == "fast"@ {
        Some(IntelligenceMode::Fast)
    } else if s == "deep"@ {
        Some(IntelligenceMode::Deep)
    } else if s == "low-power"@ {
        Some(IntelligenceMode::LowPower)
    } else {
        None
    }
}

/// How many retrieval hits a mode asks for, from a base count.
pub open spec fn retrieval_count(m: IntelligenceMode, base: nat) -> nat {
    match m {
        IntelligenceMode::Safe => if base <= 5 { base } else { 5 },
        IntelligenceMode::Fast => if base <= 4 { base } else { 4 },
        IntelligenceMode::Deep => if base + 2 <= usize::MAX { base + 2 } else { usize::MAX as nat },
        IntelligenceMode::LowPower => if base <= 3 { base } else { 3 },
    }
}

impl IntelligenceMode {
    /// Parses a mode name.
    pub fn from_str(s: &str) -> (r: Option<IntelligenceMode>)
        ensures
            r == mode_named(s@),
    {
        if str_eq(s, "safe") {
            Some(IntelligenceMode::Safe)
        } else if str_eq(s, "fast") {
            Some(IntelligenceMode::Fast)
        } else if str_eq(s, "deep") {
            Some(IntelligenceMode::Deep)
        } else if str_eq(s, "low-power") {
            Some(IntelligenceMode::LowPower)
        } else {
            None
        }
    }

    /// The name of the mode.
    pub fn as_str(self) -> (r: &'static str)
        ensures
            r@ == mode_name(self),
    {
        match self {
            IntelligenceMode::Safe => "safe",
            IntelligenceMode::Fast => "fast",
            IntelligenceMode::Deep => "deep",
            IntelligenceMode::LowPower => "low-power",
        }
    }

    /// How many retrieval hits to ask for, from a base count.
    pub fn retrieval_n(self, base: usize) -> (r: usize)
        ensures
            r == retrieval_count(self, base as nat),
    {
        match self {
            IntelligenceMode::Safe => if base <= 5 { base } else { 5 },
            IntelligenceMode::Fast => if base <= 4 { base } else { 4 },
            IntelligenceMode::Deep => if base <= usize::MAX - 2 { base + 2 } else { usize::MAX },
            IntelligenceMode::LowPower => if base <= 3 { base } else { 3 },
        }
    }

    /// Whether the mode runs clippy and the tests besides the check.
    pub fn run_full_validation(self) -> (r: bool)
        ensures
            r == !(self is Fast),
    {
        !matches!(self, IntelligenceMode::Fast)
    }
}

/// The mode named by a setting, `safe` when the setting is absent or names
/// no mode.
pub fn mode_from_setting(v: Option<&str>) -> (r: IntelligenceMode)
    ensures
        r == match v {
            Some(s) => match mode_named(s@) {
                Some(m) => m,
                None => IntelligenceMode::Safe,
            },
            None => IntelligenceMode::Safe,
        },
{
    match v {
        Some(s) => match IntelligenceMode::from_str(s) {
            Some(m) => m,
            None => IntelligenceMode::Safe,
        },
        None => IntelligenceMode::Safe,
    }
}

/// Every mode's name parses back to that mode.
pub proof fn law_mode_name_roundtrip(m: IntelligenceMode)
    ensures
        mode_named(mode_name(m)) == Some(m),
{
    reveal_strlit("safe");
    reveal_strlit("fast");
    reveal_strlit("deep");
    reveal_strlit("low-power");
    assert("fast"@[0] != "safe"@[0]);
    assert("deep"@[0] != "safe"@[0] && "deep"@[0] != "fast"@[0]);
    assert("low-power"@.len() != "safe"@.len() && "low-power"@.len() != "fast"@.len()
        && "low-power"@.len() != "deep"@.len());
}

} // verus!
