//! Local policy: the optimisation profile and the budget scopes.
use vstd::prelude::*;
use crate::text::{owned, str_equal};

verus! {

/// The optimisation profiles, in documentation order.
pub open spec fn profiles() -> Seq<Seq<char>> {
    seq!["shadow"@, "conservative"@, "balanced"@, "aggressive"@, "off"@]
}

/// `name` is one of the known profiles.
pub open spec fn is_profile(name: Seq<char>) -> bool {
    profiles().contains(name)
}

/// The profile of a fresh configuration.
pub fn default_profile() -> (r: String)
    ensures
        r@ == "shadow"@,
{
    owned("shadow")
}

/// Whether `name` is a known profile.
pub fn is_known_profile(name: &str) -> (r: bool)
    ensures
        r == is_profile(name@),
{
    let r = str_equal(name, "shadow") || str_equal(name, "conservative") || str_equal(name, "balanced")
        || str_equal(name, "aggressive") || str_equal(name, "off");
    proof {
        assert(profiles()[0] == "shadow"@ && profiles()[1] == "conservative"@ && profiles()[2]
            == "balanced"@ && profiles()[3] == "aggressive"@ && profiles()[4] == "off"@);
        if is_profile(name@) {
            let k = choose|k: int| 0 <= k < profiles().len() && profiles()[k] == name@;
        }
    }
    r
}

/// Why a policy change was refused.
pub enum PolicyError {
    /// The profile named is not one of the known profiles.
    UnknownProfile,
    /// The budget scope named is not task, session or daily.
    UnknownScope,
}

impl PolicyError {
    /// The error message shown to the user.
    pub fn message(&self) -> (r: String)
        ensures
            self is UnknownProfile ==> r@
                == "profile must be one of [\"shadow\", \"conservative\", \"balanced\", \"aggressive\", \"off\"]"@,
            self is UnknownScope ==> r@ == "scope must be task|session|daily"@,
    {
        match self {
            PolicyError::UnknownProfile => owned(
                "profile must be one of [\"shadow\", \"conservative\", \"balanced\", \"aggressive\", \"off\"]",
            ),
            PolicyError::UnknownScope => owned("scope must be task|session|daily"),
        }
    }
}

/// Sets the profile to `name` when it is a known profile; otherwise refuses
/// and leaves it unchanged.
pub fn set_profile(profile: &mut String, name: &str) -> (r: Result<(), PolicyError>)
    ensures
        r is Ok <==> is_profile(name@),
        r is Ok ==> final(profile)@ == name@,
        r is Err ==> (r matches Err(e) && e is UnknownProfile) && final(profile)@ == old(profile)@,
{
    if is_known_profile(name) {
        *profile = owned(name);
        Ok(())
    } else {
        Err(PolicyError::UnknownProfile)
    }
}

/// A budget scope.
#[derive(PartialEq, Eq, Structural)]
pub enum BudgetScope {
    Task,
    Session,
    Daily,
}

/// The budget scope named by `scope` (`task`, `session` or `daily`).
pub fn parse_scope(scope: &str) -> (r: Result<BudgetScope, PolicyError>)
    ensures
        scope@ == "task"@ ==> r == Ok::<BudgetScope, PolicyError>(BudgetScope::Task),
        scope@ == "session"@ ==> r == Ok::<BudgetScope, PolicyError>(BudgetScope::Session),
        scope@ == "daily"@ ==> r == Ok::<BudgetScope, PolicyError>(BudgetScope::Daily),
        scope@ != "task"@ && scope@ != "session"@ && scope@ != "daily"@ ==> (r matches Err(e)
            && e is UnknownScope),
{
    proof {
        reveal_strlit("task");
        reveal_strlit("session");
        reveal_strlit("daily");
        assert("task"@.len() == 4 && "session"@.len() == 7 && "daily"@.len() == 5);
    }
    if str_equal(scope, "task") {
        Ok(BudgetScope::Task)
    } else if str_equal(scope, "session") {
        Ok(BudgetScope::Session)
    } else if str_equal(scope, "daily") {
        Ok(BudgetScope::Daily)
    } else {
        Err(PolicyError::UnknownScope)
    }
}

/// Health of a spend against its budget.
#[derive(PartialEq, Eq, Structural, Clone, Copy)]
pub enum BudgetHealth {
    /// Below 80% of the limit, or no limit.
    Within,
    /// At least 80% of the limit.
    Warning,
    /// At or over the limit.
    Exceeded,
}

/// The symbol shown for a budget health.
pub open spec fn health_symbol(h: BudgetHealth) -> char {
    match h {
        BudgetHealth::Within => '✓',
        BudgetHealth::Warning => '!',
        BudgetHealth::Exceeded => 'X',
    }
}

impl BudgetHealth {
    /// `'✓'`, `'!'` or `'X'`.
    pub fn symbol(&self) -> (c: char)
        ensures
            c == health_symbol(*self),
    {
        match self {
            BudgetHealth::Within => '✓',
            BudgetHealth::Warning => '!',
            BudgetHealth::Exceeded => 'X',
        }
    }
}

/// The symbols shown for the budget states: `✓` within budget, `!` for a
/// warning, `X` when exceeded, all different; and the known profiles are
/// exactly shadow, conservative, balanced, aggressive and off.
pub proof fn lemma_symbols_and_profiles(name: Seq<char>)
    ensures
        health_symbol(BudgetHealth::Within) == '✓',
        health_symbol(BudgetHealth::Warning) == '!',
        health_symbol(BudgetHealth::Exceeded) == 'X',
        is_profile(name) <==> (name == "shadow"@ || name == "conservative"@ || name == "balanced"@
            || name == "aggressive"@ || name == "off"@),
{
    if is_profile(name) {
        let i = choose|i: int| 0 <= i < profiles().len() && profiles()[i] == name;
        assert(0 <= i < 5);
    }
    if name == "shadow"@ {
        assert(profiles()[0] == name);
    } else if name == "conservative"@ {
        assert(profiles()[1] == name);
    } else if name == "balanced"@ {
        assert(profiles()[2] == name);
    } else if name == "aggressive"@ {
        assert(profiles()[3] == name);
    } else if name == "off"@ {
        assert(profiles()[4] == name);
    }
}

} // verus!
