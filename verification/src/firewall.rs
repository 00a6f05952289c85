use vstd::prelude::*;

use crate::FirewallRule;

verus! {

/// One change to the system firewall, in the order in which
/// `setup_firewall_rules` makes them.
#[derive(Debug, Clone)]
pub enum FirewallStep {
    /// Remove any rule with this name; a failure is ignored.
    RemoveRule { name: String },
    /// Add an enabled inbound rule that allows the application on all
    /// profiles; a failure ends the setup with that error.
    AddRule { rule: FirewallRule },
}

impl FirewallStep {
    /// Whether a failure of this step ends the whole setup.
    pub open spec fn spec_aborts_on_failure(&self) -> bool {
        self is AddRule
    }

    /// Whether a failure of this step ends the whole setup: removing a rule
    /// that may not exist is allowed to fail, adding one is not.
    #[verifier::when_used_as_spec(spec_aborts_on_failure)]
    pub fn aborts_on_failure(&self) -> (aborts: bool)
        ensures
            aborts == self.spec_aborts_on_failure(),
    {
        match self {
            FirewallStep::RemoveRule { .. } => false,
            FirewallStep::AddRule { .. } => true,
        }
    }
}

/// `step` removes the rule named like `rule`.
pub open spec fn removes(step: FirewallStep, rule: FirewallRule) -> bool {
    step matches FirewallStep::RemoveRule { name } && name@ == rule.name@
}

/// `step` adds `rule`.
pub open spec fn adds(step: FirewallStep, rule: FirewallRule) -> bool {
    step matches FirewallStep::AddRule { rule: r } && r.name@ == rule.name@
        && r.application_path@ == rule.application_path@
}

fn copy_rule(rule: &FirewallRule) -> (copy: FirewallRule)
    ensures
        copy.name@ == rule.name@,
        copy.application_path@ == rule.application_path@,
{
    FirewallRule { name: rule.name.clone(), application_path: rule.application_path.clone() }
}

/// The steps that set up `rules`: first every rule's name is removed, so that
/// no stale rule of that name survives, then every rule is added, both in the
/// order of `rules`.
pub fn firewall_setup_plan(rules: &Vec<FirewallRule>) -> (plan: Vec<FirewallStep>)
    ensures
        plan@.len() == 2 * rules@.len(),
        forall|i: int| 0 <= i < rules@.len() ==> removes(#[trigger] plan@[i], rules@[i]),
        forall|i: int|
            0 <= i < rules@.len() ==> adds(#[trigger] plan@[rules@.len() + i], rules@[i]),
{
    let n = rules.len();
    let mut plan: Vec<FirewallStep> = Vec::new();
    let mut i: usize = 0;
    while i < n
        invariant
            n == rules@.len(),
            i <= n,
            plan@.len() == i,
            forall|j: int| 0 <= j < i ==> removes(#[trigger] plan@[j], rules@[j]),
        decreases n - i,
    {
        plan.push(FirewallStep::RemoveRule { name: rules[i].name.clone() });
        i += 1;
    }
    let mut i: usize = 0;
    while i < n
        invariant
            n == rules@.len(),
            i <= n,
            plan@.len() == n + i,
            forall|j: int| 0 <= j < n ==> removes(#[trigger] plan@[j], rules@[j]),
            forall|j: int| 0 <= j < i ==> adds(#[trigger] plan@[n + j], rules@[j]),
        decreases n - i,
    {
        plan.push(FirewallStep::AddRule { rule: copy_rule(&rules[i]) });
        assert(plan@[n + i] == plan@.last());
        i += 1;
    }
    plan
}

/// Every rule is removed before any rule is added, and only adding can abort
/// the setup.
pub proof fn lemma_plan_removes_before_adding(rules: Seq<FirewallRule>, plan: Seq<FirewallStep>)
    requires
        plan.len() == 2 * rules.len(),
        forall|i: int| 0 <= i < rules.len() ==> removes(#[trigger] plan[i], rules[i]),
        forall|i: int| 0 <= i < rules.len() ==> adds(#[trigger] plan[rules.len() + i], rules[i]),
    ensures
        forall|i: int, j: int|
            0 <= i < plan.len() && 0 <= j < plan.len() && plan[i] is AddRule && plan[j] is RemoveRule
                ==> j < i,
        forall|i: int|
            0 <= i < plan.len() ==> (#[trigger] plan[i].spec_aborts_on_failure() <==> i
                >= rules.len()),
{
    assert forall|i: int| 0 <= i < plan.len() implies (plan[i] is AddRule <==> i >= rules.len()) by {
        if i < rules.len() {
            assert(removes(plan[i], rules[i]));
        } else {
            assert(adds(plan[rules.len() + (i - rules.len())], rules[i - rules.len()]));
        }
    }
}

} // verus!
