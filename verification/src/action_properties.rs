use vstd::prelude::*;
use crate::card::{Role, str_eq};

verus! {

/// What the rules say of an action: the role an actor claims to take it, the
/// roles that may block it, whether only its target may block, what it costs
/// the actor, and whether it names a target.
#[derive(Debug)]
pub struct ActionProperties {
    pub claimed_role: Option<Role>,
    pub blockable_by: Vec<Role>,
    pub block_target_only: bool,
    pub cost: u8,
    pub requires_target: bool,
}

/// The mathematical form of [`ActionProperties`].
#[verifier::ext_equal]
pub struct ActionRules {
    pub claimed_role: Option<Role>,
    pub blockable_by: Seq<Role>,
    pub block_target_only: bool,
    pub cost: u8,
    pub requires_target: bool,
}

impl View for ActionProperties {
    type V = ActionRules;

    open spec fn view(&self) -> ActionRules {
        ActionRules {
            claimed_role: self.claimed_role,
            blockable_by: self.blockable_by@,
            block_target_only: self.block_target_only,
            cost: self.cost,
            requires_target: self.requires_target,
        }
    }
}

pub open spec fn rules(
    claimed_role: Option<Role>,
    blockable_by: Seq<Role>,
    block_target_only: bool,
    cost: u8,
    requires_target: bool,
) -> ActionRules {
    ActionRules { claimed_role, blockable_by, block_target_only, cost, requires_target }
}

/// The rules of each action, by its protocol name.
pub open spec fn action_rules(action: Seq<char>) -> Option<ActionRules> {
    if action == "income"@ {
        Some(rules(None, seq![], false, 0, false))
    } else if action == "foreign_aid"@ {
        Some(rules(None, seq![Role::Duke], false, 0, false))
    } else if action == "coup"@ {
        Some(rules(None, seq![], false, 7, true))
    } else if action == "tax"@ {
        Some(rules(Some(Role::Duke), seq![], false, 0, false))
    } else if action == "assassinate"@ {
        Some(rules(Some(Role::Assassin), seq![Role::Contessa], true, 3, true))
    } else if action == "steal"@ {
        Some(rules(Some(Role::Captain), seq![Role::Captain, Role::Ambassador], true, 0, true))
    } else if action == "exchange_draw"@ {
        Some(rules(Some(Role::Ambassador), seq![], false, 0, false))
    } else {
        None
    }
}

/// How an action name is shown to players.
pub open spec fn display_name(action: Seq<char>) -> Seq<char> {
    if action == "foreign_aid"@ {
        "foreign aid"@
    } else if action == "exchange_draw"@ {
        "exchange"@
    } else {
        action
    }
}

pub fn display_action_name(action: &str) -> (s: String)
    ensures
        s@ == display_name(action@),
{
    if str_eq(action, "foreign_aid") {
        "foreign aid".to_owned()
    } else if str_eq(action, "exchange_draw") {
        "exchange".to_owned()
    } else {
        action.to_owned()
    }
}

fn role_list(roles: &[Role]) -> (v: Vec<Role>)
    ensures
        v@ == roles@,
{
    let mut v: Vec<Role> = Vec::new();
    let mut i: usize = 0;
    while i < roles.len()
        invariant
            i <= roles@.len(),
            v@ == roles@.subrange(0, i as int),
        decreases roles@.len() - i,
    {
        v.push(roles[i]);
        i = i + 1;
    }
    assert(roles@.subrange(0, roles@.len() as int) =~= roles@);
    v
}

fn make(
    claimed_role: Option<Role>,
    blockable_by: Vec<Role>,
    block_target_only: bool,
    cost: u8,
    requires_target: bool,
) -> (p: ActionProperties)
    ensures
        p@ == rules(claimed_role, blockable_by@, block_target_only, cost, requires_target),
{
    ActionProperties { claimed_role, blockable_by, block_target_only, cost, requires_target }
}

pub fn get_action_properties(action: &str) -> (r: Option<ActionProperties>)
    ensures
        match action_rules(action@) {
            Some(rs) => r is Some && r->Some_0@ == rs,
            None => r is None,
        },
{
    if str_eq(action, "income") {
        Some(make(None, role_list(&[]), false, 0, false))
    } else if str_eq(action, "foreign_aid") {
        Some(make(None, role_list(&[Role::Duke]), false, 0, false))
    } else if str_eq(action, "coup") {
        Some(make(None, role_list(&[]), false, 7, true))
    } else if str_eq(action, "tax") {
        Some(make(Some(Role::Duke), role_list(&[]), false, 0, false))
    } else if str_eq(action, "assassinate") {
        Some(make(Some(Role::Assassin), role_list(&[Role::Contessa]), true, 3, true))
    } else if str_eq(action, "steal") {
        Some(make(Some(Role::Captain), role_list(&[Role::Captain, Role::Ambassador]), true, 0, true))
    } else if str_eq(action, "exchange_draw") {
        Some(make(Some(Role::Ambassador), role_list(&[]), false, 0, false))
    } else {
        None
    }
}

} // verus!
