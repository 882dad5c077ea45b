use vstd::prelude::*;

verus! {

/// The five character roles of the game.
#[derive(Debug, Clone, Copy, PartialEq, Eq, Structural)]
pub enum Role {
    Assassin,
    Contessa,
    Captain,
    Duke,
    Ambassador,
}

/// A card held by a player or lying in the deck; `visible` is true once the
/// card has been revealed (the influence it stood for is lost).
#[derive(Debug, Clone, Copy, PartialEq, Eq, Structural)]
pub struct Card {
    pub role: Role,
    pub visible: bool,
}

/// The name of a role, as the protocol spells it.
pub open spec fn role_name_spec(role: Role) -> Seq<char> {
    match role {
        Role::Assassin => "Assassin"@,
        Role::Contessa => "Contessa"@,
        Role::Captain => "Captain"@,
        Role::Duke => "Duke"@,
        Role::Ambassador => "Ambassador"@,
    }
}

/// The role a name stands for, if any.
pub open spec fn role_of_name(name: Seq<char>) -> Option<Role> {
    if name == "Assassin"@ {
        Some(Role::Assassin)
    } else if name == "Contessa"@ {
        Some(Role::Contessa)
    } else if name == "Captain"@ {
        Some(Role::Captain)
    } else if name == "Duke"@ {
        Some(Role::Duke)
    } else if name == "Ambassador"@ {
        Some(Role::Ambassador)
    } else {
        None
    }
}

/// A hidden card of the given role.
pub open spec fn hidden_card(role: Role) -> Card {
    Card { role, visible: false }
}

/// Whether two strings hold the same characters.
pub fn str_eq(a: &str, b: &str) -> (r: bool)
    ensures
        r == (a@ == b@),
{
    let sa: String = a.to_owned();
    let sb: String = b.to_owned();
    sa == sb
}

/// The name of a role.
pub fn role_name(role: Role) -> (s: &'static str)
    ensures
        s@ == role_name_spec(role),
{
    match role {
        Role::Assassin => "Assassin",
        Role::Contessa => "Contessa",
        Role::Captain => "Captain",
        Role::Duke => "Duke",
        Role::Ambassador => "Ambassador",
    }
}

/// Reads a role from its name.
pub fn parse_role(s: &str) -> (r: Option<Role>)
    ensures
        r == role_of_name(s@),
{
    if str_eq(s, "Assassin") {
        Some(Role::Assassin)
    } else if str_eq(s, "Contessa") {
        Some(Role::Contessa)
    } else if str_eq(s, "Captain") {
        Some(Role::Captain)
    } else if str_eq(s, "Duke") {
        Some(Role::Duke)
    } else if str_eq(s, "Ambassador") {
        Some(Role::Ambassador)
    } else {
        None
    }
}

/// Every role name reads back as the role it names.
pub proof fn lemma_role_name_round_trip(role: Role)
    ensures
        role_of_name(role_name_spec(role)) == Some(role),
{
    reveal_strlit("Assassin");
    reveal_strlit("Contessa");
    reveal_strlit("Captain");
    reveal_strlit("Duke");
    reveal_strlit("Ambassador");
    assert("Contessa"@[0] != "Assassin"@[0]);
    assert("Captain"@[1] != "Contessa"@[1]);
    assert("Captain"@[0] != "Assassin"@[0]);
    assert("Duke"@.len() != "Assassin"@.len());
    assert("Duke"@.len() != "Contessa"@.len());
    assert("Duke"@.len() != "Captain"@.len());
    assert("Ambassador"@.len() != "Assassin"@.len());
    assert("Ambassador"@.len() != "Contessa"@.len());
    assert("Ambassador"@.len() != "Captain"@.len());
    assert("Ambassador"@.len() != "Duke"@.len());
}

impl Card {
    pub fn new(role: Role) -> (c: Self)
        ensures
            c == hidden_card(role),
    {
        Self { role, visible: false }
    }

    /// A hidden card of the role that `card` names, or an error for any
    /// other text.
    pub fn from_str(card: &str) -> (r: Result<Self, &'static str>)
        ensures
            match role_of_name(card@) {
                Some(role) => r == Ok::<Card, &'static str>(hidden_card(role)),
                None => r is Err && r->Err_0@ == "Invalid card role"@,
            },
    {
        match parse_role(card) {
            Some(role) => Ok(Self::new(role)),
            None => Err("Invalid card role"),
        }
    }
}

} // verus!
