use vstd::prelude::*;

verus! {

/// The five character roles.
#[derive(Debug, Clone, Copy, PartialEq, Eq, Structural)]
pub enum Role {
    Assassin,
    Contessa,
    Captain,
    Duke,
    Ambassador,
}

/// A card and whether it has been revealed.
#[derive(Debug, Clone, Copy, PartialEq, Eq, Structural)]
pub struct Card {
    pub role: Role,
    pub visible: bool,
}

impl Card {
    /// A hidden card of the role.
    pub fn new(role: Role) -> (c: Self)
        ensures
            c.role == role,
            !c.visible,
    {
        Self { role, visible: false }
    }
}

} // verus!
