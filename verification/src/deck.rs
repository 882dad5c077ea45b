use vstd::prelude::*;
use crate::card::{Card, Role, hidden_card};
use crate::random::shuffle_cards;

verus! {

pub const CARD_COPIES: usize = 3;
pub const TOTAL_CARDS: usize = 15;

/// The role at position `i` of the role listing order.
pub open spec fn role_at(i: int) -> Role {
    if i == 0 {
        Role::Assassin
    } else if i == 1 {
        Role::Contessa
    } else if i == 2 {
        Role::Captain
    } else if i == 3 {
        Role::Duke
    } else {
        Role::Ambassador
    }
}

/// A fresh deck: three hidden copies of each role, grouped by role in the
/// role listing order.
pub open spec fn initial_deck() -> Seq<Card> {
    Seq::new(TOTAL_CARDS as nat, |i: int| hidden_card(role_at(i / 3)))
}

/// The draw pile.
#[derive(Debug)]
pub struct Deck {
    pub cards: Vec<Card>,
}

impl Deck {
    pub fn new() -> (d: Self)
        ensures
            d.cards@ == initial_deck(),
    {
        let roles: [Role; 5] = [Role::Assassin, Role::Contessa, Role::Captain, Role::Duke, Role::Ambassador];
        let mut cards: Vec<Card> = Vec::new();
        let mut r: usize = 0;
        while r < 5
            invariant
                r <= 5,
                roles@ == seq![Role::Assassin, Role::Contessa, Role::Captain, Role::Duke, Role::Ambassador],
                cards@.len() == 3 * r,
                forall|i: int| 0 <= i < cards@.len() ==> #[trigger] cards@[i] == hidden_card(role_at(i / 3)),
            decreases 5 - r,
        {
            let role = roles[r];
            assert(role == role_at(r as int));
            let mut k: usize = 0;
            while k < CARD_COPIES
                invariant
                    k <= 3,
                    r < 5,
                    role == role_at(r as int),
                    cards@.len() == 3 * r + k,
                    forall|i: int| 0 <= i < cards@.len() ==> #[trigger] cards@[i] == hidden_card(role_at(i / 3)),
                decreases 3 - k,
            {
                let ghost len = cards@.len();
                assert((len as int) / 3 == r as int);
                cards.push(Card::new(role));
                k = k + 1;
            }
            r = r + 1;
        }
        assert(cards@ =~= initial_deck());
        Self { cards }
    }

    /// Puts the cards in an order left to chance.
    pub fn shuffle(&mut self)
        ensures
            final(self).cards@.len() == old(self).cards@.len(),
            final(self).cards@.to_multiset() == old(self).cards@.to_multiset(),
    {
        shuffle_cards(&mut self.cards);
    }

    /// Takes the top (last) card, hidden, or `None` from an empty deck.
    pub fn draw(&mut self) -> (r: Option<Card>)
        ensures
            old(self).cards@.len() == 0 ==> r is None && final(self).cards@ == old(self).cards@,
            old(self).cards@.len() > 0 ==> r == Some(hidden_card(old(self).cards@.last().role))
                && final(self).cards@ == old(self).cards@.drop_last(),
    {
        let card = self.cards.pop();
        match card {
            Some(mut card) => {
                card.visible = false;
                Some(card)
            },
            None => None,
        }
    }

    /// Puts a card back on top, hidden, unless the deck already holds all
    /// fifteen cards.
    pub fn return_card(&mut self, card: Card) -> (r: Result<bool, &'static str>)
        ensures
            old(self).cards@.len() < TOTAL_CARDS ==> r == Ok::<bool, &'static str>(true)
                && final(self).cards@ == old(self).cards@.push(hidden_card(card.role)),
            old(self).cards@.len() >= TOTAL_CARDS ==> r is Err && r->Err_0@ == "Deck is full"@
                && final(self).cards@ == old(self).cards@,
    {
        let mut card = card;
        if self.cards.len() < TOTAL_CARDS {
            card.visible = false;
            self.cards.push(card);
            Ok(true)
        } else {
            Err("Deck is full")
        }
    }
}

} // verus!
