use vstd::prelude::*;
use crate::card::{Card, hidden_card, role_name_spec, str_eq};
use crate::deck::TOTAL_CARDS;
use crate::game::Game;

verus! {

/// A seat at the table.
#[derive(Debug, Clone, PartialEq)]
pub struct Player {
    pub uuid: u128,
    pub name: String,
    pub is_alive: bool,
    pub cards: Vec<Card>,
    pub coins: u8,
    pub exchange_cards: Vec<Card>,
}

/// The hidden cards of a hand, in hand order.
pub open spec fn hidden_of(s: Seq<Card>) -> Seq<Card>
    decreases s.len(),
{
    if s.len() == 0 {
        Seq::empty()
    } else if !s.last().visible {
        hidden_of(s.drop_last()).push(s.last())
    } else {
        hidden_of(s.drop_last())
    }
}

/// How many cards of a hand are still hidden (the player's influence).
pub open spec fn count_hidden(s: Seq<Card>) -> nat {
    hidden_of(s).len()
}

/// `i` is the first hidden card of the hand.
pub open spec fn is_first_hidden(s: Seq<Card>, i: int) -> bool {
    &&& 0 <= i < s.len()
    &&& !s[i].visible
    &&& forall|j: int| 0 <= j < i ==> s[j].visible
}

/// A hidden card of the hand whose role has the given name.
pub open spec fn hidden_named(c: Card, name: Seq<char>) -> bool {
    !c.visible && role_name_spec(c.role) == name
}

/// `i` is the first hidden card of the hand whose role has the given name.
pub open spec fn is_first_hidden_named(s: Seq<Card>, name: Seq<char>, i: int) -> bool {
    &&& 0 <= i < s.len()
    &&& hidden_named(s[i], name)
    &&& forall|j: int| 0 <= j < i ==> !hidden_named(#[trigger] s[j], name)
}

/// The hand holds a hidden card whose role has the given name.
pub open spec fn has_hidden_named(s: Seq<Card>, name: Seq<char>) -> bool {
    exists|i: int| #[trigger] is_first_hidden_named(s, name, i)
}

/// The hand with card `i` turned face up.
pub open spec fn reveal_at(s: Seq<Card>, i: int) -> Seq<Card> {
    s.update(i, Card { role: s[i].role, visible: true })
}

/// The hand after an exchange: each hidden card is replaced, in hand order,
/// by the next selected card; revealed cards stay.
pub open spec fn replace_hidden(s: Seq<Card>, selected: Seq<Card>) -> Seq<Card> {
    Seq::new(
        s.len(),
        |j: int| if s[j].visible { s[j] } else { selected[count_hidden(s.take(j)) as int] },
    )
}

/// How many copies of card `c` the list holds.
pub open spec fn count_of(s: Seq<Card>, c: Card) -> nat
    decreases s.len(),
{
    if s.len() == 0 {
        0
    } else {
        count_of(s.drop_last(), c) + (if s.last() == c { 1nat } else { 0nat })
    }
}

/// The exchange cards that were not selected, hidden, in order: these go back
/// to the deck. Of the copies of a card, as many as were selected stay (the
/// first ones) and the others go back, so the cards returned are the
/// exchange cards less the selected ones.
pub open spec fn returned_cards(exchange: Seq<Card>, selected: Seq<Card>) -> Seq<Card>
    decreases exchange.len(),
{
    if exchange.len() == 0 {
        Seq::empty()
    } else if count_of(exchange, exchange.last()) > count_of(selected, exchange.last()) {
        returned_cards(exchange.drop_last(), selected).push(hidden_card(exchange.last().role))
    } else {
        returned_cards(exchange.drop_last(), selected)
    }
}

pub proof fn lemma_count_of_step(s: Seq<Card>, i: int, c: Card)
    requires
        0 <= i < s.len(),
    ensures
        count_of(s.take(i + 1), c) == count_of(s.take(i), c) + (if s[i] == c { 1int } else { 0int }),
{
    assert(s.take(i + 1).drop_last() =~= s.take(i));
}

/// Every selected card is one of the exchange cards.
pub open spec fn all_offered(exchange: Seq<Card>, selected: Seq<Card>) -> bool {
    forall|i: int| 0 <= i < selected.len() ==> exchange.contains(#[trigger] selected[i])
}

pub proof fn lemma_count_hidden_step(s: Seq<Card>, i: int)
    requires
        0 <= i < s.len(),
    ensures
        count_hidden(s.take(i + 1)) == count_hidden(s.take(i)) + (if s[i].visible { 0int } else { 1int }),
{
    assert(s.take(i + 1).drop_last() =~= s.take(i));
}

pub proof fn lemma_count_hidden_mono(s: Seq<Card>, i: int, k: int)
    requires
        0 <= i <= k <= s.len(),
    ensures
        count_hidden(s.take(i)) <= count_hidden(s.take(k)),
    decreases k - i,
{
    if i < k {
        lemma_count_hidden_mono(s, i, k - 1);
        lemma_count_hidden_step(s, k - 1);
    }
}

/// Counts the hidden cards of a hand.
pub fn hidden_count(cards: &Vec<Card>) -> (n: usize)
    ensures
        n == count_hidden(cards@),
{
    let mut n: usize = 0;
    let mut i: usize = 0;
    while i < cards.len()
        invariant
            i <= cards@.len(),
            n == count_hidden(cards@.take(i as int)),
            n <= i,
        decreases cards@.len() - i,
    {
        proof {
            lemma_count_hidden_step(cards@, i as int);
        }
        if !cards[i].visible {
            n = n + 1;
        }
        i = i + 1;
    }
    assert(cards@.take(cards@.len() as int) =~= cards@);
    n
}

fn contains_card(v: &Vec<Card>, c: &Card) -> (r: bool)
    ensures
        r == v@.contains(*c),
{
    let mut i: usize = 0;
    while i < v.len()
        invariant
            i <= v@.len(),
            forall|j: int| 0 <= j < i ==> v@[j] != *c,
        decreases v@.len() - i,
    {
        if v[i] == *c {
            return true;
        }
        i = i + 1;
    }
    false
}

/// How many copies of card `c` the first `upto` cards of the list hold.
pub fn count_copies(v: &[Card], upto: usize, c: &Card) -> (n: usize)
    requires
        upto <= v@.len(),
    ensures
        n == count_of(v@.take(upto as int), *c),
{
    let mut n: usize = 0;
    let mut i: usize = 0;
    while i < upto
        invariant
            i <= upto <= v@.len(),
            n == count_of(v@.take(i as int), *c),
            n <= i,
        decreases upto - i,
    {
        proof { lemma_count_of_step(v@, i as int, *c); }
        if v[i] == *c {
            n = n + 1;
        }
        i = i + 1;
    }
    n
}

impl Player {
    pub fn new(uuid: &u128, name: &str) -> (p: Self)
        ensures
            p.uuid == *uuid,
            p.name@ == name@,
            p.is_alive,
            p.cards@ == Seq::<Card>::empty(),
            p.coins == 2,
            p.exchange_cards@ == Seq::<Card>::empty(),
    {
        Self {
            uuid: *uuid,
            name: name.to_owned(),
            is_alive: true,
            cards: Vec::new(),
            coins: 2,
            exchange_cards: Vec::new(),
        }
    }

    /// Turns one hidden card face up. With one hidden card left, that card is
    /// lost and the player is out; with two, the player names the role to
    /// give up.
    pub fn lose_influence(&mut self, role_name: Option<&str>) -> (r: Result<bool, &'static str>)
        ensures
            ({
                let h = count_hidden(old(self).cards@);
                &&& h == 0 ==> r is Err && r->Err_0@ == "Cannot lose influence"@
                    && *final(self) == *old(self)
                &&& h == 1 ==> r == Ok::<bool, &'static str>(true)
                    && (exists|i: int| is_first_hidden(old(self).cards@, i)
                        && final(self).cards@ == reveal_at(old(self).cards@, i))
                    && !final(self).is_alive
                    && final(self).uuid == old(self).uuid && final(self).name == old(self).name
                    && final(self).coins == old(self).coins
                    && final(self).exchange_cards == old(self).exchange_cards
                &&& h == 2 ==> match role_name {
                    None => r is Err && r->Err_0@ == "Must choose which card to lose"@
                        && *final(self) == *old(self),
                    Some(name) => if has_hidden_named(old(self).cards@, name@) {
                        r == Ok::<bool, &'static str>(true)
                            && (exists|i: int| is_first_hidden_named(old(self).cards@, name@, i)
                                && final(self).cards@ == reveal_at(old(self).cards@, i))
                            && final(self).is_alive == old(self).is_alive
                            && final(self).uuid == old(self).uuid && final(self).name == old(self).name
                            && final(self).coins == old(self).coins
                            && final(self).exchange_cards == old(self).exchange_cards
                    } else {
                        r is Err && r->Err_0@ == "You don't have that card"@
                            && *final(self) == *old(self)
                    },
                }
                &&& h > 2 ==> r is Err && r->Err_0@ == "Invalid number of cards"@
                    && *final(self) == *old(self)
            }),
    {
        let hidden = hidden_count(&self.cards);
        if hidden == 0 {
            Err("Cannot lose influence")
        } else if hidden == 1 {
            let mut i: usize = 0;
            while i < self.cards.len() && self.cards[i].visible
                invariant
                    i <= self.cards@.len(),
                    self.cards@ == old(self).cards@,
                    count_hidden(old(self).cards@) == 1,
                    forall|j: int| 0 <= j < i ==> self.cards@[j].visible,
                decreases self.cards@.len() - i,
            {
                i = i + 1;
            }
            if i == self.cards.len() {
                proof {
                    assert(hidden_of(self.cards@.take(self.cards@.len() as int)).len() == 0) by {
                        lemma_none_hidden(self.cards@, self.cards@.len() as int);
                    }
                    assert(self.cards@.take(self.cards@.len() as int) =~= self.cards@);
                }
                return Err("Cannot lose influence");
            }
            let role = self.cards[i].role;
            self.cards.set(i, Card { role, visible: true });
            self.is_alive = false;
            assert(is_first_hidden(old(self).cards@, i as int));
            assert(self.cards@ =~= reveal_at(old(self).cards@, i as int));
            Ok(true)
        } else if hidden == 2 {
            match role_name {
                Some(name) => {
                    let mut i: usize = 0;
                    let mut found = false;
                    while i < self.cards.len() && !found
                        invariant
                            i <= self.cards@.len(),
                            self.cards@ == old(self).cards@,
                            found ==> i < self.cards@.len() && hidden_named(self.cards@[i as int], name@),
                            forall|j: int| 0 <= j < i ==> !hidden_named(#[trigger] self.cards@[j], name@),
                        decreases self.cards@.len() - i, if found { 0int } else { 1int },
                    {
                        let c = self.cards[i];
                        if !c.visible && str_eq(crate::card::role_name(c.role), name) {
                            found = true;
                        } else {
                            i = i + 1;
                        }
                    }
                    if !found {
                        assert(!has_hidden_named(old(self).cards@, name@));
                        Err("You don't have that card")
                    } else {
                        let role = self.cards[i].role;
                        assert(is_first_hidden_named(old(self).cards@, name@, i as int));
                        self.cards.set(i, Card { role, visible: true });
                        assert(self.cards@ =~= reveal_at(old(self).cards@, i as int));
                        Ok(true)
                    }
                },
                None => Err("Must choose which card to lose"),
            }
        } else {
            Err("Invalid number of cards")
        }
    }
}

pub proof fn lemma_returned_step(ex: Seq<Card>, sel: Seq<Card>, k: int)
    requires
        0 <= k < ex.len(),
    ensures
        returned_cards(ex.take(k + 1), sel) == (if count_of(ex.take(k + 1), ex[k]) > count_of(sel, ex[k]) {
            returned_cards(ex.take(k), sel).push(hidden_card(ex[k].role))
        } else {
            returned_cards(ex.take(k), sel)
        }),
{
    assert(ex.take(k + 1).drop_last() =~= ex.take(k));
}

pub proof fn lemma_returned_mono(ex: Seq<Card>, sel: Seq<Card>, i: int, k: int)
    requires
        0 <= i <= k <= ex.len(),
    ensures
        returned_cards(ex.take(i), sel).len() <= returned_cards(ex.take(k), sel).len(),
    decreases k - i,
{
    if i < k {
        lemma_returned_mono(ex, sel, i, k - 1);
        lemma_returned_step(ex, sel, k - 1);
    }
}

pub proof fn lemma_hidden_of_step(s: Seq<Card>, i: int)
    requires
        0 <= i < s.len(),
    ensures
        hidden_of(s.take(i + 1)) == (if s[i].visible {
            hidden_of(s.take(i))
        } else {
            hidden_of(s.take(i)).push(s[i])
        }),
{
    assert(s.take(i + 1).drop_last() =~= s.take(i));
}

/// A copy of a list of cards.
pub fn copy_cards(v: &Vec<Card>) -> (r: Vec<Card>)
    ensures
        r@ == v@,
{
    let mut r: Vec<Card> = Vec::new();
    let mut i: usize = 0;
    while i < v.len()
        invariant
            i <= v@.len(),
            r@ == v@.take(i as int),
        decreases v@.len() - i,
    {
        r.push(v[i]);
        assert(v@.take(i as int).push(v@[i as int]) =~= v@.take(i + 1));
        i = i + 1;
    }
    assert(v@.take(v@.len() as int) =~= v@);
    r
}

impl Player {
    /// Starts an exchange: the exchange cards become the player's hidden cards
    /// followed by the top two cards of the deck, and a copy of them is
    /// returned.
    pub fn exchange_draw(&mut self, game: &mut Game) -> (r: Result<Vec<Card>, &'static str>)
        requires
            old(game).deck.cards@.len() >= 2,
        ensures
            ({
                let d = old(game).deck.cards@;
                let n = d.len() as int;
                &&& final(self).exchange_cards@ == hidden_of(old(self).cards@).push(
                    hidden_card(d[n - 1].role),
                ).push(hidden_card(d[n - 2].role))
                &&& final(game).deck.cards@ == d.subrange(0, n - 2)
                &&& *final(game) == (Game { deck: final(game).deck, ..*old(game) })
                &&& *final(self) == (Player { exchange_cards: final(self).exchange_cards, ..*old(self) })
                &&& r is Ok && r->Ok_0@ == final(self).exchange_cards@
            }),
    {
        self.exchange_cards.clear();
        let mut i: usize = 0;
        while i < self.cards.len()
            invariant
                i <= self.cards@.len(),
                self.cards@ == old(self).cards@,
                self.exchange_cards@ == hidden_of(old(self).cards@.take(i as int)),
                *self == (Player { exchange_cards: self.exchange_cards, ..*old(self) }),
                *game == *old(game),
            decreases self.cards@.len() - i,
        {
            proof {
                lemma_hidden_of_step(old(self).cards@, i as int);
            }
            if !self.cards[i].visible {
                let c = self.cards[i];
                self.exchange_cards.push(c);
            }
            i = i + 1;
        }
        assert(old(self).cards@.take(old(self).cards@.len() as int) =~= old(self).cards@);
        let first = game.deck.draw();
        match first {
            Some(c) => self.exchange_cards.push(c),
            None => {},
        }
        let second = game.deck.draw();
        match second {
            Some(c) => self.exchange_cards.push(c),
            None => {},
        }
        assert(game.deck.cards@ =~= old(game).deck.cards@.subrange(0, old(game).deck.cards@.len() - 2));
        Ok(copy_cards(&self.exchange_cards))
    }

    /// Completes an exchange: the selected cards, one per hidden card and each
    /// among the exchange cards, replace the hidden cards in hand order; the
    /// exchange cards that were not selected go back to the deck.
    pub fn exchange_confirm(&mut self, game: &mut Game, cards: &[Card]) -> (r: Result<bool, &'static str>)
        requires
            cards@.len() == count_hidden(old(self).cards@) && all_offered(old(self).exchange_cards@, cards@)
                ==> old(game).deck.cards@.len() + returned_cards(old(self).exchange_cards@, cards@).len()
                <= TOTAL_CARDS,
        ensures
            cards@.len() != count_hidden(old(self).cards@) ==> r is Err
                && r->Err_0@ == "Invalid number of cards selected"@
                && *final(self) == *old(self) && *final(game) == *old(game),
            cards@.len() == count_hidden(old(self).cards@) && !all_offered(old(self).exchange_cards@, cards@)
                ==> r is Err && r->Err_0@ == "Invalid card"@
                && *final(self) == *old(self) && *final(game) == *old(game),
            cards@.len() == count_hidden(old(self).cards@) && all_offered(old(self).exchange_cards@, cards@)
                ==> {
                &&& r == Ok::<bool, &'static str>(true)
                &&& final(self).cards@ == replace_hidden(old(self).cards@, cards@)
                &&& final(self).exchange_cards@ == Seq::<Card>::empty()
                &&& *final(self) == (Player {
                    cards: final(self).cards,
                    exchange_cards: final(self).exchange_cards,
                    ..*old(self)
                })
                &&& final(game).deck.cards@ == old(game).deck.cards@ + returned_cards(
                    old(self).exchange_cards@,
                    cards@,
                )
                &&& *final(game) == (Game { deck: final(game).deck, ..*old(game) })
            },
    {
        let hidden = hidden_count(&self.cards);
        if cards.len() != hidden {
            return Err("Invalid number of cards selected");
        }
        let mut k: usize = 0;
        while k < cards.len()
            invariant
                k <= cards@.len(),
                self.exchange_cards@ == old(self).exchange_cards@,
                *self == *old(self),
                *game == *old(game),
                cards@.len() == count_hidden(old(self).cards@),
                forall|j: int| 0 <= j < k ==> self.exchange_cards@.contains(#[trigger] cards@[j]),
            decreases cards@.len() - k,
        {
            if !contains_card(&self.exchange_cards, &cards[k]) {
                return Err("Invalid card");
            }
            k = k + 1;
        }
        let ghost old_cards = self.cards@;
        let mut card_idx: usize = 0;
        let mut i: usize = 0;
        while i < self.cards.len()
            invariant
                i <= self.cards@.len(),
                old_cards == old(self).cards@,
                self.cards@.len() == old_cards.len(),
                *self == (Player { cards: self.cards, ..*old(self) }),
                *game == *old(game),
                all_offered(old(self).exchange_cards@, cards@),
                cards@.len() == count_hidden(old_cards),
                card_idx == count_hidden(old_cards.take(i as int)),
                forall|j: int| 0 <= j < i ==> #[trigger] self.cards@[j] == replace_hidden(old_cards, cards@)[j],
                forall|j: int| i <= j < self.cards@.len() ==> #[trigger] self.cards@[j] == old_cards[j],
            decreases self.cards@.len() - i,
        {
            proof {
                lemma_count_hidden_step(old_cards, i as int);
                lemma_count_hidden_mono(old_cards, i + 1, old_cards.len() as int);
                assert(old_cards.take(old_cards.len() as int) =~= old_cards);
            }
            if !self.cards[i].visible {
                self.cards.set(i, cards[card_idx]);
                card_idx = card_idx + 1;
            }
            i = i + 1;
        }
        assert(self.cards@ =~= replace_hidden(old_cards, cards@));
        assert(all_offered(old(self).exchange_cards@, cards@));
        let ghost ex = self.exchange_cards@;
        let mut m: usize = 0;
        while m < self.exchange_cards.len()
            invariant
                m <= ex.len(),
                ex == old(self).exchange_cards@,
                self.exchange_cards@ == ex,
                *self == (Player { cards: self.cards, ..*old(self) }),
                self.cards@ == replace_hidden(old(self).cards@, cards@),
                game.deck.cards@ == old(game).deck.cards@ + returned_cards(ex.take(m as int), cards@),
                old(game).deck.cards@.len() + returned_cards(ex, cards@).len() <= TOTAL_CARDS,
                *game == (Game { deck: game.deck, ..*old(game) }),
            decreases ex.len() - m,
        {
            proof {
                lemma_returned_step(ex, cards@, m as int);
                lemma_returned_mono(ex, cards@, m + 1, ex.len() as int);
                assert(ex.take(ex.len() as int) =~= ex);
            }
            let c = self.exchange_cards[m];
            let offered = count_copies(self.exchange_cards.as_slice(), m + 1, &c);
            let kept = count_copies(cards, cards.len(), &c);
            proof { assert(cards@.take(cards@.len() as int) =~= cards@); }
            if offered > kept {
                let res = game.deck.return_card(c);
                match res {
                    Ok(_) => {},
                    Err(_) => {},
                }
            }
            assert(game.deck.cards@ =~= old(game).deck.cards@ + returned_cards(ex.take(m + 1), cards@));
            m = m + 1;
        }
        assert(ex.take(ex.len() as int) =~= ex);
        self.exchange_cards.clear();
        Ok(true)
    }
}

pub proof fn lemma_none_hidden(s: Seq<Card>, i: int)
    requires
        0 <= i <= s.len(),
        forall|j: int| 0 <= j < i ==> s[j].visible,
    ensures
        hidden_of(s.take(i)).len() == 0,
    decreases i,
{
    if i > 0 {
        lemma_none_hidden(s, i - 1);
        lemma_count_hidden_step(s, i - 1);
    }
}

} // verus!
