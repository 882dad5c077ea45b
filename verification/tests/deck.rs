use coup::card::{Card, Role};
use coup::deck::{Deck, TOTAL_CARDS};

#[test]
fn check_deck_initialisation() {
    let deck = Deck::new();
    let expected = vec![
        Card::new(Role::Assassin),
        Card::new(Role::Assassin),
        Card::new(Role::Assassin),
        Card::new(Role::Contessa),
        Card::new(Role::Contessa),
        Card::new(Role::Contessa),
        Card::new(Role::Captain),
        Card::new(Role::Captain),
        Card::new(Role::Captain),
        Card::new(Role::Duke),
        Card::new(Role::Duke),
        Card::new(Role::Duke),
        Card::new(Role::Ambassador),
        Card::new(Role::Ambassador),
        Card::new(Role::Ambassador),
    ];
    assert_eq!(deck.cards, expected);
    assert_eq!(deck.cards.len(), TOTAL_CARDS);
}

#[test]
fn check_draw_card() {
    let mut deck = Deck::new();
    let card = deck.draw();
    assert_eq!(card, Some(Card::new(Role::Ambassador)));
    assert_eq!(deck.cards.len(), TOTAL_CARDS - 1);

    deck.cards.last_mut().unwrap().visible = true;
    let card = deck.draw();
    assert_eq!(card, Some(Card::new(Role::Ambassador)));
    assert_eq!(card.unwrap().visible, false);

    deck.cards.clear();
    let card = deck.draw();
    assert_eq!(card, None);
}

#[test]
fn check_return_card() {
    let mut deck = Deck::new();
    let result = deck.return_card(Card::new(Role::Ambassador));
    assert_eq!(result, Err("Deck is full"));
    assert_eq!(deck.cards.len(), TOTAL_CARDS);

    _ = deck.draw();
    let result = deck.return_card(Card::new(Role::Ambassador));
    assert_eq!(result, Ok(true));
    assert_eq!(deck.cards.len(), TOTAL_CARDS);
}

#[test]
fn shuffle_keeps_the_cards() {
    let mut deck = Deck::new();
    deck.shuffle();
    assert_eq!(deck.cards.len(), TOTAL_CARDS);
    for role in [Role::Assassin, Role::Contessa, Role::Captain, Role::Duke, Role::Ambassador] {
        assert_eq!(deck.cards.iter().filter(|c| c.role == role).count(), 3);
    }
    assert!(deck.cards.iter().all(|c| !c.visible));
}

#[test]
fn returned_card_is_hidden_and_on_top() {
    let mut deck = Deck::new();
    let _ = deck.draw();
    let mut card = Card::new(Role::Duke);
    card.visible = true;
    assert_eq!(deck.return_card(card), Ok(true));
    assert_eq!(deck.draw(), Some(Card::new(Role::Duke)));
}
