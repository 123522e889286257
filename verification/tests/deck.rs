use simple_solitaire::cards::{Card, CardColor, Deck, Rank, Suit};

fn suit_index(suit: &Suit) -> u8 {
    match suit {
        Suit::Spades => 0,
        Suit::Diamonds => 1,
        Suit::Clubs => 2,
        Suit::Hearts => 3,
    }
}

fn card_key(card: &Card) -> u8 {
    suit_index(&card.suit) * 13 + card.get_rank_value() - 1
}

fn deal_all(deck: &mut Deck) -> Vec<Card> {
    let mut cards = Vec::new();
    while let Some(card) = deck.deal_card() {
        cards.push(card);
    }
    cards
}

#[test]
fn it_works() {
    let result = simple_solitaire::add(2, 2);
    assert_eq!(result, 4);
}

#[test]
fn standard_deck_has_52_distinct_cards() {
    let mut deck = Deck::single_deck();
    let cards = deal_all(&mut deck);
    assert_eq!(cards.len(), 52);
    for i in 0..cards.len() {
        for j in 0..cards.len() {
            if i != j {
                assert!(cards[i] != cards[j]);
            }
        }
    }
    // 13 ranks of each of the 4 suits.
    for s in 0..4u8 {
        let count = cards.iter().filter(|c| suit_index(&c.suit) == s).count();
        assert_eq!(count, 13);
    }
    for c in &cards {
        let v = c.get_rank_value();
        assert!((1..=13).contains(&v));
    }
}

#[test]
fn empty_deck_deals_nothing() {
    let mut deck = Deck::default();
    assert!(deck.deal_card().is_none());
}

#[test]
fn deal_returns_top_card_first() {
    let mut deck = Deck::single_deck();
    // The deck is built suit-major: the last card pushed is the King of
    // Hearts, and deal removes from the end.
    let first = deck.deal_card().unwrap();
    assert_eq!(first, Card { suit: Suit::Hearts, rank: Rank::King });
}

#[test]
fn seeded_shuffle_preserves_card_multiset() {
    let mut reference = Deck::single_deck();
    let mut keys_before: Vec<u8> = deal_all(&mut reference).iter().map(card_key).collect();
    keys_before.sort();

    let mut deck = Deck::single_deck();
    deck.shuffle_seeded(42);
    let shuffled = deal_all(&mut deck);
    let mut keys_after: Vec<u8> = shuffled.iter().map(card_key).collect();
    keys_after.sort();

    assert_eq!(keys_before, keys_after);
}

#[test]
fn seeded_shuffle_changes_order() {
    let mut reference = Deck::single_deck();
    let plain = deal_all(&mut reference);
    let mut deck = Deck::single_deck();
    deck.shuffle_seeded(42);
    let shuffled = deal_all(&mut deck);
    assert_eq!(shuffled.len(), plain.len());
    // A fixed seed gives a reproducible order that differs from the
    // build order; this would fail if shuffling returned its input.
    assert!(shuffled != plain);
}

#[test]
fn thread_rng_shuffle_preserves_card_multiset() {
    let mut deck = Deck::single_deck();
    deck.shuffle();
    let mut keys: Vec<u8> = deal_all(&mut deck).iter().map(card_key).collect();
    keys.sort();
    let expected: Vec<u8> = (0..52).collect();
    assert_eq!(keys, expected);
}

#[test]
fn suit_order_and_colors() {
    let suits = Suit::get_ordered();
    assert_eq!(suits.len(), 4);
    assert!(suits[0] == Suit::Spades);
    assert!(suits[1] == Suit::Diamonds);
    assert!(suits[2] == Suit::Clubs);
    assert!(suits[3] == Suit::Hearts);
    let red = Card { suit: Suit::Hearts, rank: Rank::Ace };
    let black = Card { suit: Suit::Spades, rank: Rank::Ace };
    assert!(red.get_color() == CardColor::Red);
    assert!(black.get_color() == CardColor::Black);
}

#[test]
fn rank_values() {
    let s = Suit::Clubs;
    assert_eq!(Card { suit: s, rank: Rank::Ace }.get_rank_value(), 1);
    assert_eq!(Card { suit: s, rank: Rank::Value(7) }.get_rank_value(), 7);
    assert_eq!(Card { suit: s, rank: Rank::Jack }.get_rank_value(), 11);
    assert_eq!(Card { suit: s, rank: Rank::Queen }.get_rank_value(), 12);
    assert_eq!(Card { suit: s, rank: Rank::King }.get_rank_value(), 13);
}
