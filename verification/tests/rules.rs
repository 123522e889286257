use simple_solitaire::board::{
    AcceptLogic, Availability, EmptyAcceptLogic, PileBuilder, RankOrdering, SuitOrdering,
};
use simple_solitaire::cards::{Card, Rank, Suit};

fn card(suit: Suit, rank: Rank) -> Card {
    Card { suit, rank }
}

#[test]
fn decrementing_rank_ordering() {
    let mut b = PileBuilder::new();
    b.with_rank_ordering(RankOrdering::Decrementing);
    let logic = b.build_logic();
    let king = card(Suit::Spades, Rank::King);
    let queen = card(Suit::Hearts, Rank::Queen);
    let ace = card(Suit::Clubs, Rank::Ace);
    // King(13) over Queen(12) decrements.
    assert!(logic.are_ranks_ordered(&king, &queen));
    // Ace(1) over King(13): saturating subtraction yields 0, not 1.
    assert!(!logic.are_ranks_ordered(&ace, &king));
}

#[test]
fn incrementing_rank_ordering() {
    let mut b = PileBuilder::new();
    b.with_rank_ordering(RankOrdering::Incrementing);
    let logic = b.build_logic();
    let ace = card(Suit::Spades, Rank::Ace);
    let two = card(Suit::Spades, Rank::Value(2));
    assert!(logic.are_ranks_ordered(&ace, &two));
    assert!(!logic.are_ranks_ordered(&two, &ace));
    // King under Ace does not wrap around.
    let king = card(Suit::Spades, Rank::King);
    assert!(!logic.are_ranks_ordered(&king, &ace));
}

#[test]
fn suit_orderings() {
    let s9 = card(Suit::Spades, Rank::Value(9));
    let c8 = card(Suit::Clubs, Rank::Value(8));
    let h8 = card(Suit::Hearts, Rank::Value(8));
    let s8 = card(Suit::Spades, Rank::Value(8));

    let mut b = PileBuilder::new();
    b.with_suit_ordering(SuitOrdering::Same);
    let same = b.build_logic();
    assert!(same.are_suits_ordered(&s9, &s8));
    assert!(!same.are_suits_ordered(&s9, &c8));

    let mut b = PileBuilder::new();
    b.with_suit_ordering(SuitOrdering::SameColor);
    let same_color = b.build_logic();
    assert!(same_color.are_suits_ordered(&s9, &c8));
    assert!(!same_color.are_suits_ordered(&s9, &h8));

    let mut b = PileBuilder::new();
    b.with_suit_ordering(SuitOrdering::AlternatingColor);
    let alternating = b.build_logic();
    assert!(alternating.are_suits_ordered(&s9, &h8));
    assert!(!alternating.are_suits_ordered(&s9, &c8));

    let defaults = PileBuilder::new().build_logic();
    assert!(defaults.are_suits_ordered(&s9, &c8));
    assert!(defaults.are_ranks_ordered(&c8, &s9));
}

#[test]
fn ordered_availability_iff_every_adjacent_pair_ordered() {
    let mut b = PileBuilder::new();
    b.with_availability(Availability::Ordered)
        .with_suit_ordering(SuitOrdering::AlternatingColor)
        .with_rank_ordering(RankOrdering::Decrementing);
    let logic = b.build_logic();

    let good = vec![
        card(Suit::Spades, Rank::Value(9)),
        card(Suit::Hearts, Rank::Value(8)),
        card(Suit::Clubs, Rank::Value(7)),
    ];
    assert!(logic.is_sequence_available(&good[..]));

    // Breaking one adjacent pair (same color) breaks availability.
    let bad_suit = vec![
        card(Suit::Spades, Rank::Value(9)),
        card(Suit::Clubs, Rank::Value(8)),
        card(Suit::Hearts, Rank::Value(7)),
    ];
    assert!(!logic.is_sequence_available(&bad_suit[..]));

    // Breaking one adjacent pair (rank gap) breaks availability.
    let bad_rank = vec![
        card(Suit::Spades, Rank::Value(9)),
        card(Suit::Hearts, Rank::Value(8)),
        card(Suit::Diamonds, Rank::Value(6)),
    ];
    assert!(!logic.is_sequence_available(&bad_rank[..]));

    // A sub-run of length 1 is trivially ordered.
    assert!(logic.is_sequence_available(&good[2..]));
}

#[test]
fn top_availability_iff_single_final_card() {
    let mut b = PileBuilder::new();
    b.with_availability(Availability::Top);
    let logic = b.build_logic();
    let cards = vec![
        card(Suit::Spades, Rank::Value(9)),
        card(Suit::Hearts, Rank::Value(8)),
        card(Suit::Clubs, Rank::Value(7)),
    ];
    // Only the sub-run that is exactly the final single card is liftable.
    assert!(logic.is_sequence_available(&cards[2..]));
    assert!(!logic.is_sequence_available(&cards[1..]));
    assert!(!logic.is_sequence_available(&cards[0..]));
}

#[test]
fn all_availability_accepts_any_start() {
    let logic = PileBuilder::new().build_logic();
    let cards = vec![
        card(Suit::Spades, Rank::Value(9)),
        card(Suit::Spades, Rank::Value(2)),
    ];
    assert!(logic.is_sequence_available(&cards[0..]));
    assert!(logic.is_sequence_available(&cards[1..]));
}

#[test]
fn empty_pile_only_ace_accepts_exactly_aces() {
    let mut b = PileBuilder::new();
    b.with_empty_accept(EmptyAcceptLogic::Only(Rank::Ace));
    let logic = b.build_logic();
    let empty: Vec<Card> = Vec::new();
    assert!(logic.can_accept(&empty[..], &card(Suit::Spades, Rank::Ace)));
    assert!(logic.can_accept(&empty[..], &card(Suit::Hearts, Rank::Ace)));
    assert!(!logic.can_accept(&empty[..], &card(Suit::Spades, Rank::Value(2))));
    assert!(!logic.can_accept(&empty[..], &card(Suit::Spades, Rank::Jack)));
    assert!(!logic.can_accept(&empty[..], &card(Suit::Spades, Rank::Queen)));
    assert!(!logic.can_accept(&empty[..], &card(Suit::Spades, Rank::King)));
}

#[test]
fn count_one_pile_rejects_second_card() {
    let mut b = PileBuilder::new();
    b.with_accept(AcceptLogic::Count(1))
        .with_empty_accept(EmptyAcceptLogic::Only(Rank::Ace));
    let logic = b.build_logic();
    let one = vec![card(Suit::Spades, Rank::Ace)];
    // Occupancy 1 is not below the count bound of 1, whatever the card.
    assert!(!logic.can_accept(&one[..], &card(Suit::Hearts, Rank::Ace)));
    assert!(!logic.can_accept(&one[..], &card(Suit::Hearts, Rank::Value(5))));
}

#[test]
fn never_accept_rejects_everything() {
    let mut b = PileBuilder::new();
    b.with_accept(AcceptLogic::Never).with_empty_accept(EmptyAcceptLogic::Never);
    let logic = b.build_logic();
    let empty: Vec<Card> = Vec::new();
    let one = vec![card(Suit::Spades, Rank::Ace)];
    assert!(!logic.can_accept(&empty[..], &card(Suit::Spades, Rank::Ace)));
    assert!(!logic.can_accept(&one[..], &card(Suit::Hearts, Rank::Value(2))));
}

#[test]
fn ordered_accept_checks_top_against_incoming() {
    let mut b = PileBuilder::new();
    b.with_accept(AcceptLogic::Ordered)
        .with_suit_ordering(SuitOrdering::Same)
        .with_rank_ordering(RankOrdering::Incrementing);
    let logic = b.build_logic();
    let pile = vec![card(Suit::Spades, Rank::Ace)];
    assert!(logic.can_accept(&pile[..], &card(Suit::Spades, Rank::Value(2))));
    assert!(!logic.can_accept(&pile[..], &card(Suit::Hearts, Rank::Value(2))));
    assert!(!logic.can_accept(&pile[..], &card(Suit::Spades, Rank::Value(3))));
}

#[test]
fn builder_defaults_are_permissive() {
    let logic = PileBuilder::new().build_logic();
    assert!(matches!(logic.suit, SuitOrdering::Any));
    assert!(matches!(logic.rank, RankOrdering::Any));
    assert!(matches!(logic.availability, Availability::All));
    assert!(matches!(logic.accept, AcceptLogic::Any));
    assert!(matches!(logic.empty_accept, EmptyAcceptLogic::Any));
}
