//! Card values, ranks, suits, and the deck.
//!
//! A standard deck is built suit-major, rank-minor: all thirteen ranks of
//! one suit, then the next suit. Shuffling delegates to the `rand` crate
//! and is specified only up to multiset preservation; a seeded variant
//! lets callers inject a deterministic random source.
use vstd::prelude::*;

verus! {

/// The color of a card, derived from its suit.
#[derive(PartialEq, Eq, Structural, Copy, Clone, Debug)]
pub enum CardColor {
    Red,
    Black,
}

/// One of the four suits.
#[derive(PartialEq, Eq, Structural, Copy, Clone, Debug)]
pub enum Suit {
    Spades,
    Diamonds,
    Clubs,
    Hearts,
}

/// A card's rank. `Value` carries the pip values 2 through 10; the other
/// ranks have their own variants.
#[derive(PartialEq, Eq, Structural, Copy, Clone, Debug)]
pub enum Rank {
    Ace,
    Value(u8),
    Jack,
    Queen,
    King,
}

/// An immutable playing-card value.
#[derive(PartialEq, Eq, Structural, Copy, Clone, Debug)]
pub struct Card {
    pub suit: Suit,
    pub rank: Rank,
}

/// The color a suit maps to: Hearts and Diamonds are red, the rest black.
pub open spec fn color_of(suit: Suit) -> CardColor {
    match suit {
        Suit::Hearts | Suit::Diamonds => CardColor::Red,
        Suit::Clubs | Suit::Spades => CardColor::Black,
    }
}

/// The numeric value of a rank: Ace is 1, Jack 11, Queen 12, King 13.
pub open spec fn rank_value_of(rank: Rank) -> u8 {
    match rank {
        Rank::Ace => 1,
        Rank::Value(v) => v,
        Rank::Jack => 11,
        Rank::Queen => 12,
        Rank::King => 13,
    }
}

/// The suit in position `i` of the deck-building order.
pub open spec fn suit_of_index(i: int) -> Suit {
    if i == 0 {
        Suit::Spades
    } else if i == 1 {
        Suit::Diamonds
    } else if i == 2 {
        Suit::Clubs
    } else {
        Suit::Hearts
    }
}

/// The position of a suit in the deck-building order.
pub open spec fn index_of_suit(suit: Suit) -> int {
    match suit {
        Suit::Spades => 0,
        Suit::Diamonds => 1,
        Suit::Clubs => 2,
        Suit::Hearts => 3,
    }
}

/// The rank with numeric value `v`, for `v` between 1 and 13.
pub open spec fn rank_of_value(v: int) -> Rank {
    if v == 1 {
        Rank::Ace
    } else if v == 11 {
        Rank::Jack
    } else if v == 12 {
        Rank::Queen
    } else if v == 13 {
        Rank::King
    } else {
        Rank::Value(v as u8)
    }
}

/// Whether a rank is one of the thirteen standard ranks.
pub open spec fn rank_is_standard(rank: Rank) -> bool {
    match rank {
        Rank::Value(v) => 2 <= v <= 10,
        _ => true,
    }
}

/// The card at position `i` of a freshly built deck (suit-major,
/// rank-minor order).
pub open spec fn standard_card(i: int) -> Card {
    Card { suit: suit_of_index(i / 13), rank: rank_of_value(i % 13 + 1) }
}

/// The 52 cards of a standard deck, in build order.
pub open spec fn standard_deck() -> Seq<Card> {
    Seq::new(52, |i: int| standard_card(i))
}

impl Suit {
    /// The four suits in deck-building order.
    pub fn get_ordered() -> (r: [Suit; 4])
        ensures
            r@.len() == 4,
            forall|i: int| 0 <= i < 4 ==> r@[i] == suit_of_index(i),
    {
        [Suit::Spades, Suit::Diamonds, Suit::Clubs, Suit::Hearts]
    }
}

impl Card {
    /// The card's color, derived from its suit.
    pub fn get_color(&self) -> (r: CardColor)
        ensures
            r == color_of(self.suit),
    {
        match self.suit {
            Suit::Hearts | Suit::Diamonds => CardColor::Red,
            Suit::Clubs | Suit::Spades => CardColor::Black,
        }
    }

    /// The card's numeric rank value (Ace 1 through King 13).
    pub fn get_rank_value(&self) -> (r: u8)
        ensures
            r == rank_value_of(self.rank),
    {
        match self.rank {
            Rank::Ace => 1,
            Rank::Value(v) => v,
            Rank::Jack => 11,
            Rank::Queen => 12,
            Rank::King => 13,
        }
    }
}

/// The suit at position `idx` of the deck-building order.
fn suit_from_index(idx: usize) -> (r: Suit)
    requires
        idx < 4,
    ensures
        r == suit_of_index(idx as int),
{
    if idx == 0 {
        Suit::Spades
    } else if idx == 1 {
        Suit::Diamonds
    } else if idx == 2 {
        Suit::Clubs
    } else {
        Suit::Hearts
    }
}

/// The rank with numeric value `v`.
fn rank_from_value(v: u8) -> (r: Rank)
    requires
        1 <= v <= 13,
    ensures
        r == rank_of_value(v as int),
{
    if v == 1 {
        Rank::Ace
    } else if v == 11 {
        Rank::Jack
    } else if v == 12 {
        Rank::Queen
    } else if v == 13 {
        Rank::King
    } else {
        Rank::Value(v)
    }
}

/// An ordered stack of cards to deal from; the top is the sequence end.
pub struct Deck {
    cards: Vec<Card>,
}

impl View for Deck {
    type V = Seq<Card>;

    closed spec fn view(&self) -> Seq<Card> {
        self.cards@
    }
}

/// Relies on rand's `SliceRandom::shuffle` for slices, driven by the
/// thread-local generator from `rand::thread_rng`: the shuffle is an
/// in-place Fisher-Yates that only swaps elements, so whatever the
/// randomness, the multiset of cards and the length are unchanged.
#[verifier::external_body]
fn shuffle_with_thread_rng(cards: &mut Vec<Card>)
    ensures
        final(cards)@.to_multiset() == old(cards)@.to_multiset(),
        final(cards)@.len() == old(cards)@.len(),
{
    rand::seq::SliceRandom::shuffle(cards.as_mut_slice(), &mut rand::thread_rng());
}

/// Relies on rand's `SliceRandom::shuffle` for slices, driven by a
/// generator seeded with `StdRng::seed_from_u64`: the shuffle is an
/// in-place Fisher-Yates that only swaps elements, so whatever the seed,
/// the multiset of cards and the length are unchanged.
#[verifier::external_body]
fn shuffle_with_seed(cards: &mut Vec<Card>, seed: u64)
    ensures
        final(cards)@.to_multiset() == old(cards)@.to_multiset(),
        final(cards)@.len() == old(cards)@.len(),
{
    let mut rng = <rand::rngs::StdRng as rand::SeedableRng>::seed_from_u64(seed);
    rand::seq::SliceRandom::shuffle(cards.as_mut_slice(), &mut rng);
}

impl Deck {
    /// An empty deck.
    pub fn default() -> (d: Deck)
        ensures
            d@ == Seq::<Card>::empty(),
    {
        let d = Deck { cards: Vec::new() };
        proof {
            assert(d@ =~= Seq::<Card>::empty());
        }
        d
    }

    /// A deck holding exactly the 52 standard cards, in build order.
    pub fn single_deck() -> (d: Deck)
        ensures
            d@ == standard_deck(),
    {
        let mut deck = Self::default();
        deck.add_deck();
        proof {
            assert(deck@ =~= standard_deck());
        }
        deck
    }

    /// Appends one full standard deck to this one.
    pub fn add_deck(&mut self)
        ensures
            final(self)@ == old(self)@ + standard_deck(),
    {
        let ghost orig = self.cards@;
        let mut i: usize = 0;
        while i < 52
            invariant
                i <= 52,
                self.cards@ == orig + standard_deck().subrange(0, i as int),
            decreases 52 - i,
        {
            let suit = suit_from_index(i / 13);
            let v: u8 = (i % 13 + 1) as u8;
            let rank = rank_from_value(v);
            self.cards.push(Card { suit, rank });
            proof {
                assert(Card { suit, rank } == standard_card(i as int));
                assert(standard_deck().subrange(0, i as int).push(standard_card(i as int))
                    =~= standard_deck().subrange(0, i + 1 as int));
            }
            i = i + 1;
        }
        proof {
            assert(standard_deck().subrange(0, 52) =~= standard_deck());
        }
    }

    /// Removes and returns the top card (the sequence end); `None` once
    /// the deck is empty.
    pub fn deal_card(&mut self) -> (c: Option<Card>)
        ensures
            old(self)@.len() > 0 ==> c == Some(old(self)@.last())
                && final(self)@ == old(self)@.drop_last(),
            old(self)@.len() == 0 ==> c == None::<Card> && final(self)@ == old(self)@,
    {
        let c = self.cards.pop();
        proof {
            if old(self)@.len() > 0 {
                assert(self.cards@ =~= old(self)@.drop_last());
            }
        }
        c
    }

    /// Shuffles the deck in place with the thread-local random source.
    /// The multiset of cards is preserved.
    pub fn shuffle(&mut self)
        ensures
            final(self)@.to_multiset() == old(self)@.to_multiset(),
            final(self)@.len() == old(self)@.len(),
    {
        shuffle_with_thread_rng(&mut self.cards);
    }

    /// Shuffles the deck in place with a generator seeded from `seed`,
    /// for callers that need a reproducible order. The multiset of cards
    /// is preserved.
    pub fn shuffle_seeded(&mut self, seed: u64)
        ensures
            final(self)@.to_multiset() == old(self)@.to_multiset(),
            final(self)@.len() == old(self)@.len(),
    {
        shuffle_with_seed(&mut self.cards, seed);
    }
}

/// A freshly built standard deck holds exactly 52 cards: every
/// suit-and-standard-rank combination appears, and no card appears twice.
pub proof fn lemma_standard_deck_distinct()
    ensures
        standard_deck().len() == 52,
        forall|i: int, j: int|
            0 <= i < j < 52 ==> standard_deck()[i] != standard_deck()[j],
        forall|suit: Suit, rank: Rank|
            rank_is_standard(rank) ==> standard_deck().contains(Card { suit, rank }),
{
    assert forall|i: int, j: int| 0 <= i < j < 52 implies standard_deck()[i]
        != standard_deck()[j] by {
        vstd::arithmetic::div_mod::lemma_fundamental_div_mod(i, 13);
        vstd::arithmetic::div_mod::lemma_fundamental_div_mod(j, 13);
        assert(0 <= i % 13 < 13);
        assert(0 <= j % 13 < 13);
        if i / 13 == j / 13 {
            assert(i % 13 != j % 13);
            assert(rank_of_value(i % 13 + 1) != rank_of_value(j % 13 + 1));
        } else {
            assert(suit_of_index(i / 13) != suit_of_index(j / 13));
        }
    }
    assert forall|suit: Suit, rank: Rank| rank_is_standard(rank) implies standard_deck()
        .contains(Card { suit, rank }) by {
        let i = index_of_suit(suit) * 13 + rank_value_of(rank) - 1;
        assert(0 <= i < 52);
        assert(i / 13 == index_of_suit(suit) && i % 13 == rank_value_of(rank) - 1) by {
            vstd::arithmetic::div_mod::lemma_fundamental_div_mod(i, 13);
            vstd::arithmetic::div_mod::lemma_div_multiples_vanish_fancy(
                index_of_suit(suit),
                rank_value_of(rank) - 1,
                13,
            );
        }
        assert(standard_card(i) == Card { suit, rank });
        assert(standard_deck()[i] == Card { suit, rank });
    }
}

} // verus!
