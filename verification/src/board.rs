//! The board: piles of cards, the per-pile rule set, and the builder
//! that configures a pile.
//!
//! A pile's behaviour is governed by five orthogonal axes (suit ordering,
//! rank ordering, availability, accept logic, empty-accept logic); every
//! axis defaults to its most permissive setting when a builder leaves it
//! unset. The board owns its piles in creation order and never removes
//! or reorders one, so a pile's identifier equals its position.
use vstd::prelude::*;
use vstd::multiset::Multiset;
use vstd::slice::{slice_index_get, slice_subrange};
use crate::cards::{Card, Rank, Suit, color_of, rank_value_of};

verus! {

/// A grid coordinate of the board: column `x`, row `y`.
#[derive(PartialEq, Eq, Structural, Copy, Clone, Debug)]
pub struct BoardLocation {
    pub x: u8,
    pub y: u8,
}

/// How an empty pile presents itself.
#[derive(PartialEq, Eq, Structural, Copy, Clone, Debug)]
pub enum BoardItemStyle {
    Back,
    Empty,
    Ace(Suit),
}

/// An opaque, unique, totally ordered handle for a pile. Identifiers are
/// assigned by the board in creation order and never reused.
#[derive(PartialEq, Eq, Structural, PartialOrd, Ord, Copy, Clone, Debug)]
pub struct PileId(pub usize);

/// The layout direction of a pile, consumed only by rendering.
#[derive(PartialEq, Eq, Structural, Copy, Clone, Debug)]
pub enum PileFlow {
    Stack,
    Down,
    Right,
}

/// A card's position for hit-testing: its pile and its index there.
#[derive(PartialEq, Eq, Structural, Copy, Clone, Debug)]
pub struct CardLocation {
    pub pile_id: PileId,
    pub card_idx: usize,
}

/// The suit relation required of adjacent cards in a run.
#[derive(PartialEq, Eq, Structural, Copy, Clone, Debug)]
pub enum SuitOrdering {
    Any,
    Same,
    SameColor,
    AlternatingColor,
}

/// The rank relation required of adjacent cards in a run; "upper" sits
/// closer to the pile's free end.
#[derive(PartialEq, Eq, Structural, Copy, Clone, Debug)]
pub enum RankOrdering {
    Any,
    Descending,
    Decrementing,
    Increasing,
    Incrementing,
}

/// Which sub-run starting at a chosen index may be lifted from a pile.
#[derive(PartialEq, Eq, Structural, Copy, Clone, Debug)]
pub enum Availability {
    All,
    Ordered,
    Top,
}

/// Whether a non-empty pile accepts an incoming card.
#[derive(PartialEq, Eq, Structural, Copy, Clone, Debug)]
pub enum AcceptLogic {
    Any,
    Never,
    Ordered,
    Count(usize),
}

/// Whether an empty pile accepts an incoming card.
#[derive(PartialEq, Eq, Structural, Copy, Clone, Debug)]
pub enum EmptyAcceptLogic {
    Any,
    Never,
    Only(Rank),
}

/// The full rule set of one pile.
#[derive(PartialEq, Eq, Structural, Copy, Clone, Debug)]
pub struct PileLogic {
    pub suit: SuitOrdering,
    pub rank: RankOrdering,
    pub availability: Availability,
    pub accept: AcceptLogic,
    pub empty_accept: EmptyAcceptLogic,
}

/// Whether `top` over `bottom` satisfies a suit-ordering axis.
pub open spec fn spec_suits_ordered(ordering: SuitOrdering, top: Card, bottom: Card) -> bool {
    match ordering {
        SuitOrdering::Any => true,
        SuitOrdering::Same => top.suit == bottom.suit,
        SuitOrdering::SameColor => color_of(top.suit) == color_of(bottom.suit),
        SuitOrdering::AlternatingColor => color_of(top.suit) != color_of(bottom.suit),
    }
}

/// Whether `top` over `bottom` satisfies a rank-ordering axis. The
/// incrementing and decrementing axes compare by saturating subtraction,
/// which amounts to an exact difference of one in the stated direction.
pub open spec fn spec_ranks_ordered(ordering: RankOrdering, top: Card, bottom: Card) -> bool {
    match ordering {
        RankOrdering::Any => true,
        RankOrdering::Descending => rank_value_of(top.rank) > rank_value_of(bottom.rank),
        RankOrdering::Decrementing => rank_value_of(top.rank) == rank_value_of(bottom.rank) + 1,
        RankOrdering::Increasing => rank_value_of(top.rank) < rank_value_of(bottom.rank),
        RankOrdering::Incrementing => rank_value_of(bottom.rank) == rank_value_of(top.rank) + 1,
    }
}

/// Whether `top` over `bottom` satisfies both ordering axes of `logic`.
pub open spec fn spec_cards_ordered(logic: PileLogic, top: Card, bottom: Card) -> bool {
    spec_suits_ordered(logic.suit, top, bottom) && spec_ranks_ordered(logic.rank, top, bottom)
}

/// Whether every adjacent pair of `cards` satisfies both ordering axes.
/// Runs of length zero or one are trivially ordered.
pub open spec fn spec_seq_ordered(logic: PileLogic, cards: Seq<Card>) -> bool {
    forall|k: int|
        0 <= k < cards.len() - 1 ==> #[trigger] spec_cards_ordered(logic, cards[k], cards[k + 1])
}

/// Whether the sub-run `cards` may be lifted under the availability axis.
pub open spec fn spec_available(logic: PileLogic, cards: Seq<Card>) -> bool {
    match logic.availability {
        Availability::All => true,
        Availability::Top => cards.len() == 1,
        Availability::Ordered => spec_seq_ordered(logic, cards),
    }
}

/// Whether a pile holding `cards` accepts `incoming`, branching on
/// whether the pile is currently empty.
pub open spec fn spec_accepts(logic: PileLogic, cards: Seq<Card>, incoming: Card) -> bool {
    if cards.len() == 0 {
        match logic.empty_accept {
            EmptyAcceptLogic::Any => true,
            EmptyAcceptLogic::Never => false,
            EmptyAcceptLogic::Only(rank) => incoming.rank == rank,
        }
    } else {
        match logic.accept {
            AcceptLogic::Any => true,
            AcceptLogic::Never => false,
            AcceptLogic::Ordered => spec_cards_ordered(logic, cards.last(), incoming),
            AcceptLogic::Count(count) => cards.len() < count,
        }
    }
}

impl PileLogic {
    /// Whether `top` over `bottom` satisfies this rule set's suit axis.
    pub fn are_suits_ordered(&self, top: &Card, bottom: &Card) -> (r: bool)
        ensures
            r == spec_suits_ordered(self.suit, *top, *bottom),
    {
        match self.suit {
            SuitOrdering::Any => true,
            SuitOrdering::Same => top.suit == bottom.suit,
            SuitOrdering::SameColor => top.get_color() == bottom.get_color(),
            SuitOrdering::AlternatingColor => top.get_color() != bottom.get_color(),
        }
    }

    /// Whether `top` over `bottom` satisfies this rule set's rank axis.
    pub fn are_ranks_ordered(&self, top: &Card, bottom: &Card) -> (r: bool)
        ensures
            r == spec_ranks_ordered(self.rank, *top, *bottom),
    {
        match self.rank {
            RankOrdering::Any => true,
            RankOrdering::Descending => top.get_rank_value() > bottom.get_rank_value(),
            RankOrdering::Decrementing => top.get_rank_value().saturating_sub(
                bottom.get_rank_value(),
            ) == 1,
            RankOrdering::Increasing => top.get_rank_value() < bottom.get_rank_value(),
            RankOrdering::Incrementing => bottom.get_rank_value().saturating_sub(
                top.get_rank_value(),
            ) == 1,
        }
    }

    /// Whether `top` over `bottom` satisfies both ordering axes.
    pub fn are_cards_ordered(&self, top: &Card, bottom: &Card) -> (r: bool)
        ensures
            r == spec_cards_ordered(*self, *top, *bottom),
    {
        self.are_suits_ordered(top, bottom) && self.are_ranks_ordered(top, bottom)
    }

    /// Whether every adjacent pair of `cards` satisfies both ordering
    /// axes; true for runs shorter than two cards.
    pub fn is_sequence_ordered(&self, cards: &[Card]) -> (r: bool)
        ensures
            r == spec_seq_ordered(*self, cards@),
    {
        let n = cards.len();
        if n < 2 {
            return true;
        }
        let mut k: usize = 0;
        while k < n - 1
            invariant
                n == cards@.len(),
                2 <= n,
                k <= n - 1,
                forall|m: int|
                    0 <= m < k ==> #[trigger] spec_cards_ordered(*self, cards@[m], cards@[m + 1]),
            decreases n - 1 - k,
        {
            let upper = slice_index_get(cards, k);
            let lower = slice_index_get(cards, k + 1);
            if !self.are_cards_ordered(upper, lower) {
                return false;
            }
            k = k + 1;
        }
        true
    }

    /// Whether the sub-run `cards` may be lifted under this rule set's
    /// availability axis.
    pub fn is_sequence_available(&self, cards: &[Card]) -> (r: bool)
        ensures
            r == spec_available(*self, cards@),
    {
        match self.availability {
            Availability::All => true,
            Availability::Top => cards.len() == 1,
            Availability::Ordered => self.is_sequence_ordered(cards),
        }
    }

    /// Whether a pile holding `cards` under this rule set accepts
    /// `incoming`.
    pub fn can_accept(&self, cards: &[Card], incoming: &Card) -> (r: bool)
        ensures
            r == spec_accepts(*self, cards@, *incoming),
    {
        let n = cards.len();
        if n == 0 {
            match &self.empty_accept {
                EmptyAcceptLogic::Any => true,
                EmptyAcceptLogic::Never => false,
                EmptyAcceptLogic::Only(rank) => incoming.rank == *rank,
            }
        } else {
            let top = slice_index_get(cards, n - 1);
            match self.accept {
                AcceptLogic::Any => true,
                AcceptLogic::Never => false,
                AcceptLogic::Ordered => self.are_cards_ordered(top, incoming),
                AcceptLogic::Count(count) => n < count,
            }
        }
    }
}

/// The mathematical value of a pile: its identifier, grid location,
/// cards (top at the sequence end), rule set, and display configuration.
#[verifier::ext_equal]
pub struct PileModel {
    pub id: int,
    pub loc: BoardLocation,
    pub cards: Seq<Card>,
    pub logic: PileLogic,
    pub flow: PileFlow,
    pub empty_style: BoardItemStyle,
}

/// `m` with its cards replaced by `cards` and every other field kept.
pub open spec fn pile_with_cards(m: PileModel, cards: Seq<Card>) -> PileModel {
    PileModel {
        id: m.id,
        loc: m.loc,
        cards: cards,
        logic: m.logic,
        flow: m.flow,
        empty_style: m.empty_style,
    }
}

/// A pile of cards on the board; the top is the sequence end.
pub struct Pile {
    pub(crate) id: PileId,
    pub loc: BoardLocation,
    pub(crate) cards: Vec<Card>,
    pub(crate) logic: PileLogic,
    pub flow: PileFlow,
    pub empty_style: BoardItemStyle,
}

impl View for Pile {
    type V = PileModel;

    closed spec fn view(&self) -> PileModel {
        PileModel {
            id: self.id.0 as int,
            loc: self.loc,
            cards: self.cards@,
            logic: self.logic,
            flow: self.flow,
            empty_style: self.empty_style,
        }
    }
}

impl Pile {
    /// Whether this pile accepts `incoming` under its rule set.
    pub fn can_accept_card(&self, incoming: &Card) -> (r: bool)
        ensures
            r == spec_accepts(self@.logic, self@.cards, *incoming),
    {
        self.logic.can_accept(self.cards.as_slice(), incoming)
    }

    /// Whether this pile accepts the run `incoming`, judged by the run's
    /// leading card alone; an empty run is never accepted.
    pub fn can_accept_cards(&self, incoming: &Vec<Card>) -> (r: bool)
        ensures
            r == (incoming@.len() > 0 && spec_accepts(self@.logic, self@.cards, incoming@[0])),
    {
        if incoming.len() > 0 {
            self.logic.can_accept(self.cards.as_slice(), &incoming[0])
        } else {
            false
        }
    }

    /// Whether the sub-run from `target_idx` to the top may be lifted.
    pub fn is_card_available(&self, target_idx: usize) -> (r: bool)
        requires
            target_idx <= self@.cards.len(),
        ensures
            r == spec_available(
                self@.logic,
                self@.cards.subrange(target_idx as int, self@.cards.len() as int),
            ),
    {
        let sub = slice_subrange(self.cards.as_slice(), target_idx, self.cards.len());
        self.logic.is_sequence_available(sub)
    }

    /// Detaches and returns the sub-run from `target_idx` to the top,
    /// leaving the prefix in place.
    pub fn take_from_card(&mut self, target_idx: usize) -> (r: Vec<Card>)
        requires
            target_idx <= old(self)@.cards.len(),
        ensures
            r@ == old(self)@.cards.subrange(target_idx as int, old(self)@.cards.len() as int),
            final(self)@ == pile_with_cards(
                old(self)@,
                old(self)@.cards.subrange(0, target_idx as int),
            ),
    {
        self.cards.split_off(target_idx)
    }

    /// Appends the whole run `incoming` to the top of this pile,
    /// emptying `incoming`.
    pub fn add_cards(&mut self, incoming: &mut Vec<Card>)
        ensures
            final(self)@ == pile_with_cards(old(self)@, old(self)@.cards + old(incoming)@),
            final(incoming)@ == Seq::<Card>::empty(),
    {
        self.cards.append(incoming);
    }

    /// Places one card on top of this pile.
    pub fn add_card(&mut self, incoming: Card)
        ensures
            final(self)@ == pile_with_cards(old(self)@, old(self)@.cards.push(incoming)),
    {
        self.cards.push(incoming);
    }

    /// The pile's cards in order, bottom first.
    pub fn card_iter(&self) -> (r: &Vec<Card>)
        ensures
            r@ == self@.cards,
    {
        &self.cards
    }

    /// The pile's cards paired with their location descriptors, for
    /// hit-testing by a presentation layer.
    pub fn card_iter_ex(&self) -> (r: Vec<(Card, CardLocation)>)
        ensures
            r@.len() == self@.cards.len(),
            forall|k: int|
                0 <= k < r@.len() ==> (#[trigger] r@[k]).0 == self@.cards[k] && r@[k].1.pile_id.0
                    as int == self@.id && r@[k].1.card_idx as int == k,
    {
        let mut r: Vec<(Card, CardLocation)> = Vec::new();
        let mut k: usize = 0;
        while k < self.cards.len()
            invariant
                k <= self.cards@.len(),
                r@.len() == k as int,
                forall|m: int|
                    0 <= m < k as int ==> #[trigger] r@[m].0 == self@.cards[m] && r@[m].1.pile_id.0
                        as int == self@.id && r@[m].1.card_idx as int == m,
            decreases self.cards@.len() - k,
        {
            let card = self.cards[k];
            r.push((card, CardLocation { pile_id: self.id, card_idx: k }));
            k = k + 1;
        }
        r
    }

    /// The pile's cards in reverse order, top first.
    pub fn card_iter_rev(&self) -> (r: Vec<Card>)
        ensures
            r@ == self@.cards.reverse(),
    {
        let mut r: Vec<Card> = Vec::new();
        let mut k: usize = self.cards.len();
        while k > 0
            invariant
                k <= self.cards@.len(),
                r@.len() == self.cards@.len() - k,
                forall|m: int|
                    0 <= m < r@.len() ==> #[trigger] r@[m] == self@.cards[self@.cards.len() - 1
                        - m],
            decreases k,
        {
            k = k - 1;
            let card = self.cards[k];
            r.push(card);
        }
        proof {
            assert(r@ =~= self@.cards.reverse());
        }
        r
    }
}

/// Whether a board's piles carry their creation-order identifiers: the
/// pile in position `i` has identifier `i`.
pub open spec fn board_ids_ok(s: Seq<PileModel>) -> bool {
    forall|i: int| 0 <= i < s.len() ==> (#[trigger] s[i]).id == i
}

/// The number of cards held across all piles of `s`.
pub open spec fn board_card_count(s: Seq<PileModel>) -> int
    decreases s.len(),
{
    if s.len() == 0 {
        0
    } else {
        board_card_count(s.drop_last()) + s.last().cards.len()
    }
}

/// The multiset of all cards held across all piles of `s`.
pub open spec fn board_multiset(s: Seq<PileModel>) -> Multiset<Card>
    decreases s.len(),
{
    if s.len() == 0 {
        Multiset::<Card>::empty()
    } else {
        board_multiset(s.drop_last()).add(s.last().cards.to_multiset())
    }
}

/// Appending a pile adds its cards to the board multiset.
pub proof fn lemma_board_multiset_push(s: Seq<PileModel>, p: PileModel)
    ensures
        board_multiset(s.push(p)) == board_multiset(s).add(p.cards.to_multiset()),
{
    assert(s.push(p).drop_last() =~= s);
    assert(s.push(p).last() == p);
}

/// Replacing the pile in position `k` changes the card count by the
/// difference of the two piles' card counts.
pub proof fn lemma_board_card_count_update(s: Seq<PileModel>, k: int, p: PileModel)
    requires
        0 <= k < s.len(),
    ensures
        board_card_count(s.update(k, p)) == board_card_count(s) - s[k].cards.len()
            + p.cards.len(),
    decreases s.len(),
{
    if k == s.len() - 1 {
        assert(s.update(k, p).drop_last() =~= s.drop_last());
        assert(s.update(k, p).last() == p);
    } else {
        assert(s.update(k, p).drop_last() =~= s.drop_last().update(k, p));
        assert(s.update(k, p).last() == s.last());
        lemma_board_card_count_update(s.drop_last(), k, p);
    }
}

/// Replacing the pile in position `k` swaps its cards in the board
/// multiset, stated additively.
pub proof fn lemma_board_multiset_update(s: Seq<PileModel>, k: int, p: PileModel)
    requires
        0 <= k < s.len(),
    ensures
        board_multiset(s.update(k, p)).add(s[k].cards.to_multiset()) == board_multiset(s).add(
            p.cards.to_multiset(),
        ),
    decreases s.len(),
{
    broadcast use vstd::multiset::group_multiset_axioms;

    if k == s.len() - 1 {
        assert(s.update(k, p).drop_last() =~= s.drop_last());
        assert(s.update(k, p).last() == p);
        let rest = board_multiset(s.drop_last());
        assert(board_multiset(s) == rest.add(s[k].cards.to_multiset()));
        assert(board_multiset(s.update(k, p)) == rest.add(p.cards.to_multiset()));
        assert(rest.add(p.cards.to_multiset()).add(s[k].cards.to_multiset()) =~= rest.add(
            s[k].cards.to_multiset(),
        ).add(p.cards.to_multiset()));
    } else {
        assert(s.update(k, p).drop_last() =~= s.drop_last().update(k, p));
        assert(s.update(k, p).last() == s.last());
        assert(s.drop_last()[k] == s[k]);
        lemma_board_multiset_update(s.drop_last(), k, p);
        let updated = board_multiset(s.drop_last().update(k, p));
        let rest = board_multiset(s.drop_last());
        let lastm = s.last().cards.to_multiset();
        let km = s[k].cards.to_multiset();
        let pm = p.cards.to_multiset();
        assert(board_multiset(s.update(k, p)) == updated.add(lastm));
        assert(board_multiset(s) == rest.add(lastm));
        assert(updated.add(km) == rest.add(pm));
        assert(updated.add(lastm).add(km) =~= updated.add(km).add(lastm));
        assert(rest.add(pm).add(lastm) =~= rest.add(lastm).add(pm));
    }
}

/// A pile's public fields agree with the corresponding fields of its
/// model.
pub(crate) proof fn lemma_pile_view_fields(p: &Pile)
    ensures
        (#[trigger] p@).flow == p.flow,
        p@.loc == p.loc,
        p@.empty_style == p.empty_style,
{
}

/// A sequence of cards with no elements has the empty multiset.
pub proof fn lemma_empty_seq_multiset(s: Seq<Card>)
    requires
        s.len() == 0,
    ensures
        s.to_multiset() == Multiset::<Card>::empty(),
{
    broadcast use vstd::seq_lib::group_to_multiset_ensures;
    broadcast use vstd::multiset::group_multiset_axioms;

    assert(s.to_multiset() =~= Multiset::<Card>::empty()) by {
        assert forall|c: Card| s.to_multiset().count(c) == 0 by {
            assert(!s.contains(c));
        }
    }
}

/// The number of cards on a board equals the size of its card multiset.
pub proof fn lemma_board_count_is_multiset_len(s: Seq<PileModel>)
    ensures
        board_card_count(s) == board_multiset(s).len(),
    decreases s.len(),
{
    broadcast use vstd::seq_lib::group_to_multiset_ensures;
    broadcast use vstd::multiset::group_multiset_axioms;

    if s.len() > 0 {
        lemma_board_count_is_multiset_len(s.drop_last());
    }
}

/// The largest column in use among the piles of `s`, 0 when none.
pub open spec fn spec_max_x(s: Seq<PileModel>) -> int
    decreases s.len(),
{
    if s.len() == 0 {
        0
    } else {
        let rest = spec_max_x(s.drop_last());
        if s.last().loc.x as int > rest {
            s.last().loc.x as int
        } else {
            rest
        }
    }
}

/// The largest row in use among the piles of `s`, 0 when none.
pub open spec fn spec_max_y(s: Seq<PileModel>) -> int
    decreases s.len(),
{
    if s.len() == 0 {
        0
    } else {
        let rest = spec_max_y(s.drop_last());
        if s.last().loc.y as int > rest {
            s.last().loc.y as int
        } else {
            rest
        }
    }
}

/// An ordered collection of piles; iteration order is creation order.
pub struct Board {
    piles: Vec<Pile>,
}

impl View for Board {
    type V = Seq<PileModel>;

    closed spec fn view(&self) -> Seq<PileModel> {
        self.piles@.map_values(|p: Pile| p@)
    }
}

impl Board {
    /// Whether the board is well formed: every pile carries its
    /// creation-order identifier.
    pub open spec fn wf(&self) -> bool {
        board_ids_ok(self@)
    }

    /// An empty board.
    pub fn default() -> (b: Board)
        ensures
            b@ == Seq::<PileModel>::empty(),
            b.wf(),
    {
        let b = Board { piles: Vec::new() };
        proof {
            assert(b@ =~= Seq::<PileModel>::empty());
        }
        b
    }

    /// The identifier the next created pile will get: one past the
    /// largest in use, or 0 on an empty board.
    pub fn get_next_pile_id(&self) -> (r: PileId)
        requires
            self.wf(),
        ensures
            r.0 as int == self@.len(),
    {
        let mut next: usize = 0;
        let mut i: usize = 0;
        let n = self.piles.len();
        while i < n
            invariant
                self.wf(),
                n == self@.len(),
                i <= n,
                next as int == i as int,
            decreases n - i,
        {
            proof {
                assert(self@[i as int] == self.piles@[i as int]@);
            }
            let id = self.piles[i].id;
            if id.0 + 1 > next {
                next = id.0 + 1;
            }
            i = i + 1;
        }
        PileId(next)
    }

    /// Appends a pile; its identifier must continue the creation order.
    pub(crate) fn add_pile(&mut self, pile: Pile)
        requires
            old(self).wf(),
            pile@.id == old(self)@.len(),
        ensures
            final(self)@ == old(self)@.push(pile@),
            final(self).wf(),
    {
        self.piles.push(pile);
        proof {
            assert(self@ =~= old(self)@.push(self.piles@.last()@));
        }
    }

    /// Builds a pile from `builder` at `loc`, assigns it the next
    /// identifier, appends it, and returns its identifier.
    pub(crate) fn create_pile(&mut self, loc: BoardLocation, builder: &PileBuilder) -> (id: PileId)
        requires
            old(self).wf(),
        ensures
            id.0 as int == old(self)@.len(),
            final(self)@ == old(self)@.push(spec_built_pile(*builder, id.0 as int, loc)),
            final(self).wf(),
    {
        let id = self.get_next_pile_id();
        let pile = builder.build_pile(id, loc);
        self.add_pile(pile);
        id
    }

    /// A shared borrow of the pile with identifier `pile_id`; the
    /// identifier must name a pile of this board.
    pub fn get_pile(&self, pile_id: PileId) -> (r: &Pile)
        requires
            self.wf(),
            pile_id.0 < self@.len(),
        ensures
            r@ == self@[pile_id.0 as int],
    {
        let mut i: usize = 0;
        let n = self.piles.len();
        while i < n
            invariant
                self.wf(),
                n == self@.len(),
                pile_id.0 < n,
                i <= pile_id.0,
            decreases n - i,
        {
            proof {
                assert(self@[i as int] == self.piles@[i as int]@);
            }
            if self.piles[i].id == pile_id {
                return &self.piles[i];
            }
            i = i + 1;
        }
        proof {
            assert(self@[pile_id.0 as int].id == pile_id.0 as int);
            assert(false);
        }
        vstd::pervasive::unreached()
    }

    /// Detaches and returns the sub-run from `target_idx` to the top of
    /// the pile with identifier `pile_id`.
    pub(crate) fn take_from(&mut self, pile_id: PileId, target_idx: usize) -> (r: Vec<Card>)
        requires
            old(self).wf(),
            pile_id.0 < old(self)@.len(),
            target_idx <= old(self)@[pile_id.0 as int].cards.len(),
        ensures
            r@ == old(self)@[pile_id.0 as int].cards.subrange(
                target_idx as int,
                old(self)@[pile_id.0 as int].cards.len() as int,
            ),
            final(self)@ == old(self)@.update(
                pile_id.0 as int,
                pile_with_cards(
                    old(self)@[pile_id.0 as int],
                    old(self)@[pile_id.0 as int].cards.subrange(0, target_idx as int),
                ),
            ),
            final(self).wf(),
    {
        let i = pile_id.0;
        proof {
            assert(self@[i as int] == self.piles@[i as int]@);
        }
        let pile = &mut self.piles[i];
        let r = pile.take_from_card(target_idx);
        proof {
            assert(self@ =~= old(self)@.update(
                i as int,
                pile_with_cards(
                    old(self)@[i as int],
                    old(self)@[i as int].cards.subrange(0, target_idx as int),
                ),
            ));
        }
        r
    }

    /// Appends the whole run `incoming` to the top of the pile with
    /// identifier `pile_id`, emptying `incoming`.
    pub(crate) fn add_cards_to(&mut self, pile_id: PileId, incoming: &mut Vec<Card>)
        requires
            old(self).wf(),
            pile_id.0 < old(self)@.len(),
        ensures
            final(self)@ == old(self)@.update(
                pile_id.0 as int,
                pile_with_cards(
                    old(self)@[pile_id.0 as int],
                    old(self)@[pile_id.0 as int].cards + old(incoming)@,
                ),
            ),
            final(incoming)@ == Seq::<Card>::empty(),
            final(self).wf(),
    {
        let i = pile_id.0;
        proof {
            assert(self@[i as int] == self.piles@[i as int]@);
        }
        let pile = &mut self.piles[i];
        pile.add_cards(incoming);
        proof {
            assert(self@ =~= old(self)@.update(
                i as int,
                pile_with_cards(
                    old(self)@[i as int],
                    old(self)@[i as int].cards + old(incoming)@,
                ),
            ));
        }
    }

    /// Places one card on top of the pile with identifier `pile_id`.
    pub(crate) fn add_card_to(&mut self, pile_id: PileId, incoming: Card)
        requires
            old(self).wf(),
            pile_id.0 < old(self)@.len(),
        ensures
            final(self)@ == old(self)@.update(
                pile_id.0 as int,
                pile_with_cards(
                    old(self)@[pile_id.0 as int],
                    old(self)@[pile_id.0 as int].cards.push(incoming),
                ),
            ),
            final(self).wf(),
    {
        let i = pile_id.0;
        proof {
            assert(self@[i as int] == self.piles@[i as int]@);
        }
        let pile = &mut self.piles[i];
        pile.add_card(incoming);
        proof {
            assert(self@ =~= old(self)@.update(
                i as int,
                pile_with_cards(
                    old(self)@[i as int],
                    old(self)@[i as int].cards.push(incoming),
                ),
            ));
        }
    }

    /// The maximum grid coordinate in use, for layout sizing; (0, 0) on
    /// an empty board.
    pub fn max_board_pos(&self) -> (r: BoardLocation)
        ensures
            r.x as int == spec_max_x(self@),
            r.y as int == spec_max_y(self@),
    {
        let mut x: u8 = 0;
        let mut y: u8 = 0;
        let mut i: usize = 0;
        let n = self.piles.len();
        while i < n
            invariant
                n == self@.len(),
                i <= n,
                x as int == spec_max_x(self@.subrange(0, i as int)),
                y as int == spec_max_y(self@.subrange(0, i as int)),
            decreases n - i,
        {
            proof {
                assert(self@[i as int] == self.piles@[i as int]@);
                assert(self@.subrange(0, i + 1 as int).drop_last() =~= self@.subrange(
                    0,
                    i as int,
                ));
                assert(self@.subrange(0, i + 1 as int).last() == self@[i as int]);
            }
            let loc = self.piles[i].loc;
            if loc.x > x {
                x = loc.x;
            }
            if loc.y > y {
                y = loc.y;
            }
            i = i + 1;
        }
        proof {
            assert(self@.subrange(0, n as int) =~= self@);
        }
        BoardLocation { x, y }
    }

    /// The board's piles in creation order.
    pub fn pile_iter(&self) -> (r: &Vec<Pile>)
        ensures
            r@.len() == self@.len(),
            forall|i: int| 0 <= i < r@.len() ==> (#[trigger] r@[i])@ == self@[i],
    {
        &self.piles
    }
}

/// A fluent builder for a pile's rule set, flow, and empty-display
/// style. It records only the overridden axes; every unset axis resolves
/// to its permissive default when the pile is built.
#[derive(Copy, Clone, Debug)]
pub struct PileBuilder {
    pub suit: Option<SuitOrdering>,
    pub rank: Option<RankOrdering>,
    pub availability: Option<Availability>,
    pub accept: Option<AcceptLogic>,
    pub empty_accept: Option<EmptyAcceptLogic>,
    pub pile_flow: Option<PileFlow>,
    pub pile_style: Option<BoardItemStyle>,
}

/// The rule set a builder resolves to: each unset axis defaults to its
/// most permissive setting.
pub open spec fn spec_built_logic(b: PileBuilder) -> PileLogic {
    PileLogic {
        suit: b.suit.unwrap_or(SuitOrdering::Any),
        rank: b.rank.unwrap_or(RankOrdering::Any),
        availability: b.availability.unwrap_or(Availability::All),
        accept: b.accept.unwrap_or(AcceptLogic::Any),
        empty_accept: b.empty_accept.unwrap_or(EmptyAcceptLogic::Any),
    }
}

/// The empty pile a builder resolves to, with identifier `id` at `loc`:
/// flow defaults to Down and empty-display style to Empty.
pub open spec fn spec_built_pile(b: PileBuilder, id: int, loc: BoardLocation) -> PileModel {
    PileModel {
        id: id,
        loc: loc,
        cards: Seq::<Card>::empty(),
        logic: spec_built_logic(b),
        flow: b.pile_flow.unwrap_or(PileFlow::Down),
        empty_style: b.pile_style.unwrap_or(BoardItemStyle::Empty),
    }
}

impl PileBuilder {
    /// A builder with every axis unset.
    pub fn new() -> (r: PileBuilder)
        ensures
            r == (PileBuilder {
                suit: None,
                rank: None,
                availability: None,
                accept: None,
                empty_accept: None,
                pile_flow: None,
                pile_style: None,
            }),
    {
        PileBuilder {
            suit: None,
            rank: None,
            availability: None,
            accept: None,
            empty_accept: None,
            pile_flow: None,
            pile_style: None,
        }
    }

    /// Overrides the suit-ordering axis.
    pub fn with_suit_ordering(&mut self, suit_ordering: SuitOrdering) -> (r: &mut Self)
        ensures
            *r == (PileBuilder { suit: Some(suit_ordering), ..*old(self) }),
            *final(self) == *final(r),
    {
        self.suit = Some(suit_ordering);
        self
    }

    /// Overrides the rank-ordering axis.
    pub fn with_rank_ordering(&mut self, rank_ordering: RankOrdering) -> (r: &mut Self)
        ensures
            *r == (PileBuilder { rank: Some(rank_ordering), ..*old(self) }),
            *final(self) == *final(r),
    {
        self.rank = Some(rank_ordering);
        self
    }

    /// Overrides the availability axis.
    pub fn with_availability(&mut self, availability: Availability) -> (r: &mut Self)
        ensures
            *r == (PileBuilder { availability: Some(availability), ..*old(self) }),
            *final(self) == *final(r),
    {
        self.availability = Some(availability);
        self
    }

    /// Overrides the accept axis for non-empty piles.
    pub fn with_accept(&mut self, accept: AcceptLogic) -> (r: &mut Self)
        ensures
            *r == (PileBuilder { accept: Some(accept), ..*old(self) }),
            *final(self) == *final(r),
    {
        self.accept = Some(accept);
        self
    }

    /// Overrides the accept axis for empty piles.
    pub fn with_empty_accept(&mut self, empty_accept: EmptyAcceptLogic) -> (r: &mut Self)
        ensures
            *r == (PileBuilder { empty_accept: Some(empty_accept), ..*old(self) }),
            *final(self) == *final(r),
    {
        self.empty_accept = Some(empty_accept);
        self
    }

    /// Overrides the layout flow.
    pub fn with_pile_flow(&mut self, pile_flow: PileFlow) -> (r: &mut Self)
        ensures
            *r == (PileBuilder { pile_flow: Some(pile_flow), ..*old(self) }),
            *final(self) == *final(r),
    {
        self.pile_flow = Some(pile_flow);
        self
    }

    /// Overrides the empty-display style.
    pub fn with_pile_style(&mut self, pile_style: BoardItemStyle) -> (r: &mut Self)
        ensures
            *r == (PileBuilder { pile_style: Some(pile_style), ..*old(self) }),
            *final(self) == *final(r),
    {
        self.pile_style = Some(pile_style);
        self
    }

    /// Resolves the recorded axes to a rule set, defaulting every unset
    /// axis to its most permissive setting.
    pub fn build_logic(&self) -> (r: PileLogic)
        ensures
            r == spec_built_logic(*self),
    {
        PileLogic {
            suit: self.suit.unwrap_or(SuitOrdering::Any),
            rank: self.rank.unwrap_or(RankOrdering::Any),
            availability: self.availability.unwrap_or(Availability::All),
            accept: self.accept.unwrap_or(AcceptLogic::Any),
            empty_accept: self.empty_accept.unwrap_or(EmptyAcceptLogic::Any),
        }
    }

    /// Builds an empty pile with identifier `id` at `loc` from the
    /// recorded axes.
    pub fn build_pile(&self, id: PileId, loc: BoardLocation) -> (p: Pile)
        ensures
            p@ == spec_built_pile(*self, id.0 as int, loc),
    {
        let logic = self.build_logic();
        let p = Pile {
            id,
            logic,
            loc,
            cards: Vec::new(),
            flow: self.pile_flow.unwrap_or(PileFlow::Down),
            empty_style: self.pile_style.unwrap_or(BoardItemStyle::Empty),
        };
        proof {
            assert(p@ =~= spec_built_pile(*self, id.0 as int, loc));
        }
        p
    }
}

} // verus!
