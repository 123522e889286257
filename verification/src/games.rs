//! The game state machine and the variant logic, with FreeCell as the
//! reference variant.
//!
//! A game owns one board and an optional in-flight selection. Events
//! drive it between two states: Idle (no selection) and Selected (one
//! run of cards detached from its source pile). The whole transition
//! relation is the spec function [`step`]; `handle_event` is proved to
//! implement it exactly.
use vstd::prelude::*;
use vstd::multiset::Multiset;
use crate::board::{
    AcceptLogic, Availability, Board, BoardItemStyle, BoardLocation, CardLocation,
    EmptyAcceptLogic, PileBuilder, PileFlow, PileId, PileLogic, PileModel, RankOrdering,
    SuitOrdering, board_card_count, board_ids_ok, board_multiset, lemma_board_card_count_update,
    lemma_board_multiset_update, pile_with_cards, spec_accepts, spec_available,
};
use crate::cards::{Card, Deck, Rank, Suit, standard_deck, suit_of_index};

verus! {

/// The status a variant reports for a board.
#[derive(PartialEq, Eq, Structural, Copy, Clone, Debug)]
pub enum GameStatus {
    Ongoing,
    Lost,
    Won,
    /// The variant does not implement a status check; win and loss
    /// detection is an extension point.
    Unsupported,
}

/// The two externally triggerable transitions: select a run starting at
/// a card location, or drop the current selection on a target pile
/// (`None` cancels the selection).
#[derive(Copy, Clone, Debug)]
pub enum GameEvent {
    SelectEvent(CardLocation),
    DropEvent(Option<PileId>),
}

/// The mathematical value of an in-flight selection: the detached run
/// (bottom first), the source pile's flow, and the source pile.
#[verifier::ext_equal]
pub struct SelectionModel {
    pub cards: Seq<Card>,
    pub flow: PileFlow,
    pub source: int,
}

/// The mathematical value of a game: its piles and the optional
/// in-flight selection.
#[verifier::ext_equal]
pub struct GameModel {
    pub board: Seq<PileModel>,
    pub selection: Option<SelectionModel>,
}

/// Whether a game is well formed: piles carry creation-order
/// identifiers and a selection's source names a pile of the board.
pub open spec fn game_wf(g: GameModel) -> bool {
    &&& board_ids_ok(g.board)
    &&& match g.selection {
        Some(sel) => 0 <= sel.source < g.board.len(),
        None => true,
    }
}

/// The number of cards in the whole game: all piles plus the in-flight
/// selection, if any.
pub open spec fn total_cards(g: GameModel) -> int {
    board_card_count(g.board) + match g.selection {
        Some(sel) => sel.cards.len() as int,
        None => 0,
    }
}

/// Whether a select event may fire: the game is Idle, the location
/// names a card of a pile, and the sub-run from that card to the top
/// may be lifted under the pile's availability axis.
pub open spec fn spec_select_allowed(g: GameModel, loc: CardLocation) -> bool {
    &&& g.selection is None
    &&& loc.pile_id.0 < g.board.len()
    &&& loc.card_idx < g.board[loc.pile_id.0 as int].cards.len()
    &&& spec_available(
        g.board[loc.pile_id.0 as int].logic,
        g.board[loc.pile_id.0 as int].cards.subrange(
            loc.card_idx as int,
            g.board[loc.pile_id.0 as int].cards.len() as int,
        ),
    )
}

/// The game after a successful select: the sub-run from the chosen card
/// to the top leaves the source pile and becomes the selection.
pub open spec fn spec_after_select(g: GameModel, loc: CardLocation) -> GameModel {
    let p = loc.pile_id.0 as int;
    let pile = g.board[p];
    GameModel {
        board: g.board.update(
            p,
            pile_with_cards(pile, pile.cards.subrange(0, loc.card_idx as int)),
        ),
        selection: Some(
            SelectionModel {
                cards: pile.cards.subrange(loc.card_idx as int, pile.cards.len() as int),
                flow: pile.flow,
                source: p,
            },
        ),
    }
}

/// The game after the selection `sel` lands on pile `target`: the whole
/// run goes on top of the target and the selection is discarded.
pub open spec fn spec_attach(g: GameModel, sel: SelectionModel, target: int) -> GameModel {
    let pile = g.board[target];
    GameModel {
        board: g.board.update(target, pile_with_cards(pile, pile.cards + sel.cards)),
        selection: None,
    }
}

/// The game after the selection returns to its source pile; a game
/// whose selection names no pile of the board is left unchanged.
pub open spec fn spec_return(g: GameModel, sel: SelectionModel) -> GameModel {
    if 0 <= sel.source < g.board.len() {
        spec_attach(g, sel, sel.source)
    } else {
        g
    }
}

/// Whether pile `target` accepts the selection `sel`: judged by the
/// run's leading card alone; an empty run is never accepted.
pub open spec fn spec_drop_accepts(g: GameModel, sel: SelectionModel, target: int) -> bool {
    sel.cards.len() > 0 && spec_accepts(g.board[target].logic, g.board[target].cards, sel.cards[0])
}

/// The full transition relation of the game state machine. A select
/// whose guard fails, a drop without a selection, and an event naming
/// no pile of the board leave the game unchanged.
pub open spec fn step(g: GameModel, event: GameEvent) -> GameModel {
    match event {
        GameEvent::SelectEvent(loc) => if spec_select_allowed(g, loc) {
            spec_after_select(g, loc)
        } else {
            g
        },
        GameEvent::DropEvent(target) => match (g.selection, target) {
            (Some(sel), Some(pile_id)) => if pile_id.0 < g.board.len() && spec_drop_accepts(
                g,
                sel,
                pile_id.0 as int,
            ) {
                spec_attach(g, sel, pile_id.0 as int)
            } else {
                spec_return(g, sel)
            },
            (Some(sel), None) => spec_return(g, sel),
            (None, _) => g,
        },
    }
}

/// Whether an event may be handed to `handle_event`: every pile
/// identifier it makes the game look up must name a pile of the board.
/// Identifiers are only ever produced by the board itself, so a caller
/// that does not fabricate them always satisfies this.
pub open spec fn event_ok(g: GameModel, event: GameEvent) -> bool {
    match event {
        GameEvent::SelectEvent(loc) => loc.pile_id.0 < g.board.len() && loc.card_idx
            <= g.board[loc.pile_id.0 as int].cards.len(),
        GameEvent::DropEvent(target) => match (g.selection, target) {
            (Some(_), Some(pile_id)) => pile_id.0 < g.board.len(),
            _ => true,
        },
    }
}

/// An in-flight run of cards detached from exactly one source pile.
struct SelectedPile {
    cards: Vec<Card>,
    flow: PileFlow,
    source: PileId,
}

/// The per-variant setup and status logic a game is bound to; the
/// variant set is fixed, so dispatch is a closed enum.
pub enum GameLogicKind {
    FreeCell(FreeCell),
}

/// A solitaire game: one board, one variant logic, and at most one
/// in-flight selection.
pub struct Game {
    logic: GameLogicKind,
    board: Board,
    selection: Option<SelectedPile>,
}

impl View for Game {
    type V = GameModel;

    closed spec fn view(&self) -> GameModel {
        GameModel {
            board: self.board@,
            selection: match self.selection {
                Some(sel) => Some(
                    SelectionModel {
                        cards: sel.cards@,
                        flow: sel.flow,
                        source: sel.source.0 as int,
                    },
                ),
                None => None,
            },
        }
    }
}

impl Game {
    /// Whether the game is well formed; see [`game_wf`].
    pub open spec fn wf(&self) -> bool {
        game_wf(self@)
    }

    /// A fresh Idle game with an empty board, bound to `logic`.
    pub fn create_with_logic(logic: GameLogicKind) -> (g: Game)
        ensures
            g@.board == Seq::<PileModel>::empty(),
            g@.selection is None,
            g.wf(),
    {
        let g = Game { logic, selection: None, board: Board::default() };
        g
    }

    /// Detaches the sub-run starting at `source` from its pile into a
    /// new selection; the state machine only calls this when the game
    /// is Idle, so no selection is ever overwritten.
    fn select_cards(&mut self, source: CardLocation)
        requires
            old(self).wf(),
            source.pile_id.0 < old(self)@.board.len(),
            source.card_idx <= old(self)@.board[source.pile_id.0 as int].cards.len(),
        ensures
            final(self)@ == spec_after_select(old(self)@, source),
            final(self).wf(),
    {
        let pile_ref = self.board.get_pile(source.pile_id);
        let flow = pile_ref.flow;
        proof {
            crate::board::lemma_pile_view_fields(pile_ref);
        }
        let cards = self.board.take_from(source.pile_id, source.card_idx);
        self.selection = Some(SelectedPile { cards, flow, source: source.pile_id });
        proof {
            assert(self@ =~~= spec_after_select(old(self)@, source));
        }
    }

    /// Moves the whole selection, if one exists, on top of pile
    /// `target` and returns the game to Idle.
    fn add_selection_to_pile(&mut self, target: PileId)
        requires
            old(self).wf(),
            old(self)@.selection is Some ==> target.0 < old(self)@.board.len(),
        ensures
            final(self)@ == match old(self)@.selection {
                Some(sel) => spec_attach(old(self)@, sel, target.0 as int),
                None => old(self)@,
            },
            final(self).wf(),
    {
        let sel = self.selection.take();
        match sel {
            Some(mut selection) => {
                self.board.add_cards_to(target, &mut selection.cards);
                proof {
                    let prev = old(self)@.selection->Some_0;
                    assert(self@ =~~= spec_attach(old(self)@, prev, target.0 as int));
                }
            },
            None => {
                proof {
                    assert(self@ =~~= old(self)@);
                }
            },
        }
    }

    /// Returns the selection, if one exists, to its source pile.
    fn return_selection(&mut self)
        requires
            old(self).wf(),
        ensures
            final(self)@ == match old(self)@.selection {
                Some(sel) => spec_return(old(self)@, sel),
                None => old(self)@,
            },
            final(self).wf(),
    {
        let src = match &self.selection {
            Some(sel) => Some(sel.source),
            None => None,
        };
        match src {
            Some(id) => {
                self.add_selection_to_pile(id);
            },
            None => {},
        }
    }

    /// Populates the board through the bound variant's setup; the board
    /// must not have been set up before.
    pub fn setup(&mut self)
        requires
            old(self).wf(),
            old(self)@.board.len() == 0,
        ensures
            final(self)@.board.len() == 16,
            forall|j: int| 0 <= j < 16 ==> freecell_pile_ok(#[trigger] final(self)@.board[j], j),
            board_multiset(final(self)@.board) == standard_deck().to_multiset(),
            board_card_count(final(self)@.board) == 52,
            final(self)@.selection == old(self)@.selection,
            final(self).wf(),
    {
        match &mut self.logic {
            GameLogicKind::FreeCell(fc) => fc.setup(&mut self.board),
        }
    }

    /// A read-only borrow of the board, for display.
    pub fn board_ref(&self) -> (r: &Board)
        ensures
            r@ == self@.board,
    {
        &self.board
    }

    /// The number of cards currently held by the in-flight selection;
    /// 0 when the game is Idle.
    pub fn selection_card_count(&self) -> (r: usize)
        ensures
            r as int == match self@.selection {
                Some(sel) => sel.cards.len() as int,
                None => 0,
            },
    {
        match &self.selection {
            Some(sel) => sel.cards.len(),
            None => 0,
        }
    }

    /// The status the bound variant reports for the current board.
    pub fn get_status(&self) -> (r: GameStatus)
        ensures
            r == GameStatus::Unsupported,
    {
        match &self.logic {
            GameLogicKind::FreeCell(fc) => fc.get_status(&self.board),
        }
    }

    /// Feeds one event into the state machine; the game moves exactly
    /// as the transition relation [`step`] says.
    pub fn handle_event(&mut self, event: GameEvent)
        requires
            old(self).wf(),
            event_ok(old(self)@, event),
        ensures
            final(self)@ == step(old(self)@, event),
            final(self).wf(),
    {
        match event {
            GameEvent::SelectEvent(loc) => {
                if self.selection.is_none() {
                    let pile = self.board.get_pile(loc.pile_id);
                    let available = loc.card_idx < pile.card_iter().len()
                        && pile.is_card_available(loc.card_idx);
                    if available {
                        self.select_cards(loc);
                    } else {
                        proof {
                            assert(self@ =~~= step(old(self)@, event));
                        }
                    }
                } else {
                    proof {
                        assert(self@ =~~= step(old(self)@, event));
                    }
                }
            },
            GameEvent::DropEvent(target) => {
                if self.selection.is_some() {
                    match target {
                        Some(pile_id) => {
                            let accepts = match &self.selection {
                                Some(sel) => self.board.get_pile(pile_id).can_accept_cards(
                                    &sel.cards,
                                ),
                                None => false,
                            };
                            if accepts {
                                self.add_selection_to_pile(pile_id);
                            } else {
                                self.return_selection();
                            }
                        },
                        None => {
                            self.return_selection();
                        },
                    }
                } else {
                    proof {
                        assert(self@ =~~= step(old(self)@, event));
                    }
                }
            },
        }
    }
}

/// The rule set of a FreeCell cell pile: a holding cell for one card.
pub open spec fn freecell_cell_logic() -> PileLogic {
    PileLogic {
        suit: SuitOrdering::Any,
        rank: RankOrdering::Any,
        availability: Availability::All,
        accept: AcceptLogic::Count(1),
        empty_accept: EmptyAcceptLogic::Any,
    }
}

/// The rule set of a FreeCell foundation pile: started by an Ace, built
/// up in suit, only the top card liftable.
pub open spec fn freecell_foundation_logic() -> PileLogic {
    PileLogic {
        suit: SuitOrdering::Same,
        rank: RankOrdering::Incrementing,
        availability: Availability::Top,
        accept: AcceptLogic::Ordered,
        empty_accept: EmptyAcceptLogic::Only(Rank::Ace),
    }
}

/// The rule set of a FreeCell tableau pile: built down in alternating
/// colors, only the top card liftable.
pub open spec fn freecell_tableau_logic() -> PileLogic {
    PileLogic {
        suit: SuitOrdering::AlternatingColor,
        rank: RankOrdering::Decrementing,
        availability: Availability::Top,
        accept: AcceptLogic::Ordered,
        empty_accept: EmptyAcceptLogic::Any,
    }
}

/// What FreeCell setup makes of the pile in position `j`: cells in
/// columns 0-3 of row 0, foundations in columns 4-7 of row 0, tableau
/// piles in columns 0-7 of row 1 holding 7,7,7,7,6,6,6,6 cards.
pub open spec fn freecell_pile_ok(m: PileModel, j: int) -> bool {
    if 0 <= j < 4 {
        &&& m.id == j
        &&& m.loc == BoardLocation { x: j as u8, y: 0 }
        &&& m.cards.len() == 0
        &&& m.logic == freecell_cell_logic()
        &&& m.flow == PileFlow::Stack
        &&& m.empty_style == BoardItemStyle::Empty
    } else if 4 <= j < 8 {
        &&& m.id == j
        &&& m.loc == BoardLocation { x: j as u8, y: 0 }
        &&& m.cards.len() == 0
        &&& m.logic == freecell_foundation_logic()
        &&& m.flow == PileFlow::Stack
        &&& m.empty_style == BoardItemStyle::Ace(suit_of_index(j - 4))
    } else {
        &&& 8 <= j < 16
        &&& m.id == j
        &&& m.loc == BoardLocation { x: (j - 8) as u8, y: 1 }
        &&& m.cards.len() == (if j < 12 {
            7int
        } else {
            6int
        })
        &&& m.logic == freecell_tableau_logic()
        &&& m.flow == PileFlow::Down
        &&& m.empty_style == BoardItemStyle::Empty
    }
}

/// How many of the first `i` dealt cards landed on tableau pile `j`
/// when dealing round-robin over 8 piles.
pub open spec fn freecell_deal_count(i: int, j: int) -> int {
    i / 8 + if j < i % 8 {
        1int
    } else {
        0int
    }
}

/// The FreeCell reference variant: it records the identifiers of the
/// piles its setup created.
pub struct FreeCell {
    pub(crate) cell_ids: Vec<PileId>,
    pub(crate) foundation_ids: Vec<PileId>,
    pub(crate) tableau_ids: Vec<PileId>,
}

impl core::default::Default for FreeCell {
    /// A FreeCell logic that has not set up a board yet.
    fn default() -> Self {
        Self { cell_ids: Vec::new(), foundation_ids: Vec::new(), tableau_ids: Vec::new() }
    }
}

impl FreeCell {
    /// Populates an empty board with the FreeCell layout: 4 cells, 4
    /// foundations, 8 tableau piles, and one shuffled standard deck
    /// dealt round-robin into the tableau.
    pub(crate) fn setup(&mut self, board: &mut Board)
        requires
            old(board).wf(),
            old(board)@.len() == 0,
        ensures
            final(board)@.len() == 16,
            forall|j: int| 0 <= j < 16 ==> freecell_pile_ok(#[trigger] final(board)@[j], j),
            board_multiset(final(board)@) == standard_deck().to_multiset(),
            board_card_count(final(board)@) == 52,
            final(board).wf(),
    {
        broadcast use vstd::seq_lib::group_to_multiset_ensures;
        broadcast use vstd::multiset::group_multiset_axioms;

        let mut cell_ids: Vec<PileId> = Vec::new();
        let mut foundation_ids: Vec<PileId> = Vec::new();
        let mut tableau_ids: Vec<PileId> = Vec::new();

        // Cells
        let mut i: u8 = 0;
        while i < 4
            invariant
                board.wf(),
                board@.len() == i as int,
                i <= 4,
                forall|j: int| 0 <= j < i as int ==> freecell_pile_ok(#[trigger] board@[j], j),
                board_multiset(board@) == Multiset::<Card>::empty(),
            decreases 4 - i,
        {
            let loc = BoardLocation { x: i, y: 0 };
            let mut b = PileBuilder::new();
            b.with_pile_flow(PileFlow::Stack).with_accept(AcceptLogic::Count(1)).with_pile_style(
                BoardItemStyle::Empty,
            );
            let ghost prev = board@;
            let id = board.create_pile(loc, &b);
            cell_ids.push(id);
            proof {
                crate::board::lemma_board_multiset_push(prev, board@.last());
                crate::board::lemma_empty_seq_multiset(board@.last().cards);
                assert(freecell_pile_ok(board@[i as int], i as int));
            }
            i = i + 1;
        }

        // Foundations
        let suits = Suit::get_ordered();
        let mut i: u8 = 0;
        while i < 4
            invariant
                board.wf(),
                board@.len() == 4 + i as int,
                i <= 4,
                forall|j: int| 0 <= j < 4 + i as int ==> freecell_pile_ok(#[trigger] board@[j], j),
                board_multiset(board@) == Multiset::<Card>::empty(),
                suits@.len() == 4,
                forall|k: int| 0 <= k < 4 ==> suits@[k] == suit_of_index(k),
            decreases 4 - i,
        {
            let suit = suits[i as usize];
            let loc = BoardLocation { x: i + 4, y: 0 };
            let mut b = PileBuilder::new();
            b.with_empty_accept(EmptyAcceptLogic::Only(Rank::Ace)).with_suit_ordering(
                SuitOrdering::Same,
            ).with_rank_ordering(RankOrdering::Incrementing).with_accept(
                AcceptLogic::Ordered,
            ).with_pile_style(BoardItemStyle::Ace(suit)).with_pile_flow(
                PileFlow::Stack,
            ).with_availability(Availability::Top);
            let ghost prev = board@;
            let id = board.create_pile(loc, &b);
            foundation_ids.push(id);
            proof {
                crate::board::lemma_board_multiset_push(prev, board@.last());
                crate::board::lemma_empty_seq_multiset(board@.last().cards);
                assert(freecell_pile_ok(board@[4 + i as int], 4 + i as int));
            }
            i = i + 1;
        }

        // Tableau
        let mut i: u8 = 0;
        while i < 8
            invariant
                board.wf(),
                board@.len() == 8 + i as int,
                i <= 8,
                forall|j: int| 0 <= j < 8 + i as int ==> freecell_pile_ok(#[trigger] board@[j], j)
                    || (8 <= j < 8 + i as int && tableau_empty_ok(#[trigger] board@[j], j)),
                forall|j: int| 8 <= j < 8 + i as int ==> tableau_empty_ok(#[trigger] board@[j], j),
                board_multiset(board@) == Multiset::<Card>::empty(),
                tableau_ids@.len() == i as int,
                forall|k: int| 0 <= k < i as int ==> (#[trigger] tableau_ids@[k]).0 == 8 + k,
            decreases 8 - i,
        {
            let loc = BoardLocation { x: i, y: 1 };
            let mut b = PileBuilder::new();
            b.with_availability(Availability::Top).with_suit_ordering(
                SuitOrdering::AlternatingColor,
            ).with_rank_ordering(RankOrdering::Decrementing).with_empty_accept(
                EmptyAcceptLogic::Any,
            ).with_pile_style(BoardItemStyle::Empty).with_pile_flow(PileFlow::Down).with_accept(
                AcceptLogic::Ordered,
            );
            let ghost prev = board@;
            let id = board.create_pile(loc, &b);
            tableau_ids.push(id);
            proof {
                crate::board::lemma_board_multiset_push(prev, board@.last());
                crate::board::lemma_empty_seq_multiset(board@.last().cards);
                assert(tableau_empty_ok(board@[8 + i as int], 8 + i as int));
            }
            i = i + 1;
        }

        // Deal a shuffled standard deck round-robin into the tableau.
        let mut deck = Deck::single_deck();
        deck.shuffle();
        let mut i: usize = 0;
        while i < 52
            invariant
                board.wf(),
                board@.len() == 16,
                i <= 52,
                deck@.len() == 52 - i,
                deck@.to_multiset().add(board_multiset(board@)) == standard_deck().to_multiset(),
                forall|j: int| 0 <= j < 8 ==> freecell_pile_ok(#[trigger] board@[j], j),
                forall|j: int| 8 <= j < 16 ==> tableau_shape_ok(#[trigger] board@[j], j)
                    && board@[j].cards.len() == freecell_deal_count(i as int, j - 8),
                tableau_ids@.len() == 8,
                forall|k: int| 0 <= k < 8 ==> (#[trigger] tableau_ids@[k]).0 == 8 + k,
            decreases 52 - i,
        {
            let ghost prev_deck = deck@;
            let dealt = deck.deal_card();
            match dealt {
                Some(card) => {
                    let idx = i % 8;
                    let pile_id = tableau_ids[idx];
                    let ghost prev = board@;
                    board.add_card_to(pile_id, card);
                    proof {
                        let p = pile_id.0 as int;
                        let pile_ms = prev[p].cards.to_multiset();
                        lemma_board_multiset_update(prev, p, board@[p]);
                        assert(board@[p].cards =~= prev[p].cards.push(card));
                        vstd::seq_lib::to_multiset_build::<Card>(prev[p].cards, card);
                        assert(board@[p].cards.to_multiset() == pile_ms.insert(card));
                        assert(prev_deck =~= deck@.push(card));
                        vstd::seq_lib::to_multiset_build::<Card>(deck@, card);
                        assert(prev_deck.to_multiset() == deck@.to_multiset().insert(card));
                        assert(deck@.to_multiset().add(board_multiset(board@))
                            =~= standard_deck().to_multiset()) by {
                            assert forall|c: Card|
                                deck@.to_multiset().add(board_multiset(board@)).count(c)
                                    == standard_deck().to_multiset().count(c) by {
                                assert(prev_deck.to_multiset().add(board_multiset(prev)).count(c)
                                    == standard_deck().to_multiset().count(c));
                                assert(board_multiset(board@).add(pile_ms).count(c)
                                    == board_multiset(prev).add(pile_ms.insert(card)).count(c));
                            }
                        }
                        assert(freecell_deal_count(i + 1, idx as int) == freecell_deal_count(
                            i as int,
                            idx as int,
                        ) + 1);
                        assert(forall|j: int|
                            0 <= j < 8 && j != idx as int ==> freecell_deal_count(i + 1, j)
                                == freecell_deal_count(i as int, j));
                    }
                },
                None => {
                    proof {
                        assert(false);
                    }
                },
            }
            i = i + 1;
        }
        proof {
            assert(forall|j: int| 8 <= j < 16 ==> freecell_pile_ok(#[trigger] board@[j], j));
            assert(board_multiset(board@) =~= standard_deck().to_multiset());
            crate::board::lemma_board_count_is_multiset_len(board@);
        }

        self.cell_ids = cell_ids;
        self.foundation_ids = foundation_ids;
        self.tableau_ids = tableau_ids;
    }

    /// The reference variant does not implement a status check; this
    /// reports that explicitly instead of guessing a win condition.
    pub(crate) fn get_status(&self, _board: &Board) -> (r: GameStatus)
        ensures
            r == GameStatus::Unsupported,
    {
        GameStatus::Unsupported
    }
}

/// A tableau pile as created, before any card is dealt onto it.
pub open spec fn tableau_empty_ok(m: PileModel, j: int) -> bool {
    tableau_shape_ok(m, j) && m.cards.len() == 0
}

/// The configuration of a tableau pile, regardless of its cards.
pub open spec fn tableau_shape_ok(m: PileModel, j: int) -> bool {
    &&& m.id == j
    &&& m.loc == BoardLocation { x: (j - 8) as u8, y: 1 }
    &&& m.logic == freecell_tableau_logic()
    &&& m.flow == PileFlow::Down
    &&& m.empty_style == BoardItemStyle::Empty
}

/// Every step of the state machine preserves the total number of cards
/// in the game: cards are neither created nor destroyed by selecting or
/// dropping, whatever the event.
pub proof fn lemma_step_preserves_card_count(g: GameModel, event: GameEvent)
    ensures
        total_cards(step(g, event)) == total_cards(g),
{
    match event {
        GameEvent::SelectEvent(loc) => {
            if spec_select_allowed(g, loc) {
                let p = loc.pile_id.0 as int;
                let pile = g.board[p];
                lemma_board_card_count_update(
                    g.board,
                    p,
                    pile_with_cards(pile, pile.cards.subrange(0, loc.card_idx as int)),
                );
            }
        },
        GameEvent::DropEvent(target) => {
            match (g.selection, target) {
                (Some(sel), Some(pile_id)) => {
                    if pile_id.0 < g.board.len() && spec_drop_accepts(g, sel, pile_id.0 as int) {
                        lemma_attach_count(g, sel, pile_id.0 as int);
                    } else {
                        lemma_return_count(g, sel);
                    }
                },
                (Some(sel), None) => {
                    lemma_return_count(g, sel);
                },
                (None, _) => {},
            }
        },
    }
}

proof fn lemma_attach_count(g: GameModel, sel: SelectionModel, target: int)
    requires
        0 <= target < g.board.len(),
        g.selection == Some(sel),
    ensures
        total_cards(spec_attach(g, sel, target)) == total_cards(g),
{
    let pile = g.board[target];
    lemma_board_card_count_update(g.board, target, pile_with_cards(pile, pile.cards + sel.cards));
}

proof fn lemma_return_count(g: GameModel, sel: SelectionModel)
    requires
        g.selection == Some(sel),
    ensures
        total_cards(spec_return(g, sel)) == total_cards(g),
{
    if 0 <= sel.source < g.board.len() {
        lemma_attach_count(g, sel, sel.source);
    }
}

/// The multiset of cards in the whole game: all piles plus the
/// in-flight selection, if any.
pub open spec fn total_multiset(g: GameModel) -> Multiset<Card> {
    board_multiset(g.board).add(
        match g.selection {
            Some(sel) => sel.cards.to_multiset(),
            None => Multiset::<Card>::empty(),
        },
    )
}

/// Every step of the state machine preserves the multiset of cards in
/// the game: selecting and dropping neither create, destroy, nor swap
/// cards, whatever the event.
pub proof fn lemma_step_preserves_card_multiset(g: GameModel, event: GameEvent)
    ensures
        total_multiset(step(g, event)) == total_multiset(g),
{
    broadcast use vstd::multiset::group_multiset_axioms;

    match event {
        GameEvent::SelectEvent(loc) => {
            if spec_select_allowed(g, loc) {
                let p = loc.pile_id.0 as int;
                let pile = g.board[p];
                let idx = loc.card_idx as int;
                let prefix = pile.cards.subrange(0, idx);
                let suffix = pile.cards.subrange(idx, pile.cards.len() as int);
                lemma_board_multiset_update(g.board, p, pile_with_cards(pile, prefix));
                assert(pile.cards =~= prefix + suffix);
                vstd::seq_lib::lemma_multiset_commutative(prefix, suffix);
                assert(total_multiset(step(g, event)) =~= total_multiset(g)) by {
                    assert forall|c: Card|
                        total_multiset(step(g, event)).count(c) == total_multiset(g).count(c) by {
                        assert(board_multiset(step(g, event).board).add(
                            pile.cards.to_multiset(),
                        ).count(c) == board_multiset(g.board).add(prefix.to_multiset()).count(c));
                    }
                }
            }
        },
        GameEvent::DropEvent(target) => {
            match (g.selection, target) {
                (Some(sel), Some(pile_id)) => {
                    if pile_id.0 < g.board.len() && spec_drop_accepts(g, sel, pile_id.0 as int) {
                        lemma_attach_multiset(g, sel, pile_id.0 as int);
                    } else {
                        lemma_return_multiset(g, sel);
                    }
                },
                (Some(sel), None) => {
                    lemma_return_multiset(g, sel);
                },
                (None, _) => {},
            }
        },
    }
}

proof fn lemma_attach_multiset(g: GameModel, sel: SelectionModel, target: int)
    requires
        0 <= target < g.board.len(),
        g.selection == Some(sel),
    ensures
        total_multiset(spec_attach(g, sel, target)) == total_multiset(g),
{
    broadcast use vstd::multiset::group_multiset_axioms;

    let pile = g.board[target];
    let joined = pile.cards + sel.cards;
    lemma_board_multiset_update(g.board, target, pile_with_cards(pile, joined));
    vstd::seq_lib::lemma_multiset_commutative(pile.cards, sel.cards);
    assert(total_multiset(spec_attach(g, sel, target)) =~= total_multiset(g)) by {
        assert forall|c: Card|
            total_multiset(spec_attach(g, sel, target)).count(c) == total_multiset(g).count(
                c,
            ) by {
            assert(board_multiset(spec_attach(g, sel, target).board).add(
                pile.cards.to_multiset(),
            ).count(c) == board_multiset(g.board).add(joined.to_multiset()).count(c));
        }
    }
}

proof fn lemma_return_multiset(g: GameModel, sel: SelectionModel)
    requires
        g.selection == Some(sel),
    ensures
        total_multiset(spec_return(g, sel)) == total_multiset(g),
{
    if 0 <= sel.source < g.board.len() {
        lemma_attach_multiset(g, sel, sel.source);
    }
}

/// Under Top availability only the pile's single top card may be
/// lifted: a select at any other index leaves the game unchanged.
pub proof fn lemma_top_availability_rejects_inner_select(g: GameModel, loc: CardLocation)
    requires
        loc.pile_id.0 < g.board.len(),
        g.board[loc.pile_id.0 as int].logic.availability == Availability::Top,
        loc.card_idx as int != g.board[loc.pile_id.0 as int].cards.len() - 1,
    ensures
        step(g, GameEvent::SelectEvent(loc)) == g,
{
    let pile = g.board[loc.pile_id.0 as int];
    if (loc.card_idx as int) < pile.cards.len() {
        assert(pile.cards.subrange(loc.card_idx as int, pile.cards.len() as int).len() != 1);
        assert(!spec_select_allowed(g, loc));
    }
}

/// Selecting a run and immediately cancelling the drop restores the
/// board exactly: same piles, same cards, same order, and the game is
/// Idle again.
pub proof fn lemma_select_then_cancel_restores(g: GameModel, loc: CardLocation)
    requires
        g.selection is None,
    ensures
        step(step(g, GameEvent::SelectEvent(loc)), GameEvent::DropEvent(None)).board == g.board,
        step(step(g, GameEvent::SelectEvent(loc)), GameEvent::DropEvent(None)).selection is None,
{
    if spec_select_allowed(g, loc) {
        let p = loc.pile_id.0 as int;
        let pile = g.board[p];
        let g1 = spec_after_select(g, loc);
        let sel = g1.selection->Some_0;
        let g2 = spec_return(g1, sel);
        assert(g1.board[p].cards + sel.cards =~= pile.cards);
        assert(pile_with_cards(g1.board[p], g1.board[p].cards + sel.cards) =~~= pile);
        assert(g2.board =~~= g.board);
    } else {
        assert(step(g, GameEvent::SelectEvent(loc)) == g);
    }
}

} // verus!
