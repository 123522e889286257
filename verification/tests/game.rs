use simple_solitaire::board::{BoardItemStyle, CardLocation, PileFlow, PileId};
use simple_solitaire::cards::{Card, Rank, Suit};
use simple_solitaire::games::{Game, GameEvent, GameStatus};
use simple_solitaire::{get_game_entries, GameVariant};

fn new_game() -> Game {
    let entries = get_game_entries();
    let mut game = entries[0].create();
    game.setup();
    game
}

fn snapshot(game: &Game) -> Vec<Vec<Card>> {
    game.board_ref()
        .pile_iter()
        .iter()
        .map(|pile| pile.card_iter().clone())
        .collect()
}

fn total_pile_cards(game: &Game) -> usize {
    game.board_ref().pile_iter().iter().map(|pile| pile.card_iter().len()).sum()
}

#[test]
fn registry_offers_freecell() {
    let entries = get_game_entries();
    assert_eq!(entries.len(), 1);
    assert_eq!(entries[0].name, "FreeCell");
    assert!(entries[0].variant == GameVariant::FreeCell);
}

#[test]
fn freecell_layout_after_setup() {
    let game = new_game();
    let piles = game.board_ref().pile_iter();
    assert_eq!(piles.len(), 16);

    // 4 cell piles at row 0, columns 0-3, empty.
    for i in 0..4 {
        let pile = &piles[i];
        assert_eq!(pile.loc.x, i as u8);
        assert_eq!(pile.loc.y, 0);
        assert_eq!(pile.card_iter().len(), 0);
        assert!(matches!(pile.flow, PileFlow::Stack));
        assert!(matches!(pile.empty_style, BoardItemStyle::Empty));
    }

    // 4 foundation piles at row 0, columns 4-7, empty, each requiring an
    // Ace to accept its first card.
    for i in 4..8 {
        let pile = &piles[i];
        assert_eq!(pile.loc.x, i as u8);
        assert_eq!(pile.loc.y, 0);
        assert_eq!(pile.card_iter().len(), 0);
        assert!(matches!(pile.flow, PileFlow::Stack));
        assert!(matches!(pile.empty_style, BoardItemStyle::Ace(_)));
        assert!(pile.can_accept_card(&Card { suit: Suit::Spades, rank: Rank::Ace }));
        assert!(!pile.can_accept_card(&Card { suit: Suit::Spades, rank: Rank::King }));
        assert!(!pile.can_accept_card(&Card { suit: Suit::Spades, rank: Rank::Value(2) }));
    }

    // 8 tableau piles at row 1, columns 0-7, holding 7,7,7,7,6,6,6,6.
    let expected_lens = [7, 7, 7, 7, 6, 6, 6, 6];
    for i in 8..16 {
        let pile = &piles[i];
        assert_eq!(pile.loc.x, (i - 8) as u8);
        assert_eq!(pile.loc.y, 1);
        assert_eq!(pile.card_iter().len(), expected_lens[i - 8]);
        assert!(matches!(pile.flow, PileFlow::Down));
    }

    assert_eq!(total_pile_cards(&game), 52);
    assert_eq!(game.selection_card_count(), 0);
}

#[test]
fn max_board_pos_after_setup() {
    let game = new_game();
    let max = game.board_ref().max_board_pos();
    assert_eq!(max.x, 7);
    assert_eq!(max.y, 1);
}

#[test]
fn select_then_cancel_restores_board() {
    let mut game = new_game();
    let before = snapshot(&game);

    // Lift the top card of the first tableau pile, then cancel.
    let top_idx = before[8].len() - 1;
    game.handle_event(GameEvent::SelectEvent(CardLocation {
        pile_id: PileId(8),
        card_idx: top_idx,
    }));
    assert_eq!(game.selection_card_count(), 1);
    assert_eq!(total_pile_cards(&game), 51);

    game.handle_event(GameEvent::DropEvent(None));
    assert_eq!(game.selection_card_count(), 0);
    let after = snapshot(&game);
    assert_eq!(before, after);
}

#[test]
fn card_count_invariant_across_events() {
    let mut game = new_game();
    let count = |g: &Game| total_pile_cards(g) + g.selection_card_count();
    assert_eq!(count(&game), 52);

    let top_idx = game.board_ref().pile_iter()[8].card_iter().len() - 1;
    let select = GameEvent::SelectEvent(CardLocation { pile_id: PileId(8), card_idx: top_idx });

    // Select, drop onto an empty cell (accepted), select again, cancel,
    // select, drop onto a full cell (rejected, run returns): the total
    // stays 52 at every observation point.
    game.handle_event(select);
    assert_eq!(count(&game), 52);
    game.handle_event(GameEvent::DropEvent(Some(PileId(0))));
    assert_eq!(count(&game), 52);
    assert_eq!(game.board_ref().pile_iter()[0].card_iter().len(), 1);

    let top_idx = game.board_ref().pile_iter()[8].card_iter().len() - 1;
    game.handle_event(GameEvent::SelectEvent(CardLocation {
        pile_id: PileId(8),
        card_idx: top_idx,
    }));
    assert_eq!(count(&game), 52);
    game.handle_event(GameEvent::DropEvent(None));
    assert_eq!(count(&game), 52);

    let top_idx = game.board_ref().pile_iter()[8].card_iter().len() - 1;
    game.handle_event(GameEvent::SelectEvent(CardLocation {
        pile_id: PileId(8),
        card_idx: top_idx,
    }));
    assert_eq!(count(&game), 52);
    // Pile 0 already holds its single allowed card: the drop is refused
    // and the run returns to its source.
    game.handle_event(GameEvent::DropEvent(Some(PileId(0))));
    assert_eq!(count(&game), 52);
    assert_eq!(game.board_ref().pile_iter()[0].card_iter().len(), 1);
}

#[test]
fn tableau_top_availability_rejects_inner_index() {
    let mut game = new_game();
    let before = snapshot(&game);
    // Tableau piles restrict lifting to the top card; index 0 is not the
    // pile's last index (the pile holds 7 cards), so nothing is selected.
    game.handle_event(GameEvent::SelectEvent(CardLocation { pile_id: PileId(8), card_idx: 0 }));
    assert_eq!(game.selection_card_count(), 0);
    assert_eq!(snapshot(&game), before);
}

#[test]
fn drop_without_selection_is_a_no_op() {
    let mut game = new_game();
    let before = snapshot(&game);
    game.handle_event(GameEvent::DropEvent(Some(PileId(0))));
    game.handle_event(GameEvent::DropEvent(None));
    assert_eq!(snapshot(&game), before);
    assert_eq!(game.selection_card_count(), 0);
}

#[test]
fn cell_accepts_one_card_then_rejects() {
    let mut game = new_game();
    let top_idx = game.board_ref().pile_iter()[8].card_iter().len() - 1;
    game.handle_event(GameEvent::SelectEvent(CardLocation {
        pile_id: PileId(8),
        card_idx: top_idx,
    }));
    game.handle_event(GameEvent::DropEvent(Some(PileId(0))));
    assert_eq!(game.board_ref().pile_iter()[0].card_iter().len(), 1);

    // A second card is refused: the cell is configured Count(1). The run
    // returns to its source pile.
    let source_len = game.board_ref().pile_iter()[9].card_iter().len();
    game.handle_event(GameEvent::SelectEvent(CardLocation {
        pile_id: PileId(9),
        card_idx: source_len - 1,
    }));
    game.handle_event(GameEvent::DropEvent(Some(PileId(0))));
    assert_eq!(game.board_ref().pile_iter()[0].card_iter().len(), 1);
    assert_eq!(game.board_ref().pile_iter()[9].card_iter().len(), source_len);
}

#[test]
fn status_check_is_an_extension_point() {
    let game = new_game();
    assert!(game.get_status() == GameStatus::Unsupported);
}

#[test]
fn card_locations_for_hit_testing() {
    let game = new_game();
    let piles = game.board_ref().pile_iter();
    let pile = &piles[8];
    let pairs = pile.card_iter_ex();
    assert_eq!(pairs.len(), 7);
    for (idx, (card, loc)) in pairs.iter().enumerate() {
        assert!(loc.pile_id == PileId(8));
        assert_eq!(loc.card_idx, idx);
        assert!(*card == pile.card_iter()[idx]);
    }
}

#[test]
fn reversed_card_iteration() {
    let game = new_game();
    let pile = &game.board_ref().pile_iter()[8];
    let forward = pile.card_iter().clone();
    let backward = pile.card_iter_rev();
    assert_eq!(forward.len(), backward.len());
    for i in 0..forward.len() {
        assert!(forward[i] == backward[backward.len() - 1 - i]);
    }
}

#[test]
fn selecting_from_a_selected_game_is_refused() {
    let mut game = new_game();
    let top8 = game.board_ref().pile_iter()[8].card_iter().len() - 1;
    let top9 = game.board_ref().pile_iter()[9].card_iter().len() - 1;
    game.handle_event(GameEvent::SelectEvent(CardLocation { pile_id: PileId(8), card_idx: top8 }));
    assert_eq!(game.selection_card_count(), 1);
    // A second select while a run is in flight leaves the game unchanged:
    // the selection must first be resolved by a drop.
    let before = snapshot(&game);
    game.handle_event(GameEvent::SelectEvent(CardLocation { pile_id: PileId(9), card_idx: top9 }));
    assert_eq!(game.selection_card_count(), 1);
    assert_eq!(snapshot(&game), before);
    game.handle_event(GameEvent::DropEvent(None));
    assert_eq!(game.selection_card_count(), 0);
}
