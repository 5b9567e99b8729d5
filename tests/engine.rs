use gwynt_core::{
    current_player_name, find_card_in_hand, Action, Board, Card, CardKind, GameState, Outcome,
    PlayerId, PlayerState, Row,
};

fn card(id: u32, power: u8, kind: CardKind, row: Row) -> Card {
    Card { id, name: format!("card{}", id), power, kind, row }
}

fn unit(id: u32, power: u8) -> Card {
    card(id, power, CardKind::Unit, Row::Melee)
}

fn spy(id: u32, power: u8) -> Card {
    card(id, power, CardKind::Spy, Row::Ranged)
}

fn hand_ids(p: &PlayerState) -> Vec<u32> {
    p.hand.iter().map(|c| c.id).collect()
}

fn all_ids(g: &GameState) -> Vec<u32> {
    let mut ids = Vec::new();
    for p in [&g.player1, &g.player2] {
        for zone in [&p.deck, &p.hand, &p.board.melee, &p.board.ranged, &p.board.siege] {
            ids.extend(zone.iter().map(|c| c.id));
        }
    }
    ids.sort();
    ids
}

#[test]
fn board_push_total_and_clear() {
    let mut b = Board::new();
    assert_eq!(b.total_power(), 0);
    b.push_card(card(1, 5, CardKind::Unit, Row::Melee));
    b.push_card(card(2, 7, CardKind::Unit, Row::Ranged));
    b.push_card(card(3, 9, CardKind::Spy, Row::Siege));
    b.push_card(card(4, 255, CardKind::Unit, Row::Siege));
    assert_eq!(b.melee.len(), 1);
    assert_eq!(b.ranged.len(), 1);
    assert_eq!(b.siege.len(), 2);
    assert_eq!(b.siege[1].id, 4);
    assert_eq!(b.total_power(), 5 + 7 + 9 + 255);
    b.clear();
    assert!(b.melee.is_empty() && b.ranged.is_empty() && b.siege.is_empty());
    assert_eq!(b.total_power(), 0);
}

#[test]
fn draw_takes_from_end_and_stops_when_empty() {
    let mut p = PlayerState {
        deck: vec![unit(1, 1), unit(2, 2), unit(3, 3)],
        hand: vec![unit(9, 9)],
        board: Board::new(),
        passed: false,
        rounds_won: 0,
    };
    p.draw(2);
    assert_eq!(hand_ids(&p), vec![9, 3, 2]);
    assert_eq!(p.deck.len(), 1);
    p.draw(5);
    assert_eq!(hand_ids(&p), vec![9, 3, 2, 1]);
    assert!(p.deck.is_empty());
    p.draw(2);
    assert_eq!(p.hand.len(), 4);
    p.board.push_card(unit(5, 6));
    assert_eq!(p.total_power(), 6);
}

#[test]
fn new_game_deals_opening_hands() {
    let deck1: Vec<Card> = (0..10).map(|i| unit(i, 1)).collect();
    let deck2: Vec<Card> = (100..103).map(|i| unit(i, 1)).collect();
    let g = GameState::new_with_decks(deck1, deck2);
    assert_eq!(g.player1.hand.len(), 7);
    assert_eq!(g.player1.deck.len(), 3);
    assert_eq!(hand_ids(&g.player1), vec![9, 8, 7, 6, 5, 4, 3]);
    assert_eq!(g.player2.hand.len(), 3);
    assert!(g.player2.deck.is_empty());
    assert_eq!(g.current_player, PlayerId::One);
    assert_eq!(g.round, 1);
    assert!(!g.finished);
    assert_eq!(g.winner(), None);
    assert_eq!(g.rounds_won(PlayerId::One), 0);
    assert_eq!(g.rounds_won(PlayerId::Two), 0);
}

#[test]
fn legal_actions_list_hand_then_one_pass() {
    let g = GameState::new_with_decks(vec![unit(0, 1), unit(1, 2)], vec![unit(5, 1)]);
    let acts = g.legal_actions();
    assert_eq!(acts, vec![Action::PlayCard(1), Action::PlayCard(0), Action::Pass]);
    assert_eq!(acts.iter().filter(|a| **a == Action::Pass).count(), 1);
}

#[test]
fn legal_actions_empty_after_pass_or_finish() {
    let passed = PlayerState {
        deck: vec![],
        hand: vec![unit(0, 1)],
        board: Board::new(),
        passed: true,
        rounds_won: 0,
    };
    let waiting = PlayerState {
        deck: vec![],
        hand: vec![unit(5, 1)],
        board: Board::new(),
        passed: false,
        rounds_won: 0,
    };
    let g = GameState {
        player1: passed,
        player2: waiting,
        current_player: PlayerId::One,
        round: 1,
        finished: false,
    };
    assert!(g.legal_actions().is_empty());
    let mut g = GameState::new_with_decks(vec![unit(0, 1)], vec![unit(5, 1), unit(6, 1)]);
    g.apply_action(Action::Pass);
    assert_eq!(g.current_player, PlayerId::Two);
    assert_eq!(g.legal_actions(), vec![Action::PlayCard(6), Action::PlayCard(5), Action::Pass]);
    g.apply_action(Action::Pass);
    g.apply_action(Action::Pass);
    g.apply_action(Action::Pass);
    g.apply_action(Action::Pass);
    g.apply_action(Action::Pass);
    assert!(g.finished);
    assert!(g.legal_actions().is_empty());
}

#[test]
fn turn_stays_when_other_side_is_done() {
    let mut g = GameState::new_with_decks(vec![unit(0, 1), unit(1, 1), unit(2, 1)], vec![unit(10, 1)]);
    g.apply_action(Action::PlayCard(2));
    assert_eq!(g.current_player, PlayerId::Two);
    g.apply_action(Action::Pass);
    assert_eq!(g.current_player, PlayerId::One);
    g.apply_action(Action::PlayCard(1));
    assert_eq!(g.current_player, PlayerId::One);
    assert_eq!(g.legal_actions(), vec![Action::PlayCard(0), Action::Pass]);
    g.apply_action(Action::PlayCard(0));
    assert_eq!(g.rounds_won(PlayerId::One), 1);
    assert_eq!(g.round, 2);
}

#[test]
fn outcome_tells_progress_win_and_tie_apart() {
    let mut g = GameState::new_with_decks(vec![unit(0, 1)], vec![unit(10, 1)]);
    assert_eq!(g.outcome(), Outcome::InProgress);
    for _ in 0..6 {
        g.apply_action(Action::Pass);
    }
    assert!(g.finished);
    assert_eq!(g.outcome(), Outcome::Tied);
    assert_eq!(g.winner(), None);
    let mut h = GameState::new_with_decks(vec![unit(0, 1), unit(1, 1)], vec![]);
    h.apply_action(Action::PlayCard(1));
    assert_eq!(h.rounds_won(PlayerId::One), 0);
    h.apply_action(Action::PlayCard(0));
    assert_eq!(h.rounds_won(PlayerId::One), 1);
    h.apply_action(Action::Pass);
    assert_eq!(h.round, 3);
    assert!(!h.finished);
    h.apply_action(Action::Pass);
    assert!(h.finished);
    assert_eq!(h.outcome(), Outcome::Decided(PlayerId::One));
}

#[test]
fn empty_hand_still_offers_pass() {
    let g = GameState::new_with_decks(vec![], vec![]);
    assert_eq!(g.legal_actions(), vec![Action::Pass]);
}

#[test]
fn stronger_board_wins_the_round() {
    let mut g = GameState::new_with_decks(vec![unit(0, 3), unit(1, 3)], vec![unit(10, 4), unit(11, 4)]);
    assert!(g.player1.deck.is_empty() && g.player2.deck.is_empty());
    g.apply_action(Action::PlayCard(0));
    assert_eq!(g.total_power(PlayerId::One), 3);
    assert_eq!(g.current_player, PlayerId::Two);
    g.apply_action(Action::PlayCard(10));
    assert_eq!(g.total_power(PlayerId::Two), 4);
    g.apply_action(Action::Pass);
    assert_eq!(g.current_player, PlayerId::Two);
    g.apply_action(Action::Pass);
    assert_eq!(g.rounds_won(PlayerId::Two), 1);
    assert_eq!(g.rounds_won(PlayerId::One), 0);
    assert_eq!(g.total_power(PlayerId::One), 0);
    assert_eq!(g.total_power(PlayerId::Two), 0);
    assert_eq!(g.round, 2);
    assert_eq!(g.current_player, PlayerId::One);
    assert!(!g.player1.passed && !g.player2.passed);
    assert_eq!(hand_ids(&g.player1), vec![1]);
    assert_eq!(hand_ids(&g.player2), vec![11]);
    assert!(!g.finished);
}

#[test]
fn spy_with_one_card_left_draws_one() {
    let mut deck1: Vec<Card> = (0..8).map(|i| unit(i, 1)).collect();
    deck1[3] = spy(3, 6);
    let mut g = GameState::new_with_decks(deck1, vec![]);
    assert_eq!(g.player1.deck.len(), 1);
    assert!(g.player2.hand.is_empty());
    let before = g.player1.hand.len();
    g.apply_action(Action::PlayCard(3));
    assert_eq!(g.player1.hand.len(), before - 1 + 1);
    assert!(g.player1.deck.is_empty());
    assert_eq!(g.player1.hand.last().map(|c| c.id), Some(0));
    assert_eq!(g.total_power(PlayerId::Two), 6);
    assert_eq!(g.total_power(PlayerId::One), 0);
    assert_eq!(g.player2.board.ranged[0].id, 3);
    assert!(g.player1.hand.iter().all(|c| c.id != 3));
    assert_eq!(g.current_player, PlayerId::One);
    assert_eq!(g.legal_actions().len(), 8);
}

#[test]
fn spy_draws_two_when_deck_allows() {
    let mut deck1: Vec<Card> = (0..10).map(|i| unit(i, 1)).collect();
    deck1[9] = spy(9, 2);
    let mut g = GameState::new_with_decks(deck1, vec![unit(50, 1)]);
    g.apply_action(Action::PlayCard(9));
    assert_eq!(g.player1.hand.len(), 7 - 1 + 2);
    assert_eq!(g.player1.deck.len(), 1);
    assert_eq!(g.total_power(PlayerId::Two), 2);
}

#[test]
fn spy_with_empty_deck_draws_nothing() {
    let mut g = GameState::new_with_decks(vec![unit(0, 1), spy(1, 4)], vec![unit(50, 1)]);
    g.apply_action(Action::PlayCard(1));
    assert_eq!(hand_ids(&g.player1), vec![0]);
    assert_eq!(g.total_power(PlayerId::Two), 4);
}

#[test]
fn both_pass_at_once_keeps_hands_and_ties() {
    let mut g = GameState::new_with_decks(vec![unit(0, 5), unit(1, 5)], vec![unit(10, 5)]);
    g.apply_action(Action::Pass);
    g.apply_action(Action::Pass);
    assert_eq!(hand_ids(&g.player1), vec![1, 0]);
    assert_eq!(hand_ids(&g.player2), vec![10]);
    assert_eq!(g.rounds_won(PlayerId::One), 0);
    assert_eq!(g.rounds_won(PlayerId::Two), 0);
    assert_eq!(g.round, 2);
    assert!(!g.finished);
}

#[test]
fn unknown_card_changes_nothing() {
    let mut g = GameState::new_with_decks(vec![unit(0, 5)], vec![unit(10, 5)]);
    g.apply_action(Action::PlayCard(10));
    assert_eq!(g.current_player, PlayerId::One);
    assert_eq!(hand_ids(&g.player1), vec![0]);
    assert_eq!(hand_ids(&g.player2), vec![10]);
    assert_eq!(g.total_power(PlayerId::One), 0);
}

#[test]
fn round_bonus_draws_two_then_one() {
    let deck1: Vec<Card> = (0..12).map(|i| unit(i, 1)).collect();
    let deck2: Vec<Card> = (100..112).map(|i| unit(i, 1)).collect();
    let mut g = GameState::new_with_decks(deck1, deck2);
    g.apply_action(Action::Pass);
    g.apply_action(Action::Pass);
    assert_eq!(g.player1.hand.len(), 9);
    assert_eq!(g.player2.hand.len(), 9);
    g.apply_action(Action::Pass);
    g.apply_action(Action::Pass);
    assert_eq!(g.player1.hand.len(), 10);
    assert_eq!(g.player2.hand.len(), 10);
    assert_eq!(g.round, 3);
    g.apply_action(Action::Pass);
    g.apply_action(Action::Pass);
    assert_eq!(g.player1.hand.len(), 10);
    assert!(g.finished);
    assert_eq!(g.round, 3);
    assert_eq!(g.winner(), None);
}

#[test]
fn two_round_wins_end_the_match() {
    let mut g = GameState::new_with_decks(
        vec![unit(0, 9), unit(1, 9), unit(2, 9)],
        vec![unit(10, 1), unit(11, 1), unit(12, 1)],
    );
    g.apply_action(Action::PlayCard(2));
    g.apply_action(Action::Pass);
    g.apply_action(Action::Pass);
    assert_eq!(g.rounds_won(PlayerId::One), 1);
    assert_eq!(g.winner(), None);
    g.apply_action(Action::PlayCard(1));
    g.apply_action(Action::Pass);
    g.apply_action(Action::Pass);
    assert_eq!(g.rounds_won(PlayerId::One), 2);
    assert!(g.finished);
    assert_eq!(g.round, 2);
    assert_eq!(g.winner(), Some(PlayerId::One));
    let before = all_ids(&g);
    g.apply_action(Action::PlayCard(0));
    g.apply_action(Action::Pass);
    assert!(g.finished);
    assert_eq!(all_ids(&g), before);
    assert!(g.legal_actions().is_empty());
}

#[test]
fn player_two_can_win() {
    let mut g = GameState::new_with_decks(vec![unit(0, 1), unit(1, 1)], vec![unit(10, 5), unit(11, 5)]);
    g.apply_action(Action::Pass);
    g.apply_action(Action::PlayCard(11));
    assert_eq!(g.current_player, PlayerId::Two);
    assert_eq!(g.legal_actions(), vec![Action::PlayCard(10), Action::Pass]);
    g.apply_action(Action::Pass);
    assert_eq!(g.rounds_won(PlayerId::Two), 1);
    assert_eq!(g.current_player, PlayerId::One);
    g.apply_action(Action::Pass);
    g.apply_action(Action::PlayCard(10));
    assert!(g.finished);
    assert_eq!(g.rounds_won(PlayerId::Two), 2);
    assert_eq!(g.winner(), Some(PlayerId::Two));
    assert_eq!(g.outcome(), Outcome::Decided(PlayerId::Two));
}

#[test]
fn cards_only_leave_from_boards_at_round_end() {
    let deck1: Vec<Card> = (0..9).map(|i| unit(i, 2)).collect();
    let deck2: Vec<Card> = (100..109).map(|i| if i == 104 { spy(i, 3) } else { unit(i, 2) }).collect();
    let mut g = GameState::new_with_decks(deck1, deck2);
    let start = all_ids(&g);
    assert_eq!(start.len(), 18);
    g.apply_action(Action::PlayCard(8));
    g.apply_action(Action::PlayCard(104));
    assert_eq!(all_ids(&g), start);
    let mut on_boards: Vec<u32> = Vec::new();
    for p in [&g.player1, &g.player2] {
        on_boards.extend(p.board.melee.iter().chain(p.board.ranged.iter()).map(|c| c.id));
    }
    g.apply_action(Action::Pass);
    g.apply_action(Action::Pass);
    let mut after = all_ids(&g);
    after.extend(on_boards);
    after.sort();
    assert_eq!(after, start);
}

#[test]
fn names_and_card_lookup_follow_current_player() {
    let mut g = GameState::new_with_decks(vec![unit(0, 3)], vec![unit(10, 4)]);
    assert_eq!(current_player_name(&g, "Ann", "Bo"), "Ann");
    assert_eq!(find_card_in_hand(&g, 0).map(|c| c.power), Some(3));
    assert!(find_card_in_hand(&g, 10).is_none());
    g.apply_action(Action::Pass);
    assert_eq!(current_player_name(&g, "Ann", "Bo"), "Bo");
    assert_eq!(find_card_in_hand(&g, 10).map(|c| c.power), Some(4));
}
