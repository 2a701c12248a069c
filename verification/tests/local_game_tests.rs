use std::collections::HashMap;
use school_sanctioned_gambling::local_game::{
    call_action, check_action, computer_calls, fold_action, next_player_turn, process_player_turn, raise_action,
    take_player_turn,
};
use school_sanctioned_gambling::table::{LastPlayerAction, NumPlayers, Player, PlayerAction, PokerPhase, PokerTurn};

fn seat(id: usize, cash: usize, bet: usize) -> Player {
    Player {
        player_id: id,
        cards: Vec::new(),
        cash,
        current_bet: bet,
        has_folded: false,
        has_moved: false,
        is_all_in: false,
        has_raised: false,
        hand_strength: 0,
        move_dist: HashMap::new(),
        big_blind: false,
        small_blind: false,
    }
}

fn turn(cp: usize, top: usize) -> PokerTurn {
    PokerTurn {
        current_player: cp,
        phase: PokerPhase::PreFlop,
        round_started: true,
        pot: 0,
        current_top_bet: top,
        pot_raised: false,
        bet_made: false,
        small_blind: 1,
        big_blind: 0,
        small_blind_val: 25,
        big_blind_val: 50,
        is_first_round: true,
    }
}

#[test]
fn a_check_needs_no_bet_standing() {
    let two = NumPlayers { player_count: 2 };
    let mut st = turn(1, 10);
    let mut ai = seat(1, 100, 10);
    let mut last = LastPlayerAction { action: Some(PlayerAction::Call) };
    check_action(&mut st, &mut ai, &two, &mut last);
    assert_eq!(last.action, Some(PlayerAction::Call));
    assert!(!ai.has_moved);
    let mut human = seat(0, 100, 10);
    check_action(&mut st, &mut human, &two, &mut last);
    assert_eq!(last.action, Some(PlayerAction::NoAction));
    let mut st0 = turn(1, 0);
    check_action(&mut st0, &mut ai, &two, &mut last);
    assert!(ai.has_moved);
    assert_eq!(st0.current_player, 0);
}

#[test]
fn a_raise_adds_fifty() {
    let two = NumPlayers { player_count: 2 };
    let mut st = turn(0, 20);
    let mut p = seat(0, 100, 20);
    let mut last = LastPlayerAction { action: Some(PlayerAction::Raise) };
    assert!(raise_action(&mut st, &mut p, &two, &mut last));
    assert_eq!((st.current_top_bet, st.pot, p.cash, p.current_bet), (70, 50, 50, 70));
    let mut poor = seat(1, 30, 0);
    let mut last2 = LastPlayerAction { action: Some(PlayerAction::Raise) };
    assert!(!raise_action(&mut st, &mut poor, &two, &mut last2));
    assert_eq!(last2.action, Some(PlayerAction::Raise));
}

#[test]
fn fold_and_call() {
    let two = NumPlayers { player_count: 2 };
    let mut st = turn(1, 40);
    let mut p = seat(1, 100, 0);
    let mut last = LastPlayerAction { action: None };
    call_action(&mut st, &mut p, &two, &mut last);
    assert_eq!((st.pot, p.cash, p.current_bet, st.current_player), (40, 60, 40, 0));
    let mut q = seat(0, 10, 0);
    call_action(&mut st, &mut q, &two, &mut last);
    assert!(q.is_all_in);
    assert_eq!(st.pot, 50);
    let mut r = seat(1, 10, 0);
    fold_action(&mut st, &mut r, &two, &mut last);
    assert!(r.has_folded);
}

#[test]
fn the_computer_calls_or_checks_on_the_draw() {
    let two = NumPlayers { player_count: 2 };
    let mut st = turn(1, 0);
    let mut players = vec![seat(0, 100, 0), seat(1, 100, 0)];
    let mut last = LastPlayerAction { action: None };
    process_player_turn(1, &mut st, &mut players, &two, &mut last, false);
    assert!(players[1].has_moved);
    assert_eq!(st.current_player, 0);
    let mut st2 = turn(1, 30);
    let mut players2 = vec![seat(0, 100, 30), seat(1, 100, 0)];
    process_player_turn(1, &mut st2, &mut players2, &two, &mut last, true);
    assert_eq!(players2[1].cash, 70);
    assert_eq!(st2.pot, 30);
}

#[test]
fn the_human_raise_reopens_the_betting() {
    let two = NumPlayers { player_count: 2 };
    let mut st = turn(0, 0);
    let mut players = vec![seat(0, 100, 0), seat(1, 100, 0)];
    players[1].has_moved = true;
    let mut last = LastPlayerAction { action: Some(PlayerAction::Raise) };
    process_player_turn(0, &mut st, &mut players, &two, &mut last, false);
    assert_eq!(st.current_top_bet, 50);
    assert!(!players[1].has_moved);
    assert!(players[0].has_moved && !players[0].has_raised);
}

#[test]
fn the_local_round_ends_without_moving_the_turn() {
    let mut st = turn(1, 50);
    let mut players = vec![seat(0, 100, 50), seat(1, 100, 50)];
    players[0].has_moved = true;
    players[1].has_moved = true;
    next_player_turn(&mut st, &mut players, 2);
    assert_eq!(st.phase, PokerPhase::Flop);
    assert_eq!(st.current_player, 1);
    assert_eq!(st.current_top_bet, 0);
    assert!(players.iter().all(|p| !p.has_moved && p.current_bet == 0));
}

#[test]
fn the_computer_draws_both_ways() {
    let draws: Vec<bool> = (0..2000).map(|_| computer_calls()).collect();
    let calls = draws.iter().filter(|c| **c).count();
    assert!(calls > 0 && calls < 2000);
    // The human player's turn takes the pending action whatever the draw.
    let two = NumPlayers { player_count: 2 };
    let mut st = turn(0, 0);
    let mut players = vec![seat(0, 100, 0), seat(1, 100, 0)];
    players[1].has_moved = true;
    let mut last = LastPlayerAction { action: Some(PlayerAction::Raise) };
    take_player_turn(0, &mut st, &mut players, &two, &mut last);
    assert_eq!(st.current_top_bet, 50);
    assert!(!players[1].has_moved);
}
