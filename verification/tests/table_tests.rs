use std::collections::HashMap;
use school_sanctioned_gambling::table::{
    call_action, check_action, fold_action, next_player_turn, process_player_turn, raise_action, LastPlayerAction,
    NumPlayers, Player, PlayerAction, PokerPhase, PokerTurn,
};

fn seat(id: usize, cash: usize, bet: usize) -> Player {
    Player {
        player_id: id,
        cards: Vec::new(),
        cash,
        current_bet: bet,
        has_folded: false,
        has_moved: false,
        is_all_in: false,
        has_raised: false,
        hand_strength: 0,
        move_dist: HashMap::new(),
        big_blind: false,
        small_blind: false,
    }
}

fn turn(cp: usize, pot: usize, top: usize) -> PokerTurn {
    PokerTurn {
        current_player: cp,
        phase: PokerPhase::PreFlop,
        round_started: true,
        pot,
        current_top_bet: top,
        pot_raised: false,
        bet_made: false,
        small_blind: 1,
        big_blind: 2,
        small_blind_val: 25,
        big_blind_val: 50,
        is_first_round: true,
    }
}

#[test]
fn check_is_refused_below_the_top_bet() {
    let mut st = turn(0, 75, 50);
    let mut p = seat(0, 100, 25);
    let mut last = LastPlayerAction { action: Some(PlayerAction::Check) };
    check_action(&mut st, &mut p, &NumPlayers { player_count: 3 }, &mut last);
    assert_eq!(st.current_player, 0);
    assert!(!p.has_moved);
    assert_eq!(last.action, Some(PlayerAction::NoAction));
    let mut p2 = seat(0, 100, 50);
    check_action(&mut st, &mut p2, &NumPlayers { player_count: 3 }, &mut last);
    assert_eq!(st.current_player, 1);
    assert!(p2.has_moved);
}

#[test]
fn call_pays_the_difference_or_goes_all_in() {
    let mut st = turn(2, 75, 50);
    let mut p = seat(2, 100, 0);
    let mut last = LastPlayerAction { action: Some(PlayerAction::Call) };
    call_action(&mut st, &mut p, &NumPlayers { player_count: 3 }, &mut last);
    assert_eq!((st.pot, p.cash, p.current_bet, st.current_player), (125, 50, 50, 0));
    assert!(!p.is_all_in);
    let mut st2 = turn(0, 75, 50);
    let mut short = seat(0, 30, 0);
    call_action(&mut st2, &mut short, &NumPlayers { player_count: 3 }, &mut last);
    assert_eq!((st2.pot, short.cash, short.current_bet), (105, 0, 30));
    assert!(short.is_all_in);
}

#[test]
fn raise_pays_up_to_the_raised_top_bet() {
    let mut st = turn(0, 75, 150);
    let mut p = seat(0, 200, 50);
    let mut last = LastPlayerAction { action: Some(PlayerAction::Raise) };
    assert!(raise_action(&mut st, &mut p, &NumPlayers { player_count: 3 }, &mut last, "Current Top Bet: $50"));
    assert_eq!((st.pot, p.cash, p.current_bet, st.current_player), (175, 100, 150, 1));
    assert!(p.has_raised);
    // Too short: the top bet goes back to what the text shows.
    let mut st2 = turn(0, 75, 500);
    let mut poor = seat(0, 100, 50);
    assert!(!raise_action(&mut st2, &mut poor, &NumPlayers { player_count: 3 }, &mut last, "Current Top Bet: $50"));
    assert_eq!(st2.current_top_bet, 50);
    assert_eq!(poor.cash, 100);
}

#[test]
fn fold_leaves_the_round() {
    let mut st = turn(2, 75, 50);
    let mut p = seat(2, 100, 0);
    let mut last = LastPlayerAction { action: Some(PlayerAction::Fold) };
    fold_action(&mut st, &mut p, &NumPlayers { player_count: 3 }, &mut last);
    assert!(p.has_folded && p.has_moved);
    assert_eq!(st.current_player, 0);
    assert_eq!(st.pot + p.cash, 175);
}

#[test]
fn a_raise_reopens_the_betting() {
    let mut st = turn(0, 75, 100);
    let mut players = vec![seat(0, 200, 50), seat(1, 100, 25), seat(2, 100, 50)];
    players[1].has_moved = true;
    players[2].has_moved = true;
    let mut last = LastPlayerAction { action: Some(PlayerAction::Raise) };
    process_player_turn(0, &mut st, &mut players, &NumPlayers { player_count: 3 }, &mut last, "Top: $50");
    assert!(players[0].has_moved);
    assert!(!players[0].has_raised);
    assert!(!players[1].has_moved && !players[2].has_moved);
    assert_eq!(st.pot, 125);
    assert_eq!(last.action, Some(PlayerAction::NoAction));
}

#[test]
fn a_seat_that_cannot_act_passes_the_turn() {
    let mut st = turn(1, 75, 50);
    let mut players = vec![seat(0, 200, 50), seat(1, 0, 25), seat(2, 100, 50)];
    players[1].is_all_in = true;
    let mut last = LastPlayerAction { action: Some(PlayerAction::Call) };
    process_player_turn(1, &mut st, &mut players, &NumPlayers { player_count: 3 }, &mut last, "");
    assert!(players[1].has_moved);
    assert_eq!(st.current_player, 2);
    assert_eq!(last.action, Some(PlayerAction::Call));
}

#[test]
fn the_round_ends_when_everyone_has_moved() {
    let mut st = turn(0, 150, 50);
    let mut players = vec![seat(0, 200, 50), seat(1, 100, 50), seat(2, 100, 50)];
    for p in players.iter_mut() {
        p.has_moved = true;
    }
    next_player_turn(&mut st, &mut players, 3);
    assert_eq!(st.phase, PokerPhase::Flop);
    assert_eq!(st.current_top_bet, 0);
    assert_eq!(st.current_player, 1);
    assert!(players.iter().all(|p| !p.has_moved && p.current_bet == 0));
    // Not everyone has moved: nothing changes.
    players[0].has_moved = true;
    next_player_turn(&mut st, &mut players, 3);
    assert_eq!(st.phase, PokerPhase::Flop);
}

#[test]
fn heads_up_the_big_blind_opens() {
    let mut st = turn(0, 150, 50);
    let mut players = vec![seat(0, 0, 50), seat(1, 100, 50), seat(2, 100, 50)];
    for p in players.iter_mut() {
        p.has_moved = true;
    }
    next_player_turn(&mut st, &mut players, 3);
    assert_eq!(st.current_player, 2);
}
