use std::collections::HashMap;
use school_sanctioned_gambling::cards::Deck;
use school_sanctioned_gambling::setup::{
    apply_option, choose_action, game_over_message, handle_keyboard, load_game, raise_button, tear_down_game_screen,
    KeyPress, OptionsResult,
};
use school_sanctioned_gambling::table::{GameResult, LastPlayerAction, NumPlayers, Player, PlayerAction, PokerPhase, PokerTurn};

fn seat(id: usize) -> Player {
    Player {
        player_id: id,
        cards: Vec::new(),
        cash: 100,
        current_bet: 0,
        has_folded: false,
        has_moved: false,
        is_all_in: false,
        has_raised: false,
        hand_strength: 0,
        move_dist: HashMap::new(),
        big_blind: false,
        small_blind: false,
    }
}

fn turn(cp: usize) -> PokerTurn {
    PokerTurn {
        current_player: cp,
        phase: PokerPhase::Flop,
        round_started: true,
        pot: 10,
        current_top_bet: 20,
        pot_raised: true,
        bet_made: true,
        small_blind: 2,
        big_blind: 3,
        small_blind_val: 5,
        big_blind_val: 10,
        is_first_round: false,
    }
}

fn options() -> OptionsResult {
    OptionsResult { money_per_player: 500, small_blind_amount: 25, big_blind_amount: 50, num_players: 4, is_loaded_game: false }
}

#[test]
fn text_boxes_take_digits_and_backspace() {
    let mut text: Vec<char> = vec!['1'];
    handle_keyboard(&mut text, &vec!['2', 'a', '3'], &vec![KeyPress::Back, KeyPress::Other]);
    assert_eq!(text, vec!['1', '2']);
    handle_keyboard(&mut text, &vec!['9'], &vec![KeyPress::Return(false), KeyPress::Back, KeyPress::Return(true), KeyPress::Back]);
    assert_eq!(text, vec!['1', '2']);
    let mut empty: Vec<char> = Vec::new();
    handle_keyboard(&mut empty, &Vec::new(), &vec![KeyPress::Back]);
    assert!(empty.is_empty());
}

#[test]
fn options_are_taken_from_the_boxes() {
    let mut o = options();
    apply_option(&mut o, 1, "10");
    apply_option(&mut o, 2, "20");
    apply_option(&mut o, 3, "1000");
    apply_option(&mut o, 4, "6");
    apply_option(&mut o, 5, "7");
    apply_option(&mut o, 4, "");
    assert_eq!((o.small_blind_amount, o.big_blind_amount, o.money_per_player, o.num_players), (10, 20, 1000, 6));
    // Lobbies hold two to six players: other numbers of players are not taken.
    apply_option(&mut o, 4, "7");
    assert_eq!(o.num_players, 6);
    apply_option(&mut o, 4, "1");
    assert_eq!(o.num_players, 6);
    apply_option(&mut o, 4, "2");
    assert_eq!(o.num_players, 2);
}

#[test]
fn text_boxes_keep_only_digits() {
    let mut text: Vec<char> = vec!['4', '2'];
    handle_keyboard(&mut text, &vec!['x', '7', ' ', '-', '0'], &vec![KeyPress::Other, KeyPress::Back]);
    assert_eq!(text, vec!['4', '2', '7']);
    assert!(text.iter().all(|c| c.is_ascii_digit()));
}

#[test]
fn a_game_is_set_up_and_torn_down() {
    let mut st = turn(0);
    let mut n = NumPlayers { player_count: 0 };
    let mut deck = Deck { cards: Vec::new() };
    load_game(&options(), &mut st, &mut n, &mut deck);
    assert_eq!(deck.cards.len(), 52);
    assert_eq!(n.player_count, 4);
    assert_eq!((st.small_blind, st.big_blind, st.small_blind_val, st.big_blind_val), (1, 2, 25, 50));
    let mut two = options();
    two.num_players = 2;
    load_game(&two, &mut st, &mut n, &mut deck);
    assert_eq!(st.big_blind, 0);
    tear_down_game_screen(&mut st);
    assert_eq!((st.current_player, st.pot, st.current_top_bet, st.small_blind, st.big_blind), (1, 0, 0, 1, 0));
    assert_eq!(st.phase, PokerPhase::PreFlop);
    assert!(!st.round_started && !st.bet_made && !st.pot_raised);
}

#[test]
fn buttons_only_act_on_the_human_turn() {
    let players = vec![seat(0), seat(1)];
    let mut last = LastPlayerAction { action: None };
    choose_action(&players, &turn(1), &mut last, PlayerAction::Check);
    assert_eq!(last.action, None);
    choose_action(&players, &turn(0), &mut last, PlayerAction::Fold);
    assert_eq!(last.action, Some(PlayerAction::Fold));
    choose_action(&vec![seat(1)], &turn(0), &mut last, PlayerAction::Call);
    assert_eq!(last.action, Some(PlayerAction::Fold));
}

#[test]
fn the_raise_button_reads_its_box() {
    let players = vec![seat(0), seat(1)];
    let mut last = LastPlayerAction { action: None };
    let mut st = turn(0);
    assert!(raise_button(&players, &mut st, &mut last, "30"));
    assert_eq!(st.current_top_bet, 50);
    assert_eq!(last.action, Some(PlayerAction::Raise));
    let mut last2 = LastPlayerAction { action: None };
    assert!(raise_button(&players, &mut st, &mut last2, "0"));
    assert!(raise_button(&players, &mut st, &mut last2, "abc"));
    assert_eq!(st.current_top_bet, 50);
    assert_eq!(last2.action, None);
    let mut other = turn(1);
    assert!(!raise_button(&players, &mut other, &mut last2, "30"));
    assert_eq!(other.current_top_bet, 20);
}

#[test]
fn game_over_heading() {
    assert_eq!(game_over_message(&GameResult { id: 0 }), "You Won!");
    assert_eq!(game_over_message(&GameResult { id: 2 }), "You Lost!");
}

#[test]
fn pressing_a_box_makes_it_the_only_active_one() {
    let mut boxes = vec![true, false, true];
    school_sanctioned_gambling::setup::activate(&mut boxes, 1);
    assert_eq!(boxes, vec![false, true, false]);
    school_sanctioned_gambling::setup::activate(&mut boxes, 7);
    assert_eq!(boxes, vec![false, false, false]);
}
