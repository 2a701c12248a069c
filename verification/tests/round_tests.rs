use std::collections::HashMap;
use school_sanctioned_gambling::cards::{init_cards, Card, Deck, Suit};
use school_sanctioned_gambling::round::{
    active_seat_count, contains_id, find_winners, post_blinds, seat_has_moved, settle_showdown, spawn_player_cards,
    turn_system,
};
use school_sanctioned_gambling::table::{LastPlayerAction, NumPlayers, Player, PlayerAction, PokerPhase, PokerTurn};

fn seat(id: usize, cash: usize) -> Player {
    Player {
        player_id: id,
        cards: Vec::new(),
        cash,
        current_bet: 0,
        has_folded: false,
        has_moved: false,
        is_all_in: false,
        has_raised: false,
        hand_strength: 0,
        move_dist: HashMap::new(),
        big_blind: false,
        small_blind: false,
    }
}

fn new_turn() -> PokerTurn {
    PokerTurn {
        current_player: 1,
        phase: PokerPhase::PreFlop,
        round_started: false,
        pot: 0,
        current_top_bet: 0,
        pot_raised: false,
        bet_made: false,
        small_blind: 1,
        big_blind: 2,
        small_blind_val: 25,
        big_blind_val: 50,
        is_first_round: true,
    }
}

#[test]
fn seats_are_looked_up_by_player() {
    let mut players = vec![seat(0, 10), seat(1, 10)];
    players[1].has_moved = true;
    assert!(seat_has_moved(&players, 1));
    assert!(!seat_has_moved(&players, 0));
    assert!(!seat_has_moved(&players, 7));
    players[0].has_folded = true;
    assert_eq!(active_seat_count(&players), 1);
    assert!(contains_id(&vec![3, 5], 5));
    assert!(!contains_id(&vec![3, 5], 4));
}

#[test]
fn blinds_are_posted_and_keep_the_chips() {
    let mut st = new_turn();
    let mut players = vec![seat(0, 500), seat(1, 500), seat(2, 30)];
    post_blinds(&mut st, &mut players);
    assert_eq!(players[1].cash, 475);
    assert_eq!(players[1].current_bet, 25);
    assert!(players[1].small_blind);
    assert_eq!(players[2].cash, 0);
    assert_eq!(players[2].current_bet, 30);
    assert!(players[2].is_all_in && players[2].big_blind);
    assert_eq!(st.pot, 55);
    assert_eq!(st.current_top_bet, 30);
    let chips: usize = players.iter().map(|p| p.cash).sum::<usize>() + st.pot;
    assert_eq!(chips, 1030);
}

#[test]
fn dealt_cards_go_to_existing_seats_and_new_seats_are_returned() {
    let mut seats = vec![seat(1, 100)];
    let dealt = {
        let mut d = vec![seat(0, 500), seat(1, 500)];
        d[0].cards = vec![Card::new(0, Suit::Hearts, 1), Card::new(1, Suit::Hearts, 2)];
        d[1].cards = vec![Card::new(2, Suit::Hearts, 3), Card::new(3, Suit::Hearts, 4)];
        d[1].hand_strength = 7;
        d
    };
    let spawned = spawn_player_cards(&dealt, &mut seats);
    assert_eq!(seats[0].cash, 100);
    assert_eq!(seats[0].cards[0]._card_id, 2);
    assert_eq!(seats[0].hand_strength, 7);
    assert_eq!(spawned.len(), 1);
    assert_eq!(spawned[0].player_id, 0);
    assert_eq!(spawned[0].cash, 500);
    assert_eq!(spawned[0].hand_strength, 16);
    assert!(spawned[0].move_dist.contains_key(&16));
}

#[test]
fn a_single_winner_takes_the_pot_and_blinds_move_on() {
    let mut st = new_turn();
    st.phase = PokerPhase::Showdown;
    st.pot = 300;
    st.small_blind = 0;
    let mut players = vec![seat(0, 100), seat(1, 0), seat(2, 50)];
    players[0].current_bet = 40;
    let over = settle_showdown(&mut st, &mut players, &vec![2], 3);
    assert!(over.is_none());
    assert_eq!(players[2].cash, 350);
    assert!(players[1].has_folded);
    assert_eq!(players[0].current_bet, 0);
    assert_eq!(st.pot, 0);
    // Seat 1 is out: the small blind skips it, the big blind follows.
    assert_eq!(st.small_blind, 2);
    assert_eq!(st.big_blind, 0);
    assert_eq!(st.current_player, 1);
    assert_eq!(st.phase, PokerPhase::PreFlop);
    assert!(!st.is_first_round && !st.round_started);
}

#[test]
fn a_split_pot_is_shared_rounding_down() {
    let mut st = new_turn();
    st.pot = 101;
    let mut players = vec![seat(0, 10), seat(1, 10), seat(2, 10)];
    let over = settle_showdown(&mut st, &mut players, &vec![0, 2], 3);
    assert!(over.is_none());
    assert_eq!(players[0].cash, 60);
    assert_eq!(players[1].cash, 10);
    assert_eq!(players[2].cash, 60);
}

#[test]
fn the_game_ends_when_one_seat_has_chips() {
    let mut st = new_turn();
    st.pot = 200;
    let mut players = vec![seat(0, 0), seat(1, 0), seat(2, 0)];
    let over = settle_showdown(&mut st, &mut players, &vec![1], 3);
    assert_eq!(over.map(|r| r.id), Some(1));
    assert_eq!(st.small_blind, 1);
    assert_eq!(st.big_blind, 1);
}

#[test]
fn winners_when_all_but_one_fold() {
    let mut players = vec![seat(0, 10), seat(1, 10), seat(2, 10)];
    players[0].has_folded = true;
    players[2].has_folded = true;
    assert_eq!(find_winners(&players, &Vec::new()), vec![1]);
}

#[test]
fn only_the_strongest_hand_wins() {
    let mut players = vec![seat(0, 10), seat(1, 10)];
    players[0].cards = vec![Card::new(6, Suit::Hearts, 7), Card::new(27, Suit::Spades, 2)];
    players[1].cards = vec![Card::new(0, Suit::Hearts, 1), Card::new(13, Suit::Diamonds, 1)];
    let community = vec![
        Card::new(41, Suit::Clubs, 3),
        Card::new(30, Suit::Spades, 5),
        Card::new(21, Suit::Diamonds, 9),
        Card::new(49, Suit::Clubs, 11),
        Card::new(11, Suit::Hearts, 12),
    ];
    // The pair of aces beats queen high; the weaker hand shares nothing.
    assert_eq!(find_winners(&players, &community), vec![1]);
}

#[test]
fn the_first_step_deals_and_the_second_posts_the_blinds() {
    let mut st = new_turn();
    let mut players: Vec<Player> = Vec::new();
    let mut deck = Deck { cards: init_cards() };
    let mut community: Vec<Card> = Vec::new();
    let count = NumPlayers { player_count: 3 };
    let mut last = LastPlayerAction { action: Some(PlayerAction::NoAction) };
    let report = turn_system(&mut st, &mut players, &mut deck, &mut community, &count, &mut last, 500, "");
    assert!(!report.pause);
    assert!(report.game_over.is_none());
    assert_eq!(players.len(), 3);
    assert_eq!(deck.cards.len(), 46);
    assert!(!st.round_started);
    assert_eq!(st.current_player, 0);
    let report = turn_system(&mut st, &mut players, &mut deck, &mut community, &count, &mut last, 500, "");
    assert!(!report.pause);
    assert!(st.round_started);
    assert_eq!(st.pot, 75);
    assert_eq!(st.current_top_bet, 50);
    assert_eq!(players[1].cash, 475);
    assert_eq!(players[2].cash, 450);
    assert_eq!(deck.cards.len(), 46);
}

#[test]
fn the_flop_is_dealt_once() {
    let mut st = new_turn();
    st.phase = PokerPhase::Flop;
    st.round_started = true;
    st.current_player = 0;
    let mut players = vec![seat(0, 100), seat(1, 100), seat(2, 100)];
    let mut cards = init_cards();
    cards.drain(0..6);
    let mut deck = Deck { cards };
    let mut community: Vec<Card> = Vec::new();
    let count = NumPlayers { player_count: 3 };
    let mut last = LastPlayerAction { action: Some(PlayerAction::NoAction) };
    turn_system(&mut st, &mut players, &mut deck, &mut community, &count, &mut last, 500, "");
    assert_eq!(community.len(), 3);
    assert_eq!(community[0]._card_id, 6);
    assert_eq!(deck.cards.len(), 43);
    turn_system(&mut st, &mut players, &mut deck, &mut community, &count, &mut last, 500, "");
    assert_eq!(community.len(), 3);
}

#[test]
fn a_lone_player_wins_at_once() {
    let mut st = new_turn();
    st.phase = PokerPhase::Turn;
    st.round_started = true;
    st.pot = 90;
    st.small_blind = 0;
    st.is_first_round = false;
    let mut players = vec![seat(0, 100), seat(1, 100), seat(2, 100)];
    players[0].has_folded = true;
    players[2].has_folded = true;
    let mut deck = Deck { cards: Vec::new() };
    let mut community = vec![Card::new(0, Suit::Hearts, 1)];
    let count = NumPlayers { player_count: 3 };
    let mut last = LastPlayerAction { action: None };
    let report = turn_system(&mut st, &mut players, &mut deck, &mut community, &count, &mut last, 500, "");
    assert!(report.game_over.is_none());
    assert_eq!(players[1].cash, 190);
    assert!(players.iter().all(|p| !p.has_folded));
    assert_eq!(deck.cards.len(), 52);
    assert!(community.is_empty());
    assert_eq!(st.phase, PokerPhase::PreFlop);
    assert_eq!(st.small_blind, 1);
    assert_eq!(st.big_blind, 2);
    assert_eq!(st.current_player, 0);
}

#[test]
fn a_later_round_asks_for_a_pause() {
    let mut st = new_turn();
    st.is_first_round = false;
    let mut players = vec![seat(0, 100), seat(1, 100), seat(2, 100)];
    let mut deck = Deck { cards: Vec::new() };
    let mut community: Vec<Card> = Vec::new();
    let count = NumPlayers { player_count: 3 };
    let mut last = LastPlayerAction { action: None };
    let report = turn_system(&mut st, &mut players, &mut deck, &mut community, &count, &mut last, 500, "");
    assert!(report.pause);
    assert_eq!(st.pot, 75);
}

#[test]
fn a_betting_step_keeps_the_chips() {
    let mut st = new_turn();
    st.round_started = true;
    st.current_player = 0;
    st.current_top_bet = 100;
    st.pot = 75;
    let mut players = vec![seat(0, 500), seat(1, 475), seat(2, 450)];
    players[1].current_bet = 25;
    players[2].current_bet = 50;
    let mut deck = Deck { cards: Vec::new() };
    let mut community: Vec<Card> = Vec::new();
    let count = NumPlayers { player_count: 3 };
    let mut last = LastPlayerAction { action: Some(PlayerAction::Raise) };
    let before: usize = players.iter().map(|p| p.cash).sum::<usize>() + st.pot;
    turn_system(&mut st, &mut players, &mut deck, &mut community, &count, &mut last, 500, "Current Top Bet: $50");
    let after: usize = players.iter().map(|p| p.cash).sum::<usize>() + st.pot;
    assert_eq!(before, after);
    assert_eq!(players[0].cash, 400);
    assert_eq!(st.current_player, 1);
}
