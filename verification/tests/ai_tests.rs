use std::collections::HashMap;
use school_sanctioned_gambling::cards::{init_cards, Card, Suit};
use school_sanctioned_gambling::cheating_ai::{bet_move, find_winning_hand};
use school_sanctioned_gambling::easy_ai::{
    fill_move_set as easy_fill_move_set, generate_card_strength as easy_card_strength, generate_move as easy_generate_move,
    generate_post_flop_hand_strength,
    generate_pre_flop_hand_strength, move_for_number as easy_move_for_number, TreeNode,
};
use school_sanctioned_gambling::preflop::{
    fill_move_set, generate_card_strength, generate_hand_strength, generate_move, move_for_number, Player as Starting,
};
use school_sanctioned_gambling::table::{Player, PokerPhase, PokerTurn};

fn c(id: u8, suit: Suit, value: u8) -> Card {
    Card::new(id, suit, value)
}

fn seat(id: usize, cards: Vec<Card>, cash: usize) -> Player {
    Player {
        player_id: id,
        cards,
        cash,
        current_bet: 0,
        has_folded: false,
        has_moved: false,
        is_all_in: false,
        has_raised: false,
        hand_strength: 0,
        move_dist: HashMap::new(),
        big_blind: false,
        small_blind: false,
    }
}

fn turn(phase: PokerPhase) -> PokerTurn {
    PokerTurn {
        current_player: 0,
        phase,
        round_started: true,
        pot: 0,
        current_top_bet: 0,
        pot_raised: false,
        bet_made: false,
        small_blind: 1,
        big_blind: 2,
        small_blind_val: 25,
        big_blind_val: 50,
        is_first_round: true,
    }
}

#[test]
fn card_and_hand_strengths() {
    assert_eq!(generate_card_strength(1), 14);
    assert_eq!(generate_card_strength(9), 9);
    assert_eq!(easy_card_strength(1), 14);
    assert_eq!(easy_card_strength(13), 13);
    assert_eq!(generate_hand_strength(&vec![c(0, Suit::Hearts, 1), c(13, Suit::Diamonds, 13)]), 27);
    assert_eq!(generate_pre_flop_hand_strength(&vec![c(1, Suit::Hearts, 2), c(14, Suit::Diamonds, 2)]), 4);
    let p = Starting::new(vec![c(0, Suit::Hearts, 1), c(1, Suit::Hearts, 2)], &vec![c(0, Suit::Hearts, 1), c(1, Suit::Hearts, 2)]);
    assert_eq!(p.hand_strength, 16);
}

#[test]
fn preflop_moves_follow_the_thresholds() {
    let t = vec![30, 60];
    assert_eq!(move_for_number(&t, 30), "Fold");
    assert_eq!(move_for_number(&t, 31), "Call");
    assert_eq!(move_for_number(&t, 61), "Raise");
    let table = fill_move_set();
    assert!(table.contains_key(&4) && table.contains_key(&28));
    let mut p = seat(0, vec![c(0, Suit::Hearts, 1), c(13, Suit::Diamonds, 1)], 100);
    p.hand_strength = 28;
    p.move_dist = table;
    let m = generate_move(&p);
    assert!(m == "Fold" || m == "Call" || m == "Raise");
}

#[test]
fn the_decision_tree() {
    let t = TreeNode::new(20, 40, 60);
    assert_eq!(TreeNode::get_move(t, 20), "Check");
    assert_eq!(TreeNode::get_move(TreeNode::new(20, 40, 60), 21), "Fold");
    assert_eq!(TreeNode::get_move(TreeNode::new(20, 40, 60), 41), "Call");
    assert_eq!(TreeNode::get_move(TreeNode::new(20, 40, 60), 61), "Raise");
    assert_eq!(TreeNode::get_move(TreeNode::new_blank(), 5), "");
    assert_eq!(easy_move_for_number(&vec![10, 20, 30, 100], 25), "Call");
}

#[test]
fn the_easy_opponent_moves() {
    let flop = vec![c(41, Suit::Clubs, 3), c(30, Suit::Spades, 5), c(21, Suit::Diamonds, 9)];
    assert_eq!(generate_post_flop_hand_strength(&vec![c(0, Suit::Hearts, 1), c(13, Suit::Diamonds, 1)], &flop), 1);
    let mut p = seat(1, vec![c(0, Suit::Hearts, 1), c(13, Suit::Diamonds, 1)], 100);
    p.move_dist = easy_fill_move_set();
    p.hand_strength = 28;
    let m = easy_generate_move(&mut p, &turn(PokerPhase::PreFlop), &Vec::new());
    assert!(["Check", "Fold", "Call", "Raise"].contains(&m.as_str()));
    let m = easy_generate_move(&mut p, &turn(PokerPhase::Flop), &flop);
    assert_eq!(p.hand_strength, 1);
    assert!(["Check", "Fold", "Call", "Raise"].contains(&m.as_str()));
}

#[test]
fn the_cheating_opponent_knows_the_winner() {
    let deck = init_cards();
    let players = vec![
        seat(0, vec![c(44, Suit::Clubs, 6), c(27, Suit::Spades, 2)], 100),
        seat(1, vec![c(51, Suit::Clubs, 13), c(25, Suit::Diamonds, 13)], 100),
    ];
    let community = vec![c(12, Suit::Hearts, 13), c(30, Suit::Spades, 5), c(21, Suit::Diamonds, 9)];
    // The deck's next cards are the ace and the two of hearts. Every seat with chips
    // is scored with them and the community cards: the first makes a pair of twos,
    // the second three kings.
    assert_eq!(find_winning_hand(&players, &deck[..2].to_vec(), &community), (1, 3, 1));
    let broke = vec![
        seat(0, vec![c(44, Suit::Clubs, 6), c(27, Suit::Spades, 2)], 100),
        seat(1, vec![c(51, Suit::Clubs, 13), c(25, Suit::Diamonds, 13)], 0),
    ];
    assert_eq!(find_winning_hand(&broke, &deck[..2].to_vec(), &community), (0, 1, 0));
    let three = vec![
        seat(0, vec![c(44, Suit::Clubs, 6), c(27, Suit::Spades, 2)], 100),
        seat(1, vec![c(51, Suit::Clubs, 13), c(25, Suit::Diamonds, 13)], 100),
        seat(2, vec![c(34, Suit::Spades, 9), c(47, Suit::Clubs, 9)], 100),
    ];
    // A later seat whose score only ties the best sets the second-highest score.
    assert_eq!(find_winning_hand(&three, &deck[..2].to_vec(), &community), (1, 3, 3));
}

#[test]
fn the_cheating_bet() {
    let (m, r) = bet_move(40, 50);
    assert_eq!((m.as_str(), r), ("Call", None));
    let (m, r) = bet_move(80, 50);
    assert_eq!((m.as_str(), r), ("Raise", Some(30)));
}

#[test]
fn the_draw_covers_the_range() {
    let mut p = seat(0, vec![c(0, Suit::Hearts, 1), c(13, Suit::Diamonds, 1)], 100);
    p.hand_strength = 28;
    p.move_dist = fill_move_set();
    let mut seen: Vec<String> = Vec::new();
    for _ in 0..300 {
        let m = generate_move(&p);
        if !seen.contains(&m) {
            seen.push(m);
        }
    }
    assert!(seen.contains(&"Fold".to_string()));
    assert!(seen.contains(&"Call".to_string()));
    assert!(seen.contains(&"Raise".to_string()));
}
