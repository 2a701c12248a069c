use school_sanctioned_gambling::cards::{Card, Suit};
use school_sanctioned_gambling::hand::{
    compare, compare_hands, evaluate_hand, find_best_hand, find_next, get_all_hands, is_straight, test_evaluator, Hand,
};

fn c(id: u8, suit: Suit, value: u8) -> Card {
    Card::new(id, suit, value)
}

fn scored(cards: Vec<Card>) -> Hand {
    let mut h = Hand::new(cards);
    evaluate_hand(&mut h);
    h
}

fn royal_flush() -> Vec<Card> {
    vec![c(9, Suit::Hearts, 10), c(10, Suit::Hearts, 11), c(11, Suit::Hearts, 12), c(12, Suit::Hearts, 13), c(0, Suit::Hearts, 1)]
}

fn king_high_straight_flush() -> Vec<Card> {
    vec![c(8, Suit::Hearts, 9), c(9, Suit::Hearts, 10), c(10, Suit::Hearts, 11), c(11, Suit::Hearts, 12), c(12, Suit::Hearts, 13)]
}

#[test]
fn categories_are_scored() {
    assert_eq!(scored(king_high_straight_flush()).score, 8);
    // The ace counts high too: ten to ace in one suit is a straight flush.
    assert_eq!(scored(royal_flush()).score, 8);
    let wheel = vec![c(0, Suit::Hearts, 1), c(14, Suit::Diamonds, 2), c(28, Suit::Spades, 3), c(42, Suit::Clubs, 4), c(4, Suit::Hearts, 5)];
    assert_eq!(scored(wheel).score, 4);
    let four = vec![c(4, Suit::Hearts, 5), c(17, Suit::Diamonds, 5), c(30, Suit::Spades, 5), c(43, Suit::Clubs, 5), c(1, Suit::Hearts, 2)];
    assert_eq!(scored(four).score, 7);
    let full = vec![c(4, Suit::Hearts, 5), c(17, Suit::Diamonds, 5), c(30, Suit::Spades, 5), c(1, Suit::Hearts, 2), c(14, Suit::Diamonds, 2)];
    assert_eq!(scored(full).score, 6);
    let flush = vec![c(1, Suit::Clubs, 2), c(4, Suit::Clubs, 5), c(6, Suit::Clubs, 7), c(8, Suit::Clubs, 9), c(10, Suit::Clubs, 11)];
    assert_eq!(scored(flush).score, 5);
    let straight = vec![c(2, Suit::Hearts, 3), c(16, Suit::Diamonds, 4), c(30, Suit::Spades, 5), c(44, Suit::Clubs, 6), c(6, Suit::Hearts, 7)];
    assert_eq!(scored(straight).score, 4);
    let three = vec![c(4, Suit::Hearts, 5), c(17, Suit::Diamonds, 5), c(30, Suit::Spades, 5), c(1, Suit::Hearts, 2), c(20, Suit::Diamonds, 8)];
    assert_eq!(scored(three).score, 3);
    let two_pair = vec![c(4, Suit::Hearts, 5), c(17, Suit::Diamonds, 5), c(1, Suit::Hearts, 2), c(14, Suit::Diamonds, 2), c(20, Suit::Diamonds, 8)];
    assert_eq!(scored(two_pair).score, 2);
    let pair = vec![c(4, Suit::Hearts, 5), c(17, Suit::Diamonds, 5), c(1, Suit::Hearts, 2), c(22, Suit::Diamonds, 10), c(20, Suit::Diamonds, 8)];
    assert_eq!(scored(pair).score, 1);
    let high = vec![c(4, Suit::Hearts, 5), c(16, Suit::Diamonds, 4), c(1, Suit::Hearts, 2), c(22, Suit::Diamonds, 10), c(20, Suit::Diamonds, 8)];
    assert_eq!(scored(high).score, 0);
}

#[test]
fn comparison_goes_both_ways() {
    let mut best = scored(king_high_straight_flush());
    let mut pair = scored(vec![c(4, Suit::Hearts, 5), c(17, Suit::Diamonds, 5), c(1, Suit::Hearts, 2), c(22, Suit::Diamonds, 10), c(20, Suit::Diamonds, 8)]);
    assert_eq!(compare_hands(&mut best, &mut pair), 1);
    assert_eq!(compare_hands(&mut pair, &mut best), 2);
    let mut same = scored(king_high_straight_flush());
    assert_eq!(compare_hands(&mut best, &mut same), 0);
}

#[test]
fn kickers_break_ties_between_pairs() {
    let mut kings = scored(vec![c(12, Suit::Hearts, 13), c(25, Suit::Diamonds, 13), c(1, Suit::Hearts, 2), c(22, Suit::Diamonds, 10), c(20, Suit::Diamonds, 8)]);
    let mut queens = scored(vec![c(11, Suit::Hearts, 12), c(24, Suit::Diamonds, 12), c(2, Suit::Hearts, 3), c(48, Suit::Clubs, 10), c(46, Suit::Clubs, 8)]);
    assert_eq!(compare_hands(&mut kings, &mut queens), 1);
    let mut kings_low_kicker = scored(vec![c(38, Suit::Spades, 13), c(51, Suit::Clubs, 13), c(40, Suit::Clubs, 2), c(47, Suit::Clubs, 9), c(33, Suit::Spades, 8)]);
    assert_eq!(compare_hands(&mut kings, &mut kings_low_kicker), 1);
}

#[test]
fn best_hand_of_seven_cards() {
    let mut cards = king_high_straight_flush();
    cards.push(c(40, Suit::Clubs, 2));
    cards.push(c(41, Suit::Clubs, 3));
    let best = find_best_hand(&cards);
    assert_eq!(best.score, 8);
    assert_eq!(best.cards.len(), 5);
    let from_parts = test_evaluator(3, vec![c(40, Suit::Clubs, 2), c(41, Suit::Clubs, 3)], king_high_straight_flush());
    assert_eq!(from_parts.score, 8);
}

#[test]
fn too_few_cards_make_the_empty_hand() {
    let best = find_best_hand(&vec![c(40, Suit::Clubs, 2)]);
    assert_eq!(best.score, 0);
    assert!(best.cards.is_empty());
}

#[test]
fn hand_text() {
    assert_eq!(Hand::to_string(&Hand::new_blank()), "No cards in hand");
    let h = scored(royal_flush());
    assert_eq!(
        Hand::to_string(&h),
        "10 of Hearts, Jack of Hearts, Queen of Hearts, King of Hearts, and Ace of Hearts with a score of 8"
    );
    let copy = h.duplicate();
    assert_eq!(copy.score, h.score);
}

#[test]
fn rank_helpers() {
    let mut ranks = vec![0u8; 13];
    for i in 4..9 {
        ranks[i] = 1;
    }
    assert!(is_straight(&ranks));
    ranks[8] = 0;
    ranks[10] = 1;
    assert!(!is_straight(&ranks));
    assert_eq!(find_next(&ranks, 0, 1), 4);
    assert_eq!(find_next(&ranks, 9, 1), 10);
    assert_eq!(find_next(&ranks, 11, 1), 0);
    assert_eq!(compare(0, 12), 1);
    assert_eq!(compare(3, 7), 2);
    assert_eq!(compare(5, 5), 0);
}

#[test]
fn all_five_card_hands() {
    let mut cards = king_high_straight_flush();
    cards.push(c(40, Suit::Clubs, 2));
    assert_eq!(get_all_hands(&cards).len(), 6);
    cards.push(c(41, Suit::Clubs, 3));
    let hands = get_all_hands(&cards);
    assert_eq!(hands.len(), 21);
    assert!(hands.iter().all(|h| h.len() == 5));
    assert_eq!(hands[0].iter().map(|c| c._card_id).collect::<Vec<u8>>(), vec![8, 9, 10, 11, 12]);
    assert_eq!(hands[20].iter().map(|c| c._card_id).collect::<Vec<u8>>(), vec![10, 11, 12, 40, 41]);
    assert!(get_all_hands(&vec![c(40, Suit::Clubs, 2)]).is_empty());
}

#[test]
fn ace_high_beats_king_high() {
    let mut ace_high = scored(vec![c(0, Suit::Hearts, 1), c(21, Suit::Diamonds, 9), c(32, Suit::Spades, 7), c(43, Suit::Clubs, 5), c(2, Suit::Hearts, 3)]);
    let mut king_high = scored(vec![c(12, Suit::Hearts, 13), c(24, Suit::Diamonds, 12), c(36, Suit::Spades, 11), c(47, Suit::Clubs, 9), c(6, Suit::Hearts, 7)]);
    assert_eq!(ace_high.score, 0);
    assert_eq!(king_high.score, 0);
    assert_eq!(compare_hands(&mut ace_high, &mut king_high), 1);
    assert_eq!(compare_hands(&mut king_high, &mut ace_high), 2);
}

#[test]
fn the_higher_pair_decides_two_pair() {
    let mut kings_up = scored(vec![c(12, Suit::Hearts, 13), c(25, Suit::Diamonds, 13), c(27, Suit::Spades, 2), c(40, Suit::Clubs, 2), c(4, Suit::Hearts, 5)]);
    let mut queens_up = scored(vec![c(11, Suit::Hearts, 12), c(24, Suit::Diamonds, 12), c(36, Suit::Spades, 11), c(49, Suit::Clubs, 11), c(30, Suit::Spades, 5)]);
    assert_eq!(kings_up.score, 2);
    assert_eq!(queens_up.score, 2);
    assert_eq!(compare_hands(&mut kings_up, &mut queens_up), 1);
    let mut aces_up = scored(vec![c(0, Suit::Hearts, 1), c(13, Suit::Diamonds, 1), c(28, Suit::Spades, 3), c(41, Suit::Clubs, 3), c(5, Suit::Hearts, 6)]);
    assert_eq!(compare_hands(&mut aces_up, &mut kings_up), 1);
    let mut kings_and_fives = scored(vec![c(38, Suit::Spades, 13), c(51, Suit::Clubs, 13), c(17, Suit::Diamonds, 5), c(30, Suit::Spades, 5), c(1, Suit::Hearts, 2)]);
    assert_eq!(compare_hands(&mut kings_and_fives, &mut kings_up), 1);
}

#[test]
fn straights_with_the_ace() {
    let ace_high = vec![1u8, 0, 0, 0, 0, 0, 0, 0, 0, 1, 1, 1, 1];
    assert!(is_straight(&ace_high));
    let wrap = vec![1u8, 1, 0, 0, 0, 0, 0, 0, 0, 0, 1, 1, 1];
    assert!(!is_straight(&wrap));
    let ace_low = vec![1u8, 1, 1, 1, 1, 0, 0, 0, 0, 0, 0, 0, 0];
    assert!(is_straight(&ace_low));
    let mut royal = scored(royal_flush());
    let mut king_high = scored(king_high_straight_flush());
    assert_eq!(compare_hands(&mut royal, &mut king_high), 1);
    let mut wheel = scored(vec![c(0, Suit::Hearts, 1), c(14, Suit::Diamonds, 2), c(28, Suit::Spades, 3), c(42, Suit::Clubs, 4), c(4, Suit::Hearts, 5)]);
    let mut six_high = scored(vec![c(1, Suit::Hearts, 2), c(15, Suit::Diamonds, 3), c(29, Suit::Spades, 4), c(43, Suit::Clubs, 5), c(5, Suit::Hearts, 6)]);
    assert_eq!(compare_hands(&mut wheel, &mut six_high), 2);
    assert_eq!(compare_hands(&mut six_high, &mut wheel), 1);
    let mut other_wheel = scored(vec![c(13, Suit::Diamonds, 1), c(27, Suit::Spades, 2), c(41, Suit::Clubs, 3), c(3, Suit::Hearts, 4), c(17, Suit::Diamonds, 5)]);
    assert_eq!(compare_hands(&mut wheel, &mut other_wheel), 0);
}

#[test]
fn no_hand_beats_the_best_one() {
    let cards = vec![
        c(12, Suit::Hearts, 13),
        c(25, Suit::Diamonds, 13),
        c(27, Suit::Spades, 2),
        c(40, Suit::Clubs, 2),
        c(0, Suit::Hearts, 1),
        c(13, Suit::Diamonds, 1),
        c(4, Suit::Hearts, 5),
    ];
    let mut best = find_best_hand(&cards);
    assert_eq!(best.score, 2);
    for five in get_all_hands(&cards) {
        let mut h = scored(five);
        assert_ne!(compare_hands(&mut h, &mut best), 1);
    }
    // Aces and kings, with the five as the kicker.
    let mut values: Vec<u8> = best.cards.iter().map(|c| c.value).collect();
    values.sort();
    assert_eq!(values, vec![1, 1, 5, 13, 13]);
}
