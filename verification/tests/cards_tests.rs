use school_sanctioned_gambling::cards::{card_function, deal_com_function, deal_hands, init_cards, init_cards_resource, Card, Suit};
use school_sanctioned_gambling::random::shuffle_cards;

fn card(id: u8, suit: Suit, value: u8) -> Card {
    Card::new(id, suit, value)
}

#[test]
fn fresh_deck_has_52_distinct_cards_in_order() {
    let cards = init_cards();
    assert_eq!(cards.len(), 52);
    for (i, c) in cards.iter().enumerate() {
        assert_eq!(c._card_id as usize, i);
        assert_eq!(c.value as usize, i % 13 + 1);
    }
    assert_eq!(cards[0].suit, Suit::Hearts);
    assert_eq!(cards[13].suit, Suit::Diamonds);
    assert_eq!(cards[26].suit, Suit::Spades);
    assert_eq!(cards[51].suit, Suit::Clubs);
    assert_eq!(init_cards_resource().cards.len(), 52);
}

#[test]
fn ace_counts_as_fourteen() {
    assert_eq!(card(0, Suit::Hearts, 1).card_strength, 14);
    assert_eq!(card(12, Suit::Hearts, 13).card_strength, 13);
    assert_eq!(card(1, Suit::Hearts, 2).card_strength, 2);
}

#[test]
fn card_text() {
    assert_eq!(card(9, Suit::Hearts, 10).to_string(), "10 of Hearts");
    assert_eq!(card(39, Suit::Clubs, 1).to_string(), "Ace of Clubs");
    assert_eq!(card(23, Suit::Diamonds, 11).to_string(), "Jack of Diamonds");
    assert_eq!(card(37, Suit::Spades, 12).to_string(), "Queen of Spades");
    assert_eq!(card(51, Suit::Clubs, 13).to_string(), "King of Clubs");
}

#[test]
fn shuffle_keeps_the_cards() {
    let mut cards = init_cards();
    shuffle_cards(&mut cards);
    assert_eq!(cards.len(), 52);
    let order: Vec<u8> = cards.iter().map(|c| c._card_id).collect();
    assert_ne!(order, (0u8..52).collect::<Vec<u8>>());
    let mut ids: Vec<u8> = cards.iter().map(|c| c._card_id).collect();
    ids.sort();
    assert_eq!(ids, (0u8..52).collect::<Vec<u8>>());
}

#[test]
fn dealing_takes_two_cards_each_from_the_top() {
    let mut cards = init_cards();
    let players = deal_hands(3, &mut cards, 500);
    assert_eq!(players.len(), 3);
    assert_eq!(cards.len(), 46);
    for (k, p) in players.iter().enumerate() {
        assert_eq!(p.player_id, k);
        assert_eq!(p.cash, 500);
        assert_eq!(p.cards.len(), 2);
        assert_eq!(p.cards[0]._card_id as usize, 2 * k);
        assert_eq!(p.cards[1]._card_id as usize, 2 * k + 1);
        assert_eq!(p.hand_strength as u32, p.cards[0].card_strength as u32 + p.cards[1].card_strength as u32);
        assert!(p.move_dist.contains_key(&5));
    }
    assert_eq!(cards[0]._card_id, 6);
}

#[test]
fn community_cards_come_as_flop_then_single_cards() {
    let mut cards = init_cards();
    let flop = deal_com_function(&mut cards, 0);
    assert_eq!(flop.len(), 1);
    assert_eq!(flop[0].len(), 3);
    assert_eq!(cards.len(), 49);
    let turn = deal_com_function(&mut cards, 3);
    assert_eq!(turn[0].len(), 1);
    assert_eq!(turn[0][0]._card_id, 3);
    assert_eq!(cards.len(), 48);
}

#[test]
fn showdown_picks_the_better_hand() {
    let mut cards = init_cards();
    let mut players = deal_hands(2, &mut cards, 100);
    // Player 0: pair of aces; player 1: seven-two.
    players[0].cards = vec![card(0, Suit::Hearts, 1), card(13, Suit::Diamonds, 1)];
    players[1].cards = vec![card(6, Suit::Hearts, 7), card(27, Suit::Spades, 2)];
    let community = vec![
        card(41, Suit::Clubs, 3),
        card(30, Suit::Spades, 5),
        card(21, Suit::Diamonds, 9),
        card(49, Suit::Clubs, 11),
        card(11, Suit::Hearts, 12),
    ];
    assert_eq!(card_function(&community, &players), vec![0]);
}

#[test]
fn tied_hands_share_the_win() {
    let mut cards = init_cards();
    let mut players = deal_hands(3, &mut cards, 100);
    // The board is a nine-high straight; players 0 and 2 play it, player 1 has better.
    players[0].cards = vec![card(40, Suit::Clubs, 2), card(15, Suit::Diamonds, 3)];
    players[1].cards = vec![card(9, Suit::Hearts, 10), card(27, Suit::Spades, 2)];
    players[2].cards = vec![card(1, Suit::Hearts, 2), card(3, Suit::Hearts, 4)];
    let community = vec![
        card(4, Suit::Hearts, 5),
        card(18, Suit::Diamonds, 6),
        card(32, Suit::Spades, 7),
        card(46, Suit::Clubs, 8),
        card(21, Suit::Diamonds, 9),
    ];
    assert_eq!(card_function(&community, &players), vec![1]);
    players[1].cards = vec![card(28, Suit::Spades, 3), card(14, Suit::Diamonds, 2)];
    assert_eq!(card_function(&community, &players), vec![0, 1, 2]);
    players[0].cards = vec![card(0, Suit::Hearts, 1), card(13, Suit::Diamonds, 1)];
    players[1].cards = vec![card(11, Suit::Hearts, 12), card(50, Suit::Clubs, 12)];
    // Pocket pairs add nothing to the straight on the board: all three still tie.
    assert_eq!(card_function(&community, &players), vec![0, 1, 2]);
}
