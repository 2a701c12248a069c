//! Playing cards and the 52-card deck.
use vstd::prelude::*;
use crate::text::decimal_string;
use crate::table::Player;
use crate::hand::Hand;

verus! {

/// The four suits.
#[derive(Clone, Copy, PartialEq, Eq, Structural, Debug, Hash)]
pub enum Suit {
    Hearts,
    Diamonds,
    Spades,
    Clubs,
}

/// A playing card. `_card_id` is unique within a deck (hearts 0-12, diamonds 13-25,
/// spades 26-38, clubs 39-51) and doubles as the sprite index; `value` runs from
/// 1 (ace) to 13 (king); `card_strength` is the value with the ace counted as 14.
#[derive(Clone, Copy, PartialEq, Eq, Structural, Debug)]
pub struct Card {
    pub _card_id: u8,
    pub suit: Suit,
    pub value: u8,
    pub card_strength: u8,
}

/// The strength of a card of the given value: the ace ranks above the king.
pub open spec fn strength_of(value: u8) -> u8 {
    if value == 1 {
        14
    } else {
        value
    }
}

/// The suit of the `i`-th block of thirteen cards in a fresh deck.
pub open spec fn suit_at(i: int) -> Suit {
    if i == 0 {
        Suit::Hearts
    } else if i == 1 {
        Suit::Diamonds
    } else if i == 2 {
        Suit::Spades
    } else {
        Suit::Clubs
    }
}

/// The card at position `i` of a fresh deck.
pub open spec fn standard_card(i: int) -> Card {
    Card {
        _card_id: i as u8,
        suit: suit_at(i / 13),
        value: (i % 13 + 1) as u8,
        card_strength: strength_of((i % 13 + 1) as u8),
    }
}

/// A card is proper when its value is a real rank and its strength matches it.
pub open spec fn proper_card(c: Card) -> bool {
    1 <= c.value <= 13 && c.card_strength == strength_of(c.value)
}

/// Two cards show the same face when they have the same suit and value.
pub open spec fn same_face(a: Card, b: Card) -> bool {
    a.suit == b.suit && a.value == b.value
}

/// No two cards of the sequence show the same face, as in any set of cards
/// taken from one deck.
pub open spec fn distinct_faces(s: Seq<Card>) -> bool {
    forall|i: int, j: int| 0 <= i < j < s.len() ==> !same_face(#[trigger] s[i], #[trigger] s[j])
}

/// The word for a card value: the number itself for 2 to 10, else the face name;
/// any other value reads as an ace.
pub open spec fn value_text(v: u8) -> Seq<char> {
    if 1 < v && v < 11 {
        crate::text::decimal(v as nat)
    } else if v == 11 {
        "Jack"@
    } else if v == 12 {
        "Queen"@
    } else if v == 13 {
        "King"@
    } else {
        "Ace"@
    }
}

/// The name of the suit.
pub open spec fn suit_text(s: Suit) -> Seq<char> {
    match s {
        Suit::Hearts => "Hearts"@,
        Suit::Diamonds => "Diamonds"@,
        Suit::Spades => "Spades"@,
        Suit::Clubs => "Clubs"@,
    }
}

/// How a card is written out, such as "Queen of Spades".
pub open spec fn card_text(c: Card) -> Seq<char> {
    value_text(c.value) + " of "@ + suit_text(c.suit)
}

fn suit_str(s: Suit) -> (r: &'static str)
    ensures
        r@ == suit_text(s),
{
    match s {
        Suit::Hearts => "Hearts",
        Suit::Diamonds => "Diamonds",
        Suit::Spades => "Spades",
        Suit::Clubs => "Clubs",
    }
}

impl Card {
    /// A card with the given id, suit and value, and the strength of that value.
    pub fn new(card_id: u8, suit: Suit, value: u8) -> (c: Card)
        ensures
            c._card_id == card_id,
            c.suit == suit,
            c.value == value,
            c.card_strength == strength_of(value),
    {
        Card { _card_id: card_id, suit, value, card_strength: crate::preflop::generate_card_strength(value) }
    }

    /// A fresh card with the same id, suit and value; its strength is
    /// recomputed from the value.
    pub fn copy(card: &Card) -> (c: Card)
        ensures
            c == Card::new_spec(card._card_id, card.suit, card.value),
    {
        Card::new(card._card_id, card.suit, card.value)
    }

    /// The card that `Card::new` makes.
    pub open spec fn new_spec(card_id: u8, suit: Suit, value: u8) -> Card {
        Card { _card_id: card_id, suit, value, card_strength: strength_of(value) }
    }

    /// The card written out, such as "10 of Hearts" or "Ace of Clubs".
    pub fn to_string(&self) -> (s: String)
        ensures
            s@ == card_text(*self),
    {
        let v = self.value;
        let mut s = if 1 < v && v < 11 {
            decimal_string(v as u64)
        } else if v == 11 {
            String::from_str("Jack")
        } else if v == 12 {
            String::from_str("Queen")
        } else if v == 13 {
            String::from_str("King")
        } else {
            String::from_str("Ace")
        };
        s.append(" of ");
        s.append(suit_str(self.suit));
        s
    }
}

/// A fresh deck: for each suit in the order hearts, diamonds, spades, clubs, the
/// values ace to king, with ids counting up from 0.
pub fn init_cards() -> (cards: Vec<Card>)
    ensures
        cards@.len() == 52,
        forall|i: int| 0 <= i < 52 ==> #[trigger] cards@[i] == standard_card(i),
{
    let mut cards: Vec<Card> = Vec::with_capacity(52);
    let mut total: u8 = 0;
    let suits: Vec<Suit> = vec![Suit::Hearts, Suit::Diamonds, Suit::Spades, Suit::Clubs];
    let mut s: usize = 0;
    while s < 4
        invariant
            s <= 4,
            suits@ == seq![Suit::Hearts, Suit::Diamonds, Suit::Spades, Suit::Clubs],
            total as int == 13 * s,
            cards@.len() == total,
            forall|i: int| 0 <= i < total ==> #[trigger] cards@[i] == standard_card(i),
        decreases 4 - s,
    {
        let suit = suits[s];
        let mut value: u8 = 1;
        while value < 14
            invariant
                s < 4,
                1 <= value <= 14,
                suit == suit_at(s as int),
                total as int == 13 * s + value - 1,
                cards@.len() == total,
                forall|i: int| 0 <= i < total ==> #[trigger] cards@[i] == standard_card(i),
            decreases 14 - value,
        {
            assert((total as int) / 13 == s && (total as int) % 13 == value - 1) by (nonlinear_arith)
                requires
                    total as int == 13 * s + value - 1,
                    1 <= value < 14,
            ;
            cards.push(Card::new(total, suit, value));
            total += 1;
            value += 1;
        }
        s += 1;
    }
    cards
}

/// The cards of a game.
pub struct Deck {
    pub cards: Vec<Card>,
}

/// A deck holding a fresh set of 52 cards.
pub fn init_cards_resource() -> (d: Deck)
    ensures
        d.cards@.len() == 52,
        forall|i: int| 0 <= i < 52 ==> #[trigger] d.cards@[i] == standard_card(i),
{
    Deck { cards: init_cards() }
}

/// The cards of a fresh deck are proper and no two show the same face.
pub proof fn lemma_fresh_deck_distinct(cards: Seq<Card>)
    requires
        cards.len() == 52,
        forall|i: int| 0 <= i < 52 ==> #[trigger] cards[i] == standard_card(i),
    ensures
        distinct_faces(cards),
        forall|i: int| 0 <= i < 52 ==> proper_card(#[trigger] cards[i]),
{
    assert forall|i: int, j: int| 0 <= i < j < cards.len() implies !same_face(
        #[trigger] cards[i],
        #[trigger] cards[j],
    ) by {
        assert(cards[i] == standard_card(i));
        assert(cards[j] == standard_card(j));
        if same_face(cards[i], cards[j]) {
            assert(i / 13 == j / 13);
            assert(i % 13 == j % 13);
            assert(i == 13 * (i / 13) + i % 13);
            assert(j == 13 * (j / 13) + j % 13);
        }
    }
}


// ---------------------------------------------------------------------------
// Dealing
// ---------------------------------------------------------------------------

/// Takes the first `k` cards off the deck.
pub fn draw_cards(cards: &mut Vec<Card>, k: usize) -> (hand: Vec<Card>)
    requires
        k <= old(cards)@.len(),
    ensures
        hand@ == old(cards)@.take(k as int),
        final(cards)@ == old(cards)@.skip(k as int),
{
    let mut hand: Vec<Card> = Vec::new();
    let mut i: usize = 0;
    while i < k
        invariant
            k <= old(cards)@.len(),
            i <= k,
            hand@ == old(cards)@.take(i as int),
            cards@ == old(cards)@.skip(i as int),
        decreases k - i,
    {
        let c = cards.remove(0);
        proof {
            assert(old(cards)@.take(i + 1) =~= old(cards)@.take(i as int).push(c));
            assert(old(cards)@.skip(i + 1) =~= old(cards)@.skip(i as int).remove(0));
        }
        hand.push(c);
        i += 1;
    }
    hand
}

/// A new seat for player `player_id` holding `hand` and `starting_cash` chips,
/// with the easy opponent's move table.
pub open spec fn dealt_player(p: Player, player_id: usize, hand: Seq<Card>, starting_cash: usize) -> bool {
    &&& p.player_id == player_id
    &&& p.cards@ == hand
    &&& p.cash == starting_cash
    &&& p.current_bet == 0
    &&& !p.has_folded && !p.has_moved && !p.is_all_in && !p.has_raised
    &&& p.hand_strength == hand[0].card_strength + hand[1].card_strength
    &&& (forall|k: u16| #[trigger] p.move_dist@.contains_key(k) == crate::easy_ai::easy_keys(k))
    &&& (forall|k: u16| crate::easy_ai::easy_keys(k) ==> (#[trigger] p.move_dist@[k])@ == crate::easy_ai::easy_table(k))
    &&& !p.big_blind && !p.small_blind
}

/// Deals two cards to each of `player_count` players, in order, from the top of
/// the deck; each player starts with `starting_cash` chips.
pub fn deal_hands(player_count: usize, cards: &mut Vec<Card>, starting_cash: usize) -> (result: Vec<Player>)
    requires
        2 * player_count <= old(cards)@.len(),
    ensures
        result@.len() == player_count,
        forall|k: int| 0 <= k < player_count ==> dealt_player(
            #[trigger] result@[k],
            k as usize,
            old(cards)@.subrange(2 * k, 2 * k + 2),
            starting_cash,
        ),
        final(cards)@ == old(cards)@.skip(2 * player_count),
{
    let mut result: Vec<Player> = Vec::with_capacity(player_count);
    let mut player_id: usize = 0;
    while player_id < player_count
        invariant
            2 * player_count <= old(cards)@.len(),
            player_id <= player_count,
            result@.len() == player_id,
            cards@ == old(cards)@.skip(2 * player_id),
            forall|k: int| 0 <= k < player_id ==> dealt_player(
                #[trigger] result@[k],
                k as usize,
                old(cards)@.subrange(2 * k, 2 * k + 2),
                starting_cash,
            ),
        decreases player_count - player_id,
    {
        let hand = draw_cards(cards, 2);
        proof {
            assert(hand@ =~= old(cards)@.subrange(2 * player_id, 2 * player_id + 2));
            assert(cards@ =~= old(cards)@.skip(2 * (player_id + 1)));
        }
        let strength = crate::easy_ai::generate_pre_flop_hand_strength(&hand);
        let p = Player {
            player_id,
            cards: hand,
            cash: starting_cash,
            current_bet: 0,
            has_folded: false,
            has_moved: false,
            is_all_in: false,
            has_raised: false,
            hand_strength: strength,
            move_dist: crate::easy_ai::fill_move_set(),
            big_blind: false,
            small_blind: false,
        };
        result.push(p);
        player_id += 1;
    }
    result
}

/// Deals community cards for the table that shows `community_count` of them: the
/// flop of three cards when none show, then one card for the turn and one for the
/// river.
pub fn deal_com_function(cards: &mut Vec<Card>, community_count: usize) -> (result: Vec<Vec<Card>>)
    requires
        community_count == 0 || community_count == 3 || community_count == 4,
        community_count == 0 ==> old(cards)@.len() >= 3,
        community_count != 0 ==> old(cards)@.len() >= 1,
    ensures
        result@.len() == 1,
        ({
            let n: int = if community_count == 0 { 3 } else { 1 };
            &&& result@[0]@ == old(cards)@.take(n)
            &&& final(cards)@ == old(cards)@.skip(n)
        }),
{
    let temp = if community_count == 0 {
        draw_cards(cards, 3)
    } else {
        draw_cards(cards, 1)
    };
    let mut result: Vec<Vec<Card>> = Vec::with_capacity(5);
    result.push(temp);
    result
}

/// Deals community cards for the table that shows `community_count` of them: the
/// flop when none show, one card when three or four show, nothing otherwise.
pub fn deal_community_cards(cards: &mut Vec<Card>, community_count: usize) -> (result: Vec<Vec<Card>>)
    requires
        community_count == 0 ==> old(cards)@.len() >= 3,
        (community_count == 3 || community_count == 4) ==> old(cards)@.len() >= 1,
    ensures
        community_count == 0 ==> result@.len() == 1 && result@[0]@ == old(cards)@.take(3)
            && final(cards)@ == old(cards)@.skip(3),
        (community_count == 3 || community_count == 4) ==> result@.len() == 1 && result@[0]@
            == old(cards)@.take(1) && final(cards)@ == old(cards)@.skip(1),
        !(community_count == 0 || community_count == 3 || community_count == 4) ==> result@.len()
            == 0 && final(cards)@ == old(cards)@,
{
    let mut result: Vec<Vec<Card>> = Vec::with_capacity(5);
    if community_count == 0 {
        let flop = draw_cards(cards, 3);
        result.push(flop);
    } else if community_count == 3 {
        let river = draw_cards(cards, 1);
        result.push(river);
    } else if community_count == 4 {
        let turn = draw_cards(cards, 1);
        result.push(turn);
    }
    result
}

// ---------------------------------------------------------------------------
// Showdown
// ---------------------------------------------------------------------------

/// The player's cards together with the community cards make at least five cards.
pub open spec fn eligible(p: Player, community: Seq<Card>) -> bool {
    p.cards@.len() + community.len() >= 5
}

/// For each eligible player in seat order: the player's id, best hand and its score.
pub open spec fn showdown_hands(ps: Seq<Player>, community: Seq<Card>) -> Seq<(usize, Seq<Card>, u8)>
    decreases ps.len(),
{
    if ps.len() == 0 {
        Seq::empty()
    } else {
        let rest = showdown_hands(ps.drop_last(), community);
        let p = ps.last();
        if eligible(p, community) {
            let b = crate::hand::best_hand(p.cards@ + community);
            rest.push((p.player_id, b.0, b.1))
        } else {
            rest
        }
    }
}

/// How the hand `h` fares against the hand `g`: 1 when it wins, 2 when it loses,
/// 0 on a tie.
pub open spec fn fares(h: (Seq<Card>, u8), g: (Seq<Card>, u8)) -> u8 {
    crate::hand::hand_order(crate::hand::rank_counts(h.0), h.1, crate::hand::rank_counts(g.0), g.1)
}

/// The leading hand after the first `n` hands: it starts as the first hand, and
/// a hand that beats it takes its place.
pub open spec fn leader_after(hs: Seq<(usize, Seq<Card>, u8)>, n: int) -> (Seq<Card>, u8)
    decreases n,
{
    if n <= 0 {
        (hs[0].1, hs[0].2)
    } else {
        let prev = leader_after(hs, n - 1);
        let h = hs[n - 1];
        if fares((h.1, h.2), prev) == 1 {
            (h.1, h.2)
        } else {
            prev
        }
    }
}

/// The ids, in order, of those among the first `n` hands that tie the hand `lead`.
pub open spec fn tied_with(hs: Seq<(usize, Seq<Card>, u8)>, lead: (Seq<Card>, u8), n: int) -> Seq<usize>
    decreases n,
{
    if n <= 0 {
        Seq::empty()
    } else {
        let rest = tied_with(hs, lead, n - 1);
        let h = hs[n - 1];
        if fares((h.1, h.2), lead) == 0 {
            rest.push(h.0)
        } else {
            rest
        }
    }
}

/// The winners of the showdown: the players, in seat order, whose best hand ties
/// the strongest hand.
pub open spec fn showdown_winners(ps: Seq<Player>, community: Seq<Card>) -> Seq<usize> {
    let hs = showdown_hands(ps, community);
    tied_with(hs, leader_after(hs, hs.len() as int), hs.len() as int)
}

/// Each eligible player's best hand can be found, and every comparison of the
/// showdown can be carried out.
pub open spec fn showdown_ready(ps: Seq<Player>, community: Seq<Card>) -> bool {
    let hs = showdown_hands(ps, community);
    &&& hs.len() > 0
    &&& forall|i: int| 0 <= i < ps.len() && eligible(#[trigger] ps[i], community) ==> {
        &&& crate::hand::proper_values(ps[i].cards@ + community)
        &&& (ps[i].cards@ + community).len() != 5 ==> crate::hand::fold_safe(
            crate::hand::all_hands(ps[i].cards@ + community),
        )
    }
    &&& forall|n: int| 0 <= n < hs.len() ==> crate::hand::kicker_safe(
        crate::hand::rank_counts((#[trigger] hs[n]).1),
        hs[n].2,
        crate::hand::rank_counts(leader_after(hs, n).0),
        leader_after(hs, n).1,
    ) && crate::hand::kicker_safe(
        crate::hand::rank_counts(hs[n].1),
        hs[n].2,
        crate::hand::rank_counts(leader_after(hs, hs.len() as int).0),
        leader_after(hs, hs.len() as int).1,
    )
}

/// Evaluates the best hand of every player whose cards and the community cards make
/// at least five cards, and returns the ids, in seat order, of the players whose hand
/// ties the strongest one.
pub fn card_function(community_cards: &Vec<Card>, players: &Vec<Player>) -> (winners: Vec<usize>)
    requires
        showdown_ready(players@, community_cards@),
    ensures
        winners@ == showdown_winners(players@, community_cards@),
{
    let ghost community = community_cards@;
    let ghost hs = showdown_hands(players@, community);
    let mut hands: Vec<Hand> = Vec::new();
    let mut ids: Vec<usize> = Vec::new();
    let mut i: usize = 0;
    while i < players.len()
        invariant
            i <= players@.len(),
            community == community_cards@,
            hs == showdown_hands(players@, community),
            showdown_ready(players@, community),
            hands@.len() == ids@.len(),
            hands@.len() == showdown_hands(players@.take(i as int), community).len(),
            forall|k: int| 0 <= k < hands@.len() ==> {
                let h = showdown_hands(players@.take(i as int), community)[k];
                &&& (#[trigger] hands@[k]).wf()
                &&& hands@[k]@ == h.1
                &&& hands@[k].score == h.2
                &&& ids@[k] == h.0
            },
        decreases players@.len() - i,
    {
        let ghost prev = showdown_hands(players@.take(i as int), community);
        proof {
            assert(players@.take(i + 1).drop_last() =~= players@.take(i as int));
            assert(players@.take(i + 1).last() == players@[i as int]);
        }
        if community_cards.len() >= 5 || players[i].cards.len() >= 5 - community_cards.len() {
            proof {
                assert(eligible(players@[i as int], community));
            }
            let hand = crate::hand::test_evaluator(players[i].player_id, players[i].cards.clone(), community_cards.clone());
            hands.push(hand);
            ids.push(players[i].player_id);
        }
        i += 1;
    }
    proof {
        assert(players@.take(players@.len() as int) =~= players@);
    }
    let mut best = hands[0].duplicate();
    let mut j: usize = 0;
    while j < hands.len()
        invariant
            hs == showdown_hands(players@, community),
            showdown_ready(players@, community),
            hands@.len() == hs.len(),
            ids@.len() == hs.len(),
            forall|k: int| 0 <= k < hands@.len() ==> {
                let h = hs[k];
                &&& (#[trigger] hands@[k]).wf()
                &&& hands@[k]@ == h.1
                &&& hands@[k].score == h.2
                &&& ids@[k] == h.0
            },
            j <= hands@.len(),
            best.wf(),
            best@ == leader_after(hs, j as int).0,
            best.score == leader_after(hs, j as int).1,
        decreases hands@.len() - j,
    {
        let res = crate::hand::compare_hands(&mut hands[j], &mut best);
        if res == 1 {
            best = hands[j].duplicate();
        }
        j += 1;
    }
    let ghost lead = leader_after(hs, hs.len() as int);
    let mut winners: Vec<usize> = Vec::new();
    let mut j: usize = 0;
    while j < hands.len()
        invariant
            hs == showdown_hands(players@, community),
            showdown_ready(players@, community),
            hands@.len() == hs.len(),
            ids@.len() == hs.len(),
            forall|k: int| 0 <= k < hands@.len() ==> {
                let h = hs[k];
                &&& (#[trigger] hands@[k]).wf()
                &&& hands@[k]@ == h.1
                &&& hands@[k].score == h.2
                &&& ids@[k] == h.0
            },
            j <= hands@.len(),
            lead == leader_after(hs, hs.len() as int),
            best.wf(),
            best@ == lead.0,
            best.score == lead.1,
            winners@ == tied_with(hs, lead, j as int),
        decreases hands@.len() - j,
    {
        let res = crate::hand::compare_hands(&mut hands[j], &mut best);
        if res == 0 {
            winners.push(ids[j]);
        }
        j += 1;
    }
    winners
}

proof fn lemma_showdown_hands_deck(ps: Seq<Player>, community: Seq<Card>)
    requires
        forall|i: int| 0 <= i < ps.len() ==> distinct_faces(#[trigger] ps[i].cards@ + community)
            && crate::hand::proper_values(ps[i].cards@ + community),
    ensures
        forall|n: int| 0 <= n < showdown_hands(ps, community).len() ==> crate::hand::deck_hand(
            (#[trigger] showdown_hands(ps, community)[n]).1,
        ) && showdown_hands(ps, community)[n].2 == crate::hand::hand_score(showdown_hands(ps, community)[n].1),
        (exists|i: int| 0 <= i < ps.len() && eligible(#[trigger] ps[i], community)) ==> showdown_hands(
            ps,
            community,
        ).len() > 0,
    decreases ps.len(),
{
    if ps.len() > 0 {
        let init = ps.drop_last();
        assert forall|i: int| 0 <= i < init.len() implies distinct_faces(#[trigger] init[i].cards@ + community)
            && crate::hand::proper_values(init[i].cards@ + community) by {
            assert(init[i] == ps[i]);
        }
        lemma_showdown_hands_deck(init, community);
        let p = ps.last();
        assert(ps[ps.len() - 1] == p);
        if eligible(p, community) {
            crate::hand::lemma_best_hand_deck(p.cards@ + community);
        }
        if exists|i: int| 0 <= i < ps.len() && eligible(#[trigger] ps[i], community) {
            let i = choose|i: int| 0 <= i < ps.len() && eligible(#[trigger] ps[i], community);
            if i < ps.len() - 1 {
                assert(init[i] == ps[i]);
            }
        }
    }
}

proof fn lemma_leader_after_origin(hs: Seq<(usize, Seq<Card>, u8)>, n: int)
    requires
        hs.len() > 0,
        0 <= n <= hs.len(),
    ensures
        exists|k: int| 0 <= k < hs.len() && leader_after(hs, n) == ((#[trigger] hs[k]).1, hs[k].2),
    decreases n,
{
    if n > 0 {
        lemma_leader_after_origin(hs, n - 1);
        let k = choose|k: int| 0 <= k < hs.len() && leader_after(hs, n - 1) == ((#[trigger] hs[k]).1, hs[k].2);
        assert(leader_after(hs, n) == (hs[k].1, hs[k].2) || leader_after(hs, n) == (hs[n - 1].1, hs[n - 1].2));
    } else {
        assert(leader_after(hs, n) == (hs[0].1, hs[0].2));
    }
}

/// When every player's cards together with the community cards come from one deck
/// and at least one player can make a hand, the showdown can be carried out.
pub proof fn lemma_deck_showdown_ready(ps: Seq<Player>, community: Seq<Card>)
    requires
        forall|i: int| 0 <= i < ps.len() ==> distinct_faces(#[trigger] ps[i].cards@ + community)
            && crate::hand::proper_values(ps[i].cards@ + community),
        exists|i: int| 0 <= i < ps.len() && eligible(#[trigger] ps[i], community),
    ensures
        showdown_ready(ps, community),
{
    lemma_showdown_hands_deck(ps, community);
    let hs = showdown_hands(ps, community);
    assert forall|i: int| 0 <= i < ps.len() && eligible(#[trigger] ps[i], community) && (ps[i].cards@
        + community).len() != 5 implies crate::hand::fold_safe(crate::hand::all_hands(ps[i].cards@ + community)) by {
        crate::hand::lemma_deck_cards_fold_safe(ps[i].cards@ + community);
    }
    assert forall|n: int| 0 <= n < hs.len() implies crate::hand::kicker_safe(
        crate::hand::rank_counts((#[trigger] hs[n]).1),
        hs[n].2,
        crate::hand::rank_counts(leader_after(hs, n).0),
        leader_after(hs, n).1,
    ) && crate::hand::kicker_safe(
        crate::hand::rank_counts(hs[n].1),
        hs[n].2,
        crate::hand::rank_counts(leader_after(hs, hs.len() as int).0),
        leader_after(hs, hs.len() as int).1,
    ) by {
        lemma_leader_after_origin(hs, n);
        let k = choose|k: int| 0 <= k < hs.len() && leader_after(hs, n) == ((#[trigger] hs[k]).1, hs[k].2);
        lemma_leader_after_origin(hs, hs.len() as int);
        let l = choose|l: int| 0 <= l < hs.len() && leader_after(hs, hs.len() as int) == ((#[trigger] hs[l]).1, hs[l].2);
        crate::hand::lemma_kicker_len(hs[n].1);
        crate::hand::lemma_kicker_len(hs[k].1);
        crate::hand::lemma_kicker_len(hs[l].1);
    }
}

/// The ids, in order, of those among the first `n` hands that no hand of `hs` beats.
pub open spec fn unbeaten_ids(hs: Seq<(usize, Seq<Card>, u8)>, n: int) -> Seq<usize>
    decreases n,
{
    if n <= 0 {
        Seq::empty()
    } else {
        let rest = unbeaten_ids(hs, n - 1);
        let h = hs[n - 1];
        if forall|j: int| 0 <= j < hs.len() ==> fares(((#[trigger] hs[j]).1, hs[j].2), (h.1, h.2)) != 1 {
            rest.push(h.0)
        } else {
            rest
        }
    }
}

/// The hands of the showdown are five cards from one deck, scored.
pub open spec fn deck_hands(hs: Seq<(usize, Seq<Card>, u8)>) -> bool {
    forall|n: int| 0 <= n < hs.len() ==> crate::hand::deck_hand((#[trigger] hs[n]).1) && hs[n].2
        == crate::hand::hand_score(hs[n].1)
}

proof fn lemma_leader_unbeaten(hs: Seq<(usize, Seq<Card>, u8)>, n: int)
    requires
        hs.len() > 0,
        deck_hands(hs),
        0 <= n <= hs.len(),
    ensures
        crate::hand::deck_hand(leader_after(hs, n).0),
        leader_after(hs, n).1 == crate::hand::hand_score(leader_after(hs, n).0),
        forall|j: int| 0 <= j < n ==> crate::hand::versus((#[trigger] hs[j]).1, leader_after(hs, n).0) != 1,
    decreases n,
{
    lemma_leader_after_origin(hs, n);
    let k = choose|k: int| 0 <= k < hs.len() && leader_after(hs, n) == ((#[trigger] hs[k]).1, hs[k].2);
    assert(crate::hand::deck_hand(hs[k].1));
    if n > 0 {
        lemma_leader_unbeaten(hs, n - 1);
        let prev = leader_after(hs, n - 1);
        let cur = hs[n - 1];
        assert(crate::hand::deck_hand(cur.1));
        crate::hand::lemma_compare_reflexive(cur.1);
        crate::hand::lemma_compare_antisymmetric(cur.1, prev.0);
        crate::hand::lemma_hand_order_range(
            crate::hand::rank_counts(cur.1),
            cur.2,
            crate::hand::rank_counts(prev.0),
            prev.1,
        );
        assert forall|j: int| 0 <= j < n implies crate::hand::versus((#[trigger] hs[j]).1, leader_after(hs, n).0) != 1 by {
            if j < n - 1 {
                crate::hand::lemma_compare_transitive(hs[j].1, prev.0, leader_after(hs, n).0);
            }
        }
    }
}

/// When every player's cards together with the community cards come from one deck
/// and at least one player can make a hand, the winners of the showdown are exactly
/// the players, in seat order, whose best hand no other player's best hand beats.
pub proof fn lemma_showdown_winners_unbeaten(ps: Seq<Player>, community: Seq<Card>)
    requires
        forall|i: int| 0 <= i < ps.len() ==> distinct_faces(#[trigger] ps[i].cards@ + community)
            && crate::hand::proper_values(ps[i].cards@ + community),
        exists|i: int| 0 <= i < ps.len() && eligible(#[trigger] ps[i], community),
    ensures
        showdown_winners(ps, community) == unbeaten_ids(
            showdown_hands(ps, community),
            showdown_hands(ps, community).len() as int,
        ),
{
    lemma_showdown_hands_deck(ps, community);
    let hs = showdown_hands(ps, community);
    let m = hs.len() as int;
    assert(deck_hands(hs));
    lemma_leader_unbeaten(hs, m);
    let lead = leader_after(hs, m);
    lemma_leader_after_origin(hs, m);
    let l = choose|l: int| 0 <= l < hs.len() && lead == ((#[trigger] hs[l]).1, hs[l].2);
    lemma_tied_unbeaten(hs, lead, l, m);
}

proof fn lemma_tied_unbeaten(hs: Seq<(usize, Seq<Card>, u8)>, lead: (Seq<Card>, u8), l: int, n: int)
    requires
        deck_hands(hs),
        0 <= l < hs.len(),
        lead == (hs[l].1, hs[l].2),
        forall|j: int| 0 <= j < hs.len() ==> crate::hand::versus((#[trigger] hs[j]).1, lead.0) != 1,
        0 <= n <= hs.len(),
    ensures
        tied_with(hs, lead, n) == unbeaten_ids(hs, n),
    decreases n,
{
    if n > 0 {
        lemma_tied_unbeaten(hs, lead, l, n - 1);
        let h = hs[n - 1];
        assert(crate::hand::deck_hand(h.1));
        crate::hand::lemma_compare_antisymmetric(h.1, lead.0);
        crate::hand::lemma_hand_order_range(
            crate::hand::rank_counts(h.1),
            h.2,
            crate::hand::rank_counts(lead.0),
            lead.1,
        );
        let unbeaten = forall|j: int| 0 <= j < hs.len() ==> fares(((#[trigger] hs[j]).1, hs[j].2), (h.1, h.2)) != 1;
        if fares((h.1, h.2), lead) == 0 {
            assert forall|j: int| 0 <= j < hs.len() implies fares(((#[trigger] hs[j]).1, hs[j].2), (h.1, h.2)) != 1 by {
                crate::hand::lemma_compare_transitive(hs[j].1, lead.0, h.1);
            }
            assert(unbeaten);
        } else if unbeaten {
            // The leading hand does not beat it, and it does not beat the leading
            // hand: it ties the leading hand after all.
            assert(fares((hs[l].1, hs[l].2), (h.1, h.2)) != 1);
            crate::hand::lemma_compare_antisymmetric(lead.0, h.1);
        }
    }
}
} // verus!
