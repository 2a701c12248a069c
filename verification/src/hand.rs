//! Poker hand evaluation: scoring five-card hands, comparing them, and picking the
//! best five cards out of a player's hole cards and the community cards.
use vstd::prelude::*;
use crate::cards::{Card, Suit};

verus! {

// ---------------------------------------------------------------------------
// The model: counts of each rank, and the hand categories built on them.
// ---------------------------------------------------------------------------

/// How many cards of the sequence have value `v`.
pub open spec fn value_count(s: Seq<Card>, v: int) -> int
    decreases s.len(),
{
    if s.len() == 0 {
        0
    } else {
        value_count(s.drop_last(), v) + if s.last().value as int == v {
            1int
        } else {
            0int
        }
    }
}

/// The rank counts of a sequence of cards: entry `i` counts the cards of value `i + 1`
/// (entry 0 counts the aces).
pub open spec fn rank_counts(s: Seq<Card>) -> Seq<int> {
    Seq::new(13, |i: int| value_count(s, i + 1))
}

/// Some card of the sequence has the suit.
pub open spec fn has_suit(s: Seq<Card>, suit: Suit) -> bool {
    exists|i: int| 0 <= i < s.len() && (#[trigger] s[i]).suit == suit
}

/// 1 for true, 0 for false.
pub open spec fn indicator(b: bool) -> int {
    if b {
        1
    } else {
        0
    }
}

/// How many different suits occur among the cards.
pub open spec fn suit_count(s: Seq<Card>) -> int {
    indicator(has_suit(s, Suit::Hearts)) + indicator(has_suit(s, Suit::Diamonds)) + indicator(
        has_suit(s, Suit::Spades),
    ) + indicator(has_suit(s, Suit::Clubs))
}

/// How many of the first `n` rank counts are positive.
pub open spec fn num_present(c: Seq<int>, n: int) -> int
    decreases n,
{
    if n <= 0 {
        0
    } else {
        num_present(c, n - 1) + indicator(c[n - 1] > 0)
    }
}

/// How many of the first `n` rank counts equal `k`.
pub open spec fn num_with(c: Seq<int>, n: int, k: int) -> int
    decreases n,
{
    if n <= 0 {
        0
    } else {
        num_with(c, n - 1, k) + indicator(c[n - 1] == k)
    }
}

/// The lowest index below `n` with a positive count, or 14 when there is none.
pub open spec fn lowest_present(c: Seq<int>, n: int) -> int
    decreases n,
{
    if n <= 0 {
        14
    } else if lowest_present(c, n - 1) < 14 {
        lowest_present(c, n - 1)
    } else if c[n - 1] > 0 {
        n - 1
    } else {
        14
    }
}

/// The highest index below `n` with a positive count, or 0 when there is none.
pub open spec fn highest_present(c: Seq<int>, n: int) -> int
    decreases n,
{
    if n <= 0 {
        0
    } else if c[n - 1] > 0 {
        n - 1
    } else {
        highest_present(c, n - 1)
    }
}

/// A straight: five different ranks in a row. Either the lowest and the highest
/// present rank are four apart (the ace counted low, so ace to five is a straight),
/// or the ranks are ten, jack, queen, king and ace (the ace counted high). A run that
/// goes on from the king to the two is no straight.
pub open spec fn straight(c: Seq<int>) -> bool {
    let u = num_present(c, 13);
    u == 5 && (highest_present(c, 13) - lowest_present(c, 13) == 4 || (c[0] > 0 && c[9] > 0
        && c[10] > 0 && c[11] > 0 && c[12] > 0))
}

/// The category of a hand with rank counts `c` and `suits` different suits:
/// 8 straight flush, 7 four of a kind, 6 full house, 5 flush, 4 straight,
/// 3 three of a kind, 2 two pair, 1 pair, 0 high card.
pub open spec fn category(c: Seq<int>, suits: int) -> u8 {
    let flush = suits == 1;
    let st = straight(c);
    let four = num_with(c, 13, 4) > 0;
    let three = num_with(c, 13, 3) > 0;
    let pairs = num_with(c, 13, 2);
    if st && flush {
        8
    } else if four {
        7
    } else if three && pairs >= 1 {
        6
    } else if flush {
        5
    } else if st {
        4
    } else if three {
        3
    } else if pairs >= 2 {
        2
    } else if pairs >= 1 {
        1
    } else {
        0
    }
}

/// The score the evaluator gives to a hand made of the cards `s`.
pub open spec fn hand_score(s: Seq<Card>) -> u8 {
    category(rank_counts(s), suit_count(s))
}

/// The first index from `start` on whose count equals `v`, or 0 when there is none.
pub open spec fn first_with(c: Seq<int>, start: int, v: int) -> int
    decreases c.len() - start,
{
    if start >= c.len() || start < 0 {
        0
    } else if c[start] == v {
        start
    } else {
        first_with(c, start + 1, v)
    }
}

/// Compares two rank indices with the ace (index 0) counted above the king:
/// 1 when the first is higher, 2 when the second is, 0 when they are equal.
pub open spec fn rank_order(a: int, b: int) -> u8 {
    let a2 = if a == 0 {
        14
    } else {
        a
    };
    let b2 = if b == 0 {
        14
    } else {
        b
    };
    if a2 > b2 {
        1
    } else if b2 > a2 {
        2
    } else {
        0
    }
}

/// The present ranks among indices 1 to `n - 1`, highest first.
pub open spec fn present_desc(c: Seq<int>, n: int) -> Seq<int>
    decreases n,
{
    if n <= 1 {
        seq![]
    } else {
        (if c[n - 1] > 0 {
            seq![n - 1]
        } else {
            seq![]
        }) + present_desc(c, n - 1)
    }
}

/// The kicker list: the present ranks from the highest down, the ace first (as 14),
/// then king down to two.
pub open spec fn kickers(c: Seq<int>) -> Seq<int> {
    (if c[0] > 0 {
        seq![14int]
    } else {
        seq![]
    }) + present_desc(c, 13)
}

/// The highest index from 1 to `n - 1` whose count equals `v`, or 0 when there is none.
pub open spec fn last_with(c: Seq<int>, n: int, v: int) -> int
    decreases n,
{
    if n <= 1 {
        0
    } else if c[n - 1] == v {
        n - 1
    } else {
        last_with(c, n - 1, v)
    }
}

/// The higher pair of a two-pair hand: the aces when they are paired, else the
/// highest paired rank.
pub open spec fn top_pair(c: Seq<int>) -> int {
    if c[0] == 2 {
        0
    } else {
        last_with(c, 13, 2)
    }
}

/// The lower pair of a two-pair hand.
pub open spec fn low_pair(c: Seq<int>) -> int {
    if c[0] == 2 {
        last_with(c, 13, 2)
    } else {
        first_with(c, 0, 2)
    }
}

/// A straight holding an ace and a two is the five-high straight, the lowest one.
pub open spec fn wheel(c: Seq<int>) -> bool {
    c[0] > 0 && c[1] > 0
}

/// Compares two kicker lists position by position from `i` on, over the length
/// of the second list.
pub open spec fn kicker_order(k1: Seq<int>, k2: Seq<int>, i: int) -> u8
    decreases k2.len() - i,
{
    if i >= k2.len() || i < 0 {
        0
    } else if k1[i] > k2[i] {
        1
    } else if k2[i] > k1[i] {
        2
    } else {
        kicker_order(k1, k2, i + 1)
    }
}

/// The decision of the category-specific tie-break between two hands of equal
/// `score`, or `None` when the kickers decide: a pair, three or four of a kind by
/// its rank; two pair by the higher pair, then the lower one; a full house by its
/// three, then its pair; among straights the five-high one is the lowest.
pub open spec fn tie_break(c1: Seq<int>, c2: Seq<int>, score: u8) -> Option<u8> {
    if score == 1 {
        let r = rank_order(first_with(c1, 0, 2), first_with(c2, 0, 2));
        if r != 0 {
            Some(r)
        } else {
            None
        }
    } else if score == 2 {
        let r = rank_order(top_pair(c1), top_pair(c2));
        if r != 0 {
            Some(r)
        } else {
            let r2 = rank_order(low_pair(c1), low_pair(c2));
            if r2 != 0 {
                Some(r2)
            } else {
                None
            }
        }
    } else if score == 3 {
        let r = rank_order(first_with(c1, 0, 3), first_with(c2, 0, 3));
        if r != 0 {
            Some(r)
        } else {
            None
        }
    } else if score == 6 {
        let r = rank_order(first_with(c1, 0, 3), first_with(c2, 0, 3));
        if r != 0 {
            Some(r)
        } else {
            Some(rank_order(first_with(c1, 0, 2), first_with(c2, 0, 2)))
        }
    } else if score == 7 {
        let r = rank_order(first_with(c1, 0, 4), first_with(c2, 0, 4));
        if r != 0 {
            Some(r)
        } else {
            None
        }
    } else if score == 4 || score == 8 {
        if wheel(c1) && wheel(c2) {
            Some(0)
        } else if wheel(c1) {
            Some(2)
        } else if wheel(c2) {
            Some(1)
        } else {
            None
        }
    } else {
        None
    }
}

/// How two hands compare: 1 when the first wins, 2 when the second wins, 0 on a tie.
/// Hands are given by their rank counts and scores.
pub open spec fn hand_order(c1: Seq<int>, s1: u8, c2: Seq<int>, s2: u8) -> u8 {
    if s1 > s2 {
        1
    } else if s2 > s1 {
        2
    } else {
        match tie_break(c1, c2, s1) {
            Some(r) => r,
            None => kicker_order(kickers(c1), kickers(c2), 0),
        }
    }
}

/// The comparison can be carried out: when the kickers decide, the first hand has
/// at least as many kickers as the second.
pub open spec fn kicker_safe(c1: Seq<int>, s1: u8, c2: Seq<int>, s2: u8) -> bool {
    (s1 == s2 && tie_break(c1, c2, s1) is None) ==> kickers(c1).len() >= kickers(c2).len()
}

// ---------------------------------------------------------------------------
// Hands
// ---------------------------------------------------------------------------

/// A hand: its cards, how many of each rank it holds, how many suits it shows,
/// and the score the evaluator gave it.
pub struct Hand {
    pub cards: Vec<Card>,
    pub ranks: Vec<u8>,
    pub suits: u8,
    pub score: u8,
}

impl View for Hand {
    type V = Seq<Card>;

    open spec fn view(&self) -> Seq<Card> {
        self.cards@
    }
}

impl Hand {
    /// The rank counts and suit count are those of the cards.
    pub open spec fn wf(&self) -> bool {
        &&& self.ranks@.len() == 13
        &&& forall|i: int| 0 <= i < 13 ==> #[trigger] self.ranks@[i] == value_count(self.cards@, i + 1)
        &&& self.suits == suit_count(self.cards@)
    }

    /// The rank counts of the hand's cards.
    pub open spec fn counts(&self) -> Seq<int> {
        rank_counts(self@)
    }

    /// A hand without cards and with score 0.
    pub fn new_blank() -> (h: Hand)
        ensures
            h.wf(),
            h@ == Seq::<Card>::empty(),
            h.score == 0,
    {
        let h = Hand { cards: Vec::new(), ranks: vec![0u8; 13], suits: 0, score: 0 };
        proof {
            assert(!has_suit(h.cards@, Suit::Hearts));
            assert(!has_suit(h.cards@, Suit::Diamonds));
            assert(!has_suit(h.cards@, Suit::Spades));
            assert(!has_suit(h.cards@, Suit::Clubs));
        }
        h
    }

    /// An unscored hand of the given cards.
    pub fn new(cards: Vec<Card>) -> (h: Hand)
        requires
            forall|i: int| 0 <= i < cards@.len() ==> 1 <= (#[trigger] cards@[i]).value <= 13,
            forall|v: int| 1 <= v <= 13 ==> value_count(cards@, v) <= 255,
        ensures
            h.wf(),
            h@ == cards@,
            h.score == 0,
    {
        let mut hearts = false;
        let mut diamonds = false;
        let mut spades = false;
        let mut clubs = false;
        let mut ranks: Vec<u8> = vec![0u8; 13];
        let mut i: usize = 0;
        while i < cards.len()
            invariant
                i <= cards@.len(),
                forall|k: int| 0 <= k < cards@.len() ==> 1 <= (#[trigger] cards@[k]).value <= 13,
                forall|v: int| 1 <= v <= 13 ==> value_count(cards@, v) <= 255,
                ranks@.len() == 13,
                forall|r: int| 0 <= r < 13 ==> #[trigger] ranks@[r] == value_count(cards@.take(i as int), r + 1),
                hearts == has_suit(cards@.take(i as int), Suit::Hearts),
                diamonds == has_suit(cards@.take(i as int), Suit::Diamonds),
                spades == has_suit(cards@.take(i as int), Suit::Spades),
                clubs == has_suit(cards@.take(i as int), Suit::Clubs),
            decreases cards@.len() - i,
        {
            let card = cards[i];
            let ghost prev = cards@.take(i as int);
            let ghost next = cards@.take(i + 1);
            proof {
                assert(next.drop_last() =~= prev);
                assert(next.last() == card);
                assert forall|suit: Suit| has_suit(next, suit) == (has_suit(prev, suit) || card.suit == suit) by {
                    if has_suit(next, suit) {
                        let k = choose|k: int| 0 <= k < next.len() && (#[trigger] next[k]).suit == suit;
                        if k < i {
                            assert(prev[k] == next[k]);
                        }
                    }
                    if has_suit(prev, suit) {
                        let k = choose|k: int| 0 <= k < prev.len() && (#[trigger] prev[k]).suit == suit;
                        assert(next[k] == prev[k]);
                    }
                    if card.suit == suit {
                        assert(next[i as int] == card);
                    }
                }
                lemma_value_count_take(cards@, i + 1, card.value as int);
            }
            match card.suit {
                Suit::Hearts => { hearts = true; },
                Suit::Diamonds => { diamonds = true; },
                Suit::Spades => { spades = true; },
                Suit::Clubs => { clubs = true; },
            }
            let idx: usize = (card.value - 1) as usize;
            let cur = ranks[idx];
            ranks.set(idx, cur + 1);
            i += 1;
        }
        proof {
            assert(cards@.take(cards@.len() as int) =~= cards@);
        }
        let mut suits: u8 = 0;
        if hearts {
            suits += 1;
        }
        if diamonds {
            suits += 1;
        }
        if spades {
            suits += 1;
        }
        if clubs {
            suits += 1;
        }
        Hand { cards, ranks, suits, score: 0 }
    }
}

/// A prefix never holds more cards of a value than the whole sequence.
pub proof fn lemma_value_count_take(s: Seq<Card>, i: int, v: int)
    requires
        0 <= i <= s.len(),
    ensures
        value_count(s.take(i), v) <= value_count(s, v),
    decreases s.len(),
{
    if i == s.len() {
        assert(s.take(i) =~= s);
    } else {
        assert(s.drop_last().take(i) =~= s.take(i));
        lemma_value_count_take(s.drop_last(), i, v);
    }
}


/// A card of a real rank puts a positive count on its rank.
pub proof fn lemma_value_count_pos(s: Seq<Card>, i: int)
    requires
        0 <= i < s.len(),
    ensures
        value_count(s, s[i].value as int) >= 1,
    decreases s.len(),
{
    if i < s.len() - 1 {
        assert(s.drop_last()[i] == s[i]);
        lemma_value_count_pos(s.drop_last(), i);
    }
    lemma_value_count_nonneg(s.drop_last(), s[i].value as int);
}

/// No value is counted a negative number of times.
pub proof fn lemma_value_count_nonneg(s: Seq<Card>, v: int)
    ensures
        value_count(s, v) >= 0,
    decreases s.len(),
{
    if s.len() > 0 {
        lemma_value_count_nonneg(s.drop_last(), v);
    }
}

/// The counts of a rank vector as integers.
pub open spec fn as_counts(r: Seq<u8>) -> Seq<int> {
    Seq::new(r.len(), |i: int| r[i] as int)
}

/// Whether the rank counts (ace first) make a straight: five ranks in a row, the
/// ace counted low or high. Some rank must be present.
pub fn is_straight(ranks: &Vec<u8>) -> (b: bool)
    requires
        ranks@.len() == 13,
        exists|i: int| 0 <= i < 13 && ranks@[i] > 0,
    ensures
        b == straight(as_counts(ranks@)),
{
    let ghost c = as_counts(ranks@);
    let mut min_rank: usize = 14;
    let mut max_rank: usize = 0;
    let ace = ranks[0];
    let mut unique_ranks: u8 = 0;
    let mut i: usize = 0;
    while i < ranks.len()
        invariant
            ranks@.len() == 13,
            c == as_counts(ranks@),
            i <= 13,
            unique_ranks as int == num_present(c, i as int),
            unique_ranks <= i,
            min_rank as int == lowest_present(c, i as int),
            max_rank as int == highest_present(c, i as int),
            min_rank == 14 ==> forall|k: int| 0 <= k < i ==> c[k] <= 0,
            min_rank < 14 ==> min_rank <= max_rank && min_rank < i,
            i > 0 ==> max_rank < i,
            i == 0 ==> max_rank == 0,
        decreases 13 - i,
    {
        assert(c[i as int] == ranks@[i as int] as int);
        if ranks[i] > 0 {
            unique_ranks += 1;
            if i > max_rank {
                max_rank = i;
            }
            if i < min_rank {
                min_rank = i;
            }
        }
        i += 1;
    }
    proof {
        let w = choose|w: int| 0 <= w < 13 && ranks@[w] > 0;
        assert(c[w] > 0);
    }
    if (max_rank - min_rank) == 4 && unique_ranks == 5 {
        true
    } else if ace > 0 {
        unique_ranks == 5 && ranks[9] > 0 && ranks[10] > 0 && ranks[11] > 0 && ranks[12] > 0
    } else {
        false
    }
}

/// Scores the hand: afterwards its score is the category of its cards.
pub fn evaluate_hand(hand: &mut Hand)
    requires
        old(hand).wf(),
        exists|i: int| 0 <= i < old(hand)@.len() && 1 <= (#[trigger] old(hand)@[i]).value <= 13,
    ensures
        final(hand).wf(),
        final(hand)@ == old(hand)@,
        final(hand).ranks == old(hand).ranks,
        final(hand).suits == old(hand).suits,
        final(hand).score == hand_score(old(hand)@),
{
    let ghost c = as_counts(hand.ranks@);
    proof {
        assert(c =~= rank_counts(hand@));
        let w = choose|w: int| 0 <= w < hand@.len() && 1 <= (#[trigger] hand@[w]).value <= 13;
        lemma_value_count_pos(hand@, w);
        let r = hand@[w].value as int - 1;
        assert(hand.ranks@[r] > 0);
    }
    let is_flush = hand.suits == 1;
    let is_straight = is_straight(&hand.ranks);
    let mut is_four = false;
    let mut is_three = false;
    let mut is_two_pair = false;
    let mut is_pair = false;
    let mut i: usize = 0;
    while i < hand.ranks.len()
        invariant
            hand.ranks@.len() == 13,
            c == as_counts(hand.ranks@),
            i <= 13,
            is_four == (num_with(c, i as int, 4) > 0),
            is_three == (num_with(c, i as int, 3) > 0),
            is_pair == (num_with(c, i as int, 2) >= 1),
            is_two_pair == (num_with(c, i as int, 2) >= 2),
            num_with(c, i as int, 2) >= 0,
            num_with(c, i as int, 3) >= 0,
            num_with(c, i as int, 4) >= 0,
        decreases 13 - i,
    {
        assert(c[i as int] == hand.ranks@[i as int] as int);
        if hand.ranks[i] == 4 {
            is_four = true;
        } else if hand.ranks[i] == 3 {
            is_three = true;
        } else if hand.ranks[i] == 2 && is_pair {
            is_two_pair = true;
        } else if hand.ranks[i] == 2 {
            is_pair = true;
        }
        i += 1;
    }
    if is_straight && is_flush {
        hand.score = 8;
    } else if is_four {
        hand.score = 7;
    } else if is_three && is_pair {
        hand.score = 6;
    } else if is_flush {
        hand.score = 5;
    } else if is_straight {
        hand.score = 4;
    } else if is_three {
        hand.score = 3;
    } else if is_two_pair {
        hand.score = 2;
    } else if is_pair {
        hand.score = 1;
    } else {
        hand.score = 0;
    }
}

/// Skipping indices whose count is not `v` does not change the first match.
proof fn lemma_first_with_skip(c: Seq<int>, start: int, i: int, v: int)
    requires
        0 <= start <= i <= c.len(),
        forall|k: int| start <= k < i ==> c[k] != v,
    ensures
        first_with(c, start, v) == first_with(c, i, v),
    decreases i - start,
{
    if start < i {
        lemma_first_with_skip(c, start + 1, i, v);
    }
}

proof fn lemma_first_with_bound(c: Seq<int>, start: int, v: int)
    ensures
        0 <= first_with(c, start, v),
        first_with(c, start, v) < c.len() || first_with(c, start, v) == 0,
    decreases c.len() - start,
{
    if 0 <= start < c.len() && c[start] != v {
        lemma_first_with_bound(c, start + 1, v);
    }
}

/// The first rank index from `start_index` on whose count is `value`; 0 when
/// there is none.
pub fn find_next(ranks: &Vec<u8>, start_index: usize, value: u8) -> (r: u8)
    requires
        ranks@.len() == 13,
    ensures
        r as int == first_with(as_counts(ranks@), start_index as int, value as int),
{
    let ghost c = as_counts(ranks@);
    if start_index >= ranks.len() {
        return 0;
    }
    let mut i: usize = start_index;
    while i < ranks.len()
        invariant
            ranks@.len() == 13,
            c == as_counts(ranks@),
            start_index <= i <= 13,
            forall|k: int| start_index <= k < i ==> c[k] != value,
        decreases 13 - i,
    {
        if ranks[i] == value {
            proof {
                lemma_first_with_skip(c, start_index as int, i as int, value as int);
            }
            return i as u8;
        }
        i += 1;
    }
    proof {
        lemma_first_with_skip(c, start_index as int, 13, value as int);
    }
    0
}

/// Compares two rank indices, the ace (index 0) above the king: 1 when the first
/// is higher, 2 when the second is, 0 when they are the same.
pub fn compare(val1: u8, val2: u8) -> (r: u8)
    ensures
        r == rank_order(val1 as int, val2 as int),
{
    let mut v1 = val1;
    let mut v2 = val2;
    if v1 == 0 {
        v1 = 14;
    }
    if v2 == 0 {
        v2 = 14;
    }
    if v1 > v2 {
        1
    } else if v2 > v1 {
        2
    } else {
        0
    }
}

/// The comparison of two hands by their scores, categories and kickers.
pub open spec fn hands_order(h1: Hand, h2: Hand) -> u8 {
    hand_order(h1.counts(), h1.score, h2.counts(), h2.score)
}

/// The comparison of two hands can be carried out without running out of kickers.
pub open spec fn hands_comparable(h1: Hand, h2: Hand) -> bool {
    kicker_safe(h1.counts(), h1.score, h2.counts(), h2.score)
}

fn kicker_list(ranks: &Vec<u8>) -> (k: Vec<u8>)
    requires
        ranks@.len() == 13,
    ensures
        k@.len() == kickers(as_counts(ranks@)).len(),
        forall|m: int| 0 <= m < k@.len() ==> k@[m] as int == #[trigger] kickers(as_counts(ranks@))[m],
{
    let ghost c = as_counts(ranks@);
    let ghost all = kickers(c);
    let mut k: Vec<u8> = Vec::new();
    if ranks[0] > 0 {
        k.push(14);
    }
    let mut j: usize = 13;
    while j > 1
        invariant
            ranks@.len() == 13,
            c == as_counts(ranks@),
            all == kickers(c),
            1 <= j <= 13,
            k@.len() + present_desc(c, j as int).len() == all.len(),
            forall|m: int| 0 <= m < k@.len() ==> k@[m] as int == #[trigger] all[m],
            forall|m: int| 0 <= m < present_desc(c, j as int).len() ==> all[k@.len() + m] == #[trigger] present_desc(c, j as int)[m],
        decreases j,
    {
        j -= 1;
        let ghost before = present_desc(c, j + 1);
        let ghost after = present_desc(c, j as int);
        if ranks[j] > 0 {
            proof {
                assert(before =~= seq![j as int] + after);
                assert(before[0] == j as int);
                assert(all[k@.len() as int] == j as int);
            }
            k.push(j as u8);
        } else {
            proof {
                assert(before =~= after);
            }
        }
        proof {
            assert forall|m: int| 0 <= m < after.len() implies all[k@.len() + m] == #[trigger] after[m] by {
                if ranks@[j as int] > 0 {
                    assert(before[m + 1] == after[m]);
                } else {
                    assert(before[m] == after[m]);
                }
            }
        }
    }
    k
}

/// The highest rank index from 1 to 12 whose count is `value`; 0 when there is none.
fn find_last(ranks: &Vec<u8>, value: u8) -> (r: u8)
    requires
        ranks@.len() == 13,
    ensures
        r as int == last_with(as_counts(ranks@), 13, value as int),
{
    let ghost c = as_counts(ranks@);
    let mut j: usize = 13;
    while j > 1
        invariant
            ranks@.len() == 13,
            c == as_counts(ranks@),
            1 <= j <= 13,
            last_with(c, 13, value as int) == last_with(c, j as int, value as int),
        decreases j,
    {
        if ranks[j - 1] == value {
            return (j - 1) as u8;
        }
        j -= 1;
    }
    0
}

proof fn lemma_kicker_order_prefix(k1: Seq<int>, k2: Seq<int>, i: int)
    requires
        0 <= i <= k2.len(),
        k2.len() <= k1.len(),
        forall|m: int| 0 <= m < i ==> k1[m] == k2[m],
    ensures
        kicker_order(k1, k2, 0) == kicker_order(k1, k2, i),
    decreases i,
{
    if i > 0 {
        lemma_kicker_order_prefix(k1, k2, i - 1);
    }
}

/// Compares two scored hands: 1 when the first is better, 2 when the second is,
/// 0 when they are equal.
pub fn compare_hands(hand1: &mut Hand, hand2: &mut Hand) -> (r: u8)
    requires
        old(hand1).wf(),
        old(hand2).wf(),
        hands_comparable(*old(hand1), *old(hand2)),
    ensures
        *final(hand1) == *old(hand1),
        *final(hand2) == *old(hand2),
        r == hands_order(*old(hand1), *old(hand2)),
{
    let ghost c1 = as_counts(hand1.ranks@);
    let ghost c2 = as_counts(hand2.ranks@);
    proof {
        assert(c1 =~= hand1.counts());
        assert(c2 =~= hand2.counts());
    }
    let score1 = hand1.score;
    let score2 = hand2.score;
    if score1 > score2 {
        return 1;
    } else if score2 > score1 {
        return 2;
    }
    if score1 == 1 {
        let pair1 = find_next(&hand1.ranks, 0, 2);
        let pair2 = find_next(&hand2.ranks, 0, 2);
        let comparison = compare(pair1, pair2);
        if comparison != 0 {
            return comparison;
        }
    } else if score1 == 2 {
        let top1 = if hand1.ranks[0] == 2 { 0 } else { find_last(&hand1.ranks, 2) };
        let top2 = if hand2.ranks[0] == 2 { 0 } else { find_last(&hand2.ranks, 2) };
        let comparison = compare(top1, top2);
        if comparison != 0 {
            return comparison;
        }
        let low1 = if hand1.ranks[0] == 2 { find_last(&hand1.ranks, 2) } else { find_next(&hand1.ranks, 0, 2) };
        let low2 = if hand2.ranks[0] == 2 { find_last(&hand2.ranks, 2) } else { find_next(&hand2.ranks, 0, 2) };
        let comparison = compare(low1, low2);
        if comparison != 0 {
            return comparison;
        }
    } else if score1 == 3 {
        let three1 = find_next(&hand1.ranks, 0, 3);
        let three2 = find_next(&hand2.ranks, 0, 3);
        let comparison = compare(three1, three2);
        if comparison != 0 {
            return comparison;
        }
    } else if score1 == 6 {
        let three1 = find_next(&hand1.ranks, 0, 3);
        let three2 = find_next(&hand2.ranks, 0, 3);
        let comparison = compare(three1, three2);
        if comparison != 0 {
            return comparison;
        }
        let pair1 = find_next(&hand1.ranks, 0, 2);
        let pair2 = find_next(&hand2.ranks, 0, 2);
        let comparison = compare(pair1, pair2);
        return comparison;
    } else if score1 == 7 {
        let four1 = find_next(&hand1.ranks, 0, 4);
        let four2 = find_next(&hand2.ranks, 0, 4);
        let comparison = compare(four1, four2);
        if comparison != 0 {
            return comparison;
        }
    } else if score1 == 4 || score1 == 8 {
        let wheel1 = hand1.ranks[0] > 0 && hand1.ranks[1] > 0;
        let wheel2 = hand2.ranks[0] > 0 && hand2.ranks[1] > 0;
        if wheel1 && wheel2 {
            return 0;
        } else if wheel1 {
            return 2;
        } else if wheel2 {
            return 1;
        }
    }
    let ranks1 = kicker_list(&hand1.ranks);
    let ranks2 = kicker_list(&hand2.ranks);
    let ghost k1 = kickers(c1);
    let ghost k2 = kickers(c2);
    let ghost expected = hands_order(*old(hand1), *old(hand2));
    assert(expected == kicker_order(k1, k2, 0));
    let mut i: usize = 0;
    while i < ranks2.len()
        invariant
            expected == hands_order(*old(hand1), *old(hand2)),
            expected == kicker_order(k1, k2, 0),
            ranks1@.len() == k1.len(),
            ranks2@.len() == k2.len(),
            k2.len() <= k1.len(),
            forall|m: int| 0 <= m < ranks1@.len() ==> ranks1@[m] as int == #[trigger] k1[m],
            forall|m: int| 0 <= m < ranks2@.len() ==> ranks2@[m] as int == #[trigger] k2[m],
            i <= ranks2@.len(),
            forall|m: int| 0 <= m < i ==> k1[m] == k2[m],
        decreases ranks2@.len() - i,
    {
        if ranks1[i] > ranks2[i] {
            proof {
                lemma_kicker_order_prefix(k1, k2, i as int);
            }
            return 1;
        } else if ranks2[i] > ranks1[i] {
            proof {
                lemma_kicker_order_prefix(k1, k2, i as int);
            }
            return 2;
        }
        i += 1;
    }
    proof {
        lemma_kicker_order_prefix(k1, k2, k2.len() as int);
    }
    0
}

// ---------------------------------------------------------------------------
// Choosing the best five cards
// ---------------------------------------------------------------------------

/// All ways to pick `k` cards out of `s` from index `start` on, keeping their
/// order, listed in lexicographic order of the picked positions.
pub open spec fn choose_cards(s: Seq<Card>, k: nat, start: int) -> Seq<Seq<Card>>
    decreases k, s.len() - start,
{
    if k == 0 {
        seq![Seq::<Card>::empty()]
    } else if start >= s.len() || start < 0 {
        Seq::<Seq<Card>>::empty()
    } else {
        choose_cards(s, (k - 1) as nat, start + 1).map_values(|t: Seq<Card>| seq![s[start]] + t)
            + choose_cards(s, k, start + 1)
    }
}

/// Every five-card hand that can be made from `s`, in lexicographic order of positions.
pub open spec fn all_hands(s: Seq<Card>) -> Seq<Seq<Card>> {
    choose_cards(s, 5, 0)
}

/// The hand kept after looking at the candidate hands `hs` in order: a candidate
/// replaces the kept hand when it scores higher, or scores the same and does not
/// lose the comparison. Before any candidate the kept hand is the empty one with
/// score 0.
pub open spec fn best_among(hs: Seq<Seq<Card>>) -> (Seq<Card>, u8)
    decreases hs.len(),
{
    if hs.len() == 0 {
        (Seq::<Card>::empty(), 0u8)
    } else {
        let prev = best_among(hs.drop_last());
        let cur = hs.last();
        let cs = hand_score(cur);
        if cs > prev.1 {
            (cur, cs)
        } else if cs == prev.1 && hand_order(rank_counts(cur), cs, rank_counts(prev.0), prev.1) != 2 {
            (cur, cs)
        } else {
            prev
        }
    }
}

/// Every comparison made while looking through `hs` can be carried out.
pub open spec fn fold_safe(hs: Seq<Seq<Card>>) -> bool
    decreases hs.len(),
{
    hs.len() == 0 || (fold_safe(hs.drop_last()) && ({
        let prev = best_among(hs.drop_last());
        let cur = hs.last();
        kicker_safe(rank_counts(cur), hand_score(cur), rank_counts(prev.0), prev.1)
    }))
}

/// The best hand the evaluator finds in `s`, with its score: five cards are scored
/// as they are; otherwise every five-card hand is looked at in turn.
pub open spec fn best_hand(s: Seq<Card>) -> (Seq<Card>, u8) {
    if s.len() == 5 {
        (s, hand_score(s))
    } else {
        best_among(all_hands(s))
    }
}

/// Every card of `s` has a real rank.
pub open spec fn proper_values(s: Seq<Card>) -> bool {
    forall|i: int| 0 <= i < s.len() ==> 1 <= (#[trigger] s[i]).value <= 13
}

/// Each card of `t` is a card of `s` at position `start` or later.
pub open spec fn drawn_from(t: Seq<Card>, s: Seq<Card>, start: int) -> bool {
    forall|m: int| 0 <= m < t.len() ==> exists|j: int| start <= j < s.len() && #[trigger] t[m] == s[j]
}

proof fn lemma_choose_cards(s: Seq<Card>, k: nat, start: int)
    requires
        0 <= start,
    ensures
        forall|i: int| 0 <= i < choose_cards(s, k, start).len() ==> (#[trigger] choose_cards(s, k, start)[i]).len() == k
            && drawn_from(choose_cards(s, k, start)[i], s, start),
    decreases k, s.len() - start,
{
    if k == 0 {
    } else if start >= s.len() {
    } else {
        let a = choose_cards(s, (k - 1) as nat, start + 1);
        let b = choose_cards(s, k, start + 1);
        let am = a.map_values(|t: Seq<Card>| seq![s[start]] + t);
        lemma_choose_cards(s, (k - 1) as nat, start + 1);
        lemma_choose_cards(s, k, start + 1);
        assert(choose_cards(s, k, start) == am + b);
        assert forall|i: int| 0 <= i < (am + b).len() implies (#[trigger] (am + b)[i]).len() == k
            && drawn_from((am + b)[i], s, start) by {
            if i < am.len() {
                let t = a[i];
                assert((am + b)[i] == seq![s[start]] + t);
                assert forall|m: int| 0 <= m < (am + b)[i].len() implies exists|j: int| start <= j < s.len() && #[trigger] (am + b)[i][m] == s[j] by {
                    if m == 0 {
                        assert((am + b)[i][m] == s[start]);
                    } else {
                        assert((am + b)[i][m] == t[m - 1]);
                        let j = choose|j: int| start + 1 <= j < s.len() && #[trigger] t[m - 1] == s[j];
                    }
                }
            } else {
                let t = b[i - am.len()];
                assert((am + b)[i] == t);
                assert forall|m: int| 0 <= m < t.len() implies exists|j: int| start <= j < s.len() && #[trigger] t[m] == s[j] by {
                    let j = choose|j: int| start + 1 <= j < s.len() && #[trigger] t[m] == s[j];
                }
            }
        }
    }
}

fn combos(cards: &Vec<Card>, k: usize, start: usize) -> (r: Vec<Vec<Card>>)
    requires
        start <= cards@.len(),
    ensures
        r@.len() == choose_cards(cards@, k as nat, start as int).len(),
        forall|i: int| 0 <= i < r@.len() ==> (#[trigger] r@[i])@ == choose_cards(cards@, k as nat, start as int)[i],
    decreases k, cards@.len() - start,
{
    if k == 0 {
        let mut r: Vec<Vec<Card>> = Vec::new();
        r.push(Vec::new());
        proof {
            assert(r@[0]@ =~= Seq::<Card>::empty());
        }
        return r;
    }
    if start >= cards.len() {
        return Vec::new();
    }
    let ghost a = choose_cards(cards@, (k - 1) as nat, start + 1);
    let ghost am = a.map_values(|t: Seq<Card>| seq![cards@[start as int]] + t);
    let with_first = combos(cards, k - 1, start + 1);
    let mut r: Vec<Vec<Card>> = Vec::new();
    let mut i: usize = 0;
    while i < with_first.len()
        invariant
            with_first@.len() == a.len(),
            forall|m: int| 0 <= m < with_first@.len() ==> (#[trigger] with_first@[m])@ == a[m],
            am == a.map_values(|t: Seq<Card>| seq![cards@[start as int]] + t),
            start < cards@.len(),
            i <= with_first@.len(),
            r@.len() == i,
            forall|m: int| 0 <= m < i ==> (#[trigger] r@[m])@ == am[m],
        decreases with_first@.len() - i,
    {
        let mut t: Vec<Card> = Vec::new();
        t.push(cards[start]);
        let mut j: usize = 0;
        while j < with_first[i].len()
            invariant
                i < with_first@.len(),
                start < cards@.len(),
                j <= with_first@[i as int]@.len(),
                t@ == seq![cards@[start as int]] + with_first@[i as int]@.take(j as int),
            decreases with_first@[i as int]@.len() - j,
        {
            t.push(with_first[i][j]);
            proof {
                assert(with_first@[i as int]@.take(j + 1) =~= with_first@[i as int]@.take(j as int).push(with_first@[i as int]@[j as int]));
            }
            j += 1;
        }
        proof {
            assert(with_first@[i as int]@.take(j as int) =~= with_first@[i as int]@);
        }
        r.push(t);
        i += 1;
    }
    let mut rest = combos(cards, k, start + 1);
    let ghost b = choose_cards(cards@, k as nat, start + 1);
    let ghost r_before = r@;
    let ghost rest_before = rest@;
    r.append(&mut rest);
    proof {
        assert(choose_cards(cards@, k as nat, start as int) == am + b);
        assert forall|m: int| 0 <= m < r@.len() implies (#[trigger] r@[m])@ == (am + b)[m] by {
            if m < am.len() {
                assert(r@[m] == r_before[m]);
            } else {
                assert(r@[m] == rest_before[m - am.len()]);
            }
        }
    }
    r
}

/// Every five-card hand that can be made from the cards, in order of the positions
/// of their cards.
pub fn get_all_hands(cards: &Vec<Card>) -> (r: Vec<Vec<Card>>)
    ensures
        r@.len() == all_hands(cards@).len(),
        forall|i: int| 0 <= i < r@.len() ==> (#[trigger] r@[i])@ == all_hands(cards@)[i],
{
    combos(cards, 5, 0)
}

/// A hand of the player's cards followed by the community cards, as the evaluator
/// scores it.
pub fn test_evaluator(player_id: usize, player_cards: Vec<Card>, community_cards: Vec<Card>) -> (h: Hand)
    requires
        proper_values(player_cards@ + community_cards@),
        (player_cards@ + community_cards@).len() != 5 ==> fold_safe(all_hands(player_cards@ + community_cards@)),
    ensures
        h.wf(),
        h@ == best_hand(player_cards@ + community_cards@).0,
        h.score == best_hand(player_cards@ + community_cards@).1,
{
    let mut cards = player_cards;
    let mut rest = community_cards;
    cards.append(&mut rest);
    find_best_hand(&cards)
}

proof fn lemma_value_count_le_len(s: Seq<Card>, v: int)
    ensures
        0 <= value_count(s, v) <= s.len(),
    decreases s.len(),
{
    if s.len() > 0 {
        lemma_value_count_le_len(s.drop_last(), v);
    }
}

/// Picks the best hand that can be made from the cards: with exactly five cards
/// they are scored as they are; with more, every five-card hand is scored and the
/// best one kept; with fewer, the result is the empty hand with score 0.
pub fn find_best_hand(cards: &Vec<Card>) -> (h: Hand)
    requires
        proper_values(cards@),
        cards@.len() != 5 ==> fold_safe(all_hands(cards@)),
    ensures
        h.wf(),
        h@ == best_hand(cards@).0,
        h.score == best_hand(cards@).1,
{
    if cards.len() == 5 {
        proof {
            assert forall|v: int| 1 <= v <= 13 implies value_count(cards@, v) <= 255 by {
                lemma_value_count_le_len(cards@, v);
            }
            assert(1 <= cards@[0].value <= 13);
        }
        let mut hand = Hand::new(cards.clone());
        evaluate_hand(&mut hand);
        return hand;
    }
    let combinations = combos(cards, 5, 0);
    let ghost hs = all_hands(cards@);
    proof {
        lemma_choose_cards(cards@, 5, 0);
    }
    let mut best_hand_val: u8 = 0;
    let mut best = Hand::new_blank();
    let mut i: usize = 0;
    while i < combinations.len()
        invariant
            combinations@.len() == hs.len(),
            forall|m: int| 0 <= m < combinations@.len() ==> (#[trigger] combinations@[m])@ == hs[m],
            hs == all_hands(cards@),
            forall|m: int| 0 <= m < hs.len() ==> (#[trigger] hs[m]).len() == 5 && drawn_from(hs[m], cards@, 0),
            proper_values(cards@),
            fold_safe(hs),
            i <= hs.len(),
            best.wf(),
            best@ == best_among(hs.take(i as int)).0,
            best.score == best_among(hs.take(i as int)).1,
            best_hand_val == best.score,
        decreases hs.len() - i,
    {
        let combination = combinations[i].clone();
        let ghost cur = hs[i as int];
        proof {
            assert(combination@ == cur);
            assert forall|m: int| 0 <= m < cur.len() implies 1 <= (#[trigger] cur[m]).value <= 13 by {
                let j = choose|j: int| 0 <= j < cards@.len() && #[trigger] cur[m] == cards@[j];
                assert(cards@[j] == cur[m]);
            }
            assert forall|v: int| 1 <= v <= 13 implies value_count(cur, v) <= 255 by {
                lemma_value_count_le_len(cur, v);
            }
            assert(1 <= cur[0].value <= 13);
            assert(hs.take(i + 1).drop_last() =~= hs.take(i as int));
            assert(hs.take(i + 1).last() == cur);
            lemma_fold_safe_prefix(hs, i + 1);
        }
        let mut cur_hand = Hand::new(combination);
        evaluate_hand(&mut cur_hand);
        let ghost prev = best_among(hs.take(i as int));
        assert(best_among(hs.take(i + 1)) == (if hand_score(cur) > prev.1 {
            (cur, hand_score(cur))
        } else if hand_score(cur) == prev.1 && hand_order(rank_counts(cur), hand_score(cur), rank_counts(prev.0), prev.1) != 2 {
            (cur, hand_score(cur))
        } else {
            prev
        }));
        if cur_hand.score > best_hand_val {
            best_hand_val = cur_hand.score;
            best = cur_hand;
        } else if cur_hand.score == best_hand_val {
            let res = compare_hands(&mut cur_hand, &mut best);
            proof {
                lemma_hand_order_range(rank_counts(cur), hand_score(cur), rank_counts(prev.0), prev.1);
            }
            if res == 1 {
                best_hand_val = cur_hand.score;
                best = cur_hand;
            } else if res == 0 {
                best = cur_hand;
            }
        }
        i += 1;
    }
    proof {
        assert(hs.take(hs.len() as int) =~= hs);
    }
    best
}

proof fn lemma_kicker_order_range(k1: Seq<int>, k2: Seq<int>, i: int)
    ensures
        kicker_order(k1, k2, i) <= 2,
    decreases k2.len() - i,
{
    if 0 <= i < k2.len() && k1[i] == k2[i] {
        lemma_kicker_order_range(k1, k2, i + 1);
    }
}

/// A comparison answers 0, 1 or 2.
pub proof fn lemma_hand_order_range(c1: Seq<int>, s1: u8, c2: Seq<int>, s2: u8)
    ensures
        hand_order(c1, s1, c2, s2) <= 2,
{
    lemma_kicker_order_range(kickers(c1), kickers(c2), 0);
}

/// Every prefix of a safe run of comparisons is safe.
pub proof fn lemma_fold_safe_prefix(hs: Seq<Seq<Card>>, n: int)
    requires
        fold_safe(hs),
        0 <= n <= hs.len(),
    ensures
        fold_safe(hs.take(n)),
    decreases hs.len(),
{
    if n == hs.len() {
        assert(hs.take(n) =~= hs);
    } else {
        assert(hs.drop_last().take(n) =~= hs.take(n));
        lemma_fold_safe_prefix(hs.drop_last(), n);
    }
}

// ---------------------------------------------------------------------------
// Hands drawn from one deck: every comparison the search makes can be carried out.
// ---------------------------------------------------------------------------

/// The sum of the first `n` rank counts.
pub open spec fn sum_counts(c: Seq<int>, n: int) -> int
    decreases n,
{
    if n <= 0 {
        0
    } else {
        sum_counts(c, n - 1) + c[n - 1]
    }
}

/// How many kickers a five-card hand of distinct faces has, by its score.
pub open spec fn kicker_len_for(score: u8) -> int {
    if score == 0 || score == 4 || score == 5 || score == 8 {
        5
    } else if score == 1 {
        4
    } else if score == 2 || score == 3 {
        3
    } else {
        2
    }
}

proof fn lemma_present_desc_len(c: Seq<int>, n: int)
    requires
        1 <= n <= c.len(),
    ensures
        present_desc(c, n).len() == num_present(c, n) - indicator(c[0] > 0),
    decreases n,
{
    if n > 1 {
        lemma_present_desc_len(c, n - 1);
        let head = if c[n - 1] > 0 {
            seq![n - 1]
        } else {
            Seq::<int>::empty()
        };
        assert(present_desc(c, n) == head + present_desc(c, n - 1));
    } else {
        assert(num_present(c, 0) == 0);
        assert(present_desc(c, 1).len() == 0);
    }
}

proof fn lemma_kickers_len(c: Seq<int>)
    requires
        c.len() == 13,
    ensures
        kickers(c).len() == num_present(c, 13),
{
    lemma_present_desc_len(c, 13);
}

proof fn lemma_sum_counts_push(t: Seq<Card>, n: int)
    requires
        t.len() > 0,
        0 <= n <= 13,
    ensures
        sum_counts(rank_counts(t), n) == sum_counts(rank_counts(t.drop_last()), n) + indicator(
            1 <= t.last().value <= n,
        ),
    decreases n,
{
    if n > 0 {
        lemma_sum_counts_push(t, n - 1);
    }
}

proof fn lemma_sum_counts_len(t: Seq<Card>)
    requires
        proper_values(t),
    ensures
        sum_counts(rank_counts(t), 13) == t.len(),
    decreases t.len(),
{
    if t.len() == 0 {
        lemma_sum_counts_zero(rank_counts(t), 13);
    } else {
        assert(proper_values(t.drop_last())) by {
            assert forall|i: int| 0 <= i < t.drop_last().len() implies 1 <= (#[trigger] t.drop_last()[i]).value <= 13 by {
                assert(t.drop_last()[i] == t[i]);
            }
        }
        lemma_sum_counts_len(t.drop_last());
        lemma_sum_counts_push(t, 13);
        assert(1 <= t[t.len() - 1].value <= 13);
    }
}

proof fn lemma_sum_counts_zero(c: Seq<int>, n: int)
    requires
        0 <= n <= c.len(),
        forall|i: int| 0 <= i < n ==> #[trigger] c[i] == 0,
    ensures
        sum_counts(c, n) == 0,
        num_present(c, n) == 0,
    decreases n,
{
    if n > 0 {
        lemma_sum_counts_zero(c, n - 1);
    }
}

proof fn lemma_count_identities(c: Seq<int>, n: int)
    requires
        0 <= n <= c.len(),
        forall|i: int| 0 <= i < n ==> 0 <= #[trigger] c[i] <= 4,
    ensures
        sum_counts(c, n) == num_with(c, n, 1) + 2 * num_with(c, n, 2) + 3 * num_with(c, n, 3) + 4
            * num_with(c, n, 4),
        num_present(c, n) == num_with(c, n, 1) + num_with(c, n, 2) + num_with(c, n, 3) + num_with(
            c,
            n,
            4,
        ),
        num_with(c, n, 1) >= 0,
        num_with(c, n, 2) >= 0,
        num_with(c, n, 3) >= 0,
        num_with(c, n, 4) >= 0,
    decreases n,
{
    if n > 0 {
        lemma_count_identities(c, n - 1);
    }
}

proof fn lemma_num_with_absent(c: Seq<int>, n: int, k: int)
    requires
        0 <= n <= c.len(),
        forall|i: int| 0 <= i < n ==> #[trigger] c[i] != k,
    ensures
        num_with(c, n, k) == 0,
    decreases n,
{
    if n > 0 {
        lemma_num_with_absent(c, n - 1, k);
    }
}

proof fn lemma_value_count_all(t: Seq<Card>, v: int)
    requires
        value_count(t, v) >= t.len(),
    ensures
        forall|i: int| 0 <= i < t.len() ==> (#[trigger] t[i]).value == v,
    decreases t.len(),
{
    if t.len() > 0 {
        lemma_value_count_le_len(t.drop_last(), v);
        lemma_value_count_all(t.drop_last(), v);
        assert forall|i: int| 0 <= i < t.len() implies (#[trigger] t[i]).value == v by {
            if i < t.len() - 1 {
                assert(t[i] == t.drop_last()[i]);
            }
        }
    }
}

proof fn lemma_value_count_absent(t: Seq<Card>, v: int)
    requires
        forall|i: int| 0 <= i < t.len() ==> (#[trigger] t[i]).value != v,
    ensures
        value_count(t, v) == 0,
    decreases t.len(),
{
    if t.len() > 0 {
        assert forall|i: int| 0 <= i < t.drop_last().len() implies (#[trigger] t.drop_last()[i]).value != v by {
            assert(t.drop_last()[i] == t[i]);
        }
        lemma_value_count_absent(t.drop_last(), v);
    }
}

proof fn lemma_value_count_distinct(t: Seq<Card>, v: int)
    requires
        forall|i: int, j: int| 0 <= i < j < t.len() ==> (#[trigger] t[i]).value != (#[trigger] t[j]).value,
    ensures
        value_count(t, v) <= 1,
    decreases t.len(),
{
    if t.len() > 0 {
        let u = t.drop_last();
        assert forall|i: int, j: int| 0 <= i < j < u.len() implies (#[trigger] u[i]).value != (#[trigger] u[j]).value by {
            assert(u[i] == t[i]);
            assert(u[j] == t[j]);
        }
        lemma_value_count_distinct(u, v);
        if t.last().value as int == v {
            assert forall|i: int| 0 <= i < u.len() implies (#[trigger] u[i]).value != v by {
                assert(u[i] == t[i]);
                assert(t[i].value != t[t.len() - 1].value);
            }
            lemma_value_count_absent(u, v);
        }
    }
}

/// Five cards of distinct faces never hold more than four of a rank.
proof fn lemma_five_counts_at_most_four(t: Seq<Card>, v: int)
    requires
        t.len() == 5,
        crate::cards::distinct_faces(t),
    ensures
        value_count(t, v) <= 4,
{
    lemma_value_count_le_len(t, v);
    if value_count(t, v) == 5 {
        lemma_value_count_all(t, v);
        assert(!crate::cards::same_face(t[0], t[1]));
        assert(!crate::cards::same_face(t[0], t[2]));
        assert(!crate::cards::same_face(t[0], t[3]));
        assert(!crate::cards::same_face(t[0], t[4]));
        assert(!crate::cards::same_face(t[1], t[2]));
        assert(!crate::cards::same_face(t[1], t[3]));
        assert(!crate::cards::same_face(t[1], t[4]));
        assert(!crate::cards::same_face(t[2], t[3]));
        assert(!crate::cards::same_face(t[2], t[4]));
        assert(!crate::cards::same_face(t[3], t[4]));
    }
}

/// Cards of distinct faces that all show one suit have distinct values.
proof fn lemma_flush_counts(t: Seq<Card>, v: int)
    requires
        suit_count(t) == 1,
        crate::cards::distinct_faces(t),
    ensures
        value_count(t, v) <= 1,
{
    assert forall|i: int, j: int| 0 <= i < j < t.len() implies (#[trigger] t[i]).value != (#[trigger] t[j]).value by {
        assert(has_suit(t, t[i].suit));
        assert(has_suit(t, t[j].suit));
        assert(!crate::cards::same_face(t[i], t[j]));
    }
    lemma_value_count_distinct(t, v);
}

/// The number of kickers of a five-card hand of distinct faces is fixed by its score.
pub proof fn lemma_kicker_len(t: Seq<Card>)
    requires
        t.len() == 5,
        crate::cards::distinct_faces(t),
        proper_values(t),
    ensures
        hand_score(t) != 6 ==> kickers(rank_counts(t)).len() == kicker_len_for(hand_score(t)),
{
    let c = rank_counts(t);
    assert forall|i: int| 0 <= i < 13 implies 0 <= #[trigger] c[i] <= 4 by {
        lemma_value_count_le_len(t, i + 1);
        lemma_five_counts_at_most_four(t, i + 1);
    }
    lemma_sum_counts_len(t);
    lemma_count_identities(c, 13);
    lemma_kickers_len(c);
    if suit_count(t) == 1 {
        assert forall|i: int| 0 <= i < 13 implies #[trigger] c[i] <= 1 by {
            lemma_flush_counts(t, i + 1);
        }
        lemma_num_with_absent(c, 13, 2);
        lemma_num_with_absent(c, 13, 3);
        lemma_num_with_absent(c, 13, 4);
    }
}

/// A hand of five cards of distinct faces and real ranks.
pub open spec fn deck_hand(t: Seq<Card>) -> bool {
    t.len() == 5 && crate::cards::distinct_faces(t) && proper_values(t)
}

/// The kept hand is the empty hand, or one of the candidates with its score.
pub proof fn lemma_best_among_origin(hs: Seq<Seq<Card>>)
    ensures
        best_among(hs) == (Seq::<Card>::empty(), 0u8) || exists|i: int|
            0 <= i < hs.len() && best_among(hs) == (#[trigger] hs[i], hand_score(hs[i])),
    decreases hs.len(),
{
    if hs.len() > 0 {
        lemma_best_among_origin(hs.drop_last());
        let prev = best_among(hs.drop_last());
        if prev != (Seq::<Card>::empty(), 0u8) {
            let i = choose|i: int| 0 <= i < hs.drop_last().len() && prev == (#[trigger] hs.drop_last()[i], hand_score(hs.drop_last()[i]));
            assert(hs[i] == hs.drop_last()[i]);
        }
        assert(hs[hs.len() - 1] == hs.last());
    }
}

/// Looking through hands of distinct faces, every comparison can be carried out.
pub proof fn lemma_fold_safe_deck_hands(hs: Seq<Seq<Card>>)
    requires
        forall|i: int| 0 <= i < hs.len() ==> deck_hand(#[trigger] hs[i]),
    ensures
        fold_safe(hs),
    decreases hs.len(),
{
    if hs.len() > 0 {
        let init = hs.drop_last();
        assert forall|i: int| 0 <= i < init.len() implies deck_hand(#[trigger] init[i]) by {
            assert(init[i] == hs[i]);
        }
        lemma_fold_safe_deck_hands(init);
        let prev = best_among(init);
        let cur = hs.last();
        assert(deck_hand(hs[hs.len() - 1]));
        lemma_kicker_len(cur);
        lemma_best_among_origin(init);
        if prev == (Seq::<Card>::empty(), 0u8) {
            let z = rank_counts(Seq::<Card>::empty());
            assert forall|i: int| 0 <= i < 13 implies z[i] == 0 by {}
            lemma_sum_counts_zero(z, 13);
            lemma_kickers_len(z);
        } else {
            let i = choose|i: int| 0 <= i < init.len() && prev == (#[trigger] init[i], hand_score(init[i]));
            lemma_kicker_len(init[i]);
        }
    }
}

proof fn lemma_choose_cards_distinct(s: Seq<Card>, k: nat, start: int)
    requires
        0 <= start,
        crate::cards::distinct_faces(s),
        proper_values(s),
    ensures
        forall|i: int| 0 <= i < choose_cards(s, k, start).len() ==> crate::cards::distinct_faces(#[trigger] choose_cards(s, k, start)[i])
            && proper_values(choose_cards(s, k, start)[i]),
    decreases k, s.len() - start,
{
    lemma_choose_cards(s, k, start);
    if k == 0 {
    } else if start >= s.len() {
    } else {
        let a = choose_cards(s, (k - 1) as nat, start + 1);
        let b = choose_cards(s, k, start + 1);
        let am = a.map_values(|t: Seq<Card>| seq![s[start]] + t);
        lemma_choose_cards(s, (k - 1) as nat, start + 1);
        lemma_choose_cards_distinct(s, (k - 1) as nat, start + 1);
        lemma_choose_cards_distinct(s, k, start + 1);
        assert(choose_cards(s, k, start) == am + b);
        assert forall|i: int| 0 <= i < (am + b).len() implies crate::cards::distinct_faces(#[trigger] (am + b)[i]) && proper_values(
            (am + b)[i],
        ) by {
            if i < am.len() {
                let t0 = a[i];
                let t = (am + b)[i];
                assert(t == seq![s[start]] + t0);
                assert forall|x: int, y: int| 0 <= x < y < t.len() implies !crate::cards::same_face(#[trigger] t[x], #[trigger] t[y]) by {
                    assert(t[y] == t0[y - 1]);
                    if x == 0 {
                        assert(t[x] == s[start]);
                        let j = choose|j: int| start + 1 <= j < s.len() && #[trigger] t0[y - 1] == s[j];
                        assert(!crate::cards::same_face(s[start], s[j]));
                    } else {
                        assert(t[x] == t0[x - 1]);
                    }
                }
                assert forall|x: int| 0 <= x < t.len() implies 1 <= (#[trigger] t[x]).value <= 13 by {
                    if x == 0 {
                        assert(t[x] == s[start]);
                    } else {
                        assert(t[x] == t0[x - 1]);
                    }
                }
            } else {
                assert((am + b)[i] == b[i - am.len()]);
            }
        }
    }
}

/// With cards of distinct faces and real ranks, the search for the best hand never
/// runs out of kickers.
pub proof fn lemma_deck_cards_fold_safe(s: Seq<Card>)
    requires
        crate::cards::distinct_faces(s),
        proper_values(s),
    ensures
        fold_safe(all_hands(s)),
{
    lemma_choose_cards(s, 5, 0);
    lemma_choose_cards_distinct(s, 5, 0);
    let hs = all_hands(s);
    assert forall|i: int| 0 <= i < hs.len() implies deck_hand(#[trigger] hs[i]) by {}
    lemma_fold_safe_deck_hands(hs);
}

// ---------------------------------------------------------------------------
// Laws of the evaluator
// ---------------------------------------------------------------------------

proof fn lemma_best_among_max(hs: Seq<Seq<Card>>)
    ensures
        forall|i: int| 0 <= i < hs.len() ==> hand_score(#[trigger] hs[i]) <= best_among(hs).1,
    decreases hs.len(),
{
    if hs.len() > 0 {
        lemma_best_among_max(hs.drop_last());
        assert forall|i: int| 0 <= i < hs.len() implies hand_score(#[trigger] hs[i]) <= best_among(hs).1 by {
            if i < hs.len() - 1 {
                assert(hs[i] == hs.drop_last()[i]);
            }
        }
    }
}

proof fn lemma_choose_short(s: Seq<Card>, k: nat, start: int)
    requires
        0 <= start <= s.len(),
        s.len() - start < k,
    ensures
        choose_cards(s, k, start).len() == 0,
    decreases k, s.len() - start,
{
    if k > 0 && start < s.len() {
        lemma_choose_short(s, (k - 1) as nat, start + 1);
        lemma_choose_short(s, k, start + 1);
    }
}

proof fn lemma_choose_exact(s: Seq<Card>, k: nat, start: int)
    requires
        0 <= start <= s.len(),
        s.len() - start == k,
    ensures
        choose_cards(s, k, start) == seq![s.subrange(start, s.len() as int)],
    decreases k,
{
    if k == 0 {
        assert(s.subrange(start, s.len() as int) =~= Seq::<Card>::empty());
    } else {
        lemma_choose_exact(s, (k - 1) as nat, start + 1);
        lemma_choose_short(s, k, start + 1);
        let a = choose_cards(s, (k - 1) as nat, start + 1);
        let am = a.map_values(|t: Seq<Card>| seq![s[start]] + t);
        assert(seq![s[start]] + s.subrange(start + 1, s.len() as int) =~= s.subrange(start, s.len() as int));
        assert(am =~= seq![s.subrange(start, s.len() as int)]);
        assert(choose_cards(s, k, start) =~= am + choose_cards(s, k, start + 1));
    }
}

/// The best hand scores at least as high as every five-card hand that can be made
/// from the cards, and it is one of them (or, with fewer than five cards, the empty
/// hand with score 0).
pub proof fn lemma_best_hand_is_max(s: Seq<Card>)
    ensures
        forall|i: int| 0 <= i < all_hands(s).len() ==> hand_score(#[trigger] all_hands(s)[i]) <= best_hand(s).1,
        best_hand(s) == (Seq::<Card>::empty(), 0u8) || exists|i: int|
            0 <= i < all_hands(s).len() && best_hand(s) == (#[trigger] all_hands(s)[i], hand_score(all_hands(s)[i])),
{
    if s.len() == 5 {
        lemma_choose_exact(s, 5, 0);
        assert(s.subrange(0, 5) =~= s);
        assert(all_hands(s)[0] == s);
    } else {
        lemma_best_among_max(all_hands(s));
        lemma_best_among_origin(all_hands(s));
    }
}

proof fn lemma_kicker_order_swap(k1: Seq<int>, k2: Seq<int>, i: int)
    requires
        k1.len() == k2.len(),
    ensures
        (kicker_order(k1, k2, i) == 1) == (kicker_order(k2, k1, i) == 2),
        (kicker_order(k1, k2, i) == 0) == (kicker_order(k2, k1, i) == 0),
    decreases k2.len() - i,
{
    if 0 <= i < k2.len() && k1[i] == k2[i] {
        lemma_kicker_order_swap(k1, k2, i + 1);
    }
    lemma_kicker_order_range(k1, k2, i);
    lemma_kicker_order_range(k2, k1, i);
}

/// For hands drawn from one deck the comparison is antisymmetric: the first hand
/// wins exactly when the second loses the comparison the other way round, and a
/// tie is a tie both ways.
pub proof fn lemma_compare_antisymmetric(t1: Seq<Card>, t2: Seq<Card>)
    requires
        deck_hand(t1),
        deck_hand(t2),
    ensures
        (hand_order(rank_counts(t1), hand_score(t1), rank_counts(t2), hand_score(t2)) == 1)
            == (hand_order(rank_counts(t2), hand_score(t2), rank_counts(t1), hand_score(t1)) == 2),
        (hand_order(rank_counts(t1), hand_score(t1), rank_counts(t2), hand_score(t2)) == 0)
            == (hand_order(rank_counts(t2), hand_score(t2), rank_counts(t1), hand_score(t1)) == 0),
{
    lemma_kicker_len(t1);
    lemma_kicker_len(t2);
    lemma_kicker_order_range(kickers(rank_counts(t1)), kickers(rank_counts(t2)), 0);
    lemma_kicker_order_range(kickers(rank_counts(t2)), kickers(rank_counts(t1)), 0);
    if hand_score(t1) == hand_score(t2) && hand_score(t1) != 6 {
        lemma_kicker_order_swap(kickers(rank_counts(t1)), kickers(rank_counts(t2)), 0);
    }
}

// ---------------------------------------------------------------------------
// The order of hands drawn from one deck: a key compared position by position.
// ---------------------------------------------------------------------------

/// How the five cards `t1` fare against the five cards `t2`: 1 when they win,
/// 2 when they lose, 0 on a tie.
pub open spec fn versus(t1: Seq<Card>, t2: Seq<Card>) -> u8 {
    hand_order(rank_counts(t1), hand_score(t1), rank_counts(t2), hand_score(t2))
}

/// The value of a rank index, the ace (index 0) counted as 14.
pub open spec fn rank_value(i: int) -> int {
    if i == 0 {
        14
    } else {
        i
    }
}

/// The first `n` entries of `k`, padded with zeros to `n` entries.
pub open spec fn padded(k: Seq<int>, n: int) -> Seq<int> {
    Seq::new(n as nat, |i: int| if i < k.len() { k[i] } else { 0 })
}

/// The two ranks a hand of score `s` is compared by before its kickers.
pub open spec fn category_ranks(c: Seq<int>, s: u8) -> Seq<int> {
    if s == 1 {
        seq![rank_value(first_with(c, 0, 2)), 0]
    } else if s == 2 {
        seq![rank_value(top_pair(c)), rank_value(low_pair(c))]
    } else if s == 3 {
        seq![rank_value(first_with(c, 0, 3)), 0]
    } else if s == 6 {
        seq![rank_value(first_with(c, 0, 3)), rank_value(first_with(c, 0, 2))]
    } else if s == 7 {
        seq![rank_value(first_with(c, 0, 4)), 0]
    } else if s == 4 || s == 8 {
        seq![if wheel(c) { 0 } else { 1 }, 0]
    } else {
        seq![0, 0]
    }
}

/// The kickers a hand is compared by last, padded to five entries: none for a full
/// house or a five-high straight.
pub open spec fn kicker_part(c: Seq<int>, s: u8) -> Seq<int> {
    if s == 6 || ((s == 4 || s == 8) && wheel(c)) {
        padded(Seq::empty(), 5)
    } else {
        padded(kickers(c), 5)
    }
}

/// The key of a hand with rank counts `c` and score `s`: the score, the category
/// ranks, then the kickers.
pub open spec fn order_key(c: Seq<int>, s: u8) -> Seq<int> {
    seq![s as int] + category_ranks(c, s) + kicker_part(c, s)
}

proof fn lemma_kicker_order_shift(p: Seq<int>, x: Seq<int>, q: Seq<int>, y: Seq<int>, i: int)
    requires
        p.len() == q.len(),
        x.len() == y.len(),
        0 <= i,
    ensures
        kicker_order(p + x, q + y, p.len() + i) == kicker_order(x, y, i),
    decreases x.len() - i,
{
    if i < x.len() {
        assert((p + x)[p.len() + i] == x[i]);
        assert((q + y)[q.len() + i] == y[i]);
        lemma_kicker_order_shift(p, x, q, y, i + 1);
    }
}

proof fn lemma_kicker_order_padded(k1: Seq<int>, k2: Seq<int>, i: int)
    requires
        k1.len() == k2.len(),
        k1.len() <= 5,
        0 <= i <= 5,
    ensures
        kicker_order(padded(k1, 5), padded(k2, 5), i) == kicker_order(k1, k2, i),
    decreases 5 - i,
{
    if i < 5 {
        lemma_kicker_order_padded(k1, k2, i + 1);
    }
}

proof fn lemma_kicker_order_same(x: Seq<int>, i: int)
    ensures
        kicker_order(x, x, i) == 0,
    decreases x.len() - i,
{
    if 0 <= i < x.len() {
        lemma_kicker_order_same(x, i + 1);
    }
}

/// For hands drawn from one deck, the comparison is the comparison of their keys,
/// position by position.
pub proof fn lemma_order_key(t1: Seq<Card>, t2: Seq<Card>)
    requires
        deck_hand(t1),
        deck_hand(t2),
    ensures
        versus(t1, t2) == kicker_order(
            order_key(rank_counts(t1), hand_score(t1)),
            order_key(rank_counts(t2), hand_score(t2)),
            0,
        ),
{
    let c1 = rank_counts(t1);
    let c2 = rank_counts(t2);
    let s1 = hand_score(t1);
    let s2 = hand_score(t2);
    let h1 = seq![s1 as int] + category_ranks(c1, s1);
    let h2 = seq![s2 as int] + category_ranks(c2, s2);
    let k1 = order_key(c1, s1);
    let k2 = order_key(c2, s2);
    let p1 = kicker_part(c1, s1);
    let p2 = kicker_part(c2, s2);
    assert(k1 == h1 + p1);
    assert(k2 == h2 + p2);
    assert(k1[0] == s1 as int && k2[0] == s2 as int);
    assert(k1[1] == category_ranks(c1, s1)[0] && k2[1] == category_ranks(c2, s2)[0]);
    assert(k1[2] == category_ranks(c1, s1)[1] && k2[2] == category_ranks(c2, s2)[1]);
    lemma_kicker_order_shift(h1, p1, h2, p2, 0);
    assert(kicker_order(k1, k2, 3) == kicker_order(p1, p2, 0));
    lemma_kicker_len(t1);
    lemma_kicker_len(t2);
    if s1 == s2 && !(s1 == 6 || ((s1 == 4 || s1 == 8) && (wheel(c1) || wheel(c2)))) {
        lemma_kicker_order_padded(kickers(c1), kickers(c2), 0);
    }
    if s1 == s2 && (s1 == 6 || ((s1 == 4 || s1 == 8) && wheel(c1) && wheel(c2))) {
        lemma_kicker_order_same(p1, 0);
    }
    assert(kicker_order(k1, k2, 2) == if k1[2] > k2[2] {
        1u8
    } else if k2[2] > k1[2] {
        2u8
    } else {
        kicker_order(k1, k2, 3)
    });
    assert(kicker_order(k1, k2, 1) == if k1[1] > k2[1] {
        1u8
    } else if k2[1] > k1[1] {
        2u8
    } else {
        kicker_order(k1, k2, 2)
    });
    assert(kicker_order(k1, k2, 0) == if k1[0] > k2[0] {
        1u8
    } else if k2[0] > k1[0] {
        2u8
    } else {
        kicker_order(k1, k2, 1)
    });
}

proof fn lemma_kicker_order_transitive(a: Seq<int>, b: Seq<int>, c: Seq<int>, i: int)
    requires
        a.len() == b.len(),
        b.len() == c.len(),
        0 <= i,
    ensures
        kicker_order(a, b, i) != 1 && kicker_order(b, c, i) != 1 ==> kicker_order(a, c, i) != 1,
        kicker_order(a, b, i) == 0 && kicker_order(b, c, i) == 0 ==> kicker_order(a, c, i) == 0,
    decreases a.len() - i,
{
    if i < a.len() {
        lemma_kicker_order_transitive(a, b, c, i + 1);
    }
}

/// For hands drawn from one deck the comparison orders them: a hand that does not
/// beat a second one, which does not beat a third, does not beat the third; and a
/// tie with a hand that ties a third is a tie with the third.
pub proof fn lemma_compare_transitive(t1: Seq<Card>, t2: Seq<Card>, t3: Seq<Card>)
    requires
        deck_hand(t1),
        deck_hand(t2),
        deck_hand(t3),
    ensures
        versus(t1, t2) != 1 && versus(t2, t3) != 1 ==> versus(t1, t3) != 1,
        versus(t1, t2) == 0 && versus(t2, t3) == 0 ==> versus(t1, t3) == 0,
{
    lemma_order_key(t1, t2);
    lemma_order_key(t2, t3);
    lemma_order_key(t1, t3);
    lemma_kicker_order_transitive(
        order_key(rank_counts(t1), hand_score(t1)),
        order_key(rank_counts(t2), hand_score(t2)),
        order_key(rank_counts(t3), hand_score(t3)),
        0,
    );
}

/// A hand drawn from one deck ties itself.
pub proof fn lemma_compare_reflexive(t: Seq<Card>)
    requires
        deck_hand(t),
    ensures
        versus(t, t) == 0,
{
    lemma_order_key(t, t);
    lemma_kicker_order_same(order_key(rank_counts(t), hand_score(t)), 0);
}

/// Looking through hands drawn from one deck keeps one of them, with its score,
/// that none of them beats.
pub proof fn lemma_best_among_unbeaten(hs: Seq<Seq<Card>>)
    requires
        hs.len() > 0,
        forall|i: int| 0 <= i < hs.len() ==> deck_hand(#[trigger] hs[i]),
    ensures
        deck_hand(best_among(hs).0),
        best_among(hs).1 == hand_score(best_among(hs).0),
        forall|i: int| 0 <= i < hs.len() ==> versus(#[trigger] hs[i], best_among(hs).0) != 1,
    decreases hs.len(),
{
    let init = hs.drop_last();
    let cur = hs.last();
    assert(hs[hs.len() - 1] == cur);
    lemma_compare_reflexive(cur);
    assert forall|i: int| 0 <= i < hs.len() implies (#[trigger] hs[i]).len() == 5 by {}
    lemma_best_among_nonempty(hs);
    if init.len() == 0 {
        let k = choose|k: int| 0 <= k < hs.len() && best_among(hs) == (#[trigger] hs[k], hand_score(hs[k]));
        assert(k == 0);
    } else {
        assert forall|i: int| 0 <= i < init.len() implies deck_hand(#[trigger] init[i]) by {
            assert(init[i] == hs[i]);
        }
        lemma_best_among_unbeaten(init);
        let prev = best_among(init);
        let cs = hand_score(cur);
        lemma_compare_antisymmetric(cur, prev.0);
        assert(best_among(hs) == if cs > prev.1 {
            (cur, cs)
        } else if cs == prev.1 && hand_order(rank_counts(cur), cs, rank_counts(prev.0), prev.1) != 2 {
            (cur, cs)
        } else {
            prev
        });
        if best_among(hs) == prev {
            assert(versus(cur, prev.0) != 1);
        } else if cs > prev.1 {
            assert(versus(prev.0, cur) == 2);
        } else {
            assert(versus(cur, prev.0) != 2);
            lemma_hand_order_range(rank_counts(cur), cs, rank_counts(prev.0), prev.1);
            assert(versus(prev.0, cur) != 1);
        }
        assert forall|i: int| 0 <= i < hs.len() implies versus(#[trigger] hs[i], best_among(hs).0) != 1 by {
            if i < init.len() {
                assert(hs[i] == init[i]);
                lemma_compare_transitive(hs[i], prev.0, best_among(hs).0);
            }
        }
    }
}

/// The best hand found among cards drawn from one deck (at least five of them) is
/// beaten by none of the five-card hands those cards make: no hand of its score,
/// nor of any other, beats it.
pub proof fn lemma_best_hand_unbeaten(s: Seq<Card>)
    requires
        s.len() >= 5,
        crate::cards::distinct_faces(s),
        proper_values(s),
    ensures
        forall|i: int| 0 <= i < all_hands(s).len() ==> versus(#[trigger] all_hands(s)[i], best_hand(s).0) != 1,
{
    lemma_choose_cards(s, 5, 0);
    lemma_choose_cards_distinct(s, 5, 0);
    if s.len() == 5 {
        lemma_choose_exact(s, 5, 0);
        assert(s.subrange(0, 5) =~= s);
        lemma_compare_reflexive(s);
    } else {
        let hs = all_hands(s);
        lemma_choose_count_positive(s, 5, 0);
        assert forall|i: int| 0 <= i < hs.len() implies deck_hand(#[trigger] hs[i]) by {}
        lemma_best_among_unbeaten(hs);
    }
}

impl Hand {
    /// A copy of the hand.
    pub fn duplicate(&self) -> (h: Hand)
        ensures
            h@ == self@,
            h.ranks@ == self.ranks@,
            h.suits == self.suits,
            h.score == self.score,
    {
        Hand { cards: self.cards.clone(), ranks: self.ranks.clone(), suits: self.suits, score: self.score }
    }
}

/// A search over candidate hands that are all five cards long keeps one of them.
pub proof fn lemma_best_among_nonempty(hs: Seq<Seq<Card>>)
    requires
        hs.len() > 0,
        forall|i: int| 0 <= i < hs.len() ==> (#[trigger] hs[i]).len() == 5,
    ensures
        exists|i: int| 0 <= i < hs.len() && best_among(hs) == (#[trigger] hs[i], hand_score(hs[i])),
    decreases hs.len(),
{
    let init = hs.drop_last();
    let cur = hs.last();
    assert(hs[hs.len() - 1] == cur);
    if init.len() > 0 {
        assert forall|i: int| 0 <= i < init.len() implies (#[trigger] init[i]).len() == 5 by {
            assert(init[i] == hs[i]);
        }
        lemma_best_among_nonempty(init);
        let i = choose|i: int| 0 <= i < init.len() && best_among(init) == (#[trigger] init[i], hand_score(init[i]));
        assert(hs[i] == init[i]);
    } else {
        let z = rank_counts(Seq::<Card>::empty());
        assert forall|k: int| 0 <= k < 13 implies z[k] == 0 by {}
        lemma_sum_counts_zero(z, 13);
        lemma_kickers_len(z);
        assert(kickers(z).len() == 0);
        assert(best_among(init) == (Seq::<Card>::empty(), 0u8));
    }
}

/// The best hand found in cards of distinct faces and real ranks, when there are at
/// least five of them, is itself five such cards.
pub proof fn lemma_best_hand_deck(s: Seq<Card>)
    requires
        s.len() >= 5,
        crate::cards::distinct_faces(s),
        proper_values(s),
    ensures
        deck_hand(best_hand(s).0),
        best_hand(s).1 == hand_score(best_hand(s).0),
{
    if s.len() > 5 {
        lemma_choose_cards(s, 5, 0);
        lemma_choose_cards_distinct(s, 5, 0);
        let hs = all_hands(s);
        lemma_choose_count_positive(s, 5, 0);
        lemma_best_among_nonempty(hs);
        let i = choose|i: int| 0 <= i < hs.len() && best_among(hs) == (#[trigger] hs[i], hand_score(hs[i]));
    }
}

/// Picking `k` cards out of at least `k` cards has at least one way.
proof fn lemma_choose_count_positive(s: Seq<Card>, k: nat, start: int)
    requires
        0 <= start <= s.len(),
        s.len() - start >= k,
    ensures
        choose_cards(s, k, start).len() > 0,
    decreases k,
{
    if k > 0 {
        lemma_choose_count_positive(s, (k - 1) as nat, start + 1);
    }
}
/// The hand written out: its five cards and its score, or that it has no cards.
pub open spec fn hand_text(h: Hand) -> Seq<char> {
    if h.cards@.len() == 0 {
        "No cards in hand"@
    } else {
        crate::cards::card_text(h.cards@[0]) + ", "@ + crate::cards::card_text(h.cards@[1]) + ", "@
            + crate::cards::card_text(h.cards@[2]) + ", "@ + crate::cards::card_text(h.cards@[3]) + ", and "@
            + crate::cards::card_text(h.cards@[4]) + " with a score of "@ + crate::text::decimal(h.score as nat)
    }
}

impl Hand {
    /// The hand written out, such as "2 of Hearts, 3 of Hearts, 4 of Hearts,
    /// 5 of Hearts, and 6 of Hearts with a score of 8"; an empty hand is
    /// "No cards in hand". A hand holds no cards or at least five.
    pub fn to_string(hand: &Hand) -> (s: String)
        requires
            hand.cards@.len() == 0 || hand.cards@.len() >= 5,
        ensures
            s@ == hand_text(*hand),
    {
        if hand.cards.len() == 0 {
            return String::from_str("No cards in hand");
        }
        let mut s = hand.cards[0].to_string();
        s.append(", ");
        let c2 = hand.cards[1].to_string();
        s.append(c2.as_str());
        s.append(", ");
        let c3 = hand.cards[2].to_string();
        s.append(c3.as_str());
        s.append(", ");
        let c4 = hand.cards[3].to_string();
        s.append(c4.as_str());
        s.append(", and ");
        let c5 = hand.cards[4].to_string();
        s.append(c5.as_str());
        s.append(" with a score of ");
        let score = crate::text::decimal_string(hand.score as u64);
        s.append(score.as_str());
        s
    }
}

} // verus!
