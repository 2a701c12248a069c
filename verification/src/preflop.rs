//! Pre-flop hand strength and the pre-flop move table of the easy opponent.
use vstd::prelude::*;
use std::collections::HashMap;
use crate::cards::Card;
use crate::table::Player as TablePlayer;
use crate::random::random_in_range;

verus! {

broadcast use vstd::std_specs::hash::group_hash_axioms;

/// Simply sets the ace to the strongest card; all others keep their value.
pub fn generate_card_strength(val: u8) -> (strength: u8)
    ensures
        strength == crate::cards::strength_of(val),
{
    if val == 1 {
        14
    } else {
        val
    }
}

/// The pre-flop strength of a starting hand: the sum of the strengths of its
/// first two cards.
pub fn generate_hand_strength(vec_hand: &Vec<Card>) -> (s: u16)
    requires
        vec_hand@.len() >= 2,
    ensures
        s == vec_hand@[0].card_strength + vec_hand@[1].card_strength,
{
    vec_hand[0].card_strength as u16 + vec_hand[1].card_strength as u16
}

/// A starting hand with its pre-flop strength.
pub struct Player {
    pub hand: Vec<Card>,
    pub hand_strength: u16,
}

impl Player {
    /// A starting hand and its strength, which is read from `hand_clone`.
    pub fn new(hand: Vec<Card>, hand_clone: &Vec<Card>) -> (p: Player)
        requires
            hand_clone@.len() >= 2,
        ensures
            p.hand@ == hand@,
            p.hand_strength == hand_clone@[0].card_strength + hand_clone@[1].card_strength,
    {
        Player { hand, hand_strength: generate_hand_strength(hand_clone) }
    }
}

/// The move the pre-flop table picks for the number `num` with the thresholds
/// `dist`: fold up to the first threshold, call up to the second, raise above.
pub open spec fn preflop_move(dist: Seq<u16>, num: u16) -> Seq<char> {
    if num <= dist[0] {
        "Fold"@
    } else if num <= dist[1] {
        "Call"@
    } else {
        "Raise"@
    }
}

/// Picks the pre-flop move for the number `num` drawn at random.
pub fn move_for_number(dist: &Vec<u16>, num: u16) -> (m: String)
    requires
        dist@.len() >= 2,
    ensures
        m@ == preflop_move(dist@, num),
{
    if num <= dist[0] {
        String::from_str("Fold")
    } else if num <= dist[1] {
        String::from_str("Call")
    } else {
        String::from_str("Raise")
    }
}

/// Draws a number from 0 to 100 and picks the pre-flop move for the player's hand
/// strength from the player's move table.
pub fn generate_move(player: &TablePlayer) -> (m: String)
    requires
        player.move_dist@.contains_key(player.hand_strength),
        player.move_dist@[player.hand_strength]@.len() >= 2,
    ensures
        exists|num: u16| 0 <= num <= 100 && m@ == preflop_move(player.move_dist@[player.hand_strength]@, num),
{
    let num = random_in_range(0, 100);
    let chosen_dist = player.move_dist.get(&player.hand_strength);
    match chosen_dist {
        Some(d) => move_for_number(d, num),
        None => String::new(),
    }
}

/// The pre-flop thresholds (fold, call, raise) for a hand strength.
pub open spec fn preflop_table(k: u16) -> Seq<u16> {
    if k == 2 { seq![60, 85, 100] }
    else if k == 4 { seq![58, 85, 100] }
    else if k == 5 { seq![58, 85, 100] }
    else if k == 6 { seq![56, 84, 100] }
    else if k == 7 { seq![54, 83, 100] }
    else if k == 8 { seq![50, 82, 100] }
    else if k == 9 { seq![50, 82, 100] }
    else if k == 10 { seq![49, 82, 100] }
    else if k == 11 { seq![48, 82, 100] }
    else if k == 12 { seq![46, 82, 100] }
    else if k == 13 { seq![45, 81, 100] }
    else if k == 14 { seq![39, 79, 100] }
    else if k == 15 { seq![39, 79, 100] }
    else if k == 16 { seq![39, 79, 100] }
    else if k == 17 { seq![38, 79, 100] }
    else if k == 18 { seq![38, 78, 100] }
    else if k == 19 { seq![38, 78, 100] }
    else if k == 20 { seq![37, 77, 100] }
    else if k == 21 { seq![37, 77, 100] }
    else if k == 22 { seq![36, 78, 100] }
    else if k == 23 { seq![34, 77, 100] }
    else if k == 24 { seq![30, 75, 100] }
    else if k == 25 { seq![28, 75, 100] }
    else if k == 26 { seq![27, 74, 100] }
    else if k == 27 { seq![23, 70, 100] }
    else { seq![19, 69, 100] }
}

/// The hand strengths the pre-flop table covers: 2 and 4 to 28.
pub open spec fn preflop_keys(k: u16) -> bool {
    k == 2 || (4 <= k <= 28)
}

/// Builds the pre-flop move table: for each covered hand strength, the fold,
/// call and raise thresholds.
pub fn fill_move_set() -> (move_dist: HashMap<u16, Vec<u16>>)
    ensures
        forall|k: u16| #[trigger] move_dist@.contains_key(k) == preflop_keys(k),
        forall|k: u16| preflop_keys(k) ==> (#[trigger] move_dist@[k])@ == preflop_table(k),
{
    let mut move_dist: HashMap<u16, Vec<u16>> = HashMap::new();
    let mut vec_of_dists: Vec<Vec<u16>> = vec![
        vec![60, 85, 100],
        vec![58, 85, 100],
        vec![58, 85, 100],
        vec![56, 84, 100],
        vec![54, 83, 100],
        vec![50, 82, 100],
        vec![50, 82, 100],
        vec![49, 82, 100],
        vec![48, 82, 100],
        vec![46, 82, 100],
        vec![45, 81, 100],
        vec![39, 79, 100],
        vec![39, 79, 100],
        vec![39, 79, 100],
        vec![38, 79, 100],
        vec![38, 78, 100],
        vec![38, 78, 100],
        vec![37, 77, 100],
        vec![37, 77, 100],
        vec![36, 78, 100],
        vec![34, 77, 100],
        vec![30, 75, 100],
        vec![28, 75, 100],
        vec![27, 74, 100],
        vec![23, 70, 100],
        vec![19, 69, 100],
    ];
    proof {
        assert(vec_of_dists@.len() == 26);
        assert forall|j: int| 1 <= j < 26 implies (#[trigger] vec_of_dists@[j])@ == preflop_table((j + 3) as u16) by {}
        assert(vec_of_dists@[0]@ == preflop_table(2));
    }
    let mut i: u16 = 28;
    while i > 3
        invariant
            3 <= i <= 28,
            vec_of_dists@.len() == i - 2,
            forall|j: int| 1 <= j < vec_of_dists@.len() ==> (#[trigger] vec_of_dists@[j])@ == preflop_table((j + 3) as u16),
            vec_of_dists@[0]@ == preflop_table(2),
            forall|k: u16| #[trigger] move_dist@.contains_key(k) == (i < k <= 28),
            forall|k: u16| i < k <= 28 ==> (#[trigger] move_dist@[k])@ == preflop_table(k),
        decreases i,
    {
        let d = vec_of_dists.pop().unwrap();
        move_dist.insert(i, d);
        i -= 1;
    }
    let d = vec_of_dists.pop().unwrap();
    move_dist.insert(2, d);
    move_dist
}

} // verus!
