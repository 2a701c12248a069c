//! The easy opponent: a small decision tree over a random number, with thresholds
//! that depend on the strength of its hand.
use vstd::prelude::*;
use std::collections::HashMap;
use crate::cards::Card;
use crate::hand::find_best_hand;
use crate::table::{Player, PokerTurn, PokerPhase};
use crate::random::random_in_range;

verus! {

broadcast use vstd::std_specs::hash::group_hash_axioms;

/// A node of the decision tree: a decision node sends numbers up to its boundary
/// to the left and larger ones to the right; a leaf names a move.
pub struct TreeNode {
    pub decision: bool,
    pub boundary: u16,
    pub poker_move: String,
    pub left: Option<Box<TreeNode>>,
    pub right: Option<Box<TreeNode>>,
}

/// The move the tree picks for `num`; a missing branch picks the empty move.
pub open spec fn tree_move(node: TreeNode, num: u16) -> Seq<char>
    decreases node,
{
    if node.decision {
        if num <= node.boundary {
            match node.left {
                Some(l) => tree_move(*l, num),
                None => Seq::<char>::empty(),
            }
        } else {
            match node.right {
                Some(r) => tree_move(*r, num),
                None => Seq::<char>::empty(),
            }
        }
    } else {
        node.poker_move@
    }
}

/// The move for `num` under the thresholds for checking, folding and calling:
/// check up to the first, fold up to the second, call up to the third, raise above.
pub open spec fn easy_move(check: u16, fold: u16, call: u16, num: u16) -> Seq<char> {
    if num <= check {
        "Check"@
    } else if num <= fold {
        "Fold"@
    } else if num <= call {
        "Call"@
    } else {
        "Raise"@
    }
}

impl TreeNode {
    fn leaf(m: &str) -> (t: TreeNode)
        ensures
            !t.decision,
            t.poker_move@ == m@,
    {
        TreeNode { decision: false, boundary: 0, poker_move: String::from_str(m), left: None, right: None }
    }

    /// The decision tree with the given thresholds.
    pub fn new(check_boundary: u16, fold_boundary: u16, call_boundary: u16) -> (t: TreeNode)
        ensures
            forall|num: u16| #[trigger] tree_move(t, num) == easy_move(check_boundary, fold_boundary, call_boundary, num),
    {
        let call_node = TreeNode {
            decision: true,
            boundary: call_boundary,
            poker_move: String::new(),
            left: Some(Box::new(TreeNode::leaf("Call"))),
            right: Some(Box::new(TreeNode::leaf("Raise"))),
        };
        let fold_node = TreeNode {
            decision: true,
            boundary: fold_boundary,
            poker_move: String::new(),
            left: Some(Box::new(TreeNode::leaf("Fold"))),
            right: Some(Box::new(call_node)),
        };
        let t = TreeNode {
            decision: true,
            boundary: check_boundary,
            poker_move: String::new(),
            left: Some(Box::new(TreeNode::leaf("Check"))),
            right: Some(Box::new(fold_node)),
        };
        proof {
            reveal_with_fuel(tree_move, 4);
        }
        t
    }

    /// A leaf without a move.
    pub fn new_blank() -> (t: TreeNode)
        ensures
            forall|num: u16| #[trigger] tree_move(t, num) == Seq::<char>::empty(),
    {
        TreeNode { decision: false, boundary: 0, poker_move: String::new(), left: None, right: None }
    }

    /// Walks the tree from `head` by comparing `num` with the boundaries and returns
    /// the move of the leaf it reaches.
    pub fn get_move(head: TreeNode, num: u16) -> (m: String)
        ensures
            m@ == tree_move(head, num),
        decreases head,
    {
        if head.decision {
            if num <= head.boundary {
                match head.left {
                    None => String::new(),
                    Some(i) => TreeNode::get_move(*i, num),
                }
            } else {
                match head.right {
                    None => String::new(),
                    Some(i) => TreeNode::get_move(*i, num),
                }
            }
        } else {
            head.poker_move
        }
    }
}

/// The strength of a card of the given value: the ace ranks above the king.
pub fn generate_card_strength(val: u8) -> (strength: u8)
    ensures
        strength == crate::cards::strength_of(val),
{
    if val == 1 {
        14
    } else {
        val
    }
}

/// The strength of a hand after the flop: the score of the best hand that the
/// player's cards and the community cards make.
pub fn generate_post_flop_hand_strength(hand: &Vec<Card>, community_cards: &Vec<Card>) -> (s: u16)
    requires
        crate::hand::proper_values(hand@ + community_cards@),
        (hand@ + community_cards@).len() != 5 ==> crate::hand::fold_safe(
            crate::hand::all_hands(hand@ + community_cards@),
        ),
    ensures
        s == crate::hand::best_hand(hand@ + community_cards@).1,
{
    let mut hand_and_community: Vec<Card> = hand.clone();
    let mut i: usize = 0;
    while i < community_cards.len()
        invariant
            i <= community_cards@.len(),
            hand_and_community@ == hand@ + community_cards@.take(i as int),
        decreases community_cards@.len() - i,
    {
        hand_and_community.push(community_cards[i]);
        proof {
            assert(hand@ + community_cards@.take(i + 1) =~= (hand@ + community_cards@.take(i as int)).push(community_cards@[i as int]));
        }
        i += 1;
    }
    proof {
        assert(community_cards@.take(community_cards@.len() as int) =~= community_cards@);
    }
    let best_hand = find_best_hand(&hand_and_community);
    best_hand.score as u16
}

/// The strength of a starting hand: the sum of the strengths of its two cards.
pub fn generate_pre_flop_hand_strength(hand: &Vec<Card>) -> (s: u16)
    requires
        hand@.len() >= 2,
    ensures
        s == hand@[0].card_strength + hand@[1].card_strength,
{
    hand[0].card_strength as u16 + hand[1].card_strength as u16
}

/// Picks a move with the decision tree built from the thresholds `dist` for the
/// number `num`.
pub fn move_for_number(dist: &Vec<u16>, num: u16) -> (m: String)
    requires
        dist@.len() >= 3,
    ensures
        m@ == easy_move(dist@[0], dist@[1], dist@[2], num),
{
    let decision_tree = TreeNode::new(dist[0], dist[1], dist[2]);
    TreeNode::get_move(decision_tree, num)
}

/// The key of the move table the easy opponent uses: its hand strength before the
/// flop; after it, the score of its best hand plus 30 (the showdown keeps the
/// stored strength plus 30).
pub open spec fn move_key(p: Player, st: PokerTurn, community: Seq<Card>) -> int {
    match st.phase {
        PokerPhase::PreFlop => p.hand_strength as int,
        PokerPhase::Showdown => p.hand_strength + 30,
        _ => crate::hand::best_hand(p.cards@ + community).1 + 30,
    }
}

/// The lowest number the easy opponent may draw: 0 when it is free to check (as
/// the big blind before any raise, or when nobody has bet after the flop, or at
/// the showdown), otherwise the check threshold, so that it does not check.
pub open spec fn move_floor(p: Player, st: PokerTurn, check: u16) -> u16 {
    match st.phase {
        PokerPhase::PreFlop => if p.big_blind && !st.pot_raised {
            0
        } else {
            check
        },
        PokerPhase::Showdown => 0,
        _ => if !st.bet_made {
            0
        } else {
            check
        },
    }
}

/// The move table entry the easy opponent can use in this state.
pub open spec fn move_table_ready(p: Player, st: PokerTurn, community: Seq<Card>) -> bool {
    let key = move_key(p, st, community);
    &&& 0 <= key <= u16::MAX
    &&& p.move_dist@.contains_key(key as u16)
    &&& p.move_dist@[key as u16]@.len() >= 3
    &&& p.move_dist@[key as u16]@[0] <= 100
}

/// Draws a number and picks the easy opponent's move from its move table. After
/// the flop the player's hand strength becomes the score of its best hand.
pub fn generate_move(player: &mut Player, poker_turn: &PokerTurn, community_cards: &Vec<Card>) -> (m: String)
    requires
        move_table_ready(*old(player), *poker_turn, community_cards@),
        poker_turn.phase != PokerPhase::PreFlop && poker_turn.phase != PokerPhase::Showdown ==> {
            &&& crate::hand::proper_values(old(player).cards@ + community_cards@)
            &&& (old(player).cards@ + community_cards@).len() != 5 ==> crate::hand::fold_safe(
                crate::hand::all_hands(old(player).cards@ + community_cards@),
            )
        },
    ensures
        *final(player) == (match poker_turn.phase {
            PokerPhase::PreFlop | PokerPhase::Showdown => *old(player),
            _ => Player {
                hand_strength: crate::hand::best_hand(old(player).cards@ + community_cards@).1 as u16,
                ..*old(player)
            },
        }),
        ({
            let dist = old(player).move_dist@[move_key(*old(player), *poker_turn, community_cards@) as u16]@;
            exists|num: u16|
                move_floor(*old(player), *poker_turn, dist[0]) <= num <= 100 && m@ == easy_move(dist[0], dist[1], dist[2], num)
        }),
{
    let key: u16;
    let num: u16;
    if poker_turn.phase == PokerPhase::PreFlop {
        key = player.hand_strength;
        let d0 = match player.move_dist.get(&key) {
            Some(d) => d[0],
            None => 0,
        };
        if player.big_blind && !poker_turn.pot_raised {
            num = random_in_range(0, 100);
        } else {
            num = random_in_range(d0, 100);
        }
    } else if poker_turn.phase == PokerPhase::Flop || poker_turn.phase == PokerPhase::Turn
        || poker_turn.phase == PokerPhase::River {
        player.hand_strength = generate_post_flop_hand_strength(&player.cards, community_cards);
        key = player.hand_strength + 30;
        let d0 = match player.move_dist.get(&key) {
            Some(d) => d[0],
            None => 0,
        };
        if !poker_turn.bet_made {
            num = random_in_range(0, 100);
        } else {
            num = random_in_range(d0, 100);
        }
    } else {
        key = player.hand_strength + 30;
        num = random_in_range(0, 100);
    }
    match player.move_dist.get(&key) {
        Some(dist) => move_for_number(dist, num),
        None => String::new(),
    }
}

/// The easy opponent's thresholds (check, fold, call, raise) for a key of its
/// move table: hand strengths 4 to 28 before the flop, and 30 plus the hand
/// score afterwards.
pub open spec fn easy_table(k: u16) -> Seq<u16> {
    if k == 4 { seq![35, 58, 85, 100] }
    else if k == 5 { seq![34, 58, 85, 100] }
    else if k == 6 { seq![34, 56, 84, 100] }
    else if k == 7 { seq![34, 54, 83, 100] }
    else if k == 8 { seq![33, 50, 82, 100] }
    else if k == 9 { seq![33, 50, 82, 100] }
    else if k == 10 { seq![33, 49, 82, 100] }
    else if k == 11 { seq![33, 48, 82, 100] }
    else if k == 12 { seq![31, 46, 82, 100] }
    else if k == 13 { seq![30, 45, 81, 100] }
    else if k == 14 { seq![29, 39, 79, 100] }
    else if k == 15 { seq![29, 39, 79, 100] }
    else if k == 16 { seq![28, 39, 79, 100] }
    else if k == 17 { seq![27, 38, 79, 100] }
    else if k == 18 { seq![27, 38, 78, 100] }
    else if k == 19 { seq![25, 38, 78, 100] }
    else if k == 20 { seq![23, 37, 77, 100] }
    else if k == 21 { seq![23, 37, 77, 100] }
    else if k == 22 { seq![21, 36, 78, 100] }
    else if k == 23 { seq![20, 34, 77, 100] }
    else if k == 24 { seq![18, 30, 75, 100] }
    else if k == 25 { seq![18, 28, 75, 100] }
    else if k == 26 { seq![18, 27, 74, 100] }
    else if k == 27 { seq![15, 15, 63, 100] }
    else if k == 28 { seq![11, 13, 59, 100] }
    else if k == 30 { seq![23, 54, 82, 100] }
    else if k == 31 { seq![10, 17, 68, 100] }
    else if k == 32 { seq![10, 16, 68, 100] }
    else if k == 33 { seq![9, 14, 66, 100] }
    else if k == 34 { seq![9, 14, 66, 100] }
    else if k == 35 { seq![9, 14, 64, 100] }
    else if k == 36 { seq![8, 11, 62, 100] }
    else { seq![7, 9, 60, 100] }
}

/// The keys of the easy opponent's move table: 4 to 28 and 30 to 37.
pub open spec fn easy_keys(k: u16) -> bool {
    (4 <= k <= 28) || (30 <= k <= 37)
}

/// The row of the easy table listed at position `j`.
pub open spec fn easy_row_key(j: int) -> u16 {
    if j < 25 {
        (j + 4) as u16
    } else {
        (j + 5) as u16
    }
}

/// Builds the easy opponent's move table.
pub fn fill_move_set() -> (move_dist: HashMap<u16, Vec<u16>>)
    ensures
        forall|k: u16| #[trigger] move_dist@.contains_key(k) == easy_keys(k),
        forall|k: u16| easy_keys(k) ==> (#[trigger] move_dist@[k])@ == easy_table(k),
{
    let mut move_dist: HashMap<u16, Vec<u16>> = HashMap::new();
    let mut vec_of_dists: Vec<Vec<u16>> = vec![
        vec![35, 58, 85, 100],
        vec![34, 58, 85, 100],
        vec![34, 56, 84, 100],
        vec![34, 54, 83, 100],
        vec![33, 50, 82, 100],
        vec![33, 50, 82, 100],
        vec![33, 49, 82, 100],
        vec![33, 48, 82, 100],
        vec![31, 46, 82, 100],
        vec![30, 45, 81, 100],
        vec![29, 39, 79, 100],
        vec![29, 39, 79, 100],
        vec![28, 39, 79, 100],
        vec![27, 38, 79, 100],
        vec![27, 38, 78, 100],
        vec![25, 38, 78, 100],
        vec![23, 37, 77, 100],
        vec![23, 37, 77, 100],
        vec![21, 36, 78, 100],
        vec![20, 34, 77, 100],
        vec![18, 30, 75, 100],
        vec![18, 28, 75, 100],
        vec![18, 27, 74, 100],
        vec![15, 15, 63, 100],
        vec![11, 13, 59, 100],
        vec![23, 54, 82, 100],
        vec![10, 17, 68, 100],
        vec![10, 16, 68, 100],
        vec![9, 14, 66, 100],
        vec![9, 14, 66, 100],
        vec![9, 14, 64, 100],
        vec![8, 11, 62, 100],
        vec![7, 9, 60, 100],
    ];
    proof {
        assert(vec_of_dists@.len() == 33);
        assert forall|j: int| 0 <= j < 33 implies (#[trigger] vec_of_dists@[j])@ == easy_table(easy_row_key(j)) by {}
    }
    let mut i: u16 = 8;
    while i > 0
        invariant
            i <= 8,
            vec_of_dists@.len() == 25 + i,
            forall|j: int| 0 <= j < vec_of_dists@.len() ==> (#[trigger] vec_of_dists@[j])@ == easy_table(easy_row_key(j)),
            forall|k: u16| #[trigger] move_dist@.contains_key(k) == (30 + i <= k <= 37),
            forall|k: u16| 30 + i <= k <= 37 ==> (#[trigger] move_dist@[k])@ == easy_table(k),
        decreases i,
    {
        let d = vec_of_dists.pop().unwrap();
        move_dist.insert((i - 1) + 30, d);
        i -= 1;
    }
    let mut i: u16 = 28;
    while i > 3
        invariant
            3 <= i <= 28,
            vec_of_dists@.len() == i - 3,
            forall|j: int| 0 <= j < vec_of_dists@.len() ==> (#[trigger] vec_of_dists@[j])@ == easy_table(easy_row_key(j)),
            forall|k: u16| #[trigger] move_dist@.contains_key(k) == ((i < k <= 28) || (30 <= k <= 37)),
            forall|k: u16| (i < k <= 28) || (30 <= k <= 37) ==> (#[trigger] move_dist@[k])@ == easy_table(k),
        decreases i,
    {
        let d = vec_of_dists.pop().unwrap();
        move_dist.insert(i, d);
        i -= 1;
    }
    move_dist
}

} // verus!
