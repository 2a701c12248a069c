//! The cheating opponent: it looks ahead at the cards still to come.
use vstd::prelude::*;
use crate::cards::Card;
use crate::hand::find_best_hand;
use crate::table::Player;

verus! {

/// The best hand can be searched for in these cards.
pub open spec fn best_hand_ready(cards: Seq<Card>) -> bool {
    &&& crate::hand::proper_values(cards)
    &&& cards.len() != 5 ==> crate::hand::fold_safe(crate::hand::all_hands(cards))
}

/// The score of the best hand the player makes with its own cards and `extra`.
pub open spec fn future_score(p: Player, extra: Seq<Card>) -> u8 {
    crate::hand::best_hand(p.cards@ + extra).1
}

/// Looks at the seats that still have chips, in order, each scored with its own
/// cards, the community cards and the cards still to come (`extra`). Returns the id
/// of the first seat with the best score (0 when no score beats 0), that score, and
/// the best score among the other seats with chips.
pub open spec fn cheat_scan(ps: Seq<Player>, extra: Seq<Card>) -> (usize, u8, u8)
    decreases ps.len(),
{
    if ps.len() == 0 {
        (0, 0, 0)
    } else {
        let prev = cheat_scan(ps.drop_last(), extra);
        let p = ps.last();
        if p.cash != 0 {
            let b = future_score(p, extra);
            if b > prev.1 {
                (p.player_id, b, prev.1)
            } else if b > prev.2 {
                (prev.0, prev.1, b)
            } else {
                prev
            }
        } else {
            prev
        }
    }
}

/// Finds which seat will hold the best hand once all five community cards are out,
/// by taking the next cards of the deck as the cards still to come. Returns that
/// seat's id, its score, and the second-highest score.
pub fn find_winning_hand(players: &Vec<Player>, deck: &Vec<Card>, community_cards: &Vec<Card>) -> (r: (usize, u8, u8))
    requires
        community_cards@.len() <= 5,
        5 - community_cards@.len() <= deck@.len(),
        forall|i: int| 0 <= i < players@.len() && (#[trigger] players@[i]).cash != 0 ==> best_hand_ready(
            players@[i].cards@ + (community_cards@ + deck@.take(5 - community_cards@.len())),
        ),
    ensures
        r == cheat_scan(players@, community_cards@ + deck@.take(5 - community_cards@.len())),
        r.2 <= r.1,
        forall|i: int| 0 <= i < players@.len() && (#[trigger] players@[i]).cash != 0 ==> future_score(
            players@[i],
            community_cards@ + deck@.take(5 - community_cards@.len()),
        ) <= r.1,
{
    let future_com_count = 5 - community_cards.len();
    let ghost extra = community_cards@ + deck@.take(future_com_count as int);
    let mut future_com: Vec<Card> = Vec::new();
    let mut k: usize = 0;
    while k < future_com_count
        invariant
            future_com_count <= deck@.len(),
            k <= future_com_count,
            future_com@ == deck@.take(k as int),
        decreases future_com_count - k,
    {
        future_com.push(deck[k]);
        proof {
            assert(deck@.take(k + 1) =~= deck@.take(k as int).push(deck@[k as int]));
        }
        k += 1;
    }
    proof {
        assert(future_com@ =~= deck@.take(future_com_count as int));
    }
    let mut winning_id: usize = 0;
    let mut winning_score: u8 = 0;
    let mut best_losing_score: u8 = 0;
    let mut i: usize = 0;
    while i < players.len()
        invariant
            i <= players@.len(),
            extra == community_cards@ + deck@.take(5 - community_cards@.len()),
            extra == community_cards@ + future_com@,
            forall|j: int| 0 <= j < players@.len() && (#[trigger] players@[j]).cash != 0 ==> best_hand_ready(
                players@[j].cards@ + extra,
            ),
            (winning_id, winning_score, best_losing_score) == cheat_scan(players@.take(i as int), extra),
            best_losing_score <= winning_score,
            forall|j: int| 0 <= j < i && (#[trigger] players@[j]).cash != 0 ==> future_score(players@[j], extra)
                <= winning_score,
        decreases players@.len() - i,
    {
        proof {
            assert(players@.take(i + 1).drop_last() =~= players@.take(i as int));
            assert(players@.take(i + 1).last() == players@[i as int]);
        }
        if players[i].cash != 0 {
            let mut hand_and_community: Vec<Card> = players[i].cards.clone();
            let ghost own = hand_and_community@;
            let mut community: Vec<Card> = community_cards.clone();
            let mut coming: Vec<Card> = future_com.clone();
            hand_and_community.append(&mut community);
            hand_and_community.append(&mut coming);
            proof {
                assert(hand_and_community@ =~= own + extra);
            }
            let best_hand = find_best_hand(&hand_and_community).score;
            if best_hand > winning_score {
                best_losing_score = winning_score;
                winning_score = best_hand;
                winning_id = players[i].player_id;
            } else if best_hand > best_losing_score {
                best_losing_score = best_hand;
            }
        }
        i += 1;
    }
    proof {
        assert(players@.take(players@.len() as int) =~= players@);
    }
    (winning_id, winning_score, best_losing_score)
}

/// The cheating opponent's move at the showdown once it has chosen how much to
/// bet: a call when the bet does not go over the top bet, else a raise by the
/// difference (returned with the move).
pub fn bet_move(bet: usize, current_top_bet: usize) -> (r: (String, Option<usize>))
    ensures
        bet <= current_top_bet ==> r.0@ == "Call"@ && r.1 is None,
        bet > current_top_bet ==> r.0@ == "Raise"@ && r.1 == Some((bet - current_top_bet) as usize),
{
    if bet <= current_top_bet {
        (String::from_str("Call"), None)
    } else {
        (String::from_str("Raise"), Some(bet - current_top_bet))
    }
}

} // verus!
