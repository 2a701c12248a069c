//! One step of the game loop: the deal, the blinds, the betting and the showdown.
use vstd::prelude::*;
use crate::cards::Card;
use crate::table::{Player, PokerTurn, NumPlayers, LastPlayerAction, PlayerAction};

verus! {

// ---------------------------------------------------------------------------
// Finding seats
// ---------------------------------------------------------------------------

/// The index of the first seat from `i` on that belongs to player `id`, or -1.
pub open spec fn first_seat_from(ps: Seq<Player>, id: usize, i: int) -> int
    decreases ps.len() - i,
{
    if i < 0 || i >= ps.len() {
        -1
    } else if ps[i].player_id == id {
        i
    } else {
        first_seat_from(ps, id, i + 1)
    }
}

/// The index of the first seat of player `id`, or -1 when the player has none.
pub open spec fn first_seat(ps: Seq<Player>, id: usize) -> int {
    first_seat_from(ps, id, 0)
}

/// Whether the first seat of player `id` has moved; false when there is none.
pub open spec fn seat_moved(ps: Seq<Player>, id: usize) -> bool {
    let j = first_seat(ps, id);
    j >= 0 && ps[j].has_moved
}

proof fn lemma_first_seat_from(ps: Seq<Player>, id: usize, i: int)
    requires
        0 <= i,
    ensures
        first_seat_from(ps, id, i) == -1 || (i <= first_seat_from(ps, id, i) < ps.len()
            && ps[first_seat_from(ps, id, i)].player_id == id),
        first_seat_from(ps, id, i) == -1 ==> forall|k: int| i <= k < ps.len() ==> (#[trigger] ps[k]).player_id != id,
        first_seat_from(ps, id, i) != -1 ==> forall|k: int| i <= k < first_seat_from(ps, id, i) ==> (#[trigger] ps[k]).player_id != id,
    decreases ps.len() - i,
{
    if i < ps.len() && ps[i].player_id != id {
        lemma_first_seat_from(ps, id, i + 1);
    }
}

/// Seats that agree on everything but a player's cards, move table and hand
/// strength.
pub open spec fn same_but_hand(a: Seq<Player>, b: Seq<Player>) -> bool {
    &&& a.len() == b.len()
    &&& forall|k: int| 0 <= k < a.len() ==> #[trigger] a[k] == Player {
        cards: a[k].cards,
        move_dist: a[k].move_dist,
        hand_strength: a[k].hand_strength,
        ..b[k]
    }
}

/// The first seat of player `id` has moved (the answer is false when the player has
/// no seat).
pub fn seat_has_moved(players: &Vec<Player>, id: usize) -> (moved: bool)
    ensures
        moved == seat_moved(players@, id),
{
    let ghost ps = players@;
    proof {
        lemma_first_seat_from(ps, id, 0);
    }
    let mut i: usize = 0;
    while i < players.len()
        invariant
            ps == players@,
            i <= ps.len(),
            first_seat_from(ps, id, i as int) == first_seat(ps, id),
        decreases ps.len() - i,
    {
        if players[i].player_id == id {
            return players[i].has_moved;
        }
        i += 1;
    }
    false
}

// ---------------------------------------------------------------------------
// Handing out the dealt cards
// ---------------------------------------------------------------------------

/// The last of the first `n` dealt players that is player `id`, or -1.
pub open spec fn last_dealt(dealt: Seq<Player>, n: int, id: usize) -> int
    decreases n,
{
    if n <= 0 {
        -1
    } else if dealt[n - 1].player_id == id {
        n - 1
    } else {
        last_dealt(dealt, n - 1, id)
    }
}

/// The seat `new` is the seat `old` holding the cards, move table and hand strength
/// of the dealt player `d`.
pub open spec fn rehanded(old: Player, d: Player, new: Player) -> bool {
    &&& new == Player { cards: new.cards, move_dist: new.move_dist, hand_strength: d.hand_strength, ..old }
    &&& new.cards@ == d.cards@
    &&& new.move_dist@ == d.move_dist@
}

/// The seat `new` is a new seat for the dealt player `d`: its cards, chips, bet and
/// flags, the strength of its first two cards, the easy opponent's move table, and
/// no blind.
pub open spec fn fresh_seat(d: Player, new: Player) -> bool {
    &&& new.player_id == d.player_id
    &&& new.cards@ == d.cards@
    &&& new.cash == d.cash
    &&& new.current_bet == d.current_bet
    &&& new.has_folded == d.has_folded
    &&& new.has_moved == d.has_moved
    &&& new.is_all_in == d.is_all_in
    &&& new.has_raised == d.has_raised
    &&& new.hand_strength == d.cards@[0].card_strength + d.cards@[1].card_strength
    &&& (forall|k: u16| #[trigger] new.move_dist@.contains_key(k) == crate::easy_ai::easy_keys(k))
    &&& (forall|k: u16| crate::easy_ai::easy_keys(k) ==> (#[trigger] new.move_dist@[k])@ == crate::easy_ai::easy_table(k))
    &&& !new.big_blind && !new.small_blind
}

/// The dealt players, in order, that have no seat yet.
pub open spec fn unseated(dealt: Seq<Player>, ps: Seq<Player>) -> Seq<Player>
    decreases dealt.len(),
{
    if dealt.len() == 0 {
        Seq::empty()
    } else {
        let rest = unseated(dealt.drop_last(), ps);
        if first_seat(ps, dealt.last().player_id) < 0 {
            rest.push(dealt.last())
        } else {
            rest
        }
    }
}

/// What handing out the first `n` dealt players does to the seats `ps`: the first
/// seat of each dealt player takes the cards of the last dealt player with its id;
/// the other seats stay.
pub open spec fn rehanded_seats(dealt: Seq<Player>, n: int, ps: Seq<Player>, new: Seq<Player>) -> bool {
    &&& new.len() == ps.len()
    &&& forall|j: int| 0 <= j < ps.len() ==> {
        let k = last_dealt(dealt, n, (#[trigger] ps[j]).player_id);
        if first_seat(ps, ps[j].player_id) == j && k >= 0 {
            rehanded(ps[j], dealt[k], new[j])
        } else {
            new[j] == ps[j]
        }
    }
}

/// The seats `new` are one for each of the dealt players `un`, in order.
pub open spec fn fresh_seats(un: Seq<Player>, new: Seq<Player>) -> bool {
    &&& new.len() == un.len()
    &&& forall|m: int| 0 <= m < un.len() ==> fresh_seat(#[trigger] un[m], new[m])
}

/// Hands the dealt cards to the seats: the first seat of each dealt player takes
/// its cards, move table and hand strength. A dealt player without a seat gets a
/// new one, which is returned, to be seated once the step is over.
pub fn spawn_player_cards(players: &Vec<Player>, seats: &mut Vec<Player>) -> (spawned: Vec<Player>)
    requires
        forall|k: int| 0 <= k < players@.len() && first_seat(old(seats)@, (#[trigger] players@[k]).player_id) < 0
            ==> players@[k].cards@.len() >= 2,
    ensures
        rehanded_seats(players@, players@.len() as int, old(seats)@, final(seats)@),
        fresh_seats(unseated(players@, old(seats)@), spawned@),
{
    let ghost ps = seats@;
    let ghost dealt = players@;
    let mut spawned: Vec<Player> = Vec::new();
    let mut k: usize = 0;
    while k < players.len()
        invariant
            dealt == players@,
            k <= dealt.len(),
            forall|q: int| 0 <= q < dealt.len() && first_seat(ps, (#[trigger] dealt[q]).player_id) < 0
                ==> dealt[q].cards@.len() >= 2,
            rehanded_seats(dealt, k as int, ps, seats@),
            fresh_seats(unseated(dealt.take(k as int), ps), spawned@),
        decreases dealt.len() - k,
    {
        let id = players[k].player_id;
        proof {
            lemma_first_seat_from(ps, id, 0);
            assert(dealt.take(k + 1).drop_last() =~= dealt.take(k as int));
            assert(dealt.take(k + 1).last() == dealt[k as int]);
        }
        let mut j: usize = 0;
        let mut found = false;
        while j < seats.len()
            invariant_except_break
                ps.len() == seats@.len(),
                j <= ps.len(),
                first_seat_from(ps, id, j as int) == first_seat(ps, id),
                !found,
                rehanded_seats(dealt, k as int, ps, seats@),
            invariant
                dealt == players@,
                k < dealt.len(),
                id == dealt[k as int].player_id,
            ensures
                found ==> 0 <= first_seat(ps, id) && rehanded_seats(dealt, k + 1, ps, seats@),
                !found ==> first_seat(ps, id) < 0 && rehanded_seats(dealt, k + 1, ps, seats@),
            decreases ps.len() - j,
        {
            assert(seats@[j as int].player_id == ps[j as int].player_id);
            if seats[j].player_id == id {
                let ghost before = seats@;
                seats[j].cards = players[k].cards.clone();
                seats[j].move_dist = players[k].move_dist.clone();
                seats[j].hand_strength = players[k].hand_strength;
                found = true;
                proof {
                    assert forall|q: int| 0 <= q < ps.len() implies {
                        let l = last_dealt(dealt, k + 1, (#[trigger] ps[q]).player_id);
                        if first_seat(ps, ps[q].player_id) == q && l >= 0 {
                            rehanded(ps[q], dealt[l], seats@[q])
                        } else {
                            seats@[q] == ps[q]
                        }
                    } by {
                        if q != j as int {
                            assert(seats@[q] == before[q]);
                            if ps[q].player_id == id {
                                lemma_first_seat_from(ps, id, 0);
                            }
                        }
                    }
                }
                break;
            }
            j += 1;
        }
        if !found {
            proof {
                assert forall|q: int| 0 <= q < ps.len() implies {
                    let l = last_dealt(dealt, k + 1, (#[trigger] ps[q]).player_id);
                    if first_seat(ps, ps[q].player_id) == q && l >= 0 {
                        rehanded(ps[q], dealt[l], seats@[q])
                    } else {
                        seats@[q] == ps[q]
                    }
                } by {
                    if ps[q].player_id == id {
                        lemma_first_seat_from(ps, id, 0);
                    }
                }
            }
            let d = &players[k];
            let strength = crate::easy_ai::generate_pre_flop_hand_strength(&d.cards);
            let seat = Player {
                player_id: d.player_id,
                cards: d.cards.clone(),
                cash: d.cash,
                current_bet: d.current_bet,
                has_folded: d.has_folded,
                has_moved: d.has_moved,
                is_all_in: d.is_all_in,
                has_raised: d.has_raised,
                hand_strength: strength,
                move_dist: crate::easy_ai::fill_move_set(),
                big_blind: false,
                small_blind: false,
            };
            spawned.push(seat);
        }
        proof {
            assert(unseated(dealt.take(k + 1), ps) == if first_seat(ps, id) < 0 {
                unseated(dealt.take(k as int), ps).push(dealt[k as int])
            } else {
                unseated(dealt.take(k as int), ps)
            });
        }
        k += 1;
    }
    proof {
        assert(dealt.take(dealt.len() as int) =~= dealt);
    }
    spawned
}

// ---------------------------------------------------------------------------
// Blinds
// ---------------------------------------------------------------------------

/// What the seat `p` pays into the pot when the blinds are posted: the small blind
/// pays the small blind's amount and the big blind the big blind's amount, or all
/// their chips when they hold no more (going all in); the big blind's bet becomes
/// the top bet.
pub open spec fn blind_seat(p: Player, st: PokerTurn) -> (Player, PokerTurn) {
    if p.player_id == st.small_blind {
        if p.cash <= st.small_blind_val {
            (
                Player { small_blind: true, current_bet: p.cash, cash: 0, is_all_in: true, ..p },
                PokerTurn { pot: (st.pot + p.cash) as usize, ..st },
            )
        } else {
            (
                Player { small_blind: true, cash: (p.cash - st.small_blind_val) as usize, current_bet: st.small_blind_val, ..p },
                PokerTurn { pot: (st.pot + st.small_blind_val) as usize, ..st },
            )
        }
    } else if p.player_id == st.big_blind {
        if p.cash <= st.big_blind_val {
            (
                Player { big_blind: true, current_bet: p.cash, cash: 0, is_all_in: true, ..p },
                PokerTurn { pot: (st.pot + p.cash) as usize, current_top_bet: p.cash, ..st },
            )
        } else {
            (
                Player { big_blind: true, cash: (p.cash - st.big_blind_val) as usize, current_bet: st.big_blind_val, ..p },
                PokerTurn { pot: (st.pot + st.big_blind_val) as usize, current_top_bet: st.big_blind_val, ..st },
            )
        }
    } else {
        (p, st)
    }
}

/// The pot can take what the seat `p` pays as a blind.
pub open spec fn blind_fits(p: Player, st: PokerTurn) -> bool {
    &&& p.player_id == st.small_blind ==> st.pot + (if p.cash <= st.small_blind_val { p.cash } else { st.small_blind_val }) <= usize::MAX
    &&& (p.player_id != st.small_blind && p.player_id == st.big_blind) ==> st.pot + (if p.cash <= st.big_blind_val { p.cash } else { st.big_blind_val }) <= usize::MAX
}

/// The seats and the state after the blinds are posted, seat by seat.
pub open spec fn blinds_posted(ps: Seq<Player>, st: PokerTurn) -> (Seq<Player>, PokerTurn)
    decreases ps.len(),
{
    if ps.len() == 0 {
        (ps, st)
    } else {
        let r = blinds_posted(ps.drop_last(), st);
        let b = blind_seat(ps.last(), r.1);
        (r.0.push(b.0), b.1)
    }
}

/// The pot can take every blind as the seats post them.
pub open spec fn blinds_fit(ps: Seq<Player>, st: PokerTurn) -> bool
    decreases ps.len(),
{
    if ps.len() == 0 {
        true
    } else {
        blinds_fit(ps.drop_last(), st) && blind_fits(ps.last(), blinds_posted(ps.drop_last(), st).1)
    }
}

/// Posting the blinds keeps the number of seats and changes only the pot and the
/// top bet of the state.
pub proof fn lemma_blinds_posted(ps: Seq<Player>, st: PokerTurn)
    ensures
        blinds_posted(ps, st).0.len() == ps.len(),
        blinds_posted(ps, st).1 == (PokerTurn {
            pot: blinds_posted(ps, st).1.pot,
            current_top_bet: blinds_posted(ps, st).1.current_top_bet,
            ..st
        }),
        forall|k: int| 0 <= k < ps.len() ==> (#[trigger] blinds_posted(ps, st).0[k]).player_id == ps[k].player_id,
    decreases ps.len(),
{
    if ps.len() > 0 {
        lemma_blinds_posted(ps.drop_last(), st);
        let r = blinds_posted(ps.drop_last(), st);
        assert forall|k: int| 0 <= k < ps.len() implies (#[trigger] blinds_posted(ps, st).0[k]).player_id == ps[k].player_id by {
            if k < ps.len() - 1 {
                assert(blinds_posted(ps, st).0[k] == r.0[k]);
            }
        }
    }
}

/// Seats that differ only in their hands post the same blinds.
pub proof fn lemma_blinds_same_but_hand(a: Seq<Player>, b: Seq<Player>, st: PokerTurn)
    requires
        same_but_hand(a, b),
    ensures
        same_but_hand(blinds_posted(a, st).0, blinds_posted(b, st).0),
        blinds_posted(a, st).1 == blinds_posted(b, st).1,
        blinds_fit(a, st) == blinds_fit(b, st),
    decreases a.len(),
{
    if a.len() > 0 {
        let a1 = a.drop_last();
        let b1 = b.drop_last();
        assert(same_but_hand(a1, b1)) by {
            assert forall|k: int| 0 <= k < a1.len() implies #[trigger] a1[k] == Player {
                cards: a1[k].cards,
                move_dist: a1[k].move_dist,
                hand_strength: a1[k].hand_strength,
                ..b1[k]
            } by {
                assert(a1[k] == a[k] && b1[k] == b[k]);
            }
        }
        lemma_blinds_same_but_hand(a1, b1, st);
        lemma_blinds_posted(a1, st);
        lemma_blinds_posted(b1, st);
        let ra = blinds_posted(a, st).0;
        let rb = blinds_posted(b, st).0;
        assert(a.last() == Player { cards: a.last().cards, move_dist: a.last().move_dist, hand_strength: a.last().hand_strength, ..b.last() });
        assert forall|k: int| 0 <= k < ra.len() implies #[trigger] ra[k] == Player {
            cards: ra[k].cards,
            move_dist: ra[k].move_dist,
            hand_strength: ra[k].hand_strength,
            ..rb[k]
        } by {
            if k < a.len() - 1 {
                assert(ra[k] == blinds_posted(a1, st).0[k]);
                assert(rb[k] == blinds_posted(b1, st).0[k]);
            }
        }
    }
}

/// The seat `player` posts its blind, if it holds one.
fn post_blind_seat(state: &mut PokerTurn, player: &mut Player)
    requires
        blind_fits(*old(player), *old(state)),
    ensures
        (*final(player), *final(state)) == blind_seat(*old(player), *old(state)),
{
    if player.player_id == state.small_blind {
        player.small_blind = true;
        if player.cash <= state.small_blind_val {
            state.pot += player.cash;
            player.current_bet = player.cash;
            player.cash = 0;
            player.is_all_in = true;
        } else {
            player.cash -= state.small_blind_val;
            player.current_bet = state.small_blind_val;
            state.pot += state.small_blind_val;
        }
    } else if player.player_id == state.big_blind {
        player.big_blind = true;
        if player.cash <= state.big_blind_val {
            state.pot += player.cash;
            player.current_bet = player.cash;
            player.cash = 0;
            player.is_all_in = true;
            state.current_top_bet = player.current_bet;
        } else {
            player.cash -= state.big_blind_val;
            player.current_bet = state.big_blind_val;
            state.pot += state.big_blind_val;
            state.current_top_bet = state.big_blind_val;
        }
    }
}

/// Posts the blinds: the seat of the small blind and the seat of the big blind pay
/// into the pot, and the big blind's bet becomes the top bet.
pub fn post_blinds(state: &mut PokerTurn, players: &mut Vec<Player>)
    requires
        blinds_fit(old(players)@, *old(state)),
    ensures
        (final(players)@, *final(state)) == blinds_posted(old(players)@, *old(state)),
{
    let ghost ps = players@;
    let ghost st = *state;
    let mut i: usize = 0;
    proof {
        assert(ps.take(0) =~= Seq::<Player>::empty());
        lemma_blinds_posted(ps, st);
    }
    while i < players.len()
        invariant
            ps.len() == players@.len(),
            i <= ps.len(),
            blinds_fit(ps, st),
            players@ == blinds_posted(ps.take(i as int), st).0 + ps.skip(i as int),
            *state == blinds_posted(ps.take(i as int), st).1,
        decreases ps.len() - i,
    {
        proof {
            let t = ps.take(i + 1);
            assert(t.drop_last() =~= ps.take(i as int));
            assert(t.last() == ps[i as int]);
            lemma_blinds_posted(ps.take(i as int), st);
            lemma_fit_prefix(ps, st, i + 1);
            assert(players@[i as int] == ps[i as int]);
        }
        post_blind_seat(state, &mut players[i]);
        proof {
            let t = ps.take(i + 1);
            let r = blinds_posted(ps.take(i as int), st);
            assert(blinds_posted(t, st) == (r.0.push(blind_seat(ps[i as int], r.1).0), blind_seat(ps[i as int], r.1).1));
            assert(players@ =~= blinds_posted(t, st).0 + ps.skip(i + 1));
        }
        i += 1;
    }
    proof {
        assert(ps.take(ps.len() as int) =~= ps);
        assert(players@ =~= blinds_posted(ps, st).0);
    }
}

proof fn lemma_fit_prefix(ps: Seq<Player>, st: PokerTurn, n: int)
    requires
        0 <= n <= ps.len(),
        blinds_fit(ps, st),
    ensures
        blinds_fit(ps.take(n), st),
    decreases ps.len() - n,
{
    if n < ps.len() {
        lemma_fit_prefix(ps, st, n + 1);
        assert(ps.take(n + 1).drop_last() =~= ps.take(n));
    } else {
        assert(ps.take(n) =~= ps);
    }
}

// ---------------------------------------------------------------------------
// Showdown
// ---------------------------------------------------------------------------

/// Whether `id` occurs in `ids`.
pub fn contains_id(ids: &Vec<usize>, id: usize) -> (found: bool)
    ensures
        found == ids@.contains(id),
{
    let mut i: usize = 0;
    while i < ids.len()
        invariant
            i <= ids@.len(),
            forall|k: int| 0 <= k < i ==> ids@[k] != id,
        decreases ids@.len() - i,
    {
        if ids[i] == id {
            assert(ids@[i as int] == id);
            return true;
        }
        i += 1;
    }
    false
}

/// What each winner gains: the pot split evenly (rounded down) when several win,
/// the whole pot otherwise.
pub open spec fn pot_share(pot: usize, winners: Seq<usize>) -> int {
    if winners.len() > 1 {
        pot as int / winners.len() as int
    } else {
        pot as int
    }
}

/// A seat after the showdown: a winner gains its share of the pot, a seat without
/// chips sits out (folded), and the bets, moves and blinds are cleared.
pub open spec fn paid_seat(p: Player, winners: Seq<usize>, pot: usize) -> Player {
    let cash: int = if winners.contains(p.player_id) {
        p.cash + pot_share(pot, winners)
    } else {
        p.cash as int
    };
    Player {
        cash: cash as usize,
        has_folded: cash == 0,
        current_bet: 0,
        has_moved: false,
        is_all_in: false,
        has_raised: false,
        small_blind: false,
        big_blind: false,
        ..p
    }
}

/// The seats after the showdown.
pub open spec fn paid_seats(ps: Seq<Player>, winners: Seq<usize>, pot: usize) -> Seq<Player> {
    Seq::new(ps.len(), |k: int| paid_seat(ps[k], winners, pot))
}

/// The ids of the seats without chips, in seat order.
pub open spec fn broke_ids(ps: Seq<Player>) -> Seq<usize>
    decreases ps.len(),
{
    if ps.len() == 0 {
        Seq::empty()
    } else {
        let rest = broke_ids(ps.drop_last());
        if ps.last().cash == 0 {
            rest.push(ps.last().player_id)
        } else {
            rest
        }
    }
}

/// The id of the last seat that still has chips, or 0.
pub open spec fn last_funded(ps: Seq<Player>) -> usize
    decreases ps.len(),
{
    if ps.len() == 0 {
        0
    } else if ps.last().cash != 0 {
        ps.last().player_id
    } else {
        last_funded(ps.drop_last())
    }
}

/// Going round the table from seat `s`, the first seat not in `taken`, looking at
/// no more than `fuel` seats.
pub open spec fn seek_open(s: usize, taken: Seq<usize>, count: usize, fuel: nat) -> usize
    decreases fuel,
{
    if !taken.contains(s) || fuel == 0 {
        s
    } else {
        seek_open(((s + 1) % (count as int)) as usize, taken, count, (fuel - 1) as nat)
    }
}

/// The first seat after `s`, going round a table of `count` seats, that is not in
/// `taken`.
pub open spec fn next_open_seat(s: usize, taken: Seq<usize>, count: usize) -> usize {
    seek_open(((s + 1) % (count as int)) as usize, taken, count, count as nat)
}

/// The seats, the state and the result of the game after a showdown won by
/// `winners`: the winners are paid, the seats without chips sit out, the game is
/// over when all seats but one are out (the last seat with chips wins), the blinds
/// move on to the next seats that are not out, and a new round begins before the
/// flop with an empty pot.
pub open spec fn settled(ps: Seq<Player>, st: PokerTurn, winners: Seq<usize>, count: usize) -> (Seq<Player>, PokerTurn, Option<crate::table::GameResult>) {
    let paid = paid_seats(ps, winners, st.pot);
    let broke = broke_ids(paid);
    let sb = next_open_seat(st.small_blind, broke, count);
    let bb = next_open_seat(sb, broke, count);
    (
        paid,
        PokerTurn {
            pot: 0,
            current_top_bet: 0,
            small_blind: sb,
            big_blind: bb,
            current_player: ((bb + 1) % (count as int)) as usize,
            round_started: false,
            phase: crate::table::PokerPhase::PreFlop,
            is_first_round: false,
            ..st
        },
        if broke.len() == count - 1 {
            Some(crate::table::GameResult { id: last_funded(paid) })
        } else {
            None
        },
    )
}

/// The showdown can be settled: the winners' new chip counts fit, the table has
/// seats, and some seat is left that is not out (else the blinds would go round
/// for ever).
pub open spec fn settle_ready(ps: Seq<Player>, st: PokerTurn, winners: Seq<usize>, count: usize) -> bool {
    &&& count > 0
    &&& st.small_blind < usize::MAX
    &&& forall|k: int| 0 <= k < ps.len() && winners.contains((#[trigger] ps[k]).player_id) ==> ps[k].cash
        + pot_share(st.pot, winners) <= usize::MAX
    &&& exists|v: usize| v < count && !broke_ids(paid_seats(ps, winners, st.pot)).contains(v)
}

/// The distance going round a table of `count` seats from seat `s` to seat `v`.
pub open spec fn seat_gap(s: int, v: int, count: int) -> int {
    if v >= s {
        v - s
    } else {
        v + count - s
    }
}

proof fn lemma_step_seat(t: usize, count: usize)
    requires
        t < count,
    ensures
        (t + 1) % (count as int) == if t + 1 == count { 0 } else { t + 1 },
{
    if t + 1 < count {
        vstd::arithmetic::div_mod::lemma_small_mod((t + 1) as nat, count as nat);
    } else {
        vstd::arithmetic::div_mod::lemma_mod_self_0(count as int);
    }
}

/// The first seat after `s` that is not in `taken`.
fn next_open(s: usize, taken: &Vec<usize>, count: usize) -> (r: usize)
    requires
        count > 0,
        s < usize::MAX,
        exists|v: usize| v < count && !taken@.contains(v),
    ensures
        r == next_open_seat(s, taken@, count),
        r < count,
{
    let ghost v = choose|v: usize| v < count && !taken@.contains(v);
    let mut t = (s + 1) % count;
    let ghost mut fuel: nat = count as nat;
    let mut busy = contains_id(taken, t);
    while busy
        invariant
            count > 0,
            t < count,
            v < count,
            !taken@.contains(v),
            busy == taken@.contains(t),
            seek_open(t, taken@, count, fuel) == next_open_seat(s, taken@, count),
            seat_gap(t as int, v as int, count as int) < fuel,
        decreases seat_gap(t as int, v as int, count as int),
    {
        proof {
            lemma_step_seat(t, count);
        }
        t = (t + 1) % count;
        proof {
            fuel = (fuel - 1) as nat;
        }
        busy = contains_id(taken, t);
    }
    t
}

/// The seat `player` after the showdown won by `winners` with the pot `pot`.
fn pay_seat(player: &mut Player, winners: &Vec<usize>, pot: usize)
    requires
        winners@.contains(old(player).player_id) ==> old(player).cash + pot_share(pot, winners@) <= usize::MAX,
    ensures
        *final(player) == paid_seat(*old(player), winners@, pot),
{
    if contains_id(winners, player.player_id) {
        if winners.len() > 1 {
            player.cash += pot / winners.len();
        } else {
            player.cash += pot;
        }
    }
    player.has_folded = player.cash == 0;
    player.current_bet = 0;
    player.has_moved = false;
    player.is_all_in = false;
    player.has_raised = false;
    player.small_blind = false;
    player.big_blind = false;
}

/// Settles a showdown won by `winners`: pays them, lets the seats without chips sit
/// out, reports the winner of the game when all seats but one are out, moves the
/// blinds on and starts a new round.
pub fn settle_showdown(
    state: &mut PokerTurn,
    players: &mut Vec<Player>,
    winners: &Vec<usize>,
    player_count: usize,
) -> (game_over: Option<crate::table::GameResult>)
    requires
        settle_ready(old(players)@, *old(state), winners@, player_count),
    ensures
        (final(players)@, *final(state), game_over) == settled(old(players)@, *old(state), winners@, player_count),
{
    let ghost ps = players@;
    let ghost paid = paid_seats(ps, winners@, state.pot);
    let pot = state.pot;
    let mut invalid: Vec<usize> = Vec::new();
    let mut i: usize = 0;
    while i < players.len()
        invariant
            ps.len() == players@.len(),
            paid == paid_seats(ps, winners@, pot),
            i <= ps.len(),
            forall|k: int| 0 <= k < ps.len() && winners@.contains((#[trigger] ps[k]).player_id) ==> ps[k].cash
                + pot_share(pot, winners@) <= usize::MAX,
            forall|k: int| 0 <= k < i ==> #[trigger] players@[k] == paid[k],
            forall|k: int| i <= k < ps.len() ==> #[trigger] players@[k] == ps[k],
            invalid@ == broke_ids(paid.take(i as int)),
        decreases ps.len() - i,
    {
        proof {
            assert(paid.take(i + 1).drop_last() =~= paid.take(i as int));
            assert(paid.take(i + 1).last() == paid[i as int]);
            assert(players@[i as int] == ps[i as int]);
        }
        pay_seat(&mut players[i], winners, pot);
        if players[i].cash == 0 {
            invalid.push(players[i].player_id);
        }
        i += 1;
    }
    proof {
        assert(paid.take(ps.len() as int) =~= paid);
        assert(players@ =~= paid);
    }
    state.pot = 0;
    state.current_top_bet = 0;
    let mut game_over: Option<crate::table::GameResult> = None;
    if invalid.len() == player_count - 1 {
        let mut id: usize = 0;
        let mut j: usize = 0;
        while j < players.len()
            invariant
                players@ == paid,
                j <= paid.len(),
                id == last_funded(paid.take(j as int)),
            decreases paid.len() - j,
        {
            proof {
                assert(paid.take(j + 1).drop_last() =~= paid.take(j as int));
                assert(paid.take(j + 1).last() == paid[j as int]);
            }
            if players[j].cash != 0 {
                id = players[j].player_id;
            }
            j += 1;
        }
        proof {
            assert(paid.take(paid.len() as int) =~= paid);
        }
        game_over = Some(crate::table::GameResult { id });
    }
    let sb = next_open(state.small_blind, &invalid, player_count);
    let bb = next_open(sb, &invalid, player_count);
    state.small_blind = sb;
    state.big_blind = bb;
    state.current_player = (bb + 1) % player_count;
    state.round_started = false;
    state.phase = crate::table::PokerPhase::PreFlop;
    state.is_first_round = false;
    game_over
}

/// The seats that have not folded, in seat order.
pub open spec fn unfolded(ps: Seq<Player>) -> Seq<Player>
    decreases ps.len(),
{
    if ps.len() == 0 {
        Seq::empty()
    } else {
        let rest = unfolded(ps.drop_last());
        if !ps.last().has_folded {
            rest.push(ps.last())
        } else {
            rest
        }
    }
}

/// The ids of the seats that have not folded, in seat order.
pub open spec fn unfolded_ids(ps: Seq<Player>) -> Seq<usize>
    decreases ps.len(),
{
    if ps.len() == 0 {
        Seq::empty()
    } else {
        let rest = unfolded_ids(ps.drop_last());
        if !ps.last().has_folded {
            rest.push(ps.last().player_id)
        } else {
            rest
        }
    }
}

/// The winners of the round: the one seat left when all others folded, else the
/// best hands among the seats that have not folded.
pub open spec fn round_winners(ps: Seq<Player>, community: Seq<Card>) -> Seq<usize> {
    if crate::table::count_active(ps) == 1 {
        unfolded_ids(ps)
    } else {
        crate::cards::showdown_winners(unfolded(ps), community)
    }
}

/// Seats with the same players holding the same cards, in the same order.
pub open spec fn same_hands(a: Seq<Player>, b: Seq<Player>) -> bool {
    &&& a.len() == b.len()
    &&& forall|k: int| 0 <= k < a.len() ==> (#[trigger] a[k]).player_id == b[k].player_id && a[k].cards@ == b[k].cards@
}

/// The showdown looks only at who holds which cards.
pub proof fn lemma_showdown_same_hands(a: Seq<Player>, b: Seq<Player>, community: Seq<Card>)
    requires
        same_hands(a, b),
    ensures
        crate::cards::showdown_hands(a, community) == crate::cards::showdown_hands(b, community),
        crate::cards::showdown_winners(a, community) == crate::cards::showdown_winners(b, community),
        crate::cards::showdown_ready(a, community) == crate::cards::showdown_ready(b, community),
    decreases a.len(),
{
    if a.len() > 0 {
        let a1 = a.drop_last();
        let b1 = b.drop_last();
        assert(same_hands(a1, b1)) by {
            assert forall|k: int| 0 <= k < a1.len() implies (#[trigger] a1[k]).player_id == b1[k].player_id && a1[k].cards@ == b1[k].cards@ by {
                assert(a1[k] == a[k] && b1[k] == b[k]);
            }
        }
        lemma_showdown_same_hands(a1, b1, community);
        assert(a.last() == a[a.len() - 1]);
    }
    assert(crate::cards::showdown_ready(a, community) == crate::cards::showdown_ready(b, community)) by {
        assert forall|i: int| #![trigger a[i]] #![trigger b[i]] 0 <= i < a.len() implies crate::cards::eligible(a[i], community) == crate::cards::eligible(b[i], community)
            && a[i].cards@ + community == b[i].cards@ + community by {
        }
    }
}

/// A copy of the seat's player id and cards, for the showdown.
fn showdown_seat(p: &Player) -> (q: Player)
    ensures
        q.player_id == p.player_id,
        q.cards@ == p.cards@,
{
    Player {
        player_id: p.player_id,
        cards: p.cards.clone(),
        cash: p.cash,
        current_bet: p.current_bet,
        has_folded: p.has_folded,
        has_moved: p.has_moved,
        is_all_in: p.is_all_in,
        has_raised: p.has_raised,
        hand_strength: p.hand_strength,
        move_dist: p.move_dist.clone(),
        big_blind: p.big_blind,
        small_blind: p.small_blind,
    }
}

/// Counts the seats that have not folded.
pub fn active_seat_count(players: &Vec<Player>) -> (n: usize)
    ensures
        n == crate::table::count_active(players@),
{
    let ghost ps = players@;
    let mut n: usize = 0;
    let mut i: usize = 0;
    while i < players.len()
        invariant
            ps == players@,
            i <= ps.len(),
            n == crate::table::count_active(ps.take(i as int)),
            n <= i,
        decreases ps.len() - i,
    {
        proof {
            assert(ps.take(i + 1).drop_last() =~= ps.take(i as int));
            assert(ps.take(i + 1).last() == ps[i as int]);
        }
        if !players[i].has_folded {
            n += 1;
        }
        i += 1;
    }
    proof {
        assert(ps.take(ps.len() as int) =~= ps);
    }
    n
}

/// The winners of the round: the one seat left when all others folded, else the
/// best hands among the seats that have not folded.
pub fn find_winners(players: &Vec<Player>, community_cards: &Vec<Card>) -> (winners: Vec<usize>)
    requires
        crate::table::count_active(players@) != 1 ==> crate::cards::showdown_ready(unfolded(players@), community_cards@),
    ensures
        winners@ == round_winners(players@, community_cards@),
{
    let ghost ps = players@;
    let active = active_seat_count(players);
    let mut ids: Vec<usize> = Vec::new();
    let mut contenders: Vec<Player> = Vec::new();
    let mut i: usize = 0;
    while i < players.len()
        invariant
            ps == players@,
            i <= ps.len(),
            ids@ == unfolded_ids(ps.take(i as int)),
            same_hands(contenders@, unfolded(ps.take(i as int))),
        decreases ps.len() - i,
    {
        proof {
            assert(ps.take(i + 1).drop_last() =~= ps.take(i as int));
            assert(ps.take(i + 1).last() == ps[i as int]);
        }
        if !players[i].has_folded {
            ids.push(players[i].player_id);
            let seat = showdown_seat(&players[i]);
            contenders.push(seat);
            proof {
                let u = unfolded(ps.take(i + 1));
                assert(u == unfolded(ps.take(i as int)).push(ps[i as int]));
                assert forall|k: int| 0 <= k < contenders@.len() implies (#[trigger] contenders@[k]).player_id == u[k].player_id
                    && contenders@[k].cards@ == u[k].cards@ by {
                    if k < contenders@.len() - 1 {
                        assert(u[k] == unfolded(ps.take(i as int))[k]);
                    }
                }
            }
        }
        i += 1;
    }
    proof {
        assert(ps.take(ps.len() as int) =~= ps);
    }
    if active == 1 {
        ids
    } else {
        proof {
            lemma_showdown_same_hands(contenders@, unfolded(ps), community_cards@);
        }
        crate::cards::card_function(community_cards, &contenders)
    }
}

// ---------------------------------------------------------------------------
// Betting
// ---------------------------------------------------------------------------

/// The seats, the state and the pending action after a betting step: the player
/// whose turn it is acts unless its seat has already moved, then the round ends if
/// every seat that has not folded has moved.
pub open spec fn bet_result(
    ps: Seq<Player>,
    st: PokerTurn,
    act: Option<PlayerAction>,
    moved: bool,
    count: usize,
    restored: Option<nat>,
) -> (Seq<Player>, PokerTurn, Option<PlayerAction>) {
    let t = if moved {
        (ps, st, act)
    } else {
        crate::table::player_turn(ps, st, act, st.current_player, count, restored)
    };
    let e = crate::table::round_end(t.0, t.1, count);
    (e.0, e.1, t.2)
}

/// A betting step can be carried out: the table has seats for every player, and
/// the seats of the player whose turn it is can bet.
pub open spec fn bet_ready(ps: Seq<Player>, st: PokerTurn, moved: bool, count: usize) -> bool {
    &&& count > 0
    &&& ps.len() <= count
    &&& !moved ==> st.current_player < usize::MAX && crate::table::seats_can_bet(ps, st, st.current_player)
}

/// Seats that differ only in their hands can bet alike.
pub proof fn lemma_bet_ready_same_but_hand(a: Seq<Player>, b: Seq<Player>, st: PokerTurn, moved: bool, count: usize)
    requires
        same_but_hand(a, b),
    ensures
        bet_ready(a, st, moved, count) == bet_ready(b, st, moved, count),
{
    assert forall|i: int| #![trigger a[i]] #![trigger b[i]] 0 <= i < a.len() implies a[i].player_id == b[i].player_id
        && a[i].current_bet == b[i].current_bet && a[i].cash == b[i].cash by {
        assert(a[i] == Player { cards: a[i].cards, move_dist: a[i].move_dist, hand_strength: a[i].hand_strength, ..b[i] });
    }
}

/// One betting step: the player whose turn it is acts with the pending action
/// unless its seat has already moved, then the round ends if every seat that has
/// not folded has moved.
pub fn bet_step(
    state: &mut PokerTurn,
    players: &mut Vec<Player>,
    player_count: &NumPlayers,
    last_action: &mut LastPlayerAction,
    top_bet_text: &str,
    moved: bool,
)
    requires
        bet_ready(old(players)@, *old(state), moved, player_count.player_count),
    ensures
        (final(players)@, *final(state), final(last_action).action) == bet_result(
            old(players)@,
            *old(state),
            old(last_action).action,
            moved,
            player_count.player_count,
            crate::text::dollar_amount(top_bet_text@),
        ),
{
    if !moved {
        let cp = state.current_player;
        crate::table::process_player_turn(cp, state, players, player_count, last_action, top_bet_text);
    }
    proof {
        crate::table::lemma_count_bounds(players@);
    }
    crate::table::next_player_turn(state, players, player_count.player_count);
}

// ---------------------------------------------------------------------------
// The phases
// ---------------------------------------------------------------------------

/// Handing out the dealt cards keeps the seats apart from their hands.
pub proof fn lemma_rehanded_same_but_hand(dealt: Seq<Player>, n: int, ps: Seq<Player>, new: Seq<Player>)
    requires
        rehanded_seats(dealt, n, ps, new),
    ensures
        same_but_hand(new, ps),
{
    assert forall|k: int| 0 <= k < new.len() implies #[trigger] new[k] == Player {
        cards: new[k].cards,
        move_dist: new[k].move_dist,
        hand_strength: new[k].hand_strength,
        ..ps[k]
    } by {
        assert(ps[k] == ps[k]);
    }
}

/// The players dealt from the shuffled deck `sh`: two cards each, in order, with
/// `cash` chips.
pub open spec fn dealt_from(sh: Seq<Card>, count: usize, cash: usize, dealt: Seq<Player>) -> bool {
    &&& dealt.len() == count
    &&& forall|k: int| 0 <= k < count ==> crate::cards::dealt_player(
        #[trigger] dealt[k],
        k as usize,
        sh.subrange(2 * k, 2 * k + 2),
        cash,
    )
}

/// The seats and the state once a round is opened: when there are seats, the blinds
/// are posted and the round has started; the player after the big blind is to act.
pub open spec fn opened(ps: Seq<Player>, st: PokerTurn, count: usize) -> (Seq<Player>, PokerTurn) {
    let b = if ps.len() > 0 {
        let r = blinds_posted(ps, st);
        (r.0, PokerTurn { round_started: true, ..r.1 })
    } else {
        (ps, st)
    };
    (b.0, PokerTurn { current_player: ((b.1.big_blind + 1) % (count as int)) as usize, ..b.1 })
}

/// The step before the flop can be carried out.
pub open spec fn preflop_ready(ps: Seq<Player>, st: PokerTurn, deck: Seq<Card>, moved: bool, count: usize) -> bool {
    &&& count > 0
    &&& !st.round_started ==> {
        &&& deck.len() == 52 ==> 2 * count <= 52
        &&& ps.len() > 0 ==> blinds_fit(ps, st)
        &&& st.big_blind < usize::MAX
        &&& bet_ready(opened(ps, st, count).0, opened(ps, st, count).1, moved, count)
    }
    &&& st.round_started ==> bet_ready(ps, st, moved, count)
}

/// What the step before the flop does. A round that has not started is opened: a
/// full deck is shuffled (into some order `sh`), two cards are dealt to each player
/// and handed to the seats (new seats join at the end of the step), and the blinds
/// are posted. Then comes a betting step.
pub open spec fn preflop_done(
    ps: Seq<Player>,
    st: PokerTurn,
    deck: Seq<Card>,
    act: Option<PlayerAction>,
    moved: bool,
    count: usize,
    cash: usize,
    restored: Option<nat>,
    ps2: Seq<Player>,
    st2: PokerTurn,
    deck2: Seq<Card>,
    act2: Option<PlayerAction>,
) -> bool {
    if st.round_started {
        deck2 == deck && (ps2, st2, act2) == bet_result(ps, st, act, moved, count, restored)
    } else {
        exists|sh: Seq<Card>, dealt: Seq<Player>, ps1: Seq<Player>, spawned: Seq<Player>|
            #[trigger] opened_by(ps, st, deck, act, moved, count, cash, restored, ps2, st2, deck2, act2, sh, dealt, ps1, spawned)
    }
}

/// The round was opened with the full deck shuffled into `sh`, the players `dealt`,
/// the seats `ps1` holding their cards and the new seats `spawned`.
pub open spec fn opened_by(
    ps: Seq<Player>,
    st: PokerTurn,
    deck: Seq<Card>,
    act: Option<PlayerAction>,
    moved: bool,
    count: usize,
    cash: usize,
    restored: Option<nat>,
    ps2: Seq<Player>,
    st2: PokerTurn,
    deck2: Seq<Card>,
    act2: Option<PlayerAction>,
    sh: Seq<Card>,
    dealt: Seq<Player>,
    ps1: Seq<Player>,
    spawned: Seq<Player>,
) -> bool {
    &&& if deck.len() == 52 {
        &&& sh.len() == 52
        &&& sh.to_multiset() == deck.to_multiset()
        &&& deck2 == sh.skip(2 * count)
        &&& dealt_from(sh, count, cash, dealt)
        &&& rehanded_seats(dealt, count as int, ps, ps1)
        &&& fresh_seats(unseated(dealt, ps), spawned)
    } else {
        &&& deck2 == deck
        &&& ps1 == ps
        &&& spawned == Seq::<Player>::empty()
    }
    &&& ({
        let o = opened(ps1, st, count);
        let b = bet_result(o.0, o.1, act, moved, count, restored);
        ps2 == b.0 + spawned && st2 == b.1 && act2 == b.2
    })
}

/// The step before the flop: opens the round if it has not started, then a
/// betting step.
pub fn preflop_step(
    state: &mut PokerTurn,
    players: &mut Vec<Player>,
    deck: &mut Vec<Card>,
    player_count: &NumPlayers,
    last_action: &mut LastPlayerAction,
    money_per_player: usize,
    top_bet_text: &str,
    moved: bool,
)
    requires
        preflop_ready(old(players)@, *old(state), old(deck)@, moved, player_count.player_count),
    ensures
        preflop_done(
            old(players)@,
            *old(state),
            old(deck)@,
            old(last_action).action,
            moved,
            player_count.player_count,
            money_per_player,
            crate::text::dollar_amount(top_bet_text@),
            final(players)@,
            *final(state),
            final(deck)@,
            final(last_action).action,
        ),
{
    let ghost ps = players@;
    let ghost st = *state;
    let ghost d = deck@;
    let ghost restored = crate::text::dollar_amount(top_bet_text@);
    let count = player_count.player_count;
    if state.round_started {
        bet_step(state, players, player_count, last_action, top_bet_text, moved);
        return;
    }
    let mut spawned: Vec<Player> = Vec::new();
    let ghost mut sh: Seq<Card> = d;
    let ghost mut dealt: Seq<Player> = Seq::empty();
    if deck.len() == 52 {
        crate::random::shuffle_cards(deck);
        proof {
            sh = deck@;
        }
        let hands = crate::cards::deal_hands(count, deck, money_per_player);
        proof {
            dealt = hands@;
            assert forall|k: int| 0 <= k < dealt.len() && first_seat(ps, (#[trigger] dealt[k]).player_id) < 0
                implies dealt[k].cards@.len() >= 2 by {
                assert(crate::cards::dealt_player(dealt[k], k as usize, sh.subrange(2 * k, 2 * k + 2), money_per_player));
            }
        }
        spawned = spawn_player_cards(&hands, players);
        proof {
            lemma_rehanded_same_but_hand(dealt, count as int, ps, players@);
        }
    } else {
        proof {
            assert(same_but_hand(players@, ps));
        }
    }
    let ghost ps1 = players@;
    proof {
        lemma_blinds_same_but_hand(ps1, ps, st);
        lemma_blinds_posted(ps1, st);
        lemma_blinds_posted(ps, st);
        let o1 = opened(ps1, st, count);
        let o = opened(ps, st, count);
        if ps.len() > 0 {
            lemma_bet_ready_same_but_hand(o1.0, o.0, o.1, moved, count);
        } else {
            lemma_bet_ready_same_but_hand(ps1, ps, st, moved, count);
        }
    }
    if players.len() > 0 {
        post_blinds(state, players);
        state.round_started = true;
    }
    state.current_player = (state.big_blind + 1) % count;
    bet_step(state, players, player_count, last_action, top_bet_text, moved);
    let ghost sp = spawned@;
    players.append(&mut spawned);
    proof {
        if d.len() != 52 {
            assert(sp =~= Seq::<Player>::empty());
        }
        assert(opened_by(ps, st, d, old(last_action).action, moved, count, money_per_player, restored, players@, *state, deck@,
            last_action.action, sh, dealt, ps1, sp));
    }
}

/// The deck and the community cards after a street is dealt: while fewer than
/// `limit` community cards show and the deck does not hold `mark` cards, the flop
/// of three cards is dealt when none show, else one card.
pub open spec fn street_dealt(deck: Seq<Card>, community: Seq<Card>, limit: int, mark: int) -> (Seq<Card>, Seq<Card>) {
    if community.len() < limit && deck.len() != mark {
        let n: int = if community.len() == 0 {
            3
        } else {
            1
        };
        (deck.skip(n), community + deck.take(n))
    } else {
        (deck, community)
    }
}

/// A street can be dealt: the mark `base - 2 * count` is a number of cards, and
/// when cards are dealt, none, three or four community cards show and the deck
/// holds enough cards.
pub open spec fn street_ready(deck: Seq<Card>, community: Seq<Card>, limit: int, base: int, count: usize) -> bool {
    community.len() < limit ==> {
        &&& 2 * count <= base
        &&& deck.len() != base - 2 * count ==> {
            &&& (community.len() == 0 || community.len() == 3 || community.len() == 4)
            &&& deck.len() >= (if community.len() == 0 { 3int } else { 1int })
        }
    }
}

/// A step of the flop, the turn or the river: the street's cards are dealt if
/// they are not out yet, then a betting step.
pub fn street_step(
    state: &mut PokerTurn,
    players: &mut Vec<Player>,
    deck: &mut Vec<Card>,
    community_cards: &mut Vec<Card>,
    player_count: &NumPlayers,
    last_action: &mut LastPlayerAction,
    top_bet_text: &str,
    moved: bool,
    limit: usize,
    base: usize,
)
    requires
        street_ready(old(deck)@, old(community_cards)@, limit as int, base as int, player_count.player_count),
        bet_ready(old(players)@, *old(state), moved, player_count.player_count),
    ensures
        (final(deck)@, final(community_cards)@) == street_dealt(
            old(deck)@,
            old(community_cards)@,
            limit as int,
            base - 2 * player_count.player_count,
        ),
        (final(players)@, *final(state), final(last_action).action) == bet_result(
            old(players)@,
            *old(state),
            old(last_action).action,
            moved,
            player_count.player_count,
            crate::text::dollar_amount(top_bet_text@),
        ),
{
    if community_cards.len() < limit {
        if deck.len() != base - 2 * player_count.player_count {
            let mut dealt = crate::cards::deal_com_function(deck, community_cards.len());
            let mut street = dealt.remove(0);
            community_cards.append(&mut street);
        }
    }
    bet_step(state, players, player_count, last_action, top_bet_text, moved);
}

/// The showdown can be carried out: the hands can be compared when more than one
/// seat is left, and the winners can be paid.
pub open spec fn showdown_ready(ps: Seq<Player>, st: PokerTurn, community: Seq<Card>, count: usize) -> bool {
    &&& crate::table::count_active(ps) != 1 ==> crate::cards::showdown_ready(unfolded(ps), community)
    &&& settle_ready(ps, st, round_winners(ps, community), count)
}

/// The showdown: finds the winners, gathers the cards into a fresh deck and
/// settles the round.
pub fn showdown_step(
    state: &mut PokerTurn,
    players: &mut Vec<Player>,
    deck: &mut Vec<Card>,
    community_cards: &mut Vec<Card>,
    player_count: &NumPlayers,
) -> (game_over: Option<crate::table::GameResult>)
    requires
        showdown_ready(old(players)@, *old(state), old(community_cards)@, player_count.player_count),
    ensures
        final(deck)@.len() == 52,
        forall|i: int| 0 <= i < 52 ==> #[trigger] final(deck)@[i] == crate::cards::standard_card(i),
        final(community_cards)@ == Seq::<Card>::empty(),
        (final(players)@, *final(state), game_over) == settled(
            old(players)@,
            *old(state),
            round_winners(old(players)@, old(community_cards)@),
            player_count.player_count,
        ),
{
    let winners = find_winners(players, community_cards);
    *deck = crate::cards::init_cards();
    community_cards.clear();
    settle_showdown(state, players, &winners, player_count.player_count)
}

// ---------------------------------------------------------------------------
// The game loop's step
// ---------------------------------------------------------------------------

/// What a step of the game loop asks of the program around it: to pause before a
/// new round is dealt, and whether the game is over.
pub struct TurnReport {
    pub pause: bool,
    pub game_over: Option<crate::table::GameResult>,
}

/// The state a step works on: when a single seat has not folded, the round goes
/// straight to the showdown.
pub open spec fn phase_at_start(ps: Seq<Player>, st: PokerTurn) -> PokerTurn {
    if crate::table::count_active(ps) == 1 {
        PokerTurn { phase: crate::table::PokerPhase::Showdown, ..st }
    } else {
        st
    }
}

/// For the flop, the turn and the river: how many community cards show once the
/// street is dealt, and the deck size, before the cards dealt to the players are
/// taken off, at which the street counts as dealt.
pub open spec fn street_of(ph: crate::table::PokerPhase) -> (int, int) {
    match ph {
        crate::table::PokerPhase::Flop => (3, 49),
        crate::table::PokerPhase::Turn => (4, 48),
        crate::table::PokerPhase::River => (5, 47),
        _ => (0, 0),
    }
}

/// A step of the game loop can be carried out on this table.
pub open spec fn turn_ready(ps: Seq<Player>, st: PokerTurn, deck: Seq<Card>, community: Seq<Card>, count: usize) -> bool {
    let moved = seat_moved(ps, st.current_player);
    let st0 = phase_at_start(ps, st);
    match st0.phase {
        crate::table::PokerPhase::PreFlop => preflop_ready(ps, st0, deck, moved, count),
        crate::table::PokerPhase::Showdown => showdown_ready(ps, st0, community, count),
        _ => street_ready(deck, community, street_of(st0.phase).0, street_of(st0.phase).1, count) && bet_ready(
            ps,
            st0,
            moved,
            count,
        ),
    }
}

/// One step of the game loop. When a single seat has not folded the round goes
/// to the showdown. Before the flop, a new round is opened (dealt and blinded),
/// and the program is asked to pause first unless it is the first round; on the
/// flop, the turn and the river the street's cards are dealt. In these phases the
/// player whose turn it is then acts with the pending action (unless its seat has
/// moved), and the betting round ends once every seat has moved. At the showdown
/// the winners are paid, the cards gathered and a new round set up; the report
/// says when the game is over.
pub fn turn_system(
    state: &mut PokerTurn,
    players: &mut Vec<Player>,
    deck: &mut crate::cards::Deck,
    community_cards: &mut Vec<Card>,
    player_count: &NumPlayers,
    last_action: &mut LastPlayerAction,
    money_per_player: usize,
    top_bet_text: &str,
) -> (report: TurnReport)
    requires
        turn_ready(old(players)@, *old(state), old(deck).cards@, old(community_cards)@, player_count.player_count),
    ensures
        ({
            let ps = old(players)@;
            let moved = seat_moved(ps, old(state).current_player);
            let st0 = phase_at_start(ps, *old(state));
            let count = player_count.player_count;
            let restored = crate::text::dollar_amount(top_bet_text@);
            match st0.phase {
                crate::table::PokerPhase::PreFlop => {
                    &&& report.pause == (!st0.round_started && !st0.is_first_round)
                    &&& report.game_over == None::<crate::table::GameResult>
                    &&& final(community_cards)@ == old(community_cards)@
                    &&& preflop_done(
                        ps,
                        st0,
                        old(deck).cards@,
                        old(last_action).action,
                        moved,
                        count,
                        money_per_player,
                        restored,
                        final(players)@,
                        *final(state),
                        final(deck).cards@,
                        final(last_action).action,
                    )
                },
                crate::table::PokerPhase::Showdown => {
                    &&& !report.pause
                    &&& final(deck).cards@.len() == 52
                    &&& forall|i: int| 0 <= i < 52 ==> #[trigger] final(deck).cards@[i] == crate::cards::standard_card(i)
                    &&& final(community_cards)@ == Seq::<Card>::empty()
                    &&& final(last_action).action == old(last_action).action
                    &&& (final(players)@, *final(state), report.game_over) == settled(
                        ps,
                        st0,
                        round_winners(ps, old(community_cards)@),
                        count,
                    )
                },
                _ => {
                    &&& !report.pause
                    &&& report.game_over == None::<crate::table::GameResult>
                    &&& (final(deck).cards@, final(community_cards)@) == street_dealt(
                        old(deck).cards@,
                        old(community_cards)@,
                        street_of(st0.phase).0,
                        street_of(st0.phase).1 - 2 * count,
                    )
                    &&& (final(players)@, *final(state), final(last_action).action) == bet_result(
                        ps,
                        st0,
                        old(last_action).action,
                        moved,
                        count,
                        restored,
                    )
                },
            }
        }),
{
    let moved = seat_has_moved(players, state.current_player);
    let active = active_seat_count(players);
    if active == 1 {
        state.phase = crate::table::PokerPhase::Showdown;
    }
    match state.phase {
        crate::table::PokerPhase::PreFlop => {
            let pause = !state.round_started && !state.is_first_round;
            preflop_step(state, players, &mut deck.cards, player_count, last_action, money_per_player, top_bet_text, moved);
            TurnReport { pause, game_over: None }
        },
        crate::table::PokerPhase::Flop => {
            street_step(state, players, &mut deck.cards, community_cards, player_count, last_action, top_bet_text, moved, 3, 49);
            TurnReport { pause: false, game_over: None }
        },
        crate::table::PokerPhase::Turn => {
            street_step(state, players, &mut deck.cards, community_cards, player_count, last_action, top_bet_text, moved, 4, 48);
            TurnReport { pause: false, game_over: None }
        },
        crate::table::PokerPhase::River => {
            street_step(state, players, &mut deck.cards, community_cards, player_count, last_action, top_bet_text, moved, 5, 47);
            TurnReport { pause: false, game_over: None }
        },
        crate::table::PokerPhase::Showdown => {
            let game_over = showdown_step(state, players, &mut deck.cards, community_cards, player_count);
            TurnReport { pause: false, game_over }
        },
    }
}

// ---------------------------------------------------------------------------
// Laws of a round
// ---------------------------------------------------------------------------

/// The chips the seats hold.
pub open spec fn total_cash(ps: Seq<Player>) -> int
    decreases ps.len(),
{
    if ps.len() == 0 {
        0
    } else {
        total_cash(ps.drop_last()) + ps.last().cash
    }
}

/// How many seats belong to one of the `winners`.
pub open spec fn winning_seats(ps: Seq<Player>, winners: Seq<usize>) -> int
    decreases ps.len(),
{
    if ps.len() == 0 {
        0
    } else {
        winning_seats(ps.drop_last(), winners) + if winners.contains(ps.last().player_id) {
            1int
        } else {
            0int
        }
    }
}

/// Posting the blinds moves chips from the seats into the pot: the chips on the
/// seats and in the pot add up to the same number before and after.
pub proof fn lemma_blinds_keep_chips(ps: Seq<Player>, st: PokerTurn)
    requires
        blinds_fit(ps, st),
    ensures
        total_cash(blinds_posted(ps, st).0) + blinds_posted(ps, st).1.pot == total_cash(ps) + st.pot,
    decreases ps.len(),
{
    if ps.len() > 0 {
        let ps1 = ps.drop_last();
        lemma_blinds_keep_chips(ps1, st);
        lemma_blinds_posted(ps1, st);
        let r = blinds_posted(ps1, st);
        assert(blinds_posted(ps, st).0.drop_last() =~= r.0);
    }
}

/// Settling a showdown pays each seat of a winner its share of the pot and no more,
/// and the shares paid out never exceed the pot.
pub proof fn lemma_showdown_pays_shares(ps: Seq<Player>, winners: Seq<usize>, pot: usize)
    requires
        forall|k: int| 0 <= k < ps.len() && winners.contains((#[trigger] ps[k]).player_id) ==> ps[k].cash + pot_share(pot, winners)
            <= usize::MAX,
    ensures
        total_cash(paid_seats(ps, winners, pot)) == total_cash(ps) + pot_share(pot, winners) * winning_seats(ps, winners),
        pot_share(pot, winners) * winners.len() <= pot,
    decreases ps.len(),
{
    let share = pot_share(pot, winners);
    if winners.len() > 1 {
        assert(share * winners.len() <= pot) by (nonlinear_arith)
            requires
                share == pot as int / winners.len() as int,
                winners.len() > 1,
        ;
    } else {
        assert(share * winners.len() <= pot) by (nonlinear_arith)
            requires
                share == pot,
                winners.len() <= 1,
        ;
    }
    if ps.len() > 0 {
        let ps1 = ps.drop_last();
        lemma_showdown_pays_shares(ps1, winners, pot);
        assert(paid_seats(ps, winners, pot).drop_last() =~= paid_seats(ps1, winners, pot));
        assert(paid_seats(ps, winners, pot).last() == paid_seat(ps.last(), winners, pot));
        assert(share * winning_seats(ps, winners) == share * winning_seats(ps1, winners) + if winners.contains(
            ps.last().player_id,
        ) {
            share
        } else {
            0
        }) by (nonlinear_arith)
            requires
                winning_seats(ps, winners) == winning_seats(ps1, winners) + if winners.contains(ps.last().player_id) {
                    1int
                } else {
                    0int
                },
        ;
    } else {
        assert(paid_seats(ps, winners, pot) =~= Seq::<Player>::empty());
    }
}

proof fn lemma_seek_open(s: usize, taken: Seq<usize>, count: usize, fuel: nat, v: usize)
    requires
        count > 0,
        s < count,
        v < count,
        !taken.contains(v),
        seat_gap(s as int, v as int, count as int) < fuel,
    ensures
        seek_open(s, taken, count, fuel) < count,
        !taken.contains(seek_open(s, taken, count, fuel)),
    decreases fuel,
{
    if taken.contains(s) {
        lemma_step_seat(s, count);
        lemma_seek_open(((s + 1) % (count as int)) as usize, taken, count, (fuel - 1) as nat, v);
    }
}

/// After a showdown the blinds move to seats that are not out, and the player to
/// act sits at the table.
pub proof fn lemma_blinds_move_to_open_seats(ps: Seq<Player>, st: PokerTurn, winners: Seq<usize>, count: usize)
    requires
        settle_ready(ps, st, winners, count),
    ensures
        ({
            let r = settled(ps, st, winners, count);
            let broke = broke_ids(r.0);
            &&& r.1.small_blind < count && !broke.contains(r.1.small_blind)
            &&& r.1.big_blind < count && !broke.contains(r.1.big_blind)
            &&& r.1.current_player < count
            &&& r.1.pot == 0
        }),
{
    let paid = paid_seats(ps, winners, st.pot);
    let broke = broke_ids(paid);
    let v = choose|v: usize| v < count && !broke.contains(v);
    let s0 = ((st.small_blind + 1) % (count as int)) as usize;
    lemma_seek_open(s0, broke, count, count as nat, v);
    let sb = next_open_seat(st.small_blind, broke, count);
    let s1 = ((sb + 1) % (count as int)) as usize;
    lemma_step_seat(sb, count);
    lemma_seek_open(s1, broke, count, count as nat, v);
}

proof fn lemma_total_cash_update(ps: Seq<Player>, i: int, p: Player)
    requires
        0 <= i < ps.len(),
    ensures
        total_cash(ps.update(i, p)) == total_cash(ps) - ps[i].cash + p.cash,
    decreases ps.len(),
{
    if i < ps.len() - 1 {
        lemma_total_cash_update(ps.drop_last(), i, p);
        assert(ps.update(i, p).drop_last() =~= ps.drop_last().update(i, p));
    } else {
        assert(ps.update(i, p).drop_last() =~= ps.drop_last());
    }
}

proof fn lemma_total_cash_same(a: Seq<Player>, b: Seq<Player>)
    requires
        a.len() == b.len(),
        forall|k: int| 0 <= k < a.len() ==> (#[trigger] a[k]).cash == b[k].cash,
    ensures
        total_cash(a) == total_cash(b),
    decreases a.len(),
{
    if a.len() > 0 {
        lemma_total_cash_same(a.drop_last(), b.drop_last());
    }
}

proof fn lemma_turn_keeps_chips(
    ps: Seq<Player>,
    i: int,
    st: PokerTurn,
    act: Option<PlayerAction>,
    cp: usize,
    count: usize,
    restored: Option<nat>,
)
    requires
        0 <= i,
        crate::table::seats_can_bet(ps, st, cp),
    ensures
        ({
            let r = crate::table::turn_result(ps, i, st, act, cp, count, restored);
            total_cash(r.0) + r.1.pot == total_cash(ps) + st.pot
        }),
    decreases ps.len() - i,
{
    if i < ps.len() {
        if ps[i].player_id != cp {
            lemma_turn_keeps_chips(ps, i + 1, st, act, cp, count, restored);
        } else if crate::table::can_act(ps[i]) {
            match act {
                Some(PlayerAction::Check) => {
                    lemma_total_cash_update(ps, i, crate::table::check_result(st, ps[i], count).1);
                },
                Some(PlayerAction::Raise) => {
                    lemma_total_cash_update(ps, i, crate::table::raise_result(st, ps[i], count, restored).1);
                },
                Some(PlayerAction::Fold) => {
                    lemma_total_cash_update(ps, i, crate::table::fold_result(st, ps[i], count).1);
                },
                Some(PlayerAction::Call) => {
                    lemma_total_cash_update(ps, i, crate::table::call_result(st, ps[i], count).1);
                },
                _ => {
                    lemma_turn_keeps_chips(ps, i + 1, st, act, cp, count, restored);
                },
            }
        } else {
            let ps1 = ps.update(i, Player { has_moved: true, ..ps[i] });
            let st1 = PokerTurn { current_player: crate::table::next_seat(st.current_player, count), ..st };
            lemma_total_cash_update(ps, i, Player { has_moved: true, ..ps[i] });
            assert(crate::table::seats_can_bet(ps1, st1, cp)) by {
                assert forall|k: int| 0 <= k < ps1.len() && (#[trigger] ps1[k]).player_id == cp implies ps1[k].current_bet
                    <= st1.current_top_bet && st1.pot + ps1[k].cash <= usize::MAX by {
                    assert(ps[k].player_id == cp);
                }
            }
            lemma_turn_keeps_chips(ps1, i + 1, st1, act, cp, count, restored);
        }
    }
}

/// A betting step keeps the chips: the chips on the seats and in the pot add up to
/// the same number before and after, whatever the player does.
pub proof fn lemma_bet_step_keeps_chips(
    ps: Seq<Player>,
    st: PokerTurn,
    act: Option<PlayerAction>,
    moved: bool,
    count: usize,
    restored: Option<nat>,
)
    requires
        bet_ready(ps, st, moved, count),
    ensures
        ({
            let r = bet_result(ps, st, act, moved, count, restored);
            total_cash(r.0) + r.1.pot == total_cash(ps) + st.pot
        }),
{
    let t = if moved {
        (ps, st, act)
    } else {
        crate::table::player_turn(ps, st, act, st.current_player, count, restored)
    };
    if !moved {
        let r = crate::table::turn_result(ps, 0, st, act, st.current_player, count, restored);
        lemma_turn_keeps_chips(ps, 0, st, act, st.current_player, count, restored);
        if r.3 {
            lemma_total_cash_same(t.0, r.0);
        }
    }
    let e = crate::table::round_end(t.0, t.1, count);
    if crate::table::betting_round_done(t.0) && t.1.phase != crate::table::PokerPhase::Showdown {
        lemma_total_cash_same(e.0, t.0);
    }
}

/// The cards the players hold, seat by seat.
pub open spec fn held_cards(ps: Seq<Player>) -> Seq<Card>
    decreases ps.len(),
{
    if ps.len() == 0 {
        Seq::empty()
    } else {
        held_cards(ps.drop_last()) + ps.last().cards@
    }
}

proof fn lemma_held_cards_dealt(sh: Seq<Card>, n: nat, cash: usize, dealt: Seq<Player>)
    requires
        2 * n <= sh.len(),
        dealt.len() == n,
        forall|k: int| 0 <= k < n ==> crate::cards::dealt_player(
            #[trigger] dealt[k],
            k as usize,
            sh.subrange(2 * k, 2 * k + 2),
            cash,
        ),
    ensures
        held_cards(dealt) == sh.take(2 * n as int),
    decreases n,
{
    if n > 0 {
        let d1 = dealt.drop_last();
        assert forall|k: int| 0 <= k < (n - 1) as nat implies crate::cards::dealt_player(
            #[trigger] d1[k],
            k as usize,
            sh.subrange(2 * k, 2 * k + 2),
            cash,
        ) by {
            assert(d1[k] == dealt[k]);
        }
        lemma_held_cards_dealt(sh, (n - 1) as nat, cash, d1);
        assert(crate::cards::dealt_player(dealt[n - 1], (n - 1) as usize, sh.subrange(2 * (n - 1), 2 * (n - 1) + 2), cash));
        assert(sh.take(2 * (n - 1)) + sh.subrange(2 * (n - 1), 2 * n as int) =~= sh.take(2 * n as int));
    } else {
        assert(sh.take(0) =~= Seq::<Card>::empty());
    }
}

/// Opening a round loses and makes no card: the cards dealt to the players, seat by
/// seat, followed by what is left of the deck are the shuffled deck, and hold the
/// same cards as the deck before the shuffle.
pub proof fn lemma_opening_deal_keeps_cards(deck: Seq<Card>, sh: Seq<Card>, count: usize, cash: usize, dealt: Seq<Player>)
    requires
        2 * count <= sh.len(),
        sh.to_multiset() == deck.to_multiset(),
        dealt_from(sh, count, cash, dealt),
    ensures
        held_cards(dealt) + sh.skip(2 * count) == sh,
        (held_cards(dealt) + sh.skip(2 * count)).to_multiset() == deck.to_multiset(),
{
    lemma_held_cards_dealt(sh, count as nat, cash, dealt);
    assert(sh.take(2 * count) + sh.skip(2 * count) =~= sh);
}

} // verus!
