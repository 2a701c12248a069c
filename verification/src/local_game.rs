//! The betting rules of the game played locally against the computer: a check is
//! refused once any bet stands, a raise adds 50 to the top bet, and the computer's
//! players either call or check, on a draw that the program makes.
use vstd::prelude::*;
use crate::cards::{Card, Deck};
use crate::table::{LastPlayerAction, NumPlayers, Player, PlayerAction, PokerPhase, PokerTurn};

verus! {

/// The pending action after the player `p` acted: the human player's (player 0)
/// is used up; the computer's players leave it as it was.
pub open spec fn used_up(p: Player, act: Option<PlayerAction>) -> Option<PlayerAction> {
    if p.player_id == 0 {
        Some(PlayerAction::NoAction)
    } else {
        act
    }
}

/// What a check does here: refused while any bet stands (only the human player's
/// pending action is used up); otherwise the player has moved and the turn passes.
pub open spec fn local_check(st: PokerTurn, p: Player, count: usize, act: Option<PlayerAction>) -> (PokerTurn, Player, Option<PlayerAction>) {
    if st.current_top_bet > 0 {
        (st, p, used_up(p, act))
    } else {
        (
            PokerTurn { current_player: crate::table::next_seat(st.current_player, count), ..st },
            Player { has_moved: true, ..p },
            Some(PlayerAction::NoAction),
        )
    }
}

/// What a raise does here: when the player can pay up to 50 over the top bet, that
/// goes into the pot, the top bet goes up by 50 and becomes the player's bet, and
/// the turn passes; otherwise only the human player's pending action is used up.
pub open spec fn local_raise(st: PokerTurn, p: Player, count: usize, act: Option<PlayerAction>) -> (PokerTurn, Player, Option<PlayerAction>, bool) {
    let d = st.current_top_bet + 50 - p.current_bet;
    if p.cash >= d {
        (
            PokerTurn {
                pot: (st.pot + d) as usize,
                current_top_bet: (st.current_top_bet + 50) as usize,
                current_player: crate::table::next_seat(st.current_player, count),
                ..st
            },
            Player {
                has_moved: true,
                has_raised: true,
                cash: (p.cash - d) as usize,
                is_all_in: p.is_all_in || p.cash - d == 0,
                current_bet: (st.current_top_bet + 50) as usize,
                ..p
            },
            Some(PlayerAction::NoAction),
            true,
        )
    } else {
        (st, p, used_up(p, act), false)
    }
}

/// What a fold does here: the player has moved and folded, and the turn passes.
pub open spec fn local_fold(st: PokerTurn, p: Player, count: usize, act: Option<PlayerAction>) -> (PokerTurn, Player, Option<PlayerAction>) {
    (
        PokerTurn { current_player: crate::table::next_seat(st.current_player, count), ..st },
        Player { has_moved: true, has_folded: true, ..p },
        used_up(p, act),
    )
}

/// What a call does here: the player pays the difference to the top bet, or all
/// its chips when they do not cover it (going all in), and the turn passes.
pub open spec fn local_call(st: PokerTurn, p: Player, count: usize, act: Option<PlayerAction>) -> (PokerTurn, Player, Option<PlayerAction>) {
    let d = st.current_top_bet - p.current_bet;
    if p.cash >= d {
        (
            PokerTurn { pot: (st.pot + d) as usize, current_player: crate::table::next_seat(st.current_player, count), ..st },
            Player {
                has_moved: true,
                cash: (p.cash - d) as usize,
                is_all_in: p.is_all_in || p.cash - d == 0,
                current_bet: st.current_top_bet,
                ..p
            },
            used_up(p, act),
        )
    } else {
        (
            PokerTurn { pot: (st.pot + p.cash) as usize, current_player: crate::table::next_seat(st.current_player, count), ..st },
            Player { has_moved: true, is_all_in: true, current_bet: (p.cash + p.current_bet) as usize, cash: 0, ..p },
            used_up(p, act),
        )
    }
}

/// A call only moves chips from the player to the pot: what the player pays is
/// what the pot gains and what its bet goes up by, and the top bet stays. When
/// its chips cover the top bet the player pays just the difference, so that its
/// bet comes up to the top bet; otherwise it pays all its chips and is all in.
pub proof fn lemma_call_pays_the_difference(st: PokerTurn, p: Player, count: usize, act: Option<PlayerAction>)
    requires
        p.current_bet <= st.current_top_bet,
        st.pot + p.cash <= usize::MAX,
    ensures
        ({
            let (st2, p2, _) = local_call(st, p, count, act);
            &&& p2.cash <= p.cash
            &&& st2.pot - st.pot == p.cash - p2.cash
            &&& p2.current_bet - p.current_bet == p.cash - p2.cash
            &&& st2.current_top_bet == st.current_top_bet
            &&& p.cash >= st.current_top_bet - p.current_bet ==> p2.current_bet == st.current_top_bet
                && p.cash - p2.cash == st.current_top_bet - p.current_bet
            &&& p.cash < st.current_top_bet - p.current_bet ==> p2.cash == 0 && p2.is_all_in
        }),
{
}

/// A raise goes through exactly when the player's chips cover 50 over the top bet.
/// Then the top bet goes up by 50 and becomes the player's bet, and what the player
/// pays is what its bet goes up by (the difference to the old top bet, plus 50)
/// and what the pot gains; otherwise nothing changes but the pending action.
pub proof fn lemma_raise_pays_up_to_the_new_top(st: PokerTurn, p: Player, count: usize, act: Option<PlayerAction>)
    requires
        p.current_bet <= st.current_top_bet + 50,
        st.current_top_bet + 50 <= usize::MAX,
        st.pot + p.cash <= usize::MAX,
    ensures
        ({
            let (st2, p2, _, raised) = local_raise(st, p, count, act);
            &&& raised == (p.cash >= st.current_top_bet + 50 - p.current_bet)
            &&& raised ==> {
                &&& st2.current_top_bet == st.current_top_bet + 50
                &&& p2.current_bet == st2.current_top_bet
                &&& p2.cash <= p.cash
                &&& p.cash - p2.cash == p2.current_bet - p.current_bet
                &&& p.cash - p2.cash == st.current_top_bet + 50 - p.current_bet
                &&& st2.pot - st.pot == p.cash - p2.cash
            }
            &&& !raised ==> st2 == st && p2 == p
        }),
{
}

/// When every seat still in has moved, the local betting round ends and the phase
/// moves on by one street in the order pre-flop, flop, turn, river, showdown, with
/// every bet cleared; at the showdown, or while some seat still has to move, the
/// phase stays.
pub proof fn lemma_local_round_end_next_street(ps: Seq<Player>, st: PokerTurn)
    ensures
        ({
            let (ps2, st2) = local_round_end(ps, st);
            &&& crate::table::betting_round_done(ps) ==> {
                &&& st.phase == PokerPhase::PreFlop ==> st2.phase == PokerPhase::Flop
                &&& st.phase == PokerPhase::Flop ==> st2.phase == PokerPhase::Turn
                &&& st.phase == PokerPhase::Turn ==> st2.phase == PokerPhase::River
                &&& st.phase == PokerPhase::River ==> st2.phase == PokerPhase::Showdown
                &&& st.phase != PokerPhase::Showdown ==> st2.current_top_bet == 0 && ps2.len() == ps.len()
                    && forall|k: int| 0 <= k < ps2.len() ==> (#[trigger] ps2[k]).current_bet == 0
                    && !ps2[k].has_moved
            }
            &&& st.phase == PokerPhase::Showdown ==> st2.phase == PokerPhase::Showdown
            &&& !crate::table::betting_round_done(ps) ==> st2 == st && ps2 == ps
        }),
{
}

/// A check, refused while any bet stands.
pub fn check_action(state: &mut PokerTurn, player: &mut Player, player_count: &NumPlayers, last_action: &mut LastPlayerAction)
    requires
        player_count.player_count > 0,
        old(state).current_player < usize::MAX,
    ensures
        (*final(state), *final(player), final(last_action).action) == local_check(
            *old(state),
            *old(player),
            player_count.player_count,
            old(last_action).action,
        ),
{
    if state.current_top_bet > 0 {
        if player.player_id == 0 {
            last_action.action = Some(PlayerAction::NoAction);
        }
    } else {
        player.has_moved = true;
        last_action.action = Some(PlayerAction::NoAction);
        state.current_player = (state.current_player + 1) % player_count.player_count;
    }
}

/// A raise by 50 over the top bet; returns whether it went through.
pub fn raise_action(state: &mut PokerTurn, player: &mut Player, player_count: &NumPlayers, last_action: &mut LastPlayerAction) -> (raised: bool)
    requires
        player_count.player_count > 0,
        old(state).current_player < usize::MAX,
        old(player).current_bet <= old(state).current_top_bet + 50,
        old(state).current_top_bet + 50 <= usize::MAX,
        old(state).pot + old(player).cash <= usize::MAX,
    ensures
        (*final(state), *final(player), final(last_action).action, raised) == local_raise(
            *old(state),
            *old(player),
            player_count.player_count,
            old(last_action).action,
        ),
        raised == (old(player).cash >= old(state).current_top_bet + 50 - old(player).current_bet),
        raised ==> final(state).current_top_bet == old(state).current_top_bet + 50
            && final(player).current_bet == final(state).current_top_bet
            && final(player).cash <= old(player).cash
            && old(player).cash - final(player).cash == final(player).current_bet - old(player).current_bet
            && final(state).pot - old(state).pot == old(player).cash - final(player).cash,
        !raised ==> *final(state) == *old(state) && *final(player) == *old(player),
{
    if player.cash >= (state.current_top_bet + 50) - player.current_bet {
        state.pot += (state.current_top_bet + 50) - player.current_bet;
        state.current_top_bet += 50;
        player.has_moved = true;
        player.has_raised = true;
        player.cash -= state.current_top_bet - player.current_bet;
        if player.cash == 0 {
            player.is_all_in = true;
        }
        player.current_bet = state.current_top_bet;
        last_action.action = Some(PlayerAction::NoAction);
        state.current_player = (state.current_player + 1) % player_count.player_count;
        true
    } else {
        if player.player_id == 0 {
            last_action.action = Some(PlayerAction::NoAction);
        }
        false
    }
}

/// A fold.
pub fn fold_action(state: &mut PokerTurn, player: &mut Player, player_count: &NumPlayers, last_action: &mut LastPlayerAction)
    requires
        player_count.player_count > 0,
        old(state).current_player < usize::MAX,
    ensures
        (*final(state), *final(player), final(last_action).action) == local_fold(
            *old(state),
            *old(player),
            player_count.player_count,
            old(last_action).action,
        ),
{
    player.has_moved = true;
    player.has_folded = true;
    if player.player_id == 0 {
        last_action.action = Some(PlayerAction::NoAction);
    }
    state.current_player = (state.current_player + 1) % player_count.player_count;
}

/// A call, going all in when the chips do not cover the top bet.
#[verifier::rlimit(50)]
pub fn call_action(state: &mut PokerTurn, player: &mut Player, player_count: &NumPlayers, last_action: &mut LastPlayerAction)
    requires
        player_count.player_count > 0,
        old(state).current_player < usize::MAX,
        old(player).current_bet <= old(state).current_top_bet,
        old(state).pot + old(player).cash <= usize::MAX,
    ensures
        (*final(state), *final(player), final(last_action).action) == local_call(
            *old(state),
            *old(player),
            player_count.player_count,
            old(last_action).action,
        ),
        final(player).cash <= old(player).cash,
        final(state).pot - old(state).pot == old(player).cash - final(player).cash,
        final(player).current_bet - old(player).current_bet == old(player).cash - final(player).cash,
        final(state).current_top_bet == old(state).current_top_bet,
        old(player).cash >= old(state).current_top_bet - old(player).current_bet ==> final(player).current_bet
            == old(state).current_top_bet,
        old(player).cash < old(state).current_top_bet - old(player).current_bet ==> final(player).cash == 0
            && final(player).is_all_in,
{
    if player.cash >= state.current_top_bet - player.current_bet {
        player.has_moved = true;
        if player.player_id == 0 {
            last_action.action = Some(PlayerAction::NoAction);
        }
        state.pot += state.current_top_bet - player.current_bet;
        player.cash -= state.current_top_bet - player.current_bet;
        if player.cash == 0 {
            player.is_all_in = true;
        }
        player.current_bet = state.current_top_bet;
        state.current_player = (state.current_player + 1) % player_count.player_count;
    } else {
        player.has_moved = true;
        player.is_all_in = true;
        if player.player_id == 0 {
            last_action.action = Some(PlayerAction::NoAction);
        }
        state.pot += player.cash;
        player.current_bet = player.cash + player.current_bet;
        player.cash = 0;
        state.current_player = (state.current_player + 1) % player_count.player_count;
    }
    proof {
        lemma_call_pays_the_difference(*old(state), *old(player), player_count.player_count, old(last_action).action);
    }
}

/// Going through the seats from position `i` on, the first seat of player `cp` that
/// can act takes its turn: a computer's player calls when `ai_calls` and checks
/// otherwise; the human player (player 0) carries out the pending action, if any.
/// A seat of player `cp` that cannot act is marked as moved and the turn passes
/// on (from `cp` for a computer's player). Returns the seats, the state, the
/// pending action, and whether a raise went through.
pub open spec fn local_turn(
    ps: Seq<Player>,
    i: int,
    st: PokerTurn,
    act: Option<PlayerAction>,
    cp: usize,
    count: usize,
    ai_calls: bool,
) -> (Seq<Player>, PokerTurn, Option<PlayerAction>, bool)
    decreases ps.len() - i,
{
    if i >= ps.len() || i < 0 {
        (ps, st, act, false)
    } else if ps[i].player_id != cp {
        local_turn(ps, i + 1, st, act, cp, count, ai_calls)
    } else if crate::table::can_act(ps[i]) {
        if ps[i].player_id != 0 {
            if ai_calls {
                let r = local_call(st, ps[i], count, act);
                (ps.update(i, r.1), r.0, r.2, false)
            } else {
                let r = local_check(st, ps[i], count, act);
                (ps.update(i, r.1), r.0, r.2, false)
            }
        } else {
            match act {
                Some(PlayerAction::Check) => {
                    let r = local_check(st, ps[i], count, act);
                    (ps.update(i, r.1), r.0, r.2, false)
                },
                Some(PlayerAction::Raise) => {
                    let r = local_raise(st, ps[i], count, act);
                    (ps.update(i, r.1), r.0, r.2, r.3)
                },
                Some(PlayerAction::Fold) => {
                    let r = local_fold(st, ps[i], count, act);
                    (ps.update(i, r.1), r.0, r.2, false)
                },
                Some(PlayerAction::Call) => {
                    let r = local_call(st, ps[i], count, act);
                    (ps.update(i, r.1), r.0, r.2, false)
                },
                _ => local_turn(ps, i + 1, st, act, cp, count, ai_calls),
            }
        }
    } else {
        local_turn(
            ps.update(i, Player { has_moved: true, ..ps[i] }),
            i + 1,
            PokerTurn {
                current_player: if ps[i].player_id != 0 {
                    crate::table::next_seat(cp, count)
                } else {
                    crate::table::next_seat(st.current_player, count)
                },
                ..st
            },
            act,
            cp,
            count,
            ai_calls,
        )
    }
}

/// The seats of player `cp` can take their turn: their bets do not exceed the top
/// bet, the pot can take all their chips, and a raise fits.
pub open spec fn local_seats_can_bet(ps: Seq<Player>, st: PokerTurn, cp: usize) -> bool {
    forall|i: int| 0 <= i < ps.len() && (#[trigger] ps[i]).player_id == cp ==> {
        &&& ps[i].current_bet <= st.current_top_bet
        &&& st.pot + ps[i].cash <= usize::MAX
        &&& st.current_top_bet + 50 <= usize::MAX
    }
}

proof fn lemma_local_turn_len(ps: Seq<Player>, i: int, st: PokerTurn, act: Option<PlayerAction>, cp: usize, count: usize, ai_calls: bool)
    ensures
        local_turn(ps, i, st, act, cp, count, ai_calls).0.len() == ps.len(),
    decreases ps.len() - i,
{
    if 0 <= i < ps.len() {
        if ps[i].player_id != cp || crate::table::can_act(ps[i]) {
            lemma_local_turn_len(ps, i + 1, st, act, cp, count, ai_calls);
        } else {
            let st1 = PokerTurn {
                current_player: if ps[i].player_id != 0 {
                    crate::table::next_seat(cp, count)
                } else {
                    crate::table::next_seat(st.current_player, count)
                },
                ..st
            };
            lemma_local_turn_len(ps.update(i, Player { has_moved: true, ..ps[i] }), i + 1, st1, act, cp, count, ai_calls);
        }
    }
}

/// The seats, the state and the pending action after player `cp` takes a turn in
/// the local game; after a raise every other seat has to move again.
pub open spec fn local_player_turn(
    ps: Seq<Player>,
    st: PokerTurn,
    act: Option<PlayerAction>,
    cp: usize,
    count: usize,
    ai_calls: bool,
) -> (Seq<Player>, PokerTurn, Option<PlayerAction>) {
    let r = local_turn(ps, 0, st, act, cp, count, ai_calls);
    (
        if r.3 {
            Seq::new(r.0.len(), |k: int| crate::table::after_raise(r.0[k], cp))
        } else {
            r.0
        },
        r.1,
        r.2,
    )
}

/// Lets player `current_player` take a turn in the local game. For a computer's
/// player, `ai_calls` is the program's draw (a call one time in five).
pub fn process_player_turn(
    current_player: usize,
    state: &mut PokerTurn,
    players: &mut Vec<Player>,
    player_count: &NumPlayers,
    last_action: &mut LastPlayerAction,
    ai_calls: bool,
)
    requires
        player_count.player_count > 0,
        old(state).current_player < usize::MAX,
        current_player < usize::MAX,
        local_seats_can_bet(old(players)@, *old(state), current_player),
    ensures
        final(players)@.len() == old(players)@.len(),
        (final(players)@, *final(state), final(last_action).action) == local_player_turn(
            old(players)@,
            *old(state),
            old(last_action).action,
            current_player,
            player_count.player_count,
            ai_calls,
        ),
{
    let ghost count = player_count.player_count;
    let ghost total = local_turn(old(players)@, 0, *old(state), old(last_action).action, current_player, count, ai_calls);
    let mut player_raised = false;
    let mut i: usize = 0;
    let n = players.len();
    while i < n
        invariant_except_break
            n == players@.len(),
            0 <= i <= n,
            count == player_count.player_count,
            count > 0,
            current_player < usize::MAX,
            state.current_player < usize::MAX,
            local_seats_can_bet(players@, *state, current_player),
            local_turn(players@, i as int, *state, last_action.action, current_player, count, ai_calls) == total,
            !player_raised,
        ensures
            total.0 == players@,
            total.1 == *state,
            total.2 == last_action.action,
            total.3 == player_raised,
        decreases n - i,
    {
        if players[i].player_id == current_player {
            let ghost ps0 = players@;
            let ghost st0 = *state;
            let ghost act0 = last_action.action;
            if players[i].player_id != 0 {
                if !players[i].has_folded && !players[i].is_all_in {
                    if ai_calls {
                        call_action(state, &mut players[i], player_count, last_action);
                        proof {
                            let r = local_call(st0, ps0[i as int], count, act0);
                            assert(players@ =~= ps0.update(i as int, r.1));
                        }
                    } else {
                        check_action(state, &mut players[i], player_count, last_action);
                        proof {
                            let r = local_check(st0, ps0[i as int], count, act0);
                            assert(players@ =~= ps0.update(i as int, r.1));
                        }
                    }
                    break;
                } else {
                    state.current_player = (current_player + 1) % player_count.player_count;
                    players[i].has_moved = true;
                }
            } else {
                if !players[i].has_folded && !players[i].is_all_in {
                    match last_action.action {
                        Some(PlayerAction::Check) => {
                            check_action(state, &mut players[i], player_count, last_action);
                            proof {
                                let r = local_check(st0, ps0[i as int], count, act0);
                                assert(players@ =~= ps0.update(i as int, r.1));
                            }
                            break;
                        },
                        Some(PlayerAction::Raise) => {
                            player_raised = raise_action(state, &mut players[i], player_count, last_action);
                            proof {
                                let r = local_raise(st0, ps0[i as int], count, act0);
                                assert(players@ =~= ps0.update(i as int, r.1));
                            }
                            break;
                        },
                        Some(PlayerAction::Fold) => {
                            fold_action(state, &mut players[i], player_count, last_action);
                            proof {
                                let r = local_fold(st0, ps0[i as int], count, act0);
                                assert(players@ =~= ps0.update(i as int, r.1));
                            }
                            break;
                        },
                        Some(PlayerAction::Call) => {
                            call_action(state, &mut players[i], player_count, last_action);
                            proof {
                                let r = local_call(st0, ps0[i as int], count, act0);
                                assert(players@ =~= ps0.update(i as int, r.1));
                            }
                            break;
                        },
                        _ => {},
                    }
                } else {
                    state.current_player = (state.current_player + 1) % player_count.player_count;
                    players[i].has_moved = true;
                }
            }
        }
        i += 1;
    }
    if player_raised {
        let mut j: usize = 0;
        while j < players.len()
            invariant
                total.3,
                total.0.len() == players@.len(),
                j <= players@.len(),
                forall|k: int| 0 <= k < j ==> #[trigger] players@[k] == crate::table::after_raise(total.0[k], current_player),
                forall|k: int| j <= k < players@.len() ==> #[trigger] players@[k] == total.0[k],
            decreases players@.len() - j,
        {
            if players[j].player_id != current_player {
                players[j].has_moved = false;
            } else {
                players[j].has_raised = false;
            }
            j += 1;
        }
    }
    proof {
        lemma_local_turn_len(old(players)@, 0, *old(state), old(last_action).action, current_player, count, ai_calls);
        if total.3 {
            assert(players@ =~= Seq::new(total.0.len(), |k: int| crate::table::after_raise(total.0[k], current_player)));
        } else {
            assert(players@ =~= total.0);
        }
    }
}

/// The draw of a computer's player: a call one time in five (a number drawn from
/// 0 to 4, calling on 0). Which way it goes is left to chance.
pub fn computer_calls() -> (calls: bool) {
    crate::random::random_in_range(0, 4) == 0
}

/// Lets player `current_player` take a turn in the local game, drawing for a
/// computer's player whether it calls: whatever the draw, the turn goes as
/// `process_player_turn` takes it with that draw.
pub fn take_player_turn(
    current_player: usize,
    state: &mut PokerTurn,
    players: &mut Vec<Player>,
    player_count: &NumPlayers,
    last_action: &mut LastPlayerAction,
)
    requires
        player_count.player_count > 0,
        old(state).current_player < usize::MAX,
        current_player < usize::MAX,
        local_seats_can_bet(old(players)@, *old(state), current_player),
    ensures
        final(players)@.len() == old(players)@.len(),
        exists|ai_calls: bool|
            (final(players)@, *final(state), final(last_action).action) == local_player_turn(
                old(players)@,
                *old(state),
                old(last_action).action,
                current_player,
                player_count.player_count,
                ai_calls,
            ),
{
    let ai_calls = computer_calls();
    process_player_turn(current_player, state, players, player_count, last_action, ai_calls);
}

/// The seats and the state after the end-of-round check of the local game: once
/// every seat that has not folded has moved, the next phase begins with fresh bets
/// (the showdown stays as it is); the player to act does not change.
pub open spec fn local_round_end(ps: Seq<Player>, st: PokerTurn) -> (Seq<Player>, PokerTurn) {
    if crate::table::betting_round_done(ps) && st.phase != PokerPhase::Showdown {
        (
            Seq::new(ps.len(), |k: int| crate::table::reset_for_street(ps[k])),
            PokerTurn { phase: crate::table::next_phase(st.phase), current_top_bet: 0, ..st },
        )
    } else {
        (ps, st)
    }
}

/// Ends the betting round of the local game once every seat that has not folded
/// has moved.
pub fn next_player_turn(state: &mut PokerTurn, players: &mut Vec<Player>, _total_players: usize)
    ensures
        (final(players)@, *final(state)) == local_round_end(old(players)@, *old(state)),
        crate::table::betting_round_done(old(players)@) ==> {
            &&& old(state).phase == PokerPhase::PreFlop ==> final(state).phase == PokerPhase::Flop
            &&& old(state).phase == PokerPhase::Flop ==> final(state).phase == PokerPhase::Turn
            &&& old(state).phase == PokerPhase::Turn ==> final(state).phase == PokerPhase::River
            &&& old(state).phase == PokerPhase::River ==> final(state).phase == PokerPhase::Showdown
            &&& old(state).phase == PokerPhase::Showdown ==> final(state).phase == PokerPhase::Showdown
        },
        !crate::table::betting_round_done(old(players)@) ==> final(state).phase == old(state).phase,
{
    let ghost ps = players@;
    let n = players.len();
    let mut moved: usize = 0;
    let mut active: usize = 0;
    let mut i: usize = 0;
    while i < n
        invariant
            n == players@.len(),
            ps == players@,
            i <= n,
            moved as int == crate::table::count_moved(ps.take(i as int)),
            active as int == crate::table::count_active(ps.take(i as int)),
            moved <= i,
            active <= i,
        decreases n - i,
    {
        proof {
            assert(ps.take(i + 1).drop_last() =~= ps.take(i as int));
            assert(ps.take(i + 1).last() == ps[i as int]);
        }
        if players[i].has_moved && !players[i].has_folded {
            moved += 1;
        }
        if !players[i].has_folded {
            active += 1;
        }
        i += 1;
    }
    proof {
        assert(ps.take(n as int) =~= ps);
    }
    if moved == active && players.len() > 0 && state.phase != PokerPhase::Showdown {
        let mut j: usize = 0;
        while j < n
            invariant
                n == players@.len(),
                n == ps.len(),
                j <= n,
                forall|k: int| 0 <= k < j ==> #[trigger] players@[k] == crate::table::reset_for_street(ps[k]),
                forall|k: int| j <= k < n ==> #[trigger] players@[k] == ps[k],
            decreases n - j,
        {
            players[j].has_moved = false;
            players[j].current_bet = 0;
            players[j].has_raised = false;
            j += 1;
        }
        state.phase = match state.phase {
            PokerPhase::PreFlop => PokerPhase::Flop,
            PokerPhase::Flop => PokerPhase::Turn,
            PokerPhase::Turn => PokerPhase::River,
            _ => PokerPhase::Showdown,
        };
        state.current_top_bet = 0;
        proof {
            assert(players@ =~= Seq::new(ps.len(), |k: int| crate::table::reset_for_street(ps[k])));
        }
    }
}

/// A player's two cards in the local game.
pub struct PlayerCards {
    pub player_id: u8,
    pub cards: Vec<Card>,
}

/// Deals two cards to each of `player_count` players, in order, from the top of
/// the deck.
pub fn deal_hands(player_count: u8, cards: &mut Vec<Card>) -> (result: Vec<PlayerCards>)
    requires
        2 * player_count <= old(cards)@.len(),
    ensures
        result@.len() == player_count,
        forall|k: int| 0 <= k < player_count ==> (#[trigger] result@[k]).player_id == k && result@[k].cards@
            == old(cards)@.subrange(2 * k, 2 * k + 2),
        final(cards)@ == old(cards)@.skip(2 * player_count),
{
    let mut result: Vec<PlayerCards> = Vec::new();
    let mut player_id: u8 = 0;
    while player_id < player_count
        invariant
            2 * player_count <= old(cards)@.len(),
            player_id <= player_count,
            result@.len() == player_id,
            cards@ == old(cards)@.skip(2 * player_id),
            forall|k: int| 0 <= k < player_id ==> (#[trigger] result@[k]).player_id == k && result@[k].cards@
                == old(cards)@.subrange(2 * k, 2 * k + 2),
        decreases player_count - player_id,
    {
        let hand = crate::cards::draw_cards(cards, 2);
        proof {
            assert(hand@ =~= old(cards)@.subrange(2 * player_id, 2 * player_id + 2));
            assert(cards@ =~= old(cards)@.skip(2 * (player_id + 1)));
        }
        result.push(PlayerCards { player_id, cards: hand });
        player_id += 1;
    }
    result
}

/// Deals in the local game, against one computer's player: when no cards have been
/// dealt, the deck is shuffled and two players get two cards each; otherwise, while
/// fewer than five community cards show, the next community cards are dealt (the
/// flop when none show, then one card at a time).
pub fn deal_cards(deck: &mut Deck, player_cards: &mut Vec<PlayerCards>, community_cards: &mut Vec<Card>)
    requires
        old(player_cards)@.len() == 0 ==> old(deck).cards@.len() >= 4,
        old(player_cards)@.len() > 0 && old(community_cards)@.len() == 0 ==> old(deck).cards@.len() >= 3,
        old(player_cards)@.len() > 0 && (old(community_cards)@.len() == 3 || old(community_cards)@.len() == 4)
            ==> old(deck).cards@.len() >= 1,
    ensures
        old(player_cards)@.len() == 0 ==> {
            &&& final(community_cards)@ == old(community_cards)@
            &&& exists|sh: Seq<Card>|
                {
                    &&& #[trigger] sh.to_multiset() == old(deck).cards@.to_multiset()
                    &&& sh.len() == old(deck).cards@.len()
                    &&& final(deck).cards@ == sh.skip(4)
                    &&& final(player_cards)@.len() == 2
                    &&& final(player_cards)@[0].player_id == 0 && final(player_cards)@[0].cards@ == sh.subrange(0, 2)
                    &&& final(player_cards)@[1].player_id == 1 && final(player_cards)@[1].cards@ == sh.subrange(2, 4)
                }
        },
        old(player_cards)@.len() > 0 ==> {
            &&& final(player_cards)@ == old(player_cards)@
            &&& old(community_cards)@.len() == 0 ==> final(community_cards)@ == old(community_cards)@ + old(deck).cards@.take(3)
                && final(deck).cards@ == old(deck).cards@.skip(3)
            &&& (old(community_cards)@.len() == 3 || old(community_cards)@.len() == 4) ==> final(community_cards)@
                == old(community_cards)@ + old(deck).cards@.take(1) && final(deck).cards@ == old(deck).cards@.skip(1)
            &&& !(old(community_cards)@.len() == 0 || old(community_cards)@.len() == 3 || old(community_cards)@.len() == 4)
                ==> final(community_cards)@ == old(community_cards)@ && final(deck).cards@ == old(deck).cards@
        },
{
    if player_cards.len() == 0 {
        crate::random::shuffle_cards(&mut deck.cards);
        let ghost sh = deck.cards@;
        let mut hands = deal_hands(2, &mut deck.cards);
        player_cards.append(&mut hands);
        assert(sh.to_multiset() == old(deck).cards@.to_multiset());
    } else if community_cards.len() < 5 {
        let mut dealt = crate::cards::deal_community_cards(&mut deck.cards, community_cards.len());
        if dealt.len() > 0 {
            let mut street = dealt.remove(0);
            community_cards.append(&mut street);
        }
    }
}

} // verus!
