//! The state of a poker table and the betting actions that change it.
use vstd::prelude::*;
use std::collections::HashMap;
use crate::cards::Card;
use crate::text::parse_dollar_amount;

verus! {

/// The phases of a round.
#[derive(Clone, Copy, PartialEq, Eq, Structural, Debug)]
pub enum PokerPhase {
    PreFlop,
    Flop,
    Turn,
    River,
    Showdown,
}

/// The shared state of a round: whose turn it is, the phase, the pot and the
/// bets, and who holds the blinds.
pub struct PokerTurn {
    pub current_player: usize,
    pub phase: PokerPhase,
    pub round_started: bool,
    pub pot: usize,
    pub current_top_bet: usize,
    pub pot_raised: bool,
    pub bet_made: bool,
    pub small_blind: usize,
    pub big_blind: usize,
    pub small_blind_val: usize,
    pub big_blind_val: usize,
    pub is_first_round: bool,
}

/// How many players the table seats.
pub struct NumPlayers {
    pub player_count: usize,
}

/// An action a player can take; `NoAction` when none is pending.
#[derive(Clone, Copy, PartialEq, Eq, Structural, Debug)]
pub enum PlayerAction {
    Raise,
    Check,
    Fold,
    Call,
    NoAction,
}

/// The action the human player chose and that still waits to be carried out.
pub struct LastPlayerAction {
    pub action: Option<PlayerAction>,
}

/// A seat at the table.
pub struct Player {
    pub player_id: usize,
    pub cards: Vec<Card>,
    pub cash: usize,
    pub current_bet: usize,
    pub has_folded: bool,
    pub has_moved: bool,
    pub is_all_in: bool,
    pub has_raised: bool,
    pub hand_strength: u16,
    pub move_dist: HashMap<u16, Vec<u16>>,
    pub big_blind: bool,
    pub small_blind: bool,
}

/// The winner of a finished game.
pub struct GameResult {
    pub id: usize,
}

/// The seat after `cp` at a table of `count` seats.
pub open spec fn next_seat(cp: usize, count: usize) -> usize {
    ((cp + 1) % (count as int)) as usize
}

/// What a check does: it is refused while the player's bet is below the top bet;
/// otherwise the player has moved and the turn passes on.
pub open spec fn check_result(st: PokerTurn, p: Player, count: usize) -> (PokerTurn, Player) {
    if st.current_top_bet > p.current_bet {
        (st, p)
    } else {
        (
            PokerTurn { current_player: next_seat(st.current_player, count), ..st },
            Player { has_moved: true, ..p },
        )
    }
}

/// What a raise to the top bet does: when the player can pay the difference to the
/// top bet it goes into the pot, the player's bet becomes the top bet, and the turn
/// passes on; otherwise the top bet is set back to `restored` when that is known.
pub open spec fn raise_result(st: PokerTurn, p: Player, count: usize, restored: Option<nat>) -> (PokerTurn, Player, bool) {
    let d = st.current_top_bet - p.current_bet;
    if p.cash >= d {
        (
            PokerTurn { pot: (st.pot + d) as usize, current_player: next_seat(st.current_player, count), ..st },
            Player {
                has_moved: true,
                has_raised: true,
                cash: (p.cash - d) as usize,
                current_bet: st.current_top_bet,
                is_all_in: p.is_all_in || p.cash - d == 0,
                ..p
            },
            true,
        )
    } else {
        (
            match restored {
                Some(n) => PokerTurn { current_top_bet: n as usize, ..st },
                None => st,
            },
            p,
            false,
        )
    }
}

/// What a fold does: the player has moved and folded, and the turn passes on.
pub open spec fn fold_result(st: PokerTurn, p: Player, count: usize) -> (PokerTurn, Player) {
    (
        PokerTurn { current_player: next_seat(st.current_player, count), ..st },
        Player { has_moved: true, has_folded: true, ..p },
    )
}

/// What a call does: the player pays the difference to the top bet, or everything
/// left when that is not enough (going all in), and the turn passes on.
pub open spec fn call_result(st: PokerTurn, p: Player, count: usize) -> (PokerTurn, Player) {
    let d = st.current_top_bet - p.current_bet;
    if p.cash >= d {
        (
            PokerTurn { pot: (st.pot + d) as usize, current_player: next_seat(st.current_player, count), ..st },
            Player {
                has_moved: true,
                cash: (p.cash - d) as usize,
                current_bet: st.current_top_bet,
                is_all_in: p.is_all_in || p.cash - d == 0,
                ..p
            },
        )
    } else {
        (
            PokerTurn { pot: (st.pot + p.cash) as usize, current_player: next_seat(st.current_player, count), ..st },
            Player {
                has_moved: true,
                is_all_in: true,
                current_bet: (p.current_bet + p.cash) as usize,
                cash: 0,
                ..p
            },
        )
    }
}

/// A call only moves chips from the player to the pot: what the player pays is
/// what the pot gains and what its bet goes up by, and the top bet stays. When its
/// chips cover the top bet the player pays just the difference, so that its bet
/// comes up to the top bet; otherwise it pays all its chips and is all in.
pub proof fn lemma_call_pays_the_difference(st: PokerTurn, p: Player, count: usize)
    requires
        p.current_bet <= st.current_top_bet,
        st.pot + p.cash <= usize::MAX,
    ensures
        ({
            let (st2, p2) = call_result(st, p, count);
            &&& p2.cash <= p.cash
            &&& st2.pot - st.pot == p.cash - p2.cash
            &&& p2.current_bet - p.current_bet == p.cash - p2.cash
            &&& st2.current_top_bet == st.current_top_bet
            &&& p.cash >= st.current_top_bet - p.current_bet ==> p2.current_bet == st.current_top_bet
                && p.cash - p2.cash == st.current_top_bet - p.current_bet
            &&& p.cash < st.current_top_bet - p.current_bet ==> p2.cash == 0 && p2.is_all_in
        }),
{
}

/// A raise (the top bet already raised) goes through exactly when the player's
/// chips cover the difference to the top bet; then the player pays that difference
/// into the pot and its bet becomes the top bet. Otherwise the player and the pot
/// stay, and the top bet goes back to the amount shown, when it can be read.
pub proof fn lemma_raise_pays_up_to_the_top(st: PokerTurn, p: Player, count: usize, restored: Option<nat>)
    requires
        p.current_bet <= st.current_top_bet,
        st.pot + p.cash <= usize::MAX,
    ensures
        ({
            let (st2, p2, raised) = raise_result(st, p, count, restored);
            &&& raised == (p.cash >= st.current_top_bet - p.current_bet)
            &&& raised ==> {
                &&& p2.current_bet == st.current_top_bet
                &&& st2.current_top_bet == st.current_top_bet
                &&& p2.cash <= p.cash
                &&& p.cash - p2.cash == p2.current_bet - p.current_bet
                &&& st2.pot - st.pot == p.cash - p2.cash
            }
            &&& !raised ==> p2 == p && st2.pot == st.pot && st2.current_top_bet == match restored {
                Some(n) => n as usize,
                None => st.current_top_bet,
            }
        }),
{
}

/// A check: refused (the state stays) while the player's bet is below the top bet.
pub fn check_action(state: &mut PokerTurn, player: &mut Player, player_count: &NumPlayers, last_action: &mut LastPlayerAction)
    requires
        player_count.player_count > 0,
        old(state).current_player < usize::MAX,
    ensures
        (*final(state), *final(player)) == check_result(*old(state), *old(player), player_count.player_count),
        final(last_action).action == Some(PlayerAction::NoAction),
        final(state).pot + final(player).cash == old(state).pot + old(player).cash,
{
    if state.current_top_bet > player.current_bet {
        last_action.action = Some(PlayerAction::NoAction);
    } else {
        player.has_moved = true;
        last_action.action = Some(PlayerAction::NoAction);
        state.current_player = (state.current_player + 1) % player_count.player_count;
    }
}

/// A raise: the top bet has already been raised by the amount the player chose, and
/// the player pays up to it. When the player cannot pay, the top bet is set back to
/// the amount shown in `top_bet_text` (the line that shows the current top bet),
/// when that line can be read. Returns whether the raise went through.
pub fn raise_action(
    state: &mut PokerTurn,
    player: &mut Player,
    player_count: &NumPlayers,
    last_action: &mut LastPlayerAction,
    top_bet_text: &str,
) -> (raised: bool)
    requires
        player_count.player_count > 0,
        old(state).current_player < usize::MAX,
        old(player).current_bet <= old(state).current_top_bet,
        old(state).pot + old(player).cash <= usize::MAX,
    ensures
        (*final(state), *final(player), raised) == raise_result(
            *old(state),
            *old(player),
            player_count.player_count,
            crate::text::dollar_amount(top_bet_text@),
        ),
        final(last_action).action == Some(PlayerAction::NoAction),
        final(state).pot + final(player).cash == old(state).pot + old(player).cash,
        raised == (old(player).cash >= old(state).current_top_bet - old(player).current_bet),
        raised ==> final(player).current_bet == old(state).current_top_bet
            && final(state).current_top_bet == old(state).current_top_bet
            && final(player).cash <= old(player).cash
            && old(player).cash - final(player).cash == final(player).current_bet - old(player).current_bet,
        !raised ==> *final(player) == *old(player) && final(state).pot == old(state).pot,
{
    if player.cash >= state.current_top_bet - player.current_bet {
        state.pot += state.current_top_bet - player.current_bet;
        player.has_moved = true;
        player.has_raised = true;
        player.cash -= state.current_top_bet - player.current_bet;
        player.current_bet = state.current_top_bet;
        if player.cash == 0 {
            player.is_all_in = true;
        }
        last_action.action = Some(PlayerAction::NoAction);
        state.current_player = (state.current_player + 1) % player_count.player_count;
        true
    } else {
        match parse_dollar_amount(top_bet_text) {
            Some(num) => {
                state.current_top_bet = num;
            },
            None => {},
        }
        last_action.action = Some(PlayerAction::NoAction);
        false
    }
}

/// A fold: the player is out of the round and the turn passes on.
pub fn fold_action(state: &mut PokerTurn, player: &mut Player, player_count: &NumPlayers, last_action: &mut LastPlayerAction)
    requires
        player_count.player_count > 0,
        old(state).current_player < usize::MAX,
    ensures
        (*final(state), *final(player)) == fold_result(*old(state), *old(player), player_count.player_count),
        final(last_action).action == Some(PlayerAction::NoAction),
        final(state).pot + final(player).cash == old(state).pot + old(player).cash,
{
    player.has_moved = true;
    player.has_folded = true;
    last_action.action = Some(PlayerAction::NoAction);
    state.current_player = (state.current_player + 1) % player_count.player_count;
}

/// A call: the player matches the top bet, or goes all in when short.
#[verifier::rlimit(40)]
pub fn call_action(state: &mut PokerTurn, player: &mut Player, player_count: &NumPlayers, last_action: &mut LastPlayerAction)
    requires
        player_count.player_count > 0,
        old(state).current_player < usize::MAX,
        old(player).current_bet <= old(state).current_top_bet,
        old(state).pot + old(player).cash <= usize::MAX,
    ensures
        (*final(state), *final(player)) == call_result(*old(state), *old(player), player_count.player_count),
        final(last_action).action == Some(PlayerAction::NoAction),
        final(state).pot + final(player).cash == old(state).pot + old(player).cash,
        final(player).cash <= old(player).cash,
        final(player).current_bet - old(player).current_bet == old(player).cash - final(player).cash,
        final(state).current_top_bet == old(state).current_top_bet,
        old(player).cash >= old(state).current_top_bet - old(player).current_bet ==> final(player).current_bet
            == old(state).current_top_bet,
        old(player).cash < old(state).current_top_bet - old(player).current_bet ==> final(player).cash == 0
            && final(player).is_all_in,
{
    if player.cash >= state.current_top_bet - player.current_bet {
        player.has_moved = true;
        last_action.action = Some(PlayerAction::NoAction);
        state.pot += state.current_top_bet - player.current_bet;
        player.cash -= state.current_top_bet - player.current_bet;
        if player.cash == 0 {
            player.is_all_in = true;
        }
        player.current_bet = state.current_top_bet;
        state.current_player = (state.current_player + 1) % player_count.player_count;
    } else {
        player.has_moved = true;
        player.is_all_in = true;
        last_action.action = Some(PlayerAction::NoAction);
        state.pot += player.cash;
        player.current_bet += player.cash;
        player.cash = 0;
        state.current_player = (state.current_player + 1) % player_count.player_count;
    }
}


/// The player has not folded and still has chips to bet with.
pub open spec fn can_act(p: Player) -> bool {
    !p.has_folded && !p.is_all_in
}

/// Going through the seats from position `i` on, the first seat of player `cp` that
/// can act carries out the chosen action; a seat of player `cp` that cannot act is
/// marked as moved and the turn passes on. Returns the seats, the state, the
/// pending action afterwards, and whether a raise went through.
pub open spec fn turn_result(
    ps: Seq<Player>,
    i: int,
    st: PokerTurn,
    act: Option<PlayerAction>,
    cp: usize,
    count: usize,
    restored: Option<nat>,
) -> (Seq<Player>, PokerTurn, Option<PlayerAction>, bool)
    decreases ps.len() - i,
{
    if i >= ps.len() || i < 0 {
        (ps, st, act, false)
    } else if ps[i].player_id != cp {
        turn_result(ps, i + 1, st, act, cp, count, restored)
    } else if can_act(ps[i]) {
        match act {
            Some(PlayerAction::Check) => {
                let r = check_result(st, ps[i], count);
                (ps.update(i, r.1), r.0, Some(PlayerAction::NoAction), false)
            },
            Some(PlayerAction::Raise) => {
                let r = raise_result(st, ps[i], count, restored);
                (ps.update(i, r.1), r.0, Some(PlayerAction::NoAction), r.2)
            },
            Some(PlayerAction::Fold) => {
                let r = fold_result(st, ps[i], count);
                (ps.update(i, r.1), r.0, Some(PlayerAction::NoAction), false)
            },
            Some(PlayerAction::Call) => {
                let r = call_result(st, ps[i], count);
                (ps.update(i, r.1), r.0, Some(PlayerAction::NoAction), false)
            },
            _ => turn_result(ps, i + 1, st, act, cp, count, restored),
        }
    } else {
        turn_result(
            ps.update(i, Player { has_moved: true, ..ps[i] }),
            i + 1,
            PokerTurn { current_player: next_seat(st.current_player, count), ..st },
            act,
            cp,
            count,
            restored,
        )
    }
}

/// After a raise, every other seat has to move again and the raiser's raise mark
/// is cleared.
pub open spec fn after_raise(p: Player, cp: usize) -> Player {
    if p.player_id != cp {
        Player { has_moved: false, ..p }
    } else {
        Player { has_raised: false, ..p }
    }
}

/// The seats of player `cp` can carry out a bet: their bet does not exceed the top
/// bet and the pot can take all their chips.
pub open spec fn seats_can_bet(ps: Seq<Player>, st: PokerTurn, cp: usize) -> bool {
    forall|i: int| 0 <= i < ps.len() && (#[trigger] ps[i]).player_id == cp ==> ps[i].current_bet
        <= st.current_top_bet && st.pot + ps[i].cash <= usize::MAX
}

/// Taking a turn keeps the number of seats.
pub proof fn lemma_turn_result_len(ps: Seq<Player>, i: int, st: PokerTurn, act: Option<PlayerAction>, cp: usize, count: usize, restored: Option<nat>)
    ensures
        turn_result(ps, i, st, act, cp, count, restored).0.len() == ps.len(),
    decreases ps.len() - i,
{
    if 0 <= i < ps.len() {
        if ps[i].player_id != cp {
            lemma_turn_result_len(ps, i + 1, st, act, cp, count, restored);
        } else if can_act(ps[i]) {
            lemma_turn_result_len(ps, i + 1, st, act, cp, count, restored);
        } else {
            lemma_turn_result_len(ps.update(i, Player { has_moved: true, ..ps[i] }), i + 1, PokerTurn { current_player: next_seat(st.current_player, count), ..st }, act, cp, count, restored);
        }
    }
}

/// The seats, the state and the pending action after player `cp` takes a turn
/// (see `turn_result`); after a raise every other seat has to move again.
pub open spec fn player_turn(
    ps: Seq<Player>,
    st: PokerTurn,
    act: Option<PlayerAction>,
    cp: usize,
    count: usize,
    restored: Option<nat>,
) -> (Seq<Player>, PokerTurn, Option<PlayerAction>) {
    let r = turn_result(ps, 0, st, act, cp, count, restored);
    (
        if r.3 {
            Seq::new(r.0.len(), |k: int| after_raise(r.0[k], cp))
        } else {
            r.0
        },
        r.1,
        r.2,
    )
}

/// Lets the player whose turn it is act: the human player's chosen action is
/// carried out on the first seat of that player that can act, and a seat that
/// cannot act passes the turn on. After a raise every other seat has to move again.
pub fn process_player_turn(
    current_player: usize,
    state: &mut PokerTurn,
    players: &mut Vec<Player>,
    player_count: &NumPlayers,
    last_action: &mut LastPlayerAction,
    top_bet_text: &str,
)
    requires
        player_count.player_count > 0,
        old(state).current_player < usize::MAX,
        seats_can_bet(old(players)@, *old(state), current_player),
    ensures
        final(players)@.len() == old(players)@.len(),
        (final(players)@, *final(state), final(last_action).action) == player_turn(
            old(players)@,
            *old(state),
            old(last_action).action,
            current_player,
            player_count.player_count,
            crate::text::dollar_amount(top_bet_text@),
        ),
{
    let ghost restored = crate::text::dollar_amount(top_bet_text@);
    let ghost count = player_count.player_count;
    let ghost total = turn_result(old(players)@, 0, *old(state), old(last_action).action, current_player, count, restored);
    let mut player_raised = false;
    let mut i: usize = 0;
    let n = players.len();
    while i < n
        invariant_except_break
            n == players@.len(),
            0 <= i <= n,
            count == player_count.player_count,
            restored == crate::text::dollar_amount(top_bet_text@),
            count > 0,
            state.current_player < usize::MAX,
            seats_can_bet(players@, *state, current_player),
            turn_result(players@, i as int, *state, last_action.action, current_player, count, restored) == total,
            !player_raised,
        ensures
            total.0.len() == players@.len(),
            total.0 == players@,
            total.1 == *state,
            total.2 == last_action.action,
            total.3 == player_raised,
        decreases n - i,
    {
        if players[i].player_id == current_player {
            if !players[i].has_folded && !players[i].is_all_in {
                let ghost ps0 = players@;
                let ghost st0 = *state;
                proof {
                    assert(can_act(ps0[i as int]));
                    assert(ps0[i as int].player_id == current_player);
                }
                match last_action.action {
                    Some(PlayerAction::Check) => {
                        check_action(state, &mut players[i], player_count, last_action);
                        proof {
                            let r = check_result(st0, ps0[i as int], count);
                            assert(total == (ps0.update(i as int, r.1), r.0, Some(PlayerAction::NoAction), false));
                            assert(players@ =~= ps0.update(i as int, r.1));
                        }
                        break;
                    },
                    Some(PlayerAction::Raise) => {
                        player_raised = raise_action(state, &mut players[i], player_count, last_action, top_bet_text);
                        proof {
                            let r = raise_result(st0, ps0[i as int], count, restored);
                            assert(total == (ps0.update(i as int, r.1), r.0, Some(PlayerAction::NoAction), r.2));
                            assert(players@ =~= ps0.update(i as int, r.1));

                        }
                        break;
                    },
                    Some(PlayerAction::Fold) => {
                        fold_action(state, &mut players[i], player_count, last_action);
                        proof {
                            let r = fold_result(st0, ps0[i as int], count);
                            assert(total == (ps0.update(i as int, r.1), r.0, Some(PlayerAction::NoAction), false));
                            assert(players@ =~= ps0.update(i as int, r.1));
                        }
                        break;
                    },
                    Some(PlayerAction::Call) => {
                        call_action(state, &mut players[i], player_count, last_action);
                        proof {
                            let r = call_result(st0, ps0[i as int], count);
                            assert(total == (ps0.update(i as int, r.1), r.0, Some(PlayerAction::NoAction), false));
                            assert(players@ =~= ps0.update(i as int, r.1));
                        }
                        break;
                    },
                    _ => {},
                }
            } else {
                state.current_player = (state.current_player + 1) % player_count.player_count;
                players[i].has_moved = true;
            }
        }
        i += 1;
    }
    if player_raised {
        let mut j: usize = 0;
        while j < players.len()
            invariant
                total.3,
                total.0.len() == players@.len(),
                j <= players@.len(),
                forall|k: int| 0 <= k < j ==> #[trigger] players@[k] == after_raise(total.0[k], current_player),
                forall|k: int| j <= k < players@.len() ==> #[trigger] players@[k] == total.0[k],
            decreases players@.len() - j,
        {
            if players[j].player_id != current_player {
                players[j].has_moved = false;
            } else {
                players[j].has_raised = false;
            }
            j += 1;
        }
    }
    proof {
        lemma_turn_result_len(old(players)@, 0, *old(state), old(last_action).action, current_player, count, restored);
        if total.3 {
            assert(players@ =~= Seq::new(total.0.len(), |k: int| after_raise(total.0[k], current_player)));
        } else {
            assert(players@ =~= total.0);
        }
    }
}

/// How many seats have moved in this betting round without folding.
pub open spec fn count_moved(ps: Seq<Player>) -> int
    decreases ps.len(),
{
    if ps.len() == 0 {
        0
    } else {
        count_moved(ps.drop_last()) + if ps.last().has_moved && !ps.last().has_folded {
            1int
        } else {
            0int
        }
    }
}

/// How many seats have not folded.
pub open spec fn count_active(ps: Seq<Player>) -> int
    decreases ps.len(),
{
    if ps.len() == 0 {
        0
    } else {
        count_active(ps.drop_last()) + if !ps.last().has_folded {
            1int
        } else {
            0int
        }
    }
}

/// How many seats have no chips left.
pub open spec fn count_broke(ps: Seq<Player>) -> int
    decreases ps.len(),
{
    if ps.len() == 0 {
        0
    } else {
        count_broke(ps.drop_last()) + if ps.last().cash == 0 {
            1int
        } else {
            0int
        }
    }
}

/// The phase that follows `ph`; the showdown stays.
pub open spec fn next_phase(ph: PokerPhase) -> PokerPhase {
    match ph {
        PokerPhase::PreFlop => PokerPhase::Flop,
        PokerPhase::Flop => PokerPhase::Turn,
        PokerPhase::Turn => PokerPhase::River,
        PokerPhase::River => PokerPhase::Showdown,
        PokerPhase::Showdown => PokerPhase::Showdown,
    }
}

/// A seat as it starts a new betting round.
pub open spec fn reset_for_street(p: Player) -> Player {
    Player { has_moved: false, current_bet: 0, has_raised: false, ..p }
}

/// Every seat that has not folded has moved, and there are seats.
pub open spec fn betting_round_done(ps: Seq<Player>) -> bool {
    count_moved(ps) == count_active(ps) && ps.len() > 0
}

proof fn lemma_count_step(ps: Seq<Player>, i: int)
    requires
        0 <= i < ps.len(),
    ensures
        ps.take(i + 1).drop_last() == ps.take(i),
        ps.take(i + 1).last() == ps[i],
{
    assert(ps.take(i + 1).drop_last() =~= ps.take(i));
}

/// Each of the seat counts lies between zero and the number of seats.
pub proof fn lemma_count_bounds(ps: Seq<Player>)
    ensures
        0 <= count_moved(ps) <= ps.len(),
        0 <= count_active(ps) <= ps.len(),
        0 <= count_broke(ps) <= ps.len(),
    decreases ps.len(),
{
    if ps.len() > 0 {
        lemma_count_bounds(ps.drop_last());
    }
}

/// The seats and the state after the end-of-round check: once every seat that has
/// not folded has moved, the next phase begins with fresh bets (the showdown stays
/// as it is) and the small blind opens, or the big blind when exactly two seats
/// still have chips; otherwise nothing changes.
pub open spec fn round_end(ps: Seq<Player>, st: PokerTurn, total_players: usize) -> (Seq<Player>, PokerTurn) {
    if betting_round_done(ps) {
        (
            if st.phase == PokerPhase::Showdown {
                ps
            } else {
                Seq::new(ps.len(), |k: int| reset_for_street(ps[k]))
            },
            PokerTurn {
                phase: next_phase(st.phase),
                current_top_bet: if st.phase == PokerPhase::Showdown {
                    st.current_top_bet
                } else {
                    0
                },
                current_player: if total_players - count_broke(ps) == 2 {
                    st.big_blind
                } else {
                    st.small_blind
                },
                ..st
            },
        )
    } else {
        (ps, st)
    }
}

/// When every seat still in has moved, the betting round ends and the phase moves
/// on by one street in the order pre-flop, flop, turn, river, showdown (the showdown
/// stays), with every bet cleared before a new street; while some seat still has to
/// move, nothing changes.
pub proof fn lemma_round_end_next_street(ps: Seq<Player>, st: PokerTurn, total_players: usize)
    ensures
        ({
            let (ps2, st2) = round_end(ps, st, total_players);
            &&& betting_round_done(ps) ==> {
                &&& st.phase == PokerPhase::PreFlop ==> st2.phase == PokerPhase::Flop
                &&& st.phase == PokerPhase::Flop ==> st2.phase == PokerPhase::Turn
                &&& st.phase == PokerPhase::Turn ==> st2.phase == PokerPhase::River
                &&& st.phase == PokerPhase::River ==> st2.phase == PokerPhase::Showdown
                &&& st.phase == PokerPhase::Showdown ==> st2.phase == PokerPhase::Showdown
                &&& st.phase != PokerPhase::Showdown ==> st2.current_top_bet == 0 && ps2.len() == ps.len()
                    && forall|k: int| 0 <= k < ps2.len() ==> (#[trigger] ps2[k]).current_bet == 0
                    && !ps2[k].has_moved
            }
            &&& !betting_round_done(ps) ==> st2 == st && ps2 == ps
        }),
{
}

/// Ends the betting round once every seat that has not folded has moved: the next
/// phase begins with fresh bets (the showdown stays as it is), and the small blind
/// opens, or the big blind when exactly two seats still have chips.
pub fn next_player_turn(state: &mut PokerTurn, players: &mut Vec<Player>, total_players: usize)
    requires
        count_broke(old(players)@) <= total_players,
    ensures
        (final(players)@, *final(state)) == round_end(old(players)@, *old(state), total_players),
        betting_round_done(old(players)@) ==> {
            &&& old(state).phase == PokerPhase::PreFlop ==> final(state).phase == PokerPhase::Flop
            &&& old(state).phase == PokerPhase::Flop ==> final(state).phase == PokerPhase::Turn
            &&& old(state).phase == PokerPhase::Turn ==> final(state).phase == PokerPhase::River
            &&& old(state).phase == PokerPhase::River ==> final(state).phase == PokerPhase::Showdown
            &&& old(state).phase == PokerPhase::Showdown ==> final(state).phase == PokerPhase::Showdown
        },
        !betting_round_done(old(players)@) ==> final(state).phase == old(state).phase,
{
    let ghost ps = players@;
    let n = players.len();
    let mut players_moved_count: usize = 0;
    let mut active_players_count: usize = 0;
    let mut players_no_cash: usize = 0;
    let mut i: usize = 0;
    while i < n
        invariant
            n == players@.len(),
            ps == players@,
            i <= n,
            players_moved_count as int == count_moved(ps.take(i as int)),
            active_players_count as int == count_active(ps.take(i as int)),
            players_no_cash as int == count_broke(ps.take(i as int)),
            players_moved_count <= i,
            active_players_count <= i,
            players_no_cash <= i,
        decreases n - i,
    {
        proof {
            lemma_count_step(ps, i as int);
        }
        if players[i].has_moved && !players[i].has_folded {
            players_moved_count += 1;
        }
        if !players[i].has_folded {
            active_players_count += 1;
        }
        if players[i].cash == 0 {
            players_no_cash += 1;
        }
        i += 1;
    }
    proof {
        assert(ps.take(n as int) =~= ps);
    }
    if players_moved_count == active_players_count && players.len() > 0 {
        if state.phase != PokerPhase::Showdown {
            let mut j: usize = 0;
            while j < n
                invariant
                    n == players@.len(),
                    n == ps.len(),
                    j <= n,
                    forall|k: int| 0 <= k < j ==> #[trigger] players@[k] == reset_for_street(ps[k]),
                    forall|k: int| j <= k < n ==> #[trigger] players@[k] == ps[k],
                decreases n - j,
            {
                players[j].has_moved = false;
                players[j].current_bet = 0;
                players[j].has_raised = false;
                j += 1;
            }
            state.current_top_bet = 0;
        }
        state.phase = match state.phase {
            PokerPhase::PreFlop => PokerPhase::Flop,
            PokerPhase::Flop => PokerPhase::Turn,
            PokerPhase::Turn => PokerPhase::River,
            PokerPhase::River => PokerPhase::Showdown,
            PokerPhase::Showdown => PokerPhase::Showdown,
        };
        if total_players - players_no_cash == 2 {
            state.current_player = state.big_blind;
        } else {
            state.current_player = state.small_blind;
        }
        proof {
            if old(state).phase != PokerPhase::Showdown {
                assert(players@ =~= Seq::new(ps.len(), |k: int| reset_for_street(ps[k])));
            }
        }
    }
}
} // verus!
