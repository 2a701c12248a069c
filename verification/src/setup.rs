//! Setting up a game: the options screen, the table at the start of a game, the
//! buttons that choose the human player's action, and the game-over screen.
use vstd::prelude::*;
use crate::cards::Deck;
use crate::table::{GameResult, LastPlayerAction, NumPlayers, Player, PlayerAction, PokerPhase, PokerTurn};

verus! {

/// What the options screen chose.
pub struct OptionsResult {
    pub money_per_player: usize,
    pub small_blind_amount: usize,
    pub big_blind_amount: usize,
    pub num_players: usize,
    pub is_loaded_game: bool,
}

/// A key pressed in a text box of the options screen.
pub enum KeyPress {
    /// The return key, pressed or released.
    Return(bool),
    /// The backspace key.
    Back,
    Other,
}

/// The characters a text box takes: the decimal digits.
pub open spec fn box_char(c: char) -> bool {
    '0' <= c <= '9'
}

/// The characters of `typed` that a text box takes, in order.
pub open spec fn digits_of(typed: Seq<char>) -> Seq<char>
    decreases typed.len(),
{
    if typed.len() == 0 {
        typed
    } else if box_char(typed.last()) {
        digits_of(typed.drop_last()).push(typed.last())
    } else {
        digits_of(typed.drop_last())
    }
}

/// The text after the keys `keys`: each backspace takes off the last character,
/// until the return key is pressed down.
pub open spec fn after_keys(text: Seq<char>, keys: Seq<KeyPress>) -> Seq<char>
    decreases keys.len(),
{
    if keys.len() == 0 {
        text
    } else {
        match keys[0] {
            KeyPress::Return(true) => text,
            KeyPress::Back => after_keys(if text.len() > 0 { text.drop_last() } else { text }, keys.drop_first()),
            _ => after_keys(text, keys.drop_first()),
        }
    }
}

/// Edits the text of the active text box: the digits typed are added (every other
/// character is dropped), then the keys are taken in order, a backspace taking off
/// the last character, until the return key is pressed down.
pub fn handle_keyboard(text: &mut Vec<char>, typed: &Vec<char>, keys: &Vec<KeyPress>)
    ensures
        final(text)@ == after_keys(old(text)@ + digits_of(typed@), keys@),
{
    let ghost t0 = text@;
    let mut i: usize = 0;
    while i < typed.len()
        invariant
            i <= typed@.len(),
            text@ == t0 + digits_of(typed@.take(i as int)),
        decreases typed@.len() - i,
    {
        proof {
            assert(typed@.take(i + 1).drop_last() =~= typed@.take(i as int));
            assert(typed@.take(i + 1).last() == typed@[i as int]);
        }
        let c = typed[i];
        if '0' <= c && c <= '9' {
            text.push(c);
        }
        i += 1;
        proof {
            assert(text@ =~= t0 + digits_of(typed@.take(i as int)));
        }
    }
    proof {
        assert(typed@.take(typed@.len() as int) =~= typed@);
    }
    let ghost t1 = text@;
    proof {
        assert(keys@.skip(0) =~= keys@);
    }
    let mut j: usize = 0;
    while j < keys.len()
        invariant
            j <= keys@.len(),
            t1 == old(text)@ + digits_of(typed@),
            after_keys(t1, keys@) == after_keys(text@, keys@.skip(j as int)),
        decreases keys@.len() - j,
    {
        proof {
            assert(keys@.skip(j as int).drop_first() =~= keys@.skip(j + 1));
            assert(keys@.skip(j as int)[0] == keys@[j as int]);
        }
        match keys[j] {
            KeyPress::Return(pressed) => {
                if pressed {
                    return;
                }
            },
            KeyPress::Back => {
                text.pop();
            },
            KeyPress::Other => {},
        }
        j += 1;
    }
    proof {
        assert(keys@.skip(j as int) =~= Seq::<KeyPress>::empty());
    }
}

/// A text box edited by typing and keys holds only digits when it did before.
pub proof fn lemma_keyboard_keeps_digits(text: Seq<char>, typed: Seq<char>, keys: Seq<KeyPress>)
    requires
        forall|i: int| 0 <= i < text.len() ==> box_char(#[trigger] text[i]),
    ensures
        forall|i: int|
            0 <= i < after_keys(text + digits_of(typed), keys).len() ==> box_char(
                #[trigger] after_keys(text + digits_of(typed), keys)[i],
            ),
{
    lemma_digits_of_digits(typed);
    let t = text + digits_of(typed);
    assert forall|i: int| 0 <= i < t.len() implies box_char(#[trigger] t[i]) by {
        if i >= text.len() {
            assert(t[i] == digits_of(typed)[i - text.len()]);
        }
    }
    lemma_after_keys_prefix(t, keys);
}

/// What `digits_of` keeps is digits.
proof fn lemma_digits_of_digits(typed: Seq<char>)
    ensures
        forall|i: int| 0 <= i < digits_of(typed).len() ==> box_char(#[trigger] digits_of(typed)[i]),
    decreases typed.len(),
{
    if typed.len() > 0 {
        let before = digits_of(typed.drop_last());
        lemma_digits_of_digits(typed.drop_last());
        assert forall|i: int| 0 <= i < digits_of(typed).len() implies box_char(#[trigger] digits_of(typed)[i]) by {
            if box_char(typed.last()) && i == before.len() {
                assert(digits_of(typed)[i] == typed.last());
            } else {
                assert(digits_of(typed)[i] == before[i]);
            }
        }
    }
}

/// The keys only take characters off the end: the text after them is a prefix of
/// the text before.
proof fn lemma_after_keys_prefix(text: Seq<char>, keys: Seq<KeyPress>)
    ensures
        after_keys(text, keys).len() <= text.len(),
        forall|i: int| 0 <= i < after_keys(text, keys).len() ==> #[trigger] after_keys(text, keys)[i] == text[i],
    decreases keys.len(),
{
    if keys.len() > 0 {
        match keys[0] {
            KeyPress::Return(true) => {},
            KeyPress::Back => {
                let t2 = if text.len() > 0 { text.drop_last() } else { text };
                lemma_after_keys_prefix(t2, keys.drop_first());
            },
            _ => {
                lemma_after_keys_prefix(text, keys.drop_first());
            },
        }
    }
}

/// The options after the text box `id` reads `text`: an empty box changes nothing;
/// box 1 sets the small blind, 2 the big blind, 3 the money per player and 4 the
/// number of players, which must be from 2 to 6 (another number changes nothing);
/// other boxes change nothing.
pub open spec fn option_set(o: OptionsResult, id: u32, value: usize) -> OptionsResult {
    if id == 1 {
        OptionsResult { small_blind_amount: value, ..o }
    } else if id == 2 {
        OptionsResult { big_blind_amount: value, ..o }
    } else if id == 3 {
        OptionsResult { money_per_player: value, ..o }
    } else if id == 4 && 2 <= value <= 6 {
        OptionsResult { num_players: value, ..o }
    } else {
        o
    }
}

/// Takes the number in the text box `id` into the options. A box that is not empty
/// holds a number (its keys only take digits), which must fit a `usize`.
pub fn apply_option(results: &mut OptionsResult, id: u32, text: &str)
    requires
        text@.len() > 0 ==> crate::text::parse_usize(text@) is Some,
    ensures
        text@.len() == 0 ==> *final(results) == *old(results),
        text@.len() > 0 ==> *final(results) == option_set(
            *old(results),
            id,
            crate::text::parse_usize(text@)->0 as usize,
        ),
{
    let v = crate::text::chars_of(text);
    if v.len() == 0 {
        return;
    }
    proof {
        assert(v@.subrange(0, v@.len() as int) =~= text@);
    }
    let value = match crate::text::parse_range(&v, 0, v.len()) {
        Some(n) => n,
        None => 0,
    };
    if id == 1 {
        results.small_blind_amount = value;
    } else if id == 2 {
        results.big_blind_amount = value;
    } else if id == 3 {
        results.money_per_player = value;
    } else if id == 4 && 2 <= value && value <= 6 {
        results.num_players = value;
    }
}

/// Sets up the table for a new game with the chosen options: a fresh deck, the
/// blinds' amounts, the number of players, the small blind at seat 1 and the big
/// blind at the seat after it.
pub fn load_game(options: &OptionsResult, state: &mut PokerTurn, player_num: &mut NumPlayers, deck: &mut Deck)
    requires
        options.num_players > 0,
    ensures
        final(deck).cards@.len() == 52,
        forall|i: int| 0 <= i < 52 ==> #[trigger] final(deck).cards@[i] == crate::cards::standard_card(i),
        final(player_num).player_count == options.num_players,
        *final(state) == (PokerTurn {
            small_blind_val: options.small_blind_amount,
            big_blind_val: options.big_blind_amount,
            small_blind: 1,
            big_blind: (2int % (options.num_players as int)) as usize,
            ..*old(state)
        }),
{
    deck.cards = crate::cards::init_cards();
    state.small_blind_val = options.small_blind_amount;
    state.big_blind_val = options.big_blind_amount;
    player_num.player_count = options.num_players;
    state.small_blind = 1;
    state.big_blind = (state.small_blind + 1) % options.num_players;
}

/// Resets the round when the game screen closes: player 1 to act before the flop,
/// an empty pot, no bets, the small blind at seat 1 and the big blind at seat 0,
/// with blinds of 25 and 50.
pub fn tear_down_game_screen(state: &mut PokerTurn)
    ensures
        *final(state) == (PokerTurn {
            current_player: 1,
            phase: PokerPhase::PreFlop,
            round_started: false,
            pot: 0,
            current_top_bet: 0,
            bet_made: false,
            pot_raised: false,
            small_blind: 1,
            big_blind: 0,
            small_blind_val: 25,
            big_blind_val: 50,
            ..*old(state)
        }),
{
    state.current_player = 1;
    state.phase = PokerPhase::PreFlop;
    state.round_started = false;
    state.pot = 0;
    state.current_top_bet = 0;
    state.bet_made = false;
    state.pot_raised = false;
    state.small_blind = 1;
    state.big_blind = 0;
    state.small_blind_val = 25;
    state.big_blind_val = 50;
}

/// The human player (player 0) has a seat, and it is that player's turn.
pub open spec fn human_to_act(ps: Seq<Player>, st: PokerTurn) -> bool {
    st.current_player == 0 && exists|i: int| 0 <= i < ps.len() && (#[trigger] ps[i]).player_id == 0
}

fn has_human_seat(players: &Vec<Player>) -> (found: bool)
    ensures
        found == exists|i: int| 0 <= i < players@.len() && (#[trigger] players@[i]).player_id == 0,
{
    let mut i: usize = 0;
    while i < players.len()
        invariant
            i <= players@.len(),
            forall|k: int| 0 <= k < i ==> (#[trigger] players@[k]).player_id != 0,
        decreases players@.len() - i,
    {
        if players[i].player_id == 0 {
            return true;
        }
        i += 1;
    }
    false
}

/// A press of the check, fold or call button: when it is the human player's turn,
/// `action` becomes the pending action.
pub fn choose_action(players: &Vec<Player>, state: &PokerTurn, last_action: &mut LastPlayerAction, action: PlayerAction)
    ensures
        human_to_act(players@, *state) ==> final(last_action).action == Some(action),
        !human_to_act(players@, *state) ==> final(last_action).action == old(last_action).action,
{
    if state.current_player == 0 && has_human_seat(players) {
        last_action.action = Some(action);
    }
}

/// The amount the raise box asks for: its number, or 0 when it holds none.
pub open spec fn raise_amount(text: Seq<char>) -> nat {
    match crate::text::parse_usize(text) {
        Some(n) => n,
        None => 0,
    }
}

/// A press of the raise button with `text` in the raise box, which is cleared when
/// the press counts (the answer is then true). When it is the human player's turn,
/// a positive amount raises the top bet by that much and makes the raise the
/// pending action; anything else changes nothing.
pub fn raise_button(players: &Vec<Player>, state: &mut PokerTurn, last_action: &mut LastPlayerAction, text: &str) -> (cleared: bool)
    requires
        old(state).current_top_bet + raise_amount(text@) <= usize::MAX,
    ensures
        cleared == human_to_act(players@, *old(state)),
        cleared && raise_amount(text@) > 0 ==> {
            &&& *final(state) == (PokerTurn {
                current_top_bet: (old(state).current_top_bet + raise_amount(text@)) as usize,
                ..*old(state)
            })
            &&& final(last_action).action == Some(PlayerAction::Raise)
        },
        !(cleared && raise_amount(text@) > 0) ==> {
            &&& *final(state) == *old(state)
            &&& final(last_action).action == old(last_action).action
        },
{
    if !(state.current_player == 0 && has_human_seat(players)) {
        return false;
    }
    let v = crate::text::chars_of(text);
    proof {
        assert(v@.subrange(0, v@.len() as int) =~= text@);
    }
    match crate::text::parse_range(&v, 0, v.len()) {
        Some(value) => {
            if value > 0 {
                state.current_top_bet += value;
                last_action.action = Some(PlayerAction::Raise);
            }
        },
        None => {},
    }
    true
}

/// The heading of the game-over screen: the human player (player 0) won or lost.
pub fn game_over_message(game_result: &GameResult) -> (s: &'static str)
    ensures
        game_result.id == 0 ==> s@ == "You Won!"@,
        game_result.id != 0 ==> s@ == "You Lost!"@,
{
    if game_result.id == 0 {
        "You Won!"
    } else {
        "You Lost!"
    }
}

/// A press on text box `pressed`: it becomes the active box, and every other box
/// is inactive.
pub fn activate(active: &mut Vec<bool>, pressed: usize)
    ensures
        final(active)@.len() == old(active)@.len(),
        forall|i: int| 0 <= i < final(active)@.len() ==> #[trigger] final(active)@[i] == (i == pressed),
{
    let mut i: usize = 0;
    while i < active.len()
        invariant
            active@.len() == old(active)@.len(),
            i <= active@.len(),
            forall|k: int| 0 <= k < i ==> #[trigger] active@[k] == (k == pressed),
        decreases active@.len() - i,
    {
        active.set(i, i == pressed);
        i += 1;
    }
}

} // verus!
