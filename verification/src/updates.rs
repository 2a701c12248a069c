//! Channels that carry the changes of the table to the code that sends them to
//! the server, one channel for each kind of change, built on `shrev`.
use vstd::prelude::*;
use shrev::{EventChannel, ReaderId};
use crate::cards::Card;
use crate::table::{LastPlayerAction, NumPlayers, Player, PokerPhase, PokerTurn};

verus! {

/// `shrev::EventChannel`, carried through as it is.
#[verifier::external_type_specification]
#[verifier::external_body]
#[verifier::reject_recursive_types(E)]
pub struct ExEventChannel<E>(EventChannel<E>);

/// `shrev::ReaderId`, carried through as it is.
#[verifier::external_type_specification]
#[verifier::external_body]
#[verifier::reject_recursive_types(T)]
pub struct ExReaderId<T: 'static>(ReaderId<T>);

/// The community cards on the table.
pub struct CommunityCards {
    pub cards: Vec<Card>,
}

/// A seat changed.
pub struct PlayerUpdateEvent(pub Player);

/// The state of the round changed.
pub struct PokerTurnUpdateEvent(pub PokerTurn);

/// The community cards changed.
pub struct CommunityCardsUpdateEvent(pub CommunityCards);

/// The pending action changed.
pub struct LastPlayerActionUpdateEvent(pub LastPlayerAction);

/// The number of players changed.
pub struct NumPlayersUpdateEvent(pub NumPlayers);

/// The phase changed.
pub struct PokerPhaseUpdateEvent(pub PokerPhase);

/// `shrev::EventChannel::new`: an empty channel with the crate's default capacity.
/// Nothing is stated of it; it is handed on as it is.
#[verifier::external_body]
fn new_event_channel<E: Send + Sync + 'static>() -> (c: EventChannel<E>) {
    EventChannel::new()
}

/// `shrev::EventChannel::register_reader`: a reader of `channel` that will see the
/// events written after now. Nothing is stated of it; it is handed on as it is.
#[verifier::external_body]
fn register_reader<E: Send + Sync + 'static>(channel: &mut EventChannel<E>) -> (r: ReaderId<E>) {
    channel.register_reader()
}

/// A channel for changed seats, with a reader of it.
pub fn init_player_update_channel() -> (EventChannel<PlayerUpdateEvent>, ReaderId<PlayerUpdateEvent>) {
    let mut event_channel = new_event_channel();
    let reader_id = register_reader(&mut event_channel);
    (event_channel, reader_id)
}

/// A channel for changes of the state of the round, with a reader of it.
pub fn init_poker_turn_update_channel() -> (EventChannel<PokerTurnUpdateEvent>, ReaderId<PokerTurnUpdateEvent>) {
    let mut event_channel = new_event_channel();
    let reader_id = register_reader(&mut event_channel);
    (event_channel, reader_id)
}

/// A channel for changes of the community cards, with a reader of it.
pub fn init_community_cards_update_channel() -> (EventChannel<CommunityCardsUpdateEvent>, ReaderId<CommunityCardsUpdateEvent>) {
    let mut event_channel = new_event_channel();
    let reader_id = register_reader(&mut event_channel);
    (event_channel, reader_id)
}

/// A channel for changes of the pending action, with a reader of it.
pub fn init_last_player_action_update_channel() -> (EventChannel<LastPlayerActionUpdateEvent>, ReaderId<LastPlayerActionUpdateEvent>) {
    let mut event_channel = new_event_channel();
    let reader_id = register_reader(&mut event_channel);
    (event_channel, reader_id)
}

/// A channel for changes of the number of players, with a reader of it.
pub fn init_num_players_update_channel() -> (EventChannel<NumPlayersUpdateEvent>, ReaderId<NumPlayersUpdateEvent>) {
    let mut event_channel = new_event_channel();
    let reader_id = register_reader(&mut event_channel);
    (event_channel, reader_id)
}

/// A channel for changes of the phase, with a reader of it.
pub fn init_poker_phase_update_channel() -> (EventChannel<PokerPhaseUpdateEvent>, ReaderId<PokerPhaseUpdateEvent>) {
    let mut event_channel = new_event_channel();
    let reader_id = register_reader(&mut event_channel);
    (event_channel, reader_id)
}

} // verus!
