use school_sanctioned_gambling::table::{NumPlayers, PokerPhase};
use school_sanctioned_gambling::updates::{
    init_community_cards_update_channel, init_last_player_action_update_channel, init_num_players_update_channel,
    init_player_update_channel, init_poker_phase_update_channel, init_poker_turn_update_channel,
    NumPlayersUpdateEvent, PokerPhaseUpdateEvent,
};

#[test]
fn a_written_change_is_read_once() {
    let (mut channel, mut reader) = init_num_players_update_channel();
    channel.single_write(NumPlayersUpdateEvent(NumPlayers { player_count: 4 }));
    let seen: Vec<usize> = channel.read(&mut reader).map(|e| e.0.player_count).collect();
    assert_eq!(seen, vec![4]);
    assert_eq!(channel.read(&mut reader).count(), 0);
}

#[test]
fn every_channel_starts_empty() {
    let (c1, mut r1) = init_player_update_channel();
    assert_eq!(c1.read(&mut r1).count(), 0);
    let (c2, mut r2) = init_poker_turn_update_channel();
    assert_eq!(c2.read(&mut r2).count(), 0);
    let (c3, mut r3) = init_community_cards_update_channel();
    assert_eq!(c3.read(&mut r3).count(), 0);
    let (c4, mut r4) = init_last_player_action_update_channel();
    assert_eq!(c4.read(&mut r4).count(), 0);
    let (mut c5, mut r5) = init_poker_phase_update_channel();
    c5.single_write(PokerPhaseUpdateEvent(PokerPhase::Flop));
    assert!(c5.read(&mut r5).all(|e| e.0 == PokerPhase::Flop));
}
