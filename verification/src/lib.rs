//! Texas hold'em: the deck and hand evaluation, the rules of a round, the
//! computer opponents, online lobbies and the leaderboard.
pub mod text;
pub mod cards;
pub mod hand;
pub mod table;
pub mod random;
pub mod preflop;
pub mod easy_ai;
pub mod cheating_ai;
pub mod round;
pub mod frame;
pub mod lobby;
pub mod leaderboard;
pub mod setup;
pub mod local_game;
pub mod updates;
