//! A Quoridor match engine: the board and its wall rules, the shortest-path
//! search that guards every wall placement, the per-match turn state machine,
//! the computer opponent, and the registries that hold live matches.

pub mod a_star;
pub mod clock;
pub mod cpu;
pub mod game;
pub mod game_abstractions;
pub mod game_lobbies;
pub mod game_matches;
pub mod messages;
pub mod quoridor_match;
