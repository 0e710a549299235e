//! A decision engine for a Hearts-style trick-taking card game.
//!
//! Given a snapshot of the game, the engine decides which cards to pass at the
//! start of a round and which legal card to play into the current trick.
//!
//! - [`card`], [`card_set`], [`codec`]: cards, their canonical order, sets of
//!   cards, and the wire tokens of suits and ranks.
//! - [`player`], [`deal`], [`game_status`]: the snapshot model.
//! - [`dto`]: the wire format as plain values, decoded into the snapshot model.
//! - [`strategy`]: the strategies; [`strategy::defensive`] is the main one.
//! - [`session`]: what to do with each snapshot the server reports.
pub mod card;
pub mod card_set;
pub mod codec;
pub mod deal;
pub mod dto;
pub mod error;
pub mod game_status;
pub mod player;
pub mod session;
pub mod strategy;
