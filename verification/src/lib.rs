//! Settlement and payout for a multiplayer game protocol whose state lives in
//! accounts on a chain: the players registry of a game, the claims on the pooled
//! stake of a recipient, and the settlement that moves a game from one settle version
//! to the next, each proved against its contract.
//!
//! The library decides and plans; it moves no value itself. An instruction is handed
//! the accounts as plain values, and answers with the state to come and the
//! movements of value to ask the runtime for.
pub mod address;
pub mod codec;
pub mod error;
pub mod instruction;
pub mod processor;
pub mod ser;
pub mod state;
pub mod types;
