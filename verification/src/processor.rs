pub mod add_recipient_slot;
pub mod assign_recipient;
pub mod attach_bonus;
pub mod close_game;
pub mod create_game;
pub mod create_profile;
pub mod create_recipient;
pub mod create_registry;
pub mod deposit;
pub mod join;
pub mod misc;
pub mod recipient_claim;
pub mod register_game;
pub mod register_server;
pub mod reject_deposits;
pub mod serve;
pub mod settle;
pub mod unregister_game;
pub mod vote;
