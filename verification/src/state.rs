pub mod game;
pub mod game2;
pub mod occupancy;
pub mod players;
pub mod profile;
pub mod recipient;
pub mod registry;
pub mod server;

pub use game::{
    Bonus, DepositStatus, EntryLock, EntryType, GameState, GameStatus, PlayerBalance,
    PlayerDeposit, PlayerJoin, ServerJoin, Vote,
};
pub use profile::{LegacyPlayerState, PlayerState};
pub use recipient::{
    RecipientSlot, RecipientSlotOwner, RecipientSlotShare, RecipientSlotType, RecipientState,
};
pub use registry::{GameReg, RegistryState};
pub use server::ServerState;
