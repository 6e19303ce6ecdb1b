use crate::address::Address;
use crate::types::VoteType;
use vstd::prelude::*;

verus! {

/// What a player has to bring to enter a game.
#[derive(Debug, Clone, PartialEq, Eq)]
pub enum EntryType {
    /// Any deposit between the two bounds, both included.
    Cash { min_deposit: u64, max_deposit: u64 },
    /// Exactly this amount.
    Ticket { amount: u64 },
    /// Holding a token of this collection.
    Gating { collection: String },
}

impl Default for EntryType {
    fn default() -> (e: EntryType)
        ensures
            e == (EntryType::Cash { min_deposit: 1, max_deposit: 9999 }),
    {
        EntryType::Cash { min_deposit: 1, max_deposit: 9999 }
    }
}

/// Which ways into a game are open.
#[derive(Debug, Clone, Copy, PartialEq, Eq, Structural)]
pub enum EntryLock {
    Open,
    JoinOnly,
    DepositOnly,
    Closed,
}

/// A player as the players registry stores one.
#[derive(Debug, Clone, PartialEq, Eq)]
pub struct PlayerJoin {
    pub addr: Address,
    pub position: u16,
    pub access_version: u64,
    pub verify_key: String,
}

/// A server attached to a game.
#[derive(Debug, Clone, PartialEq, Eq)]
pub struct ServerJoin {
    pub addr: Address,
    pub endpoint: String,
    pub access_version: u64,
}

/// What the game holds for one player.
#[derive(Debug, Clone, Copy, PartialEq, Eq, Structural)]
pub struct PlayerBalance {
    pub player_id: u64,
    pub balance: u64,
}

/// How far a deposit has come.
#[derive(Debug, Clone, Copy, PartialEq, Eq, Structural)]
pub enum DepositStatus {
    Pending,
    Rejected,
    Refunded,
    Accepted,
}

/// A deposit a player made into the game's pool. Its `access_version` identifies it.
#[derive(Debug, Clone, Copy, PartialEq, Eq)]
pub struct PlayerDeposit {
    pub addr: Address,
    pub amount: u64,
    pub access_version: u64,
    pub settle_version: u64,
    pub status: DepositStatus,
}

/// A vote cast in a game.
#[derive(Debug, Clone, PartialEq, Eq)]
pub struct Vote {
    pub voter: Address,
    pub votee: Address,
    pub vote_type: VoteType,
}

/// A prize held in an account of its own until a settlement awards it.
#[derive(Debug, Clone, PartialEq, Eq)]
pub struct Bonus {
    pub identifier: String,
    pub stake_addr: Address,
    pub token_addr: Address,
    pub amount: u64,
}

/// A bonus as the contracts speak of it.
pub struct BonusView {
    pub identifier: Seq<char>,
    pub stake_addr: Address,
    pub token_addr: Seq<u8>,
    pub amount: u64,
}

impl View for Bonus {
    type V = BonusView;

    open spec fn view(&self) -> BonusView {
        BonusView {
            identifier: self.identifier@,
            stake_addr: self.stake_addr,
            token_addr: self.token_addr@,
            amount: self.amount,
        }
    }
}

/// Whether a game account has been set up.
#[derive(Debug, Clone, Copy, PartialEq, Eq, Structural)]
pub enum GameStatus {
    Initializing,
    Initialized,
    Closed,
}

/// The ledger of one game.
#[derive(Debug, Clone, PartialEq, Eq)]
pub struct GameState {
    pub game_status: GameStatus,
    /// The layout version of the account.
    pub version: String,
    pub title: String,
    /// Where the game's logic bundle is kept.
    pub bundle_addr: Address,
    /// The account that pools the players' tokens.
    pub stake_account: Address,
    pub owner: Address,
    /// The token the game is played with.
    pub token_mint: Address,
    /// The first server that joined.
    pub transactor_addr: Option<Address>,
    /// Grows with every join and deposit.
    pub access_version: u64,
    /// Grows with every settlement.
    pub settle_version: u64,
    pub max_players: u16,
    /// The account that holds the players registry.
    pub players_reg_account: Address,
    pub deposits: Vec<PlayerDeposit>,
    pub servers: Vec<ServerJoin>,
    pub data_len: u32,
    pub data: Vec<u8>,
    pub votes: Vec<Vote>,
    pub unlock_time: Option<u64>,
    pub entry_type: EntryType,
    pub recipient_addr: Address,
    /// The game's snapshot as of the last settlement.
    pub checkpoint: Vec<u8>,
    pub entry_lock: EntryLock,
    pub bonuses: Vec<Bonus>,
    pub balances: Vec<PlayerBalance>,
}

impl GameState {
    /// Whether the account has been set up and not closed.
    pub fn is_initialized(&self) -> (r: bool)
        ensures
            r == (self.game_status == GameStatus::Initialized),
    {
        match self.game_status {
            GameStatus::Initialized => true,
            _ => false,
        }
    }
}

} // verus!
