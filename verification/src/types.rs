use crate::address::Address;
use crate::state::game::{EntryLock, EntryType};
use crate::state::recipient::{
    RecipientSlot, RecipientSlotOwner, RecipientSlotShare, RecipientSlotType,
};
use vstd::prelude::*;
use vstd::std_specs::convert::FromSpecImpl;

verus! {

/// A share as a new slot is given it: nothing withdrawn yet.
#[derive(Debug, Clone, PartialEq, Eq)]
pub struct RecipientSlotShareInit {
    pub owner: RecipientSlotOwner,
    pub weights: u16,
}

/// The share that an initial share becomes.
pub open spec fn share_of_init(init: RecipientSlotShareInit) -> RecipientSlotShare {
    RecipientSlotShare { owner: init.owner, weights: init.weights, claim_amount: 0 }
}

impl From<RecipientSlotShareInit> for RecipientSlotShare {
    fn from(value: RecipientSlotShareInit) -> (share: RecipientSlotShare) {
        let RecipientSlotShareInit { owner, weights } = value;
        RecipientSlotShare { owner, weights, claim_amount: 0 }
    }
}

impl FromSpecImpl<RecipientSlotShareInit> for RecipientSlotShare {
    open spec fn obeys_from_spec() -> bool {
        true
    }

    open spec fn from_spec(value: RecipientSlotShareInit) -> RecipientSlotShare {
        share_of_init(value)
    }
}

/// A slot as a recipient is created with it.
#[derive(Debug, Clone, PartialEq, Eq)]
pub struct RecipientSlotInit {
    pub id: u8,
    pub slot_type: RecipientSlotType,
    pub token_addr: Address,
    pub stake_addr: Address,
    pub init_shares: Vec<RecipientSlotShareInit>,
}

/// Whether `slot` is what `init` becomes: the same slot, each share with nothing
/// withdrawn.
pub open spec fn is_slot_of_init(slot: RecipientSlot, init: RecipientSlotInit) -> bool {
    &&& slot.id == init.id
    &&& slot.slot_type == init.slot_type
    &&& slot.token_addr == init.token_addr
    &&& slot.stake_addr == init.stake_addr
    &&& slot.shares@.len() == init.init_shares@.len()
    &&& forall|i: int|
        0 <= i < init.init_shares@.len() ==> slot.shares@[i] == share_of_init(
            #[trigger] init.init_shares@[i],
        )
}

/// A copy of an owner.
pub fn copy_owner(owner: &RecipientSlotOwner) -> (r: RecipientSlotOwner)
    ensures
        r == *owner,
{
    match owner {
        RecipientSlotOwner::Unassigned { identifier } => RecipientSlotOwner::Unassigned {
            identifier: identifier.clone(),
        },
        RecipientSlotOwner::Assigned { addr } => RecipientSlotOwner::Assigned { addr: *addr },
    }
}

impl RecipientSlotInit {
    /// The slot this becomes.
    pub fn into_slot(self) -> (slot: RecipientSlot)
        ensures
            is_slot_of_init(slot, self),
    {
        let mut shares: Vec<RecipientSlotShare> = Vec::new();
        let n: usize = self.init_shares.len();
        let mut i: usize = 0;
        while i < n
            invariant
                i <= n,
                n == self.init_shares@.len(),
                shares@.len() == i,
                forall|j: int|
                    0 <= j < i ==> shares@[j] == share_of_init(#[trigger] self.init_shares@[j]),
            decreases n - i,
        {
            let init: &RecipientSlotShareInit = &self.init_shares[i];
            shares.push(
                RecipientSlotShare {
                    owner: copy_owner(&init.owner),
                    weights: init.weights,
                    claim_amount: 0,
                },
            );
            i += 1;
        }
        RecipientSlot {
            id: self.id,
            slot_type: self.slot_type,
            token_addr: self.token_addr,
            stake_addr: self.stake_addr,
            shares,
        }
    }
}

/// A token by name.
#[derive(Debug, Clone, PartialEq, Eq)]
pub struct TokenInfo {
    pub name: String,
    pub addr: String,
}

#[derive(Debug, Clone, PartialEq, Eq)]
pub struct CreateGameAccountParams {
    pub title: String,
    pub max_players: u16,
    pub entry_type: EntryType,
    pub data: Vec<u8>,
}

#[derive(Debug, Clone, PartialEq, Eq)]
pub struct RegisterServerParams {
    pub endpoint: String,
    pub credentials: Vec<u8>,
}

#[derive(Debug, Clone, PartialEq, Eq)]
pub struct UnregisterTransactorParams {
    pub addr: String,
}

#[derive(Debug, Clone, PartialEq, Eq)]
pub struct CreateRegistrationParams {
    pub is_private: bool,
    pub size: u16,
}

#[derive(Debug, Clone, PartialEq, Eq)]
pub struct RegisterGameParams {
    pub game_addr: String,
    pub reg_addr: String,
}

#[derive(Debug, Clone, PartialEq, Eq)]
pub struct UnregisterGameParams {
    pub game_addr: String,
    pub reg_addr: String,
}

#[derive(Debug, Clone, PartialEq, Eq)]
pub struct GetTransactorInfoParams {
    pub addr: String,
}

#[derive(Debug, Clone, PartialEq, Eq)]
pub struct CreatePlayerProfileParams {
    pub nick: String,
    pub credentials: Vec<u8>,
}

/// How a player stands when a game is settled.
#[derive(Debug, Clone, Copy, PartialEq, Eq, Structural)]
pub enum PlayerStatus {
    Normal,
    Left,
    Dropout,
}

#[derive(Debug, Clone, Copy, PartialEq, Eq, Structural)]
pub enum AssetChange {
    Add,
    Sub,
    NoChange,
}

/// A change to one player's balance.
#[derive(Debug, Clone, Copy, PartialEq, Eq, Structural)]
pub enum BalanceChange {
    Add(u64),
    Sub(u64),
}

/// One line of a settlement: what changes for one player.
#[derive(Debug, Clone, Copy, PartialEq, Eq)]
pub struct Settle {
    pub player_id: u64,
    /// What the player is paid out when leaving.
    pub amount: u64,
    pub change: Option<BalanceChange>,
    /// Whether the player leaves the game.
    pub eject: bool,
}

/// The commission a settlement moves to the recipient.
#[derive(Debug, Clone, Copy, PartialEq, Eq, Structural)]
pub struct Transfer {
    pub amount: u64,
}

/// A bonus handed to a player.
#[derive(Debug, Clone, PartialEq, Eq)]
pub struct Award {
    pub player_id: u64,
    pub bonus_identifier: String,
}

/// A settlement: the batch that moves a game from one settle version to the next.
#[derive(Debug, Clone, PartialEq, Eq)]
pub struct SettleParams {
    pub settles: Box<Vec<Settle>>,
    pub transfer: Option<Transfer>,
    pub awards: Box<Vec<Award>>,
    pub checkpoint: Box<Vec<u8>>,
    pub access_version: u64,
    pub settle_version: u64,
    pub next_settle_version: u64,
    pub entry_lock: Option<EntryLock>,
    pub accept_deposits: Box<Vec<u64>>,
}

#[derive(Debug, Clone, PartialEq, Eq)]
pub struct JoinParams {
    pub amount: u64,
    pub access_version: u64,
    pub settle_version: u64,
    pub position: u16,
    pub verify_key: String,
}

#[derive(Debug, Clone, Copy, PartialEq, Eq, Structural)]
pub struct ServeParams {
}

#[derive(Debug, Clone, Copy, PartialEq, Eq, Structural)]
pub struct DepositParams {
    pub amount: u64,
    pub settle_version: u64,
}

#[derive(Debug, Clone, Copy, PartialEq, Eq, Structural)]
pub enum VoteType {
    ServerVoteTransactorDropOff,
    ClientVoteTransactorDropOff,
}

#[derive(Debug, Clone, Copy, PartialEq, Eq, Structural)]
pub struct VoteParams {
    pub vote_type: VoteType,
}

#[derive(Debug, Clone, PartialEq, Eq)]
pub struct PublishParams {
    pub uri: String,
    pub name: String,
    pub symbol: String,
}

#[derive(Debug, Clone, PartialEq, Eq)]
pub struct CreateRecipientParams {
    pub slots: Box<Vec<RecipientSlotInit>>,
}

#[derive(Debug, Clone, PartialEq, Eq)]
pub struct AssignRecipientParams {
    pub identifier: String,
}

#[derive(Debug, Clone, PartialEq, Eq)]
pub struct AttachBonusParams {
    pub identifiers: Vec<String>,
}

#[derive(Debug, Clone, PartialEq, Eq)]
pub struct RejectDepositsParams {
    pub reject_deposits: Vec<u64>,
}

} // verus!
