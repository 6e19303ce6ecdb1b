//! The instructions of the program.
use crate::types::{
    AssignRecipientParams, AttachBonusParams, CreateGameAccountParams, CreatePlayerProfileParams,
    CreateRecipientParams, CreateRegistrationParams, DepositParams, JoinParams, PublishParams,
    RecipientSlotInit, RegisterServerParams, RejectDepositsParams, ServeParams, SettleParams,
    VoteParams,
};
use vstd::prelude::*;

verus! {

/// An instruction with its parameters. The position of a variant in this list is the
/// byte that an encoded instruction begins with.
#[derive(Debug, Clone, PartialEq, Eq)]
pub enum RaceInstruction {
    /// Create a game.
    CreateGameAccount { params: CreateGameAccountParams },
    /// Close a game.
    CloseGameAccount,
    /// Create a lobby.
    CreateRegistry { params: CreateRegistrationParams },
    /// Create the profile of a player.
    CreatePlayerProfile { params: CreatePlayerProfileParams },
    /// Register the profile of a server.
    RegisterServer { params: RegisterServerParams },
    /// Settle a game.
    Settle { params: SettleParams },
    /// Vote that the transactor has dropped off.
    Vote { params: VoteParams },
    /// Let a server join a game.
    ServeGame { params: ServeParams },
    /// List a game in a lobby.
    RegisterGame,
    /// Take a game off a lobby.
    UnregisterGame,
    /// Let a player join a game.
    JoinGame { params: JoinParams },
    /// Publish a game.
    PublishGame { params: PublishParams },
    /// Create a recipient.
    CreateRecipient { params: Box<CreateRecipientParams> },
    /// Assign the shares that wait under an identifier.
    AssignRecipient { params: AssignRecipientParams },
    /// Claim from the slots of a recipient.
    RecipientClaim,
    /// Deposit into a game.
    Deposit { params: DepositParams },
    /// Attach bonuses to a game.
    AttachBonus { params: AttachBonusParams },
    /// Reject deposits.
    RejectDeposits { params: RejectDepositsParams },
    /// Add a slot to a recipient.
    AddRecipientSlot { params: RecipientSlotInit },
}

/// The byte that an encoded instruction begins with.
pub open spec fn discriminant_of(instruction: RaceInstruction) -> u8 {
    match instruction {
        RaceInstruction::CreateGameAccount { .. } => 0,
        RaceInstruction::CloseGameAccount => 1,
        RaceInstruction::CreateRegistry { .. } => 2,
        RaceInstruction::CreatePlayerProfile { .. } => 3,
        RaceInstruction::RegisterServer { .. } => 4,
        RaceInstruction::Settle { .. } => 5,
        RaceInstruction::Vote { .. } => 6,
        RaceInstruction::ServeGame { .. } => 7,
        RaceInstruction::RegisterGame => 8,
        RaceInstruction::UnregisterGame => 9,
        RaceInstruction::JoinGame { .. } => 10,
        RaceInstruction::PublishGame { .. } => 11,
        RaceInstruction::CreateRecipient { .. } => 12,
        RaceInstruction::AssignRecipient { .. } => 13,
        RaceInstruction::RecipientClaim => 14,
        RaceInstruction::Deposit { .. } => 15,
        RaceInstruction::AttachBonus { .. } => 16,
        RaceInstruction::RejectDeposits { .. } => 17,
        RaceInstruction::AddRecipientSlot { .. } => 18,
    }
}

impl RaceInstruction {
    /// The byte that the encoded instruction begins with.
    pub fn discriminant(&self) -> (d: u8)
        ensures
            d == discriminant_of(*self),
            d <= 18,
    {
        match self {
            RaceInstruction::CreateGameAccount { .. } => 0,
            RaceInstruction::CloseGameAccount => 1,
            RaceInstruction::CreateRegistry { .. } => 2,
            RaceInstruction::CreatePlayerProfile { .. } => 3,
            RaceInstruction::RegisterServer { .. } => 4,
            RaceInstruction::Settle { .. } => 5,
            RaceInstruction::Vote { .. } => 6,
            RaceInstruction::ServeGame { .. } => 7,
            RaceInstruction::RegisterGame => 8,
            RaceInstruction::UnregisterGame => 9,
            RaceInstruction::JoinGame { .. } => 10,
            RaceInstruction::PublishGame { .. } => 11,
            RaceInstruction::CreateRecipient { .. } => 12,
            RaceInstruction::AssignRecipient { .. } => 13,
            RaceInstruction::RecipientClaim => 14,
            RaceInstruction::Deposit { .. } => 15,
            RaceInstruction::AttachBonus { .. } => 16,
            RaceInstruction::RejectDeposits { .. } => 17,
            RaceInstruction::AddRecipientSlot { .. } => 18,
        }
    }
}

} // verus!
