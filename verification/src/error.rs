use vstd::prelude::*;

verus! {

/// Every way an instruction of the protocol can be turned down. The position of a
/// variant in this list is the number the error is reported under.
#[derive(Debug, Clone, Copy, PartialEq, Eq, Structural)]
pub enum ProcessError {
    /// Invalid owner of this account.
    InvalidOwner,
    /// Failed to create game.
    CreateGameFailed,
    /// Registration center is already full.
    RegistrationIsFull,
    /// Game already registered.
    GameAlreadyRegistered,
    /// Unable to close game that still has players in it.
    CantCloseGame,
    /// Invalid stake account.
    InvalidStakeAccount,
    /// Invalid program derived address.
    InvalidPDA,
    /// Account stake amount overflows.
    StakeAmountOverflow,
    /// Expect writable player profile, found read-only.
    InvalidAccountStatus,
    /// Account pubkey is not the same as that from transport.
    InvalidAccountPubkey,
    /// Settle amounts are not sum up to zero.
    InvalidSettleAmounts,
    /// Invalid settle player id.
    InvalidSettlePlayerId,
    /// Unhandled eliminated player.
    UnhandledEliminatedPlayer,
    /// Invalid receiver address, wallet and ATA mismatch.
    InvalidReceiverAddress,
    /// Settles are not in correct order.
    InvalidOrderOfSettles,
    /// Player balance amount overflows.
    PlayerBalanceOverflow,
    /// Invalid voter account.
    InvalidVoterAccount,
    /// Invalid votee account.
    InvalidVoteeAccount,
    /// Game is not served.
    GameNotServed,
    /// Feature is unimplemented.
    Unimplemented,
    /// Duplicate joining not allowed as the server already joined.
    DuplicateServerJoin,
    /// Can't unregister the game as it has not been registered yet.
    InvalidUnregistration,
    /// Server number exceeds the max of 10.
    ServerNumberExceedsLimit,
    /// Position already taken by another player.
    PositionTakenAlready,
    /// Can't join game because game is already full.
    GameFullAlready,
    /// Can't join game because player already joined.
    JoinedGameAlready,
    /// Token's mint must be the same as that used in the game.
    InvalidMint,
    /// Can't join game because deposit is invalid.
    InvalidDeposit,
    /// Given position falls out the range of 0 to player_num - 1.
    InvalidPosition,
    /// No capacibility to update recipient account.
    NoRecipientUpdateCap,
    /// Empty recipient slots.
    EmptyRecipientSlots,
    /// Invalid slot id.
    InvalidSlotId,
    /// Invalid slot stake account.
    InvalidSlotStakeAccount,
    /// Invalid settle version.
    InvalidSettleVersion,
    /// Invalid next settle version.
    InvalidNextSettleVersion,
    /// Settle validation overflow.
    SettleValidationOverflow,
    /// Server account deserialization failed.
    ServerDeserializationFailed,
    /// Game account deserialization failed.
    GameDeserializationFailed,
    /// Registry account deserialization failed.
    RegistryDeserializationFailed,
    /// Recipient account deserialization failed.
    RecipientDeserializationFailed,
    /// Profile account deserialization failed.
    ProfileDeserializationFailed,
    /// Invalid payment amount.
    InvalidPaymentParams,
    /// Recipient slot not found.
    RecipientSlotNotFound,
    /// Invalid recipient slot account provided.
    InvalidRecipientSlotAccount,
    /// Invalid token mint.
    InvalidTokenMint,
    /// Player not in game.
    PlayerNotInGame,
    /// Invalid identifier length.
    InvalidIdentifierLength,
    /// Invalid award identifier.
    InvalidAwardIdentifier,
    /// Invalid award player id.
    InvalidAwardPlayerId,
    /// Native token is not supported.
    NativeTokenNotSupported,
    /// Signer is not current transactor.
    SignerNotTransactor,
    /// Invalid reject deposit.
    InvalidRejectDeposit,
    /// Receiver account uninitialized.
    ReceiverUninitialized,
    /// Duplicated deposit rejection.
    DuplicatedDepositRejection,
    /// Invalid settle balance.
    InvalidSettleBalance,
    /// Unbalanced game stake.
    UnbalancedGameStake,
    /// Server account not available.
    ServerAccountNotAvailable,
    /// Empty recipient slot shares.
    EmptyRecipientSlotShares,
    /// Duplicated recipient slot token.
    DuplicatedRecipientSlotToken,
    /// Invalid recipient address.
    InvalidRecipientAddress,
    /// Invalid players account for initialization.
    InvalidPlayersRegAccountForInit,
    /// Malformed players reg account.
    MalformedPlayersRegAccount,
    /// Can not increase the size of players reg account.
    CantIncreasePlayersRegAccountSize,
    /// Can not decrease the size of players reg account.
    CantDecreasePlayersRegAccountSize,
    /// Invalid players reg account.
    InvalidPlayersRegAccount,
    /// Inconsistent credentials.
    InconsistentCredentials,
}

/// The number an error is reported under: its position in the declaration.
pub open spec fn error_code(e: ProcessError) -> u32 {
    match e {
        ProcessError::InvalidOwner => 0,
        ProcessError::CreateGameFailed => 1,
        ProcessError::RegistrationIsFull => 2,
        ProcessError::GameAlreadyRegistered => 3,
        ProcessError::CantCloseGame => 4,
        ProcessError::InvalidStakeAccount => 5,
        ProcessError::InvalidPDA => 6,
        ProcessError::StakeAmountOverflow => 7,
        ProcessError::InvalidAccountStatus => 8,
        ProcessError::InvalidAccountPubkey => 9,
        ProcessError::InvalidSettleAmounts => 10,
        ProcessError::InvalidSettlePlayerId => 11,
        ProcessError::UnhandledEliminatedPlayer => 12,
        ProcessError::InvalidReceiverAddress => 13,
        ProcessError::InvalidOrderOfSettles => 14,
        ProcessError::PlayerBalanceOverflow => 15,
        ProcessError::InvalidVoterAccount => 16,
        ProcessError::InvalidVoteeAccount => 17,
        ProcessError::GameNotServed => 18,
        ProcessError::Unimplemented => 19,
        ProcessError::DuplicateServerJoin => 20,
        ProcessError::InvalidUnregistration => 21,
        ProcessError::ServerNumberExceedsLimit => 22,
        ProcessError::PositionTakenAlready => 23,
        ProcessError::GameFullAlready => 24,
        ProcessError::JoinedGameAlready => 25,
        ProcessError::InvalidMint => 26,
        ProcessError::InvalidDeposit => 27,
        ProcessError::InvalidPosition => 28,
        ProcessError::NoRecipientUpdateCap => 29,
        ProcessError::EmptyRecipientSlots => 30,
        ProcessError::InvalidSlotId => 31,
        ProcessError::InvalidSlotStakeAccount => 32,
        ProcessError::InvalidSettleVersion => 33,
        ProcessError::InvalidNextSettleVersion => 34,
        ProcessError::SettleValidationOverflow => 35,
        ProcessError::ServerDeserializationFailed => 36,
        ProcessError::GameDeserializationFailed => 37,
        ProcessError::RegistryDeserializationFailed => 38,
        ProcessError::RecipientDeserializationFailed => 39,
        ProcessError::ProfileDeserializationFailed => 40,
        ProcessError::InvalidPaymentParams => 41,
        ProcessError::RecipientSlotNotFound => 42,
        ProcessError::InvalidRecipientSlotAccount => 43,
        ProcessError::InvalidTokenMint => 44,
        ProcessError::PlayerNotInGame => 45,
        ProcessError::InvalidIdentifierLength => 46,
        ProcessError::InvalidAwardIdentifier => 47,
        ProcessError::InvalidAwardPlayerId => 48,
        ProcessError::NativeTokenNotSupported => 49,
        ProcessError::SignerNotTransactor => 50,
        ProcessError::InvalidRejectDeposit => 51,
        ProcessError::ReceiverUninitialized => 52,
        ProcessError::DuplicatedDepositRejection => 53,
        ProcessError::InvalidSettleBalance => 54,
        ProcessError::UnbalancedGameStake => 55,
        ProcessError::ServerAccountNotAvailable => 56,
        ProcessError::EmptyRecipientSlotShares => 57,
        ProcessError::DuplicatedRecipientSlotToken => 58,
        ProcessError::InvalidRecipientAddress => 59,
        ProcessError::InvalidPlayersRegAccountForInit => 60,
        ProcessError::MalformedPlayersRegAccount => 61,
        ProcessError::CantIncreasePlayersRegAccountSize => 62,
        ProcessError::CantDecreasePlayersRegAccountSize => 63,
        ProcessError::InvalidPlayersRegAccount => 64,
        ProcessError::InconsistentCredentials => 65,
    }
}

impl ProcessError {
    /// The number this error is reported under.
    pub fn code(&self) -> (n: u32)
        ensures
            n == error_code(*self),
            n < 66,
    {
        match self {
            ProcessError::InvalidOwner => 0,
            ProcessError::CreateGameFailed => 1,
            ProcessError::RegistrationIsFull => 2,
            ProcessError::GameAlreadyRegistered => 3,
            ProcessError::CantCloseGame => 4,
            ProcessError::InvalidStakeAccount => 5,
            ProcessError::InvalidPDA => 6,
            ProcessError::StakeAmountOverflow => 7,
            ProcessError::InvalidAccountStatus => 8,
            ProcessError::InvalidAccountPubkey => 9,
            ProcessError::InvalidSettleAmounts => 10,
            ProcessError::InvalidSettlePlayerId => 11,
            ProcessError::UnhandledEliminatedPlayer => 12,
            ProcessError::InvalidReceiverAddress => 13,
            ProcessError::InvalidOrderOfSettles => 14,
            ProcessError::PlayerBalanceOverflow => 15,
            ProcessError::InvalidVoterAccount => 16,
            ProcessError::InvalidVoteeAccount => 17,
            ProcessError::GameNotServed => 18,
            ProcessError::Unimplemented => 19,
            ProcessError::DuplicateServerJoin => 20,
            ProcessError::InvalidUnregistration => 21,
            ProcessError::ServerNumberExceedsLimit => 22,
            ProcessError::PositionTakenAlready => 23,
            ProcessError::GameFullAlready => 24,
            ProcessError::JoinedGameAlready => 25,
            ProcessError::InvalidMint => 26,
            ProcessError::InvalidDeposit => 27,
            ProcessError::InvalidPosition => 28,
            ProcessError::NoRecipientUpdateCap => 29,
            ProcessError::EmptyRecipientSlots => 30,
            ProcessError::InvalidSlotId => 31,
            ProcessError::InvalidSlotStakeAccount => 32,
            ProcessError::InvalidSettleVersion => 33,
            ProcessError::InvalidNextSettleVersion => 34,
            ProcessError::SettleValidationOverflow => 35,
            ProcessError::ServerDeserializationFailed => 36,
            ProcessError::GameDeserializationFailed => 37,
            ProcessError::RegistryDeserializationFailed => 38,
            ProcessError::RecipientDeserializationFailed => 39,
            ProcessError::ProfileDeserializationFailed => 40,
            ProcessError::InvalidPaymentParams => 41,
            ProcessError::RecipientSlotNotFound => 42,
            ProcessError::InvalidRecipientSlotAccount => 43,
            ProcessError::InvalidTokenMint => 44,
            ProcessError::PlayerNotInGame => 45,
            ProcessError::InvalidIdentifierLength => 46,
            ProcessError::InvalidAwardIdentifier => 47,
            ProcessError::InvalidAwardPlayerId => 48,
            ProcessError::NativeTokenNotSupported => 49,
            ProcessError::SignerNotTransactor => 50,
            ProcessError::InvalidRejectDeposit => 51,
            ProcessError::ReceiverUninitialized => 52,
            ProcessError::DuplicatedDepositRejection => 53,
            ProcessError::InvalidSettleBalance => 54,
            ProcessError::UnbalancedGameStake => 55,
            ProcessError::ServerAccountNotAvailable => 56,
            ProcessError::EmptyRecipientSlotShares => 57,
            ProcessError::DuplicatedRecipientSlotToken => 58,
            ProcessError::InvalidRecipientAddress => 59,
            ProcessError::InvalidPlayersRegAccountForInit => 60,
            ProcessError::MalformedPlayersRegAccount => 61,
            ProcessError::CantIncreasePlayersRegAccountSize => 62,
            ProcessError::CantDecreasePlayersRegAccountSize => 63,
            ProcessError::InvalidPlayersRegAccount => 64,
            ProcessError::InconsistentCredentials => 65,
        }
    }
}

/// Errors of the layout-aware cursors over serialized state.
#[derive(Debug, Clone, Copy, PartialEq, Eq, Structural)]
pub enum SerError {
    /// The value was replaced and no longer refers to the source buffer.
    ValueIsUpdated,
    /// Reading or writing the underlying buffer failed.
    IoError,
    /// A length does not fit the width the layout reserves for it.
    LengthOverflow,
    /// An offset does not fit the width the layout reserves for it.
    OffsetOverflow,
    /// A field index lies outside the structure.
    InvalidFieldAccess,
    /// The cursor is of another kind than the one asked for.
    InvalidCursorType,
}

/// What an instruction reports when it is turned down: one of the protocol's own
/// numbered errors, or a condition of the hosting runtime.
#[derive(Debug, Clone, Copy, PartialEq, Eq, Structural)]
pub enum Failure {
    /// A numbered error of the protocol.
    Process(ProcessError),
    /// An account that has to sign the transaction did not.
    MissingRequiredSignature,
    /// Fewer accounts were supplied than the instruction consumes.
    NotEnoughAccountKeys,
    /// An account's data is not of the expected layout.
    InvalidAccountData,
    /// An account of the expected layout has not been initialized.
    UninitializedAccount,
    /// A value does not fit the bytes that its layout reserves for it.
    BorshIoError,
    /// An account holds less than is to be moved out of it.
    InsufficientFunds,
    /// An argument of the instruction does not fit the accounts it came with.
    InvalidArgument,
    /// A seed is longer than an address can be derived from.
    MaxSeedLengthExceeded,
    /// An address cannot be derived for this owner.
    IllegalOwner,
    /// An account holds less than it costs to keep it.
    AccountNotRentExempt,
}

} // verus!
