//! A deposit: a player who sits in the game adds to what the player has brought.
use crate::address::Address;
use crate::error::{Failure, ProcessError};
use crate::processor::misc::{
    is_native_mint, native_mint_bytes, token_account_of, unpack_token_account, AccountView, Effect,
};
use crate::state::game::{DepositStatus, EntryType, GameState, PlayerDeposit};
use crate::state::players::{is_player_joined, joined_by, set_versions, with_versions};
use crate::types::DepositParams;
use vstd::prelude::*;

verus! {

/// Why an amount does not meet what the game asks of its players, if it does not: it
/// lies outside the bounds of a cash game, it is not the price of the ticket, or the
/// game is gated, which is yet to be built.
pub open spec fn entry_refusal(entry_type: EntryType, amount: u64) -> Option<Failure> {
    match entry_type {
        EntryType::Cash { min_deposit, max_deposit } => if amount < min_deposit || amount
            > max_deposit {
            Some(Failure::Process(ProcessError::InvalidPaymentParams))
        } else {
            None
        },
        EntryType::Ticket { amount: price } => if amount != price {
            Some(Failure::Process(ProcessError::InvalidPaymentParams))
        } else {
            None
        },
        EntryType::Gating { .. } => Some(Failure::Process(ProcessError::Unimplemented)),
    }
}

/// Holds an amount against what the game asks of its players.
pub fn check_entry(entry_type: &EntryType, amount: u64) -> (r: Result<(), Failure>)
    ensures
        r == match entry_refusal(*entry_type, amount) {
            Some(e) => Err::<(), Failure>(e),
            None => Ok(()),
        },
{
    match entry_type {
        EntryType::Cash { min_deposit, max_deposit } => {
            if amount < *min_deposit || amount > *max_deposit {
                Err(Failure::Process(ProcessError::InvalidPaymentParams))
            } else {
                Ok(())
            }
        },
        EntryType::Ticket { amount: price } => {
            if amount != *price {
                Err(Failure::Process(ProcessError::InvalidPaymentParams))
            } else {
                Ok(())
            }
        },
        EntryType::Gating { .. } => Err(Failure::Process(ProcessError::Unimplemented)),
    }
}

/// The movements that bring an amount from the temporary account into the pool. The
/// temporary account has to hold exactly the amount. For the native token the amount
/// is moved; for any other it is transferred and the temporary account is closed,
/// its rent going back to the payer.
pub open spec fn funding(
    temp: AccountView,
    payer: Address,
    stake: Address,
    mint: Address,
    amount: u64,
) -> Result<Seq<Effect>, Failure> {
    let transfer = Effect::Transfer { source: temp.key, destination: stake, mint, amount };
    if mint@ == native_mint_bytes() {
        if temp.lamports != amount {
            Err(Failure::Process(ProcessError::InvalidDeposit))
        } else {
            Ok(seq![transfer])
        }
    } else {
        match token_account_of(temp.data@) {
            Err(e) => Err(e),
            Ok((_, held)) => if held != amount {
                Err(Failure::Process(ProcessError::InvalidDeposit))
            } else {
                Ok(seq![transfer, Effect::CloseAccount { account: temp.key, destination: payer }])
            },
        }
    }
}

/// Plans the movements that bring an amount from the temporary account into the
/// pool.
pub fn fund(temp: &AccountView, payer: &Address, stake: &Address, mint: &Address, amount: u64) -> (r:
    Result<Vec<Effect>, Failure>)
    ensures
        match funding(*temp, *payer, *stake, *mint, amount) {
            Ok(effects) => r is Ok && r->Ok_0@ == effects,
            Err(e) => r == Err::<Vec<Effect>, Failure>(e),
        },
{
    let mut effects: Vec<Effect> = Vec::new();
    if is_native_mint(mint) {
        if temp.lamports != amount {
            return Err(Failure::Process(ProcessError::InvalidDeposit));
        }
        effects.push(
            Effect::Transfer { source: temp.key, destination: *stake, mint: *mint, amount },
        );
        assert(effects@ =~= funding(*temp, *payer, *stake, *mint, amount)->Ok_0);
    } else {
        match unpack_token_account(temp.data.as_slice()) {
            Err(e) => {
                return Err(e);
            },
            Ok(token) => {
                if token.amount != amount {
                    return Err(Failure::Process(ProcessError::InvalidDeposit));
                }
            },
        }
        effects.push(
            Effect::Transfer { source: temp.key, destination: *stake, mint: *mint, amount },
        );
        effects.push(Effect::CloseAccount { account: temp.key, destination: *payer });
        assert(effects@ =~= funding(*temp, *payer, *stake, *mint, amount)->Ok_0);
    }
    Ok(effects)
}

/// The accounts that a deposit or a join is handed, each under the part it plays.
#[derive(Debug, Clone, PartialEq, Eq)]
pub struct DepositAccounts {
    /// Who pays and, where it matters, who joins.
    pub payer: AccountView,
    /// The player's own account.
    pub player: AccountView,
    /// The account that holds what is brought.
    pub temp: AccountView,
    /// The account whose data is the players registry.
    pub players_reg: AccountView,
    /// The mint of the token that is brought.
    pub mint: AccountView,
    /// The pool of the game.
    pub stake: AccountView,
}

/// What a deposit comes to.
pub struct DepositPlan {
    pub access_version: u64,
    pub deposit: PlayerDeposit,
    pub registry: Seq<u8>,
    pub effects: Seq<Effect>,
}

/// What a deposit comes to: the plan, or the first failure. The payer has to have
/// signed, the deposit must not be made for a settle version the ledger has not
/// reached, the pool and the mint have to be the game's, the player has to sit in
/// the game, the amount has to meet what the game asks, and the temporary account
/// has to hold it. The access version then grows by one and names the deposit.
pub open spec fn deposited(accounts: DepositAccounts, game_state: GameState, params: DepositParams) -> Result<
    DepositPlan,
    Failure,
> {
    if !accounts.payer.is_signer {
        Err(Failure::MissingRequiredSignature)
    } else if game_state.settle_version < params.settle_version {
        Err(Failure::Process(ProcessError::InvalidSettleVersion))
    } else if accounts.stake.key@ != game_state.stake_account@ {
        Err(Failure::Process(ProcessError::InvalidStakeAccount))
    } else if accounts.mint.key@ != game_state.token_mint@ {
        Err(Failure::Process(ProcessError::InvalidMint))
    } else {
        match joined_by(accounts.players_reg.data@, accounts.player.key@) {
            Err(e) => Err(e),
            Ok(false) => Err(Failure::Process(ProcessError::PlayerNotInGame)),
            Ok(true) => match entry_refusal(game_state.entry_type, params.amount) {
                Some(e) => Err(e),
                None => match funding(
                    accounts.temp,
                    accounts.payer.key,
                    accounts.stake.key,
                    game_state.token_mint,
                    params.amount,
                ) {
                    Err(e) => Err(e),
                    Ok(effects) => if game_state.access_version == u64::MAX {
                        Err(Failure::Process(ProcessError::StakeAmountOverflow))
                    } else {
                        let access_version = (game_state.access_version + 1) as u64;
                        Ok(
                            DepositPlan {
                                access_version,
                                deposit: PlayerDeposit {
                                    addr: accounts.payer.key,
                                    amount: params.amount,
                                    access_version,
                                    settle_version: params.settle_version,
                                    status: DepositStatus::Pending,
                                },
                                registry: with_versions(
                                    accounts.players_reg.data@,
                                    access_version,
                                    game_state.settle_version,
                                ),
                                effects,
                            },
                        )
                    },
                },
            },
        }
    }
}

/// The access version and the deposit to come, the registry to come, and the
/// movements to ask the runtime for.
#[derive(Debug, Clone, PartialEq, Eq)]
pub struct Deposit {
    pub access_version: u64,
    pub deposit: PlayerDeposit,
    pub registry: Vec<u8>,
    pub effects: Vec<Effect>,
}

/// Plans a deposit. Nothing is changed.
pub fn process(accounts: &DepositAccounts, game_state: &GameState, params: &DepositParams) -> (r:
    Result<Deposit, Failure>)
    ensures
        match deposited(*accounts, *game_state, *params) {
            Ok(plan) => {
                &&& r is Ok
                &&& r->Ok_0.access_version == plan.access_version
                &&& r->Ok_0.deposit == plan.deposit
                &&& r->Ok_0.registry@ == plan.registry
                &&& r->Ok_0.effects@ == plan.effects
            },
            Err(e) => r == Err::<Deposit, Failure>(e),
        },
{
    if !accounts.payer.is_signer {
        return Err(Failure::MissingRequiredSignature);
    }
    if game_state.settle_version < params.settle_version {
        return Err(Failure::Process(ProcessError::InvalidSettleVersion));
    }
    if !accounts.stake.key.eq(&game_state.stake_account) {
        return Err(Failure::Process(ProcessError::InvalidStakeAccount));
    }
    if !accounts.mint.key.eq(&game_state.token_mint) {
        return Err(Failure::Process(ProcessError::InvalidMint));
    }
    match is_player_joined(accounts.players_reg.data.as_slice(), &accounts.player.key) {
        Err(e) => {
            return Err(e);
        },
        Ok(false) => {
            return Err(Failure::Process(ProcessError::PlayerNotInGame));
        },
        Ok(true) => {},
    }
    match check_entry(&game_state.entry_type, params.amount) {
        Err(e) => {
            return Err(e);
        },
        Ok(_) => {},
    }
    let effects: Vec<Effect> = match fund(
        &accounts.temp,
        &accounts.payer.key,
        &accounts.stake.key,
        &game_state.token_mint,
        params.amount,
    ) {
        Err(e) => {
            return Err(e);
        },
        Ok(effects) => effects,
    };
    if game_state.access_version == u64::MAX {
        return Err(Failure::Process(ProcessError::StakeAmountOverflow));
    }
    let access_version: u64 = game_state.access_version + 1;
    let mut registry: Vec<u8> = vstd::slice::slice_to_vec(accounts.players_reg.data.as_slice());
    let _ = set_versions(registry.as_mut_slice(), access_version, game_state.settle_version);
    Ok(
        Deposit {
            access_version,
            deposit: PlayerDeposit {
                addr: accounts.payer.key,
                amount: params.amount,
                access_version,
                settle_version: params.settle_version,
                status: DepositStatus::Pending,
            },
            registry,
            effects,
        },
    )
}

} // verus!
