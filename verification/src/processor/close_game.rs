//! Closing a game: what the pool still holds goes to the owner, the bonuses that
//! were never awarded go back, and the account of the game is given up.
use crate::address::Address;
use crate::error::{Failure, ProcessError};
use crate::processor::misc::{
    address_to_vec, find_program_address, holding, holding_of, is_native_mint, is_receiver_of,
    native_mint_bytes, program_address, seeds_view, validate_receiver, AccountView, Effect,
};
use crate::processor::settle::bonus_effects;
use crate::state::game::{Bonus, GameState, PlayerBalance};
use vstd::prelude::*;

verus! {

/// The accounts that the closing of a game is handed, each under the part it plays.
#[derive(Debug, Clone, PartialEq, Eq)]
pub struct CloseAccounts {
    /// The owner of the game.
    pub owner: AccountView,
    /// The account of the game.
    pub game: AccountView,
    /// The pool of the game.
    pub stake: AccountView,
    /// The address that signs for the pool.
    pub pda: AccountView,
    /// The account that receives what the pool still holds.
    pub receiver: AccountView,
    /// For each bonus of the game, in order, the account of the bonus and the account
    /// that receives it.
    pub rest: Vec<AccountView>,
}

/// Whether a player still holds a balance.
pub open spec fn has_players(balances: Seq<PlayerBalance>) -> bool {
    exists|i: int| 0 <= i < balances.len() && balances[i].balance > 0
}

/// The movements planned after bonus number `k` was claimed back. The bonus takes the
/// supplied accounts number `2k` and `2k + 1`. A bonus whose account holds no native
/// balance has been handed out already and is passed over.
pub open spec fn after_reclaim(
    effects: Seq<Effect>,
    bonus: Bonus,
    k: int,
    rest: Seq<AccountView>,
    owner: Address,
) -> Result<Seq<Effect>, Failure> {
    if 2 * k + 2 > rest.len() {
        Err(Failure::NotEnoughAccountKeys)
    } else {
        let bonus_account = rest[2 * k];
        let receiver = rest[2 * k + 1];
        if bonus.stake_addr@ != bonus_account.key@ {
            Err(Failure::Process(ProcessError::InvalidStakeAccount))
        } else if bonus_account.lamports == 0 {
            Ok(effects)
        } else if !is_receiver_of(owner@, bonus.token_addr@, receiver.key@) {
            Err(Failure::Process(ProcessError::InvalidReceiverAddress))
        } else {
            match holding_of(bonus_account, bonus.token_addr@) {
                Err(e) => Err(e),
                Ok(amount) => Ok(
                    effects + bonus_effects(bonus_account, receiver, bonus.token_addr, amount, owner),
                ),
            }
        }
    }
}

/// The movements planned after the bonuses were claimed back, in order.
pub open spec fn after_reclaims(
    effects: Seq<Effect>,
    bonuses: Seq<Bonus>,
    rest: Seq<AccountView>,
    owner: Address,
) -> Result<Seq<Effect>, Failure>
    decreases bonuses.len(),
{
    if bonuses.len() == 0 {
        Ok(effects)
    } else {
        match after_reclaims(effects, bonuses.drop_last(), rest, owner) {
            Err(e) => Err(e),
            Ok(before) => after_reclaim(before, bonuses.last(), bonuses.len() - 1, rest, owner),
        }
    }
}

/// A failure among the first bonuses is the failure of them all.
proof fn lemma_reclaims_fail(
    effects: Seq<Effect>,
    bonuses: Seq<Bonus>,
    rest: Seq<AccountView>,
    owner: Address,
    k: int,
    e: Failure,
)
    requires
        0 <= k <= bonuses.len(),
        after_reclaims(effects, bonuses.take(k), rest, owner) == Err::<Seq<Effect>, Failure>(e),
    ensures
        after_reclaims(effects, bonuses, rest, owner) == Err::<Seq<Effect>, Failure>(e),
    decreases bonuses.len() - k,
{
    if k == bonuses.len() {
        assert(bonuses.take(k) =~= bonuses);
    } else {
        assert(bonuses.take(k + 1).drop_last() =~= bonuses.take(k));
        lemma_reclaims_fail(effects, bonuses, rest, owner, k + 1, e);
    }
}

/// The movements that empty the pool: all that it holds goes to the receiver, and a
/// pool that is a token account is closed, its rent going to the owner.
pub open spec fn pool_effects(accounts: CloseAccounts, mint: Address, amount: u64) -> Seq<Effect> {
    let transfer = Effect::Transfer {
        source: accounts.stake.key,
        destination: accounts.receiver.key,
        mint,
        amount,
    };
    if mint@ == native_mint_bytes() {
        seq![transfer]
    } else {
        seq![
            transfer,
            Effect::CloseAccount { account: accounts.stake.key, destination: accounts.owner.key },
        ]
    }
}

/// What the closing of a game comes to: the movements to ask the runtime for, with
/// the bump seed of the address that signs for the pool, or the first failure. The
/// owner has to have signed and to own the game, the pool has to be the game's, the
/// signing address the one derived from the game, and no player may hold a balance.
/// The last movement gives up the account of the game to the owner.
pub open spec fn closed(program_id: Address, accounts: CloseAccounts, game_state: GameState) -> Result<
    (Seq<Effect>, u8),
    Failure,
> {
    if !accounts.owner.is_signer {
        Err(Failure::MissingRequiredSignature)
    } else if game_state.owner@ != accounts.owner.key@ {
        Err(Failure::Process(ProcessError::InvalidOwner))
    } else if game_state.stake_account@ != accounts.stake.key@ {
        Err(Failure::Process(ProcessError::InvalidStakeAccount))
    } else {
        match program_address(seq![accounts.game.key@], program_id@) {
            None => Err(Failure::Process(ProcessError::InvalidPDA)),
            Some((address, bump_seed)) => if address != accounts.pda.key@ {
                Err(Failure::Process(ProcessError::InvalidPDA))
            } else if has_players(game_state.balances@) {
                Err(Failure::Process(ProcessError::CantCloseGame))
            } else {
                match holding_of(accounts.stake, game_state.token_mint@) {
                    Err(e) => Err(e),
                    Ok(amount) => match after_reclaims(
                        pool_effects(accounts, game_state.token_mint, amount),
                        game_state.bonuses@,
                        accounts.rest@,
                        accounts.owner.key,
                    ) {
                        Err(e) => Err(e),
                        Ok(effects) => if accounts.owner.lamports + accounts.game.lamports
                            > u64::MAX {
                            Err(Failure::Process(ProcessError::StakeAmountOverflow))
                        } else {
                            Ok(
                                (
                                    effects.push(
                                        Effect::Release {
                                            account: accounts.game.key,
                                            destination: accounts.owner.key,
                                            lamports: accounts.game.lamports,
                                        },
                                    ),
                                    bump_seed,
                                ),
                            )
                        },
                    },
                }
            },
        }
    }
}

/// Claims one bonus back for the owner.
fn claim_bonus(
    effects: &mut Vec<Effect>,
    bonus: &Bonus,
    k: usize,
    rest: &Vec<AccountView>,
    owner: &Address,
) -> (r: Result<(), Failure>)
    ensures
        match after_reclaim(old(effects)@, *bonus, k as int, rest@, *owner) {
            Ok(after) => r is Ok && final(effects)@ == after,
            Err(e) => r == Err::<(), Failure>(e),
        },
{
    let supplied: usize = rest.len();
    if k >= supplied / 2 {
        return Err(Failure::NotEnoughAccountKeys);
    }
    let bonus_account: &AccountView = &rest[2 * k];
    let receiver: &AccountView = &rest[2 * k + 1];
    if !bonus.stake_addr.eq(&bonus_account.key) {
        return Err(Failure::Process(ProcessError::InvalidStakeAccount));
    }
    if bonus_account.lamports == 0 {
        return Ok(());
    }
    match validate_receiver(owner, &bonus.token_addr, &receiver.key) {
        Err(e) => {
            return Err(e);
        },
        Ok(_) => {},
    }
    let amount: u64 = match holding(bonus_account, &bonus.token_addr) {
        Err(e) => {
            return Err(e);
        },
        Ok(amount) => amount,
    };
    effects.push(
        Effect::Transfer {
            source: bonus_account.key,
            destination: receiver.key,
            mint: bonus.token_addr,
            amount,
        },
    );
    effects.push(Effect::CloseAccount { account: bonus_account.key, destination: *owner });
    assert(effects@ =~= old(effects)@ + bonus_effects(
        *bonus_account,
        *receiver,
        bonus.token_addr,
        amount,
        *owner,
    ));
    Ok(())
}

/// Claims the bonuses of a game back for the owner, in order.
pub fn claim_bonuses(
    effects: &mut Vec<Effect>,
    bonuses: &Vec<Bonus>,
    rest: &Vec<AccountView>,
    owner: &Address,
) -> (r: Result<(), Failure>)
    ensures
        match after_reclaims(old(effects)@, bonuses@, rest@, *owner) {
            Ok(after) => r is Ok && final(effects)@ == after,
            Err(e) => r == Err::<(), Failure>(e),
        },
{
    let n: usize = bonuses.len();
    let mut k: usize = 0;
    while k < n
        invariant
            k <= n,
            n == bonuses@.len(),
            after_reclaims(old(effects)@, bonuses@.take(k as int), rest@, *owner) == Ok::<
                Seq<Effect>,
                Failure,
            >(effects@),
        decreases n - k,
    {
        proof {
            assert(bonuses@.take(k + 1).drop_last() =~= bonuses@.take(k as int));
            assert(after_reclaims(old(effects)@, bonuses@.take(k + 1), rest@, *owner)
                == after_reclaim(effects@, bonuses@[k as int], k as int, rest@, *owner));
        }
        match claim_bonus(effects, &bonuses[k], k, rest, owner) {
            Err(e) => {
                proof {
                    lemma_reclaims_fail(old(effects)@, bonuses@, rest@, *owner, k + 1, e);
                }
                return Err(e);
            },
            Ok(_) => {},
        }
        k += 1;
    }
    assert(bonuses@.take(n as int) =~= bonuses@);
    Ok(())
}

/// Whether a player still holds a balance.
fn any_balance(balances: &Vec<PlayerBalance>) -> (r: bool)
    ensures
        r == has_players(balances@),
{
    let n: usize = balances.len();
    let mut i: usize = 0;
    while i < n
        invariant
            i <= n,
            n == balances@.len(),
            forall|j: int| 0 <= j < i ==> balances@[j].balance == 0,
        decreases n - i,
    {
        if balances[i].balance > 0 {
            return true;
        }
        i += 1;
    }
    false
}

/// Plans the closing of a game. Nothing is changed: the movements to ask the runtime
/// for are returned with the bump seed of the address that signs for the pool.
pub fn process(program_id: &Address, accounts: &CloseAccounts, game_state: &GameState) -> (r: Result<
    (Vec<Effect>, u8),
    Failure,
>)
    ensures
        match closed(*program_id, *accounts, *game_state) {
            Ok((effects, bump_seed)) => r is Ok && r->Ok_0.0@ == effects && r->Ok_0.1 == bump_seed,
            Err(e) => r == Err::<(Vec<Effect>, u8), Failure>(e),
        },
{
    if !accounts.owner.is_signer {
        return Err(Failure::MissingRequiredSignature);
    }
    if !game_state.owner.eq(&accounts.owner.key) {
        return Err(Failure::Process(ProcessError::InvalidOwner));
    }
    if !game_state.stake_account.eq(&accounts.stake.key) {
        return Err(Failure::Process(ProcessError::InvalidStakeAccount));
    }
    let mut seeds: Vec<Vec<u8>> = Vec::new();
    seeds.push(address_to_vec(&accounts.game.key));
    assert(seeds_view(seeds@) =~= seq![accounts.game.key@]);
    let bump_seed: u8 = match find_program_address(&seeds, program_id) {
        None => {
            return Err(Failure::Process(ProcessError::InvalidPDA));
        },
        Some((address, bump_seed)) => {
            if !address.eq(&accounts.pda.key) {
                return Err(Failure::Process(ProcessError::InvalidPDA));
            }
            bump_seed
        },
    };
    if any_balance(&game_state.balances) {
        return Err(Failure::Process(ProcessError::CantCloseGame));
    }
    let amount: u64 = match holding(&accounts.stake, &game_state.token_mint) {
        Err(e) => {
            return Err(e);
        },
        Ok(amount) => amount,
    };
    let mut effects: Vec<Effect> = Vec::new();
    effects.push(
        Effect::Transfer {
            source: accounts.stake.key,
            destination: accounts.receiver.key,
            mint: game_state.token_mint,
            amount,
        },
    );
    if !is_native_mint(&game_state.token_mint) {
        effects.push(
            Effect::CloseAccount { account: accounts.stake.key, destination: accounts.owner.key },
        );
    }
    assert(effects@ =~= pool_effects(*accounts, game_state.token_mint, amount));
    match claim_bonuses(&mut effects, &game_state.bonuses, &accounts.rest, &accounts.owner.key) {
        Err(e) => {
            return Err(e);
        },
        Ok(_) => {},
    }
    if accounts.game.lamports > u64::MAX - accounts.owner.lamports {
        return Err(Failure::Process(ProcessError::StakeAmountOverflow));
    }
    effects.push(
        Effect::Release {
            account: accounts.game.key,
            destination: accounts.owner.key,
            lamports: accounts.game.lamports,
        },
    );
    Ok((effects, bump_seed))
}

} // verus!
