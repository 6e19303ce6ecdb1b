//! Rejection of deposits: a pending deposit is turned down, refunded where the
//! receiver is the depositor's, and the player who made it leaves the registry.
use crate::address::Address;
use crate::error::{Failure, ProcessError};
use crate::processor::misc::{
    address_to_vec, find_program_address, is_receiver_of, program_address, seeds_view,
    validate_receiver, AccountView, Effect,
};
use crate::processor::settle::is_first_deposit;
use crate::state::game::{DepositStatus, GameState, PlayerDeposit};
use crate::state::players::{
    after_removal, get_player_by_id, lookup_by_id, malformed, remove_player_by_index, set_versions,
    with_versions, HEAD_LEN,
};
use crate::state::occupancy::{
    is_exactly_sized, is_well_formed, lemma_removal_keeps_well_formed,
    lemma_versions_keep_well_formed,
};
use crate::state::players::found_by_id;
use crate::types::RejectDepositsParams;
use vstd::prelude::*;

verus! {

/// How far the rejections have come: the deposits and the registry as the rejections
/// so far leave them, and the refunds planned.
pub struct RejectStage {
    pub deposits: Seq<PlayerDeposit>,
    pub registry: Seq<u8>,
    pub effects: Seq<Effect>,
}

/// A deposit with another status.
pub open spec fn with_status(deposit: PlayerDeposit, status: DepositStatus) -> PlayerDeposit {
    PlayerDeposit {
        addr: deposit.addr,
        amount: deposit.amount,
        access_version: deposit.access_version,
        settle_version: deposit.settle_version,
        status,
    }
}

/// The stage after the deposit made at `access_version` was rejected. The deposit
/// has to be there and pending. Where the account supplied for it is the account in
/// which the depositor receives the token, the deposit is refunded out of the pool;
/// where it is not, the deposit stays rejected and nothing is moved. The player of
/// that id, if the registry holds one, is removed.
pub open spec fn after_reject(
    stage: RejectStage,
    access_version: u64,
    k: int,
    rest: Seq<AccountView>,
    stake: Address,
    mint: Address,
) -> Result<RejectStage, Failure> {
    if !exists|i: int| is_first_deposit(stage.deposits, access_version, i) {
        Err(Failure::Process(ProcessError::InvalidRejectDeposit))
    } else {
        let i = choose|i: int| is_first_deposit(stage.deposits, access_version, i);
        let deposit = stage.deposits[i];
        if deposit.status != DepositStatus::Pending {
            Err(Failure::Process(ProcessError::DuplicatedDepositRejection))
        } else if k >= rest.len() {
            Err(Failure::NotEnoughAccountKeys)
        } else {
            let refund = is_receiver_of(deposit.addr@, mint@, rest[k].key@);
            let deposits = stage.deposits.update(
                i,
                with_status(
                    deposit,
                    if refund {
                        DepositStatus::Refunded
                    } else {
                        DepositStatus::Rejected
                    },
                ),
            );
            let effects = if refund {
                stage.effects.push(
                    Effect::Transfer {
                        source: stake,
                        destination: rest[k].key,
                        mint,
                        amount: deposit.amount,
                    },
                )
            } else {
                stage.effects
            };
            match lookup_by_id(stage.registry, access_version) {
                Err(e) => Err(e),
                Ok(None) => Ok(RejectStage { deposits, registry: stage.registry, effects }),
                Ok(Some(index)) => match after_removal(stage.registry, index) {
                    Err(e) => Err(e),
                    Ok(registry) => Ok(RejectStage { deposits, registry, effects }),
                },
            }
        }
    }
}

/// The stage after the listed deposits were rejected, in order, the rejection number
/// `k` with the account supplied as number `k`.
pub open spec fn after_rejects(
    stage: RejectStage,
    rejects: Seq<u64>,
    rest: Seq<AccountView>,
    stake: Address,
    mint: Address,
) -> Result<RejectStage, Failure>
    decreases rejects.len(),
{
    if rejects.len() == 0 {
        Ok(stage)
    } else {
        match after_rejects(stage, rejects.drop_last(), rest, stake, mint) {
            Err(e) => Err(e),
            Ok(before) => after_reject(
                before,
                rejects.last(),
                rejects.len() - 1,
                rest,
                stake,
                mint,
            ),
        }
    }
}

/// A failure among the first rejections is the failure of all of them.
proof fn lemma_rejects_fail(
    stage: RejectStage,
    rejects: Seq<u64>,
    rest: Seq<AccountView>,
    stake: Address,
    mint: Address,
    k: int,
    e: Failure,
)
    requires
        0 <= k <= rejects.len(),
        after_rejects(stage, rejects.take(k), rest, stake, mint) == Err::<RejectStage, Failure>(e),
    ensures
        after_rejects(stage, rejects, rest, stake, mint) == Err::<RejectStage, Failure>(e),
    decreases rejects.len() - k,
{
    if k == rejects.len() {
        assert(rejects.take(k) =~= rejects);
    } else {
        assert(rejects.take(k + 1).drop_last() =~= rejects.take(k));
        lemma_rejects_fail(stage, rejects, rest, stake, mint, k + 1, e);
    }
}

/// What the rejections come to.
pub struct RejectPlan {
    pub deposits: Seq<PlayerDeposit>,
    pub registry: Seq<u8>,
    pub effects: Seq<Effect>,
    pub bump_seed: u8,
}

/// What the rejection of the listed deposits comes to: the plan, or the first
/// failure. The transactor has to have signed, the registry has to hold its header,
/// and the game has to have an address that signs for its pool. The registry takes
/// the versions of the ledger.
pub open spec fn rejected(
    program_id: Address,
    transactor: AccountView,
    game_key: Address,
    stake_key: Address,
    registry: Seq<u8>,
    game_state: GameState,
    rejects: Seq<u64>,
    rest: Seq<AccountView>,
) -> Result<RejectPlan, Failure> {
    if !transactor.is_signer {
        Err(Failure::MissingRequiredSignature)
    } else if registry.len() < HEAD_LEN {
        Err(malformed())
    } else {
        match program_address(seq![game_key@], program_id@) {
            None => Err(Failure::Process(ProcessError::InvalidPDA)),
            Some((_, bump_seed)) => match after_rejects(
                RejectStage { deposits: game_state.deposits@, registry, effects: Seq::empty() },
                rejects,
                rest,
                stake_key,
                game_state.token_mint,
            ) {
                Err(e) => Err(e),
                Ok(stage) => Ok(
                    RejectPlan {
                        deposits: stage.deposits,
                        registry: with_versions(
                            stage.registry,
                            game_state.access_version,
                            game_state.settle_version,
                        ),
                        effects: stage.effects,
                        bump_seed,
                    },
                ),
            },
        }
    }
}

/// The deposits and the registry to come, and the refunds to ask the runtime for.
#[derive(Debug, Clone, PartialEq, Eq)]
pub struct Rejection {
    pub deposits: Vec<PlayerDeposit>,
    pub registry: Vec<u8>,
    pub effects: Vec<Effect>,
    /// The bump seed of the address that signs for the pool.
    pub bump_seed: u8,
}

/// The first deposit made at `access_version`.
fn find_deposit(deposits: &Vec<PlayerDeposit>, access_version: u64) -> (r: Option<usize>)
    ensures
        match r {
            Some(i) => is_first_deposit(deposits@, access_version, i as int) && (choose|k: int|
                is_first_deposit(deposits@, access_version, k)) == i,
            None => !exists|i: int| is_first_deposit(deposits@, access_version, i),
        },
{
    let n: usize = deposits.len();
    let mut i: usize = 0;
    while i < n
        invariant
            i <= n,
            n == deposits@.len(),
            forall|j: int| 0 <= j < i ==> deposits@[j].access_version != access_version,
        decreases n - i,
    {
        if deposits[i].access_version == access_version {
            assert(is_first_deposit(deposits@, access_version, i as int));
            let ghost k = choose|k: int| is_first_deposit(deposits@, access_version, k);
            assert(k == i) by {
                if k < i {
                } else if i < k {
                }
            }
            return Some(i);
        }
        i += 1;
    }
    assert forall|k: int| !is_first_deposit(deposits@, access_version, k) by {}
    None
}

/// Rejects one deposit on the stage held in `deposits`, `registry` and `effects`.
fn reject_deposit(
    deposits: &mut Vec<PlayerDeposit>,
    registry: &mut Vec<u8>,
    effects: &mut Vec<Effect>,
    access_version: u64,
    k: usize,
    rest: &Vec<AccountView>,
    stake: &Address,
    mint: &Address,
) -> (r: Result<(), Failure>)
    ensures
        match after_reject(
            RejectStage {
                deposits: old(deposits)@,
                registry: old(registry)@,
                effects: old(effects)@,
            },
            access_version,
            k as int,
            rest@,
            *stake,
            *mint,
        ) {
            Ok(stage) => {
                &&& r is Ok
                &&& final(deposits)@ == stage.deposits
                &&& final(registry)@ == stage.registry
                &&& final(effects)@ == stage.effects
                &&& final(registry)@.len() == old(registry)@.len()
            },
            Err(e) => r == Err::<(), Failure>(e),
        },
{
    let i: usize = match find_deposit(deposits, access_version) {
        None => {
            return Err(Failure::Process(ProcessError::InvalidRejectDeposit));
        },
        Some(i) => i,
    };
    let deposit: PlayerDeposit = deposits[i];
    match deposit.status {
        DepositStatus::Pending => {},
        _ => {
            return Err(Failure::Process(ProcessError::DuplicatedDepositRejection));
        },
    }
    if k >= rest.len() {
        return Err(Failure::NotEnoughAccountKeys);
    }
    let receiver: &AccountView = &rest[k];
    let refund: bool = match validate_receiver(&deposit.addr, mint, &receiver.key) {
        Ok(_) => true,
        Err(_) => false,
    };
    let status: DepositStatus = if refund {
        DepositStatus::Refunded
    } else {
        DepositStatus::Rejected
    };
    deposits[i] = PlayerDeposit {
        addr: deposit.addr,
        amount: deposit.amount,
        access_version: deposit.access_version,
        settle_version: deposit.settle_version,
        status,
    };
    if refund {
        effects.push(
            Effect::Transfer {
                source: *stake,
                destination: receiver.key,
                mint: *mint,
                amount: deposit.amount,
            },
        );
    }
    match get_player_by_id(registry.as_slice(), access_version) {
        Err(e) => Err(e),
        Ok(None) => Ok(()),
        Ok(Some((index, _))) => remove_player_by_index(registry.as_mut_slice(), index),
    }
}

/// Rejects the listed deposits. Nothing is changed: what is to become of the
/// deposits and of the registry is returned with the refunds to ask the runtime for.
#[verifier::loop_isolation(false)]
pub fn process(
    program_id: &Address,
    transactor: &AccountView,
    game_key: &Address,
    stake_key: &Address,
    registry: &[u8],
    game_state: &GameState,
    params: &RejectDepositsParams,
    rest: &Vec<AccountView>,
) -> (r: Result<Rejection, Failure>)
    ensures
        match rejected(
            *program_id,
            *transactor,
            *game_key,
            *stake_key,
            registry@,
            *game_state,
            params.reject_deposits@,
            rest@,
        ) {
            Ok(plan) => {
                &&& r is Ok
                &&& r->Ok_0.deposits@ == plan.deposits
                &&& r->Ok_0.registry@ == plan.registry
                &&& r->Ok_0.effects@ == plan.effects
                &&& r->Ok_0.bump_seed == plan.bump_seed
            },
            Err(e) => r == Err::<Rejection, Failure>(e),
        },
{
    if !transactor.is_signer {
        return Err(Failure::MissingRequiredSignature);
    }
    if registry.len() < HEAD_LEN {
        return Err(Failure::Process(ProcessError::MalformedPlayersRegAccount));
    }
    let mut seeds: Vec<Vec<u8>> = Vec::new();
    seeds.push(address_to_vec(game_key));
    assert(seeds_view(seeds@) =~= seq![game_key@]);
    let bump_seed: u8 = match find_program_address(&seeds, program_id) {
        None => {
            return Err(Failure::Process(ProcessError::InvalidPDA));
        },
        Some((_, bump_seed)) => bump_seed,
    };
    let total: usize = game_state.deposits.len();
    let mut deposits: Vec<PlayerDeposit> = Vec::new();
    let mut i: usize = 0;
    while i < total
        invariant
            i <= total,
            total == game_state.deposits@.len(),
            deposits@ == game_state.deposits@.take(i as int),
        decreases total - i,
    {
        deposits.push(game_state.deposits[i]);
        assert(game_state.deposits@.take(i + 1) =~= game_state.deposits@.take(i as int).push(
            game_state.deposits@[i as int],
        ));
        i += 1;
    }
    assert(game_state.deposits@.take(total as int) =~= game_state.deposits@);
    let mut data: Vec<u8> = vstd::slice::slice_to_vec(registry);
    let mut effects: Vec<Effect> = Vec::new();
    let ghost start = RejectStage {
        deposits: game_state.deposits@,
        registry: registry@,
        effects: Seq::empty(),
    };
    let ghost rejects = params.reject_deposits@;
    let n: usize = params.reject_deposits.len();
    let mut k: usize = 0;
    while k < n
        invariant
            k <= n,
            n == rejects.len(),
            rejects == params.reject_deposits@,
            data@.len() == registry@.len(),
            start == (RejectStage {
                deposits: game_state.deposits@,
                registry: registry@,
                effects: Seq::empty(),
            }),
            after_rejects(start, rejects.take(k as int), rest@, *stake_key, game_state.token_mint)
                == Ok::<RejectStage, Failure>(
                RejectStage { deposits: deposits@, registry: data@, effects: effects@ },
            ),
        decreases n - k,
    {
        let ghost before = RejectStage { deposits: deposits@, registry: data@, effects: effects@ };
        proof {
            assert(rejects.take(k + 1).drop_last() =~= rejects.take(k as int));
            assert(after_rejects(
                start,
                rejects.take(k + 1),
                rest@,
                *stake_key,
                game_state.token_mint,
            ) == after_reject(
                before,
                rejects[k as int],
                k as int,
                rest@,
                *stake_key,
                game_state.token_mint,
            ));
        }
        match reject_deposit(
            &mut deposits,
            &mut data,
            &mut effects,
            params.reject_deposits[k],
            k,
            rest,
            stake_key,
            &game_state.token_mint,
        ) {
            Err(e) => {
                proof {
                    lemma_rejects_fail(
                        start,
                        rejects,
                        rest@,
                        *stake_key,
                        game_state.token_mint,
                        k + 1,
                        e,
                    );
                }
                return Err(e);
            },
            Ok(_) => {},
        }
        k += 1;
    }
    assert(rejects.take(n as int) =~= rejects);
    match set_versions(data.as_mut_slice(), game_state.access_version, game_state.settle_version) {
        Err(e) => Err(e),
        Ok(_) => Ok(Rejection { deposits, registry: data, effects, bump_seed }),
    }
}

/// Rejections keep the registry well formed: on a well-formed registry of exact
/// size, the rejections that go through leave a well-formed registry of exact size.
pub proof fn lemma_rejects_keep_well_formed(
    stage: RejectStage,
    rejects: Seq<u64>,
    rest: Seq<AccountView>,
    stake: Address,
    mint: Address,
)
    requires
        is_well_formed(stage.registry),
        is_exactly_sized(stage.registry),
        after_rejects(stage, rejects, rest, stake, mint) is Ok,
    ensures
        is_well_formed(after_rejects(stage, rejects, rest, stake, mint)->Ok_0.registry),
        is_exactly_sized(after_rejects(stage, rejects, rest, stake, mint)->Ok_0.registry),
    decreases rejects.len(),
{
    if rejects.len() > 0 {
        lemma_rejects_keep_well_formed(stage, rejects.drop_last(), rest, stake, mint);
        let before = after_rejects(stage, rejects.drop_last(), rest, stake, mint)->Ok_0;
        match lookup_by_id(before.registry, rejects.last()) {
            Ok(Some(index)) => {
                assert(found_by_id(before.registry, rejects.last(), index));
                lemma_removal_keeps_well_formed(before.registry, index);
            },
            _ => {},
        }
    }
}

/// The rejection of deposits keeps the registry well formed: planned on a
/// well-formed registry of exact size, it plans a well-formed registry of exact
/// size.
pub proof fn lemma_rejection_keeps_well_formed(
    program_id: Address,
    transactor: AccountView,
    game_key: Address,
    stake_key: Address,
    registry: Seq<u8>,
    game_state: GameState,
    rejects: Seq<u64>,
    rest: Seq<AccountView>,
)
    requires
        is_well_formed(registry),
        is_exactly_sized(registry),
        rejected(program_id, transactor, game_key, stake_key, registry, game_state, rejects, rest)
            is Ok,
    ensures
        is_well_formed(
            rejected(
                program_id,
                transactor,
                game_key,
                stake_key,
                registry,
                game_state,
                rejects,
                rest,
            )->Ok_0.registry,
        ),
{
    let start = RejectStage { deposits: game_state.deposits@, registry, effects: Seq::empty() };
    lemma_rejects_keep_well_formed(start, rejects, rest, stake_key, game_state.token_mint);
    let stage = after_rejects(start, rejects, rest, stake_key, game_state.token_mint)->Ok_0;
    lemma_versions_keep_well_formed(
        stage.registry,
        game_state.access_version,
        game_state.settle_version,
    );
}

} // verus!
