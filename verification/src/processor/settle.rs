//! Settlement: the batch that moves a game from one settle version to the next.
//!
//! A settlement is worked out in two steps. `process` reads the ledger, the players
//! registry and the accounts the transaction names, and plans: the balances and
//! deposits to come, the registry to come, and the movements of value to ask the
//! runtime for. It changes nothing. Once the runtime has carried out the movements,
//! `Settlement::commit` holds what the pool then holds against what the ledger would
//! say, and only if the two agree writes the plan into the ledger and the registry.
use crate::address::Address;
use crate::error::{Failure, ProcessError};
use crate::processor::misc::{
    address_to_vec, find_program_address, holding, holding_of, is_receiver_of, program_address,
    seeds_view, validate_receiver, AccountView, Effect,
};
use crate::state::game::{Bonus, DepositStatus, EntryLock, GameState, PlayerBalance, PlayerDeposit};
use crate::state::occupancy::{
    empties_are_blank, is_exactly_sized, is_well_formed, lemma_removal_keeps_blank,
    lemma_removal_keeps_well_formed, lemma_versions_keep_well_formed,
};
use crate::state::players::{
    after_removal, found_by_id, get_player_by_id, holds_id, is_uncut, lemma_absent_is_not_found,
    lookup_by_id, malformed, players_count_of, remove_player_by_index, removed, set_versions,
    slot_addr, slot_begins, slot_is_blank, slot_readable, slots_count_of, with_versions,
    write_bytes, PlayerJoinWithoutKey, HEAD_LEN,
};
use crate::state::recipient::{RecipientSlot, RecipientState};
use crate::types::{Award, BalanceChange, Settle, SettleParams, Transfer};
use vstd::prelude::*;

verus! {

/// Whether row `index` is the first row of the player `id`.
pub open spec fn is_first_balance(balances: Seq<PlayerBalance>, id: u64, index: int) -> bool {
    &&& 0 <= index < balances.len()
    &&& balances[index].player_id == id
    &&& forall|j: int| 0 <= j < index ==> balances[j].player_id != id
}

/// Whether the player `id` has a row.
pub open spec fn has_balance(balances: Seq<PlayerBalance>, id: u64) -> bool {
    exists|i: int| is_first_balance(balances, id, i)
}

/// The first row of the player `id`, for a player that has one.
pub open spec fn first_balance(balances: Seq<PlayerBalance>, id: u64) -> int {
    choose|i: int| is_first_balance(balances, id, i)
}

/// The balances after one change to the balance of the player `id`. An addition goes
/// to the player's first row, or opens a row; a subtraction needs a row that holds
/// as much.
pub open spec fn changed_balances(
    balances: Seq<PlayerBalance>,
    id: u64,
    change: Option<BalanceChange>,
) -> Result<Seq<PlayerBalance>, Failure> {
    match change {
        None => Ok(balances),
        Some(BalanceChange::Add(amount)) => if has_balance(balances, id) {
            let i = first_balance(balances, id);
            if balances[i].balance + amount > u64::MAX {
                Err(Failure::Process(ProcessError::PlayerBalanceOverflow))
            } else {
                Ok(
                    balances.update(
                        i,
                        PlayerBalance { player_id: id, balance: (balances[i].balance + amount) as u64 },
                    ),
                )
            }
        } else {
            Ok(balances.push(PlayerBalance { player_id: id, balance: amount }))
        },
        Some(BalanceChange::Sub(amount)) => if has_balance(balances, id) {
            let i = first_balance(balances, id);
            if balances[i].balance < amount {
                Err(Failure::Process(ProcessError::InvalidSettleBalance))
            } else {
                Ok(
                    balances.update(
                        i,
                        PlayerBalance { player_id: id, balance: (balances[i].balance - amount) as u64 },
                    ),
                )
            }
        } else {
            Err(Failure::Process(ProcessError::InvalidSettleBalance))
        },
    }
}

/// The first row of the player `id`.
fn find_balance(balances: &Vec<PlayerBalance>, id: u64) -> (r: Option<usize>)
    ensures
        match r {
            Some(i) => is_first_balance(balances@, id, i as int) && has_balance(balances@, id)
                && first_balance(balances@, id) == i,
            None => !has_balance(balances@, id),
        },
{
    let n: usize = balances.len();
    let mut i: usize = 0;
    while i < n
        invariant
            i <= n,
            n == balances@.len(),
            forall|j: int| 0 <= j < i ==> balances@[j].player_id != id,
        decreases n - i,
    {
        if balances[i].player_id == id {
            assert(is_first_balance(balances@, id, i as int));
            let ghost k = first_balance(balances@, id);
            assert(is_first_balance(balances@, id, k));
            assert(k == i) by {
                if k < i {
                } else if i < k {
                }
            }
            return Some(i);
        }
        i += 1;
    }
    assert forall|k: int| !is_first_balance(balances@, id, k) by {}
    None
}

/// Applies one change to the balance of the player `id`.
pub fn apply_change(balances: &mut Vec<PlayerBalance>, id: u64, change: Option<BalanceChange>) -> (r:
    Result<(), Failure>)
    ensures
        match changed_balances(old(balances)@, id, change) {
            Ok(after) => r is Ok && final(balances)@ == after,
            Err(e) => r == Err::<(), Failure>(e) && final(balances)@ == old(balances)@,
        },
{
    match change {
        None => Ok(()),
        Some(BalanceChange::Add(amount)) => match find_balance(balances, id) {
            Some(i) => {
                let held: u64 = balances[i].balance;
                if amount > u64::MAX - held {
                    Err(Failure::Process(ProcessError::PlayerBalanceOverflow))
                } else {
                    balances[i] = PlayerBalance { player_id: id, balance: held + amount };
                    Ok(())
                }
            },
            None => {
                balances.push(PlayerBalance { player_id: id, balance: amount });
                Ok(())
            },
        },
        Some(BalanceChange::Sub(amount)) => match find_balance(balances, id) {
            Some(i) => {
                let held: u64 = balances[i].balance;
                if held < amount {
                    Err(Failure::Process(ProcessError::InvalidSettleBalance))
                } else {
                    balances[i] = PlayerBalance { player_id: id, balance: held - amount };
                    Ok(())
                }
            },
            None => Err(Failure::Process(ProcessError::InvalidSettleBalance)),
        },
    }
}

/// A payout that a settlement has queued: what a player who leaves is paid.
#[derive(Debug, Clone, Copy, PartialEq, Eq)]
pub struct Payout {
    pub addr: Address,
    pub amount: u64,
}

/// The payouts with each address as its bytes.
pub open spec fn payouts_view(pays: Seq<Payout>) -> Seq<(Seq<u8>, u64)> {
    Seq::new(pays.len(), |i: int| (pays[i].addr@, pays[i].amount))
}

/// How far the lines of a settlement have come: the balances and the registry as the
/// lines so far leave them, and the payouts they have queued.
pub struct SettleStage {
    pub balances: Seq<PlayerBalance>,
    pub registry: Seq<u8>,
    pub pays: Seq<(Seq<u8>, u64)>,
}

/// The stage after one line. The line's change is applied to the balances. If the
/// line ejects the player, the player is looked up in the registry by id, a payout
/// of the line's amount, if it is not zero, is queued to the player's address, and
/// the player is removed from the registry. A player to eject whom no slot holds
/// fails the line; a blank slot holds nobody.
pub open spec fn after_settle(stage: SettleStage, settle: Settle) -> Result<SettleStage, Failure> {
    match changed_balances(stage.balances, settle.player_id, settle.change) {
        Err(e) => Err(e),
        Ok(balances) => if !settle.eject {
            Ok(SettleStage { balances, registry: stage.registry, pays: stage.pays })
        } else {
            match lookup_by_id(stage.registry, settle.player_id) {
                Err(e) => Err(e),
                Ok(None) => Err(Failure::Process(ProcessError::InvalidSettlePlayerId)),
                Ok(Some(index)) => match after_removal(stage.registry, index) {
                    Err(e) => Err(e),
                    Ok(registry) => Ok(
                        SettleStage {
                            balances,
                            registry,
                            pays: if settle.amount > 0 {
                                stage.pays.push((slot_addr(stage.registry, index), settle.amount))
                            } else {
                                stage.pays
                            },
                        },
                    ),
                },
            }
        },
    }
}

/// The stage after the lines, each applied before the next is read. The first line
/// that fails fails them all.
pub open spec fn after_settles(stage: SettleStage, settles: Seq<Settle>) -> Result<
    SettleStage,
    Failure,
>
    decreases settles.len(),
{
    if settles.len() == 0 {
        Ok(stage)
    } else {
        match after_settles(stage, settles.drop_last()) {
            Err(e) => Err(e),
            Ok(before) => after_settle(before, settles.last()),
        }
    }
}

/// The balances without the rows that hold nothing.
pub open spec fn without_zero(balances: Seq<PlayerBalance>) -> Seq<PlayerBalance> {
    balances.filter(|b: PlayerBalance| b.balance > 0)
}

/// A failure among the first lines is the failure of all the lines.
pub proof fn lemma_settles_fail(stage: SettleStage, settles: Seq<Settle>, k: int, e: Failure)
    requires
        0 <= k <= settles.len(),
        after_settles(stage, settles.take(k)) == Err::<SettleStage, Failure>(e),
    ensures
        after_settles(stage, settles) == Err::<SettleStage, Failure>(e),
    decreases settles.len() - k,
{
    if k == settles.len() {
        assert(settles.take(k) =~= settles);
    } else {
        assert(settles.take(k + 1).drop_last() =~= settles.take(k));
        lemma_settles_fail(stage, settles, k + 1, e);
    }
}

/// What the lines of a settlement leave: the balances, without the rows that hold
/// nothing, the registry, and the payouts in the order they were queued.
#[derive(Debug, Clone, PartialEq, Eq)]
pub struct SettleOutcome {
    pub balances: Vec<PlayerBalance>,
    pub registry: Vec<u8>,
    pub pays: Vec<Payout>,
}

/// A copy of the balances.
fn copy_balances(balances: &Vec<PlayerBalance>) -> (r: Vec<PlayerBalance>)
    ensures
        r@ == balances@,
{
    let n: usize = balances.len();
    let mut r: Vec<PlayerBalance> = Vec::new();
    let mut i: usize = 0;
    while i < n
        invariant
            i <= n,
            n == balances@.len(),
            r@ == balances@.take(i as int),
        decreases n - i,
    {
        r.push(balances[i]);
        assert(balances@.take(i + 1) =~= balances@.take(i as int).push(balances@[i as int]));
        i += 1;
    }
    assert(balances@.take(n as int) =~= balances@);
    r
}

/// The balances without the rows that hold nothing.
fn prune_balances(balances: &Vec<PlayerBalance>) -> (r: Vec<PlayerBalance>)
    ensures
        r@ == without_zero(balances@),
{
    let n: usize = balances.len();
    let mut r: Vec<PlayerBalance> = Vec::new();
    let mut i: usize = 0;
    while i < n
        invariant
            i <= n,
            n == balances@.len(),
            r@ == without_zero(balances@.take(i as int)),
        decreases n - i,
    {
        proof {
            reveal(Seq::filter);
            assert(balances@.take(i + 1).drop_last() =~= balances@.take(i as int));
        }
        if balances[i].balance > 0 {
            r.push(balances[i]);
        }
        i += 1;
    }
    proof {
        reveal(Seq::filter);
        assert(balances@.take(n as int) =~= balances@);
    }
    r
}

/// Applies one line of a settlement to the stage held in `balances`, `registry` and
/// `pays`.
fn handle_settle(
    balances: &mut Vec<PlayerBalance>,
    registry: &mut Vec<u8>,
    pays: &mut Vec<Payout>,
    settle: &Settle,
) -> (r: Result<(), Failure>)
    ensures
        match after_settle(
            SettleStage {
                balances: old(balances)@,
                registry: old(registry)@,
                pays: payouts_view(old(pays)@),
            },
            *settle,
        ) {
            Ok(stage) => {
                &&& r is Ok
                &&& final(balances)@ == stage.balances
                &&& final(registry)@ == stage.registry
                &&& payouts_view(final(pays)@) == stage.pays
            },
            Err(e) => r == Err::<(), Failure>(e),
        },
{
    match apply_change(balances, settle.player_id, settle.change) {
        Err(e) => {
            return Err(e);
        },
        Ok(_) => {},
    }
    if !settle.eject {
        return Ok(());
    }
    match get_player_by_id(registry.as_slice(), settle.player_id) {
        Err(e) => Err(e),
        Ok(None) => Err(Failure::Process(ProcessError::InvalidSettlePlayerId)),
        Ok(Some((index, player))) => {
            match remove_player_by_index(registry.as_mut_slice(), index) {
                Err(e) => Err(e),
                Ok(_) => {
                    if settle.amount > 0 {
                        pays.push(Payout { addr: player.addr, amount: settle.amount });
                        assert(payouts_view(pays@) =~= payouts_view(old(pays)@).push(
                            (slot_addr(old(registry)@, index as int), settle.amount),
                        ));
                    }
                    Ok(())
                },
            }
        },
    }
}

/// Applies the lines of a settlement, in order, to copies of the balances and of the
/// registry, and prunes the balances that have come to nothing.
pub fn handle_settles(balances: &Vec<PlayerBalance>, registry: &[u8], settles: &Vec<Settle>) -> (r:
    Result<SettleOutcome, Failure>)
    ensures
        match after_settles(
            SettleStage { balances: balances@, registry: registry@, pays: Seq::empty() },
            settles@,
        ) {
            Ok(stage) => {
                &&& r is Ok
                &&& r->Ok_0.balances@ == without_zero(stage.balances)
                &&& r->Ok_0.registry@ == stage.registry
                &&& payouts_view(r->Ok_0.pays@) == stage.pays
            },
            Err(e) => r == Err::<SettleOutcome, Failure>(e),
        },
{
    let ghost start = SettleStage { balances: balances@, registry: registry@, pays: Seq::empty() };
    let mut staged: Vec<PlayerBalance> = copy_balances(balances);
    let mut data: Vec<u8> = vstd::slice::slice_to_vec(registry);
    let mut pays: Vec<Payout> = Vec::new();
    assert(payouts_view(pays@) =~= Seq::empty());
    let n: usize = settles.len();
    let mut i: usize = 0;
    while i < n
        invariant
            i <= n,
            n == settles@.len(),
            start == (SettleStage {
                balances: balances@,
                registry: registry@,
                pays: Seq::empty(),
            }),
            after_settles(start, settles@.take(i as int)) == Ok::<SettleStage, Failure>(
                SettleStage { balances: staged@, registry: data@, pays: payouts_view(pays@) },
            ),
        decreases n - i,
    {
        let ghost before = SettleStage {
            balances: staged@,
            registry: data@,
            pays: payouts_view(pays@),
        };
        proof {
            assert(settles@.take(i + 1).drop_last() =~= settles@.take(i as int));
            assert(after_settles(start, settles@.take(i + 1)) == after_settle(
                before,
                settles@[i as int],
            ));
        }
        match handle_settle(&mut staged, &mut data, &mut pays, &settles[i]) {
            Err(e) => {
                proof {
                    assert(after_settle(before, settles@[i as int]) == Err::<SettleStage, Failure>(e));
                    assert(after_settles(start, settles@.take(i + 1)) == Err::<
                        SettleStage,
                        Failure,
                    >(e));
                    lemma_settles_fail(start, settles@, i + 1, e);
                }
                return Err(e);
            },
            Ok(_) => {},
        }
        i += 1;
    }
    assert(settles@.take(n as int) =~= settles@);
    let pruned: Vec<PlayerBalance> = prune_balances(&staged);
    Ok(SettleOutcome { balances: pruned, registry: data, pays })
}

/// The transfers that pay the queued payouts out of the pool `stake`. The payout
/// queued as number `k` goes to the account supplied as number `k`, which has to be
/// the account in which the player receives the token `mint`.
pub open spec fn payout_effects(
    pays: Seq<(Seq<u8>, u64)>,
    rest: Seq<AccountView>,
    stake: Address,
    mint: Address,
) -> Result<Seq<Effect>, Failure>
    decreases pays.len(),
{
    if pays.len() == 0 {
        Ok(Seq::empty())
    } else {
        match payout_effects(pays.drop_last(), rest, stake, mint) {
            Err(e) => Err(e),
            Ok(effects) => {
                let k = pays.len() - 1;
                if k >= rest.len() {
                    Err(Failure::NotEnoughAccountKeys)
                } else if !is_receiver_of(pays[k].0, mint@, rest[k].key@) {
                    Err(Failure::Process(ProcessError::InvalidReceiverAddress))
                } else {
                    Ok(
                        effects.push(
                            Effect::Transfer {
                                source: stake,
                                destination: rest[k].key,
                                mint,
                                amount: pays[k].1,
                            },
                        ),
                    )
                }
            },
        }
    }
}

/// A failure among the first payouts is the failure of all the payouts.
proof fn lemma_payouts_fail(
    pays: Seq<(Seq<u8>, u64)>,
    rest: Seq<AccountView>,
    stake: Address,
    mint: Address,
    k: int,
    e: Failure,
)
    requires
        0 <= k <= pays.len(),
        payout_effects(pays.take(k), rest, stake, mint) == Err::<Seq<Effect>, Failure>(e),
    ensures
        payout_effects(pays, rest, stake, mint) == Err::<Seq<Effect>, Failure>(e),
    decreases pays.len() - k,
{
    if k == pays.len() {
        assert(pays.take(k) =~= pays);
    } else {
        assert(pays.take(k + 1).drop_last() =~= pays.take(k));
        lemma_payouts_fail(pays, rest, stake, mint, k + 1, e);
    }
}

/// Plans the transfers that pay the queued payouts, each to the account supplied
/// for it.
pub fn handle_payouts(pays: &Vec<Payout>, rest: &Vec<AccountView>, stake: &Address, mint: &Address) -> (r:
    Result<Vec<Effect>, Failure>)
    ensures
        match payout_effects(payouts_view(pays@), rest@, *stake, *mint) {
            Ok(effects) => r is Ok && r->Ok_0@ == effects,
            Err(e) => r == Err::<Vec<Effect>, Failure>(e),
        },
        r is Ok ==> pays@.len() <= rest@.len(),
{
    let ghost queue = payouts_view(pays@);
    let mut effects: Vec<Effect> = Vec::new();
    let n: usize = pays.len();
    let mut k: usize = 0;
    while k < n
        invariant
            k <= n,
            n == pays@.len(),
            queue == payouts_view(pays@),
            payout_effects(queue.take(k as int), rest@, *stake, *mint) == Ok::<Seq<Effect>, Failure>(
                effects@,
            ),
            k <= rest@.len(),
        decreases n - k,
    {
        proof {
            assert(queue.take(k + 1).drop_last() =~= queue.take(k as int));
            assert(queue.take(k + 1).last() == (pays@[k as int].addr@, pays@[k as int].amount));
        }
        if k >= rest.len() {
            proof {
                lemma_payouts_fail(queue, rest@, *stake, *mint, k + 1, Failure::NotEnoughAccountKeys);
            }
            return Err(Failure::NotEnoughAccountKeys);
        }
        let receiver: &AccountView = &rest[k];
        match validate_receiver(&pays[k].addr, mint, &receiver.key) {
            Err(e) => {
                proof {
                    lemma_payouts_fail(queue, rest@, *stake, *mint, k + 1, e);
                }
                return Err(e);
            },
            Ok(_) => {},
        }
        effects.push(
            Effect::Transfer {
                source: *stake,
                destination: receiver.key,
                mint: *mint,
                amount: pays[k].amount,
            },
        );
        k += 1;
    }
    assert(queue.take(n as int) =~= queue);
    Ok(effects)
}

/// Whether slot `index` is the first slot that holds the token `mint`.
pub open spec fn is_first_slot_of(slots: Seq<RecipientSlot>, mint: Seq<u8>, index: int) -> bool {
    &&& 0 <= index < slots.len()
    &&& slots[index].token_addr@ == mint
    &&& forall|j: int| 0 <= j < index ==> slots[j].token_addr@ != mint
}

/// The transfer that moves the commission out of the pool `stake` into the slot of
/// the recipient that holds the token `mint`. The account supplied at `cursor` has
/// to be the pool of that slot.
pub open spec fn commission_effect(
    transfer: Transfer,
    slots: Seq<RecipientSlot>,
    rest: Seq<AccountView>,
    cursor: int,
    stake: Address,
    mint: Address,
) -> Result<Effect, Failure> {
    if cursor >= rest.len() {
        Err(Failure::NotEnoughAccountKeys)
    } else if !exists|i: int| is_first_slot_of(slots, mint@, i) {
        Err(Failure::Process(ProcessError::InvalidSlotId))
    } else {
        let i = choose|i: int| is_first_slot_of(slots, mint@, i);
        if rest[cursor].key@ != slots[i].stake_addr@ {
            Err(Failure::Process(ProcessError::InvalidSlotStakeAccount))
        } else {
            Ok(
                Effect::Transfer {
                    source: stake,
                    destination: rest[cursor].key,
                    mint,
                    amount: transfer.amount,
                },
            )
        }
    }
}

/// The first slot that holds the token `mint`.
fn find_slot(slots: &Vec<RecipientSlot>, mint: &Address) -> (r: Option<usize>)
    ensures
        match r {
            Some(i) => is_first_slot_of(slots@, mint@, i as int) && (choose|k: int|
                is_first_slot_of(slots@, mint@, k)) == i,
            None => !exists|i: int| is_first_slot_of(slots@, mint@, i),
        },
{
    let n: usize = slots.len();
    let mut i: usize = 0;
    while i < n
        invariant
            i <= n,
            n == slots@.len(),
            forall|j: int| 0 <= j < i ==> slots@[j].token_addr@ != mint@,
        decreases n - i,
    {
        if slots[i].token_addr.eq(mint) {
            assert(is_first_slot_of(slots@, mint@, i as int));
            let ghost k = choose|k: int| is_first_slot_of(slots@, mint@, k);
            assert(k == i) by {
                if k < i {
                } else if i < k {
                }
            }
            return Some(i);
        }
        i += 1;
    }
    assert forall|k: int| !is_first_slot_of(slots@, mint@, k) by {}
    None
}

/// Plans the transfer of the commission to the recipient.
pub fn handle_transfer(
    transfer: &Transfer,
    recipient_state: &RecipientState,
    rest: &Vec<AccountView>,
    cursor: usize,
    stake: &Address,
    mint: &Address,
) -> (r: Result<Effect, Failure>)
    ensures
        r == commission_effect(
            *transfer,
            recipient_state.slots@,
            rest@,
            cursor as int,
            *stake,
            *mint,
        ),
{
    if cursor >= rest.len() {
        return Err(Failure::NotEnoughAccountKeys);
    }
    let slot_stake_account: &AccountView = &rest[cursor];
    match find_slot(&recipient_state.slots, mint) {
        None => Err(Failure::Process(ProcessError::InvalidSlotId)),
        Some(i) => {
            if slot_stake_account.key.eq(&recipient_state.slots[i].stake_addr) {
                Ok(
                    Effect::Transfer {
                        source: *stake,
                        destination: slot_stake_account.key,
                        mint: *mint,
                        amount: transfer.amount,
                    },
                )
            } else {
                Err(Failure::Process(ProcessError::InvalidSlotStakeAccount))
            }
        },
    }
}

/// Whether deposit `index` is the first deposit made at `access_version`.
pub open spec fn is_first_deposit(deposits: Seq<PlayerDeposit>, access_version: u64, index: int) -> bool {
    &&& 0 <= index < deposits.len()
    &&& deposits[index].access_version == access_version
    &&& forall|j: int| 0 <= j < index ==> deposits[j].access_version != access_version
}

/// The deposits after the first deposit made at `access_version`, if there is one,
/// was accepted.
pub open spec fn accepted(deposits: Seq<PlayerDeposit>, access_version: u64) -> Seq<PlayerDeposit> {
    if exists|i: int| is_first_deposit(deposits, access_version, i) {
        let i = choose|i: int| is_first_deposit(deposits, access_version, i);
        deposits.update(
            i,
            PlayerDeposit {
                addr: deposits[i].addr,
                amount: deposits[i].amount,
                access_version: deposits[i].access_version,
                settle_version: deposits[i].settle_version,
                status: DepositStatus::Accepted,
            },
        )
    } else {
        deposits
    }
}

/// The deposits after each of the listed ones was accepted, in order.
pub open spec fn accepted_all(deposits: Seq<PlayerDeposit>, accepts: Seq<u64>) -> Seq<PlayerDeposit>
    decreases accepts.len(),
{
    if accepts.len() == 0 {
        deposits
    } else {
        accepted(accepted_all(deposits, accepts.drop_last()), accepts.last())
    }
}

/// Whether a deposit still waits: it is pending, or rejected and not yet refunded.
pub open spec fn is_unresolved(deposit: PlayerDeposit) -> bool {
    deposit.status == DepositStatus::Pending || deposit.status == DepositStatus::Rejected
}

/// The deposits that still wait.
pub open spec fn unresolved(deposits: Seq<PlayerDeposit>) -> Seq<PlayerDeposit> {
    deposits.filter(|d: PlayerDeposit| is_unresolved(d))
}

/// Accepts the first deposit made at `access_version`, if there is one.
fn accept_deposit(deposits: &mut Vec<PlayerDeposit>, access_version: u64)
    ensures
        final(deposits)@ == accepted(old(deposits)@, access_version),
{
    let n: usize = deposits.len();
    let mut i: usize = 0;
    while i < n
        invariant
            i <= n,
            n == deposits@.len(),
            deposits@ == old(deposits)@,
            forall|j: int| 0 <= j < i ==> deposits@[j].access_version != access_version,
        decreases n - i,
    {
        if deposits[i].access_version == access_version {
            assert(is_first_deposit(deposits@, access_version, i as int));
            let ghost k = choose|k: int| is_first_deposit(deposits@, access_version, k);
            assert(k == i) by {
                if k < i {
                } else if i < k {
                }
            }
            let d: PlayerDeposit = deposits[i];
            deposits[i] = PlayerDeposit {
                addr: d.addr,
                amount: d.amount,
                access_version: d.access_version,
                settle_version: d.settle_version,
                status: DepositStatus::Accepted,
            };
            return ;
        }
        i += 1;
    }
    assert forall|k: int| !is_first_deposit(deposits@, access_version, k) by {}
}

/// Accepts the listed deposits and keeps the deposits that still wait.
pub fn accept_deposits(deposits: &Vec<PlayerDeposit>, accepts: &Vec<u64>) -> (r: Vec<PlayerDeposit>)
    ensures
        r@ == unresolved(accepted_all(deposits@, accepts@)),
{
    let n: usize = deposits.len();
    let mut staged: Vec<PlayerDeposit> = Vec::new();
    let mut i: usize = 0;
    while i < n
        invariant
            i <= n,
            n == deposits@.len(),
            staged@ == deposits@.take(i as int),
        decreases n - i,
    {
        staged.push(deposits[i]);
        assert(deposits@.take(i + 1) =~= deposits@.take(i as int).push(deposits@[i as int]));
        i += 1;
    }
    assert(deposits@.take(n as int) =~= deposits@);
    let m: usize = accepts.len();
    let mut k: usize = 0;
    while k < m
        invariant
            k <= m,
            m == accepts@.len(),
            staged@ == accepted_all(deposits@, accepts@.take(k as int)),
        decreases m - k,
    {
        assert(accepts@.take(k + 1).drop_last() =~= accepts@.take(k as int));
        accept_deposit(&mut staged, accepts[k]);
        k += 1;
    }
    assert(accepts@.take(m as int) =~= accepts@);
    let total: usize = staged.len();
    let mut kept: Vec<PlayerDeposit> = Vec::new();
    let mut j: usize = 0;
    while j < total
        invariant
            j <= total,
            total == staged@.len(),
            kept@ == unresolved(staged@.take(j as int)),
        decreases total - j,
    {
        proof {
            reveal(Seq::filter);
            assert(staged@.take(j + 1).drop_last() =~= staged@.take(j as int));
        }
        match staged[j].status {
            DepositStatus::Pending => {
                kept.push(staged[j]);
            },
            DepositStatus::Rejected => {
                kept.push(staged[j]);
            },
            _ => {},
        }
        j += 1;
    }
    proof {
        reveal(Seq::filter);
        assert(staged@.take(total as int) =~= staged@);
    }
    kept
}

/// How far the awards of a settlement have come: the movements planned so far, and
/// how many of the supplied accounts they have used.
pub struct AwardStage {
    pub effects: Seq<Effect>,
    pub cursor: int,
}

/// The two movements that hand a bonus out: all that the account of the bonus holds
/// goes to the receiver, and the emptied account is closed, its rent going to the
/// transactor.
pub open spec fn bonus_effects(
    bonus_account: AccountView,
    receiver: AccountView,
    mint: Address,
    amount: u64,
    transactor: Address,
) -> Seq<Effect> {
    seq![
        Effect::Transfer { source: bonus_account.key, destination: receiver.key, mint, amount },
        Effect::CloseAccount { account: bonus_account.key, destination: transactor },
    ]
}

/// The stage after one bonus was held against one award. A bonus of another
/// identifier leaves the stage as it is. A bonus of the award's identifier takes the
/// next two supplied accounts, the account of the bonus and the receiver; the first
/// has to be the account the bonus names, the player has to be in the registry, and
/// the second has to be the account in which the player receives the bonus's token.
pub open spec fn after_bonus(
    stage: AwardStage,
    bonus: Bonus,
    award: Award,
    registry: Seq<u8>,
    rest: Seq<AccountView>,
    transactor: Address,
) -> Result<AwardStage, Failure> {
    if bonus.identifier@ != award.bonus_identifier@ {
        Ok(stage)
    } else if stage.cursor + 2 > rest.len() {
        Err(Failure::NotEnoughAccountKeys)
    } else {
        let bonus_account = rest[stage.cursor];
        let receiver = rest[stage.cursor + 1];
        if bonus.stake_addr@ != bonus_account.key@ {
            Err(Failure::Process(ProcessError::InvalidAwardIdentifier))
        } else {
            match lookup_by_id(registry, award.player_id) {
                Err(e) => Err(e),
                Ok(None) => Err(Failure::Process(ProcessError::InvalidAwardPlayerId)),
                Ok(Some(index)) => if !is_receiver_of(
                    slot_addr(registry, index),
                    bonus.token_addr@,
                    receiver.key@,
                ) {
                    Err(Failure::Process(ProcessError::InvalidReceiverAddress))
                } else {
                    match holding_of(bonus_account, bonus.token_addr@) {
                        Err(e) => Err(e),
                        Ok(amount) => Ok(
                            AwardStage {
                                effects: stage.effects + bonus_effects(
                                    bonus_account,
                                    receiver,
                                    bonus.token_addr,
                                    amount,
                                    transactor,
                                ),
                                cursor: stage.cursor + 2,
                            },
                        ),
                    }
                },
            }
        }
    }
}

/// The stage after every bonus, in order, was held against one award.
pub open spec fn after_award(
    stage: AwardStage,
    bonuses: Seq<Bonus>,
    award: Award,
    registry: Seq<u8>,
    rest: Seq<AccountView>,
    transactor: Address,
) -> Result<AwardStage, Failure>
    decreases bonuses.len(),
{
    if bonuses.len() == 0 {
        Ok(stage)
    } else {
        match after_award(stage, bonuses.drop_last(), award, registry, rest, transactor) {
            Err(e) => Err(e),
            Ok(before) => after_bonus(before, bonuses.last(), award, registry, rest, transactor),
        }
    }
}

/// The stage after the awards, in order.
pub open spec fn after_awards(
    stage: AwardStage,
    awards: Seq<Award>,
    bonuses: Seq<Bonus>,
    registry: Seq<u8>,
    rest: Seq<AccountView>,
    transactor: Address,
) -> Result<AwardStage, Failure>
    decreases awards.len(),
{
    if awards.len() == 0 {
        Ok(stage)
    } else {
        match after_awards(stage, awards.drop_last(), bonuses, registry, rest, transactor) {
            Err(e) => Err(e),
            Ok(before) => after_award(before, bonuses, awards.last(), registry, rest, transactor),
        }
    }
}

/// A failure among the first bonuses is the failure of the award.
proof fn lemma_award_fails(
    stage: AwardStage,
    bonuses: Seq<Bonus>,
    award: Award,
    registry: Seq<u8>,
    rest: Seq<AccountView>,
    transactor: Address,
    k: int,
    e: Failure,
)
    requires
        0 <= k <= bonuses.len(),
        after_award(stage, bonuses.take(k), award, registry, rest, transactor) == Err::<
            AwardStage,
            Failure,
        >(e),
    ensures
        after_award(stage, bonuses, award, registry, rest, transactor) == Err::<
            AwardStage,
            Failure,
        >(e),
    decreases bonuses.len() - k,
{
    if k == bonuses.len() {
        assert(bonuses.take(k) =~= bonuses);
    } else {
        assert(bonuses.take(k + 1).drop_last() =~= bonuses.take(k));
        lemma_award_fails(stage, bonuses, award, registry, rest, transactor, k + 1, e);
    }
}

/// A failure among the first awards is the failure of all the awards.
proof fn lemma_awards_fail(
    stage: AwardStage,
    awards: Seq<Award>,
    bonuses: Seq<Bonus>,
    registry: Seq<u8>,
    rest: Seq<AccountView>,
    transactor: Address,
    k: int,
    e: Failure,
)
    requires
        0 <= k <= awards.len(),
        after_awards(stage, awards.take(k), bonuses, registry, rest, transactor) == Err::<
            AwardStage,
            Failure,
        >(e),
    ensures
        after_awards(stage, awards, bonuses, registry, rest, transactor) == Err::<
            AwardStage,
            Failure,
        >(e),
    decreases awards.len() - k,
{
    if k == awards.len() {
        assert(awards.take(k) =~= awards);
    } else {
        assert(awards.take(k + 1).drop_last() =~= awards.take(k));
        lemma_awards_fail(stage, awards, bonuses, registry, rest, transactor, k + 1, e);
    }
}

/// Holds one bonus against one award and plans the movements that hand it out.
fn handle_bonus(
    effects: &mut Vec<Effect>,
    cursor: usize,
    bonus: &Bonus,
    award: &Award,
    registry: &[u8],
    rest: &Vec<AccountView>,
    transactor: &Address,
) -> (r: Result<usize, Failure>)
    ensures
        match after_bonus(
            AwardStage { effects: old(effects)@, cursor: cursor as int },
            *bonus,
            *award,
            registry@,
            rest@,
            *transactor,
        ) {
            Ok(stage) => {
                &&& r is Ok
                &&& r->Ok_0 == stage.cursor
                &&& final(effects)@ == stage.effects
            },
            Err(e) => r == Err::<usize, Failure>(e),
        },
{
    if !bonus.identifier.eq(&award.bonus_identifier) {
        return Ok(cursor);
    }
    if cursor > rest.len() || rest.len() - cursor < 2 {
        return Err(Failure::NotEnoughAccountKeys);
    }
    let bonus_account: &AccountView = &rest[cursor];
    let receiver: &AccountView = &rest[cursor + 1];
    if !bonus.stake_addr.eq(&bonus_account.key) {
        return Err(Failure::Process(ProcessError::InvalidAwardIdentifier));
    }
    let player: PlayerJoinWithoutKey = match get_player_by_id(registry, award.player_id) {
        Err(e) => {
            return Err(e);
        },
        Ok(None) => {
            return Err(Failure::Process(ProcessError::InvalidAwardPlayerId));
        },
        Ok(Some((_, player))) => player,
    };
    match validate_receiver(&player.addr, &bonus.token_addr, &receiver.key) {
        Err(e) => {
            return Err(e);
        },
        Ok(_) => {},
    }
    let amount: u64 = match holding(bonus_account, &bonus.token_addr) {
        Err(e) => {
            return Err(e);
        },
        Ok(amount) => amount,
    };
    effects.push(
        Effect::Transfer {
            source: bonus_account.key,
            destination: receiver.key,
            mint: bonus.token_addr,
            amount,
        },
    );
    effects.push(Effect::CloseAccount { account: bonus_account.key, destination: *transactor });
    assert(effects@ =~= old(effects)@ + bonus_effects(
        *bonus_account,
        *receiver,
        bonus.token_addr,
        amount,
        *transactor,
    ));
    Ok(cursor + 2)
}

/// Plans the movements that hand out the awarded bonuses. Every bonus whose
/// identifier an award names is handed out, in the order of the awards and, for one
/// award, of the bonuses. The accounts are taken from `rest`, from `cursor` on; an
/// award that finds fewer than two left fails for want of accounts.
pub fn handle_bonuses(
    effects: &mut Vec<Effect>,
    cursor: usize,
    awards: &Vec<Award>,
    bonuses: &Vec<Bonus>,
    registry: &[u8],
    rest: &Vec<AccountView>,
    transactor: &Address,
) -> (r: Result<usize, Failure>)
    ensures
        match after_awards(
            AwardStage { effects: old(effects)@, cursor: cursor as int },
            awards@,
            bonuses@,
            registry@,
            rest@,
            *transactor,
        ) {
            Ok(stage) => {
                &&& r is Ok
                &&& r->Ok_0 == stage.cursor
                &&& final(effects)@ == stage.effects
            },
            Err(e) => r == Err::<usize, Failure>(e),
        },
{
    let ghost start = AwardStage { effects: effects@, cursor: cursor as int };
    let mut at: usize = cursor;
    let n: usize = awards.len();
    let m: usize = bonuses.len();
    let mut i: usize = 0;
    while i < n
        invariant
            i <= n,
            n == awards@.len(),
            m == bonuses@.len(),
            start == (AwardStage { effects: old(effects)@, cursor: cursor as int }),
            after_awards(start, awards@.take(i as int), bonuses@, registry@, rest@, *transactor)
                == Ok::<AwardStage, Failure>(AwardStage { effects: effects@, cursor: at as int }),
        decreases n - i,
    {
        let ghost before = AwardStage { effects: effects@, cursor: at as int };
        proof {
            assert(awards@.take(i + 1).drop_last() =~= awards@.take(i as int));
            assert(after_awards(
                start,
                awards@.take(i + 1),
                bonuses@,
                registry@,
                rest@,
                *transactor,
            ) == after_award(before, bonuses@, awards@[i as int], registry@, rest@, *transactor));
        }
        let mut j: usize = 0;
        while j < m
            invariant
                j <= m,
                i < n,
                n == awards@.len(),
                m == bonuses@.len(),
                after_award(
                    before,
                    bonuses@.take(j as int),
                    awards@[i as int],
                    registry@,
                    rest@,
                    *transactor,
                ) == Ok::<AwardStage, Failure>(AwardStage { effects: effects@, cursor: at as int }),
                after_awards(
                    start,
                    awards@.take(i + 1),
                    bonuses@,
                    registry@,
                    rest@,
                    *transactor,
                ) == after_award(before, bonuses@, awards@[i as int], registry@, rest@, *transactor),
                start == (AwardStage { effects: old(effects)@, cursor: cursor as int }),
            decreases m - j,
        {
            let ghost within = AwardStage { effects: effects@, cursor: at as int };
            proof {
                assert(bonuses@.take(j + 1).drop_last() =~= bonuses@.take(j as int));
                assert(after_award(
                    before,
                    bonuses@.take(j + 1),
                    awards@[i as int],
                    registry@,
                    rest@,
                    *transactor,
                ) == after_bonus(
                    within,
                    bonuses@[j as int],
                    awards@[i as int],
                    registry@,
                    rest@,
                    *transactor,
                ));
            }
            match handle_bonus(effects, at, &bonuses[j], &awards[i], registry, rest, transactor) {
                Err(e) => {
                    proof {
                        lemma_award_fails(
                            before,
                            bonuses@,
                            awards@[i as int],
                            registry@,
                            rest@,
                            *transactor,
                            j + 1,
                            e,
                        );
                        lemma_awards_fail(
                            start,
                            awards@,
                            bonuses@,
                            registry@,
                            rest@,
                            *transactor,
                            i + 1,
                            e,
                        );
                    }
                    return Err(e);
                },
                Ok(next) => {
                    at = next;
                },
            }
            j += 1;
        }
        assert(bonuses@.take(m as int) =~= bonuses@);
        i += 1;
    }
    assert(awards@.take(n as int) =~= awards@);
    Ok(at)
}

/// The accounts that a settlement is handed, each under the part it plays.
#[derive(Debug, Clone, PartialEq, Eq)]
pub struct SettleAccounts {
    /// The server that settles.
    pub transactor: AccountView,
    /// The account of the game.
    pub game: AccountView,
    /// The account whose data is the players registry.
    pub players_reg: AccountView,
    /// The pool of the game.
    pub stake: AccountView,
    /// The address that signs for the pool.
    pub pda: AccountView,
    /// The accounts that follow, in the order the settlement uses them: one receiver
    /// for each payout, the pool of the recipient's slot if a commission is moved,
    /// and for each bonus handed out the account of the bonus and the receiver.
    pub rest: Vec<AccountView>,
}

/// What a settlement comes to once it is planned.
pub struct Plan {
    pub balances: Seq<PlayerBalance>,
    pub deposits: Seq<PlayerDeposit>,
    pub registry: Seq<u8>,
    pub effects: Seq<Effect>,
    pub bump_seed: u8,
}

/// Why a settlement is turned down before any of its lines is read, if it is: it was
/// made for another settle version than the ledger is at, it does not move the
/// version forward, the transactor has not signed, the pool is not the game's, or
/// the signing address is not the one derived from the game.
pub open spec fn header_refusal(
    program_id: Address,
    accounts: SettleAccounts,
    game_state: GameState,
    params: SettleParams,
) -> Option<Failure> {
    if game_state.settle_version != params.settle_version {
        Some(Failure::Process(ProcessError::InvalidSettleVersion))
    } else if params.next_settle_version <= game_state.settle_version {
        Some(Failure::Process(ProcessError::InvalidNextSettleVersion))
    } else if !accounts.transactor.is_signer {
        Some(Failure::MissingRequiredSignature)
    } else if accounts.stake.key@ != game_state.stake_account@ {
        Some(Failure::Process(ProcessError::InvalidStakeAccount))
    } else {
        match program_address(seq![accounts.game.key@], program_id@) {
            None => Some(Failure::Process(ProcessError::InvalidPDA)),
            Some((address, _)) => if address != accounts.pda.key@ {
                Some(Failure::Process(ProcessError::InvalidPDA))
            } else {
                None
            },
        }
    }
}

/// The stage after the commission, if there is one, was planned.
pub open spec fn after_commission(
    stage: AwardStage,
    transfer: Option<Transfer>,
    slots: Seq<RecipientSlot>,
    rest: Seq<AccountView>,
    stake: Address,
    mint: Address,
) -> Result<AwardStage, Failure> {
    match transfer {
        None => Ok(stage),
        Some(t) => match commission_effect(t, slots, rest, stage.cursor, stake, mint) {
            Err(e) => Err(e),
            Ok(effect) => Ok(
                AwardStage { effects: stage.effects.push(effect), cursor: stage.cursor + 1 },
            ),
        },
    }
}

/// The stage the lines of a settlement start from.
pub open spec fn first_stage(accounts: SettleAccounts, game_state: GameState) -> SettleStage {
    SettleStage {
        balances: game_state.balances@,
        registry: accounts.players_reg.data@,
        pays: Seq::empty(),
    }
}

/// What a settlement comes to: the plan, or the first failure on the way. The way
/// goes through the versions and the accounts, the lines, the payouts they queue,
/// the commission, the awards, and the deposits to accept.
pub open spec fn planned(
    program_id: Address,
    accounts: SettleAccounts,
    game_state: GameState,
    recipient_state: RecipientState,
    params: SettleParams,
) -> Result<Plan, Failure> {
    match header_refusal(program_id, accounts, game_state, params) {
        Some(e) => Err(e),
        None => match after_settles(first_stage(accounts, game_state), params.settles@) {
            Err(e) => Err(e),
            Ok(stage) => match payout_effects(
                stage.pays,
                accounts.rest@,
                accounts.stake.key,
                game_state.token_mint,
            ) {
                Err(e) => Err(e),
                Ok(payouts) => match after_commission(
                    AwardStage { effects: payouts, cursor: stage.pays.len() as int },
                    params.transfer,
                    recipient_state.slots@,
                    accounts.rest@,
                    accounts.stake.key,
                    game_state.token_mint,
                ) {
                    Err(e) => Err(e),
                    Ok(paid) => match after_awards(
                        paid,
                        params.awards@,
                        game_state.bonuses@,
                        stage.registry,
                        accounts.rest@,
                        accounts.transactor.key,
                    ) {
                        Err(e) => Err(e),
                        Ok(awarded) => Ok(
                            Plan {
                                balances: without_zero(stage.balances),
                                deposits: unresolved(
                                    accepted_all(game_state.deposits@, params.accept_deposits@),
                                ),
                                registry: stage.registry,
                                effects: awarded.effects,
                                bump_seed: program_address(
                                    seq![accounts.game.key@],
                                    program_id@,
                                )->Some_0.1,
                            },
                        ),
                    },
                },
            },
        },
    }
}

/// A settlement that is planned and waits for the runtime to carry out its
/// movements.
#[derive(Debug, Clone, PartialEq, Eq)]
pub struct Settlement {
    /// The balances to come.
    pub balances: Vec<PlayerBalance>,
    /// The deposits to come.
    pub deposits: Vec<PlayerDeposit>,
    /// The registry to come, but for its versions.
    pub registry: Vec<u8>,
    /// The movements to ask the runtime for, in order.
    pub effects: Vec<Effect>,
    /// The bump seed of the address that signs for the pool.
    pub bump_seed: u8,
    /// The settle version to come.
    pub settle_version: u64,
    /// The checkpoint to come.
    pub checkpoint: Vec<u8>,
    /// The entry lock to come, if it changes.
    pub entry_lock: Option<EntryLock>,
}

/// Whether a settlement is the plan carried out for the parameters.
pub open spec fn is_settlement_of(settlement: Settlement, plan: Plan, params: SettleParams) -> bool {
    &&& settlement.balances@ == plan.balances
    &&& settlement.deposits@ == plan.deposits
    &&& settlement.registry@ == plan.registry
    &&& settlement.effects@ == plan.effects
    &&& settlement.bump_seed == plan.bump_seed
    &&& settlement.settle_version == params.next_settle_version
    &&& settlement.checkpoint@ == params.checkpoint@
    &&& settlement.entry_lock == params.entry_lock
}

/// Checks the versions and the accounts of a settlement and derives the bump seed of
/// the address that signs for the pool.
fn check_header(
    program_id: &Address,
    accounts: &SettleAccounts,
    game_state: &GameState,
    params: &SettleParams,
) -> (r: Result<u8, Failure>)
    ensures
        match header_refusal(*program_id, *accounts, *game_state, *params) {
            Some(e) => r == Err::<u8, Failure>(e),
            None => r == Ok::<u8, Failure>(
                program_address(seq![accounts.game.key@], program_id@)->Some_0.1,
            ),
        },
{
    if game_state.settle_version != params.settle_version {
        return Err(Failure::Process(ProcessError::InvalidSettleVersion));
    }
    if params.next_settle_version <= game_state.settle_version {
        return Err(Failure::Process(ProcessError::InvalidNextSettleVersion));
    }
    if !accounts.transactor.is_signer {
        return Err(Failure::MissingRequiredSignature);
    }
    if !accounts.stake.key.eq(&game_state.stake_account) {
        return Err(Failure::Process(ProcessError::InvalidStakeAccount));
    }
    let mut seeds: Vec<Vec<u8>> = Vec::new();
    seeds.push(address_to_vec(&accounts.game.key));
    assert(seeds_view(seeds@) =~= seq![accounts.game.key@]);
    match find_program_address(&seeds, program_id) {
        None => Err(Failure::Process(ProcessError::InvalidPDA)),
        Some((address, bump_seed)) => {
            if address.eq(&accounts.pda.key) {
                Ok(bump_seed)
            } else {
                Err(Failure::Process(ProcessError::InvalidPDA))
            }
        },
    }
}

/// Plans a settlement. Nothing is changed: the ledger and the registry are read, and
/// what is to become of them is returned with the movements of value to ask the
/// runtime for.
pub fn process(
    program_id: &Address,
    accounts: &SettleAccounts,
    game_state: &GameState,
    recipient_state: &RecipientState,
    params: SettleParams,
) -> (r: Result<Settlement, Failure>)
    ensures
        match planned(*program_id, *accounts, *game_state, *recipient_state, params) {
            Ok(plan) => r is Ok && is_settlement_of(r->Ok_0, plan, params),
            Err(e) => r == Err::<Settlement, Failure>(e),
        },
        game_state.settle_version != params.settle_version ==> r == Err::<Settlement, Failure>(
            Failure::Process(ProcessError::InvalidSettleVersion),
        ),
        r is Ok ==> r->Ok_0.settle_version > game_state.settle_version,
{
    let bump_seed: u8 = match check_header(program_id, accounts, game_state, &params) {
        Err(e) => {
            return Err(e);
        },
        Ok(bump_seed) => bump_seed,
    };
    let outcome: SettleOutcome = match handle_settles(
        &game_state.balances,
        accounts.players_reg.data.as_slice(),
        &params.settles,
    ) {
        Err(e) => {
            return Err(e);
        },
        Ok(outcome) => outcome,
    };
    let mut effects: Vec<Effect> = match handle_payouts(
        &outcome.pays,
        &accounts.rest,
        &accounts.stake.key,
        &game_state.token_mint,
    ) {
        Err(e) => {
            return Err(e);
        },
        Ok(effects) => effects,
    };
    let mut cursor: usize = outcome.pays.len();
    match params.transfer {
        None => {},
        Some(transfer) => {
            match handle_transfer(
                &transfer,
                recipient_state,
                &accounts.rest,
                cursor,
                &accounts.stake.key,
                &game_state.token_mint,
            ) {
                Err(e) => {
                    return Err(e);
                },
                Ok(effect) => {
                    let supplied: usize = accounts.rest.len();
                    assert(cursor < supplied);
                    effects.push(effect);
                    cursor = cursor + 1;
                },
            }
        },
    }
    match handle_bonuses(
        &mut effects,
        cursor,
        &params.awards,
        &game_state.bonuses,
        outcome.registry.as_slice(),
        &accounts.rest,
        &accounts.transactor.key,
    ) {
        Err(e) => {
            return Err(e);
        },
        Ok(_) => {},
    }
    let deposits: Vec<PlayerDeposit> = accept_deposits(&game_state.deposits, &params.accept_deposits);
    let settle_version: u64 = params.next_settle_version;
    let entry_lock: Option<EntryLock> = params.entry_lock;
    let checkpoint: Vec<u8> = *params.checkpoint;
    Ok(
        Settlement {
            balances: outcome.balances,
            deposits,
            registry: outcome.registry,
            effects,
            bump_seed,
            settle_version,
            checkpoint,
            entry_lock,
        },
    )
}

/// The sum of the balances.
pub open spec fn sum_balances(balances: Seq<PlayerBalance>) -> nat
    decreases balances.len(),
{
    if balances.len() == 0 {
        0
    } else {
        sum_balances(balances.drop_last()) + balances.last().balance as nat
    }
}

/// The sum of the deposits that still wait.
pub open spec fn sum_unresolved(deposits: Seq<PlayerDeposit>) -> nat
    decreases deposits.len(),
{
    if deposits.len() == 0 {
        0
    } else {
        sum_unresolved(deposits.drop_last()) + if is_unresolved(deposits.last()) {
            deposits.last().amount as nat
        } else {
            0
        }
    }
}

/// Conservation: the pool holds what the balances and the waiting deposits come to,
/// no more and no less.
pub open spec fn is_conserved(
    balances: Seq<PlayerBalance>,
    deposits: Seq<PlayerDeposit>,
    pooled: u64,
) -> bool {
    pooled == sum_balances(balances) + sum_unresolved(deposits)
}

/// The sum of the balances.
fn total_balances(balances: &Vec<PlayerBalance>) -> (total: u128)
    ensures
        total == sum_balances(balances@),
{
    let n: usize = balances.len();
    let mut total: u128 = 0;
    let mut i: usize = 0;
    while i < n
        invariant
            i <= n,
            n == balances@.len(),
            total == sum_balances(balances@.take(i as int)),
            total <= i * 0xffff_ffff_ffff_ffff,
        decreases n - i,
    {
        assert(balances@.take(i + 1).drop_last() =~= balances@.take(i as int));
        total = total + balances[i].balance as u128;
        i += 1;
    }
    assert(balances@.take(n as int) =~= balances@);
    total
}

/// The sum of the deposits that still wait.
fn total_unresolved(deposits: &Vec<PlayerDeposit>) -> (total: u128)
    ensures
        total == sum_unresolved(deposits@),
{
    let n: usize = deposits.len();
    let mut total: u128 = 0;
    let mut i: usize = 0;
    while i < n
        invariant
            i <= n,
            n == deposits@.len(),
            total == sum_unresolved(deposits@.take(i as int)),
            total <= i * 0xffff_ffff_ffff_ffff,
        decreases n - i,
    {
        assert(deposits@.take(i + 1).drop_last() =~= deposits@.take(i as int));
        match deposits[i].status {
            DepositStatus::Pending => {
                total = total + deposits[i].amount as u128;
            },
            DepositStatus::Rejected => {
                total = total + deposits[i].amount as u128;
            },
            _ => {},
        }
        i += 1;
    }
    assert(deposits@.take(n as int) =~= deposits@);
    total
}

/// Holds what the pool holds against the balances and the waiting deposits.
pub fn check_conservation(
    balances: &Vec<PlayerBalance>,
    deposits: &Vec<PlayerDeposit>,
    pooled: u64,
) -> (r: Result<(), Failure>)
    ensures
        r == if is_conserved(balances@, deposits@, pooled) {
            Ok::<(), Failure>(())
        } else {
            Err(Failure::Process(ProcessError::UnbalancedGameStake))
        },
{
    let held: u128 = total_balances(balances);
    let waiting: u128 = total_unresolved(deposits);
    if held > pooled as u128 {
        return Err(Failure::Process(ProcessError::UnbalancedGameStake));
    }
    if pooled as u128 - held == waiting {
        Ok(())
    } else {
        Err(Failure::Process(ProcessError::UnbalancedGameStake))
    }
}

/// What the balance check of a ledger against its pool answers.
pub open spec fn balance_verdict(game_state: GameState, stake_account: AccountView) -> Result<
    (),
    Failure,
> {
    match holding_of(stake_account, game_state.token_mint@) {
        Err(e) => Err(e),
        Ok(pooled) => if is_conserved(game_state.balances@, game_state.deposits@, pooled) {
            Ok(())
        } else {
            Err(Failure::Process(ProcessError::UnbalancedGameStake))
        },
    }
}

/// Checks that the pool of a game holds what the ledger says it holds.
pub fn validate_balance(game_state: &GameState, stake_account: &AccountView) -> (r: Result<
    (),
    Failure,
>)
    ensures
        r == balance_verdict(*game_state, *stake_account),
{
    match holding(stake_account, &game_state.token_mint) {
        Err(e) => Err(e),
        Ok(pooled) => check_conservation(&game_state.balances, &game_state.deposits, pooled),
    }
}

impl Settlement {
    /// Why a planned settlement cannot be committed, if anything stands against it:
    /// what the pool holds cannot be read, the pool does not hold what the balances
    /// and deposits to come add up to, or the buffer of the registry is not of the
    /// size the settlement was planned for.
    pub open spec fn commit_refusal(
        self,
        stake_account: AccountView,
        game_state: GameState,
        registry: Seq<u8>,
    ) -> Option<Failure> {
        match holding_of(stake_account, game_state.token_mint@) {
            Err(e) => Some(e),
            Ok(pooled) => if !is_conserved(self.balances@, self.deposits@, pooled) {
                Some(Failure::Process(ProcessError::UnbalancedGameStake))
            } else if registry.len() != self.registry@.len() || registry.len() < HEAD_LEN {
                Some(malformed())
            } else {
                None
            },
        }
    }

    /// Commits a planned settlement once the runtime has carried out its movements.
    /// `stake_account` is the pool as it then stands. Where the pool holds what the
    /// balances and deposits to come add up to, the ledger takes them over with the
    /// new settle version, checkpoint and entry lock, and the registry is written
    /// with the versions of the ledger. Otherwise nothing is changed.
    pub fn commit(
        self,
        stake_account: &AccountView,
        game_state: &mut GameState,
        registry: &mut [u8],
    ) -> (r: Result<(), Failure>)
        ensures
            match self.commit_refusal(*stake_account, *old(game_state), old(registry)@) {
                Some(e) => {
                    &&& r == Err::<(), Failure>(e)
                    &&& *final(game_state) == *old(game_state)
                    &&& final(registry)@ == old(registry)@
                },
                None => {
                    &&& r is Ok
                    &&& *final(game_state) == (GameState {
                        balances: self.balances,
                        deposits: self.deposits,
                        settle_version: self.settle_version,
                        checkpoint: self.checkpoint,
                        entry_lock: match self.entry_lock {
                            Some(lock) => lock,
                            None => old(game_state).entry_lock,
                        },
                        ..*old(game_state)
                    })
                    &&& final(registry)@ == with_versions(
                        self.registry@,
                        old(game_state).access_version,
                        self.settle_version,
                    )
                    &&& balance_verdict(*final(game_state), *stake_account) is Ok
                    &&& is_well_formed(self.registry@) ==> is_well_formed(final(registry)@)
                },
            },
    {
        let pooled: u64 = match holding(stake_account, &game_state.token_mint) {
            Err(e) => {
                return Err(e);
            },
            Ok(pooled) => pooled,
        };
        match check_conservation(&self.balances, &self.deposits, pooled) {
            Err(e) => {
                return Err(e);
            },
            Ok(_) => {},
        }
        if registry.len() != self.registry.len() || registry.len() < HEAD_LEN {
            return Err(Failure::Process(ProcessError::MalformedPlayersRegAccount));
        }
        write_bytes(registry, 0, self.registry.as_slice());
        assert(registry@ =~= self.registry@);
        let _ = set_versions(registry, game_state.access_version, self.settle_version);
        proof {
            if is_well_formed(self.registry@) {
                lemma_versions_keep_well_formed(
                    self.registry@,
                    game_state.access_version,
                    self.settle_version,
                );
            }
        }
        game_state.balances = self.balances;
        game_state.deposits = self.deposits;
        game_state.settle_version = self.settle_version;
        game_state.checkpoint = self.checkpoint;
        match self.entry_lock {
            Some(lock) => {
                game_state.entry_lock = lock;
            },
            None => {},
        }
        Ok(())
    }
}

/// A stale settlement is rejected: a settlement made for another settle version
/// than the ledger is at comes to the version conflict and to nothing else,
/// whatever else it holds.
pub proof fn lemma_stale_settlement_rejected(
    program_id: Address,
    accounts: SettleAccounts,
    game_state: GameState,
    recipient_state: RecipientState,
    params: SettleParams,
)
    requires
        params.settle_version != game_state.settle_version,
    ensures
        planned(program_id, accounts, game_state, recipient_state, params) == Err::<Plan, Failure>(
            Failure::Process(ProcessError::InvalidSettleVersion),
        ),
{
}

/// A player to eject whom no slot holds fails the line: the line comes to the error
/// of an unknown player and queues no payout. That is so for the id zero too, which
/// the blank slots store.
pub proof fn lemma_eject_of_absent_player_fails_line(stage: SettleStage, settle: Settle)
    requires
        settle.eject,
        changed_balances(stage.balances, settle.player_id, settle.change) is Ok,
        is_uncut(stage.registry),
        forall|j: int|
            slot_readable(stage.registry, j) ==> !#[trigger] holds_id(
                stage.registry,
                j,
                settle.player_id,
            ),
    ensures
        after_settle(stage, settle) == Err::<SettleStage, Failure>(
            Failure::Process(ProcessError::InvalidSettlePlayerId),
        ),
{
    lemma_absent_is_not_found(stage.registry, settle.player_id);
}

/// A player to eject who is not in the registry fails the settlement: where the
/// lines before line `k` go through, line `k` ejects, its change to the balances
/// goes through and no slot of the registry, as the lines before leave it, holds the
/// player, the settlement comes to the error of an unknown player, and so to no
/// movement of value. A blank slot holds nobody: a slot that an earlier line has
/// cleared does not stand for the player of id zero.
pub proof fn lemma_eject_of_absent_player_fails(
    program_id: Address,
    accounts: SettleAccounts,
    game_state: GameState,
    recipient_state: RecipientState,
    params: SettleParams,
    k: int,
    before: SettleStage,
)
    requires
        header_refusal(program_id, accounts, game_state, params) is None,
        0 <= k < params.settles@.len(),
        after_settles(first_stage(accounts, game_state), params.settles@.take(k)) == Ok::<
            SettleStage,
            Failure,
        >(before),
        params.settles@[k].eject,
        changed_balances(before.balances, params.settles@[k].player_id, params.settles@[k].change)
            is Ok,
        is_uncut(before.registry),
        forall|j: int|
            slot_readable(before.registry, j) ==> !#[trigger] holds_id(
                before.registry,
                j,
                params.settles@[k].player_id,
            ),
    ensures
        planned(program_id, accounts, game_state, recipient_state, params) == Err::<Plan, Failure>(
            Failure::Process(ProcessError::InvalidSettlePlayerId),
        ),
{
    let start = first_stage(accounts, game_state);
    let settles = params.settles@;
    lemma_eject_of_absent_player_fails_line(before, settles[k]);
    assert(settles.take(k + 1).drop_last() =~= settles.take(k));
    assert(after_settles(start, settles.take(k + 1)) == after_settle(before, settles[k]));
    lemma_settles_fail(
        start,
        settles,
        k + 1,
        Failure::Process(ProcessError::InvalidSettlePlayerId),
    );
}

/// A payout goes to a player of the registry: every payout that a line queues is
/// queued to the address stored in the first slot that holds the player's id, and
/// that slot is not blank.
pub proof fn lemma_payout_goes_to_a_player(stage: SettleStage, settle: Settle)
    requires
        after_settle(stage, settle) is Ok,
    ensures
        ({
            let next = after_settle(stage, settle)->Ok_0;
            &&& next.pays.len() <= stage.pays.len() + 1
            &&& next.pays.len() == stage.pays.len() + 1 ==> {
                &&& settle.eject
                &&& settle.amount > 0
                &&& next.pays.last().1 == settle.amount
                &&& exists|i: int|
                    found_by_id(stage.registry, settle.player_id, i) && !slot_is_blank(
                        stage.registry,
                        i,
                    ) && next.pays.last().0 == slot_addr(stage.registry, i)
            }
        }),
{
    if settle.eject {
        let index = lookup_by_id(stage.registry, settle.player_id)->Ok_0->Some_0;
        assert(found_by_id(stage.registry, settle.player_id, index));
    }
}

/// An award to a player whom no slot holds fails: where a bonus of the award's
/// identifier comes with its account, the award comes to the error of an unknown
/// player and plans no movement. That is so for the id zero too, which the blank
/// slots store.
pub proof fn lemma_award_to_absent_player_fails(
    stage: AwardStage,
    bonus: Bonus,
    award: Award,
    registry: Seq<u8>,
    rest: Seq<AccountView>,
    transactor: Address,
)
    requires
        bonus.identifier@ == award.bonus_identifier@,
        0 <= stage.cursor,
        stage.cursor + 2 <= rest.len(),
        bonus.stake_addr@ == rest[stage.cursor].key@,
        is_uncut(registry),
        forall|j: int| slot_readable(registry, j) ==> !#[trigger] holds_id(registry, j, award.player_id),
    ensures
        after_bonus(stage, bonus, award, registry, rest, transactor) == Err::<AwardStage, Failure>(
            Failure::Process(ProcessError::InvalidAwardPlayerId),
        ),
{
    lemma_absent_is_not_found(registry, award.player_id);
}

/// A bonus is drained in full: where a bonus of the award's identifier is handed
/// out, the movements planned for it are a transfer of all that the account of the
/// bonus holds, followed by the closing of that account, and two of the supplied
/// accounts are used.
pub proof fn lemma_bonus_drained_in_full(
    stage: AwardStage,
    bonus: Bonus,
    award: Award,
    registry: Seq<u8>,
    rest: Seq<AccountView>,
    transactor: Address,
)
    requires
        bonus.identifier@ == award.bonus_identifier@,
        0 <= stage.cursor,
        after_bonus(stage, bonus, award, registry, rest, transactor) is Ok,
    ensures
        ({
            let next = after_bonus(stage, bonus, award, registry, rest, transactor)->Ok_0;
            let bonus_account = rest[stage.cursor];
            let receiver = rest[stage.cursor + 1];
            &&& stage.cursor + 2 <= rest.len()
            &&& next.cursor == stage.cursor + 2
            &&& holding_of(bonus_account, bonus.token_addr@) is Ok
            &&& next.effects.len() == stage.effects.len() + 2
            &&& next.effects.take(stage.effects.len() as int) == stage.effects
            &&& next.effects[stage.effects.len() as int] == (Effect::Transfer {
                source: bonus_account.key,
                destination: receiver.key,
                mint: bonus.token_addr,
                amount: holding_of(bonus_account, bonus.token_addr@)->Ok_0,
            })
            &&& next.effects[stage.effects.len() as int + 1] == (Effect::CloseAccount {
                account: bonus_account.key,
                destination: transactor,
            })
        }),
{
    let next = after_bonus(stage, bonus, award, registry, rest, transactor)->Ok_0;
    assert(next.effects.take(stage.effects.len() as int) =~= stage.effects);
}

/// What a plan holds is settled: none of its balances is zero, and every one of its
/// deposits still waits.
pub proof fn lemma_plan_is_pruned(
    program_id: Address,
    accounts: SettleAccounts,
    game_state: GameState,
    recipient_state: RecipientState,
    params: SettleParams,
)
    requires
        planned(program_id, accounts, game_state, recipient_state, params) is Ok,
    ensures
        ({
            let plan = planned(program_id, accounts, game_state, recipient_state, params)->Ok_0;
            &&& forall|i: int| 0 <= i < plan.balances.len() ==> plan.balances[i].balance > 0
            &&& forall|i: int| 0 <= i < plan.deposits.len() ==> is_unresolved(plan.deposits[i])
        }),
{
    let plan = planned(program_id, accounts, game_state, recipient_state, params)->Ok_0;
    let stage = after_settles(first_stage(accounts, game_state), params.settles@)->Ok_0;
    stage.balances.filter_lemma(|b: PlayerBalance| b.balance > 0);
    accepted_all(game_state.deposits@, params.accept_deposits@).filter_lemma(
        |d: PlayerDeposit| is_unresolved(d),
    );
}

/// The lines of a settlement keep the registry well formed: on a well-formed
/// registry of exact size, the lines that go through leave a well-formed registry
/// of exact size.
pub proof fn lemma_settles_keep_well_formed(stage: SettleStage, settles: Seq<Settle>)
    requires
        is_well_formed(stage.registry),
        is_exactly_sized(stage.registry),
        after_settles(stage, settles) is Ok,
    ensures
        is_well_formed(after_settles(stage, settles)->Ok_0.registry),
        is_exactly_sized(after_settles(stage, settles)->Ok_0.registry),
    decreases settles.len(),
{
    if settles.len() > 0 {
        lemma_settles_keep_well_formed(stage, settles.drop_last());
        let before = after_settles(stage, settles.drop_last())->Ok_0;
        let settle = settles.last();
        if settle.eject {
            let index = lookup_by_id(before.registry, settle.player_id)->Ok_0->Some_0;
            assert(found_by_id(before.registry, settle.player_id, index));
            lemma_removal_keeps_well_formed(before.registry, index);
        }
    }
}

/// How many of the lines eject.
pub open spec fn ejects(settles: Seq<Settle>) -> nat
    decreases settles.len(),
{
    if settles.len() == 0 {
        0
    } else {
        ejects(settles.drop_last()) + if settles.last().eject {
            1nat
        } else {
            0nat
        }
    }
}

/// An eject takes the player out of the registry: where a line that ejects goes
/// through on a well-formed registry of exact size whose empty slots are blank, the
/// player was found in a slot, and the registry after the line is the registry
/// without the player of that slot. It counts one player less, the slot is blank,
/// and every other slot stores the id it stored and is blank where it was. If no
/// other slot held the player's id, the player is found no longer.
pub proof fn lemma_eject_removes_the_player(stage: SettleStage, settle: Settle)
    requires
        settle.eject,
        after_settle(stage, settle) is Ok,
        is_well_formed(stage.registry),
        is_exactly_sized(stage.registry),
        empties_are_blank(stage.registry),
    ensures
        ({
            let next = after_settle(stage, settle)->Ok_0.registry;
            let found = lookup_by_id(stage.registry, settle.player_id);
            &&& found is Ok
            &&& found->Ok_0 is Some
            &&& next == removed(stage.registry, found->Ok_0->Some_0)
            &&& players_count_of(next) == players_count_of(stage.registry) - 1
            &&& slot_is_blank(next, found->Ok_0->Some_0)
            &&& is_well_formed(next)
            &&& is_exactly_sized(next)
            &&& empties_are_blank(next)
            &&& (forall|j: int|
                j != found->Ok_0->Some_0 && slot_readable(stage.registry, j) ==> !#[trigger] holds_id(
                    stage.registry,
                    j,
                    settle.player_id,
                )) ==> lookup_by_id(next, settle.player_id) == Ok::<Option<int>, Failure>(None)
        }),
{
    let id = settle.player_id;
    let index = lookup_by_id(stage.registry, id)->Ok_0->Some_0;
    assert(found_by_id(stage.registry, id, index));
    lemma_removal_keeps_well_formed(stage.registry, index);
    lemma_removal_keeps_blank(stage.registry, index);
    let next = removed(stage.registry, index);
    if forall|j: int|
        j != index && slot_readable(stage.registry, j) ==> !#[trigger] holds_id(
            stage.registry,
            j,
            id,
        ) {
        assert forall|j: int| slot_readable(next, j) implies !#[trigger] holds_id(next, j, id) by {
            assert(slot_readable(stage.registry, j));
            if j != index {
                assert(!holds_id(stage.registry, j, id));
            }
        }
        assert(is_uncut(next)) by {
            assert forall|j: int| #[trigger] slot_begins(next, j) implies slot_readable(next, j) by {
                assert(j < slots_count_of(next));
            }
        }
        lemma_absent_is_not_found(next, id);
    }
}

/// The lines of a settlement take out of the registry as many players as they
/// eject: on a well-formed registry of exact size whose empty slots are blank, the
/// lines that go through leave such a registry, with one player less for every
/// line that ejects.
pub proof fn lemma_ejects_are_counted(stage: SettleStage, settles: Seq<Settle>)
    requires
        is_well_formed(stage.registry),
        is_exactly_sized(stage.registry),
        empties_are_blank(stage.registry),
        after_settles(stage, settles) is Ok,
    ensures
        is_well_formed(after_settles(stage, settles)->Ok_0.registry),
        is_exactly_sized(after_settles(stage, settles)->Ok_0.registry),
        empties_are_blank(after_settles(stage, settles)->Ok_0.registry),
        players_count_of(after_settles(stage, settles)->Ok_0.registry) + ejects(settles)
            == players_count_of(stage.registry),
    decreases settles.len(),
{
    if settles.len() > 0 {
        lemma_ejects_are_counted(stage, settles.drop_last());
        let before = after_settles(stage, settles.drop_last())->Ok_0;
        if settles.last().eject {
            lemma_eject_removes_the_player(before, settles.last());
        }
    }
}

/// A settlement takes out of the registry as many players as its lines eject:
/// planned on a well-formed registry of exact size whose empty slots are blank, it
/// plans such a registry, with one player less for every line that ejects.
pub proof fn lemma_plan_counts_ejects(
    program_id: Address,
    accounts: SettleAccounts,
    game_state: GameState,
    recipient_state: RecipientState,
    params: SettleParams,
)
    requires
        is_well_formed(accounts.players_reg.data@),
        is_exactly_sized(accounts.players_reg.data@),
        empties_are_blank(accounts.players_reg.data@),
        planned(program_id, accounts, game_state, recipient_state, params) is Ok,
    ensures
        ({
            let plan = planned(program_id, accounts, game_state, recipient_state, params)->Ok_0;
            &&& is_well_formed(plan.registry)
            &&& is_exactly_sized(plan.registry)
            &&& empties_are_blank(plan.registry)
            &&& players_count_of(plan.registry) + ejects(params.settles@) == players_count_of(
                accounts.players_reg.data@,
            )
        }),
{
    lemma_ejects_are_counted(first_stage(accounts, game_state), params.settles@);
}

/// A settlement keeps the registry well formed: planned on a well-formed registry
/// of exact size, it plans a well-formed registry of exact size.
pub proof fn lemma_plan_keeps_well_formed(
    program_id: Address,
    accounts: SettleAccounts,
    game_state: GameState,
    recipient_state: RecipientState,
    params: SettleParams,
)
    requires
        is_well_formed(accounts.players_reg.data@),
        is_exactly_sized(accounts.players_reg.data@),
        planned(program_id, accounts, game_state, recipient_state, params) is Ok,
    ensures
        is_well_formed(
            planned(program_id, accounts, game_state, recipient_state, params)->Ok_0.registry,
        ),
{
    lemma_settles_keep_well_formed(first_stage(accounts, game_state), params.settles@);
}

} // verus!
