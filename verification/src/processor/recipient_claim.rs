//! Claims on a recipient slot: each owner may withdraw, over time, the part of all
//! that the slot has ever held that the owner's weight stands for.
use crate::address::Address;
use crate::error::{Failure, ProcessError};
use crate::processor::misc::{
    address_to_vec, find_program_address, is_native_mint, is_receiver_of, native_mint_bytes,
    program_address, seeds_view, token_account_of, unpack_token_account, validate_receiver,
    AccountView, Effect,
};
use crate::state::recipient::{
    has_distinct_slots, same_slots, slots_view, RecipientSlot, RecipientSlotOwner, RecipientSlotShare, RecipientSlotView,
    RecipientState,
};
use crate::types::copy_owner;
use vstd::prelude::*;

verus! {

/// The sum of the weights of the shares.
pub open spec fn total_weights(shares: Seq<RecipientSlotShare>) -> nat
    decreases shares.len(),
{
    if shares.len() == 0 {
        0
    } else {
        total_weights(shares.drop_last()) + shares.last().weights as nat
    }
}

/// The sum of what the owners of the shares have withdrawn.
pub open spec fn total_claimed(shares: Seq<RecipientSlotShare>) -> nat
    decreases shares.len(),
{
    if shares.len() == 0 {
        0
    } else {
        total_claimed(shares.drop_last()) + shares.last().claim_amount as nat
    }
}

/// Whether a share is assigned to `owner`.
pub open spec fn is_owned_by(share: RecipientSlotShare, owner: Address) -> bool {
    match share.owner {
        RecipientSlotOwner::Assigned { addr } => addr@ == owner@,
        RecipientSlotOwner::Unassigned { .. } => false,
    }
}

/// Whether share `index` is the first that is assigned to `owner`.
pub open spec fn is_first_owned(shares: Seq<RecipientSlotShare>, owner: Address, index: int) -> bool {
    &&& 0 <= index < shares.len()
    &&& is_owned_by(shares[index], owner)
    &&& forall|j: int| 0 <= j < index ==> !is_owned_by(shares[j], owner)
}

/// Whether no share is assigned to `owner`.
pub open spec fn owns_nothing(shares: Seq<RecipientSlotShare>, owner: Address) -> bool {
    forall|j: int| 0 <= j < shares.len() ==> !is_owned_by(shares[j], owner)
}

/// All that the slot has ever held: what its pool holds now and what was withdrawn.
pub open spec fn lifetime_total(shares: Seq<RecipientSlotShare>, stake_amount: u64) -> nat {
    stake_amount as nat + total_claimed(shares)
}

/// What the owner of share `index` is entitled to, of all that the slot has ever
/// held: the part that the share's weight stands for, rounded down.
pub open spec fn entitlement(shares: Seq<RecipientSlotShare>, stake_amount: u64, index: int) -> nat
    recommends
        0 <= index < shares.len(),
        total_weights(shares) > 0,
{
    (lifetime_total(shares, stake_amount) * (shares[index].weights as nat)) / total_weights(shares)
}

/// Whether the claim of `owner` can be computed: all that the slot has ever held is
/// an amount, and if a share is assigned to the owner, the weights do not sum to
/// zero and the owner has withdrawn no more than the entitlement, which is an
/// amount too.
pub open spec fn is_claimable(shares: Seq<RecipientSlotShare>, stake_amount: u64, owner: Address) -> bool {
    &&& lifetime_total(shares, stake_amount) <= u64::MAX
    &&& forall|i: int|
        is_first_owned(shares, owner, i) ==> {
            &&& total_weights(shares) > 0
            &&& shares[i].claim_amount <= entitlement(shares, stake_amount, i) <= u64::MAX
        }
}

/// The shares after the owner of share `index` has withdrawn up to `amount`.
pub open spec fn with_claimed(shares: Seq<RecipientSlotShare>, index: int, amount: u64) -> Seq<
    RecipientSlotShare,
> {
    shares.update(
        index,
        RecipientSlotShare {
            owner: shares[index].owner,
            weights: shares[index].weights,
            claim_amount: amount,
        },
    )
}

/// Sums grow share by share.
proof fn lemma_totals_step(shares: Seq<RecipientSlotShare>, i: int)
    requires
        0 <= i < shares.len(),
    ensures
        total_weights(shares.take(i + 1)) == total_weights(shares.take(i)) + shares[i].weights,
        total_claimed(shares.take(i + 1)) == total_claimed(shares.take(i))
            + shares[i].claim_amount,
{
    assert(shares.take(i + 1).drop_last() =~= shares.take(i));
}

/// A change to what one owner has withdrawn changes the sum by as much, and leaves
/// the weights as they are.
pub proof fn lemma_totals_after_claim(shares: Seq<RecipientSlotShare>, index: int, amount: u64)
    requires
        0 <= index < shares.len(),
    ensures
        total_weights(with_claimed(shares, index, amount)) == total_weights(shares),
        total_claimed(with_claimed(shares, index, amount)) == total_claimed(shares)
            - shares[index].claim_amount + amount,
    decreases shares.len(),
{
    let after = with_claimed(shares, index, amount);
    if index == shares.len() - 1 {
        assert(after.drop_last() =~= shares.drop_last());
    } else {
        assert(after.drop_last() =~= with_claimed(shares.drop_last(), index, amount));
        lemma_totals_after_claim(shares.drop_last(), index, amount);
    }
}

/// The sums of the weights and of the withdrawn amounts.
fn sum_shares(shares: &Vec<RecipientSlotShare>) -> (r: (u128, u128))
    ensures
        r.0 == total_weights(shares@),
        r.1 == total_claimed(shares@),
        r.0 <= shares@.len() * 0xffff,
        r.1 <= shares@.len() * 0xffff_ffff_ffff_ffff,
{
    let n: usize = shares.len();
    let mut weights: u128 = 0;
    let mut claimed: u128 = 0;
    let mut i: usize = 0;
    while i < n
        invariant
            i <= n,
            n == shares@.len(),
            weights == total_weights(shares@.take(i as int)),
            claimed == total_claimed(shares@.take(i as int)),
            weights <= i * 0xffff,
            claimed <= i * 0xffff_ffff_ffff_ffff,
        decreases n - i,
    {
        proof {
            lemma_totals_step(shares@, i as int);
        }
        weights = weights + shares[i].weights as u128;
        claimed = claimed + shares[i].claim_amount as u128;
        i += 1;
    }
    assert(shares@.take(n as int) =~= shares@);
    (weights, claimed)
}

/// The index of the first share that is assigned to `owner`.
fn find_owned(shares: &Vec<RecipientSlotShare>, owner: &Address) -> (r: Option<usize>)
    ensures
        match r {
            Some(i) => is_first_owned(shares@, *owner, i as int),
            None => owns_nothing(shares@, *owner),
        },
{
    let n: usize = shares.len();
    let mut i: usize = 0;
    while i < n
        invariant
            i <= n,
            n == shares@.len(),
            forall|j: int| 0 <= j < i ==> !is_owned_by(shares@[j], *owner),
        decreases n - i,
    {
        match &shares[i].owner {
            RecipientSlotOwner::Assigned { addr } => {
                if addr.eq(owner) {
                    return Some(i);
                }
            },
            RecipientSlotOwner::Unassigned { .. } => {},
        }
        i += 1;
    }
    None
}

/// Lets `owner` withdraw from the slot whose pool holds `stake_amount`: returns what
/// is now due to the first share assigned to the owner, and records it as withdrawn.
/// Returns zero and changes nothing when no share is assigned to the owner.
pub fn claim_from_slot(stake_amount: u64, slot: &mut RecipientSlot, owner: &Address) -> (claim: u64)
    requires
        is_claimable(old(slot).shares@, stake_amount, *owner),
    ensures
        final(slot).id == old(slot).id,
        final(slot).slot_type == old(slot).slot_type,
        final(slot).token_addr == old(slot).token_addr,
        final(slot).stake_addr == old(slot).stake_addr,
        owns_nothing(old(slot).shares@, *owner) ==> claim == 0 && final(slot).shares@ == old(
            slot,
        ).shares@,
        forall|i: int|
            is_first_owned(old(slot).shares@, *owner, i) ==> {
                &&& claim == entitlement(old(slot).shares@, stake_amount, i) - old(
                    slot,
                ).shares@[i].claim_amount
                &&& final(slot).shares@ == with_claimed(
                    old(slot).shares@,
                    i,
                    entitlement(old(slot).shares@, stake_amount, i) as u64,
                )
            },
        claim <= stake_amount ==> lifetime_total(final(slot).shares@, (stake_amount - claim) as u64)
            == lifetime_total(old(slot).shares@, stake_amount),
{
    let (weights, claimed) = sum_shares(&slot.shares);
    match find_owned(&slot.shares, owner) {
        None => {
            assert forall|i: int| is_first_owned(slot.shares@, *owner, i) implies false by {}
            0
        },
        Some(i) => {
            let total: u128 = claimed + stake_amount as u128;
            let weight: u128 = slot.shares[i].weights as u128;
            assert(total * weight <= 0xffff_ffff_ffff_ffff * 0xffff) by (nonlinear_arith)
                requires
                    total <= 0xffff_ffff_ffff_ffff,
                    weight <= 0xffff,
            ;
            let due: u128 = total * weight / weights;
            let withdrawn: u64 = slot.shares[i].claim_amount;
            let claim: u64 = (due - withdrawn as u128) as u64;
            slot.shares[i].claim_amount = due as u64;
            proof {
                assert(slot.shares@ =~= with_claimed(old(slot).shares@, i as int, due as u64));
                lemma_totals_after_claim(old(slot).shares@, i as int, due as u64);
                assert forall|j: int| is_first_owned(old(slot).shares@, *owner, j) implies j
                    == i by {}
            }
            claim
        },
    }
}

/// What a claim comes to when it is checked first: the amount due and the shares
/// after it was withdrawn, or the error of share arithmetic that does not work out.
pub open spec fn checked_claim(shares: Seq<RecipientSlotShare>, stake_amount: u64, owner: Address) -> Result<
    (u64, Seq<RecipientSlotShare>),
    Failure,
> {
    if !is_claimable(shares, stake_amount, owner) {
        Err(Failure::Process(ProcessError::StakeAmountOverflow))
    } else if exists|i: int| is_first_owned(shares, owner, i) {
        let i = choose|i: int| is_first_owned(shares, owner, i);
        let due = entitlement(shares, stake_amount, i);
        Ok(((due - shares[i].claim_amount) as u64, with_claimed(shares, i, due as u64)))
    } else {
        Ok((0, shares))
    }
}

/// Lets `owner` withdraw from the slot, as `claim_from_slot` does, after checking
/// that the claim can be computed. Changes nothing where it cannot.
pub fn checked_claim_from_slot(stake_amount: u64, slot: &mut RecipientSlot, owner: &Address) -> (r:
    Result<u64, Failure>)
    ensures
        match checked_claim(old(slot).shares@, stake_amount, *owner) {
            Err(e) => r == Err::<u64, Failure>(e) && final(slot)@ == old(slot)@,
            Ok((claim, shares)) => {
                &&& r == Ok::<u64, Failure>(claim)
                &&& final(slot)@ == (RecipientSlotView { shares, ..old(slot)@ })
            },
        },
{
    let (weights, claimed) = sum_shares(&slot.shares);
    let n: usize = slot.shares.len();
    assert(n * 0xffff_ffff_ffff_ffff <= 0xffff_ffff_ffff_ffff * 0xffff_ffff_ffff_ffff)
        by (nonlinear_arith)
        requires
            n <= 0xffff_ffff_ffff_ffff,
    ;
    let total: u128 = claimed + stake_amount as u128;
    if total > u64::MAX as u128 {
        return Err(Failure::Process(ProcessError::StakeAmountOverflow));
    }
    match find_owned(&slot.shares, owner) {
        None => {
            assert forall|i: int| is_first_owned(slot.shares@, *owner, i) implies false by {}
            Ok(0)
        },
        Some(i) => {
            proof {
                let k = choose|k: int| is_first_owned(slot.shares@, *owner, k);
                assert(k == i) by {
                    if k < i {
                    } else if i < k {
                    }
                }
                assert forall|j: int| is_first_owned(slot.shares@, *owner, j) implies j == i by {
                    if j < i {
                    } else if i < j {
                    }
                }
            }
            if weights == 0 {
                return Err(Failure::Process(ProcessError::StakeAmountOverflow));
            }
            let weight: u128 = slot.shares[i].weights as u128;
            assert(total * weight <= 0xffff_ffff_ffff_ffff * 0xffff) by (nonlinear_arith)
                requires
                    total <= 0xffff_ffff_ffff_ffff,
                    weight <= 0xffff,
            ;
            let due: u128 = total * weight / weights;
            if due > u64::MAX as u128 || due < slot.shares[i].claim_amount as u128 {
                return Err(Failure::Process(ProcessError::StakeAmountOverflow));
            }
            Ok(claim_from_slot(stake_amount, slot, owner))
        },
    }
}

/// Who signs for a payment out of the pool of a slot: the address that the program
/// derives from the recipient and the id of the slot, with the bump seed that gives
/// it.
#[derive(Debug, Clone, Copy, PartialEq, Eq)]
pub struct PoolSigner {
    pub address: Address,
    pub slot_id: u8,
    pub bump_seed: u8,
}

/// What the claims of one transaction ask for: the transfers, in order, and for each
/// of them who signs for it.
#[derive(Debug, Clone, PartialEq, Eq)]
pub struct ClaimPlan {
    pub effects: Vec<Effect>,
    pub signers: Vec<PoolSigner>,
}

/// How far the claims of one transaction have come: the slots as the claims so far
/// leave them, what the movements planned so far take out of the pool of each slot,
/// those movements, and who signs for each.
pub struct ClaimStage {
    pub slots: Seq<RecipientSlotView>,
    pub paid: Seq<u64>,
    pub effects: Seq<Effect>,
    pub signers: Seq<PoolSigner>,
}

/// Whether slot `index` is the first slot whose pool is the account `stake`.
pub open spec fn is_first_slot_at(slots: Seq<RecipientSlotView>, stake: Seq<u8>, index: int) -> bool {
    &&& 0 <= index < slots.len()
    &&& slots[index].stake_addr@ == stake
    &&& forall|j: int| 0 <= j < index ==> slots[j].stake_addr@ != stake
}

/// What the pool of a slot holds: the native balance of the account for the native
/// token, the amount of the token account in its data for any other, which has to
/// be an account of the slot's token.
pub open spec fn pool_of(slot: RecipientSlotView, stake_account: AccountView) -> Result<u64, Failure> {
    if slot.token_addr@ == native_mint_bytes() {
        Ok(stake_account.lamports)
    } else {
        match token_account_of(stake_account.data@) {
            Err(e) => Err(e),
            Ok((mint, amount)) => if mint != slot.token_addr@ {
                Err(Failure::InvalidAccountData)
            } else {
                Ok(amount)
            },
        }
    }
}

/// The seeds, in order, from which the address that signs for the pool of a slot is
/// derived.
pub open spec fn slot_seeds(recipient_key: Address, id: u8) -> Seq<Seq<u8>> {
    seq![recipient_key@, seq![id]]
}

/// The stage after one claim. The three accounts are the address that signs for the
/// pool, the pool, and the receiver. The pool has to be the pool of a slot, the
/// signing address the one derived from the recipient and the slot, the receiver the
/// account in which the payer receives the slot's token. The payer is then paid what
/// is due of what the pool still holds, and the signing address is noted with the id
/// of the slot and its bump seed.
pub open spec fn after_claim(
    stage: ClaimStage,
    pda_account: AccountView,
    stake_account: AccountView,
    receiver: AccountView,
    payer: Address,
    recipient_key: Address,
    program_id: Address,
) -> Result<ClaimStage, Failure> {
    if !exists|i: int| is_first_slot_at(stage.slots, stake_account.key@, i) {
        Err(Failure::Process(ProcessError::InvalidRecipientSlotAccount))
    } else {
        let i = choose|i: int| is_first_slot_at(stage.slots, stake_account.key@, i);
        let slot = stage.slots[i];
        match program_address(slot_seeds(recipient_key, slot.id), program_id@) {
            None => Err(Failure::Process(ProcessError::InvalidPDA)),
            Some((address, bump_seed)) => if address != pda_account.key@ {
                Err(Failure::Process(ProcessError::InvalidPDA))
            } else if !is_receiver_of(payer@, slot.token_addr@, receiver.key@) {
                Err(Failure::Process(ProcessError::InvalidReceiverAddress))
            } else {
                match pool_of(slot, stake_account) {
                    Err(e) => Err(e),
                    Ok(amount) => if amount < stage.paid[i] {
                        Err(Failure::InsufficientFunds)
                    } else {
                        let pool = (amount - stage.paid[i]) as u64;
                        match checked_claim(slot.shares, pool, payer) {
                            Err(e) => Err(e),
                            Ok((claim, shares)) => if claim > pool {
                                Err(Failure::InsufficientFunds)
                            } else {
                                Ok(
                                    ClaimStage {
                                        slots: stage.slots.update(
                                            i,
                                            RecipientSlotView { shares, ..slot },
                                        ),
                                        paid: stage.paid.update(i, (stage.paid[i] + claim) as u64),
                                        effects: if claim > 0 {
                                            stage.effects.push(
                                                Effect::Transfer {
                                                    source: stake_account.key,
                                                    destination: receiver.key,
                                                    mint: slot.token_addr,
                                                    amount: claim,
                                                },
                                            )
                                        } else {
                                            stage.effects
                                        },
                                        signers: if claim > 0 {
                                            stage.signers.push(
                                                PoolSigner {
                                                    address: pda_account.key,
                                                    slot_id: slot.id,
                                                    bump_seed,
                                                },
                                            )
                                        } else {
                                            stage.signers
                                        },
                                    },
                                )
                            },
                        }
                    },
                }
            },
        }
    }
}

/// The stage after the first `count` claims, each made with the next three of the
/// supplied accounts.
pub open spec fn after_claims(
    stage: ClaimStage,
    rest: Seq<AccountView>,
    count: nat,
    payer: Address,
    recipient_key: Address,
    program_id: Address,
) -> Result<ClaimStage, Failure>
    decreases count,
{
    if count == 0 {
        Ok(stage)
    } else {
        let k = (count - 1) as nat;
        match after_claims(stage, rest, k, payer, recipient_key, program_id) {
            Err(e) => Err(e),
            Ok(before) => after_claim(
                before,
                rest[3 * k as int],
                rest[3 * k as int + 1],
                rest[3 * k as int + 2],
                payer,
                recipient_key,
                program_id,
            ),
        }
    }
}

/// The stage the claims start from: nothing planned, nothing taken out of any pool.
pub open spec fn first_claim_stage(slots: Seq<RecipientSlotView>) -> ClaimStage {
    ClaimStage {
        slots,
        paid: Seq::new(slots.len(), |i: int| 0u64),
        effects: Seq::empty(),
        signers: Seq::empty(),
    }
}

/// What the claims of one transaction come to. The payer has to have signed. The
/// supplied accounts are taken three at a time, as long as three are left.
pub open spec fn claimed(
    program_id: Address,
    payer: AccountView,
    recipient_key: Address,
    slots: Seq<RecipientSlotView>,
    rest: Seq<AccountView>,
) -> Result<ClaimStage, Failure> {
    if !payer.is_signer {
        Err(Failure::MissingRequiredSignature)
    } else {
        after_claims(
            first_claim_stage(slots),
            rest,
            (rest.len() / 3) as nat,
            payer.key,
            recipient_key,
            program_id,
        )
    }
}

/// A failure among the first claims is the failure of all the claims.
proof fn lemma_claims_fail(
    stage: ClaimStage,
    rest: Seq<AccountView>,
    count: nat,
    payer: Address,
    recipient_key: Address,
    program_id: Address,
    k: nat,
    e: Failure,
)
    requires
        k <= count,
        after_claims(stage, rest, k, payer, recipient_key, program_id) == Err::<ClaimStage, Failure>(
            e,
        ),
    ensures
        after_claims(stage, rest, count, payer, recipient_key, program_id) == Err::<
            ClaimStage,
            Failure,
        >(e),
    decreases count - k,
{
    if k < count {
        lemma_claims_fail(stage, rest, count, payer, recipient_key, program_id, k + 1, e);
    }
}

/// A copy of the shares.
fn copy_shares(shares: &Vec<RecipientSlotShare>) -> (r: Vec<RecipientSlotShare>)
    ensures
        r@ == shares@,
{
    let n: usize = shares.len();
    let mut r: Vec<RecipientSlotShare> = Vec::new();
    let mut i: usize = 0;
    while i < n
        invariant
            i <= n,
            n == shares@.len(),
            r@ == shares@.take(i as int),
        decreases n - i,
    {
        r.push(
            RecipientSlotShare {
                owner: copy_owner(&shares[i].owner),
                weights: shares[i].weights,
                claim_amount: shares[i].claim_amount,
            },
        );
        assert(shares@.take(i + 1) =~= shares@.take(i as int).push(shares@[i as int]));
        i += 1;
    }
    assert(shares@.take(n as int) =~= shares@);
    r
}

/// A copy of the slots.
fn copy_slots(slots: &Vec<RecipientSlot>) -> (r: Vec<RecipientSlot>)
    ensures
        slots_view(r@) == slots_view(slots@),
{
    let n: usize = slots.len();
    let mut r: Vec<RecipientSlot> = Vec::new();
    let mut i: usize = 0;
    while i < n
        invariant
            i <= n,
            n == slots@.len(),
            r@.len() == i,
            forall|j: int| 0 <= j < i ==> r@[j]@ == slots@[j]@,
        decreases n - i,
    {
        r.push(
            RecipientSlot {
                id: slots[i].id,
                slot_type: slots[i].slot_type,
                token_addr: slots[i].token_addr,
                stake_addr: slots[i].stake_addr,
                shares: copy_shares(&slots[i].shares),
            },
        );
        i += 1;
    }
    assert(slots_view(r@) =~= slots_view(slots@));
    r
}

/// The first slot whose pool is the account `stake`.
fn find_slot_at(slots: &Vec<RecipientSlot>, stake: &Address) -> (r: Option<usize>)
    ensures
        match r {
            Some(i) => is_first_slot_at(slots_view(slots@), stake@, i as int) && (choose|k: int|
                is_first_slot_at(slots_view(slots@), stake@, k)) == i,
            None => !exists|i: int| is_first_slot_at(slots_view(slots@), stake@, i),
        },
{
    let n: usize = slots.len();
    let ghost views = slots_view(slots@);
    let mut i: usize = 0;
    while i < n
        invariant
            i <= n,
            n == slots@.len(),
            views == slots_view(slots@),
            forall|j: int| 0 <= j < i ==> views[j].stake_addr@ != stake@,
        decreases n - i,
    {
        if slots[i].stake_addr.eq(stake) {
            assert(is_first_slot_at(views, stake@, i as int));
            let ghost k = choose|k: int| is_first_slot_at(views, stake@, k);
            assert(k == i) by {
                if k < i {
                } else if i < k {
                }
            }
            return Some(i);
        }
        i += 1;
    }
    assert forall|k: int| !is_first_slot_at(views, stake@, k) by {}
    None
}

/// What the pool of a slot holds.
fn read_pool(slot: &RecipientSlot, stake_account: &AccountView) -> (r: Result<u64, Failure>)
    ensures
        r == pool_of(slot@, *stake_account),
{
    if is_native_mint(&slot.token_addr) {
        Ok(stake_account.lamports)
    } else {
        match unpack_token_account(stake_account.data.as_slice()) {
            Err(e) => Err(e),
            Ok(token) => {
                if token.mint.eq(&slot.token_addr) {
                    Ok(token.amount)
                } else {
                    Err(Failure::InvalidAccountData)
                }
            },
        }
    }
}

/// Makes one claim on the stage held in `slots`, `paid`, `effects` and `signers`.
fn handle_claim(
    slots: &mut Vec<RecipientSlot>,
    paid: &mut Vec<u64>,
    effects: &mut Vec<Effect>,
    signers: &mut Vec<PoolSigner>,
    pda_account: &AccountView,
    stake_account: &AccountView,
    receiver: &AccountView,
    payer: &Address,
    recipient_key: &Address,
    program_id: &Address,
) -> (r: Result<(), Failure>)
    requires
        old(paid)@.len() == old(slots)@.len(),
    ensures
        match after_claim(
            ClaimStage {
                slots: slots_view(old(slots)@),
                paid: old(paid)@,
                effects: old(effects)@,
                signers: old(signers)@,
            },
            *pda_account,
            *stake_account,
            *receiver,
            *payer,
            *recipient_key,
            *program_id,
        ) {
            Ok(stage) => {
                &&& r is Ok
                &&& slots_view(final(slots)@) == stage.slots
                &&& final(paid)@ == stage.paid
                &&& final(effects)@ == stage.effects
                &&& final(signers)@ == stage.signers
                &&& final(paid)@.len() == final(slots)@.len()
            },
            Err(e) => r == Err::<(), Failure>(e),
        },
{
    let i: usize = match find_slot_at(slots, &stake_account.key) {
        None => {
            return Err(Failure::Process(ProcessError::InvalidRecipientSlotAccount));
        },
        Some(i) => i,
    };
    let mut seeds: Vec<Vec<u8>> = Vec::new();
    seeds.push(address_to_vec(recipient_key));
    let mut id_seed: Vec<u8> = Vec::new();
    id_seed.push(slots[i].id);
    seeds.push(id_seed);
    assert(seeds_view(seeds@) =~= slot_seeds(*recipient_key, slots@[i as int].id)) by {
        assert(seeds@[1]@ =~= seq![slots@[i as int].id]);
    }
    let bump_seed: u8 = match find_program_address(&seeds, program_id) {
        None => {
            return Err(Failure::Process(ProcessError::InvalidPDA));
        },
        Some((address, bump_seed)) => {
            if !address.eq(&pda_account.key) {
                return Err(Failure::Process(ProcessError::InvalidPDA));
            }
            bump_seed
        },
    };
    let slot_id: u8 = slots[i].id;
    match validate_receiver(payer, &slots[i].token_addr, &receiver.key) {
        Err(e) => {
            return Err(e);
        },
        Ok(_) => {},
    }
    let amount: u64 = match read_pool(&slots[i], stake_account) {
        Err(e) => {
            return Err(e);
        },
        Ok(amount) => amount,
    };
    let taken: u64 = paid[i];
    if amount < taken {
        return Err(Failure::InsufficientFunds);
    }
    let pool: u64 = amount - taken;
    let mint: Address = slots[i].token_addr;
    let claim: u64 = match checked_claim_from_slot(pool, &mut slots[i], payer) {
        Err(e) => {
            return Err(e);
        },
        Ok(claim) => claim,
    };
    if claim > pool {
        return Err(Failure::InsufficientFunds);
    }
    paid[i] = taken + claim;
    if claim > 0 {
        effects.push(
            Effect::Transfer {
                source: stake_account.key,
                destination: receiver.key,
                mint,
                amount: claim,
            },
        );
        signers.push(PoolSigner { address: pda_account.key, slot_id, bump_seed });
    }
    proof {
        let before = slots_view(old(slots)@);
        let shares = checked_claim(before[i as int].shares, pool, *payer)->Ok_0.1;
        assert(slots_view(slots@) =~= before.update(
            i as int,
            RecipientSlotView { shares, ..before[i as int] },
        ));
    }
    Ok(())
}

/// Lets the payer claim from the slots of a recipient. The supplied accounts are
/// taken three at a time: the address that signs for the pool of a slot, the pool,
/// and the account to receive. Returns the transfers to ask the runtime for, with
/// the signer of each, and records what was withdrawn. Where a claim fails, nothing
/// is recorded.
pub fn process(
    program_id: &Address,
    payer: &AccountView,
    recipient_key: &Address,
    recipient_state: &mut RecipientState,
    rest: &Vec<AccountView>,
) -> (r: Result<ClaimPlan, Failure>)
    ensures
        final(recipient_state).is_initialized == old(recipient_state).is_initialized,
        final(recipient_state).cap_addr == old(recipient_state).cap_addr,
        match claimed(
            *program_id,
            *payer,
            *recipient_key,
            slots_view(old(recipient_state).slots@),
            rest@,
        ) {
            Ok(stage) => {
                &&& r is Ok
                &&& r->Ok_0.effects@ == stage.effects
                &&& r->Ok_0.signers@ == stage.signers
                &&& r->Ok_0.signers@.len() == r->Ok_0.effects@.len()
                &&& slots_view(final(recipient_state).slots@) == stage.slots
            },
            Err(e) => {
                &&& r == Err::<ClaimPlan, Failure>(e)
                &&& final(recipient_state).slots == old(recipient_state).slots
            },
        },
{
    if !payer.is_signer {
        return Err(Failure::MissingRequiredSignature);
    }
    let mut slots: Vec<RecipientSlot> = copy_slots(&recipient_state.slots);
    let mut paid: Vec<u64> = Vec::new();
    let n: usize = slots.len();
    let mut i: usize = 0;
    while i < n
        invariant
            i <= n,
            n == slots@.len(),
            paid@.len() == i,
            forall|j: int| 0 <= j < i ==> paid@[j] == 0u64,
        decreases n - i,
    {
        paid.push(0);
        i += 1;
    }
    let mut effects: Vec<Effect> = Vec::new();
    let mut signers: Vec<PoolSigner> = Vec::new();
    let ghost start = first_claim_stage(slots_view(recipient_state.slots@));
    assert(paid@ =~= start.paid);
    let supplied: usize = rest.len();
    let count: usize = supplied / 3;
    let mut k: usize = 0;
    while k < count
        invariant
            k <= count,
            supplied == rest@.len(),
            count == supplied / 3,
            paid@.len() == slots@.len(),
            signers@.len() == effects@.len(),
            payer.is_signer,
            *recipient_state == *old(recipient_state),
            start == first_claim_stage(slots_view(old(recipient_state).slots@)),
            after_claims(start, rest@, k as nat, payer.key, *recipient_key, *program_id) == Ok::<
                ClaimStage,
                Failure,
            >(
                ClaimStage {
                    slots: slots_view(slots@),
                    paid: paid@,
                    effects: effects@,
                    signers: signers@,
                },
            ),
        decreases count - k,
    {
        match handle_claim(
            &mut slots,
            &mut paid,
            &mut effects,
            &mut signers,
            &rest[3 * k],
            &rest[3 * k + 1],
            &rest[3 * k + 2],
            &payer.key,
            recipient_key,
            program_id,
        ) {
            Err(e) => {
                proof {
                    assert(after_claims(
                        start,
                        rest@,
                        (k + 1) as nat,
                        payer.key,
                        *recipient_key,
                        *program_id,
                    ) == Err::<ClaimStage, Failure>(e));
                    lemma_claims_fail(
                        start,
                        rest@,
                        count as nat,
                        payer.key,
                        *recipient_key,
                        *program_id,
                        (k + 1) as nat,
                        e,
                    );
                }
                return Err(e);
            },
            Ok(_) => {},
        }
        k += 1;
    }
    recipient_state.slots = slots;
    Ok(ClaimPlan { effects, signers })
}

/// Whether no owner has withdrawn more than the owner's entitlement, the weights
/// not summing to zero.
pub open spec fn is_within_entitlements(shares: Seq<RecipientSlotShare>, stake_amount: u64) -> bool {
    &&& total_weights(shares) > 0
    &&& forall|j: int|
        0 <= j < shares.len() ==> shares[j].claim_amount <= #[trigger] entitlement(
            shares,
            stake_amount,
            j,
        )
}

/// The sum of the entitlements of the first `k` shares.
pub open spec fn sum_entitlements(shares: Seq<RecipientSlotShare>, stake_amount: u64, k: nat) -> nat
    decreases k,
{
    if k == 0 {
        0
    } else {
        sum_entitlements(shares, stake_amount, (k - 1) as nat) + entitlement(
            shares,
            stake_amount,
            k - 1,
        )
    }
}

/// Rounding down each part of a whole gives no more than the whole, part by part.
proof fn lemma_floor_parts(total: nat, part: nat, more: nat, whole: nat)
    requires
        whole > 0,
    ensures
        (total * part) / whole + (total * more) / whole <= (total * (part + more)) / whole,
{
    let a = total * part;
    let b = total * more;
    assert(total * (part + more) == a + b) by (nonlinear_arith)
        requires
            a == total * part,
            b == total * more,
    ;
    assert(a / whole + b / whole <= (a + b) / whole) by (nonlinear_arith)
        requires
            whole > 0,
            a >= 0,
            b >= 0,
    ;
}

/// The entitlements of the first `k` shares come to no more than the part of all
/// that the slot has ever held that their weights stand for.
proof fn lemma_entitlements_of_prefix(shares: Seq<RecipientSlotShare>, stake_amount: u64, k: nat)
    requires
        k <= shares.len(),
        total_weights(shares) > 0,
    ensures
        sum_entitlements(shares, stake_amount, k) <= (lifetime_total(shares, stake_amount)
            * total_weights(shares.take(k as int))) / total_weights(shares),
    decreases k,
{
    let total = lifetime_total(shares, stake_amount);
    let whole = total_weights(shares);
    if k == 0 {
        assert(shares.take(0) =~= Seq::empty());
        assert(total * 0 == 0) by (nonlinear_arith);
    } else {
        let j = (k - 1) as nat;
        lemma_entitlements_of_prefix(shares, stake_amount, j);
        lemma_totals_step(shares, j as int);
        lemma_floor_parts(
            total,
            shares[j as int].weights as nat,
            total_weights(shares.take(j as int)),
            whole,
        );
    }
}

/// The entitlements come to no more than all that the slot has ever held.
pub proof fn lemma_entitlements_within_total(shares: Seq<RecipientSlotShare>, stake_amount: u64)
    requires
        total_weights(shares) > 0,
    ensures
        sum_entitlements(shares, stake_amount, shares.len()) <= lifetime_total(shares, stake_amount),
{
    let total = lifetime_total(shares, stake_amount);
    let whole = total_weights(shares);
    lemma_entitlements_of_prefix(shares, stake_amount, shares.len());
    assert(shares.take(shares.len() as int) =~= shares);
    assert((total * whole) / whole == total) by (nonlinear_arith)
        requires
            whole > 0,
            total >= 0,
    ;
}

/// Where no owner has withdrawn more than the entitlement, what is still due to the
/// first `k` owners together is the difference of the sums, and it is at least
/// what is still due to any one of them.
proof fn lemma_due_of_prefix(shares: Seq<RecipientSlotShare>, stake_amount: u64, k: nat, i: int)
    requires
        k <= shares.len(),
        is_within_entitlements(shares, stake_amount),
    ensures
        total_claimed(shares.take(k as int)) <= sum_entitlements(shares, stake_amount, k),
        0 <= i < k ==> entitlement(shares, stake_amount, i) - shares[i].claim_amount
            <= sum_entitlements(shares, stake_amount, k) - total_claimed(shares.take(k as int)),
    decreases k,
{
    if k == 0 {
        assert(shares.take(0) =~= Seq::empty());
    } else {
        let j = (k - 1) as nat;
        lemma_due_of_prefix(shares, stake_amount, j, i);
        lemma_totals_step(shares, j as int);
        assert(shares[j as int].claim_amount <= entitlement(shares, stake_amount, j as int));
    }
}

/// What one owner has withdrawn is part of what all have withdrawn.
proof fn lemma_claimed_is_part(shares: Seq<RecipientSlotShare>, i: int)
    requires
        0 <= i < shares.len(),
    ensures
        shares[i].claim_amount <= total_claimed(shares),
    decreases shares.len(),
{
    if i < shares.len() - 1 {
        lemma_claimed_is_part(shares.drop_last(), i);
    }
}

/// A claim never exceeds the pool: where no owner has withdrawn more than the
/// entitlement, what is due to an owner is no more than the pool holds, so that the
/// sum of all that was withdrawn never exceeds all that the slot has ever held.
pub proof fn lemma_claim_within_pool(shares: Seq<RecipientSlotShare>, stake_amount: u64, i: int)
    requires
        0 <= i < shares.len(),
        is_within_entitlements(shares, stake_amount),
    ensures
        entitlement(shares, stake_amount, i) - shares[i].claim_amount <= stake_amount,
        entitlement(shares, stake_amount, i) <= lifetime_total(shares, stake_amount),
{
    lemma_due_of_prefix(shares, stake_amount, shares.len(), i);
    lemma_entitlements_within_total(shares, stake_amount);
    lemma_claimed_is_part(shares, i);
    assert(shares.take(shares.len() as int) =~= shares);
}

/// A claim keeps every owner within the entitlement: after the owner of share `i`
/// has withdrawn what was due and the pool has paid it out, all that the slot has
/// ever held is what it was, and still no owner has withdrawn more than the
/// entitlement.
pub proof fn lemma_claim_keeps_within(shares: Seq<RecipientSlotShare>, stake_amount: u64, i: int)
    requires
        0 <= i < shares.len(),
        is_within_entitlements(shares, stake_amount),
        lifetime_total(shares, stake_amount) <= u64::MAX,
    ensures
        ({
            let due = entitlement(shares, stake_amount, i);
            let claim = due - shares[i].claim_amount;
            let after = with_claimed(shares, i, due as u64);
            let left = (stake_amount - claim) as u64;
            &&& 0 <= claim <= stake_amount
            &&& lifetime_total(after, left) == lifetime_total(shares, stake_amount)
            &&& is_within_entitlements(after, left)
        }),
{
    let due = entitlement(shares, stake_amount, i);
    let claim = due - shares[i].claim_amount;
    let after = with_claimed(shares, i, due as u64);
    let left = (stake_amount - claim) as u64;
    lemma_claim_within_pool(shares, stake_amount, i);
    lemma_totals_after_claim(shares, i, due as u64);
    assert forall|j: int| 0 <= j < after.len() implies after[j].claim_amount
        <= #[trigger] entitlement(after, left, j) by {
        assert(entitlement(after, left, j) == entitlement(shares, stake_amount, j));
    }
}

/// A deposit keeps every owner within the entitlement: where the pool grows, every
/// entitlement grows or stays.
pub proof fn lemma_deposit_keeps_within(shares: Seq<RecipientSlotShare>, stake_amount: u64, more: u64)
    requires
        is_within_entitlements(shares, stake_amount),
        stake_amount + more <= u64::MAX,
    ensures
        is_within_entitlements(shares, (stake_amount + more) as u64),
{
    let grown = (stake_amount + more) as u64;
    let whole = total_weights(shares);
    assert forall|j: int| 0 <= j < shares.len() implies shares[j].claim_amount
        <= #[trigger] entitlement(shares, grown, j) by {
        let before = lifetime_total(shares, stake_amount);
        let after = lifetime_total(shares, grown);
        let weight = shares[j].weights as nat;
        assert(shares[j].claim_amount <= entitlement(shares, stake_amount, j));
        assert((before * weight) / whole <= (after * weight) / whole) by (nonlinear_arith)
            requires
                before <= after,
                whole > 0,
        ;
    }
}

/// Claims leave the slots what they are: as many, each with its id, its token, its
/// pool and as many shares, so that slots that shared no id and no token share none
/// afterwards.
pub proof fn lemma_claims_keep_slots(
    stage: ClaimStage,
    rest: Seq<AccountView>,
    count: nat,
    payer: Address,
    recipient_key: Address,
    program_id: Address,
)
    requires
        after_claims(stage, rest, count, payer, recipient_key, program_id) is Ok,
    ensures
        same_slots(
            after_claims(stage, rest, count, payer, recipient_key, program_id)->Ok_0.slots,
            stage.slots,
        ),
        has_distinct_slots(stage.slots) ==> has_distinct_slots(
            after_claims(stage, rest, count, payer, recipient_key, program_id)->Ok_0.slots,
        ),
    decreases count,
{
    if count > 0 {
        let k = (count - 1) as nat;
        lemma_claims_keep_slots(stage, rest, k, payer, recipient_key, program_id);
        let before = after_claims(stage, rest, k, payer, recipient_key, program_id)->Ok_0;
        let after = after_claims(stage, rest, count, payer, recipient_key, program_id)->Ok_0;
        assert(same_slots(after.slots, before.slots)) by {
            let stake = rest[3 * k as int + 1];
            let i = choose|i: int| is_first_slot_at(before.slots, stake.key@, i);
            let shares = checked_claim(
                before.slots[i].shares,
                (pool_of(before.slots[i], stake)->Ok_0 - before.paid[i]) as u64,
                payer,
            )->Ok_0.1;
            assert(shares.len() == before.slots[i].shares.len());
        }
    }
}

} // verus!
