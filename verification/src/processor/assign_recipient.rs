//! Assignment of the shares that wait for an owner.
use crate::address::Address;
use crate::error::{Failure, ProcessError};
use crate::processor::add_recipient_slot::{check_capability, holds_capability};
use crate::processor::misc::AccountView;
use crate::state::recipient::{
    has_distinct_slots, same_slots, slots_view, RecipientSlot, RecipientSlotOwner, RecipientSlotShare, RecipientSlotView,
    RecipientState,
};
use crate::types::AssignRecipientParams;
use vstd::prelude::*;

verus! {

/// Whether a share waits for an owner under the identifier.
pub open spec fn awaits(share: RecipientSlotShare, identifier: Seq<char>) -> bool {
    match share.owner {
        RecipientSlotOwner::Unassigned { identifier: name } => name@ == identifier,
        RecipientSlotOwner::Assigned { .. } => false,
    }
}

/// A share after the holder of `addr` was given every share that waits under the
/// identifier.
pub open spec fn assigned_share(share: RecipientSlotShare, identifier: Seq<char>, addr: Address) -> RecipientSlotShare {
    if awaits(share, identifier) {
        RecipientSlotShare {
            owner: RecipientSlotOwner::Assigned { addr },
            weights: share.weights,
            claim_amount: share.claim_amount,
        }
    } else {
        share
    }
}

/// The shares after the assignment.
pub open spec fn assigned_shares(
    shares: Seq<RecipientSlotShare>,
    identifier: Seq<char>,
    addr: Address,
) -> Seq<RecipientSlotShare> {
    Seq::new(shares.len(), |i: int| assigned_share(shares[i], identifier, addr))
}

/// The slots after the assignment.
pub open spec fn assigned_slots(
    slots: Seq<RecipientSlotView>,
    identifier: Seq<char>,
    addr: Address,
) -> Seq<RecipientSlotView> {
    Seq::new(
        slots.len(),
        |i: int|
            RecipientSlotView { shares: assigned_shares(slots[i].shares, identifier, addr), ..slots[i] },
    )
}

/// Gives the shares of one slot that wait under the identifier to the holder of
/// `addr`.
fn assign_in_slot(slot: &mut RecipientSlot, identifier: &String, addr: &Address)
    ensures
        final(slot)@ == (RecipientSlotView {
            shares: assigned_shares(old(slot)@.shares, identifier@, *addr),
            ..old(slot)@
        }),
{
    let n: usize = slot.shares.len();
    let mut j: usize = 0;
    while j < n
        invariant
            j <= n,
            n == slot.shares@.len(),
            n == old(slot).shares@.len(),
            slot.id == old(slot).id,
            slot.slot_type == old(slot).slot_type,
            slot.token_addr == old(slot).token_addr,
            slot.stake_addr == old(slot).stake_addr,
            forall|k: int|
                0 <= k < n ==> slot.shares@[k] == (if k < j {
                    assigned_share(old(slot).shares@[k], identifier@, *addr)
                } else {
                    old(slot).shares@[k]
                }),
        decreases n - j,
    {
        let waits: bool = match &slot.shares[j].owner {
            RecipientSlotOwner::Unassigned { identifier: name } => name.eq(identifier),
            RecipientSlotOwner::Assigned { .. } => false,
        };
        if waits {
            slot.shares[j].owner = RecipientSlotOwner::Assigned { addr: *addr };
        }
        j += 1;
    }
    assert(slot.shares@ =~= assigned_shares(old(slot).shares@, identifier@, *addr));
}

/// Gives every share that waits under the identifier of the parameters to the holder
/// of `assign_key`. The payer has to have signed and to hold the capability of the
/// recipient; where the payer does not, nothing is changed.
pub fn process(
    payer: &AccountView,
    recipient_state: &mut RecipientState,
    assign_key: &Address,
    params: &AssignRecipientParams,
) -> (r: Result<(), Failure>)
    ensures
        final(recipient_state).is_initialized == old(recipient_state).is_initialized,
        final(recipient_state).cap_addr == old(recipient_state).cap_addr,
        r == if !payer.is_signer {
            Err::<(), Failure>(Failure::MissingRequiredSignature)
        } else if !holds_capability(old(recipient_state).cap_addr, payer.key) {
            Err(Failure::Process(ProcessError::NoRecipientUpdateCap))
        } else {
            Ok(())
        },
        r is Ok ==> slots_view(final(recipient_state).slots@) == assigned_slots(
            slots_view(old(recipient_state).slots@),
            params.identifier@,
            *assign_key,
        ),
        r is Err ==> final(recipient_state).slots == old(recipient_state).slots,
{
    if !payer.is_signer {
        return Err(Failure::MissingRequiredSignature);
    }
    if !check_capability(&recipient_state.cap_addr, &payer.key) {
        return Err(Failure::Process(ProcessError::NoRecipientUpdateCap));
    }
    let ghost before = slots_view(recipient_state.slots@);
    let n: usize = recipient_state.slots.len();
    let mut i: usize = 0;
    while i < n
        invariant
            i <= n,
            n == recipient_state.slots@.len(),
            n == before.len(),
            before == slots_view(old(recipient_state).slots@),
            recipient_state.is_initialized == old(recipient_state).is_initialized,
            recipient_state.cap_addr == old(recipient_state).cap_addr,
            forall|k: int|
                0 <= k < n ==> recipient_state.slots@[k]@ == (if k < i {
                    RecipientSlotView {
                        shares: assigned_shares(before[k].shares, params.identifier@, *assign_key),
                        ..before[k]
                    }
                } else {
                    before[k]
                }),
        decreases n - i,
    {
        assign_in_slot(&mut recipient_state.slots[i], &params.identifier, assign_key);
        i += 1;
    }
    assert(slots_view(recipient_state.slots@) =~= assigned_slots(
        before,
        params.identifier@,
        *assign_key,
    ));
    Ok(())
}

/// An assignment is final: a share that has an owner keeps it, whatever identifier
/// is assigned afterwards, and every share keeps its weight and what was withdrawn.
pub proof fn lemma_assignment_is_final(share: RecipientSlotShare, identifier: Seq<char>, addr: Address)
    ensures
        share.owner is Assigned ==> assigned_share(share, identifier, addr) == share,
        assigned_share(share, identifier, addr).owner is Assigned <==> share.owner is Assigned
            || awaits(share, identifier),
        assigned_share(share, identifier, addr).weights == share.weights,
        assigned_share(share, identifier, addr).claim_amount == share.claim_amount,
{
}

/// An assignment leaves the slots what they are: as many, each with its id, its
/// token and its pool, so that slots that shared no id and no token share none
/// afterwards.
pub proof fn lemma_assignment_keeps_slots(
    slots: Seq<RecipientSlotView>,
    identifier: Seq<char>,
    addr: Address,
)
    ensures
        same_slots(assigned_slots(slots, identifier, addr), slots),
        has_distinct_slots(slots) ==> has_distinct_slots(assigned_slots(slots, identifier, addr)),
{
}

} // verus!
