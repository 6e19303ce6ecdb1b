//! A new slot for a recipient that exists.
use crate::address::Address;
use crate::error::{Failure, ProcessError};
use crate::processor::create_recipient::{
    are_shares_named, check_shares, pool_setup, set_up_pool, slot_view_of,
};
use crate::processor::misc::{AccountView, Effect};
use crate::state::recipient::{
    has_distinct_slots, slots_view, RecipientSlot, RecipientSlotView, RecipientState,
};
use crate::types::RecipientSlotInit;
use vstd::prelude::*;

verus! {

/// Whether the payer holds the capability to change the recipient.
pub open spec fn holds_capability(cap_addr: Option<Address>, payer: Address) -> bool {
    match cap_addr {
        Some(holder) => holder@ == payer@,
        None => false,
    }
}

/// Whether the payer holds the capability to change the recipient.
pub fn check_capability(cap_addr: &Option<Address>, payer: &Address) -> (r: bool)
    ensures
        r == holds_capability(*cap_addr, *payer),
{
    match cap_addr {
        Some(holder) => holder.eq(payer),
        None => false,
    }
}

/// What adding a slot comes to: what is done with the pool of the slot, or the first
/// failure. The slot has to have a share, the payer has to have signed and to hold
/// the capability of a recipient that is set up, no slot may hold the token or have
/// the id already, the pool has to fit the token, and every share that is yet to be
/// assigned has to be fitly named.
pub open spec fn added(
    program_id: Address,
    payer: AccountView,
    recipient_key: Address,
    is_initialized: bool,
    cap_addr: Option<Address>,
    slots: Seq<RecipientSlotView>,
    stake_account: AccountView,
    params: RecipientSlotInit,
) -> Result<Option<Effect>, Failure> {
    if params.init_shares@.len() == 0 {
        Err(Failure::Process(ProcessError::EmptyRecipientSlotShares))
    } else if !payer.is_signer {
        Err(Failure::MissingRequiredSignature)
    } else if !is_initialized {
        Err(Failure::Process(ProcessError::InvalidRecipientAddress))
    } else if !holds_capability(cap_addr, payer.key) {
        Err(Failure::Process(ProcessError::NoRecipientUpdateCap))
    } else if exists|i: int| 0 <= i < slots.len() && slots[i].token_addr@ == params.token_addr@ {
        Err(Failure::Process(ProcessError::DuplicatedRecipientSlotToken))
    } else if exists|i: int| 0 <= i < slots.len() && slots[i].id == params.id {
        Err(Failure::Process(ProcessError::InvalidSlotId))
    } else {
        match pool_setup(program_id, recipient_key, params, stake_account, payer.key) {
            Err(e) => Err(e),
            Ok(effect) => if !are_shares_named(params.init_shares@) {
                Err(Failure::Process(ProcessError::InvalidIdentifierLength))
            } else {
                Ok(effect)
            },
        }
    }
}

/// Whether a slot holds the token, and whether a slot has the id.
fn find_same(slots: &Vec<RecipientSlot>, token: &Address, id: u8) -> (r: (bool, bool))
    ensures
        r.0 == exists|i: int| 0 <= i < slots@.len() && slots_view(slots@)[i].token_addr@ == token@,
        r.1 == exists|i: int| 0 <= i < slots@.len() && slots_view(slots@)[i].id == id,
{
    let ghost views = slots_view(slots@);
    let n: usize = slots.len();
    let mut same_token: bool = false;
    let mut same_id: bool = false;
    let mut i: usize = 0;
    while i < n
        invariant
            i <= n,
            n == slots@.len(),
            views == slots_view(slots@),
            same_token == exists|j: int| 0 <= j < i && views[j].token_addr@ == token@,
            same_id == exists|j: int| 0 <= j < i && views[j].id == id,
        decreases n - i,
    {
        if slots[i].token_addr.eq(token) {
            assert(views[i as int].token_addr@ == token@);
            same_token = true;
        }
        if slots[i].id == id {
            assert(views[i as int].id == id);
            same_id = true;
        }
        i += 1;
    }
    (same_token, same_id)
}

/// Adds a slot to a recipient. Returns what is to be done with the pool of the slot.
/// Leaves the recipient as it is where the slot cannot be added.
pub fn process(
    program_id: &Address,
    payer: &AccountView,
    recipient_key: &Address,
    recipient_state: &mut RecipientState,
    stake_account: &AccountView,
    params: RecipientSlotInit,
) -> (r: Result<Option<Effect>, Failure>)
    ensures
        final(recipient_state).is_initialized == old(recipient_state).is_initialized,
        final(recipient_state).cap_addr == old(recipient_state).cap_addr,
        match added(
            *program_id,
            *payer,
            *recipient_key,
            old(recipient_state).is_initialized,
            old(recipient_state).cap_addr,
            slots_view(old(recipient_state).slots@),
            *stake_account,
            params,
        ) {
            Ok(effect) => {
                &&& r == Ok::<Option<Effect>, Failure>(effect)
                &&& slots_view(final(recipient_state).slots@) == slots_view(
                    old(recipient_state).slots@,
                ).push(slot_view_of(params))
            },
            Err(e) => {
                &&& r == Err::<Option<Effect>, Failure>(e)
                &&& final(recipient_state).slots == old(recipient_state).slots
            },
        },
        has_distinct_slots(slots_view(old(recipient_state).slots@)) ==> has_distinct_slots(
            slots_view(final(recipient_state).slots@),
        ),
{
    if params.init_shares.len() == 0 {
        return Err(Failure::Process(ProcessError::EmptyRecipientSlotShares));
    }
    if !payer.is_signer {
        return Err(Failure::MissingRequiredSignature);
    }
    if !recipient_state.is_initialized {
        return Err(Failure::Process(ProcessError::InvalidRecipientAddress));
    }
    if !check_capability(&recipient_state.cap_addr, &payer.key) {
        return Err(Failure::Process(ProcessError::NoRecipientUpdateCap));
    }
    let (same_token, same_id) = find_same(&recipient_state.slots, &params.token_addr, params.id);
    if same_token {
        return Err(Failure::Process(ProcessError::DuplicatedRecipientSlotToken));
    }
    if same_id {
        return Err(Failure::Process(ProcessError::InvalidSlotId));
    }
    let effect: Option<Effect> = match set_up_pool(
        program_id,
        recipient_key,
        &params,
        stake_account,
        &payer.key,
    ) {
        Err(e) => {
            return Err(e);
        },
        Ok(effect) => effect,
    };
    if !check_shares(&params.init_shares) {
        return Err(Failure::Process(ProcessError::InvalidIdentifierLength));
    }
    let slot: RecipientSlot = params.into_slot();
    assert(slot@.shares =~= slot_view_of(params).shares);
    recipient_state.slots.push(slot);
    assert(slots_view(recipient_state.slots@) =~= slots_view(old(recipient_state).slots@).push(
        slot_view_of(params),
    ));
    Ok(effect)
}

} // verus!
