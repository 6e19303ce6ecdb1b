//! Creation of a recipient and of its slots.
use crate::address::Address;
use crate::error::{Failure, ProcessError};
use crate::processor::misc::{
    address_to_vec, find_program_address, is_native_mint, native_mint_bytes, program_address,
    seeds_view, token_account_of, unpack_token_account, AccountView, Effect,
};
use crate::processor::recipient_claim::slot_seeds;
use crate::state::recipient::{
    has_distinct_slots, slots_view, RecipientSlot, RecipientSlotOwner, RecipientSlotShare, RecipientSlotView,
    RecipientState,
};
use crate::types::{
    copy_owner, share_of_init, CreateRecipientParams, RecipientSlotInit, RecipientSlotShareInit,
};
use vstd::prelude::*;
use vstd::string::StringSliceAdditionalSpecFns;
use vstd::utf8::encode_utf8;

verus! {

/// The longest identifier, in bytes, that a share or a bonus may go by.
pub const MAX_IDENTIFIER_LEN: usize = 16;

/// Whether an identifier is fit to name a share or a bonus: not empty, and no longer
/// than sixteen bytes.
pub open spec fn is_identifier(identifier: Seq<char>) -> bool {
    0 < encode_utf8(identifier).len() <= MAX_IDENTIFIER_LEN
}

/// Whether a string is fit to name a share or a bonus.
pub fn check_identifier(identifier: &String) -> (r: bool)
    ensures
        r == is_identifier(identifier@),
{
    let n: usize = identifier.as_str().as_bytes().len();
    0 < n && n <= MAX_IDENTIFIER_LEN
}

/// Whether every share that is yet to be assigned goes by a fit identifier.
pub open spec fn are_shares_named(shares: Seq<RecipientSlotShareInit>) -> bool {
    forall|i: int|
        0 <= i < shares.len() ==> match #[trigger] shares[i].owner {
            RecipientSlotOwner::Unassigned { identifier } => is_identifier(identifier@),
            RecipientSlotOwner::Assigned { .. } => true,
        }
}

/// Whether every share that is yet to be assigned goes by a fit identifier.
pub fn check_shares(shares: &Vec<RecipientSlotShareInit>) -> (r: bool)
    ensures
        r == are_shares_named(shares@),
{
    let n: usize = shares.len();
    let mut i: usize = 0;
    while i < n
        invariant
            i <= n,
            n == shares@.len(),
            are_shares_named(shares@.take(i as int)),
        decreases n - i,
    {
        match &shares[i].owner {
            RecipientSlotOwner::Unassigned { identifier } => {
                if !check_identifier(identifier) {
                    return false;
                }
            },
            RecipientSlotOwner::Assigned { .. } => {},
        }
        assert forall|j: int| 0 <= j < i + 1 implies match #[trigger] shares@.take(i + 1)[j].owner {
            RecipientSlotOwner::Unassigned { identifier } => is_identifier(identifier@),
            RecipientSlotOwner::Assigned { .. } => true,
        } by {
            if j < i {
                assert(shares@.take(i as int)[j] == shares@[j]);
            }
        }
        i += 1;
    }
    assert(shares@.take(n as int) =~= shares@);
    true
}

/// What the pool of a new slot has to be, and what is done with it. For the native
/// token the pool has to be the address that the program signs with for the slot; for
/// any other token it has to be a token account of that token, which is handed over
/// to that address.
pub open spec fn pool_setup(
    program_id: Address,
    recipient_key: Address,
    slot: RecipientSlotInit,
    stake_account: AccountView,
    payer: Address,
) -> Result<Option<Effect>, Failure> {
    match program_address(slot_seeds(recipient_key, slot.id), program_id@) {
        None => Err(Failure::Process(ProcessError::InvalidPDA)),
        Some((address, bump_seed)) => if slot.token_addr@ == native_mint_bytes() {
            if stake_account.key@ != address {
                Err(Failure::Process(ProcessError::InvalidSlotStakeAccount))
            } else {
                Ok(None)
            }
        } else {
            match token_account_of(stake_account.data@) {
                Err(e) => Err(e),
                Ok((mint, _)) => if mint != slot.token_addr@ {
                    Err(Failure::InvalidArgument)
                } else {
                    Ok(
                        Some(
                            Effect::SetAuthority {
                                account: stake_account.key,
                                owner: payer,
                                slot: Some(slot.id),
                                bump_seed,
                            },
                        ),
                    )
                },
            }
        },
    }
}

/// Checks the pool of a new slot and plans what is done with it.
pub fn set_up_pool(
    program_id: &Address,
    recipient_key: &Address,
    slot: &RecipientSlotInit,
    stake_account: &AccountView,
    payer: &Address,
) -> (r: Result<Option<Effect>, Failure>)
    ensures
        r == pool_setup(*program_id, *recipient_key, *slot, *stake_account, *payer),
{
    let mut seeds: Vec<Vec<u8>> = Vec::new();
    seeds.push(address_to_vec(recipient_key));
    let mut id_seed: Vec<u8> = Vec::new();
    id_seed.push(slot.id);
    seeds.push(id_seed);
    assert(seeds_view(seeds@) =~= slot_seeds(*recipient_key, slot.id)) by {
        assert(seeds@[1]@ =~= seq![slot.id]);
    }
    let (address, bump_seed) = match find_program_address(&seeds, program_id) {
        None => {
            return Err(Failure::Process(ProcessError::InvalidPDA));
        },
        Some(found) => found,
    };
    if is_native_mint(&slot.token_addr) {
        if stake_account.key.eq(&address) {
            Ok(None)
        } else {
            Err(Failure::Process(ProcessError::InvalidSlotStakeAccount))
        }
    } else {
        match unpack_token_account(stake_account.data.as_slice()) {
            Err(e) => Err(e),
            Ok(token) => {
                if token.mint.eq(&slot.token_addr) {
                    Ok(
                        Some(
                            Effect::SetAuthority {
                                account: stake_account.key,
                                owner: *payer,
                                slot: Some(slot.id),
                                bump_seed,
                            },
                        ),
                    )
                } else {
                    Err(Failure::InvalidArgument)
                }
            },
        }
    }
}

/// The slot that an initial slot becomes, as the contracts speak of slots.
pub open spec fn slot_view_of(init: RecipientSlotInit) -> RecipientSlotView {
    RecipientSlotView {
        id: init.id,
        slot_type: init.slot_type,
        token_addr: init.token_addr,
        stake_addr: init.stake_addr,
        shares: Seq::new(init.init_shares@.len(), |i: int| share_of_init(init.init_shares@[i])),
    }
}

/// Whether a slot among the first `k` has the id or holds the token of slot `k`.
pub open spec fn clashes(slots: Seq<RecipientSlotInit>, k: int) -> Option<Failure> {
    if exists|j: int| 0 <= j < k && slots[j].token_addr@ == slots[k].token_addr@ {
        Some(Failure::Process(ProcessError::DuplicatedRecipientSlotToken))
    } else if exists|j: int| 0 <= j < k && slots[j].id == slots[k].id {
        Some(Failure::Process(ProcessError::InvalidSlotId))
    } else {
        None
    }
}

/// The movements planned after the first `k` slots were checked. Slot number `k` is
/// checked against the account supplied as number `k`, which has to be the pool the
/// slot names; no slot before it may have its id or hold its token.
pub open spec fn after_slots(
    program_id: Address,
    recipient_key: Address,
    payer: Address,
    slots: Seq<RecipientSlotInit>,
    rest: Seq<AccountView>,
    k: nat,
) -> Result<Seq<Effect>, Failure>
    decreases k,
{
    if k == 0 {
        Ok(Seq::empty())
    } else {
        let j = (k - 1) as int;
        match after_slots(program_id, recipient_key, payer, slots, rest, (k - 1) as nat) {
            Err(e) => Err(e),
            Ok(effects) => if j >= rest.len() {
                Err(Failure::NotEnoughAccountKeys)
            } else if slots[j].stake_addr@ != rest[j].key@ {
                Err(Failure::Process(ProcessError::InvalidSlotStakeAccount))
            } else {
                match clashes(slots, j) {
                    Some(e) => Err(e),
                    None => match pool_setup(program_id, recipient_key, slots[j], rest[j], payer) {
                        Err(e) => Err(e),
                        Ok(None) => Ok(effects),
                        Ok(Some(effect)) => Ok(effects.push(effect)),
                    },
                }
            },
        }
    }
}

/// A failure among the first slots is the failure of them all.
proof fn lemma_slots_fail(
    program_id: Address,
    recipient_key: Address,
    payer: Address,
    slots: Seq<RecipientSlotInit>,
    rest: Seq<AccountView>,
    k: nat,
    n: nat,
    e: Failure,
)
    requires
        k <= n,
        after_slots(program_id, recipient_key, payer, slots, rest, k) == Err::<Seq<Effect>, Failure>(
            e,
        ),
    ensures
        after_slots(program_id, recipient_key, payer, slots, rest, n) == Err::<Seq<Effect>, Failure>(
            e,
        ),
    decreases n - k,
{
    if k < n {
        lemma_slots_fail(program_id, recipient_key, payer, slots, rest, k + 1, n, e);
    }
}

/// Slots that were checked do not clash: where the first `k` slots go through, no two
/// of them share an id or a token.
proof fn lemma_checked_slots_are_distinct(
    program_id: Address,
    recipient_key: Address,
    payer: Address,
    slots: Seq<RecipientSlotInit>,
    rest: Seq<AccountView>,
    k: nat,
)
    requires
        k <= slots.len(),
        after_slots(program_id, recipient_key, payer, slots, rest, k) is Ok,
    ensures
        forall|i: int, j: int|
            0 <= i < j < k ==> slots[i].id != slots[j].id && slots[i].token_addr@
                != slots[j].token_addr@,
    decreases k,
{
    if k > 0 {
        lemma_checked_slots_are_distinct(
            program_id,
            recipient_key,
            payer,
            slots,
            rest,
            (k - 1) as nat,
        );
        assert(clashes(slots, k - 1) is None);
    }
}

/// Whether the shares of every slot are fitly named.
pub open spec fn are_slots_named(slots: Seq<RecipientSlotInit>) -> bool {
    forall|i: int| 0 <= i < slots.len() ==> are_shares_named(#[trigger] slots[i].init_shares@)
}

/// What the creation of a recipient comes to: the movements to ask the runtime for,
/// or the first failure. The payer has to have signed, there has to be a slot, every
/// slot has to come with its pool, no two slots may share an id or a token, and
/// every share that is yet to be assigned has to be fitly named.
pub open spec fn created(
    program_id: Address,
    payer: AccountView,
    recipient_key: Address,
    slots: Seq<RecipientSlotInit>,
    rest: Seq<AccountView>,
) -> Result<Seq<Effect>, Failure> {
    if !payer.is_signer {
        Err(Failure::MissingRequiredSignature)
    } else if slots.len() == 0 {
        Err(Failure::Process(ProcessError::EmptyRecipientSlots))
    } else {
        match after_slots(program_id, recipient_key, payer.key, slots, rest, slots.len()) {
            Err(e) => Err(e),
            Ok(effects) => if !are_slots_named(slots) {
                Err(Failure::Process(ProcessError::InvalidIdentifierLength))
            } else {
                Ok(effects)
            },
        }
    }
}

/// Whether a slot among the first `k` has the id or holds the token of slot `k`.
fn find_clash(slots: &Vec<RecipientSlotInit>, k: usize) -> (r: Option<Failure>)
    requires
        k < slots@.len(),
    ensures
        r == clashes(slots@, k as int),
{
    let mut same_id: bool = false;
    let mut j: usize = 0;
    while j < k
        invariant
            j <= k,
            k < slots@.len(),
            forall|i: int| 0 <= i < j ==> slots@[i].token_addr@ != slots@[k as int].token_addr@,
            same_id == exists|i: int| 0 <= i < j && slots@[i].id == slots@[k as int].id,
        decreases k - j,
    {
        if slots[j].token_addr.eq(&slots[k].token_addr) {
            return Some(Failure::Process(ProcessError::DuplicatedRecipientSlotToken));
        }
        if slots[j].id == slots[k].id {
            same_id = true;
        }
        j += 1;
    }
    if same_id {
        Some(Failure::Process(ProcessError::InvalidSlotId))
    } else {
        None
    }
}

/// A new recipient and the movements to ask the runtime for.
#[derive(Debug, Clone, PartialEq, Eq)]
pub struct Creation {
    pub recipient_state: RecipientState,
    pub effects: Vec<Effect>,
}

/// The slots that initial slots become.
fn into_slots(slots: &Vec<RecipientSlotInit>) -> (r: Vec<RecipientSlot>)
    ensures
        r@.len() == slots@.len(),
        forall|i: int| 0 <= i < slots@.len() ==> r@[i]@ == slot_view_of(#[trigger] slots@[i]),
{
    let n: usize = slots.len();
    let mut r: Vec<RecipientSlot> = Vec::new();
    let mut i: usize = 0;
    while i < n
        invariant
            i <= n,
            n == slots@.len(),
            r@.len() == i,
            forall|j: int| 0 <= j < i ==> r@[j]@ == slot_view_of(#[trigger] slots@[j]),
        decreases n - i,
    {
        let init: &RecipientSlotInit = &slots[i];
        let m: usize = init.init_shares.len();
        let mut shares: Vec<RecipientSlotShare> = Vec::new();
        let mut k: usize = 0;
        while k < m
            invariant
                k <= m,
                m == init.init_shares@.len(),
                shares@.len() == k,
                forall|j: int|
                    0 <= j < k ==> shares@[j] == share_of_init(#[trigger] init.init_shares@[j]),
            decreases m - k,
        {
            shares.push(
                RecipientSlotShare {
                    owner: copy_owner(&init.init_shares[k].owner),
                    weights: init.init_shares[k].weights,
                    claim_amount: 0,
                },
            );
            k += 1;
        }
        assert(shares@ =~= slot_view_of(*init).shares);
        r.push(
            RecipientSlot {
                id: init.id,
                slot_type: init.slot_type,
                token_addr: init.token_addr,
                stake_addr: init.stake_addr,
                shares,
            },
        );
        i += 1;
    }
    r
}

/// Creates a recipient with the slots of the parameters, the holder of `cap_key`
/// being the one who may add slots later.
#[verifier::loop_isolation(false)]
pub fn process(
    program_id: &Address,
    payer: &AccountView,
    cap_key: &Address,
    recipient_key: &Address,
    params: &CreateRecipientParams,
    rest: &Vec<AccountView>,
) -> (r: Result<Creation, Failure>)
    ensures
        match created(*program_id, *payer, *recipient_key, params.slots@, rest@) {
            Ok(effects) => {
                &&& r is Ok
                &&& r->Ok_0.effects@ == effects
                &&& r->Ok_0.recipient_state.is_initialized
                &&& r->Ok_0.recipient_state.cap_addr == Some(*cap_key)
                &&& r->Ok_0.recipient_state.slots@.len() == params.slots@.len()
                &&& forall|i: int|
                    0 <= i < params.slots@.len() ==> r->Ok_0.recipient_state.slots@[i]@
                        == slot_view_of(#[trigger] params.slots@[i])
                &&& has_distinct_slots(slots_view(r->Ok_0.recipient_state.slots@))
            },
            Err(e) => r == Err::<Creation, Failure>(e),
        },
{
    if !payer.is_signer {
        return Err(Failure::MissingRequiredSignature);
    }
    let n: usize = params.slots.len();
    if n == 0 {
        return Err(Failure::Process(ProcessError::EmptyRecipientSlots));
    }
    let mut effects: Vec<Effect> = Vec::new();
    let mut k: usize = 0;
    while k < n
        invariant
            k <= n,
            n == params.slots@.len(),
            after_slots(
                *program_id,
                *recipient_key,
                payer.key,
                params.slots@,
                rest@,
                k as nat,
            ) == Ok::<Seq<Effect>, Failure>(effects@),
        decreases n - k,
    {
        let ghost before = effects@;
        let mut failure: Option<Failure> = None;
        if k >= rest.len() {
            failure = Some(Failure::NotEnoughAccountKeys);
        } else if !params.slots[k].stake_addr.eq(&rest[k].key) {
            failure = Some(Failure::Process(ProcessError::InvalidSlotStakeAccount));
        } else {
            match find_clash(&params.slots, k) {
                Some(e) => {
                    failure = Some(e);
                },
                None => {
                    match set_up_pool(
                        program_id,
                        recipient_key,
                        &params.slots[k],
                        &rest[k],
                        &payer.key,
                    ) {
                        Err(e) => {
                            failure = Some(e);
                        },
                        Ok(None) => {},
                        Ok(Some(effect)) => {
                            effects.push(effect);
                        },
                    }
                },
            }
        }
        match failure {
            Some(e) => {
                proof {
                    assert(after_slots(
                        *program_id,
                        *recipient_key,
                        payer.key,
                        params.slots@,
                        rest@,
                        (k + 1) as nat,
                    ) == Err::<Seq<Effect>, Failure>(e));
                    lemma_slots_fail(
                        *program_id,
                        *recipient_key,
                        payer.key,
                        params.slots@,
                        rest@,
                        (k + 1) as nat,
                        n as nat,
                        e,
                    );
                }
                return Err(e);
            },
            None => {},
        }
        k += 1;
    }
    let mut i: usize = 0;
    while i < n
        invariant
            i <= n,
            n == params.slots@.len(),
            forall|j: int| 0 <= j < i ==> are_shares_named(#[trigger] params.slots@[j].init_shares@),
        decreases n - i,
    {
        if !check_shares(&params.slots[i].init_shares) {
            assert(!are_shares_named(params.slots@[i as int].init_shares@));
            return Err(Failure::Process(ProcessError::InvalidIdentifierLength));
        }
        i += 1;
    }
    let slots: Vec<RecipientSlot> = into_slots(&params.slots);
    proof {
        lemma_checked_slots_are_distinct(
            *program_id,
            *recipient_key,
            payer.key,
            params.slots@,
            rest@,
            n as nat,
        );
        assert forall|i: int, j: int| 0 <= i < j < slots@.len() implies slots_view(slots@)[i].id
            != slots_view(slots@)[j].id && slots_view(slots@)[i].token_addr@ != slots_view(
            slots@,
        )[j].token_addr@ by {
            assert(slots@[i]@ == slot_view_of(params.slots@[i]));
            assert(slots@[j]@ == slot_view_of(params.slots@[j]));
        }
    }
    Ok(
        Creation {
            recipient_state: RecipientState { is_initialized: true, cap_addr: Some(*cap_key), slots },
            effects,
        },
    )
}

} // verus!
