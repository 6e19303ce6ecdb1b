use crate::address::Address;
use vstd::prelude::*;

verus! {

/// What a recipient slot pays out.
#[derive(Debug, Clone, Copy, PartialEq, Eq, Structural)]
pub enum RecipientSlotType {
    Token,
    Nft,
}

/// Who may claim a share.
#[derive(Debug, Clone, PartialEq, Eq)]
pub enum RecipientSlotOwner {
    /// Nobody yet; the identifier names the share until it is assigned.
    Unassigned { identifier: String },
    /// The holder of this address.
    Assigned { addr: Address },
}

/// One owner's part of a slot.
#[derive(Debug, Clone, PartialEq, Eq)]
pub struct RecipientSlotShare {
    pub owner: RecipientSlotOwner,
    /// The owner's weight among the shares of the slot.
    pub weights: u16,
    /// What the owner has withdrawn so far.
    pub claim_amount: u64,
}

/// A pooled token account with its weighted owners.
#[derive(Debug, Clone, PartialEq, Eq)]
pub struct RecipientSlot {
    pub id: u8,
    pub slot_type: RecipientSlotType,
    pub token_addr: Address,
    pub stake_addr: Address,
    pub shares: Vec<RecipientSlotShare>,
}

/// A slot as the contracts speak of it: the shares as a sequence.
pub struct RecipientSlotView {
    pub id: u8,
    pub slot_type: RecipientSlotType,
    pub token_addr: Address,
    pub stake_addr: Address,
    pub shares: Seq<RecipientSlotShare>,
}

impl View for RecipientSlot {
    type V = RecipientSlotView;

    open spec fn view(&self) -> RecipientSlotView {
        RecipientSlotView {
            id: self.id,
            slot_type: self.slot_type,
            token_addr: self.token_addr,
            stake_addr: self.stake_addr,
            shares: self.shares@,
        }
    }
}

/// The slots as the contracts speak of them.
pub open spec fn slots_view(slots: Seq<RecipientSlot>) -> Seq<RecipientSlotView> {
    Seq::new(slots.len(), |i: int| slots[i]@)
}

/// Whether no two slots share an id or a token.
pub open spec fn has_distinct_slots(slots: Seq<RecipientSlotView>) -> bool {
    forall|i: int, j: int|
        0 <= i < j < slots.len() ==> slots[i].id != slots[j].id && slots[i].token_addr@
            != slots[j].token_addr@
}

/// Whether two lists of slots are the same slots but for their shares: as many, each
/// with the id, the kind, the token and the pool of its counterpart.
pub open spec fn same_slots(a: Seq<RecipientSlotView>, b: Seq<RecipientSlotView>) -> bool {
    &&& a.len() == b.len()
    &&& forall|i: int|
        0 <= i < a.len() ==> a[i].id == b[i].id && a[i].slot_type == b[i].slot_type
            && a[i].token_addr == b[i].token_addr && a[i].stake_addr == b[i].stake_addr
            && a[i].shares.len() == b[i].shares.len()
}

/// The ledger of one payout pool.
#[derive(Debug, Clone, PartialEq, Eq)]
pub struct RecipientState {
    pub is_initialized: bool,
    /// Who may add slots; nobody once the capability has been dropped.
    pub cap_addr: Option<Address>,
    pub slots: Vec<RecipientSlot>,
}

impl RecipientState {
    /// Whether the account has been set up.
    pub fn is_initialized(&self) -> (r: bool)
        ensures
            r == self.is_initialized,
    {
        self.is_initialized
    }
}

} // verus!
