//! What the instructions share: the accounts as an instruction sees them, the
//! movements of value it asks for, and the checks on who may receive.
use crate::address::Address;
use crate::codec::u64_of_le;
use crate::error::{Failure, ProcessError};
use solana_program::program_error::ProgramError;
use solana_program::program_pack::Pack;
use solana_program::pubkey::{Pubkey, PubkeyError};
use spl_token::state::{Account, Mint};
use vstd::prelude::*;

verus! {

/// What an instruction sees of one account that the transaction names.
#[derive(Debug, Clone, PartialEq, Eq)]
pub struct AccountView {
    pub key: Address,
    /// Whether the holder of the account has signed the transaction.
    pub is_signer: bool,
    /// Whether the transaction may change the account.
    pub is_writable: bool,
    /// The native balance of the account.
    pub lamports: u64,
    pub data: Vec<u8>,
}

/// A movement of value that an instruction asks the runtime to carry out. The
/// runtime carries out all of them, in order, or none.
#[derive(Debug, Clone, Copy, PartialEq, Eq)]
pub enum Effect {
    /// Move `amount` units of the token `mint` from one account to another.
    Transfer { source: Address, destination: Address, mint: Address, amount: u64 },
    /// Close the emptied token account `account`; what it held for rent goes to
    /// `destination`.
    CloseAccount { account: Address, destination: Address },
    /// Hand the token account `account` over from `owner` to the address that the
    /// program signs with: the address derived, with `bump_seed`, from the main account
    /// of the instruction and, for the pool of a recipient slot, the id of the slot.
    SetAuthority { account: Address, owner: Address, slot: Option<u8>, bump_seed: u8 },
    /// Give up the account `account` of the program: its native balance, `lamports`,
    /// goes to `destination`.
    Release { account: Address, destination: Address, lamports: u64 },
}

/// What a token account holds, as far as the instructions read it.
#[derive(Debug, Clone, Copy, PartialEq, Eq)]
pub struct TokenAccount {
    pub mint: Address,
    pub amount: u64,
}

/// The address of the mint that stands for the native token.
pub open spec fn native_mint_bytes() -> Seq<u8> {
    seq![
        6u8, 155, 136, 87, 254, 171, 129, 132, 251, 104, 127, 99, 70, 24, 192, 53,
        218, 196, 57, 220, 26, 235, 59, 85, 152, 160, 240, 0, 0, 0, 0, 1,
    ]
}

/// The address of the token program.
pub open spec fn token_program_bytes() -> Seq<u8> {
    seq![
        6u8, 221, 246, 225, 215, 101, 161, 147, 217, 203, 225, 70, 206, 235, 121, 172,
        28, 180, 133, 237, 95, 91, 55, 145, 58, 140, 245, 133, 126, 255, 0, 169,
    ]
}

/// The address of the program that derives associated token accounts.
pub open spec fn associated_token_program_bytes() -> Seq<u8> {
    seq![
        140u8, 151, 37, 143, 78, 36, 137, 241, 187, 61, 16, 41, 20, 142, 13, 131,
        11, 90, 19, 153, 218, 255, 16, 132, 4, 142, 123, 216, 219, 233, 248, 89,
    ]
}

/// The address, with its bump seed, that the runtime derives for a program from
/// seeds, if there is one.
pub uninterp spec fn program_address(seeds: Seq<Seq<u8>>, program_id: Seq<u8>) -> Option<
    (Seq<u8>, u8),
>;

/// The seeds as sequences of bytes.
pub open spec fn seeds_view(seeds: Seq<Vec<u8>>) -> Seq<Seq<u8>> {
    Seq::new(seeds.len(), |i: int| seeds[i]@)
}

/// Derives a program's address from seeds with `Pubkey::try_find_program_address` of
/// `solana_program`. Trusted: the call computes the same address and bump seed for
/// the same seeds and program wherever it runs, and returns `None` where no bump seed
/// gives an address; it does not panic.
#[verifier::external_body]
pub(crate) fn find_program_address(seeds: &Vec<Vec<u8>>, program_id: &Address) -> (r: Option<
    (Address, u8),
>)
    ensures
        match r {
            Some((address, bump)) => program_address(seeds_view(seeds@), program_id@) == Some(
                (address@, bump),
            ),
            None => program_address(seeds_view(seeds@), program_id@) is None,
        },
{
    let refs: Vec<&[u8]> = seeds.iter().map(|s| s.as_slice()).collect();
    let id = Pubkey::new_from_array(program_id.bytes);
    Pubkey::try_find_program_address(&refs, &id).map(
        |(key, bump)| (Address { bytes: key.to_bytes() }, bump),
    )
}

/// The address that the runtime derives from a base address, a seed and an owner, or
/// why it derives none.
pub uninterp spec fn seeded_address(base: Seq<u8>, seed: Seq<char>, owner: Seq<u8>) -> Result<
    Seq<u8>,
    Failure,
>;

/// The bytes that the owner of a derived address must not end in: the text
/// `ProgramDerivedAddress`.
pub open spec fn derived_marker() -> Seq<u8> {
    seq![
        80u8, 114, 111, 103, 114, 97, 109, 68, 101, 114, 105, 118, 101, 100, 65, 100, 100, 114,
        101, 115, 115,
    ]
}

/// Why no address is derived from a seed for an owner, if none is: the seed is longer
/// than thirty-two bytes, or the owner ends in the marker of derived addresses.
pub open spec fn seed_refusal(seed: Seq<char>, owner: Seq<u8>) -> Option<Failure> {
    if vstd::utf8::encode_utf8(seed).len() > 32 {
        Some(Failure::MaxSeedLengthExceeded)
    } else if owner.len() >= 21 && owner.subrange(owner.len() - 21, owner.len() as int)
        == derived_marker() {
        Some(Failure::IllegalOwner)
    } else {
        None
    }
}

/// Derives an address from a base address, a seed and an owner with
/// `Pubkey::create_with_seed` of `solana_program`. Trusted: the call computes the same
/// for the same arguments wherever it runs; it fails exactly on a seed of more than
/// thirty-two bytes and, for a shorter seed, on an owner that ends in the marker of
/// derived addresses, and tells the two apart.
#[verifier::external_body]
pub(crate) fn create_with_seed(base: &Address, seed: &str, owner: &Address) -> (r: Result<
    Address,
    Failure,
>)
    ensures
        match r {
            Ok(address) => seeded_address(base@, seed@, owner@) == Ok::<Seq<u8>, Failure>(address@),
            Err(e) => seeded_address(base@, seed@, owner@) == Err::<Seq<u8>, Failure>(e),
        },
        match seed_refusal(seed@, owner@) {
            Some(e) => r == Err::<Address, Failure>(e),
            None => r is Ok,
        },
{
    let base = Pubkey::new_from_array(base.bytes);
    let owner = Pubkey::new_from_array(owner.bytes);
    match Pubkey::create_with_seed(&base, seed, &owner) {
        Ok(key) => Ok(Address { bytes: key.to_bytes() }),
        Err(PubkeyError::MaxSeedLengthExceeded) => Err(Failure::MaxSeedLengthExceeded),
        Err(_) => Err(Failure::IllegalOwner),
    }
}

/// The native mint, from `spl_token::native_mint::id`. Trusted: the call returns the
/// thirty-two bytes written out in `native_mint_bytes`.
#[verifier::external_body]
pub(crate) fn native_mint_id() -> (a: Address)
    ensures
        a@ == native_mint_bytes(),
{
    Address { bytes: spl_token::native_mint::id().to_bytes() }
}

/// The token program, from `spl_token::id`. Trusted: the call returns the thirty-two
/// bytes written out in `token_program_bytes`.
#[verifier::external_body]
pub(crate) fn token_program_id() -> (a: Address)
    ensures
        a@ == token_program_bytes(),
{
    Address { bytes: spl_token::id().to_bytes() }
}

/// The associated token account program, from `spl_associated_token_account::id`.
/// Trusted: the call returns the thirty-two bytes written out in
/// `associated_token_program_bytes`.
#[verifier::external_body]
pub(crate) fn associated_token_program_id() -> (a: Address)
    ensures
        a@ == associated_token_program_bytes(),
{
    Address { bytes: spl_associated_token_account::id().to_bytes() }
}

/// Whether the four bytes from `at` on are the tag of an optional field: zero for a
/// field that is absent, one for a field that is present.
pub open spec fn is_option_tag(data: Seq<u8>, at: int) -> bool {
    &&& data[at] == 0 || data[at] == 1
    &&& data[at + 1] == 0
    &&& data[at + 2] == 0
    &&& data[at + 3] == 0
}

/// Whether `data` has the layout of a token account: 165 bytes, a known state, and
/// a proper tag before each optional field.
pub open spec fn is_token_account_layout(data: Seq<u8>) -> bool {
    &&& data.len() == 165
    &&& is_option_tag(data, 72)
    &&& data[108] <= 2
    &&& is_option_tag(data, 109)
    &&& is_option_tag(data, 129)
}

/// What unpacking a token account gives: the mint and the amount of an account that
/// has the layout and is initialized.
pub open spec fn token_account_of(data: Seq<u8>) -> Result<(Seq<u8>, u64), Failure> {
    if !is_token_account_layout(data) {
        Err(Failure::InvalidAccountData)
    } else if data[108] == 0 {
        Err(Failure::UninitializedAccount)
    } else {
        Ok((data.subrange(0, 32), u64_of_le(data.subrange(64, 72))))
    }
}

/// Unpacks a token account with `Pack::unpack` of `spl_token::state::Account`.
/// Trusted: the call succeeds exactly on 165 bytes that hold proper tags, a known
/// state and not the state of an account yet to be initialized; the mint is the first
/// thirty-two bytes, the amount the eight bytes from the sixty-fourth on, low byte
/// first. It reports an account yet to be initialized as such, every other fault as
/// invalid data.
#[verifier::external_body]
pub(crate) fn unpack_token_account(data: &[u8]) -> (r: Result<TokenAccount, Failure>)
    ensures
        match r {
            Ok(account) => token_account_of(data@) == Ok::<(Seq<u8>, u64), Failure>(
                (account.mint@, account.amount),
            ),
            Err(e) => token_account_of(data@) == Err::<(Seq<u8>, u64), Failure>(e),
        },
{
    match Account::unpack(data) {
        Ok(a) => Ok(TokenAccount { mint: Address { bytes: a.mint.to_bytes() }, amount: a.amount }),
        Err(ProgramError::UninitializedAccount) => Err(Failure::UninitializedAccount),
        Err(_) => Err(Failure::InvalidAccountData),
    }
}

/// What unpacking a mint tells of its being set up: whether it is initialized, for
/// 82 bytes that hold a proper tag before each optional field and a proper flag.
pub open spec fn mint_initialized_of(data: Seq<u8>) -> Result<bool, Failure> {
    if data.len() != 82 || !is_option_tag(data, 0) || data[45] > 1 || !is_option_tag(data, 46) {
        Err(Failure::InvalidAccountData)
    } else {
        Ok(data[45] == 1)
    }
}

/// Unpacks a mint with `Pack::unpack_unchecked` of `spl_token::state::Mint` and tells
/// whether it is initialized. Trusted: the call succeeds exactly on 82 bytes that hold
/// proper tags and a flag of zero or one at byte 45, and the mint is initialized
/// exactly where the flag is one.
#[verifier::external_body]
pub(crate) fn unpack_mint(data: &[u8]) -> (r: Result<bool, Failure>)
    ensures
        r == mint_initialized_of(data@),
{
    match Mint::unpack_unchecked(data) {
        Ok(mint) => Ok(mint.is_initialized),
        Err(_) => Err(Failure::InvalidAccountData),
    }
}

/// Whether `mint` is the mint that stands for the native token.
pub fn is_native_mint(mint: &Address) -> (r: bool)
    ensures
        r == (mint@ == native_mint_bytes()),
{
    let native: Address = native_mint_id();
    mint.eq(&native)
}

/// The seeds, in order, from which the associated token account of `owner` for
/// `mint` is derived.
pub open spec fn associated_seeds(owner: Seq<u8>, mint: Seq<u8>) -> Seq<Seq<u8>> {
    seq![owner, token_program_bytes(), mint]
}

/// The associated token account of `wallet` for the token `mint`, from
/// `get_associated_token_address` of `spl_associated_token_account`. Trusted: the
/// call derives the address for the associated token account program from the
/// wallet, the token program and the mint, in this order, as
/// `Pubkey::find_program_address` derives it. Where no bump seed gives an address the
/// call panics; the precondition leaves those inputs out.
#[verifier::external_body]
pub(crate) fn associated_token_address(wallet: &Address, mint: &Address) -> (r: Address)
    requires
        program_address(associated_seeds(wallet@, mint@), associated_token_program_bytes()) is Some,
    ensures
        r@ == program_address(
            associated_seeds(wallet@, mint@),
            associated_token_program_bytes(),
        )->Some_0.0,
{
    let wallet = Pubkey::new_from_array(wallet.bytes);
    let mint = Pubkey::new_from_array(mint.bytes);
    let key = spl_associated_token_account::get_associated_token_address(&wallet, &mint);
    Address { bytes: key.to_bytes() }
}

/// Whether `receiver` is the account in which `owner` receives the token `mint`: the
/// owner's own account for the native token, the owner's associated token account
/// for any other.
pub open spec fn is_receiver_of(owner: Seq<u8>, mint: Seq<u8>, receiver: Seq<u8>) -> bool {
    if mint == native_mint_bytes() {
        receiver == owner
    } else {
        match program_address(associated_seeds(owner, mint), associated_token_program_bytes()) {
            Some((address, _)) => receiver == address,
            None => false,
        }
    }
}

/// The bytes of an address as a vector.
pub fn address_to_vec(address: &Address) -> (v: Vec<u8>)
    ensures
        v@ == address@,
{
    let mut v: Vec<u8> = Vec::new();
    let mut i: usize = 0;
    while i < 32
        invariant
            i <= 32,
            v@.len() == i,
            forall|j: int| 0 <= j < i ==> v@[j] == address.bytes@[j],
        decreases 32 - i,
    {
        v.push(address.bytes[i]);
        i += 1;
    }
    assert(v@ =~= address@);
    v
}

/// Checks that `receiver_key` is the account in which `account_key` receives the
/// token `mint`.
pub fn validate_receiver(account_key: &Address, mint: &Address, receiver_key: &Address) -> (r:
    Result<(), Failure>)
    ensures
        r == if is_receiver_of(account_key@, mint@, receiver_key@) {
            Ok::<(), Failure>(())
        } else {
            Err(Failure::Process(ProcessError::InvalidReceiverAddress))
        },
{
    if is_native_mint(mint) {
        if receiver_key.eq(account_key) {
            Ok(())
        } else {
            Err(Failure::Process(ProcessError::InvalidReceiverAddress))
        }
    } else {
        let mut seeds: Vec<Vec<u8>> = Vec::new();
        seeds.push(address_to_vec(account_key));
        seeds.push(address_to_vec(&token_program_id()));
        seeds.push(address_to_vec(mint));
        assert(seeds_view(seeds@) =~= associated_seeds(account_key@, mint@));
        // The derivation of the associated account panics where no address exists;
        // this one tells whether one does.
        match find_program_address(&seeds, &associated_token_program_id()) {
            Some(_) => {
                let address: Address = associated_token_address(account_key, mint);
                if receiver_key.eq(&address) {
                    Ok(())
                } else {
                    Err(Failure::Process(ProcessError::InvalidReceiverAddress))
                }
            },
            None => Err(Failure::Process(ProcessError::InvalidReceiverAddress)),
        }
    }
}

/// Whether a transfer of the token `mint` to `receiver` can be asked for: always for
/// the native token; for any other, where the data of the receiver unpacks as a token
/// account. A receiver that does not is passed by, and the transfer is left out.
pub fn is_payable(mint: &Address, receiver: &AccountView) -> (r: bool)
    ensures
        r == (mint@ == native_mint_bytes() || token_account_of(receiver.data@) is Ok),
{
    if is_native_mint(mint) {
        true
    } else {
        match unpack_token_account(receiver.data.as_slice()) {
            Ok(_) => true,
            Err(_) => false,
        }
    }
}

/// What an account holds of the token `mint`: its native balance for the native
/// token, the amount of the token account in its data for any other.
pub open spec fn holding_of(account: AccountView, mint: Seq<u8>) -> Result<u64, Failure> {
    if mint == native_mint_bytes() {
        Ok(account.lamports)
    } else {
        match token_account_of(account.data@) {
            Ok((_, amount)) => Ok(amount),
            Err(e) => Err(e),
        }
    }
}

/// What an account holds of the token `mint`.
pub fn holding(account: &AccountView, mint: &Address) -> (r: Result<u64, Failure>)
    ensures
        r == holding_of(*account, mint@),
{
    if is_native_mint(mint) {
        Ok(account.lamports)
    } else {
        match unpack_token_account(account.data.as_slice()) {
            Ok(token) => Ok(token.amount),
            Err(e) => Err(e),
        }
    }
}

} // verus!
