use race_settle::address::Address;
use race_settle::error::{Failure, ProcessError};
use race_settle::processor::misc::{
    address_to_vec, holding, is_native_mint, is_payable, validate_receiver, AccountView,
};
use solana_program::program_option::COption;
use solana_program::program_pack::Pack;
use solana_program::pubkey::Pubkey;
use spl_token::state::{Account, AccountState};
use std::str::FromStr;

fn address(key: &Pubkey) -> Address {
    Address::new(key.to_bytes())
}

fn token_account(mint: &Pubkey, amount: u64, state: AccountState) -> Vec<u8> {
    let account = Account {
        mint: *mint,
        owner: Pubkey::new_unique(),
        amount,
        delegate: COption::None,
        state,
        is_native: COption::None,
        delegated_amount: 0,
        close_authority: COption::Some(Pubkey::new_unique()),
    };
    let mut data = vec![0u8; 165];
    Account::pack(account, &mut data).unwrap();
    data
}

fn view(key: &Pubkey, lamports: u64, data: Vec<u8>) -> AccountView {
    AccountView { key: address(key), is_signer: false, is_writable: true, lamports, data }
}

#[test]
fn native_mint_is_told_apart() {
    let native = Pubkey::from_str("So11111111111111111111111111111111111111112").unwrap();
    assert!(is_native_mint(&address(&native)));
    assert!(is_native_mint(&address(&spl_token::native_mint::id())));
    assert!(!is_native_mint(&address(&spl_token::id())));
    assert!(!is_native_mint(&Address::default()));
    assert!(!is_native_mint(&address(&Pubkey::new_unique())));
}

#[test]
fn native_receiver_is_the_owner() {
    let native = address(&spl_token::native_mint::id());
    let owner = address(&Pubkey::new_unique());
    let other = address(&Pubkey::new_unique());
    assert_eq!(validate_receiver(&owner, &native, &owner), Ok(()));
    assert_eq!(
        validate_receiver(&owner, &native, &other),
        Err(Failure::Process(ProcessError::InvalidReceiverAddress))
    );
}

#[test]
fn token_receiver_is_the_associated_account() {
    let mint = Pubkey::new_unique();
    let owner = Pubkey::new_unique();
    let ata = spl_associated_token_account::get_associated_token_address(&owner, &mint);
    assert_eq!(validate_receiver(&address(&owner), &address(&mint), &address(&ata)), Ok(()));
    assert_eq!(
        validate_receiver(&address(&owner), &address(&mint), &address(&owner)),
        Err(Failure::Process(ProcessError::InvalidReceiverAddress))
    );
    let other_mint = Pubkey::new_unique();
    assert_eq!(
        validate_receiver(&address(&owner), &address(&other_mint), &address(&ata)),
        Err(Failure::Process(ProcessError::InvalidReceiverAddress))
    );
    assert_eq!(
        validate_receiver(&address(&mint), &address(&owner), &address(&ata)),
        Err(Failure::Process(ProcessError::InvalidReceiverAddress))
    );
}

#[test]
fn holding_reads_lamports_or_token_amount() {
    let native = address(&spl_token::native_mint::id());
    let mint = Pubkey::new_unique();
    let key = Pubkey::new_unique();
    let account = view(&key, 77, token_account(&mint, 0x0102030405060708, AccountState::Initialized));
    assert_eq!(holding(&account, &native), Ok(77));
    assert_eq!(holding(&account, &address(&mint)), Ok(0x0102030405060708));
    let frozen = view(&key, 1, token_account(&mint, 5, AccountState::Frozen));
    assert_eq!(holding(&frozen, &address(&mint)), Ok(5));
}

#[test]
fn holding_reports_what_is_no_token_account() {
    let mint = address(&Pubkey::new_unique());
    let key = Pubkey::new_unique();
    let uninitialized = view(&key, 1, vec![0u8; 165]);
    assert_eq!(holding(&uninitialized, &mint), Err(Failure::UninitializedAccount));
    let short = view(&key, 1, vec![0u8; 164]);
    assert_eq!(holding(&short, &mint), Err(Failure::InvalidAccountData));
    let long = view(&key, 1, vec![0u8; 166]);
    assert_eq!(holding(&long, &mint), Err(Failure::InvalidAccountData));
    let mut bad_state = token_account(&Pubkey::new_unique(), 5, AccountState::Initialized);
    bad_state[108] = 3;
    assert_eq!(holding(&view(&key, 1, bad_state), &mint), Err(Failure::InvalidAccountData));
    for at in [72usize, 109, 129] {
        let mut bad_tag = token_account(&Pubkey::new_unique(), 5, AccountState::Initialized);
        bad_tag[at] = 2;
        assert_eq!(holding(&view(&key, 1, bad_tag), &mint), Err(Failure::InvalidAccountData));
        let mut bad_tail = token_account(&Pubkey::new_unique(), 5, AccountState::Initialized);
        bad_tail[at + 3] = 1;
        assert_eq!(holding(&view(&key, 1, bad_tail), &mint), Err(Failure::InvalidAccountData));
    }
    let mut uninitialized_bad_tag = vec![0u8; 165];
    uninitialized_bad_tag[72] = 7;
    assert_eq!(
        holding(&view(&key, 1, uninitialized_bad_tag), &mint),
        Err(Failure::InvalidAccountData)
    );
}

#[test]
fn address_bytes_as_vector() {
    let key = Pubkey::new_unique();
    assert_eq!(address_to_vec(&address(&key)), key.to_bytes().to_vec());
}

#[test]
fn a_receiver_is_payable_in_the_native_token_or_as_a_token_account() {
    let native = address(&spl_token::native_mint::id());
    let mint = Pubkey::new_unique();
    let key = Pubkey::new_unique();
    let bare = view(&key, 5, vec![]);
    let ready = view(&key, 5, token_account(&mint, 9, AccountState::Initialized));
    let frozen = view(&key, 5, token_account(&mint, 9, AccountState::Frozen));
    let raw = view(&key, 5, token_account(&mint, 9, AccountState::Uninitialized));
    let mut cut = ready.clone();
    cut.data.pop();
    assert!(is_payable(&native, &bare));
    assert!(is_payable(&native, &raw));
    assert!(!is_payable(&address(&mint), &bare));
    assert!(is_payable(&address(&mint), &ready));
    assert!(is_payable(&address(&mint), &frozen));
    assert!(is_payable(&address(&Pubkey::new_unique()), &ready));
    assert!(!is_payable(&address(&mint), &raw));
    assert!(!is_payable(&address(&mint), &cut));
}
