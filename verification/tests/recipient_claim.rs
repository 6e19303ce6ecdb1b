use race_settle::address::Address;
use race_settle::error::{Failure, ProcessError};
use race_settle::processor::misc::{AccountView, Effect};
use race_settle::processor::recipient_claim::{
    checked_claim_from_slot, claim_from_slot, process, ClaimPlan, PoolSigner,
};
use race_settle::state::{
    RecipientSlot, RecipientSlotOwner, RecipientSlotShare, RecipientSlotType, RecipientState,
};
use solana_program::program_option::COption;
use solana_program::program_pack::Pack;
use solana_program::pubkey::Pubkey;
use spl_token::state::{Account, AccountState};

fn address(key: &Pubkey) -> Address {
    Address::new(key.to_bytes())
}

fn unique() -> Address {
    address(&Pubkey::new_unique())
}

fn share(owner: Address, weights: u16, claim_amount: u64) -> RecipientSlotShare {
    RecipientSlotShare { owner: RecipientSlotOwner::Assigned { addr: owner }, weights, claim_amount }
}

fn slot_of(shares: Vec<RecipientSlotShare>) -> RecipientSlot {
    RecipientSlot {
        id: 0,
        slot_type: RecipientSlotType::Token,
        token_addr: Address::default(),
        stake_addr: Address::default(),
        shares,
    }
}

#[test]
fn test_claim_amount() {
    let alice = unique();
    let bob = unique();
    let mut slot = slot_of(vec![share(alice, 1, 0), share(bob, 2, 0)]);
    let mut stake_amount = 150;
    assert_eq!(claim_from_slot(stake_amount, &mut slot, &alice), 50);
    assert_eq!(slot.shares[0].claim_amount, 50);
    stake_amount -= 50;

    stake_amount += 150;
    assert_eq!(claim_from_slot(stake_amount, &mut slot, &bob), 200);
    assert_eq!(slot.shares[1].claim_amount, 200);
    stake_amount -= 200;

    stake_amount += 60;
    assert_eq!(claim_from_slot(stake_amount, &mut slot, &alice), 70);
    assert_eq!(slot.shares[0].claim_amount, 120);
    stake_amount -= 70;

    println!("stake amount: {}", stake_amount);
    assert_eq!(claim_from_slot(stake_amount, &mut slot, &bob), 40);
}

#[test]
fn claim_of_a_stranger_is_zero() {
    let alice = unique();
    let mut slot = slot_of(vec![
        share(alice, 1, 5),
        RecipientSlotShare {
            owner: RecipientSlotOwner::Unassigned { identifier: "later".to_string() },
            weights: 3,
            claim_amount: 0,
        },
    ]);
    let before = slot.clone();
    assert_eq!(claim_from_slot(1000, &mut slot, &unique()), 0);
    assert_eq!(slot, before);
    assert_eq!(checked_claim_from_slot(1000, &mut slot, &unique()), Ok(0));
    assert_eq!(slot, before);
}

#[test]
fn claim_rounds_down_and_goes_to_the_first_share() {
    let alice = unique();
    let bob = unique();
    let mut slot = slot_of(vec![share(bob, 2, 0), share(alice, 1, 3), share(alice, 4, 0)]);
    // all that was ever held: 100 + 3; alice's first share stands for 1 of 7
    assert_eq!(checked_claim_from_slot(100, &mut slot, &alice), Ok(103 / 7 - 3));
    assert_eq!(slot.shares[1].claim_amount, 14);
    assert_eq!(slot.shares[2].claim_amount, 0);
    assert_eq!(slot.shares[0].claim_amount, 0);
}

#[test]
fn claim_is_refused_where_the_arithmetic_fails() {
    let overflow = Err(Failure::Process(ProcessError::StakeAmountOverflow));
    let alice = unique();
    let mut no_weight = slot_of(vec![share(alice, 0, 0)]);
    assert_eq!(checked_claim_from_slot(10, &mut no_weight, &alice), overflow);
    let mut too_much = slot_of(vec![share(alice, 1, u64::MAX)]);
    assert_eq!(checked_claim_from_slot(1, &mut too_much, &alice), overflow);
    let mut over_claimed = slot_of(vec![share(alice, 1, 60), share(unique(), 1, 0)]);
    let before = over_claimed.clone();
    assert_eq!(checked_claim_from_slot(40, &mut over_claimed, &alice), overflow);
    assert_eq!(over_claimed, before);
    let mut at_the_limit = slot_of(vec![share(alice, 1, 0)]);
    assert_eq!(checked_claim_from_slot(u64::MAX, &mut at_the_limit, &alice), Ok(u64::MAX));
}

struct Setup {
    program_id: Pubkey,
    recipient_key: Pubkey,
    payer: AccountView,
    state: RecipientState,
    native_pda: Pubkey,
    token_pda: Pubkey,
    token_pool: Pubkey,
    mint: Pubkey,
}

fn setup() -> Setup {
    let program_id = Pubkey::new_unique();
    let recipient_key = Pubkey::new_unique();
    let payer_key = Pubkey::new_unique();
    let mint = Pubkey::new_unique();
    let token_pool = Pubkey::new_unique();
    let (native_pda, _) = Pubkey::find_program_address(&[recipient_key.as_ref(), &[3]], &program_id);
    let (token_pda, _) = Pubkey::find_program_address(&[recipient_key.as_ref(), &[9]], &program_id);
    let state = RecipientState {
        is_initialized: true,
        cap_addr: None,
        slots: vec![
            RecipientSlot {
                id: 3,
                slot_type: RecipientSlotType::Token,
                token_addr: address(&spl_token::native_mint::id()),
                stake_addr: address(&native_pda),
                shares: vec![share(address(&payer_key), 1, 0), share(unique(), 3, 0)],
            },
            RecipientSlot {
                id: 9,
                slot_type: RecipientSlotType::Token,
                token_addr: address(&mint),
                stake_addr: address(&token_pool),
                shares: vec![share(unique(), 1, 10), share(address(&payer_key), 1, 10)],
            },
        ],
    };
    Setup {
        program_id,
        recipient_key,
        payer: AccountView { key: address(&payer_key), is_signer: true, is_writable: true, lamports: 0, data: vec![] },
        state,
        native_pda,
        token_pda,
        token_pool,
        mint,
    }
}

fn plain(key: &Pubkey, lamports: u64) -> AccountView {
    AccountView { key: address(key), is_signer: false, is_writable: true, lamports, data: vec![] }
}

fn token_view(key: &Pubkey, mint: &Pubkey, amount: u64) -> AccountView {
    let account = Account {
        mint: *mint,
        owner: Pubkey::new_unique(),
        amount,
        delegate: COption::None,
        state: AccountState::Initialized,
        is_native: COption::None,
        delegated_amount: 0,
        close_authority: COption::None,
    };
    let mut data = vec![0u8; 165];
    Account::pack(account, &mut data).unwrap();
    AccountView { key: address(key), is_signer: false, is_writable: true, lamports: 1, data }
}

fn payer_key(s: &Setup) -> Pubkey {
    Pubkey::new_from_array(s.payer.key.to_bytes())
}

#[test]
fn claims_across_slots_in_one_call() {
    let mut s = setup();
    let ata = spl_associated_token_account::get_associated_token_address(&payer_key(&s), &s.mint);
    let rest = vec![
        plain(&s.native_pda, 0),
        plain(&s.native_pda, 400),
        plain(&payer_key(&s), 0),
        plain(&s.token_pda, 0),
        token_view(&s.token_pool, &s.mint, 80),
        plain(&ata, 0),
        plain(&Pubkey::new_unique(), 0),
    ];
    let plan = process(
        &address(&s.program_id),
        &s.payer,
        &address(&s.recipient_key),
        &mut s.state,
        &rest,
    )
    .unwrap();
    let (_, native_bump) = Pubkey::find_program_address(
        &[s.recipient_key.as_ref(), &[3]],
        &s.program_id,
    );
    let (_, token_bump) = Pubkey::find_program_address(
        &[s.recipient_key.as_ref(), &[9]],
        &s.program_id,
    );
    assert_eq!(
        plan.signers,
        vec![
            PoolSigner { address: address(&s.native_pda), slot_id: 3, bump_seed: native_bump },
            PoolSigner { address: address(&s.token_pda), slot_id: 9, bump_seed: token_bump },
        ]
    );
    assert_eq!(
        plan.effects,
        vec![
            Effect::Transfer {
                source: address(&s.native_pda),
                destination: s.payer.key,
                mint: address(&spl_token::native_mint::id()),
                amount: 100,
            },
            Effect::Transfer {
                source: address(&s.token_pool),
                destination: address(&ata),
                mint: address(&s.mint),
                amount: 40,
            },
        ]
    );
    assert_eq!(s.state.slots[0].shares[0].claim_amount, 100);
    assert_eq!(s.state.slots[0].shares[1].claim_amount, 0);
    assert_eq!(s.state.slots[1].shares[1].claim_amount, 50);
    assert_eq!(s.state.slots[1].shares[0].claim_amount, 10);
}

#[test]
fn second_claim_on_a_slot_sees_what_the_first_took() {
    let mut s = setup();
    let triple = vec![plain(&s.native_pda, 0), plain(&s.native_pda, 400), plain(&payer_key(&s), 0)];
    let mut rest = triple.clone();
    rest.extend(triple);
    let effects = process(
        &address(&s.program_id),
        &s.payer,
        &address(&s.recipient_key),
        &mut s.state,
        &rest,
    )
    .unwrap()
    .effects;
    assert_eq!(effects.len(), 1);
    assert_eq!(s.state.slots[0].shares[0].claim_amount, 100);
}

#[test]
fn failed_claim_records_nothing() {
    let mut s = setup();
    let before = s.state.clone();
    let stranger = Pubkey::new_unique();
    let rest = vec![
        plain(&s.native_pda, 0),
        plain(&s.native_pda, 400),
        plain(&payer_key(&s), 0),
        plain(&s.token_pda, 0),
        plain(&stranger, 80),
        plain(&stranger, 0),
    ];
    assert_eq!(
        process(&address(&s.program_id), &s.payer, &address(&s.recipient_key), &mut s.state, &rest),
        Err(Failure::Process(ProcessError::InvalidRecipientSlotAccount))
    );
    assert_eq!(s.state, before);
}

#[test]
fn claim_checks_signature_address_receiver_and_pool() {
    let mut s = setup();
    let program = address(&s.program_id);
    let recipient = address(&s.recipient_key);
    let mut unsigned = s.payer.clone();
    unsigned.is_signer = false;
    let good = vec![plain(&s.native_pda, 0), plain(&s.native_pda, 400), plain(&payer_key(&s), 0)];
    assert_eq!(
        process(&program, &unsigned, &recipient, &mut s.state, &good),
        Err(Failure::MissingRequiredSignature)
    );
    let wrong_pda = vec![plain(&s.token_pda, 0), plain(&s.native_pda, 400), plain(&payer_key(&s), 0)];
    assert_eq!(
        process(&program, &s.payer, &recipient, &mut s.state, &wrong_pda),
        Err(Failure::Process(ProcessError::InvalidPDA))
    );
    let wrong_receiver =
        vec![plain(&s.native_pda, 0), plain(&s.native_pda, 400), plain(&s.native_pda, 0)];
    assert_eq!(
        process(&program, &s.payer, &recipient, &mut s.state, &wrong_receiver),
        Err(Failure::Process(ProcessError::InvalidReceiverAddress))
    );
    let ata = spl_associated_token_account::get_associated_token_address(&payer_key(&s), &s.mint);
    let other_mint = vec![
        plain(&s.token_pda, 0),
        token_view(&s.token_pool, &Pubkey::new_unique(), 80),
        plain(&ata, 0),
    ];
    assert_eq!(
        process(&program, &s.payer, &recipient, &mut s.state, &other_mint),
        Err(Failure::InvalidAccountData)
    );
    let no_account = vec![plain(&s.token_pda, 0), plain(&s.token_pool, 80), plain(&ata, 0)];
    assert_eq!(
        process(&program, &s.payer, &recipient, &mut s.state, &no_account),
        Err(Failure::InvalidAccountData)
    );
    let short = vec![plain(&s.native_pda, 0), plain(&s.native_pda, 400)];
    assert_eq!(
        process(&program, &s.payer, &recipient, &mut s.state, &short),
        Ok(ClaimPlan { effects: vec![], signers: vec![] })
    );
    assert_eq!(s.state, setup_state_like(&s));
}

fn setup_state_like(s: &Setup) -> RecipientState {
    let mut state = s.state.clone();
    state.slots[0].shares[0].claim_amount = 0;
    state
}
