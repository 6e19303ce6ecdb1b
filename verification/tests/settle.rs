use race_settle::address::Address;
use race_settle::error::{Failure, ProcessError};
use race_settle::processor::misc::{AccountView, Effect};
use race_settle::processor::settle::{
    accept_deposits, apply_change, check_conservation, handle_bonuses, handle_settles, process,
    validate_balance, Payout, SettleAccounts, Settlement,
};
use race_settle::state::players::{
    add_player, get_player_by_id, get_players_count, increase_slots_count, is_position_occupied,
    HEAD_LEN, PLAYER_INFO_LEN,
};
use race_settle::state::{
    Bonus, DepositStatus, EntryLock, EntryType, GameState, GameStatus, PlayerBalance,
    PlayerDeposit, PlayerJoin, RecipientSlot, RecipientSlotOwner, RecipientSlotShare,
    RecipientSlotType, RecipientState,
};
use race_settle::types::{Award, BalanceChange, Settle, SettleParams, Transfer};
use solana_program::program_option::COption;
use solana_program::program_pack::Pack;
use solana_program::pubkey::Pubkey;
use spl_token::state::{Account, AccountState};

fn address(key: &Pubkey) -> Address {
    Address::new(key.to_bytes())
}

fn plain(key: &Pubkey, lamports: u64) -> AccountView {
    AccountView { key: address(key), is_signer: false, is_writable: true, lamports, data: vec![] }
}

fn token_view(key: &Pubkey, mint: &Pubkey, amount: u64) -> AccountView {
    let account = Account {
        mint: *mint,
        owner: Pubkey::new_unique(),
        amount,
        delegate: COption::None,
        state: AccountState::Initialized,
        is_native: COption::None,
        delegated_amount: 0,
        close_authority: COption::None,
    };
    let mut data = vec![0u8; 165];
    Account::pack(account, &mut data).unwrap();
    AccountView { key: address(key), is_signer: false, is_writable: true, lamports: 1, data }
}

fn registry_of(players: &[(Pubkey, u16, u64)]) -> Vec<u8> {
    let mut data = vec![0u8; HEAD_LEN + players.len() * PLAYER_INFO_LEN];
    for _ in players {
        increase_slots_count(&mut data).unwrap();
    }
    for (key, position, id) in players {
        let player = PlayerJoin {
            addr: address(key),
            position: *position,
            access_version: *id,
            verify_key: "key".to_string(),
        };
        add_player(&mut data, &player).unwrap().unwrap();
    }
    data
}

struct World {
    program_id: Pubkey,
    players: Vec<Pubkey>,
    bonus_account: Pubkey,
    bonus_mint: Pubkey,
    slot_stake: Pubkey,
    accounts: SettleAccounts,
    game_state: GameState,
    recipient_state: RecipientState,
}

fn balance(player_id: u64, balance: u64) -> PlayerBalance {
    PlayerBalance { player_id, balance }
}

fn deposit(addr: &Pubkey, amount: u64, access_version: u64, status: DepositStatus) -> PlayerDeposit {
    PlayerDeposit { addr: address(addr), amount, access_version, settle_version: 0, status }
}

fn world() -> World {
    let program_id = Pubkey::new_unique();
    let game_key = Pubkey::new_unique();
    let stake_key = Pubkey::new_unique();
    let transactor = Pubkey::new_unique();
    let reg_key = Pubkey::new_unique();
    let (pda, _) = Pubkey::find_program_address(&[game_key.as_ref()], &program_id);
    let native = spl_token::native_mint::id();
    let players = vec![Pubkey::new_unique(), Pubkey::new_unique(), Pubkey::new_unique()];
    let bonus_account = Pubkey::new_unique();
    let bonus_mint = Pubkey::new_unique();
    let slot_stake = Pubkey::new_unique();
    let registry = registry_of(&[(players[0], 0, 1), (players[1], 1, 2), (players[2], 2, 3)]);
    let game_state = GameState {
        game_status: GameStatus::Initialized,
        version: "0.2.6".to_string(),
        title: "table".to_string(),
        bundle_addr: address(&Pubkey::new_unique()),
        stake_account: address(&stake_key),
        owner: address(&Pubkey::new_unique()),
        token_mint: address(&native),
        transactor_addr: Some(address(&transactor)),
        access_version: 4,
        settle_version: 7,
        max_players: 6,
        players_reg_account: address(&reg_key),
        deposits: vec![
            deposit(&players[2], 30, 3, DepositStatus::Pending),
            deposit(&Pubkey::new_unique(), 7, 4, DepositStatus::Rejected),
        ],
        servers: vec![],
        data_len: 0,
        data: vec![],
        votes: vec![],
        unlock_time: None,
        entry_type: EntryType::Cash { min_deposit: 1, max_deposit: 9999 },
        recipient_addr: address(&Pubkey::new_unique()),
        checkpoint: vec![1, 2, 3],
        entry_lock: EntryLock::Open,
        bonuses: vec![Bonus {
            identifier: "prize".to_string(),
            stake_addr: address(&bonus_account),
            token_addr: address(&bonus_mint),
            amount: 500,
        }],
        balances: vec![balance(1, 100), balance(2, 50)],
    };
    let recipient_state = RecipientState {
        is_initialized: true,
        cap_addr: None,
        slots: vec![
            RecipientSlot {
                id: 0,
                slot_type: RecipientSlotType::Token,
                token_addr: address(&bonus_mint),
                stake_addr: address(&Pubkey::new_unique()),
                shares: vec![],
            },
            RecipientSlot {
                id: 1,
                slot_type: RecipientSlotType::Token,
                token_addr: address(&native),
                stake_addr: address(&slot_stake),
                shares: vec![RecipientSlotShare {
                    owner: RecipientSlotOwner::Unassigned { identifier: "house".to_string() },
                    weights: 1,
                    claim_amount: 0,
                }],
            },
        ],
    };
    let mut transactor_view = plain(&transactor, 10);
    transactor_view.is_signer = true;
    let mut players_reg = plain(&reg_key, 1);
    players_reg.data = registry;
    let ata = spl_associated_token_account::get_associated_token_address(&players[2], &bonus_mint);
    let accounts = SettleAccounts {
        transactor: transactor_view,
        game: plain(&game_key, 1),
        players_reg,
        stake: plain(&stake_key, 187),
        pda: plain(&pda, 0),
        rest: vec![
            plain(&players[1], 0),
            plain(&slot_stake, 0),
            token_view(&bonus_account, &bonus_mint, 500),
            plain(&ata, 0),
        ],
    };
    World {
        program_id,
        players,
        bonus_account,
        bonus_mint,
        slot_stake,
        accounts,
        game_state,
        recipient_state,
    }
}

fn line(player_id: u64, amount: u64, change: Option<BalanceChange>, eject: bool) -> Settle {
    Settle { player_id, amount, change, eject }
}

fn params() -> SettleParams {
    SettleParams {
        settles: Box::new(vec![
            line(1, 0, Some(BalanceChange::Sub(45)), false),
            line(2, 0, Some(BalanceChange::Add(40)), false),
            line(2, 90, Some(BalanceChange::Sub(90)), true),
            line(3, 0, Some(BalanceChange::Add(30)), false),
        ]),
        transfer: Some(Transfer { amount: 5 }),
        awards: Box::new(vec![Award { player_id: 3, bonus_identifier: "prize".to_string() }]),
        checkpoint: Box::new(vec![9, 9, 9, 9]),
        access_version: 4,
        settle_version: 7,
        next_settle_version: 8,
        entry_lock: Some(EntryLock::JoinOnly),
        accept_deposits: Box::new(vec![3, 99]),
    }
}

fn plan(w: &World, params: SettleParams) -> Result<Settlement, Failure> {
    process(&address(&w.program_id), &w.accounts, &w.game_state, &w.recipient_state, params)
}

fn fails_with(w: &World, params: SettleParams, error: ProcessError) {
    assert_eq!(plan(w, params), Err(Failure::Process(error)));
}

#[test]
fn settlement_is_planned_and_committed() {
    let mut w = world();
    let before = w.game_state.clone();
    let settlement = plan(&w, params()).unwrap();
    assert_eq!(w.game_state, before);
    let native = address(&spl_token::native_mint::id());
    let ata =
        spl_associated_token_account::get_associated_token_address(&w.players[2], &w.bonus_mint);
    assert_eq!(settlement.balances, vec![balance(1, 55), balance(3, 30)]);
    assert_eq!(
        settlement.deposits,
        vec![PlayerDeposit { status: DepositStatus::Rejected, ..w.game_state.deposits[1] }]
    );
    assert_eq!(
        settlement.effects,
        vec![
            Effect::Transfer {
                source: w.accounts.stake.key,
                destination: address(&w.players[1]),
                mint: native,
                amount: 90,
            },
            Effect::Transfer {
                source: w.accounts.stake.key,
                destination: address(&w.slot_stake),
                mint: native,
                amount: 5,
            },
            Effect::Transfer {
                source: address(&w.bonus_account),
                destination: address(&ata),
                mint: address(&w.bonus_mint),
                amount: 500,
            },
            Effect::CloseAccount {
                account: address(&w.bonus_account),
                destination: w.accounts.transactor.key,
            },
        ]
    );
    let (_, bump) = Pubkey::find_program_address(
        &[&w.accounts.game.key.to_bytes()],
        &w.program_id,
    );
    assert_eq!(settlement.bump_seed, bump);
    assert_eq!(settlement.settle_version, 8);
    assert_eq!(get_players_count(&settlement.registry), Ok(2));
    assert_eq!(get_player_by_id(&settlement.registry, 2), Ok(None));
    assert_eq!(is_position_occupied(&settlement.registry, 1), Ok(false));
    assert_eq!(is_position_occupied(&settlement.registry, 2), Ok(true));

    // the pool after the movements: 187 - 90 - 5
    let mut registry = w.accounts.players_reg.data.clone();
    let untouched = registry.clone();
    let mut wrong = w.accounts.stake.clone();
    wrong.lamports = 93;
    assert_eq!(
        settlement.clone().commit(&wrong, &mut w.game_state, &mut registry),
        Err(Failure::Process(ProcessError::UnbalancedGameStake))
    );
    assert_eq!(w.game_state, before);
    assert_eq!(registry, untouched);

    let mut after = w.accounts.stake.clone();
    after.lamports = 92;
    assert_eq!(settlement.clone().commit(&after, &mut w.game_state, &mut registry), Ok(()));
    assert_eq!(w.game_state.settle_version, 8);
    assert_eq!(w.game_state.access_version, 4);
    assert_eq!(w.game_state.checkpoint, vec![9, 9, 9, 9]);
    assert_eq!(w.game_state.entry_lock, EntryLock::JoinOnly);
    assert_eq!(w.game_state.balances, vec![balance(1, 55), balance(3, 30)]);
    assert_eq!(w.game_state.deposits.len(), 1);
    assert_eq!(w.game_state.title, "table");
    assert_eq!(w.game_state.bonuses, before.bonuses);
    assert_eq!(&registry[0..8], &[4, 0, 0, 0, 0, 0, 0, 0]);
    assert_eq!(&registry[8..16], &[8, 0, 0, 0, 0, 0, 0, 0]);
    assert_eq!(&registry[16..], &settlement.registry[16..]);
    assert_eq!(validate_balance(&w.game_state, &after), Ok(()));
    assert_eq!(
        validate_balance(&w.game_state, &wrong),
        Err(Failure::Process(ProcessError::UnbalancedGameStake))
    );
}

#[test]
fn stale_settlement_is_rejected() {
    let w = world();
    let mut stale = params();
    stale.settle_version = 6;
    fails_with(&w, stale, ProcessError::InvalidSettleVersion);
    let mut ahead = params();
    ahead.settle_version = 8;
    ahead.next_settle_version = 9;
    fails_with(&w, ahead, ProcessError::InvalidSettleVersion);
    let mut stale_and_broken = params();
    stale_and_broken.settle_version = 0;
    stale_and_broken.settles = Box::new(vec![line(77, 1, Some(BalanceChange::Sub(1)), true)]);
    let mut unsigned = world();
    unsigned.accounts.transactor.is_signer = false;
    unsigned.accounts.rest = vec![];
    fails_with(&unsigned, stale_and_broken, ProcessError::InvalidSettleVersion);
}

#[test]
fn next_version_has_to_advance() {
    let w = world();
    let mut same = params();
    same.next_settle_version = 7;
    fails_with(&w, same, ProcessError::InvalidNextSettleVersion);
    let mut back = params();
    back.next_settle_version = 3;
    fails_with(&w, back, ProcessError::InvalidNextSettleVersion);
    let mut far = params();
    far.next_settle_version = u64::MAX;
    assert_eq!(plan(&w, far).unwrap().settle_version, u64::MAX);
}

#[test]
fn accounts_are_checked() {
    let mut w = world();
    w.accounts.transactor.is_signer = false;
    assert_eq!(plan(&w, params()), Err(Failure::MissingRequiredSignature));
    let mut w = world();
    w.accounts.stake.key = address(&Pubkey::new_unique());
    fails_with(&w, params(), ProcessError::InvalidStakeAccount);
    let mut w = world();
    w.accounts.pda.key = address(&Pubkey::new_unique());
    fails_with(&w, params(), ProcessError::InvalidPDA);
    let mut w = world();
    w.program_id = Pubkey::new_unique();
    fails_with(&w, params(), ProcessError::InvalidPDA);
}

#[test]
fn eject_of_an_absent_player_fails() {
    let w = world();
    let mut p = params();
    p.settles = Box::new(vec![
        line(1, 0, Some(BalanceChange::Sub(45)), false),
        line(5, 10, None, true),
    ]);
    fails_with(&w, p, ProcessError::InvalidSettlePlayerId);
    let mut twice = params();
    twice.settles = Box::new(vec![line(2, 0, None, true), line(2, 0, None, true)]);
    fails_with(&w, twice, ProcessError::InvalidSettlePlayerId);
}

#[test]
fn balance_changes_are_checked() {
    let w = world();
    let mut p = params();
    p.settles = Box::new(vec![line(1, 0, Some(BalanceChange::Sub(101)), false)]);
    fails_with(&w, p, ProcessError::InvalidSettleBalance);
    let mut p = params();
    p.settles = Box::new(vec![line(3, 0, Some(BalanceChange::Sub(0)), false)]);
    fails_with(&w, p, ProcessError::InvalidSettleBalance);
    let mut p = params();
    p.settles = Box::new(vec![line(1, 0, Some(BalanceChange::Add(u64::MAX - 99)), false)]);
    fails_with(&w, p, ProcessError::PlayerBalanceOverflow);

    let mut balances = vec![balance(1, 100)];
    assert_eq!(apply_change(&mut balances, 1, Some(BalanceChange::Add(u64::MAX - 100))), Ok(()));
    assert_eq!(balances, vec![balance(1, u64::MAX)]);
    assert_eq!(apply_change(&mut balances, 1, Some(BalanceChange::Sub(u64::MAX))), Ok(()));
    assert_eq!(apply_change(&mut balances, 1, Some(BalanceChange::Sub(0))), Ok(()));
    assert_eq!(apply_change(&mut balances, 2, None), Ok(()));
    assert_eq!(balances, vec![balance(1, 0)]);
}

#[test]
fn zero_balances_are_pruned_after_the_last_line() {
    let w = world();
    let settles = vec![
        line(1, 0, Some(BalanceChange::Sub(100)), false),
        line(1, 0, Some(BalanceChange::Sub(0)), false),
        line(1, 0, Some(BalanceChange::Add(3)), false),
        line(2, 0, Some(BalanceChange::Sub(50)), false),
        line(9, 0, Some(BalanceChange::Add(0)), false),
    ];
    let outcome =
        handle_settles(&w.game_state.balances, &w.accounts.players_reg.data, &settles).unwrap();
    assert_eq!(outcome.balances, vec![balance(1, 3)]);
    assert_eq!(outcome.pays, vec![]);
    assert_eq!(outcome.registry, w.accounts.players_reg.data);
}

#[test]
fn payouts_are_queued_for_ejected_players_only() {
    let w = world();
    let settles = vec![
        line(1, 500, None, false),
        line(3, 0, None, true),
        line(2, 11, None, true),
    ];
    let outcome =
        handle_settles(&w.game_state.balances, &w.accounts.players_reg.data, &settles).unwrap();
    assert_eq!(outcome.pays, vec![Payout { addr: address(&w.players[1]), amount: 11 }]);
    assert_eq!(get_players_count(&outcome.registry), Ok(1));
    assert_eq!(outcome.balances, w.game_state.balances);
}

#[test]
fn receivers_are_checked_in_order() {
    let mut w = world();
    w.accounts.rest = vec![];
    assert_eq!(plan(&w, params()), Err(Failure::NotEnoughAccountKeys));
    let mut w = world();
    w.accounts.rest[0] = plain(&w.players[0], 0);
    fails_with(&w, params(), ProcessError::InvalidReceiverAddress);
    let mut w = world();
    w.accounts.rest.truncate(1);
    assert_eq!(plan(&w, params()), Err(Failure::NotEnoughAccountKeys));
    let mut w = world();
    w.accounts.rest.truncate(3);
    assert_eq!(plan(&w, params()), Err(Failure::NotEnoughAccountKeys));
}

#[test]
fn commission_needs_the_slot_of_the_token() {
    let mut w = world();
    w.recipient_state.slots.truncate(1);
    fails_with(&w, params(), ProcessError::InvalidSlotId);
    let mut w = world();
    w.accounts.rest[1] = plain(&Pubkey::new_unique(), 0);
    fails_with(&w, params(), ProcessError::InvalidSlotStakeAccount);
    let mut w = world();
    w.accounts.rest.remove(1);
    let mut p = params();
    p.transfer = None;
    assert_eq!(plan(&w, p).unwrap().effects.len(), 3);
}

#[test]
fn awards_are_checked() {
    let mut w = world();
    w.accounts.rest[2] = token_view(&Pubkey::new_unique(), &w.bonus_mint, 500);
    fails_with(&w, params(), ProcessError::InvalidAwardIdentifier);
    let w = world();
    let mut p = params();
    p.awards = Box::new(vec![Award { player_id: 2, bonus_identifier: "prize".to_string() }]);
    fails_with(&w, p, ProcessError::InvalidAwardPlayerId);
    let mut w = world();
    w.accounts.rest[3] = plain(&w.players[2], 0);
    fails_with(&w, params(), ProcessError::InvalidReceiverAddress);
    let mut w = world();
    w.accounts.rest[2] = plain(&w.bonus_account, 500);
    assert_eq!(plan(&w, params()), Err(Failure::InvalidAccountData));
    let w = world();
    let mut p = params();
    p.awards = Box::new(vec![Award { player_id: 3, bonus_identifier: "other".to_string() }]);
    assert_eq!(plan(&w, p).unwrap().effects.len(), 2);
}

#[test]
fn every_bonus_of_the_identifier_is_drained_in_full() {
    let mut w = world();
    let second = Pubkey::new_unique();
    let second_mint = Pubkey::new_unique();
    w.game_state.bonuses.push(Bonus {
        identifier: "prize".to_string(),
        stake_addr: address(&second),
        token_addr: address(&second_mint),
        amount: 1,
    });
    let ata = spl_associated_token_account::get_associated_token_address(&w.players[2], &second_mint);
    w.accounts.rest.push(token_view(&second, &second_mint, 123_456));
    w.accounts.rest.push(plain(&ata, 0));
    let effects = plan(&w, params()).unwrap().effects;
    assert_eq!(effects.len(), 6);
    assert_eq!(
        effects[4],
        Effect::Transfer {
            source: address(&second),
            destination: address(&ata),
            mint: address(&second_mint),
            amount: 123_456,
        }
    );
    assert_eq!(
        effects[5],
        Effect::CloseAccount { account: address(&second), destination: w.accounts.transactor.key }
    );
}

#[test]
fn deposits_are_accepted_and_resolved_ones_dropped() {
    let a = Pubkey::new_unique();
    let deposits = vec![
        deposit(&a, 1, 10, DepositStatus::Pending),
        deposit(&a, 2, 11, DepositStatus::Refunded),
        deposit(&a, 3, 12, DepositStatus::Rejected),
        deposit(&a, 4, 13, DepositStatus::Accepted),
        deposit(&a, 5, 12, DepositStatus::Pending),
        deposit(&a, 6, 14, DepositStatus::Pending),
    ];
    assert_eq!(
        accept_deposits(&deposits, &vec![12, 10, 12, 50]),
        vec![deposits[4], deposits[5]]
    );
    assert_eq!(accept_deposits(&deposits, &vec![]), vec![deposits[0], deposits[2], deposits[4], deposits[5]]);
}

#[test]
fn conservation_is_exact() {
    let a = Pubkey::new_unique();
    let balances = vec![balance(1, 10), balance(2, 20)];
    let deposits = vec![
        deposit(&a, 5, 1, DepositStatus::Pending),
        deposit(&a, 7, 2, DepositStatus::Rejected),
        deposit(&a, 100, 3, DepositStatus::Accepted),
        deposit(&a, 1000, 4, DepositStatus::Refunded),
    ];
    let unbalanced = Err(Failure::Process(ProcessError::UnbalancedGameStake));
    assert_eq!(check_conservation(&balances, &deposits, 42), Ok(()));
    assert_eq!(check_conservation(&balances, &deposits, 41), unbalanced);
    assert_eq!(check_conservation(&balances, &deposits, 43), unbalanced);
    assert_eq!(check_conservation(&balances, &deposits, 29), unbalanced);
    assert_eq!(check_conservation(&vec![], &vec![], 0), Ok(()));
    let huge = vec![balance(1, u64::MAX), balance(2, 1)];
    assert_eq!(check_conservation(&huge, &vec![], 0), unbalanced);
    assert_eq!(check_conservation(&huge, &vec![], u64::MAX), unbalanced);
}

#[test]
fn commit_needs_a_registry_of_the_planned_size() {
    let mut w = world();
    let settlement = plan(&w, params()).unwrap();
    let mut after = w.accounts.stake.clone();
    after.lamports = 92;
    let before = w.game_state.clone();
    let mut short = vec![0u8; HEAD_LEN];
    assert_eq!(
        settlement.commit(&after, &mut w.game_state, &mut short),
        Err(Failure::Process(ProcessError::MalformedPlayersRegAccount))
    );
    assert_eq!(w.game_state, before);
    assert_eq!(short, vec![0u8; HEAD_LEN]);
}

#[test]
fn eject_of_player_zero_finds_no_cleared_slot() {
    let only = Pubkey::new_unique();
    let registry = registry_of(&[(only, 0, 1)]);
    let settles = vec![line(1, 0, None, true), line(0, 10, None, true)];
    assert_eq!(
        handle_settles(&vec![], &registry, &settles),
        Err(Failure::Process(ProcessError::InvalidSettlePlayerId))
    );
    let alone = vec![line(0, 10, None, true)];
    let mut with_gap = registry_of(&[(only, 0, 1)]);
    with_gap.resize(with_gap.len() + PLAYER_INFO_LEN, 0);
    increase_slots_count(&mut with_gap).unwrap();
    assert_eq!(
        handle_settles(&vec![], &with_gap, &alone),
        Err(Failure::Process(ProcessError::InvalidSettlePlayerId))
    );

    let w = world();
    let mut p = params();
    p.settles = Box::new(vec![line(2, 0, None, true), line(0, 10, None, true)]);
    p.transfer = None;
    p.awards = Box::new(vec![]);
    fails_with(&w, p, ProcessError::InvalidSettlePlayerId);
}

#[test]
fn eject_of_a_seated_player_zero_is_paid_to_the_player() {
    let seated = Pubkey::new_unique();
    let registry = registry_of(&[(seated, 3, 0)]);
    let outcome = handle_settles(&vec![], &registry, &vec![line(0, 10, None, true)]).unwrap();
    assert_eq!(outcome.pays, vec![Payout { addr: address(&seated), amount: 10 }]);
    assert_eq!(get_players_count(&outcome.registry), Ok(0));
}

#[test]
fn award_to_player_zero_finds_no_empty_slot() {
    let w = world();
    let mut p = params();
    p.awards = Box::new(vec![Award { player_id: 0, bonus_identifier: "prize".to_string() }]);
    fails_with(&w, p, ProcessError::InvalidAwardPlayerId);
}

#[test]
fn awards_past_the_supplied_accounts_want_accounts() {
    let w = world();
    let awards = vec![Award { player_id: 3, bonus_identifier: "prize".to_string() }];
    let transactor = w.accounts.transactor.key;
    let registry = &w.accounts.players_reg.data;
    let rest = &w.accounts.rest;
    for cursor in [rest.len() - 1, rest.len(), rest.len() + 1, usize::MAX] {
        let mut effects = vec![];
        assert_eq!(
            handle_bonuses(&mut effects, cursor, &awards, &w.game_state.bonuses, registry, rest, &transactor),
            Err(Failure::NotEnoughAccountKeys)
        );
        assert!(effects.is_empty());
    }
    let mut effects = vec![];
    let unnamed = vec![Award { player_id: 3, bonus_identifier: "none".to_string() }];
    assert_eq!(
        handle_bonuses(&mut effects, usize::MAX, &unnamed, &w.game_state.bonuses, registry, rest, &transactor),
        Ok(usize::MAX)
    );
    let mut effects = vec![];
    assert_eq!(
        handle_bonuses(&mut effects, 2, &awards, &w.game_state.bonuses, registry, rest, &transactor),
        Ok(4)
    );
    assert_eq!(effects.len(), 2);
}

#[test]
fn ejected_players_leave_the_registry() {
    let w = world();
    let registry = &w.accounts.players_reg.data;
    let settles = vec![line(2, 0, None, true), line(1, 7, None, false), line(3, 4, None, true)];
    let outcome = handle_settles(&vec![], registry, &settles).unwrap();
    assert_eq!(get_players_count(registry), Ok(3));
    assert_eq!(get_players_count(&outcome.registry), Ok(1));
    assert_eq!(outcome.registry.len(), registry.len());
    assert_eq!(get_player_by_id(&outcome.registry, 2), Ok(None));
    assert_eq!(get_player_by_id(&outcome.registry, 3), Ok(None));
    assert_eq!(get_player_by_id(&outcome.registry, 1).unwrap().unwrap().0, 0);
    assert_eq!(is_position_occupied(&outcome.registry, 0), Ok(true));
    assert_eq!(is_position_occupied(&outcome.registry, 1), Ok(false));
    assert_eq!(is_position_occupied(&outcome.registry, 2), Ok(false));
    assert!(outcome.registry[HEAD_LEN + PLAYER_INFO_LEN..].iter().all(|b| *b == 0));
    assert_eq!(outcome.pays, vec![Payout { addr: address(&w.players[2]), amount: 4 }]);
}

#[test]
fn eject_by_id_finds_a_slot_without_an_address() {
    let mut registry = registry_of(&[(Pubkey::new_unique(), 0, 1)]);
    registry.resize(registry.len() + PLAYER_INFO_LEN, 0);
    increase_slots_count(&mut registry).unwrap();
    let nobody = PlayerJoin {
        addr: Address::default(),
        position: 1,
        access_version: 5,
        verify_key: String::new(),
    };
    assert_eq!(add_player(&mut registry, &nobody), Ok(Some(1)));
    let outcome = handle_settles(&vec![], &registry, &vec![line(5, 10, None, true)]).unwrap();
    assert_eq!(outcome.pays, vec![Payout { addr: Address::default(), amount: 10 }]);
    assert_eq!(outcome.registry, registry);
}
