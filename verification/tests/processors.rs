use race_settle::address::Address;
use race_settle::error::{Failure, ProcessError};
use race_settle::instruction::RaceInstruction;
use race_settle::processor::deposit::{check_entry, fund, DepositAccounts};
use race_settle::processor::misc::{AccountView, Effect};
use race_settle::processor::{
    add_recipient_slot, assign_recipient, attach_bonus, close_game, create_game, create_profile,
    create_recipient, create_registry, deposit, join, register_game, register_server,
    reject_deposits, serve, unregister_game, vote,
};
use race_settle::state::players::{
    add_player, get_player_by_id, get_players_count, get_slots_count, increase_slots_count,
    is_position_occupied, HEAD_LEN, PLAYER_INFO_LEN,
};
use race_settle::state::{
    Bonus, DepositStatus, EntryLock, EntryType, GameState, GameStatus, PlayerBalance,
    PlayerDeposit, PlayerJoin, RecipientSlotOwner, RecipientSlotType, RecipientState,
    RegistryState, ServerJoin, ServerState,
};
use race_settle::types::{
    AssignRecipientParams, AttachBonusParams, CreateGameAccountParams, CreatePlayerProfileParams,
    CreateRecipientParams, CreateRegistrationParams, DepositParams, JoinParams,
    RecipientSlotInit, RecipientSlotShareInit, RegisterServerParams, RejectDepositsParams,
    VoteParams, VoteType,
};
use solana_program::program_option::COption;
use solana_program::program_pack::Pack;
use solana_program::pubkey::Pubkey;
use spl_token::state::{Account, AccountState, Mint};

fn address(key: &Pubkey) -> Address {
    Address::new(key.to_bytes())
}

fn plain(key: &Pubkey, lamports: u64) -> AccountView {
    AccountView { key: address(key), is_signer: false, is_writable: true, lamports, data: vec![] }
}

fn signer(key: &Pubkey) -> AccountView {
    AccountView { key: address(key), is_signer: true, is_writable: true, lamports: 5, data: vec![] }
}

fn token_view(key: &Pubkey, mint: &Pubkey, amount: u64) -> AccountView {
    let account = Account {
        mint: *mint,
        owner: Pubkey::new_unique(),
        amount,
        delegate: COption::None,
        state: AccountState::Initialized,
        is_native: COption::None,
        delegated_amount: 0,
        close_authority: COption::None,
    };
    let mut data = vec![0u8; 165];
    Account::pack(account, &mut data).unwrap();
    AccountView { key: address(key), is_signer: false, is_writable: true, lamports: 1, data }
}

fn mint_view(key: &Pubkey, is_initialized: bool) -> AccountView {
    let mint = Mint {
        mint_authority: COption::Some(Pubkey::new_unique()),
        supply: 10,
        decimals: 6,
        is_initialized,
        freeze_authority: COption::None,
    };
    let mut data = vec![0u8; 82];
    Mint::pack(mint, &mut data).unwrap();
    AccountView { key: address(key), is_signer: false, is_writable: false, lamports: 1, data }
}

fn native() -> Pubkey {
    spl_token::native_mint::id()
}

fn game_state(stake: &Pubkey, mint: &Pubkey, owner: &Pubkey) -> GameState {
    GameState {
        game_status: GameStatus::Initialized,
        version: "0.2.6".to_string(),
        title: "table".to_string(),
        bundle_addr: address(&Pubkey::new_unique()),
        stake_account: address(stake),
        owner: address(owner),
        token_mint: address(mint),
        transactor_addr: None,
        access_version: 10,
        settle_version: 3,
        max_players: 4,
        players_reg_account: address(&Pubkey::new_unique()),
        deposits: vec![],
        servers: vec![],
        data_len: 0,
        data: vec![],
        votes: vec![],
        unlock_time: None,
        entry_type: EntryType::Cash { min_deposit: 10, max_deposit: 100 },
        recipient_addr: address(&Pubkey::new_unique()),
        checkpoint: vec![],
        entry_lock: EntryLock::Open,
        bonuses: vec![],
        balances: vec![],
    }
}

fn registry_with(players: &[(Pubkey, u16, u64)], slots: usize) -> Vec<u8> {
    let mut data = vec![0u8; HEAD_LEN + slots * PLAYER_INFO_LEN];
    for _ in 0..slots {
        increase_slots_count(&mut data).unwrap();
    }
    for (key, position, id) in players {
        let player = PlayerJoin {
            addr: address(key),
            position: *position,
            access_version: *id,
            verify_key: "key".to_string(),
        };
        add_player(&mut data, &player).unwrap().unwrap();
    }
    data
}

struct Table {
    payer: Pubkey,
    stake: Pubkey,
    accounts: DepositAccounts,
    game_state: GameState,
}

fn table(mint: &Pubkey, players: &[(Pubkey, u16, u64)], slots: usize) -> Table {
    let payer = Pubkey::new_unique();
    let stake = Pubkey::new_unique();
    let mut players_reg = plain(&Pubkey::new_unique(), 1);
    players_reg.data = registry_with(players, slots);
    let temp = if *mint == native() {
        plain(&Pubkey::new_unique(), 50)
    } else {
        token_view(&Pubkey::new_unique(), mint, 50)
    };
    Table {
        payer,
        stake,
        accounts: DepositAccounts {
            payer: signer(&payer),
            player: plain(&payer, 1),
            temp,
            players_reg,
            mint: plain(mint, 1),
            stake: plain(&stake, 1000),
        },
        game_state: game_state(&stake, mint, &Pubkey::new_unique()),
    }
}

fn join_params(position: u16) -> JoinParams {
    JoinParams {
        amount: 50,
        access_version: 10,
        settle_version: 3,
        position,
        verify_key: "verify".to_string(),
    }
}

fn fails<T: std::fmt::Debug + PartialEq>(result: Result<T, Failure>, error: ProcessError) {
    assert_eq!(result, Err(Failure::Process(error)));
}

#[test]
fn join_seats_the_player_and_queues_the_deposit() {
    let other = Pubkey::new_unique();
    let t = table(&native(), &[(other, 1, 7)], 2);
    let joined = join::process(&t.accounts, true, &t.game_state, join_params(1)).unwrap();
    assert_eq!(joined.access_version, 11);
    assert_eq!(joined.position, 0);
    assert_eq!(joined.slot, 1);
    assert_eq!(
        joined.deposit,
        PlayerDeposit {
            addr: address(&t.payer),
            amount: 50,
            access_version: 11,
            settle_version: 3,
            status: DepositStatus::Pending,
        }
    );
    assert_eq!(
        joined.effects,
        vec![Effect::Transfer {
            source: t.accounts.temp.key,
            destination: address(&t.stake),
            mint: address(&native()),
            amount: 50,
        }]
    );
    assert_eq!(get_players_count(&joined.registry), Ok(2));
    assert_eq!(is_position_occupied(&joined.registry, 0), Ok(true));
    let (slot, entry) = get_player_by_id(&joined.registry, 11).unwrap().unwrap();
    assert_eq!(slot, 1);
    assert_eq!(entry.addr, address(&t.payer));
    assert_eq!(&joined.registry[0..16], &[11, 0, 0, 0, 0, 0, 0, 0, 3, 0, 0, 0, 0, 0, 0, 0]);
    assert_eq!(joined.registry.len(), t.accounts.players_reg.data.len());

    let wanted = join::process(&t.accounts, true, &t.game_state, join_params(3)).unwrap();
    assert_eq!(wanted.position, 3);
}

#[test]
fn join_grows_a_registry_that_is_full() {
    let other = Pubkey::new_unique();
    let t = table(&native(), &[(other, 0, 7)], 1);
    let joined = join::process(&t.accounts, true, &t.game_state, join_params(2)).unwrap();
    assert_eq!(joined.slot, 1);
    assert_eq!(joined.registry.len(), HEAD_LEN + 2 * PLAYER_INFO_LEN);
    assert_eq!(get_slots_count(&joined.registry), Ok(2));
    assert_eq!(get_players_count(&joined.registry), Ok(2));
    let bare = table(&native(), &[], 0);
    let first = join::process(&bare.accounts, true, &bare.game_state, join_params(0)).unwrap();
    assert_eq!(first.slot, 0);
    assert_eq!(first.registry.len(), HEAD_LEN + PLAYER_INFO_LEN);
}

#[test]
fn join_with_tokens_closes_the_temporary_account() {
    let mint = Pubkey::new_unique();
    let t = table(&mint, &[], 1);
    let joined = join::process(&t.accounts, true, &t.game_state, join_params(0)).unwrap();
    assert_eq!(
        joined.effects,
        vec![
            Effect::Transfer {
                source: t.accounts.temp.key,
                destination: address(&t.stake),
                mint: address(&mint),
                amount: 50,
            },
            Effect::CloseAccount { account: t.accounts.temp.key, destination: address(&t.payer) },
        ]
    );
}

#[test]
fn join_is_checked() {
    let other = Pubkey::new_unique();
    let mut t = table(&native(), &[(other, 0, 7)], 2);
    t.accounts.payer.is_signer = false;
    assert_eq!(
        join::process(&t.accounts, true, &t.game_state, join_params(1)),
        Err(Failure::MissingRequiredSignature)
    );
    let t = table(&native(), &[(other, 0, 7)], 2);
    assert_eq!(
        join::process(&t.accounts, false, &t.game_state, join_params(1)),
        Err(Failure::UninitializedAccount)
    );
    let mut p = join_params(1);
    p.settle_version = 4;
    fails(join::process(&t.accounts, true, &t.game_state, p), ProcessError::InvalidSettleVersion);
    let mut w = table(&native(), &[], 2);
    w.accounts.stake.key = address(&Pubkey::new_unique());
    fails(join::process(&w.accounts, true, &w.game_state, join_params(1)), ProcessError::InvalidStakeAccount);
    let mut w = table(&native(), &[], 2);
    w.accounts.mint.key = address(&Pubkey::new_unique());
    fails(join::process(&w.accounts, true, &w.game_state, join_params(1)), ProcessError::InvalidMint);
    fails(join::process(&t.accounts, true, &t.game_state, join_params(4)), ProcessError::InvalidPosition);
    let mut full = table(&native(), &[(other, 0, 7)], 2);
    full.game_state.max_players = 1;
    fails(join::process(&full.accounts, true, &full.game_state, join_params(0)), ProcessError::GameFullAlready);
    let mut again = table(&native(), &[(other, 0, 7)], 2);
    again.accounts.payer.key = address(&other);
    fails(join::process(&again.accounts, true, &again.game_state, join_params(1)), ProcessError::JoinedGameAlready);
    let mut low = join_params(1);
    low.amount = 9;
    fails(join::process(&t.accounts, true, &t.game_state, low), ProcessError::InvalidPaymentParams);
    let mut odd = join_params(1);
    odd.amount = 60;
    fails(join::process(&t.accounts, true, &t.game_state, odd), ProcessError::InvalidDeposit);
    let mut gated = table(&native(), &[], 2);
    gated.game_state.entry_type = EntryType::Gating { collection: "c".to_string() };
    fails(join::process(&gated.accounts, true, &gated.game_state, join_params(1)), ProcessError::Unimplemented);
    let mut short = table(&native(), &[], 2);
    short.accounts.players_reg.data.truncate(100);
    fails(join::process(&short.accounts, true, &short.game_state, join_params(1)), ProcessError::MalformedPlayersRegAccount);
}

#[test]
fn join_finds_no_position_where_all_are_flagged() {
    let a = Pubkey::new_unique();
    let b = Pubkey::new_unique();
    let mut t = table(&native(), &[(a, 0, 7), (b, 1, 8)], 3);
    t.game_state.max_players = 2;
    // two of two positions are flagged, one player is counted: a third cannot sit
    let mut data = t.accounts.players_reg.data.clone();
    race_settle::state::players::decrease_players_count(&mut data).unwrap();
    t.accounts.players_reg.data = data;
    fails(join::process(&t.accounts, true, &t.game_state, join_params(1)), ProcessError::PositionTakenAlready);
}

#[test]
fn entry_types_ask_for_their_amounts() {
    let invalid = Err(Failure::Process(ProcessError::InvalidPaymentParams));
    let cash = EntryType::Cash { min_deposit: 10, max_deposit: 20 };
    assert_eq!(check_entry(&cash, 10), Ok(()));
    assert_eq!(check_entry(&cash, 20), Ok(()));
    assert_eq!(check_entry(&cash, 9), invalid);
    assert_eq!(check_entry(&cash, 21), invalid);
    let ticket = EntryType::Ticket { amount: 5 };
    assert_eq!(check_entry(&ticket, 5), Ok(()));
    assert_eq!(check_entry(&ticket, 6), invalid);
    assert_eq!(check_entry(&EntryType::default(), 9999), Ok(()));
    assert_eq!(check_entry(&EntryType::default(), 0), invalid);
    let mint = Pubkey::new_unique();
    let temp = plain(&Pubkey::new_unique(), 5);
    let payer = address(&Pubkey::new_unique());
    let stake = address(&Pubkey::new_unique());
    assert_eq!(fund(&temp, &payer, &stake, &address(&mint), 5), Err(Failure::InvalidAccountData));
}

#[test]
fn deposit_names_itself_by_the_next_access_version() {
    let mut t = table(&native(), &[], 1);
    let payer = t.payer;
    t.accounts.players_reg.data = registry_with(&[(payer, 0, 7)], 1);
    let params = DepositParams { amount: 50, settle_version: 2 };
    let made = deposit::process(&t.accounts, &t.game_state, &params).unwrap();
    assert_eq!(made.access_version, 11);
    assert_eq!(made.deposit.access_version, 11);
    assert_eq!(made.deposit.settle_version, 2);
    assert_eq!(made.deposit.status, DepositStatus::Pending);
    assert_eq!(made.effects.len(), 1);
    assert_eq!(&made.registry[0..16], &[11, 0, 0, 0, 0, 0, 0, 0, 3, 0, 0, 0, 0, 0, 0, 0]);
    assert_eq!(&made.registry[16..], &t.accounts.players_reg.data[16..]);

    let stranger = table(&native(), &[], 1);
    fails(deposit::process(&stranger.accounts, &stranger.game_state, &params), ProcessError::PlayerNotInGame);
    let ahead = DepositParams { amount: 50, settle_version: 4 };
    fails(deposit::process(&t.accounts, &t.game_state, &ahead), ProcessError::InvalidSettleVersion);
    let mut last = t.game_state.clone();
    last.access_version = u64::MAX;
    fails(deposit::process(&t.accounts, &last, &params), ProcessError::StakeAmountOverflow);
}

#[test]
fn rejected_deposit_is_refunded_to_its_owner_only() {
    let program_id = Pubkey::new_unique();
    let game_key = Pubkey::new_unique();
    let stake = Pubkey::new_unique();
    let a = Pubkey::new_unique();
    let b = Pubkey::new_unique();
    let mut state = game_state(&stake, &native(), &Pubkey::new_unique());
    state.deposits = vec![
        PlayerDeposit { addr: address(&a), amount: 30, access_version: 7, settle_version: 3, status: DepositStatus::Pending },
        PlayerDeposit { addr: address(&b), amount: 40, access_version: 8, settle_version: 3, status: DepositStatus::Pending },
        PlayerDeposit { addr: address(&b), amount: 50, access_version: 9, settle_version: 3, status: DepositStatus::Accepted },
    ];
    let registry = registry_with(&[(a, 0, 7), (b, 1, 8)], 2);
    let transactor = signer(&Pubkey::new_unique());
    let params = RejectDepositsParams { reject_deposits: vec![8, 7] };
    let rest = vec![plain(&b, 0), plain(&b, 0)];
    let rejection = reject_deposits::process(
        &address(&program_id),
        &transactor,
        &address(&game_key),
        &address(&stake),
        &registry,
        &state,
        &params,
        &rest,
    )
    .unwrap();
    assert_eq!(rejection.deposits[1].status, DepositStatus::Refunded);
    assert_eq!(rejection.deposits[0].status, DepositStatus::Rejected);
    assert_eq!(rejection.deposits[2].status, DepositStatus::Accepted);
    assert_eq!(
        rejection.effects,
        vec![Effect::Transfer {
            source: address(&stake),
            destination: address(&b),
            mint: address(&native()),
            amount: 40,
        }]
    );
    assert_eq!(get_players_count(&rejection.registry), Ok(0));
    assert_eq!(&rejection.registry[0..16], &[10, 0, 0, 0, 0, 0, 0, 0, 3, 0, 0, 0, 0, 0, 0, 0]);
    let (_, bump) = Pubkey::find_program_address(&[game_key.as_ref()], &program_id);
    assert_eq!(rejection.bump_seed, bump);

    let run = |rejects: Vec<u64>, rest: Vec<AccountView>, transactor: &AccountView| {
        reject_deposits::process(
            &address(&program_id),
            transactor,
            &address(&game_key),
            &address(&stake),
            &registry,
            &state,
            &RejectDepositsParams { reject_deposits: rejects },
            &rest,
        )
    };
    fails(run(vec![1], vec![plain(&a, 0)], &transactor), ProcessError::InvalidRejectDeposit);
    fails(run(vec![9], vec![plain(&a, 0)], &transactor), ProcessError::DuplicatedDepositRejection);
    fails(run(vec![7, 7], vec![plain(&a, 0), plain(&a, 0)], &transactor), ProcessError::DuplicatedDepositRejection);
    assert_eq!(run(vec![7], vec![], &transactor), Err(Failure::NotEnoughAccountKeys));
    assert_eq!(run(vec![7], vec![plain(&a, 0)], &plain(&a, 0)), Err(Failure::MissingRequiredSignature));
}

fn close_accounts(owner: &Pubkey, game: &Pubkey, stake: AccountView, pda: &Pubkey) -> close_game::CloseAccounts {
    close_game::CloseAccounts {
        owner: signer(owner),
        game: plain(game, 12),
        stake,
        pda: plain(pda, 0),
        receiver: plain(&Pubkey::new_unique(), 0),
        rest: vec![],
    }
}

#[test]
fn closing_a_game_empties_pool_and_bonuses() {
    let program_id = Pubkey::new_unique();
    let game = Pubkey::new_unique();
    let owner = Pubkey::new_unique();
    let stake = Pubkey::new_unique();
    let mint = Pubkey::new_unique();
    let bonus_mint = Pubkey::new_unique();
    let bonus_key = Pubkey::new_unique();
    let gone_key = Pubkey::new_unique();
    let (pda, bump) = Pubkey::find_program_address(&[game.as_ref()], &program_id);
    let mut state = game_state(&stake, &mint, &owner);
    state.balances = vec![PlayerBalance { player_id: 1, balance: 0 }];
    state.bonuses = vec![
        Bonus { identifier: "a".to_string(), stake_addr: address(&gone_key), token_addr: address(&bonus_mint), amount: 5 },
        Bonus { identifier: "b".to_string(), stake_addr: address(&bonus_key), token_addr: address(&bonus_mint), amount: 5 },
    ];
    let mut accounts = close_accounts(&owner, &game, token_view(&stake, &mint, 77), &pda);
    let ata = spl_associated_token_account::get_associated_token_address(&owner, &bonus_mint);
    accounts.rest = vec![
        plain(&gone_key, 0),
        plain(&Pubkey::new_unique(), 0),
        token_view(&bonus_key, &bonus_mint, 9),
        plain(&ata, 0),
    ];
    let (effects, seed) = close_game::process(&address(&program_id), &accounts, &state).unwrap();
    assert_eq!(seed, bump);
    assert_eq!(
        effects,
        vec![
            Effect::Transfer { source: address(&stake), destination: accounts.receiver.key, mint: address(&mint), amount: 77 },
            Effect::CloseAccount { account: address(&stake), destination: address(&owner) },
            Effect::Transfer { source: address(&bonus_key), destination: address(&ata), mint: address(&bonus_mint), amount: 9 },
            Effect::CloseAccount { account: address(&bonus_key), destination: address(&owner) },
            Effect::Release { account: address(&game), destination: address(&owner), lamports: 12 },
        ]
    );

    let mut playing = state.clone();
    playing.balances.push(PlayerBalance { player_id: 2, balance: 1 });
    fails(close_game::process(&address(&program_id), &accounts, &playing), ProcessError::CantCloseGame);
    let mut other_owner = accounts.clone();
    other_owner.owner = signer(&Pubkey::new_unique());
    fails(close_game::process(&address(&program_id), &other_owner, &state), ProcessError::InvalidOwner);
    let mut wrong_pda = accounts.clone();
    wrong_pda.pda = plain(&Pubkey::new_unique(), 0);
    fails(close_game::process(&address(&program_id), &wrong_pda, &state), ProcessError::InvalidPDA);
    let mut wrong_bonus = accounts.clone();
    wrong_bonus.rest[2].key = address(&Pubkey::new_unique());
    fails(close_game::process(&address(&program_id), &wrong_bonus, &state), ProcessError::InvalidStakeAccount);
    let mut missing = accounts.clone();
    missing.rest.truncate(3);
    assert_eq!(close_game::process(&address(&program_id), &missing, &state), Err(Failure::NotEnoughAccountKeys));
    let mut rich = accounts.clone();
    rich.owner.lamports = u64::MAX;
    fails(close_game::process(&address(&program_id), &rich, &state), ProcessError::StakeAmountOverflow);
}

fn share_init(owner: RecipientSlotOwner, weights: u16) -> RecipientSlotShareInit {
    RecipientSlotShareInit { owner, weights }
}

fn waiting(identifier: &str) -> RecipientSlotOwner {
    RecipientSlotOwner::Unassigned { identifier: identifier.to_string() }
}

fn slot_init(id: u8, token: &Pubkey, stake: &Pubkey, shares: Vec<RecipientSlotShareInit>) -> RecipientSlotInit {
    RecipientSlotInit {
        id,
        slot_type: RecipientSlotType::Token,
        token_addr: address(token),
        stake_addr: address(stake),
        init_shares: shares,
    }
}

#[test]
fn recipient_is_created_slots_are_added_and_shares_assigned() {
    let program_id = Pubkey::new_unique();
    let recipient = Pubkey::new_unique();
    let payer = Pubkey::new_unique();
    let cap = Pubkey::new_unique();
    let mint = Pubkey::new_unique();
    let pool = Pubkey::new_unique();
    let (native_pool, _) = Pubkey::find_program_address(&[recipient.as_ref(), &[0]], &program_id);
    let (_, token_bump) = Pubkey::find_program_address(&[recipient.as_ref(), &[1]], &program_id);
    let alice = Pubkey::new_unique();
    let slots = vec![
        slot_init(0, &native(), &native_pool, vec![share_init(waiting("house"), 1)]),
        slot_init(
            1,
            &mint,
            &pool,
            vec![
                share_init(waiting("house"), 2),
                share_init(RecipientSlotOwner::Assigned { addr: address(&alice) }, 3),
                share_init(waiting("guest"), 4),
            ],
        ),
    ];
    let params = CreateRecipientParams { slots: Box::new(slots.clone()) };
    let rest = vec![plain(&native_pool, 0), token_view(&pool, &mint, 0)];
    let created = create_recipient::process(
        &address(&program_id),
        &signer(&payer),
        &address(&cap),
        &address(&recipient),
        &params,
        &rest,
    )
    .unwrap();
    assert_eq!(
        created.effects,
        vec![Effect::SetAuthority { account: address(&pool), owner: address(&payer), slot: Some(1), bump_seed: token_bump }]
    );
    let mut state = created.recipient_state;
    assert!(state.is_initialized);
    assert_eq!(state.cap_addr, Some(address(&cap)));
    assert_eq!(state.slots.len(), 2);
    assert_eq!(state.slots[1].shares[2].weights, 4);
    assert_eq!(state.slots[1].shares[1].claim_amount, 0);
    assert_eq!(state.slots[1].stake_addr, address(&pool));

    let create = |slots: Vec<RecipientSlotInit>, rest: Vec<AccountView>, payer: &AccountView| {
        create_recipient::process(
            &address(&program_id),
            payer,
            &address(&cap),
            &address(&recipient),
            &CreateRecipientParams { slots: Box::new(slots) },
            &rest,
        )
    };
    fails(create(vec![], vec![], &signer(&payer)), ProcessError::EmptyRecipientSlots);
    assert_eq!(create(slots.clone(), rest.clone(), &plain(&payer, 0)), Err(Failure::MissingRequiredSignature));
    assert_eq!(create(slots.clone(), vec![rest[0].clone()], &signer(&payer)), Err(Failure::NotEnoughAccountKeys));
    fails(create(slots.clone(), vec![rest[1].clone(), rest[0].clone()], &signer(&payer)), ProcessError::InvalidSlotStakeAccount);
    let mut off_pool = slots.clone();
    off_pool[0].stake_addr = address(&pool);
    fails(create(off_pool, vec![rest[1].clone(), rest[1].clone()], &signer(&payer)), ProcessError::InvalidSlotStakeAccount);
    let mut other_token = slots.clone();
    other_token[1].token_addr = address(&Pubkey::new_unique());
    assert_eq!(create(other_token, rest.clone(), &signer(&payer)), Err(Failure::InvalidArgument));
    let mut same_token = slots.clone();
    same_token[1].token_addr = address(&native());
    fails(create(same_token, rest.clone(), &signer(&payer)), ProcessError::DuplicatedRecipientSlotToken);
    let mut same_id = slots.clone();
    same_id[1].id = 0;
    fails(create(same_id, rest.clone(), &signer(&payer)), ProcessError::InvalidSlotId);
    let mut unnamed = slots.clone();
    unnamed[1].init_shares[0].owner = waiting("");
    fails(create(unnamed, rest.clone(), &signer(&payer)), ProcessError::InvalidIdentifierLength);
    let mut long_name = slots.clone();
    long_name[0].init_shares[0].owner = waiting("seventeen letters");
    fails(create(long_name, rest.clone(), &signer(&payer)), ProcessError::InvalidIdentifierLength);
    let mut sixteen = slots.clone();
    sixteen[0].init_shares[0].owner = waiting("sixteen letters!");
    assert!(create(sixteen, rest.clone(), &signer(&payer)).is_ok());

    // a third slot
    let mint2 = Pubkey::new_unique();
    let pool2 = Pubkey::new_unique();
    let (_, bump2) = Pubkey::find_program_address(&[recipient.as_ref(), &[7]], &program_id);
    let third = slot_init(7, &mint2, &pool2, vec![share_init(waiting("late"), 1)]);
    let before = state.clone();
    let add = |state: &mut RecipientState, payer: &AccountView, slot: RecipientSlotInit| {
        add_recipient_slot::process(
            &address(&program_id),
            payer,
            &address(&recipient),
            state,
            &token_view(&pool2, &mint2, 0),
            slot,
        )
    };
    fails(add(&mut state, &signer(&payer), third.clone()), ProcessError::NoRecipientUpdateCap);
    assert_eq!(add(&mut state, &plain(&cap, 0), third.clone()), Err(Failure::MissingRequiredSignature));
    let mut empty = third.clone();
    empty.init_shares.clear();
    fails(add(&mut state, &signer(&cap), empty), ProcessError::EmptyRecipientSlotShares);
    let mut taken_id = third.clone();
    taken_id.id = 1;
    fails(add(&mut state, &signer(&cap), taken_id), ProcessError::InvalidSlotId);
    let mut taken_token = third.clone();
    taken_token.token_addr = address(&mint);
    fails(add(&mut state, &signer(&cap), taken_token), ProcessError::DuplicatedRecipientSlotToken);
    assert_eq!(state, before);
    assert_eq!(
        add(&mut state, &signer(&cap), third.clone()),
        Ok(Some(Effect::SetAuthority { account: address(&pool2), owner: address(&cap), slot: Some(7), bump_seed: bump2 }))
    );
    assert_eq!(state.slots.len(), 3);
    assert_eq!(state.slots[2].id, 7);
    let mut dropped = state.clone();
    dropped.cap_addr = None;
    fails(add(&mut dropped, &signer(&cap), slot_init(8, &Pubkey::new_unique(), &pool2, vec![share_init(waiting("x"), 1)])), ProcessError::NoRecipientUpdateCap);
    let mut unset = state.clone();
    unset.is_initialized = false;
    fails(add(&mut unset, &signer(&cap), third), ProcessError::InvalidRecipientAddress);

    // assignment
    let bob = Pubkey::new_unique();
    let assign = AssignRecipientParams { identifier: "house".to_string() };
    let before = state.clone();
    fails(assign_recipient::process(&signer(&payer), &mut state, &address(&bob), &assign), ProcessError::NoRecipientUpdateCap);
    assert_eq!(assign_recipient::process(&plain(&cap, 0), &mut state, &address(&bob), &assign), Err(Failure::MissingRequiredSignature));
    assert_eq!(state, before);
    assert_eq!(assign_recipient::process(&signer(&cap), &mut state, &address(&bob), &assign), Ok(()));
    let to_bob = RecipientSlotOwner::Assigned { addr: address(&bob) };
    assert_eq!(state.slots[0].shares[0].owner, to_bob);
    assert_eq!(state.slots[1].shares[0].owner, to_bob);
    assert_eq!(state.slots[1].shares[1].owner, RecipientSlotOwner::Assigned { addr: address(&alice) });
    assert_eq!(state.slots[1].shares[2].owner, waiting("guest"));
    assert_eq!(state.slots[2].shares[0].owner, waiting("late"));
    assert_eq!(state.slots[1].shares[0].weights, 2);
    let after = state.clone();
    assert_eq!(assign_recipient::process(&signer(&cap), &mut state, &address(&alice), &assign), Ok(()));
    assert_eq!(state, after);
}

#[test]
fn bonuses_are_attached_as_large_as_their_accounts() {
    let program_id = Pubkey::new_unique();
    let game = Pubkey::new_unique();
    let payer = Pubkey::new_unique();
    let mint = Pubkey::new_unique();
    let first = Pubkey::new_unique();
    let second = Pubkey::new_unique();
    let (_, bump) = Pubkey::find_program_address(&[game.as_ref()], &program_id);
    let params = AttachBonusParams { identifiers: vec!["gold".to_string(), "silver".to_string()] };
    let rest = vec![token_view(&first, &mint, 100), token_view(&second, &mint, 50)];
    let (bonuses, effects) =
        attach_bonus::process(&address(&program_id), &signer(&payer), &address(&game), &params, &rest).unwrap();
    assert_eq!(
        bonuses,
        vec![
            Bonus { identifier: "gold".to_string(), stake_addr: address(&first), token_addr: address(&mint), amount: 100 },
            Bonus { identifier: "silver".to_string(), stake_addr: address(&second), token_addr: address(&mint), amount: 50 },
        ]
    );
    assert_eq!(
        effects,
        vec![
            Effect::SetAuthority { account: address(&first), owner: address(&payer), slot: None, bump_seed: bump },
            Effect::SetAuthority { account: address(&second), owner: address(&payer), slot: None, bump_seed: bump },
        ]
    );
    let attach = |identifiers: Vec<&str>, rest: Vec<AccountView>, payer: &AccountView| {
        attach_bonus::process(
            &address(&program_id),
            payer,
            &address(&game),
            &AttachBonusParams { identifiers: identifiers.into_iter().map(|s| s.to_string()).collect() },
            &rest,
        )
    };
    fails(attach(vec!["gold", ""], rest.clone(), &plain(&payer, 0)), ProcessError::InvalidIdentifierLength);
    assert_eq!(attach(vec!["gold"], rest.clone(), &plain(&payer, 0)), Err(Failure::MissingRequiredSignature));
    assert_eq!(attach(vec!["a", "b", "c"], rest.clone(), &signer(&payer)), Err(Failure::NotEnoughAccountKeys));
    fails(attach(vec!["a"], vec![token_view(&first, &native(), 1)], &signer(&payer)), ProcessError::NativeTokenNotSupported);
    assert_eq!(attach(vec!["a"], vec![plain(&first, 1)], &signer(&payer)), Err(Failure::InvalidAccountData));
    assert_eq!(attach(vec![], vec![], &signer(&payer)), Ok((vec![], vec![])));
}

fn create_accounts(program_id: &Pubkey, token: AccountView, stake: Option<AccountView>) -> (Pubkey, create_game::CreateGameAccounts) {
    let game = Pubkey::new_unique();
    let (pda, _) = Pubkey::find_program_address(&[game.as_ref()], program_id);
    let mut recipient = plain(&Pubkey::new_unique(), 1);
    recipient.data = vec![1];
    let mut players_reg = plain(&Pubkey::new_unique(), 1);
    players_reg.data = vec![0; HEAD_LEN];
    (
        game,
        create_game::CreateGameAccounts {
            payer: signer(&Pubkey::new_unique()),
            game: plain(&game, 1),
            players_reg,
            stake: stake.unwrap_or(plain(&pda, 0)),
            token,
            bundle: plain(&Pubkey::new_unique(), 1),
            recipient,
        },
    )
}

fn create_params() -> CreateGameAccountParams {
    CreateGameAccountParams {
        title: "holdem".to_string(),
        max_players: 6,
        entry_type: EntryType::Ticket { amount: 5 },
        data: vec![1, 2, 3],
    }
}

#[test]
fn new_game_starts_empty() {
    let program_id = Pubkey::new_unique();
    let (_, accounts) = create_accounts(&program_id, plain(&native(), 1), None);
    let (state, effect) = create_game::process(&address(&program_id), &accounts, create_params()).unwrap();
    assert_eq!(effect, None);
    assert_eq!(state.game_status, GameStatus::Initialized);
    assert!(state.is_initialized());
    assert_eq!(state.version, "0.2.6");
    assert_eq!(state.title, "holdem");
    assert_eq!(state.owner, accounts.payer.key);
    assert_eq!(state.stake_account, accounts.stake.key);
    assert_eq!(state.token_mint, address(&native()));
    assert_eq!(state.players_reg_account, accounts.players_reg.key);
    assert_eq!(state.bundle_addr, accounts.bundle.key);
    assert_eq!(state.recipient_addr, accounts.recipient.key);
    assert_eq!((state.access_version, state.settle_version, state.max_players), (0, 0, 6));
    assert_eq!((state.data_len, state.data.clone()), (3, vec![1, 2, 3]));
    assert_eq!(state.entry_type, EntryType::Ticket { amount: 5 });
    assert_eq!(state.entry_lock, EntryLock::Open);
    assert_eq!(state.transactor_addr, None);
    assert_eq!(state.unlock_time, None);
    assert!(state.deposits.is_empty() && state.servers.is_empty() && state.votes.is_empty());
    assert!(state.bonuses.is_empty() && state.balances.is_empty() && state.checkpoint.is_empty());

    let mint = Pubkey::new_unique();
    let stake = Pubkey::new_unique();
    let (game, accounts) = create_accounts(&program_id, mint_view(&mint, true), Some(token_view(&stake, &mint, 0)));
    let (_, bump) = Pubkey::find_program_address(&[game.as_ref()], &program_id);
    let (_, effect) = create_game::process(&address(&program_id), &accounts, create_params()).unwrap();
    assert_eq!(
        effect,
        Some(Effect::SetAuthority { account: address(&stake), owner: accounts.payer.key, slot: None, bump_seed: bump })
    );
}

#[test]
fn new_game_is_checked() {
    let program_id = Pubkey::new_unique();
    let id = address(&program_id);
    let (_, mut a) = create_accounts(&program_id, plain(&native(), 1), None);
    a.payer.is_signer = false;
    assert_eq!(create_game::process(&id, &a, create_params()), Err(Failure::MissingRequiredSignature));
    let (_, mut a) = create_accounts(&program_id, plain(&native(), 1), None);
    a.recipient.data.clear();
    assert_eq!(create_game::process(&id, &a, create_params()), Err(Failure::InvalidAccountData));
    let (_, mut a) = create_accounts(&program_id, plain(&native(), 1), None);
    a.players_reg.data.push(0);
    fails(create_game::process(&id, &a, create_params()), ProcessError::InvalidPlayersRegAccountForInit);
    let (_, a) = create_accounts(&program_id, plain(&native(), 1), Some(plain(&Pubkey::new_unique(), 0)));
    fails(create_game::process(&id, &a, create_params()), ProcessError::InvalidStakeAccount);
    let mint = Pubkey::new_unique();
    let stake = Pubkey::new_unique();
    let (_, a) = create_accounts(&program_id, mint_view(&mint, false), Some(token_view(&stake, &mint, 0)));
    fails(create_game::process(&id, &a, create_params()), ProcessError::InvalidTokenMint);
    let (_, a) = create_accounts(&program_id, plain(&mint, 1), Some(token_view(&stake, &mint, 0)));
    assert_eq!(create_game::process(&id, &a, create_params()), Err(Failure::InvalidAccountData));
    let (_, a) = create_accounts(&program_id, mint_view(&mint, true), Some(token_view(&stake, &Pubkey::new_unique(), 0)));
    fails(create_game::process(&id, &a, create_params()), ProcessError::InvalidStakeAccount);
    let (_, a) = create_accounts(&program_id, mint_view(&mint, true), Some(plain(&stake, 0)));
    assert_eq!(create_game::process(&id, &a, create_params()), Err(Failure::InvalidAccountData));
    let mut bad_flag = mint_view(&mint, true);
    bad_flag.data[45] = 2;
    let (_, a) = create_accounts(&program_id, bad_flag, Some(token_view(&stake, &mint, 0)));
    assert_eq!(create_game::process(&id, &a, create_params()), Err(Failure::InvalidAccountData));
}

#[test]
fn servers_join_up_to_ten_and_the_first_becomes_transactor() {
    let first = Pubkey::new_unique();
    let profile = plain(&Pubkey::new_unique(), 1);
    let server_state = ServerState {
        is_initialized: true,
        addr: profile.key,
        owner: address(&first),
        endpoint: "wss://first".to_string(),
    };
    let game = plain(&Pubkey::new_unique(), 1);
    let mut state = game_state(&Pubkey::new_unique(), &native(), &Pubkey::new_unique());
    assert_eq!(serve::process(&signer(&first), &game, &profile, &server_state, &mut state), Ok(()));
    assert_eq!(state.transactor_addr, Some(address(&first)));
    assert_eq!(state.access_version, 11);
    assert_eq!(
        state.servers,
        vec![ServerJoin { addr: address(&first), endpoint: "wss://first".to_string(), access_version: 11 }]
    );
    let second = Pubkey::new_unique();
    assert_eq!(serve::process(&signer(&second), &game, &profile, &server_state, &mut state), Ok(()));
    assert_eq!(state.transactor_addr, Some(address(&first)));
    assert_eq!(state.servers.len(), 2);

    let before = state.clone();
    let dup = plain(&first, 1);
    fails(serve::process(&signer(&second), &game, &dup, &server_state, &mut state), ProcessError::DuplicateServerJoin);
    assert_eq!(serve::process(&plain(&second, 1), &game, &profile, &server_state, &mut state), Err(Failure::MissingRequiredSignature));
    let mut frozen = game.clone();
    frozen.is_writable = false;
    fails(serve::process(&signer(&second), &frozen, &profile, &server_state, &mut state), ProcessError::InvalidAccountStatus);
    let mut no_profile = server_state.clone();
    no_profile.is_initialized = false;
    fails(serve::process(&signer(&second), &game, &profile, &no_profile, &mut state), ProcessError::ServerAccountNotAvailable);
    assert_eq!(state, before);
    let mut closed = state.clone();
    closed.game_status = GameStatus::Closed;
    assert_eq!(serve::process(&signer(&second), &game, &profile, &server_state, &mut closed), Err(Failure::UninitializedAccount));
    for _ in 0..8 {
        serve::process(&signer(&Pubkey::new_unique()), &game, &profile, &server_state, &mut state).unwrap();
    }
    assert_eq!(state.servers.len(), 10);
    fails(serve::process(&signer(&Pubkey::new_unique()), &game, &profile, &server_state, &mut state), ProcessError::ServerNumberExceedsLimit);
}

#[test]
fn votes_unlock_the_game() {
    let transactor = Pubkey::new_unique();
    let votee = Pubkey::new_unique();
    let mut state = game_state(&Pubkey::new_unique(), &native(), &Pubkey::new_unique());
    let params = VoteParams { vote_type: VoteType::ServerVoteTransactorDropOff };
    fails(vote::process(&signer(&transactor), &address(&votee), &mut state, &params, 5), ProcessError::GameNotServed);
    state.transactor_addr = Some(address(&transactor));
    for i in 0..4 {
        state.servers.push(ServerJoin { addr: address(&Pubkey::new_unique()), endpoint: "e".to_string(), access_version: i });
    }
    assert_eq!(vote::process(&signer(&transactor), &address(&votee), &mut state, &params, 5), Ok(()));
    assert_eq!(state.votes.len(), 1);
    assert_eq!(state.unlock_time, None);
    assert_eq!(vote::process(&signer(&transactor), &address(&votee), &mut state, &params, 7), Ok(()));
    assert_eq!(state.unlock_time, Some(10_007));
    assert_eq!(state.votes[1].votee, address(&votee));

    let before = state.clone();
    assert_eq!(vote::process(&plain(&transactor, 1), &address(&votee), &mut state, &params, 5), Err(Failure::MissingRequiredSignature));
    fails(vote::process(&signer(&votee), &address(&transactor), &mut state, &params, 5), ProcessError::InvalidVoteeAccount);
    fails(vote::process(&signer(&transactor), &address(&transactor), &mut state, &params, 5), ProcessError::InvalidVoteeAccount);
    let serving = state.servers[0].addr;
    fails(vote::process(&signer(&transactor), &serving, &mut state, &params, 5), ProcessError::InvalidVoteeAccount);
    let client = VoteParams { vote_type: VoteType::ClientVoteTransactorDropOff };
    fails(vote::process(&signer(&transactor), &address(&votee), &mut state, &client, 5), ProcessError::Unimplemented);
    fails(vote::process(&signer(&transactor), &address(&votee), &mut state, &params, u64::MAX - 9_999), ProcessError::StakeAmountOverflow);
    assert_eq!(state, before);
}

#[test]
fn lobby_lists_and_unlists_games() {
    let owner = Pubkey::new_unique();
    let mut lobby = create_registry::process(&signer(&owner), &CreateRegistrationParams { is_private: true, size: 2 }).unwrap();
    assert_eq!(
        lobby,
        RegistryState { is_initialized: true, is_private: true, size: 2, owner: address(&owner), games: vec![] }
    );
    assert_eq!(
        create_registry::process(&plain(&owner, 1), &CreateRegistrationParams { is_private: true, size: 2 }),
        Err(Failure::MissingRequiredSignature)
    );
    let game = Pubkey::new_unique();
    let state = game_state(&Pubkey::new_unique(), &native(), &owner);
    assert_eq!(register_game::process(&signer(&owner), &mut lobby, &address(&game), &state, 1234), Ok(()));
    assert_eq!(lobby.games.len(), 1);
    assert_eq!(lobby.games[0].title, "table");
    assert_eq!(lobby.games[0].reg_time, 1234);
    assert_eq!(lobby.games[0].addr, address(&game));
    let before = lobby.clone();
    fails(register_game::process(&signer(&owner), &mut lobby, &address(&game), &state, 1), ProcessError::GameAlreadyRegistered);
    let stranger = Pubkey::new_unique();
    fails(register_game::process(&signer(&stranger), &mut lobby, &address(&Pubkey::new_unique()), &state, 1), ProcessError::InvalidOwner);
    let mut closed = state.clone();
    closed.game_status = GameStatus::Initializing;
    assert_eq!(register_game::process(&signer(&owner), &mut lobby, &address(&Pubkey::new_unique()), &closed, 1), Err(Failure::UninitializedAccount));
    assert_eq!(lobby, before);
    let second = Pubkey::new_unique();
    assert_eq!(register_game::process(&signer(&owner), &mut lobby, &address(&second), &state, 2), Ok(()));
    fails(register_game::process(&signer(&owner), &mut lobby, &address(&Pubkey::new_unique()), &state, 3), ProcessError::RegistrationIsFull);

    fails(unregister_game::process(&signer(&owner), &mut lobby, &address(&Pubkey::new_unique()), None), ProcessError::InvalidUnregistration);
    fails(unregister_game::process(&signer(&stranger), &mut lobby, &address(&game), None), ProcessError::InvalidOwner);
    assert_eq!(unregister_game::process(&signer(&owner), &mut lobby, &address(&game), Some(&state)), Ok(()));
    assert_eq!(lobby.games.len(), 1);
    assert_eq!(lobby.games[0].addr, address(&second));
    assert_eq!(unregister_game::process(&signer(&owner), &mut lobby, &address(&second), None), Ok(()));
    assert!(lobby.games.is_empty());
}

#[test]
fn profiles_live_at_addresses_derived_from_their_owners() {
    let program_id = Pubkey::new_unique();
    let owner = Pubkey::new_unique();
    let seed = "race-player";
    let profile_key = Pubkey::create_with_seed(&owner, seed, &program_id).unwrap();
    let params = CreatePlayerProfileParams { nick: "ace".to_string(), credentials: vec![1, 2] };
    let pfp = Pubkey::new_unique();
    let made = create_profile::process(
        &address(&program_id),
        &signer(&owner),
        &plain(&profile_key, 100),
        &address(&pfp),
        params.clone(),
        seed,
        100,
    )
    .unwrap();
    assert_eq!(made.version, 2);
    assert!(made.is_initialized());
    assert_eq!(made.nick, "ace");
    assert_eq!(made.pfp, Some(address(&pfp)));
    assert_eq!(made.credentials, vec![1, 2]);
    let run = |owner_view: &AccountView, profile: &AccountView, seed: &str, min: u64| {
        create_profile::process(&address(&program_id), owner_view, profile, &Address::default(), params.clone(), seed, min)
    };
    assert_eq!(run(&signer(&owner), &plain(&profile_key, 100), seed, 100).unwrap().pfp, None);
    assert_eq!(run(&plain(&owner, 1), &plain(&profile_key, 100), seed, 100), Err(Failure::MissingRequiredSignature));
    assert_eq!(run(&signer(&owner), &plain(&profile_key, 99), seed, 100), Err(Failure::AccountNotRentExempt));
    fails(run(&signer(&owner), &plain(&owner, 100), seed, 100), ProcessError::InvalidAccountPubkey);
    fails(run(&signer(&owner), &plain(&profile_key, 100), "other", 100), ProcessError::InvalidAccountPubkey);
    let mut frozen = plain(&profile_key, 100);
    frozen.is_writable = false;
    fails(run(&signer(&owner), &frozen, seed, 100), ProcessError::InvalidAccountStatus);
    assert_eq!(
        run(&signer(&owner), &plain(&profile_key, 100), "a seed that is longer than thirty-two bytes", 100),
        Err(Failure::MaxSeedLengthExceeded)
    );

    let mut marked = [7u8; 32];
    marked[11..].copy_from_slice(b"ProgramDerivedAddress");
    assert_eq!(
        create_profile::process(
            &Address::new(marked),
            &signer(&owner),
            &plain(&profile_key, 100),
            &Address::default(),
            params.clone(),
            seed,
            100,
        ),
        Err(Failure::IllegalOwner)
    );
    let thirty_two = "a seed of thirty-two bytes, full";
    assert_eq!(thirty_two.len(), 32);
    fails(run(&signer(&owner), &plain(&profile_key, 100), thirty_two, 100), ProcessError::InvalidAccountPubkey);
    assert_eq!(
        run(&signer(&owner), &plain(&profile_key, 100), "a seed of thirty-three bytes, one", 100),
        Err(Failure::MaxSeedLengthExceeded)
    );

    let server_seed = "race-server";
    let server_key = Pubkey::create_with_seed(&owner, server_seed, &program_id).unwrap();
    let server_params = RegisterServerParams { endpoint: "wss://s".to_string(), credentials: vec![7] };
    let register = |held: Option<&Vec<u8>>, server: &AccountView| {
        register_server::process(&address(&program_id), &signer(&owner), server, held, server_params.clone(), server_seed)
    };
    let server = register(None, &plain(&server_key, 1)).unwrap();
    assert_eq!(
        server,
        ServerState { is_initialized: true, addr: address(&server_key), owner: address(&owner), endpoint: "wss://s".to_string() }
    );
    assert!(server.is_initialized());
    assert!(register(Some(&vec![7]), &plain(&server_key, 1)).is_ok());
    fails(register(Some(&vec![8]), &plain(&server_key, 1)), ProcessError::InconsistentCredentials);
    fails(register(Some(&vec![7, 7]), &plain(&server_key, 1)), ProcessError::InconsistentCredentials);
    fails(register(None, &plain(&profile_key, 1)), ProcessError::InvalidAccountPubkey);
}

#[test]
fn instructions_are_numbered_in_order() {
    assert_eq!(RaceInstruction::CloseGameAccount.discriminant(), 1);
    assert_eq!(RaceInstruction::RegisterGame.discriminant(), 8);
    assert_eq!(RaceInstruction::UnregisterGame.discriminant(), 9);
    assert_eq!(RaceInstruction::RecipientClaim.discriminant(), 14);
    assert_eq!(
        RaceInstruction::Deposit { params: DepositParams { amount: 1, settle_version: 2 } }.discriminant(),
        15
    );
    assert_eq!(
        RaceInstruction::JoinGame { params: join_params(0) }.discriminant(),
        10
    );
}
