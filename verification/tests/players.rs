use race_settle::address::Address;
use race_settle::error::{Failure, ProcessError};
use race_settle::state::players::{
    add_player, decrease_players_count, get_available_position, get_player_by_addr,
    get_player_by_id, get_player_by_index, get_players_count, get_slots_count,
    increase_players_count, increase_size_set_position_flag, increase_slots_count,
    is_player_joined, is_position_occupied, remove_player_by_index, set_position_flag,
    set_versions, validate_account_data, PlayerJoinWithoutKey, COUNT_LEN, COUNT_OFFSET, HEAD_LEN,
    PLAYER_INFO_LEN, POSITION_FLAGS_LEN, POSITION_FLAGS_OFFSET,
};
use race_settle::state::PlayerJoin;
use solana_program::pubkey::Pubkey;

fn unique_address() -> Address {
    Address::new(Pubkey::new_unique().to_bytes())
}

fn create_player(addr: Address, position: u16, access_version: u64, verify_key: &str) -> PlayerJoin {
    PlayerJoin { addr, position, access_version, verify_key: verify_key.to_string() }
}

fn entry_bytes(player: &PlayerJoin) -> Vec<u8> {
    let mut bytes = Vec::new();
    bytes.extend_from_slice(&borsh::to_vec(&player.addr.to_bytes()).unwrap());
    bytes.extend_from_slice(&borsh::to_vec(&player.position).unwrap());
    bytes.extend_from_slice(&borsh::to_vec(&player.access_version).unwrap());
    bytes.extend_from_slice(&borsh::to_vec(&player.verify_key).unwrap());
    bytes
}

fn setup_data(players: Vec<PlayerJoin>) -> Vec<u8> {
    let mut data = vec![0; HEAD_LEN + players.len() * PLAYER_INFO_LEN];
    borsh::to_writer(&mut data[COUNT_OFFSET..(COUNT_OFFSET + COUNT_LEN)], &players.len()).unwrap();
    for (i, player) in players.iter().enumerate() {
        let start = i * PLAYER_INFO_LEN + HEAD_LEN;
        let bytes = entry_bytes(player);
        data[start..start + bytes.len()].copy_from_slice(&bytes);
        increase_slots_count(&mut data).unwrap();
    }
    data
}

#[test]
fn test_init_account_data() {
    let mut v = vec![0; HEAD_LEN];
    validate_account_data(&mut v).unwrap();
    assert_eq!(v, vec![0; HEAD_LEN]);
}

#[test]
#[should_panic]
fn test_init_account_data_fail() {
    let mut v = vec![0; 3];
    validate_account_data(&mut v).unwrap();
}

#[test]
fn test_get_players_count() {
    let players = vec![
        create_player(Address::default(), 1, 1, "key1"),
        create_player(Address::default(), 2, 2, "key2"),
    ];
    let data = setup_data(players);
    assert_eq!(get_players_count(&data).unwrap(), 2);
}

#[test]
fn test_get_player_by_index() {
    let players = vec![
        create_player(unique_address(), 1, 1, "key1"),
        create_player(unique_address(), 2, 2, "key2"),
    ];
    let data = setup_data(players.clone());
    let second_player = get_player_by_index(&data, 1).unwrap().unwrap();
    assert_eq!(second_player.position, players[1].position);
}

#[test]
fn test_get_player_by_addr() {
    let player1 = create_player(unique_address(), 1, 1, "key1");
    let player2 = create_player(unique_address(), 2, 2, "key2");
    let players = vec![player1.clone(), player2.clone()];
    let data = setup_data(players.clone());

    let (index, found_player) = get_player_by_addr(&data, &player2.addr).unwrap().unwrap();
    assert_eq!(index, 1);
    assert_eq!(found_player.position, player2.position);
}

#[test]
fn test_add_player() {
    let player = create_player(unique_address(), 1, 1, "key");
    let mut data = setup_data(vec![player.clone()]);
    data.resize(data.len() + 171, 0);
    increase_slots_count(&mut data).unwrap();
    let result = add_player(&mut data, &player).unwrap();
    assert_eq!(result, Some(1));
    let added_player = get_player_by_index(&data, 0).unwrap().unwrap();
    assert_eq!(added_player.position, player.position);
}

#[test]
fn test_remove_player_by_index() {
    let player = create_player(unique_address(), 1, 1, "key");
    let mut data = setup_data(vec![player.clone()]);
    remove_player_by_index(&mut data, 0).unwrap();
    let removed_player = get_player_by_index(&data, 0).unwrap();
    assert!(removed_player.is_none());
    assert_eq!(get_players_count(&data).unwrap(), 0);
    remove_player_by_index(&mut data, 0).unwrap();
    assert_eq!(is_position_occupied(&data, 1).unwrap(), false);
}

#[test]
fn test_set_position_flag() {
    let mut data = vec![0; HEAD_LEN];
    assert_eq!(is_position_occupied(&data, 0).unwrap(), false);

    set_position_flag(&mut data, 0, true).unwrap();
    println!("data: {:?}", &data[POSITION_FLAGS_OFFSET..(POSITION_FLAGS_OFFSET + POSITION_FLAGS_LEN)]);
    assert_eq!(is_position_occupied(&data, 0).unwrap(), true);

    set_position_flag(&mut data, 0, false).unwrap();
    println!("data: {:?}", &data[POSITION_FLAGS_OFFSET..(POSITION_FLAGS_OFFSET + POSITION_FLAGS_LEN)]);
    assert_eq!(is_position_occupied(&data, 0).unwrap(), false);

    assert_eq!(is_position_occupied(&data, 1).unwrap(), false);

    set_position_flag(&mut data, 1, true).unwrap();
    println!("data: {:?}", &data[POSITION_FLAGS_OFFSET..(POSITION_FLAGS_OFFSET + POSITION_FLAGS_LEN)]);
    assert_eq!(is_position_occupied(&data, 1).unwrap(), true);

    set_position_flag(&mut data, 1, false).unwrap();
    println!("data: {:?}", &data[POSITION_FLAGS_OFFSET..(POSITION_FLAGS_OFFSET + POSITION_FLAGS_LEN)]);
    assert_eq!(is_position_occupied(&data, 1).unwrap(), false);
}

#[test]
fn test_get_available_position() {
    let mut data = vec![0; HEAD_LEN + PLAYER_INFO_LEN * 2];
    borsh::to_writer(&mut data[..HEAD_LEN], &2usize).unwrap();

    assert_eq!(get_available_position(&data, 2).unwrap(), 0);
    set_position_flag(&mut data, 0, true).unwrap();
    assert_eq!(get_available_position(&data, 2).unwrap(), 1);

    assert_eq!(is_position_occupied(&data, 1).unwrap(), false);
    set_position_flag(&mut data, 1, true).unwrap();
    assert_eq!(is_position_occupied(&data, 1).unwrap(), true);
    assert!(get_available_position(&data, 2).is_err());
}

#[test]
fn test_get_player_by_id() {
    let player = create_player(unique_address(), 1, 1, "key");
    let data = setup_data(vec![player.clone()]);
    let (index, found_player) = get_player_by_id(&data, 1).unwrap().unwrap();
    assert_eq!(index, 0);
    assert_eq!(found_player.position, player.position);
}

fn empty_registry(slots: usize) -> Vec<u8> {
    let mut data = vec![0; HEAD_LEN + slots * PLAYER_INFO_LEN];
    for _ in 0..slots {
        increase_slots_count(&mut data).unwrap();
    }
    data
}

#[test]
fn header_fields_are_little_endian_at_their_offsets() {
    let mut data = empty_registry(1);
    set_versions(&mut data, 0x0102030405060708, 0x1112131415161718).unwrap();
    assert_eq!(&data[0..8], &[8, 7, 6, 5, 4, 3, 2, 1]);
    assert_eq!(&data[8..16], &[0x18, 0x17, 0x16, 0x15, 0x14, 0x13, 0x12, 0x11]);
    assert_eq!(increase_players_count(&mut data).unwrap(), 1);
    assert_eq!(&data[16..24], &[1, 0, 0, 0, 0, 0, 0, 0]);
    assert_eq!(&data[152..156], &[1, 0, 0, 0]);
    assert_eq!(get_slots_count(&data).unwrap(), 1);
    set_position_flag(&mut data, 9, true).unwrap();
    assert_eq!(data[24], 0);
    assert_eq!(data[25], 2);
    set_position_flag(&mut data, 1023, true).unwrap();
    assert_eq!(data[151], 0x80);
}

#[test]
fn short_buffer_is_malformed() {
    let malformed = Failure::Process(ProcessError::MalformedPlayersRegAccount);
    let mut data = vec![0u8; HEAD_LEN - 1];
    assert_eq!(get_players_count(&data), Err(malformed));
    assert_eq!(get_slots_count(&data), Err(malformed));
    assert_eq!(is_position_occupied(&data, 0), Err(malformed));
    assert_eq!(set_position_flag(&mut data, 0, true), Err(malformed));
    assert_eq!(get_available_position(&data, 4), Err(malformed));
    assert_eq!(set_versions(&mut data, 1, 2), Err(malformed));
    assert_eq!(increase_players_count(&mut data), Err(malformed));
    assert_eq!(decrease_players_count(&mut data), Err(malformed));
    assert_eq!(remove_player_by_index(&mut data, 0), Err(malformed));
    assert_eq!(get_player_by_id(&data, 1), Err(malformed));
    assert_eq!(data, vec![0u8; HEAD_LEN - 1]);
}

#[test]
fn count_cannot_go_below_zero() {
    let mut data = empty_registry(1);
    assert_eq!(
        decrease_players_count(&mut data),
        Err(Failure::Process(ProcessError::CantDecreasePlayersRegAccountSize))
    );
}

#[test]
fn positions_from_the_limit_on_count_as_taken() {
    let mut data = empty_registry(0);
    assert_eq!(is_position_occupied(&data, 1023), Ok(false));
    assert_eq!(is_position_occupied(&data, 1024), Ok(true));
    assert_eq!(is_position_occupied(&data, u16::MAX), Ok(true));
    assert_eq!(
        set_position_flag(&mut data, 1024, true),
        Err(Failure::Process(ProcessError::InvalidPosition))
    );
    assert_eq!(data, vec![0u8; HEAD_LEN]);
}

#[test]
fn available_position_is_the_lowest_free() {
    let mut data = empty_registry(0);
    for p in [0u16, 1, 2, 4] {
        set_position_flag(&mut data, p, true).unwrap();
    }
    assert_eq!(get_available_position(&data, 6), Ok(3));
    assert_eq!(
        get_available_position(&data, 3),
        Err(Failure::Process(ProcessError::GameFullAlready))
    );
    assert_eq!(
        get_available_position(&data, 0),
        Err(Failure::Process(ProcessError::GameFullAlready))
    );
}

#[test]
fn insert_then_lookup_then_remove() {
    let first = create_player(unique_address(), 3, 7, "first");
    let second = create_player(unique_address(), 5, 9, "second key");
    let mut data = empty_registry(3);
    assert_eq!(add_player(&mut data, &first), Ok(Some(0)));
    assert_eq!(add_player(&mut data, &second), Ok(Some(1)));
    assert_eq!(get_players_count(&data), Ok(2));
    assert_eq!(is_position_occupied(&data, 5), Ok(true));
    assert_eq!(is_position_occupied(&data, 4), Ok(false));
    let start = HEAD_LEN + PLAYER_INFO_LEN;
    assert_eq!(&data[start..start + 46 + 10], &entry_bytes(&second)[..]);
    let expected = PlayerJoinWithoutKey { addr: second.addr, position: 5, access_version: 9 };
    assert_eq!(get_player_by_id(&data, 9), Ok(Some((1, expected))));
    assert_eq!(get_player_by_addr(&data, &second.addr), Ok(Some((1, expected))));
    assert_eq!(get_player_by_index(&data, 1), Ok(Some(expected)));
    assert_eq!(is_player_joined(&data, &second.addr), Ok(true));
    assert_eq!(get_player_by_id(&data, 10), Ok(None));

    assert_eq!(remove_player_by_index(&mut data, 1), Ok(()));
    assert_eq!(is_position_occupied(&data, 5), Ok(false));
    assert_eq!(is_position_occupied(&data, 3), Ok(true));
    assert_eq!(get_players_count(&data), Ok(1));
    assert_eq!(get_player_by_id(&data, 9), Ok(None));
    assert_eq!(is_player_joined(&data, &second.addr), Ok(false));
    assert_eq!(&data[start..start + PLAYER_INFO_LEN], &[0u8; PLAYER_INFO_LEN][..]);

    let before = data.clone();
    assert_eq!(remove_player_by_index(&mut data, 1), Ok(()));
    assert_eq!(data, before);
    assert_eq!(remove_player_by_index(&mut data, 2), Ok(()));
    assert_eq!(data, before);
}

#[test]
fn insert_into_full_registry_changes_nothing() {
    let first = create_player(unique_address(), 0, 1, "k");
    let mut data = empty_registry(1);
    assert_eq!(add_player(&mut data, &first), Ok(Some(0)));
    let before = data.clone();
    let second = create_player(unique_address(), 1, 2, "k");
    assert_eq!(add_player(&mut data, &second), Ok(None));
    assert_eq!(data, before);
}

#[test]
fn insert_refuses_what_does_not_fit() {
    let mut data = empty_registry(1);
    let before = data.clone();
    let long_key = "k".repeat(125);
    let player = create_player(unique_address(), 0, 1, &long_key);
    assert_eq!(add_player(&mut data, &player), Err(Failure::BorshIoError));
    assert_eq!(data, before);
    let exact = create_player(unique_address(), 0, 1, &"k".repeat(124));
    assert_eq!(add_player(&mut data, &exact), Ok(Some(0)));
    let far = create_player(unique_address(), 1024, 1, "k");
    let mut other = empty_registry(1);
    assert_eq!(
        add_player(&mut other, &far),
        Err(Failure::Process(ProcessError::InvalidPosition))
    );
    assert_eq!(other, before);
}

#[test]
fn count_and_flag_go_together() {
    let mut data = empty_registry(0);
    assert_eq!(increase_size_set_position_flag(&mut data, 12), Ok(()));
    assert_eq!(get_players_count(&data), Ok(1));
    assert_eq!(is_position_occupied(&data, 12), Ok(true));
    let before = data.clone();
    assert_eq!(
        increase_size_set_position_flag(&mut data, 2000),
        Err(Failure::Process(ProcessError::InvalidPosition))
    );
    assert_eq!(data, before);
}

#[test]
fn slot_beyond_the_buffer_is_malformed() {
    let mut data = empty_registry(1);
    increase_slots_count(&mut data).unwrap();
    let malformed = Failure::Process(ProcessError::MalformedPlayersRegAccount);
    assert_eq!(get_player_by_index(&data, 1), Err(malformed));
    assert_eq!(get_player_by_index(&data, 2), Ok(None));
    assert_eq!(remove_player_by_index(&mut data, 1), Err(malformed));
    let player = create_player(unique_address(), 0, 1, "k");
    assert_eq!(add_player(&mut data, &player), Ok(Some(0)));
    let next = create_player(unique_address(), 1, 2, "k");
    assert_eq!(add_player(&mut data, &next), Err(malformed));
}

#[test]
fn blank_slots_hold_nobody() {
    let player = create_player(unique_address(), 2, 5, "k");
    let mut data = empty_registry(3);
    assert_eq!(get_player_by_id(&data, 0), Ok(None));
    assert_eq!(add_player(&mut data, &player), Ok(Some(0)));
    assert_eq!(get_player_by_id(&data, 0), Ok(None));
    assert_eq!(remove_player_by_index(&mut data, 0), Ok(()));
    assert_eq!(get_player_by_id(&data, 0), Ok(None));
    assert_eq!(get_player_by_id(&data, 5), Ok(None));

    let zero = create_player(unique_address(), 1, 0, "k");
    let later = create_player(unique_address(), 4, 0, "k");
    let mut data = empty_registry(3);
    assert_eq!(add_player(&mut data, &player), Ok(Some(0)));
    assert_eq!(add_player(&mut data, &zero), Ok(Some(1)));
    assert_eq!(add_player(&mut data, &later), Ok(Some(2)));
    assert_eq!(remove_player_by_index(&mut data, 0), Ok(()));
    let expected = PlayerJoinWithoutKey { addr: zero.addr, position: 1, access_version: 0 };
    assert_eq!(get_player_by_id(&data, 0), Ok(Some((1, expected))));
}

#[test]
fn lookup_by_id_goes_by_the_id_alone() {
    let players = vec![
        create_player(Address::default(), 1, 1, "key1"),
        create_player(Address::default(), 2, 2, "key2"),
    ];
    let data = setup_data(players);
    let first = PlayerJoinWithoutKey { addr: Address::default(), position: 1, access_version: 1 };
    let second = PlayerJoinWithoutKey { addr: Address::default(), position: 2, access_version: 2 };
    assert_eq!(get_player_by_id(&data, 1), Ok(Some((0, first))));
    assert_eq!(get_player_by_id(&data, 2), Ok(Some((1, second))));
    assert_eq!(get_player_by_id(&data, 3), Ok(None));
    assert_eq!(get_player_by_id(&data, 0), Ok(None));

    let mut data = empty_registry(1);
    let nobody = create_player(Address::default(), 1, 5, "");
    assert_eq!(add_player(&mut data, &nobody), Ok(Some(0)));
    let found = PlayerJoinWithoutKey { addr: Address::default(), position: 1, access_version: 5 };
    assert_eq!(get_player_by_id(&data, 5), Ok(Some((0, found))));

    let at_zero = create_player(Address::default(), 7, 0, "");
    let mut data = empty_registry(2);
    assert_eq!(add_player(&mut data, &at_zero), Ok(Some(0)));
    let found = PlayerJoinWithoutKey { addr: Address::default(), position: 7, access_version: 0 };
    assert_eq!(get_player_by_id(&data, 0), Ok(Some((0, found))));

    let seated = create_player(unique_address(), 0, 0, "");
    let mut data = empty_registry(2);
    assert_eq!(add_player(&mut data, &seated), Ok(Some(0)));
    let found = PlayerJoinWithoutKey { addr: seated.addr, position: 0, access_version: 0 };
    assert_eq!(get_player_by_id(&data, 0), Ok(Some((0, found))));
}

#[test]
fn a_player_without_an_address_takes_no_slot() {
    let mut data = empty_registry(2);
    let nobody = create_player(Address::default(), 1, 5, "key");
    assert_eq!(add_player(&mut data, &nobody), Ok(Some(0)));
    assert_eq!(get_players_count(&data), Ok(1));
    assert_eq!(is_position_occupied(&data, 1), Ok(true));
    assert_eq!(get_player_by_index(&data, 0), Ok(None));
    let held = data.clone();
    assert_eq!(remove_player_by_index(&mut data, 0), Ok(()));
    assert_eq!(data, held);

    let somebody = create_player(unique_address(), 2, 6, "key");
    assert_eq!(add_player(&mut data, &somebody), Ok(Some(0)));
    assert_eq!(get_players_count(&data), Ok(2));
    assert_eq!(get_player_by_id(&data, 5), Ok(None));
    let found = PlayerJoinWithoutKey { addr: somebody.addr, position: 2, access_version: 6 };
    assert_eq!(get_player_by_id(&data, 6), Ok(Some((0, found))));
}

#[test]
fn a_position_without_a_flag_is_removed_like_any_other() {
    let mut data = empty_registry(2);
    let near = create_player(unique_address(), 3, 1, "k");
    assert_eq!(add_player(&mut data, &near), Ok(Some(0)));
    let start = HEAD_LEN + PLAYER_INFO_LEN;
    let far = create_player(unique_address(), 1024, 2, "k");
    let bytes = entry_bytes(&far);
    data[start..start + bytes.len()].copy_from_slice(&bytes);
    increase_players_count(&mut data).unwrap();
    assert_eq!(get_players_count(&data), Ok(2));
    let flags = data[24..152].to_vec();

    assert_eq!(remove_player_by_index(&mut data, 1), Ok(()));
    assert_eq!(get_players_count(&data), Ok(1));
    assert_eq!(&data[24..152], &flags[..]);
    assert!(data[start..start + PLAYER_INFO_LEN].iter().all(|b| *b == 0));
    assert_eq!(get_player_by_id(&data, 2), Ok(None));

    let mut empty_count = empty_registry(1);
    let bytes = entry_bytes(&near);
    empty_count[HEAD_LEN..HEAD_LEN + bytes.len()].copy_from_slice(&bytes);
    let held = empty_count.clone();
    assert_eq!(
        remove_player_by_index(&mut empty_count, 0),
        Err(Failure::Process(ProcessError::CantDecreasePlayersRegAccountSize))
    );
    assert_eq!(empty_count, held);
}
