use race_settle::address::Address;
use race_settle::error::SerError;
use race_settle::ser::{
    Cursor, CursorType, EmptyCursor, EnumCursor, PrimitiveCursor, StaticVecCursor, StaticVecValue,
    UpdatableValue, Writable,
};
use race_settle::state::game2::{
    create_game_cursor_type, BALANCES, CHECKPOINT, DATA, DEPOSITS, PLAYERS, TITLE, TRANSACTOR_ADDR,
};

fn bytes_of<T: borsh::BorshSerialize>(value: &T) -> Vec<u8> {
    borsh::to_vec(value).unwrap()
}

fn rewrite(cursor: &Cursor, src: &[u8]) -> Vec<u8> {
    let mut out = vec![0xAAu8; cursor.size()];
    assert_eq!(cursor.write(src, &mut out, 0), out.len());
    out
}

#[test]
fn primitive_test() {
    let mut v = bytes_of(&1u8);
    v.extend(bytes_of(&1000000000u64));
    let layout = CursorType::mk_struct(vec![CursorType::U8, CursorType::U64]);
    let (mut cursor, len) = Cursor::new(&layout, &v, 0).unwrap();
    assert_eq!(len, 9);
    {
        let sc = cursor.as_struct_mut().unwrap();
        sc.get_mut(0).unwrap().as_u8_mut().unwrap().set(0);
        sc.get_mut(1).unwrap().as_u64_mut().unwrap().set(42);
    }
    let new_size = cursor.size();
    let mut v2 = vec![0u8; new_size];
    cursor.write(&v, &mut v2, 0);
    let x: u8 = borsh::from_slice(&v2[0..1]).unwrap();
    let y: u64 = borsh::from_slice(&v2[1..]).unwrap();
    assert_eq!(x, 0);
    assert_eq!(y, 42);
}

#[test]
fn string_test() {
    let mut v = bytes_of(&"foo".to_string());
    v.extend(bytes_of(&1u8));
    v.extend(bytes_of(&"hello".to_string()));
    v.extend(bytes_of(&43u64));
    println!("v = {:?}", v);
    let layout = CursorType::mk_struct(vec![
        CursorType::String,
        CursorType::U8,
        CursorType::String,
        CursorType::U64,
    ]);
    let (mut cursor, _) = Cursor::new(&layout, &v, 0).unwrap();
    {
        let sc = cursor.as_struct_mut().unwrap();
        sc.get_mut(1).unwrap().as_u8_mut().unwrap().set(0);
        sc.get_mut(2).unwrap().as_string_mut().unwrap().set("Hello world".to_string());
        sc.get_mut(3).unwrap().as_u64_mut().unwrap().set(42);
    }
    let new_size = cursor.size();
    println!("new size: {}", new_size);
    let mut v2 = vec![0u8; new_size];
    let written = cursor.write(&v, &mut v2, 0);
    assert_eq!(written, new_size);
    let mut rest = &v2[..];
    let w: String = borsh::BorshDeserialize::deserialize(&mut rest).unwrap();
    let x: u8 = borsh::BorshDeserialize::deserialize(&mut rest).unwrap();
    let y: String = borsh::BorshDeserialize::deserialize(&mut rest).unwrap();
    let z: u64 = borsh::BorshDeserialize::deserialize(&mut rest).unwrap();
    assert!(rest.is_empty());
    assert_eq!(w, "foo".to_string());
    assert_eq!(x, 0);
    assert_eq!(y, "Hello world".to_string());
    assert_eq!(z, 42);
}

fn example_game_account() -> Vec<u8> {
    let key = [0u8; 32];
    let mut v = Vec::new();
    v.extend(bytes_of(&true));
    v.extend(bytes_of(&"1.0".to_string()));
    v.extend(bytes_of(&"Example Game".to_string()));
    for _ in 0..4 {
        v.extend(bytes_of(&key));
    }
    v.extend(bytes_of(&Option::<[u8; 32]>::None));
    v.extend(bytes_of(&0u64));
    v.extend(bytes_of(&0u64));
    v.extend(bytes_of(&30u16));
    // one player
    v.extend(bytes_of(&1u32));
    v.extend(bytes_of(&key));
    v.extend(bytes_of(&0u16));
    v.extend(bytes_of(&999u64));
    v.extend(bytes_of(&"MFkwEwYHKoZIzj0CAQYIKoZIzj0DAQcDQgAEhbxg8".to_string()));
    // one deposit, pending
    v.extend(bytes_of(&1u32));
    v.extend(bytes_of(&key));
    v.extend(bytes_of(&1000u64));
    v.extend(bytes_of(&0u64));
    v.extend(bytes_of(&0u64));
    v.extend(bytes_of(&0u8));
    // three servers
    v.extend(bytes_of(&3u32));
    for i in 0..3 {
        v.extend(bytes_of(&key));
        v.extend(bytes_of(&format!("endpoint_{}", i)));
        v.extend(bytes_of(&0u64));
        v.extend(bytes_of(&format!("verify_key_server_{}", i)));
    }
    v.extend(bytes_of(&0u32));
    v.extend(bytes_of(&vec![0u8; 10000]));
    v.extend(bytes_of(&0u32));
    v.extend(bytes_of(&Option::<u64>::None));
    // cash, between 1 and 9999
    v.extend(bytes_of(&0u8));
    v.extend(bytes_of(&1u64));
    v.extend(bytes_of(&9999u64));
    v.extend(bytes_of(&key));
    v.extend(bytes_of(&vec![7u8; 10000]));
    v.extend(bytes_of(&0u8));
    v.extend(bytes_of(&0u32));
    // two balances
    v.extend(bytes_of(&2u32));
    for (id, amount) in [(1u64, 10u64), (2, 20)] {
        v.extend(bytes_of(&id));
        v.extend(bytes_of(&amount));
    }
    v
}

#[test]
fn game2_test_deser() {
    let src = example_game_account();
    println!("src len: {}", src.len());
    let game_cursor_type = create_game_cursor_type();
    let (game_cursor, len) = Cursor::new(&game_cursor_type, &src, 0).unwrap();
    assert_eq!(len, src.len());
    let sc = game_cursor.as_struct().unwrap();
    let oc = sc.get(TRANSACTOR_ADDR).unwrap().as_option().unwrap();
    assert!(oc.get_inner().is_none());
    let vc = sc.get(CHECKPOINT).unwrap().as_static_vec().unwrap();
    assert_eq!(vc.get(&src).unwrap(), &vec![7u8; 10000][..]);
    assert_eq!(sc.get(DATA).unwrap().as_static_vec().unwrap().get(&src).unwrap().len(), 10000);
    assert_eq!(sc.get(TITLE).unwrap().as_string().unwrap().get_bytes(&src).unwrap(), b"Example Game");
    assert_eq!(sc.get(PLAYERS).unwrap().as_vec().unwrap().cursors.len(), 1);
    assert_eq!(sc.get(DEPOSITS).unwrap().as_vec().unwrap().cursors.len(), 1);
    assert_eq!(sc.get(BALANCES).unwrap().as_vec().unwrap().cursors.len(), 2);
    assert_eq!(sc.get(24), Err(SerError::InvalidFieldAccess));

    let mut v = vec![0; game_cursor.size()];
    game_cursor.write(&src, &mut v, 0);
    assert_eq!(v, src);
}

#[test]
fn replaced_parts_are_written_in_place_of_the_old() {
    let src = example_game_account();
    let (mut cursor, _) = Cursor::new(&create_game_cursor_type(), &src, 0).unwrap();
    {
        let sc = cursor.as_struct_mut().unwrap();
        sc.get_mut(CHECKPOINT).unwrap().as_static_vec_mut().unwrap().set(vec![1, 2, 3]);
        sc.get_mut(TRANSACTOR_ADDR).unwrap().as_option_mut().unwrap().inner = Some(Box::new(
            Cursor::Pubkey(race_settle::ser::PubkeyCursor {
                offset: 0,
                new_value: Some(Address::new([9u8; 32])),
            }),
        ));
        let balances = sc.get_mut(BALANCES).unwrap().as_vec_mut().unwrap();
        balances.delete(0).unwrap();
        let mut item = bytes_of(&3u64);
        item.extend(bytes_of(&30u64));
        balances.push(item);
        assert_eq!(balances.delete(5), Err(SerError::InvalidFieldAccess));
    }
    let out = rewrite(&cursor, &src);
    assert_eq!(out.len(), src.len() - 10000 + 3 + 32);
    let (again, _) = Cursor::new(&create_game_cursor_type(), &out, 0).unwrap();
    let sc = again.as_struct().unwrap();
    assert_eq!(sc.get(CHECKPOINT).unwrap().as_static_vec().unwrap().get(&out).unwrap(), &[1, 2, 3][..]);
    let inner = sc.get(TRANSACTOR_ADDR).unwrap().as_option().unwrap().get_inner().unwrap();
    assert_eq!(inner.as_pubkey().unwrap().get(&out).unwrap(), Address::new([9u8; 32]));
    let tail = &out[out.len() - 36..];
    let mut expected = bytes_of(&2u32);
    for n in [2u64, 20, 3, 30] {
        expected.extend(bytes_of(&n));
    }
    assert_eq!(tail, &expected[..]);
}

#[test]
fn every_layout_is_read_and_written_back() {
    let layout = CursorType::mk_struct(vec![
        CursorType::Bool,
        CursorType::U16,
        CursorType::U32,
        CursorType::Usize,
        CursorType::mk_option(CursorType::U8),
        CursorType::mk_enum(vec![CursorType::Empty, CursorType::U16]),
        CursorType::mk_vec(CursorType::mk_option(CursorType::Bool)),
        CursorType::Pubkey,
        CursorType::Empty,
    ]);
    let mut src = vec![0xEEu8; 3];
    src.extend(bytes_of(&true));
    src.extend(bytes_of(&0x1234u16));
    src.extend(bytes_of(&0x01020304u32));
    src.extend(bytes_of(&77usize));
    src.extend(bytes_of(&Some(5u8)));
    src.extend([1u8, 0x34, 0x12]);
    src.extend(bytes_of(&vec![Some(true), None, Some(false)]));
    src.extend([6u8; 32]);
    src.extend([0xEEu8; 2]);
    let (cursor, len) = Cursor::new(&layout, &src, 3).unwrap();
    assert_eq!(len, src.len() - 5);
    assert_eq!(rewrite(&cursor, &src), &src[3..src.len() - 2]);
    let sc = cursor.as_struct().unwrap();
    assert_eq!(*sc.get(0).unwrap().as_bool().unwrap().get(), true);
    assert_eq!(*sc.get(1).unwrap().as_u16().unwrap().get(), 0x1234);
    assert_eq!(*sc.get(2).unwrap().as_u32().unwrap().get(), 0x01020304);
    assert_eq!(*sc.get(3).unwrap().as_usize().unwrap().get(), 77);
    assert_eq!(sc.get(5).unwrap().as_enum().unwrap().get(&src).unwrap(), &[1u8, 0x34, 0x12][..]);
    assert_eq!(sc.get(6).unwrap().as_vec().unwrap().get_cursor(3), Err(SerError::InvalidFieldAccess));
    assert_eq!(sc.get(0).unwrap().as_u8(), Err(SerError::InvalidCursorType));
    assert_eq!(Writable::size(&cursor), len);
}

#[test]
fn what_cannot_be_read_is_refused() {
    let io = Err(SerError::IoError);
    assert_eq!(Cursor::new(&CursorType::U64, &[0u8; 7], 0), io);
    assert_eq!(Cursor::new(&CursorType::U8, &[0u8; 7], 7), io);
    assert_eq!(Cursor::new(&CursorType::U8, &[0u8; 7], usize::MAX), io);
    assert_eq!(Cursor::new(&CursorType::Bool, &[2u8], 0), io);
    assert_eq!(Cursor::new(&CursorType::mk_option(CursorType::U8), &[2u8, 0], 0), io);
    assert_eq!(Cursor::new(&CursorType::mk_option(CursorType::U8), &[1u8], 0), io);
    assert_eq!(Cursor::new(&CursorType::mk_enum(vec![CursorType::Empty]), &[1u8], 0), io);
    assert_eq!(Cursor::new(&CursorType::String, &[3u8, 0, 0, 0, 1, 2], 0), io);
    assert_eq!(Cursor::new(&CursorType::mk_vec(CursorType::U16), &[2u8, 0, 0, 0, 1, 2, 3], 0), io);
    assert_eq!(Cursor::new(&CursorType::Pubkey, &[0u8; 31], 0), io);
    let far = vec![0u8; 70000];
    assert_eq!(Cursor::new(&CursorType::String, &far, 65536), Err(SerError::OffsetOverflow));
    assert_eq!(Cursor::new(&CursorType::Pubkey, &far, 65536), Err(SerError::OffsetOverflow));
    assert!(Cursor::new(&CursorType::Pubkey, &far, 65535).is_ok());
    assert!(Cursor::new(&CursorType::U64, &far, 69000).is_ok());
    let mut long = bytes_of(&65532u32);
    long.extend(vec![0u8; 65532]);
    assert_eq!(Cursor::new(&CursorType::String, &long, 0), Err(SerError::LengthOverflow));
    assert_eq!(StaticVecCursor::new(&long, 0).unwrap().1, 65536);
    let mut longer = bytes_of(&65536u32);
    longer.extend(vec![0u8; 65536]);
    assert_eq!(StaticVecCursor::new(&longer, 0), Err(SerError::LengthOverflow));
    assert_eq!(Cursor::new(&CursorType::Empty, &[], 5).unwrap().1, 0);
    assert_eq!(Cursor::new(&CursorType::mk_struct(vec![]), &[], 5).unwrap().1, 0);
}

#[test]
fn static_vec_cursor_reads_replaces_and_writes() {
    let src = [9u8, 3, 0, 0, 0, 10, 20, 30, 9];
    let (mut cursor, len) = StaticVecCursor::new(&src, 1).unwrap();
    assert_eq!(len, 7);
    assert_eq!(cursor.value, StaticVecValue::Origin(1, 3));
    assert_eq!(cursor.get(&src), Ok(&[10u8, 20, 30][..]));
    assert_eq!(cursor.get(&src[..7]), Err(SerError::IoError));
    assert_eq!(cursor.size(), 7);
    let mut out = [0u8; 9];
    assert_eq!(cursor.write(&src, &mut out, 2), 7);
    assert_eq!(out, [0, 0, 3, 0, 0, 0, 10, 20, 30]);
    cursor.set(vec![1, 2]);
    assert_eq!(cursor.get(&src), Err(SerError::ValueIsUpdated));
    assert_eq!(cursor.size(), 6);
    let mut out = [7u8; 8];
    assert_eq!(cursor.write(&src, &mut out, 1), 6);
    assert_eq!(out, [7, 2, 0, 0, 0, 1, 2, 7]);
    let (empty, none) = EmptyCursor::new(3);
    assert_eq!(none, 0);
    assert_eq!(empty.size(), 0);
    assert_eq!(empty.write(&src, &mut out, 8), 0);
}

#[test]
fn values_remember_where_they_were_read() {
    assert_eq!(UpdatableValue::<u8>::origin(5, 9), Ok(UpdatableValue::Origin(5, 9)));
    assert_eq!(UpdatableValue::<u8>::origin(65536, 9), Err(SerError::OffsetOverflow));
    assert_eq!(UpdatableValue::<u8>::origin(5, 65536), Err(SerError::LengthOverflow));
    assert_eq!(UpdatableValue::<u8>::Origin(5, 9).get_offset_and_len(), Ok((5, 9)));
    assert_eq!(UpdatableValue::updated(4u8).get_offset_and_len(), Err(SerError::ValueIsUpdated));
    let mut e = EnumCursor { value: UpdatableValue::Origin(1, 2) };
    assert_eq!(e.get(&[0, 1, 2, 3]), Ok(&[1u8, 2][..]));
    e.set(vec![4]);
    assert_eq!(e.get(&[0, 1, 2, 3]), Err(SerError::ValueIsUpdated));
    let mut p = PrimitiveCursor { value: 3u16 };
    p.set(4);
    assert_eq!(*p.get(), 4);
}

#[test]
fn string_cursor_gives_the_text() {
    let mut src = vec![0xEEu8];
    src.extend(bytes_of(&"h\u{e9}llo \u{4e16}\u{754c}".to_string()));
    src.extend(bytes_of(&"".to_string()));
    let (cursor, len) = Cursor::new(&CursorType::String, &src, 1).unwrap();
    let mut text = cursor;
    assert_eq!(text.as_string().unwrap().get(&src), Ok("h\u{e9}llo \u{4e16}\u{754c}".to_string()));
    assert_eq!(text.as_string().unwrap().get(&src[..len]), Err(SerError::IoError));
    let (empty, _) = Cursor::new(&CursorType::String, &src, 1 + len).unwrap();
    assert_eq!(empty.as_string().unwrap().get(&src), Ok(String::new()));
    text.as_string_mut().unwrap().set("new".to_string());
    assert_eq!(text.as_string().unwrap().get(&src), Err(SerError::ValueIsUpdated));

    for bad in [vec![0xC0u8, 0x80], vec![0xFF], vec![0xED, 0xA0, 0x80], vec![0xE4, 0xB8], vec![0xF4, 0x90, 0x80, 0x80]] {
        let mut src = bytes_of(&(bad.len() as u32));
        src.extend(bad);
        let (cursor, _) = Cursor::new(&CursorType::String, &src, 0).unwrap();
        assert_eq!(cursor.as_string().unwrap().get(&src), Err(SerError::IoError));
    }
}
