//! The players registry of a game: one buffer that lists who sits where.
//!
//! ```text
//! [u64][u64][u64][128 bytes][u32][slot]*
//!  |    |    |    |          |    |___ the slots, 170 bytes each
//!  |    |    |    |          |___ the number of slots, empty ones included
//!  |    |    |    |___ the position flags, one bit per position, set when taken
//!  |    |    |___ the number of players; empty slots are not counted
//!  |    |___ the settle version
//!  |___ the access version
//! ```
//!
//! A slot is empty when the thirty-two bytes of its address are all zero. A taken
//! slot holds the address, the position, the player's id and the verify key, the key
//! behind a four-byte length.
//!
//! A lookup by id reads the first forty-two bytes of a slot: address, position and
//! id. It goes by the id alone and passes over a slot only where all forty-two are
//! zero, as they are in a slot that was never filled or was cleared. So the id zero
//! is found in a slot that holds an address or a position, and nowhere else.
use crate::address::{all_zero, Address};
use crate::codec::{
    decode_u16, decode_u32, decode_u64, encode_u16, encode_u32, encode_u64, le_of_u16, le_of_u32,
    le_of_u64, splice, u16_of_le, u32_of_le, u64_of_le,
};
use crate::error::{Failure, ProcessError};
use crate::state::game::PlayerJoin;
use crate::state::occupancy::{
    is_well_formed, lemma_insert_keeps_well_formed, lemma_remove_keeps_well_formed,
    lemma_versions_keep_well_formed,
};
use vstd::prelude::*;
use vstd::slice::slice_subrange;
use vstd::string::StringSliceAdditionalSpecFns;
use vstd::utf8::encode_utf8;

verus! {

pub const VERSION_LEN: usize = 8;

pub const COUNT_LEN: usize = 8;

pub const PUBKEY_LEN: usize = 32;

pub const POSITION_FLAGS_LEN: usize = 128;

pub const PLAYER_INFO_LEN: usize = 170;

pub const PLAYER_INFO_WITHOUT_KEY_LEN: usize = 42;

pub const SLOTS_COUNT_LEN: usize = 4;

pub const POSITION_LEN: usize = 2;

pub const POSITION_OFFSET: usize = 32;

pub const ID_OFFSET: usize = 34;

pub const ID_LEN: usize = 8;

pub const KEY_LEN_OFFSET: usize = 42;

pub const KEY_OFFSET: usize = 46;

pub const ACCESS_VERSION_OFFSET: usize = 0;

pub const SETTLE_VERSION_OFFSET: usize = 8;

pub const COUNT_OFFSET: usize = 16;

pub const POSITION_FLAGS_OFFSET: usize = 24;

pub const SLOTS_COUNT_OFFSET: usize = 152;

/// Number of bytes in the fixed header of a players registry.
pub const HEAD_LEN: usize = 156;

/// Number of positions the flags can tell apart. A position from here on counts as
/// taken.
pub const MAX_POSITIONS: u16 = 1024;

/// A player as a lookup returns one: the entry without its verify key.
#[derive(Debug, Clone, Copy, PartialEq, Eq)]
pub struct PlayerJoinWithoutKey {
    pub addr: Address,
    pub position: u16,
    pub access_version: u64,
}

/// The access version in the header.
pub open spec fn access_version_of(data: Seq<u8>) -> u64 {
    u64_of_le(data.subrange(0, 8))
}

/// The settle version in the header.
pub open spec fn settle_version_of(data: Seq<u8>) -> u64 {
    u64_of_le(data.subrange(8, 16))
}

/// The number of players in the header.
pub open spec fn players_count_of(data: Seq<u8>) -> u64 {
    u64_of_le(data.subrange(16, 24))
}

/// The number of slots in the header.
pub open spec fn slots_count_of(data: Seq<u8>) -> u32 {
    u32_of_le(data.subrange(152, 156))
}

/// The bit that stands for `position` within its byte of the flags.
pub open spec fn flag_mask(position: int) -> u8 {
    1u8 << ((position % 8) as u8)
}

/// Where the byte that holds the flag of `position` lies.
pub open spec fn flag_index(position: int) -> int {
    24 + position / 8
}

/// Whether the flag of `position` is set. Meant for positions below `MAX_POSITIONS`.
pub open spec fn position_flag(data: Seq<u8>, position: int) -> bool {
    data[flag_index(position)] & flag_mask(position) != 0
}

/// `data` with the flag of `position` set or cleared.
pub open spec fn with_position_flag(data: Seq<u8>, position: int, flag: bool) -> Seq<u8> {
    let k = flag_index(position);
    data.update(
        k,
        if flag {
            data[k] | flag_mask(position)
        } else {
            data[k] & !flag_mask(position)
        },
    )
}

/// `data` with another number of players.
pub open spec fn with_players_count(data: Seq<u8>, count: u64) -> Seq<u8> {
    splice(data, 16, le_of_u64(count))
}

/// `data` with another number of slots.
pub open spec fn with_slots_count(data: Seq<u8>, count: u32) -> Seq<u8> {
    splice(data, 152, le_of_u32(count))
}

/// `data` with other versions.
pub open spec fn with_versions(data: Seq<u8>, access_version: u64, settle_version: u64) -> Seq<
    u8,
> {
    splice(splice(data, 0, le_of_u64(access_version)), 8, le_of_u64(settle_version))
}

/// Where slot `index` begins.
pub open spec fn slot_start(index: int) -> int {
    156 + 170 * index
}

/// Whether the buffer holds the whole of slot `index`.
pub open spec fn slot_fits(data: Seq<u8>, index: int) -> bool {
    0 <= index && slot_start(index) + 170 <= data.len()
}

/// Whether the buffer holds of slot `index` what a lookup reads: address, position
/// and id.
pub open spec fn slot_readable(data: Seq<u8>, index: int) -> bool {
    0 <= index && slot_start(index) + 42 <= data.len()
}

/// Whether slot `index` begins inside the buffer.
pub open spec fn slot_begins(data: Seq<u8>, index: int) -> bool {
    0 <= index && slot_start(index) < data.len()
}

/// The address bytes of slot `index`.
pub open spec fn slot_addr(data: Seq<u8>, index: int) -> Seq<u8> {
    data.subrange(slot_start(index), slot_start(index) + 32)
}

/// Whether slot `index` is empty.
pub open spec fn slot_is_empty(data: Seq<u8>, index: int) -> bool {
    all_zero(slot_addr(data, index))
}

/// The position that slot `index` holds.
pub open spec fn slot_position(data: Seq<u8>, index: int) -> u16 {
    u16_of_le(data.subrange(slot_start(index) + 32, slot_start(index) + 34))
}

/// The player id that slot `index` holds.
pub open spec fn slot_id(data: Seq<u8>, index: int) -> u64 {
    u64_of_le(data.subrange(slot_start(index) + 34, slot_start(index) + 42))
}

/// Whether `entry` is what slot `index` holds.
pub open spec fn is_entry_at(entry: PlayerJoinWithoutKey, data: Seq<u8>, index: int) -> bool {
    &&& entry.addr@ == slot_addr(data, index)
    &&& entry.position == slot_position(data, index)
    &&& entry.access_version == slot_id(data, index)
}

/// The bytes of the verify key of a player.
pub open spec fn key_bytes(player: PlayerJoin) -> Seq<u8> {
    encode_utf8(player.verify_key@)
}

/// The bytes that a player is stored as: address, position, id, the length of the
/// key and the key.
pub open spec fn entry_bytes(player: PlayerJoin) -> Seq<u8> {
    player.addr@ + le_of_u16(player.position) + le_of_u64(player.access_version) + le_of_u32(
        key_bytes(player).len() as u32,
    ) + key_bytes(player)
}

/// `n` zero bytes.
pub open spec fn zeros(n: nat) -> Seq<u8> {
    Seq::new(n, |i: int| 0u8)
}

/// How the flag of one position answers after the flag of another was written.
pub proof fn lemma_flag_after_write(data: Seq<u8>, p: int, flag: bool, q: int)
    requires
        data.len() >= 156,
        0 <= p < 1024,
        0 <= q < 1024,
    ensures
        position_flag(with_position_flag(data, p, flag), q) == (if q == p {
            flag
        } else {
            position_flag(data, q)
        }),
{
    let k = flag_index(p);
    if flag_index(q) == k {
        let b: u8 = data[k];
        let o: u8 = (p % 8) as u8;
        let r: u8 = (q % 8) as u8;
        assert(o == r <==> p == q);
        assert(((b | (1u8 << o)) & (1u8 << r) != 0) == (r == o || (b & (1u8 << r) != 0)))
            by (bit_vector)
            requires
                o < 8,
                r < 8,
        ;
        assert(((b & !(1u8 << o)) & (1u8 << r) != 0) == (r != o && (b & (1u8 << r) != 0)))
            by (bit_vector)
            requires
                o < 8,
                r < 8,
        ;
    }
}

/// Checks that a buffer is fit to become a registry: it has the size of the header.
pub fn validate_account_data(data: &[u8]) -> (r: Result<(), Failure>)
    ensures
        r == if data@.len() == HEAD_LEN {
            Ok::<(), Failure>(())
        } else {
            Err(Failure::Process(ProcessError::InvalidPlayersRegAccountForInit))
        },
{
    if data.len() != HEAD_LEN {
        return Err(Failure::Process(ProcessError::InvalidPlayersRegAccountForInit));
    }
    Ok(())
}

/// What every operation answers on a buffer that is shorter than the header.
pub open spec fn malformed() -> Failure {
    Failure::Process(ProcessError::MalformedPlayersRegAccount)
}

/// Writes both versions into the header.
pub fn set_versions(data: &mut [u8], access_version: u64, settle_version: u64) -> (r: Result<
    (),
    Failure,
>)
    ensures
        old(data)@.len() >= HEAD_LEN ==> r is Ok && final(data)@ == with_versions(
            old(data)@,
            access_version,
            settle_version,
        ),
        old(data)@.len() < HEAD_LEN ==> r == Err::<(), Failure>(malformed()) && final(data)@ == old(
            data,
        )@,
        is_well_formed(old(data)@) ==> is_well_formed(final(data)@),
{
    if data.len() < HEAD_LEN {
        return Err(Failure::Process(ProcessError::MalformedPlayersRegAccount));
    }
    encode_u64(data, ACCESS_VERSION_OFFSET, access_version);
    encode_u64(data, SETTLE_VERSION_OFFSET, settle_version);
    proof {
        if is_well_formed(old(data)@) {
            lemma_versions_keep_well_formed(old(data)@, access_version, settle_version);
        }
    }
    Ok(())
}

/// The number of players.
pub fn get_players_count(data: &[u8]) -> (r: Result<usize, Failure>)
    ensures
        r == if data@.len() >= HEAD_LEN && players_count_of(data@) <= usize::MAX {
            Ok::<usize, Failure>(players_count_of(data@) as usize)
        } else {
            Err(malformed())
        },
{
    if data.len() < HEAD_LEN {
        return Err(Failure::Process(ProcessError::MalformedPlayersRegAccount));
    }
    match decode_u64(slice_subrange(data, COUNT_OFFSET, COUNT_OFFSET + COUNT_LEN)) {
        Some(count) => {
            if count > usize::MAX as u64 {
                Err(Failure::Process(ProcessError::MalformedPlayersRegAccount))
            } else {
                Ok(count as usize)
            }
        },
        None => Err(Failure::Process(ProcessError::MalformedPlayersRegAccount)),
    }
}

/// Reads the number of players from a buffer that holds the header.
fn read_count(data: &[u8]) -> (count: u64)
    requires
        data@.len() >= HEAD_LEN,
    ensures
        count == players_count_of(data@),
{
    match decode_u64(slice_subrange(data, COUNT_OFFSET, COUNT_OFFSET + COUNT_LEN)) {
        Some(count) => count,
        None => 0,
    }
}

/// Counts one player more. Returns the new number.
pub fn increase_players_count(data: &mut [u8]) -> (r: Result<usize, Failure>)
    ensures
        match r {
            Ok(count) => {
                &&& old(data)@.len() >= HEAD_LEN
                &&& players_count_of(old(data)@) < usize::MAX
                &&& count == players_count_of(old(data)@) + 1
                &&& final(data)@ == with_players_count(old(data)@, count as u64)
            },
            Err(e) => {
                &&& final(data)@ == old(data)@
                &&& e == if old(data)@.len() < HEAD_LEN {
                    malformed()
                } else {
                    Failure::Process(ProcessError::CantIncreasePlayersRegAccountSize)
                }
                &&& old(data)@.len() < HEAD_LEN || players_count_of(old(data)@) >= usize::MAX
            },
        },
{
    if data.len() < HEAD_LEN {
        return Err(Failure::Process(ProcessError::MalformedPlayersRegAccount));
    }
    let count: u64 = read_count(data);
    if count >= usize::MAX as u64 {
        return Err(Failure::Process(ProcessError::CantIncreasePlayersRegAccountSize));
    }
    encode_u64(data, COUNT_OFFSET, count + 1);
    Ok((count + 1) as usize)
}

/// Counts one player less. Returns the new number.
pub fn decrease_players_count(data: &mut [u8]) -> (r: Result<usize, Failure>)
    ensures
        match r {
            Ok(count) => {
                &&& old(data)@.len() >= HEAD_LEN
                &&& 0 < players_count_of(old(data)@) <= usize::MAX
                &&& count == players_count_of(old(data)@) - 1
                &&& final(data)@ == with_players_count(old(data)@, count as u64)
            },
            Err(e) => {
                &&& final(data)@ == old(data)@
                &&& e == if old(data)@.len() < HEAD_LEN || players_count_of(old(data)@)
                    > usize::MAX {
                    malformed()
                } else {
                    Failure::Process(ProcessError::CantDecreasePlayersRegAccountSize)
                }
                &&& old(data)@.len() < HEAD_LEN || players_count_of(old(data)@) > usize::MAX
                    || players_count_of(old(data)@) == 0
            },
        },
{
    if data.len() < HEAD_LEN {
        return Err(Failure::Process(ProcessError::MalformedPlayersRegAccount));
    }
    let count: u64 = read_count(data);
    if count > usize::MAX as u64 {
        return Err(Failure::Process(ProcessError::MalformedPlayersRegAccount));
    }
    if count == 0 {
        return Err(Failure::Process(ProcessError::CantDecreasePlayersRegAccountSize));
    }
    encode_u64(data, COUNT_OFFSET, count - 1);
    Ok((count - 1) as usize)
}

/// Whether a position is taken. A position from `MAX_POSITIONS` on counts as taken.
pub fn is_position_occupied(data: &[u8], position: u16) -> (r: Result<bool, Failure>)
    ensures
        r == if data@.len() < HEAD_LEN {
            Err::<bool, Failure>(malformed())
        } else {
            Ok(position >= MAX_POSITIONS || position_flag(data@, position as int))
        },
{
    if data.len() < HEAD_LEN {
        return Err(Failure::Process(ProcessError::MalformedPlayersRegAccount));
    }
    if position >= MAX_POSITIONS {
        return Ok(true);
    }
    let i: usize = (position / 8) as usize;
    let o: u8 = (position % 8) as u8;
    let f: u8 = 1u8 << o;
    Ok(data[POSITION_FLAGS_OFFSET + i] & f != 0)
}

/// Sets or clears the flag of a position. A position from `MAX_POSITIONS` on has no
/// flag and is refused.
pub fn set_position_flag(data: &mut [u8], position: u16, flag: bool) -> (r: Result<(), Failure>)
    ensures
        match r {
            Ok(_) => {
                &&& old(data)@.len() >= HEAD_LEN
                &&& position < MAX_POSITIONS
                &&& final(data)@ == with_position_flag(old(data)@, position as int, flag)
            },
            Err(e) => {
                &&& final(data)@ == old(data)@
                &&& e == if old(data)@.len() < HEAD_LEN {
                    malformed()
                } else {
                    Failure::Process(ProcessError::InvalidPosition)
                }
                &&& old(data)@.len() < HEAD_LEN || position >= MAX_POSITIONS
            },
        },
{
    if data.len() < HEAD_LEN {
        return Err(Failure::Process(ProcessError::MalformedPlayersRegAccount));
    }
    if position >= MAX_POSITIONS {
        return Err(Failure::Process(ProcessError::InvalidPosition));
    }
    let i: usize = (position / 8) as usize;
    let o: u8 = (position % 8) as u8;
    let f: u8 = 1u8 << o;
    let b: u8 = data[POSITION_FLAGS_OFFSET + i];
    if flag {
        data[POSITION_FLAGS_OFFSET + i] = b | f;
    } else {
        data[POSITION_FLAGS_OFFSET + i] = b & !f;
    }
    Ok(())
}

/// Whether `position` is the lowest free position below `max_players`.
pub open spec fn is_lowest_free(data: Seq<u8>, max_players: u16, position: int) -> bool {
    &&& 0 <= position < max_players
    &&& position < MAX_POSITIONS
    &&& !position_flag(data, position)
    &&& forall|p: int| 0 <= p < position ==> position_flag(data, p)
}

/// The lowest free position below `max_players`, if one is free.
pub open spec fn lowest_free(data: Seq<u8>, max_players: u16) -> Option<u16> {
    if exists|p: int| is_lowest_free(data, max_players, p) {
        Some((choose|p: int| is_lowest_free(data, max_players, p)) as u16)
    } else {
        None
    }
}

/// The lowest free position below `max_players`.
pub fn get_available_position(data: &[u8], max_players: u16) -> (r: Result<u16, Failure>)
    ensures
        data@.len() >= HEAD_LEN ==> r == match lowest_free(data@, max_players) {
            Some(position) => Ok::<u16, Failure>(position),
            None => Err(Failure::Process(ProcessError::GameFullAlready)),
        },
        match r {
            Ok(position) => {
                &&& data@.len() >= HEAD_LEN
                &&& position < max_players
                &&& position < MAX_POSITIONS
                &&& !position_flag(data@, position as int)
                &&& forall|p: int| 0 <= p < position ==> position_flag(data@, p)
            },
            Err(e) => {
                &&& e == if data@.len() < HEAD_LEN {
                    malformed()
                } else {
                    Failure::Process(ProcessError::GameFullAlready)
                }
                &&& data@.len() < HEAD_LEN || forall|p: int|
                    0 <= p < max_players && p < MAX_POSITIONS ==> position_flag(data@, p)
            },
        },
{
    if data.len() < HEAD_LEN {
        return Err(Failure::Process(ProcessError::MalformedPlayersRegAccount));
    }
    let limit: u16 = if max_players < MAX_POSITIONS {
        max_players
    } else {
        MAX_POSITIONS
    };
    let mut position: u16 = 0;
    while position < limit
        invariant
            position <= limit,
            limit <= MAX_POSITIONS,
            limit <= max_players,
            data@.len() >= HEAD_LEN,
            forall|p: int| 0 <= p < position ==> position_flag(data@, p),
        decreases limit - position,
    {
        let i: usize = (position / 8) as usize;
        let o: u8 = (position % 8) as u8;
        let f: u8 = 1u8 << o;
        if data[POSITION_FLAGS_OFFSET + i] & f == 0 {
            proof {
                assert(is_lowest_free(data@, max_players, position as int));
                let k = choose|p: int| is_lowest_free(data@, max_players, p);
                if k < position {
                } else if position < k {
                }
            }
            return Ok(position);
        }
        position += 1;
    }
    assert forall|p: int| !is_lowest_free(data@, max_players, p) by {}
    Err(Failure::Process(ProcessError::GameFullAlready))
}

/// Counts one player more and sets the flag of the player's position.
pub fn increase_size_set_position_flag(data: &mut [u8], position: u16) -> (r: Result<
    (),
    Failure,
>)
    ensures
        match r {
            Ok(_) => {
                &&& old(data)@.len() >= HEAD_LEN
                &&& players_count_of(old(data)@) < usize::MAX
                &&& position < MAX_POSITIONS
                &&& final(data)@ == with_position_flag(
                    with_players_count(
                        old(data)@,
                        (players_count_of(old(data)@) + 1) as u64,
                    ),
                    position as int,
                    true,
                )
            },
            Err(e) => {
                &&& final(data)@ == old(data)@
                &&& e == if old(data)@.len() < HEAD_LEN {
                    malformed()
                } else if position >= MAX_POSITIONS {
                    Failure::Process(ProcessError::InvalidPosition)
                } else {
                    Failure::Process(ProcessError::CantIncreasePlayersRegAccountSize)
                }
                &&& old(data)@.len() < HEAD_LEN || position >= MAX_POSITIONS || players_count_of(
                    old(data)@,
                ) >= usize::MAX
            },
        },
{
    if data.len() < HEAD_LEN {
        return Err(Failure::Process(ProcessError::MalformedPlayersRegAccount));
    }
    if position >= MAX_POSITIONS {
        return Err(Failure::Process(ProcessError::InvalidPosition));
    }
    match increase_players_count(data) {
        Ok(_) => {},
        Err(e) => {
            return Err(e);
        },
    }
    match set_position_flag(data, position, true) {
        Ok(_) => Ok(()),
        Err(e) => Err(e),
    }
}

/// The number of slots, empty ones included.
pub fn get_slots_count(data: &[u8]) -> (r: Result<usize, Failure>)
    ensures
        r == if data@.len() >= HEAD_LEN {
            Ok::<usize, Failure>(slots_count_of(data@) as usize)
        } else {
            Err(malformed())
        },
{
    if data.len() < HEAD_LEN {
        return Err(Failure::Process(ProcessError::MalformedPlayersRegAccount));
    }
    match decode_u32(slice_subrange(data, SLOTS_COUNT_OFFSET, SLOTS_COUNT_OFFSET + SLOTS_COUNT_LEN)) {
        Some(count) => Ok(count as usize),
        None => Err(Failure::Process(ProcessError::MalformedPlayersRegAccount)),
    }
}

/// Counts one slot more.
pub fn increase_slots_count(data: &mut [u8]) -> (r: Result<(), Failure>)
    ensures
        match r {
            Ok(_) => {
                &&& old(data)@.len() >= HEAD_LEN
                &&& slots_count_of(old(data)@) < u32::MAX
                &&& final(data)@ == with_slots_count(
                    old(data)@,
                    (slots_count_of(old(data)@) + 1) as u32,
                )
            },
            Err(e) => {
                &&& final(data)@ == old(data)@
                &&& e == if old(data)@.len() < HEAD_LEN {
                    malformed()
                } else {
                    Failure::Process(ProcessError::CantIncreasePlayersRegAccountSize)
                }
                &&& old(data)@.len() < HEAD_LEN || slots_count_of(old(data)@) == u32::MAX
            },
        },
{
    if data.len() < HEAD_LEN {
        return Err(Failure::Process(ProcessError::MalformedPlayersRegAccount));
    }
    let count: u32 =
        match decode_u32(slice_subrange(data, SLOTS_COUNT_OFFSET, SLOTS_COUNT_OFFSET + SLOTS_COUNT_LEN)) {
        Some(count) => count,
        None => {
            return Err(Failure::Process(ProcessError::MalformedPlayersRegAccount));
        },
    };
    if count == u32::MAX {
        return Err(Failure::Process(ProcessError::CantIncreasePlayersRegAccountSize));
    }
    encode_u32(data, SLOTS_COUNT_OFFSET, count + 1);
    Ok(())
}

/// Where slot `index` begins, if the buffer holds its first `need` bytes.
fn slot_offset(data: &[u8], index: usize, need: usize) -> (r: Option<usize>)
    requires
        data@.len() >= HEAD_LEN,
        need <= PLAYER_INFO_LEN,
    ensures
        match r {
            Some(start) => start == slot_start(index as int) && start + need <= data@.len(),
            None => slot_start(index as int) + need > data@.len(),
        },
{
    let room: usize = data.len() - HEAD_LEN;
    if index > room / PLAYER_INFO_LEN {
        return None;
    }
    let offset: usize = index * PLAYER_INFO_LEN;
    if room - offset < need {
        None
    } else {
        Some(HEAD_LEN + offset)
    }
}

/// Whether the thirty-two bytes from `start` on are all zero.
fn is_zero_address(data: &[u8], start: usize) -> (r: bool)
    requires
        start + 32 <= data@.len(),
    ensures
        r == all_zero(data@.subrange(start as int, start + 32)),
{
    let n: usize = data.len();
    let mut i: usize = 0;
    while i < 32
        invariant
            i <= 32,
            n == data@.len(),
            start + 32 <= data@.len(),
            forall|k: int| start <= k < start + i ==> data@[k] == 0u8,
        decreases 32 - i,
    {
        if data[start + i] != 0 {
            assert(data@.subrange(start as int, start + 32)[i as int] == data@[start + i]);
            return false;
        }
        i += 1;
    }
    true
}

/// Reads the entry, without its key, of the slot that begins at `start`.
fn read_entry(data: &[u8], start: usize, Ghost(index): Ghost<int>) -> (entry: PlayerJoinWithoutKey)
    requires
        start == slot_start(index),
        slot_readable(data@, index),
    ensures
        is_entry_at(entry, data@, index),
{
    let n: usize = data.len();
    let addr: Address = Address::read(data, start);
    let position: u16 = match decode_u16(
        slice_subrange(data, start + POSITION_OFFSET, start + POSITION_OFFSET + POSITION_LEN),
    ) {
        Some(v) => v,
        None => 0,
    };
    let access_version: u64 = match decode_u64(
        slice_subrange(data, start + ID_OFFSET, start + ID_OFFSET + ID_LEN),
    ) {
        Some(v) => v,
        None => 0,
    };
    PlayerJoinWithoutKey { addr, position, access_version }
}

/// The player in slot `index`, if the slot exists and is taken.
pub fn get_player_by_index(data: &[u8], index: usize) -> (r: Result<
    Option<PlayerJoinWithoutKey>,
    Failure,
>)
    ensures
        match r {
            Ok(Some(entry)) => {
                &&& data@.len() >= HEAD_LEN
                &&& index < slots_count_of(data@)
                &&& slot_readable(data@, index as int)
                &&& !slot_is_empty(data@, index as int)
                &&& is_entry_at(entry, data@, index as int)
            },
            Ok(None) => {
                &&& data@.len() >= HEAD_LEN
                &&& index >= slots_count_of(data@) || (slot_readable(data@, index as int)
                    && slot_is_empty(data@, index as int))
            },
            Err(e) => {
                &&& e == malformed()
                &&& data@.len() < HEAD_LEN || (index < slots_count_of(data@) && !slot_readable(
                    data@,
                    index as int,
                ))
            },
        },
{
    if data.len() < HEAD_LEN {
        return Err(Failure::Process(ProcessError::MalformedPlayersRegAccount));
    }
    let slots_count: usize = match get_slots_count(data) {
        Ok(n) => n,
        Err(e) => {
            return Err(e);
        },
    };
    if index >= slots_count {
        return Ok(None);
    }
    match slot_offset(data, index, PLAYER_INFO_WITHOUT_KEY_LEN) {
        None => Err(Failure::Process(ProcessError::MalformedPlayersRegAccount)),
        Some(start) => {
            if is_zero_address(data, start) {
                Ok(None)
            } else {
                Ok(Some(read_entry(data, start, Ghost(index as int))))
            }
        },
    }
}

/// The bytes of slot `index` that a lookup reads: address, position and id.
pub open spec fn slot_lead(data: Seq<u8>, index: int) -> Seq<u8> {
    data.subrange(slot_start(index), slot_start(index) + 42)
}

/// Whether slot `index` is blank: every byte that a lookup reads of it is zero.
pub open spec fn slot_is_blank(data: Seq<u8>, index: int) -> bool {
    all_zero(slot_lead(data, index))
}

/// Whether slot `index` holds the player `id`: the id it stores is `id`, and the slot
/// is not blank. A blank slot stores the id zero and holds nobody.
pub open spec fn holds_id(data: Seq<u8>, index: int, id: u64) -> bool {
    slot_id(data, index) == id && !slot_is_blank(data, index)
}

/// A slot is blank when it is empty and stores the position zero and the id zero, and
/// only then. So a slot that stores an id other than zero holds that id.
pub proof fn lemma_blank_slot(data: Seq<u8>, index: int)
    requires
        slot_readable(data, index),
    ensures
        slot_is_blank(data, index) <==> slot_is_empty(data, index) && slot_position(data, index)
            == 0 && slot_id(data, index) == 0,
        forall|id: u64| id != 0 ==> holds_id(data, index, id) == (slot_id(data, index) == id),
{
    let t = slot_start(index);
    let lead = slot_lead(data, index);
    let addr = slot_addr(data, index);
    let pos = data.subrange(t + 32, t + 34);
    let idb = data.subrange(t + 34, t + 42);
    assert forall|k: int| 0 <= k < 32 implies addr[k] == lead[k] by {}
    assert forall|k: int| 0 <= k < 2 implies pos[k] == lead[32 + k] by {}
    assert forall|k: int| 0 <= k < 8 implies idb[k] == lead[34 + k] by {}
    if slot_is_empty(data, index) && slot_position(data, index) == 0 && slot_id(data, index) == 0 {
        assert forall|k: int| 0 <= k < lead.len() implies lead[k] == 0u8 by {
            if k < 32 {
                assert(addr[k] == 0u8);
            } else if k < 34 {
                assert(pos[k - 32] == lead[k]);
            } else {
                assert(idb[k - 34] == lead[k]);
            }
        }
    }
    if slot_is_blank(data, index) {
        assert(lead[32] == 0u8 && lead[33] == 0u8);
        assert(lead[34] == 0u8 && lead[35] == 0u8 && lead[36] == 0u8 && lead[37] == 0u8);
        assert(lead[38] == 0u8 && lead[39] == 0u8 && lead[40] == 0u8 && lead[41] == 0u8);
    }
}

/// Whether slot `index` is the first that holds the player `id`.
pub open spec fn found_by_id(data: Seq<u8>, id: u64, index: int) -> bool {
    &&& slot_readable(data, index)
    &&& holds_id(data, index, id)
    &&& forall|j: int| 0 <= j < index ==> !#[trigger] holds_id(data, j, id)
}

/// Whether no slot holds the player `id`, every slot that begins in the buffer being
/// readable.
pub open spec fn absent_by_id(data: Seq<u8>, id: u64) -> bool {
    forall|j: int| #[trigger] slot_begins(data, j) ==> slot_readable(data, j) && !holds_id(data, j, id)
}

/// Whether the buffer ends inside a slot before any slot that holds the player `id`
/// was met.
pub open spec fn cut_before_id(data: Seq<u8>, id: u64) -> bool {
    exists|i: int|
        {
            &&& #[trigger] slot_begins(data, i)
            &&& !slot_readable(data, i)
            &&& forall|j: int| 0 <= j < i ==> !#[trigger] holds_id(data, j, id)
        }
}

/// Scans the slots in order for a slot that holds the player.
fn scan_by_id(data: &[u8], id: u64) -> (r: Result<
    Option<(usize, PlayerJoinWithoutKey)>,
    Failure,
>)
    ensures
        match r {
            Ok(Some((index, entry))) => {
                &&& data@.len() >= HEAD_LEN
                &&& found_by_id(data@, id, index as int)
                &&& is_entry_at(entry, data@, index as int)
            },
            Ok(None) => data@.len() >= HEAD_LEN && absent_by_id(data@, id),
            Err(e) => e == malformed() && (data@.len() < HEAD_LEN || cut_before_id(data@, id)),
        },
{
    let n: usize = data.len();
    if n < HEAD_LEN {
        return Err(Failure::Process(ProcessError::MalformedPlayersRegAccount));
    }
    let mut i: usize = 0;
    let mut start: usize = HEAD_LEN;
    while start < n
        invariant
            n == data@.len(),
            n >= HEAD_LEN,
            start == slot_start(i as int),
            start <= n,
            forall|j: int| 0 <= j < i ==> slot_readable(data@, j) && !#[trigger] holds_id(data@, j, id),
        decreases n - start,
    {
        if n - start < PLAYER_INFO_WITHOUT_KEY_LEN {
            assert(slot_begins(data@, i as int));
            return Err(Failure::Process(ProcessError::MalformedPlayersRegAccount));
        }
        let entry: PlayerJoinWithoutKey = read_entry(data, start, Ghost(i as int));
        proof {
            lemma_blank_slot(data@, i as int);
        }
        if entry.access_version == id && (id != 0 || entry.position != 0 || !entry.addr.is_zero()) {
            assert(holds_id(data@, i as int, id));
            return Ok(Some((i, entry)));
        }
        assert(!holds_id(data@, i as int, id));
        if n - start <= PLAYER_INFO_LEN {
            assert forall|j: int| #[trigger] slot_begins(data@, j) implies slot_readable(data@, j)
                && !holds_id(data@, j, id) by {
                assert(j <= i);
                if j < i {
                    assert(!holds_id(data@, j, id));
                }
            }
            return Ok(None);
        }
        start += PLAYER_INFO_LEN;
        i += 1;
    }
    assert forall|j: int| #[trigger] slot_begins(data@, j) implies slot_readable(data@, j)
        && !holds_id(data@, j, id) by {
        assert(j < i);
        assert(!holds_id(data@, j, id));
    }
    Ok(None)
}

/// The first slot, in the order of the buffer, that stores the id `id`, with its index
/// and its entry. A blank slot, all zero in address, position and id, is passed over:
/// it is nobody's, though it reads as the id zero.
pub fn get_player_by_id(data: &[u8], id: u64) -> (r: Result<
    Option<(usize, PlayerJoinWithoutKey)>,
    Failure,
>)
    ensures
        match r {
            Ok(Some((index, entry))) => {
                &&& data@.len() >= HEAD_LEN
                &&& found_by_id(data@, id, index as int)
                &&& is_entry_at(entry, data@, index as int)
            },
            Ok(None) => data@.len() >= HEAD_LEN && absent_by_id(data@, id),
            Err(e) => e == malformed() && (data@.len() < HEAD_LEN || cut_before_id(data@, id)),
        },
        lookup_by_id(data@, id) == match r {
            Ok(Some((index, _))) => Ok::<Option<int>, Failure>(Some(index as int)),
            Ok(None) => Ok(None),
            Err(e) => Err(e),
        },
        id != 0 ==> match r {
            Ok(Some((index, _))) => slot_id(data@, index as int) == id && forall|j: int|
                0 <= j < index ==> #[trigger] slot_id(data@, j) != id,
            Ok(None) => forall|j: int| slot_begins(data@, j) ==> #[trigger] slot_id(data@, j) != id,
            Err(_) => true,
        },
{
    let r = scan_by_id(data, id);
    proof {
        if data@.len() >= HEAD_LEN {
            lemma_lookup_by_id(data@, id);
        }
        if id != 0 {
            match r {
                Ok(Some((index, _))) => {
                    lemma_found_is_first(data@, id, index as int);
                },
                Ok(None) => {
                    assert forall|j: int| slot_begins(data@, j) implies #[trigger] slot_id(
                        data@,
                        j,
                    ) != id by {
                        assert(slot_readable(data@, j));
                        assert(!holds_id(data@, j, id));
                        lemma_blank_slot(data@, j);
                    }
                },
                Err(_) => {},
            }
        }
    }
    r
}

/// The first slot, in the order of the buffer, whose address is `addr`, with its
/// index.
pub fn get_player_by_addr(data: &[u8], addr: &Address) -> (r: Result<
    Option<(usize, PlayerJoinWithoutKey)>,
    Failure,
>)
    ensures
        match r {
            Ok(Some((index, entry))) => {
                &&& data@.len() >= HEAD_LEN
                &&& slot_readable(data@, index as int)
                &&& slot_addr(data@, index as int) == addr@
                &&& forall|j: int| 0 <= j < index ==> slot_addr(data@, j) != addr@
                &&& is_entry_at(entry, data@, index as int)
            },
            Ok(None) => {
                &&& data@.len() >= HEAD_LEN
                &&& forall|j: int| #[trigger]
                    slot_begins(data@, j) ==> slot_readable(data@, j) && slot_addr(data@, j)
                        != addr@
            },
            Err(e) => {
                &&& e == malformed()
                &&& data@.len() < HEAD_LEN || exists|i: int|
                    {
                        &&& #[trigger] slot_begins(data@, i)
                        &&& !slot_readable(data@, i)
                        &&& forall|j: int| 0 <= j < i ==> slot_addr(data@, j) != addr@
                    }
            },
        },
{
    let n: usize = data.len();
    if n < HEAD_LEN {
        return Err(Failure::Process(ProcessError::MalformedPlayersRegAccount));
    }
    let mut i: usize = 0;
    let mut start: usize = HEAD_LEN;
    while start < n
        invariant
            n == data@.len(),
            n >= HEAD_LEN,
            start == slot_start(i as int),
            start <= n,
            forall|j: int| 0 <= j < i ==> slot_readable(data@, j) && slot_addr(data@, j) != addr@,
        decreases n - start,
    {
        if n - start < PLAYER_INFO_WITHOUT_KEY_LEN {
            assert(slot_begins(data@, i as int));
            return Err(Failure::Process(ProcessError::MalformedPlayersRegAccount));
        }
        if addr.matches(data, start) {
            let entry: PlayerJoinWithoutKey = read_entry(data, start, Ghost(i as int));
            return Ok(Some((i, entry)));
        }
        if n - start <= PLAYER_INFO_LEN {
            assert forall|j: int| #[trigger] slot_begins(data@, j) implies slot_readable(data@, j)
                && slot_addr(data@, j) != addr@ by {
                assert(j <= i);
            }
            return Ok(None);
        }
        start += PLAYER_INFO_LEN;
        i += 1;
    }
    assert forall|j: int| #[trigger] slot_begins(data@, j) implies slot_readable(data@, j)
        && slot_addr(data@, j) != addr@ by {
        assert(j < i);
    }
    Ok(None)
}

/// Whether slot `index` is counted by the header and holds the address.
pub open spec fn is_seat_of(data: Seq<u8>, addr: Seq<u8>, index: int) -> bool {
    0 <= index < slots_count_of(data) && slot_readable(data, index) && slot_addr(data, index)
        == addr
}

/// Whether a slot that the header counts cannot be read, no slot before it holding
/// the address.
pub open spec fn is_cut_before_seat(data: Seq<u8>, addr: Seq<u8>) -> bool {
    exists|i: int|
        {
            &&& 0 <= i < slots_count_of(data)
            &&& !#[trigger] slot_readable(data, i)
            &&& forall|j: int| 0 <= j < i ==> slot_addr(data, j) != addr
        }
}

/// Whether the holder of an address has joined: one of the slots that the header
/// counts holds the address. Fails on a buffer that is too short for the header or
/// for a slot that would have to be read.
pub open spec fn joined_by(data: Seq<u8>, addr: Seq<u8>) -> Result<bool, Failure> {
    if data.len() < HEAD_LEN {
        Err(malformed())
    } else if exists|i: int| is_seat_of(data, addr, i) {
        Ok(true)
    } else if is_cut_before_seat(data, addr) {
        Err(malformed())
    } else {
        Ok(false)
    }
}

/// Whether one of the slots that the header counts holds the address.
pub fn is_player_joined(data: &[u8], addr: &Address) -> (r: Result<bool, Failure>)
    ensures
        r == joined_by(data@, addr@),
        match r {
            Ok(joined) => {
                &&& data@.len() >= HEAD_LEN
                &&& joined ==> exists|i: int|
                    0 <= i < slots_count_of(data@) && slot_readable(data@, i) && #[trigger] slot_addr(
                        data@,
                        i,
                    ) == addr@
                &&& !joined ==> forall|i: int|
                    0 <= i < slots_count_of(data@) ==> slot_readable(data@, i) && #[trigger] slot_addr(
                        data@,
                        i,
                    ) != addr@
            },
            Err(e) => {
                &&& e == malformed()
                &&& data@.len() < HEAD_LEN || exists|i: int|
                    {
                        &&& 0 <= i < slots_count_of(data@)
                        &&& !#[trigger] slot_readable(data@, i)
                        &&& forall|j: int| 0 <= j < i ==> slot_addr(data@, j) != addr@
                    }
            },
        },
{
    if data.len() < HEAD_LEN {
        return Err(Failure::Process(ProcessError::MalformedPlayersRegAccount));
    }
    let slots_count: usize = match get_slots_count(data) {
        Ok(n) => n,
        Err(e) => {
            return Err(e);
        },
    };
    let mut i: usize = 0;
    while i < slots_count
        invariant
            i <= slots_count,
            slots_count == slots_count_of(data@),
            data@.len() >= HEAD_LEN,
            forall|j: int| 0 <= j < i ==> slot_readable(data@, j) && slot_addr(data@, j) != addr@,
        decreases slots_count - i,
    {
        match slot_offset(data, i, PLAYER_INFO_WITHOUT_KEY_LEN) {
            None => {
                assert(!slot_readable(data@, i as int));
                assert(is_cut_before_seat(data@, addr@));
                assert forall|k: int| is_seat_of(data@, addr@, k) implies false by {
                    if k > i {
                        assert(slot_start(k) >= slot_start(i as int));
                    }
                }
                return Err(Failure::Process(ProcessError::MalformedPlayersRegAccount));
            },
            Some(start) => {
                if addr.matches(data, start) {
                    assert(slot_addr(data@, i as int) == addr@);
                    assert(is_seat_of(data@, addr@, i as int));
                    return Ok(true);
                }
            },
        }
        i += 1;
    }
    proof {
        assert forall|k: int| is_seat_of(data@, addr@, k) implies false by {}
        if is_cut_before_seat(data@, addr@) {
            let c = choose|c: int|
                {
                    &&& 0 <= c < slots_count_of(data@)
                    &&& !#[trigger] slot_readable(data@, c)
                    &&& forall|j: int| 0 <= j < c ==> slot_addr(data@, j) != addr@
                };
            assert(false);
        }
    }
    Ok(false)
}

/// Copies `src` into `data` from `at` on.
pub(crate) fn write_bytes(data: &mut [u8], at: usize, src: &[u8])
    requires
        at + src@.len() <= old(data)@.len(),
    ensures
        final(data)@ == splice(old(data)@, at as int, src@),
{
    let n: usize = src.len();
    let total: usize = data.len();
    let mut i: usize = 0;
    while i < n
        invariant
            i <= n,
            n == src@.len(),
            total == data@.len(),
            data@.len() == old(data)@.len(),
            at + n <= total,
            forall|k: int|
                0 <= k < total ==> data@[k] == (if at <= k < at + i {
                    src@[k - at]
                } else {
                    old(data)@[k]
                }),
        decreases n - i,
    {
        data[at + i] = src[i];
        i += 1;
    }
    assert(data@ =~= splice(old(data)@, at as int, src@));
}

/// Zeroes the `len` bytes of `data` from `at` on.
fn zero_bytes(data: &mut [u8], at: usize, len: usize)
    requires
        at + len <= old(data)@.len(),
    ensures
        final(data)@ == splice(old(data)@, at as int, zeros(len as nat)),
{
    let total: usize = data.len();
    let mut i: usize = 0;
    while i < len
        invariant
            i <= len,
            total == data@.len(),
            data@.len() == old(data)@.len(),
            at + len <= total,
            forall|k: int|
                0 <= k < total ==> data@[k] == (if at <= k < at + i {
                    0u8
                } else {
                    old(data)@[k]
                }),
        decreases len - i,
    {
        data[at + i] = 0;
        i += 1;
    }
    assert(data@ =~= splice(old(data)@, at as int, zeros(len as nat)));
}

/// The parts of a stored entry, each where the layout puts it.
proof fn lemma_entry_bytes(player: PlayerJoin)
    ensures
        entry_bytes(player).len() == 46 + key_bytes(player).len(),
        forall|k: int| 0 <= k < 32 ==> entry_bytes(player)[k] == player.addr@[k],
        forall|k: int| 32 <= k < 34 ==> entry_bytes(player)[k] == le_of_u16(player.position)[k - 32],
        forall|k: int|
            34 <= k < 42 ==> entry_bytes(player)[k] == le_of_u64(player.access_version)[k - 34],
        forall|k: int|
            42 <= k < 46 ==> entry_bytes(player)[k] == le_of_u32(
                key_bytes(player).len() as u32,
            )[k - 42],
        forall|k: int|
            46 <= k < 46 + key_bytes(player).len() ==> entry_bytes(player)[k] == key_bytes(
                player,
            )[k - 46],
{
    let a = player.addr@;
    let b = le_of_u16(player.position);
    let c = le_of_u64(player.access_version);
    let d = le_of_u32(key_bytes(player).len() as u32);
    let e = key_bytes(player);
    assert(a.len() == 32);
    assert(b.len() == 2);
    assert(c.len() == 8);
    assert(d.len() == 4);
    let ab = a + b;
    let abc = ab + c;
    let abcd = abc + d;
    assert(entry_bytes(player) == abcd + e);
    assert forall|k: int| 0 <= k < 32 implies entry_bytes(player)[k] == a[k] by {
        assert(abcd[k] == abc[k]);
        assert(abc[k] == ab[k]);
    }
    assert forall|k: int| 32 <= k < 34 implies entry_bytes(player)[k] == b[k - 32] by {
        assert(abcd[k] == abc[k]);
        assert(abc[k] == ab[k]);
    }
    assert forall|k: int| 34 <= k < 42 implies entry_bytes(player)[k] == c[k - 34] by {
        assert(abcd[k] == abc[k]);
    }
    assert forall|k: int| 42 <= k < 46 implies entry_bytes(player)[k] == d[k - 42] by {
        assert(abcd[k] == d[k - 42]);
    }
}

/// Writes a player's entry at the start of the slot that begins at `start`.
fn write_entry(data: &mut [u8], start: usize, player: &PlayerJoin, key: &[u8])
    requires
        key@ == key_bytes(*player),
        key@.len() <= 124,
        start + 170 <= old(data)@.len(),
    ensures
        final(data)@ == splice(old(data)@, start as int, entry_bytes(*player)),
{
    let total: usize = data.len();
    write_bytes(data, start, player.addr.bytes.as_slice());
    let ghost d1 = data@;
    encode_u16(data, start + POSITION_OFFSET, player.position);
    let ghost d2 = data@;
    encode_u64(data, start + ID_OFFSET, player.access_version);
    let ghost d3 = data@;
    encode_u32(data, start + KEY_LEN_OFFSET, key.len() as u32);
    let ghost d4 = data@;
    write_bytes(data, start + KEY_OFFSET, key);
    proof {
        lemma_entry_bytes(*player);
        let want = splice(old(data)@, start as int, entry_bytes(*player));
        assert(data@.len() == want.len());
        assert forall|k: int| 0 <= k < want.len() implies data@[k] == want[k] by {
            if k < start || k >= start + 46 + key@.len() {
                assert(d1[k] == old(data)@[k]);
                assert(d2[k] == d1[k]);
                assert(d3[k] == d2[k]);
                assert(d4[k] == d3[k]);
            } else if k < start + 32 {
                assert(d1[k] == player.addr@[k - start]);
                assert(d2[k] == d1[k]);
                assert(d3[k] == d2[k]);
                assert(d4[k] == d3[k]);
            } else if k < start + 34 {
                assert(d2[k] == le_of_u16(player.position)[k - start - 32]);
                assert(d3[k] == d2[k]);
                assert(d4[k] == d3[k]);
            } else if k < start + 42 {
                assert(d3[k] == le_of_u64(player.access_version)[k - start - 34]);
                assert(d4[k] == d3[k]);
            } else if k < start + 46 {
                assert(d4[k] == le_of_u32(key@.len() as u32)[k - start - 42]);
            } else {
                assert(data@[k] == key@[k - start - 46]);
            }
        }
        assert(data@ =~= want);
    }
}

/// Whether `index` is the first empty slot among those the header counts, each slot
/// up to it lying whole inside the buffer.
pub open spec fn is_first_empty(data: Seq<u8>, index: int) -> bool {
    &&& 0 <= index < slots_count_of(data)
    &&& slot_fits(data, index)
    &&& slot_is_empty(data, index)
    &&& forall|j: int| 0 <= j < index ==> slot_fits(data, j) && !slot_is_empty(data, j)
}

/// Whether every slot that the header counts lies whole inside the buffer and is
/// taken.
pub open spec fn is_full(data: Seq<u8>) -> bool {
    forall|j: int| 0 <= j < slots_count_of(data) ==> slot_fits(data, j) && !slot_is_empty(data, j)
}

/// Whether a slot that the header counts sticks out of the buffer, with no empty slot
/// before it.
pub open spec fn is_cut_short(data: Seq<u8>) -> bool {
    exists|i: int|
        {
            &&& 0 <= i < slots_count_of(data)
            &&& !#[trigger] slot_fits(data, i)
            &&& forall|j: int| 0 <= j < i ==> slot_fits(data, j) && !slot_is_empty(data, j)
        }
}

/// Why a player cannot be written into an empty slot, if anything stands against it:
/// the count is at its limit, the position has no flag, or the entry is longer than
/// a slot.
pub open spec fn insert_refusal(data: Seq<u8>, player: PlayerJoin) -> Option<Failure> {
    if players_count_of(data) >= usize::MAX {
        Some(Failure::Process(ProcessError::CantIncreasePlayersRegAccountSize))
    } else if player.position >= MAX_POSITIONS {
        Some(Failure::Process(ProcessError::InvalidPosition))
    } else if KEY_OFFSET + key_bytes(player).len() > PLAYER_INFO_LEN {
        Some(Failure::BorshIoError)
    } else {
        None
    }
}

/// The registry after `player` was written into slot `index`: one player more, the
/// flag of the position set, the entry at the start of the slot.
#[verifier::opaque]
pub open spec fn inserted(data: Seq<u8>, index: int, player: PlayerJoin) -> Seq<u8> {
    splice(
        with_position_flag(
            with_players_count(data, (players_count_of(data) + 1) as u64),
            player.position as int,
            true,
        ),
        slot_start(index),
        entry_bytes(player),
    )
}

/// Writes a player into the first empty slot.
fn insert_player(data: &mut [u8], player: &PlayerJoin) -> (r: Result<Option<usize>, Failure>)
    ensures
        match r {
            Ok(Some(index)) => {
                &&& old(data)@.len() >= HEAD_LEN
                &&& is_first_empty(old(data)@, index as int)
                &&& insert_refusal(old(data)@, *player) is None
                &&& final(data)@ == inserted(old(data)@, index as int, *player)
            },
            Ok(None) => {
                &&& old(data)@.len() >= HEAD_LEN
                &&& is_full(old(data)@)
                &&& final(data)@ == old(data)@
            },
            Err(e) => {
                &&& final(data)@ == old(data)@
                &&& if old(data)@.len() < HEAD_LEN || is_cut_short(old(data)@) {
                    e == malformed()
                } else {
                    &&& exists|i: int| is_first_empty(old(data)@, i)
                    &&& insert_refusal(old(data)@, *player) == Some(e)
                }
            },
        },
{
    if data.len() < HEAD_LEN {
        return Err(Failure::Process(ProcessError::MalformedPlayersRegAccount));
    }
    let slots_count: usize = match get_slots_count(data) {
        Ok(n) => n,
        Err(e) => {
            return Err(e);
        },
    };
    let mut i: usize = 0;
    while i < slots_count
        invariant
            i <= slots_count,
            slots_count == slots_count_of(data@),
            data@ == old(data)@,
            data@.len() >= HEAD_LEN,
            forall|j: int| 0 <= j < i ==> slot_fits(data@, j) && !slot_is_empty(data@, j),
        decreases slots_count - i,
    {
        let start: usize = match slot_offset(data, i, PLAYER_INFO_LEN) {
            None => {
                assert(!slot_fits(data@, i as int));
                return Err(Failure::Process(ProcessError::MalformedPlayersRegAccount));
            },
            Some(start) => start,
        };
        if is_zero_address(data, start) {
            assert(is_first_empty(data@, i as int));
            proof {
                if is_cut_short(data@) {
                    let c = choose|c: int|
                        {
                            &&& 0 <= c < slots_count_of(data@)
                            &&& !#[trigger] slot_fits(data@, c)
                            &&& forall|j: int|
                                0 <= j < c ==> slot_fits(data@, j) && !slot_is_empty(data@, j)
                        };
                    assert(false);
                }
            }
            let count: u64 = read_count(data);
            if count >= usize::MAX as u64 {
                return Err(Failure::Process(ProcessError::CantIncreasePlayersRegAccountSize));
            }
            if player.position >= MAX_POSITIONS {
                return Err(Failure::Process(ProcessError::InvalidPosition));
            }
            let key: &[u8] = player.verify_key.as_str().as_bytes();
            if key.len() > PLAYER_INFO_LEN - KEY_OFFSET {
                return Err(Failure::BorshIoError);
            }
            assert(key@ == key_bytes(*player));
            encode_u64(data, COUNT_OFFSET, count + 1);
            let _ = set_position_flag(data, player.position, true);
            write_entry(data, start, player, key);
            proof {
                reveal(inserted);
            }
            return Ok(Some(i));
        }
        i += 1;
    }
    assert(is_full(data@));
    proof {
        if is_cut_short(data@) {
            let c = choose|c: int|
                {
                    &&& 0 <= c < slots_count_of(data@)
                    &&& !#[trigger] slot_fits(data@, c)
                    &&& forall|j: int|
                        0 <= j < c ==> slot_fits(data@, j) && !slot_is_empty(data@, j)
                };
            assert(false);
        }
    }
    Ok(None)
}

/// Adds a player to the first empty slot and returns the slot's index, or `None`
/// when every slot is taken; the caller then lets the buffer grow and tries again.
///
/// The player is then found by id in that slot, unless an earlier slot holds the
/// same id or the player is stored as a blank entry.
///
/// A player whose address is all zero is written and counted like any other, and
/// the flag of the position is set, but the slot goes on counting as empty: the next
/// player added is written over it, and a removal passes it by. Only players with
/// an address keep a well-formed registry well formed.
pub fn add_player(data: &mut [u8], player: &PlayerJoin) -> (r: Result<Option<usize>, Failure>)
    ensures
        match r {
            Ok(Some(index)) => {
                &&& old(data)@.len() >= HEAD_LEN
                &&& is_first_empty(old(data)@, index as int)
                &&& insert_refusal(old(data)@, *player) is None
                &&& final(data)@ == inserted(old(data)@, index as int, *player)
            },
            Ok(None) => {
                &&& old(data)@.len() >= HEAD_LEN
                &&& is_full(old(data)@)
                &&& final(data)@ == old(data)@
            },
            Err(e) => {
                &&& final(data)@ == old(data)@
                &&& if old(data)@.len() < HEAD_LEN || is_cut_short(old(data)@) {
                    e == malformed()
                } else {
                    &&& exists|i: int| is_first_empty(old(data)@, i)
                    &&& insert_refusal(old(data)@, *player) == Some(e)
                }
            },
        },
        is_well_formed(old(data)@) && r is Ok && !position_flag(
            old(data)@,
            player.position as int,
        ) && !all_zero(player.addr@) ==> is_well_formed(final(data)@),
        final(data)@.len() == old(data)@.len(),
        match r {
            Ok(Some(index)) => {
                &&& slot_addr(final(data)@, index as int) == player.addr@
                &&& slot_position(final(data)@, index as int) == player.position
                &&& slot_id(final(data)@, index as int) == player.access_version
                &&& position_flag(final(data)@, player.position as int)
                &&& players_count_of(final(data)@) == players_count_of(old(data)@) + 1
                &&& slot_is_empty(final(data)@, index as int) == all_zero(player.addr@)
                &&& !is_blank_player(*player) && (forall|j: int|
                    0 <= j < index ==> !#[trigger] holds_id(old(data)@, j, player.access_version))
                    ==> lookup_by_id(final(data)@, player.access_version) == Ok::<
                    Option<int>,
                    Failure,
                >(Some(index as int))
                &&& !is_blank_player(*player) && lookup_by_id(old(data)@, player.access_version)
                    == Ok::<Option<int>, Failure>(None) ==> lookup_by_id(
                    final(data)@,
                    player.access_version,
                ) == Ok::<Option<int>, Failure>(Some(index as int))
            },
            _ => true,
        },
        match after_insert(old(data)@, *player) {
            Ok((after, index)) => {
                &&& final(data)@ == after
                &&& r == match index {
                    Some(i) => Ok::<Option<usize>, Failure>(Some(i as usize)),
                    None => Ok(None),
                }
            },
            Err(e) => r == Err::<Option<usize>, Failure>(e),
        },
{
    let r = insert_player(data, player);
    proof {
        if old(data)@.len() >= HEAD_LEN {
            if exists|i: int| is_first_empty(old(data)@, i) {
                let k = choose|i: int| is_first_empty(old(data)@, i);
                lemma_first_empty(old(data)@, k);
            }
        }
        match r {
            Ok(Some(index)) => {
                lemma_first_empty(old(data)@, index as int);
                lemma_inserted(old(data)@, index as int, *player);
                if !is_blank_player(*player) && (forall|j: int|
                    0 <= j < index ==> !#[trigger] holds_id(old(data)@, j, player.access_version)) {
                    lemma_insert_then_lookup(old(data)@, index as int, *player);
                }
                if lookup_by_id(old(data)@, player.access_version) == Ok::<Option<int>, Failure>(
                    None,
                ) {
                    lemma_not_found_is_absent(old(data)@, player.access_version);
                    assert forall|j: int| 0 <= j < index implies !#[trigger] holds_id(
                        old(data)@,
                        j,
                        player.access_version,
                    ) by {
                        assert(slot_fits(old(data)@, j));
                        assert(slot_begins(old(data)@, j));
                    }
                }
                if is_well_formed(old(data)@) && !position_flag(old(data)@, player.position as int)
                    && !all_zero(player.addr@) {
                    lemma_insert_keeps_well_formed(old(data)@, index as int, *player);
                }
            },
            _ => {},
        }
    }
    r
}

/// What adding a player leaves: the registry with the player in its first empty
/// slot, with the index of the slot; the registry as it is, with no index, when every
/// slot is taken; or a failure.
pub open spec fn after_insert(data: Seq<u8>, player: PlayerJoin) -> Result<
    (Seq<u8>, Option<int>),
    Failure,
> {
    if data.len() < HEAD_LEN || is_cut_short(data) {
        Err(malformed())
    } else if exists|i: int| is_first_empty(data, i) {
        match insert_refusal(data, player) {
            Some(e) => Err(e),
            None => {
                let i = choose|i: int| is_first_empty(data, i);
                Ok((inserted(data, i, player), Some(i)))
            },
        }
    } else {
        Ok((data, None))
    }
}

/// There is one first empty slot at most, and none where every slot is taken or a
/// slot sticks out of the buffer before an empty one.
pub proof fn lemma_first_empty(data: Seq<u8>, index: int)
    requires
        is_first_empty(data, index),
    ensures
        (choose|i: int| is_first_empty(data, i)) == index,
        !is_full(data),
        !is_cut_short(data),
{
    let k = choose|i: int| is_first_empty(data, i);
    assert(is_first_empty(data, k));
    if k < index {
    } else if index < k {
    }
    if is_cut_short(data) {
        let c = choose|c: int|
            {
                &&& 0 <= c < slots_count_of(data)
                &&& !#[trigger] slot_fits(data, c)
                &&& forall|j: int| 0 <= j < c ==> slot_fits(data, j) && !slot_is_empty(data, j)
            };
        if c < index {
        } else if index < c {
        }
    }
}

/// Why a taken slot cannot be cleared, if anything stands against it: the count
/// cannot go down, or is more than this machine can count.
pub open spec fn removal_refusal(data: Seq<u8>, index: int) -> Option<Failure> {
    if players_count_of(data) > usize::MAX {
        Some(malformed())
    } else if players_count_of(data) == 0 {
        Some(Failure::Process(ProcessError::CantDecreasePlayersRegAccountSize))
    } else {
        None
    }
}

/// `data` with the flag of `position` cleared. A position from `MAX_POSITIONS` on has
/// no flag, and nothing changes.
pub open spec fn without_position_flag(data: Seq<u8>, position: int) -> Seq<u8> {
    if position < MAX_POSITIONS {
        with_position_flag(data, position, false)
    } else {
        data
    }
}

/// The registry after the player in slot `index` was removed: one player less, the
/// flag of the player's position cleared, the slot all zero.
#[verifier::opaque]
pub open spec fn removed(data: Seq<u8>, index: int) -> Seq<u8> {
    splice(
        without_position_flag(
            with_players_count(data, (players_count_of(data) - 1) as u64),
            slot_position(data, index) as int,
        ),
        slot_start(index),
        zeros(170),
    )
}

/// Clears slot `index`.
fn clear_slot(data: &mut [u8], index: usize) -> (r: Result<(), Failure>)
    ensures
        match r {
            Ok(_) => {
                &&& old(data)@.len() >= HEAD_LEN
                &&& slot_fits(old(data)@, index as int)
                &&& final(data)@ == if slot_is_empty(old(data)@, index as int) {
                    old(data)@
                } else {
                    removed(old(data)@, index as int)
                }
                &&& !slot_is_empty(old(data)@, index as int) ==> removal_refusal(
                    old(data)@,
                    index as int,
                ) is None
            },
            Err(e) => {
                &&& final(data)@ == old(data)@
                &&& if old(data)@.len() < HEAD_LEN || !slot_fits(old(data)@, index as int) {
                    e == malformed()
                } else {
                    &&& !slot_is_empty(old(data)@, index as int)
                    &&& removal_refusal(old(data)@, index as int) == Some(e)
                }
            },
        },
        match after_removal(old(data)@, index as int) {
            Ok(after) => r is Ok && final(data)@ == after,
            Err(e) => r == Err::<(), Failure>(e),
        },
{
    if data.len() < HEAD_LEN {
        return Err(Failure::Process(ProcessError::MalformedPlayersRegAccount));
    }
    let start: usize = match slot_offset(data, index, PLAYER_INFO_LEN) {
        None => {
            return Err(Failure::Process(ProcessError::MalformedPlayersRegAccount));
        },
        Some(start) => start,
    };
    if is_zero_address(data, start) {
        return Ok(());
    }
    let entry: PlayerJoinWithoutKey = read_entry(data, start, Ghost(index as int));
    let count: u64 = read_count(data);
    if count > usize::MAX as u64 {
        return Err(Failure::Process(ProcessError::MalformedPlayersRegAccount));
    }
    if count == 0 {
        return Err(Failure::Process(ProcessError::CantDecreasePlayersRegAccountSize));
    }
    encode_u64(data, COUNT_OFFSET, count - 1);
    if entry.position < MAX_POSITIONS {
        let _ = set_position_flag(data, entry.position, false);
    }
    zero_bytes(data, start, PLAYER_INFO_LEN);
    proof {
        reveal(removed);
    }
    Ok(())
}

/// A write below the slots leaves every readable slot as it was.
proof fn lemma_header_write_keeps_slots(data: Seq<u8>, after: Seq<u8>)
    requires
        after.len() == data.len(),
        forall|k: int| HEAD_LEN <= k < data.len() ==> after[k] == data[k],
    ensures
        forall|j: int| #[trigger]
            slot_readable(data, j) ==> slot_addr(after, j) == slot_addr(data, j) && slot_position(
                after,
                j,
            ) == slot_position(data, j) && slot_id(after, j) == slot_id(data, j),
{
    assert forall|j: int| #[trigger] slot_readable(data, j) implies slot_addr(after, j)
        == slot_addr(data, j) && slot_position(after, j) == slot_position(data, j) && slot_id(
        after,
        j,
    ) == slot_id(data, j) by {
        let t = slot_start(j);
        assert(after.subrange(t, t + 32) =~= data.subrange(t, t + 32));
        assert(after.subrange(t + 32, t + 34) =~= data.subrange(t + 32, t + 34));
        assert(after.subrange(t + 34, t + 42) =~= data.subrange(t + 34, t + 42));
    }
}

/// A write into one slot leaves the header and every other readable slot as they
/// were.
proof fn lemma_slot_write_keeps_rest(data: Seq<u8>, index: int, bytes: Seq<u8>)
    requires
        data.len() >= HEAD_LEN,
        slot_fits(data, index),
        bytes.len() <= 170,
    ensures
        ({
            let after = splice(data, slot_start(index), bytes);
            &&& after.len() == data.len()
            &&& forall|k: int| 0 <= k < HEAD_LEN ==> after[k] == data[k]
            &&& players_count_of(after) == players_count_of(data)
            &&& slots_count_of(after) == slots_count_of(data)
            &&& access_version_of(after) == access_version_of(data)
            &&& settle_version_of(after) == settle_version_of(data)
            &&& forall|q: int|
                0 <= q < MAX_POSITIONS ==> position_flag(after, q) == position_flag(data, q)
            &&& forall|j: int|
                j != index && #[trigger] slot_readable(data, j) ==> slot_addr(after, j)
                    == slot_addr(data, j) && slot_position(after, j) == slot_position(data, j)
                    && slot_id(after, j) == slot_id(data, j)
        }),
{
    let after = splice(data, slot_start(index), bytes);
    assert(after.subrange(16, 24) =~= data.subrange(16, 24));
    assert(after.subrange(152, 156) =~= data.subrange(152, 156));
    assert(after.subrange(0, 8) =~= data.subrange(0, 8));
    assert(after.subrange(8, 16) =~= data.subrange(8, 16));
    assert forall|j: int| j != index && #[trigger] slot_readable(data, j) implies slot_addr(
        after,
        j,
    ) == slot_addr(data, j) && slot_position(after, j) == slot_position(data, j) && slot_id(
        after,
        j,
    ) == slot_id(data, j) by {
        let t = slot_start(j);
        assert(t + 170 <= slot_start(index) || t >= slot_start(index) + 170);
        assert(after.subrange(t, t + 32) =~= data.subrange(t, t + 32));
        assert(after.subrange(t + 32, t + 34) =~= data.subrange(t + 32, t + 34));
        assert(after.subrange(t + 34, t + 42) =~= data.subrange(t + 34, t + 42));
    }
}

/// What a change of the count and of one flag does to the header.
proof fn lemma_header_change(data: Seq<u8>, count: u64, position: int, flag: bool)
    requires
        data.len() >= HEAD_LEN,
        0 <= position < MAX_POSITIONS,
    ensures
        ({
            let after = with_position_flag(with_players_count(data, count), position, flag);
            &&& after.len() == data.len()
            &&& forall|k: int| HEAD_LEN <= k < data.len() ==> after[k] == data[k]
            &&& players_count_of(after) == count
            &&& slots_count_of(after) == slots_count_of(data)
            &&& access_version_of(after) == access_version_of(data)
            &&& settle_version_of(after) == settle_version_of(data)
            &&& forall|q: int|
                0 <= q < MAX_POSITIONS ==> position_flag(after, q) == (if q == position {
                    flag
                } else {
                    position_flag(data, q)
                })
        }),
{
    let d1 = with_players_count(data, count);
    let after = with_position_flag(d1, position, flag);
    crate::codec::lemma_u64_round_trip(count);
    assert(after.subrange(16, 24) =~= le_of_u64(count));
    assert(after.subrange(152, 156) =~= data.subrange(152, 156));
    assert(after.subrange(0, 8) =~= data.subrange(0, 8));
    assert(after.subrange(8, 16) =~= data.subrange(8, 16));
    assert forall|q: int| 0 <= q < MAX_POSITIONS implies position_flag(after, q) == (if q
        == position {
        flag
    } else {
        position_flag(data, q)
    }) by {
        lemma_flag_after_write(d1, position, flag, q);
        assert(d1[flag_index(q)] == data[flag_index(q)]);
    }
}

/// Removes the player in slot `index`. Nothing happens when the slot is empty.
pub fn remove_player_by_index(data: &mut [u8], index: usize) -> (r: Result<(), Failure>)
    ensures
        match r {
            Ok(_) => {
                &&& old(data)@.len() >= HEAD_LEN
                &&& slot_fits(old(data)@, index as int)
                &&& final(data)@ == if slot_is_empty(old(data)@, index as int) {
                    old(data)@
                } else {
                    removed(old(data)@, index as int)
                }
                &&& !slot_is_empty(old(data)@, index as int) ==> removal_refusal(
                    old(data)@,
                    index as int,
                ) is None
            },
            Err(e) => {
                &&& final(data)@ == old(data)@
                &&& if old(data)@.len() < HEAD_LEN || !slot_fits(old(data)@, index as int) {
                    e == malformed()
                } else {
                    &&& !slot_is_empty(old(data)@, index as int)
                    &&& removal_refusal(old(data)@, index as int) == Some(e)
                }
            },
        },
        match after_removal(old(data)@, index as int) {
            Ok(after) => r is Ok && final(data)@ == after,
            Err(e) => r == Err::<(), Failure>(e),
        },
        is_well_formed(old(data)@) && index < slots_count_of(old(data)@) ==> r is Ok
            && is_well_formed(final(data)@),
        final(data)@.len() == old(data)@.len(),
{
    let r = clear_slot(data, index);
    proof {
        if r is Ok && !slot_is_empty(old(data)@, index as int) {
            lemma_removed(old(data)@, index as int);
        }
        if is_well_formed(old(data)@) && index < slots_count_of(old(data)@) {
            assert(slot_fits(old(data)@, index as int));
            if !slot_is_empty(old(data)@, index as int) {
                lemma_remove_keeps_well_formed(old(data)@, index as int);
            }
        }
    }
    r
}

/// What other versions leave as it was: the counts, every flag and every readable
/// slot.
pub proof fn lemma_with_versions(data: Seq<u8>, access_version: u64, settle_version: u64)
    requires
        data.len() >= HEAD_LEN,
    ensures
        ({
            let after = with_versions(data, access_version, settle_version);
            &&& after.len() == data.len()
            &&& access_version_of(after) == access_version
            &&& settle_version_of(after) == settle_version
            &&& players_count_of(after) == players_count_of(data)
            &&& slots_count_of(after) == slots_count_of(data)
            &&& forall|q: int|
                0 <= q < MAX_POSITIONS ==> position_flag(after, q) == position_flag(data, q)
            &&& forall|j: int| #[trigger]
                slot_readable(data, j) ==> slot_addr(after, j) == slot_addr(data, j)
                    && slot_position(after, j) == slot_position(data, j) && slot_id(after, j)
                    == slot_id(data, j)
        }),
{
    let first = splice(data, 0, le_of_u64(access_version));
    let after = with_versions(data, access_version, settle_version);
    crate::codec::lemma_u64_round_trip(access_version);
    crate::codec::lemma_u64_round_trip(settle_version);
    assert(after.subrange(0, 8) =~= le_of_u64(access_version));
    assert(after.subrange(8, 16) =~= le_of_u64(settle_version));
    assert(after.subrange(16, 24) =~= data.subrange(16, 24));
    assert(after.subrange(152, 156) =~= data.subrange(152, 156));
    assert forall|k: int| 16 <= k < data.len() implies after[k] == data[k] by {
        assert(first[k] == data[k]);
    }
    lemma_header_write_keeps_slots(data, after);
}

/// What holds of a registry right after a player was written into slot `index`: the
/// slot holds the player's address, position and id, the flag of the position is
/// set, one player more is counted, and every other flag and readable slot is as
/// before.
pub proof fn lemma_inserted(data: Seq<u8>, index: int, player: PlayerJoin)
    requires
        data.len() >= HEAD_LEN,
        slot_fits(data, index),
        insert_refusal(data, player) is None,
    ensures
        ({
            let after = inserted(data, index, player);
            &&& after.len() == data.len()
            &&& slot_addr(after, index) == player.addr@
            &&& slot_position(after, index) == player.position
            &&& slot_id(after, index) == player.access_version
            &&& position_flag(after, player.position as int)
            &&& players_count_of(after) == players_count_of(data) + 1
            &&& slots_count_of(after) == slots_count_of(data)
            &&& access_version_of(after) == access_version_of(data)
            &&& settle_version_of(after) == settle_version_of(data)
            &&& forall|q: int|
                0 <= q < MAX_POSITIONS && q != player.position ==> position_flag(after, q)
                    == position_flag(data, q)
            &&& forall|j: int|
                j != index && #[trigger] slot_readable(data, j) ==> slot_addr(after, j)
                    == slot_addr(data, j) && slot_position(after, j) == slot_position(data, j)
                    && slot_id(after, j) == slot_id(data, j)
        }),
{
    reveal(inserted);
    let count = (players_count_of(data) + 1) as u64;
    let d2 = with_position_flag(with_players_count(data, count), player.position as int, true);
    let after = inserted(data, index, player);
    let s = slot_start(index);
    lemma_entry_bytes(player);
    lemma_header_change(data, count, player.position as int, true);
    lemma_header_write_keeps_slots(data, d2);
    lemma_slot_write_keeps_rest(d2, index, entry_bytes(player));
    assert(slot_addr(after, index) == player.addr@) by {
        lemma_entry_bytes(player);
        assert(after.subrange(s, s + 32) =~= player.addr@);
    }
    assert(slot_position(after, index) == player.position) by {
        lemma_entry_bytes(player);
        crate::codec::lemma_u16_round_trip(player.position);
        assert(after.subrange(s + 32, s + 34) =~= le_of_u16(player.position));
    }
    assert(slot_id(after, index) == player.access_version) by {
        lemma_entry_bytes(player);
        crate::codec::lemma_u64_round_trip(player.access_version);
        assert(after.subrange(s + 34, s + 42) =~= le_of_u64(player.access_version));
    }
    assert forall|j: int| j != index && #[trigger] slot_readable(data, j) implies slot_addr(
        after,
        j,
    ) == slot_addr(data, j) && slot_position(after, j) == slot_position(data, j) && slot_id(
        after,
        j,
    ) == slot_id(data, j) by {
        assert(slot_readable(d2, j));
    }
}

/// Whether a player is stored as a blank entry: address, position and id all zero.
pub open spec fn is_blank_player(player: PlayerJoin) -> bool {
    all_zero(player.addr@) && player.position == 0 && player.access_version == 0
}

/// Insert, then look up: a player written into slot `index` is what a lookup by the
/// player's id finds, unless an earlier slot holds the same id or the player is
/// stored as a blank entry. The lookup can then neither miss nor fail, the entry it
/// returns is the player without the key, and the flag of the position is set.
pub proof fn lemma_insert_then_lookup(data: Seq<u8>, index: int, player: PlayerJoin)
    requires
        data.len() >= HEAD_LEN,
        slot_fits(data, index),
        insert_refusal(data, player) is None,
        !is_blank_player(player),
        forall|j: int| 0 <= j < index ==> !#[trigger] holds_id(data, j, player.access_version),
    ensures
        ({
            let after = inserted(data, index, player);
            &&& found_by_id(after, player.access_version, index)
            &&& !absent_by_id(after, player.access_version)
            &&& !cut_before_id(after, player.access_version)
            &&& forall|i: int| found_by_id(after, player.access_version, i) ==> i == index
            &&& forall|entry: PlayerJoinWithoutKey| #[trigger]
                is_entry_at(entry, after, index) ==> entry == (PlayerJoinWithoutKey {
                    addr: player.addr,
                    position: player.position,
                    access_version: player.access_version,
                })
            &&& position_flag(after, player.position as int)
            &&& lookup_by_id(after, player.access_version) == Ok::<Option<int>, Failure>(
                Some(index),
            )
        }),
{
    let after = inserted(data, index, player);
    let id = player.access_version;
    lemma_inserted(data, index, player);
    assert forall|j: int| 0 <= j < index implies !#[trigger] holds_id(after, j, id) by {
        assert(slot_readable(data, j));
        assert(slot_readable(after, j));
        assert(!holds_id(data, j, id));
        lemma_blank_slot(data, j);
        lemma_blank_slot(after, j);
    }
    lemma_blank_slot(after, index);
    assert(holds_id(after, index, id));
    assert(found_by_id(after, id, index));
    lemma_lookup_by_id(after, id);
    assert(slot_begins(after, index));
    if cut_before_id(after, id) {
        let c = choose|c: int|
            {
                &&& #[trigger] slot_begins(after, c)
                &&& !slot_readable(after, c)
                &&& forall|j: int| 0 <= j < c ==> !#[trigger] holds_id(after, j, id)
            };
        assert(c > index);
        assert(false);
    }
    assert forall|entry: PlayerJoinWithoutKey| #[trigger]
        is_entry_at(entry, after, index) implies entry == (PlayerJoinWithoutKey {
        addr: player.addr,
        position: player.position,
        access_version: player.access_version,
    }) by {
        crate::address::lemma_address_ext(entry.addr, player.addr);
    }
}

/// What a lookup by id answers: the index of the first slot that holds the id, `None`
/// when no slot holds it, or a failure on a buffer that is too short or ends inside a
/// slot before the id was met.
pub open spec fn lookup_by_id(data: Seq<u8>, id: u64) -> Result<Option<int>, Failure> {
    if data.len() < HEAD_LEN || cut_before_id(data, id) {
        Err(malformed())
    } else if exists|i: int| found_by_id(data, id, i) {
        Ok(Some(choose|i: int| found_by_id(data, id, i)))
    } else {
        Ok(None)
    }
}

/// What removing the player in slot `index` leaves: the registry without the
/// player, the registry as it is when the slot is empty, or a failure.
pub open spec fn after_removal(data: Seq<u8>, index: int) -> Result<Seq<u8>, Failure> {
    if data.len() < HEAD_LEN || !slot_fits(data, index) {
        Err(malformed())
    } else if slot_is_empty(data, index) {
        Ok(data)
    } else {
        match removal_refusal(data, index) {
            Some(e) => Err(e),
            None => Ok(removed(data, index)),
        }
    }
}

/// The three answers of a lookup by id exclude one another, and an id is found in
/// one slot at most.
pub proof fn lemma_lookup_by_id(data: Seq<u8>, id: u64)
    requires
        data.len() >= HEAD_LEN,
    ensures
        forall|i: int| found_by_id(data, id, i) ==> lookup_by_id(data, id) == Ok::<
            Option<int>,
            Failure,
        >(Some(i)),
        absent_by_id(data, id) ==> lookup_by_id(data, id) == Ok::<Option<int>, Failure>(None),
        cut_before_id(data, id) ==> lookup_by_id(data, id) == Err::<Option<int>, Failure>(
            malformed(),
        ),
{
    if cut_before_id(data, id) {
        let c = choose|c: int|
            {
                &&& #[trigger] slot_begins(data, c)
                &&& !slot_readable(data, c)
                &&& forall|j: int| 0 <= j < c ==> !#[trigger] holds_id(data, j, id)
            };
        assert forall|i: int| found_by_id(data, id, i) implies false by {
            if i < c {
            } else {
                assert(slot_start(i) >= slot_start(c));
            }
        }
        if absent_by_id(data, id) {
            assert(slot_readable(data, c));
        }
    } else {
        assert forall|i: int| found_by_id(data, id, i) implies lookup_by_id(data, id) == Ok::<
            Option<int>,
            Failure,
        >(Some(i)) by {
            let k = choose|k: int| found_by_id(data, id, k);
            assert(found_by_id(data, id, k));
            if k < i {
            } else if i < k {
            }
        }
        if absent_by_id(data, id) {
            assert forall|i: int| found_by_id(data, id, i) implies false by {
                assert(slot_begins(data, i));
            }
        }
    }
}

/// Where a lookup by id answers `None`, no slot that begins in the buffer holds the
/// id.
pub proof fn lemma_not_found_is_absent(data: Seq<u8>, id: u64)
    requires
        lookup_by_id(data, id) == Ok::<Option<int>, Failure>(None),
    ensures
        forall|j: int| #[trigger] slot_begins(data, j) ==> slot_readable(data, j) && !holds_id(data, j, id),
{
    if exists|j: int| slot_begins(data, j) && !(slot_readable(data, j) && !holds_id(data, j, id)) {
        let w = choose|j: int| slot_begins(data, j) && !(slot_readable(data, j) && !holds_id(data, j, id));
        lemma_first_hold(data, id, w);
    }
}

/// Among the slots up to `bound`, if one holds the id or is cut, the lookup does not
/// answer `None`.
proof fn lemma_first_hold(data: Seq<u8>, id: u64, bound: int)
    requires
        data.len() >= HEAD_LEN,
        slot_begins(data, bound),
        !slot_readable(data, bound) || holds_id(data, bound, id),
    ensures
        lookup_by_id(data, id) != Ok::<Option<int>, Failure>(None),
    decreases bound,
{
    if exists|j: int| 0 <= j < bound && holds_id(data, j, id) {
        let j = choose|j: int| 0 <= j < bound && holds_id(data, j, id);
        assert(slot_start(j) < slot_start(bound));
        lemma_first_hold(data, id, j);
    } else if !slot_readable(data, bound) {
        assert(cut_before_id(data, id));
    } else {
        assert(found_by_id(data, id, bound));
    }
}

/// Whether the buffer holds the header and does not end inside the entry of a slot.
pub open spec fn is_uncut(data: Seq<u8>) -> bool {
    &&& data.len() >= HEAD_LEN
    &&& forall|j: int| #[trigger] slot_begins(data, j) ==> slot_readable(data, j)
}

/// A player whom no slot holds is not found: on a buffer that is not cut, the lookup
/// by the player's id answers `None`. For the id zero that is so although the blank
/// slots store it.
pub proof fn lemma_absent_is_not_found(data: Seq<u8>, id: u64)
    requires
        is_uncut(data),
        forall|j: int| slot_readable(data, j) ==> !#[trigger] holds_id(data, j, id),
    ensures
        lookup_by_id(data, id) == Ok::<Option<int>, Failure>(None),
{
    assert forall|j: int| #[trigger] slot_begins(data, j) implies slot_readable(data, j)
        && !holds_id(data, j, id) by {
        assert(slot_readable(data, j));
        assert(!holds_id(data, j, id));
    }
    lemma_lookup_by_id(data, id);
}

/// The slot that a lookup by id answers with is the first that stores the id and is
/// not blank; for an id other than zero, the first that stores the id.
pub proof fn lemma_found_is_first(data: Seq<u8>, id: u64, index: int)
    requires
        lookup_by_id(data, id) == Ok::<Option<int>, Failure>(Some(index)),
    ensures
        slot_readable(data, index),
        slot_id(data, index) == id,
        !slot_is_blank(data, index),
        forall|j: int| 0 <= j < index ==> slot_readable(data, j),
        id != 0 ==> forall|j: int| 0 <= j < index ==> #[trigger] slot_id(data, j) != id,
{
    let k = choose|i: int| found_by_id(data, id, i);
    assert(found_by_id(data, id, k));
    assert forall|j: int| 0 <= j < index implies slot_readable(data, j) by {
        assert(slot_start(j) + 42 <= slot_start(index));
    }
    if id != 0 {
        assert forall|j: int| 0 <= j < index implies #[trigger] slot_id(data, j) != id by {
            assert(slot_start(j) + 42 <= slot_start(index));
            assert(slot_readable(data, j));
            assert(!holds_id(data, j, id));
            lemma_blank_slot(data, j);
        }
    }
}

/// On a buffer that is not cut, an id other than zero is found in the first slot that
/// stores it, and is not found where no slot stores it.
pub proof fn lemma_lookup_goes_by_the_id(data: Seq<u8>, id: u64)
    requires
        is_uncut(data),
        id != 0,
    ensures
        forall|i: int|
            #![trigger slot_readable(data, i)]
            slot_readable(data, i) && slot_id(data, i) == id && (forall|j: int|
                0 <= j < i ==> #[trigger] slot_id(data, j) != id) ==> lookup_by_id(data, id)
                == Ok::<Option<int>, Failure>(Some(i)),
        (forall|j: int| slot_readable(data, j) ==> #[trigger] slot_id(data, j) != id)
            ==> lookup_by_id(data, id) == Ok::<Option<int>, Failure>(None),
{
    lemma_lookup_by_id(data, id);
    assert forall|i: int|
        #![trigger slot_readable(data, i)]
        slot_readable(data, i) && slot_id(data, i) == id && (forall|j: int|
            0 <= j < i ==> #[trigger] slot_id(data, j) != id) implies lookup_by_id(data, id)
        == Ok::<Option<int>, Failure>(Some(i)) by {
        lemma_blank_slot(data, i);
        assert forall|j: int| 0 <= j < i implies !#[trigger] holds_id(data, j, id) by {
            assert(slot_id(data, j) != id);
        }
        assert(found_by_id(data, id, i));
    }
    if forall|j: int| slot_readable(data, j) ==> #[trigger] slot_id(data, j) != id {
        assert forall|j: int| #[trigger] slot_begins(data, j) implies slot_readable(data, j)
            && !holds_id(data, j, id) by {
            assert(slot_readable(data, j));
            assert(slot_id(data, j) != id);
        }
    }
}

/// What holds of a registry right after the player in a taken slot was removed: the
/// slot is empty and blank, so that removing again changes nothing; the flag of the
/// position the slot held is clear, if the position has a flag; one player less is
/// counted; every other flag and readable slot is as before.
pub proof fn lemma_removed(data: Seq<u8>, index: int)
    requires
        data.len() >= HEAD_LEN,
        slot_fits(data, index),
        removal_refusal(data, index) is None,
    ensures
        ({
            let after = removed(data, index);
            &&& after.len() == data.len()
            &&& slot_is_empty(after, index)
            &&& slot_is_blank(after, index)
            &&& slot_position(data, index) < MAX_POSITIONS ==> !position_flag(
                after,
                slot_position(data, index) as int,
            )
            &&& players_count_of(after) == players_count_of(data) - 1
            &&& slots_count_of(after) == slots_count_of(data)
            &&& access_version_of(after) == access_version_of(data)
            &&& settle_version_of(after) == settle_version_of(data)
            &&& forall|q: int|
                0 <= q < MAX_POSITIONS && q != slot_position(data, index) ==> position_flag(after, q)
                    == position_flag(data, q)
            &&& forall|j: int|
                j != index && #[trigger] slot_readable(data, j) ==> slot_addr(after, j)
                    == slot_addr(data, j) && slot_position(after, j) == slot_position(data, j)
                    && slot_id(after, j) == slot_id(data, j)
        }),
{
    reveal(removed);
    let count = (players_count_of(data) - 1) as u64;
    let pos = slot_position(data, index) as int;
    let d1 = with_players_count(data, count);
    let d2 = without_position_flag(d1, pos);
    let after = removed(data, index);
    if pos < MAX_POSITIONS {
        lemma_header_change(data, count, pos, false);
    } else {
        crate::codec::lemma_u64_round_trip(count);
        assert(d1.subrange(16, 24) =~= le_of_u64(count));
        assert(d1.subrange(152, 156) =~= data.subrange(152, 156));
        assert(d1.subrange(0, 8) =~= data.subrange(0, 8));
        assert(d1.subrange(8, 16) =~= data.subrange(8, 16));
    }
    lemma_header_write_keeps_slots(data, d2);
    lemma_slot_write_keeps_rest(d2, index, zeros(170));
    assert forall|j: int| j != index && #[trigger] slot_readable(data, j) implies slot_addr(
        after,
        j,
    ) == slot_addr(data, j) && slot_position(after, j) == slot_position(data, j) && slot_id(
        after,
        j,
    ) == slot_id(data, j) by {
        assert(slot_readable(d2, j));
    }
}

/// Insert, then remove: a player with an address other than zero, written into slot
/// `index` and removed again, leaves the flag of the position clear, the slot empty
/// and the count as it was before the two.
pub proof fn lemma_insert_then_remove(data: Seq<u8>, index: int, player: PlayerJoin)
    requires
        data.len() >= HEAD_LEN,
        slot_fits(data, index),
        insert_refusal(data, player) is None,
        !all_zero(player.addr@),
    ensures
        ({
            let taken = inserted(data, index, player);
            let after = removed(taken, index);
            &&& !slot_is_empty(taken, index)
            &&& removal_refusal(taken, index) is None
            &&& !position_flag(after, player.position as int)
            &&& slot_is_empty(after, index)
            &&& players_count_of(after) == players_count_of(data)
        }),
{
    lemma_inserted(data, index, player);
    lemma_removed(inserted(data, index, player), index);
}

} // verus!
