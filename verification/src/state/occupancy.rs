//! The invariant of the players registry: as many players are counted as slots are
//! taken and as positions are flagged.
use crate::address::all_zero;
use crate::state::game::PlayerJoin;
use crate::state::players::{
    after_removal, insert_refusal, inserted, is_first_empty, lemma_blank_slot, lemma_inserted,
    lemma_removed, lemma_with_versions, players_count_of, position_flag, removal_refusal, removed,
    slot_fits, slot_is_blank, slot_is_empty, slot_position, slot_readable, slots_count_of,
    with_versions, HEAD_LEN, MAX_POSITIONS,
};
use vstd::prelude::*;
use vstd::set_lib::{lemma_int_range, lemma_len_subset, set_int_range};

verus! {

/// The slots that are taken, among those the header counts.
pub open spec fn taken_slots(data: Seq<u8>) -> Set<int> {
    Set::new(|i: int| 0 <= i < slots_count_of(data) && !slot_is_empty(data, i))
}

/// The positions whose flag is set.
pub open spec fn flagged_positions(data: Seq<u8>) -> Set<int> {
    Set::new(|p: int| 0 <= p < MAX_POSITIONS && position_flag(data, p))
}

/// Whether every slot that the header counts lies inside the buffer.
pub open spec fn slots_lie_inside(data: Seq<u8>) -> bool {
    forall|i: int| 0 <= i < slots_count_of(data) ==> #[trigger] slot_fits(data, i)
}

/// Whether every taken slot holds a position whose flag is set.
pub open spec fn positions_are_flagged(data: Seq<u8>) -> bool {
    forall|i: int| #[trigger]
        taken_slots(data).contains(i) ==> slot_position(data, i) < MAX_POSITIONS && position_flag(
            data,
            slot_position(data, i) as int,
        )
}

/// Whether no two taken slots hold the same position.
pub open spec fn positions_are_distinct(data: Seq<u8>) -> bool {
    forall|i: int, j: int|
        #[trigger] taken_slots(data).contains(i) && #[trigger] taken_slots(data).contains(j) && i
            != j ==> slot_position(data, i) != slot_position(data, j)
}

/// Whether a registry is well formed. The header and every slot it counts lie inside
/// the buffer. The number of players is the number of taken slots and the number of
/// flagged positions. Every taken slot holds a position whose flag is set, and no
/// two taken slots hold the same position.
pub open spec fn is_well_formed(data: Seq<u8>) -> bool {
    &&& data.len() >= HEAD_LEN
    &&& slots_lie_inside(data)
    &&& players_count_of(data) == taken_slots(data).len()
    &&& players_count_of(data) == flagged_positions(data).len()
    &&& positions_are_flagged(data)
    &&& positions_are_distinct(data)
}

/// The two sets are finite.
pub proof fn lemma_sets_are_finite(data: Seq<u8>)
    ensures
        taken_slots(data).finite(),
        flagged_positions(data).finite(),
        taken_slots(data).len() <= slots_count_of(data),
        flagged_positions(data).len() <= MAX_POSITIONS,
{
    lemma_int_range(0, slots_count_of(data) as int);
    lemma_len_subset(taken_slots(data), set_int_range(0, slots_count_of(data) as int));
    lemma_int_range(0, MAX_POSITIONS as int);
    lemma_len_subset(flagged_positions(data), set_int_range(0, MAX_POSITIONS as int));
}

/// A header of zeros is a well-formed registry without slots.
pub proof fn lemma_fresh_is_well_formed(data: Seq<u8>)
    requires
        data.len() == HEAD_LEN,
        all_zero(data),
    ensures
        is_well_formed(data),
        players_count_of(data) == 0,
        slots_count_of(data) == 0,
{
    crate::codec::lemma_le_zero(data.subrange(16, 24));
    crate::codec::lemma_le_zero(data.subrange(152, 156));
    assert(taken_slots(data) =~= Set::empty());
    assert forall|p: int| 0 <= p < MAX_POSITIONS implies !position_flag(data, p) by {
        let o: u8 = (p % 8) as u8;
        assert(0u8 & (1u8 << o) == 0) by (bit_vector);
    }
    assert(flagged_positions(data) =~= Set::empty());
}

/// Other versions leave a registry well formed.
pub proof fn lemma_versions_keep_well_formed(data: Seq<u8>, access_version: u64, settle_version: u64)
    requires
        is_well_formed(data),
    ensures
        is_well_formed(with_versions(data, access_version, settle_version)),
        players_count_of(with_versions(data, access_version, settle_version)) == players_count_of(
            data,
        ),
{
    let after = with_versions(data, access_version, settle_version);
    lemma_with_versions(data, access_version, settle_version);
    assert forall|i: int| 0 <= i < slots_count_of(data) implies slot_is_empty(after, i)
        == slot_is_empty(data, i) && slot_position(after, i) == slot_position(data, i) by {
        assert(slot_fits(data, i));
        assert(slot_readable(data, i));
    }
    assert(taken_slots(after) =~= taken_slots(data));
    assert(flagged_positions(after) =~= flagged_positions(data));
    assert(slots_lie_inside(after)) by {
        assert forall|i: int| 0 <= i < slots_count_of(after) implies #[trigger] slot_fits(
            after,
            i,
        ) by {
            assert(slot_fits(data, i));
        }
    }
    assert(positions_are_flagged(after)) by {
        assert forall|i: int| #[trigger] taken_slots(after).contains(i) implies slot_position(
            after,
            i,
        ) < MAX_POSITIONS && position_flag(after, slot_position(after, i) as int) by {
            assert(taken_slots(data).contains(i));
        }
    }
    assert(positions_are_distinct(after)) by {
        assert forall|i: int, j: int|
            #[trigger] taken_slots(after).contains(i) && #[trigger] taken_slots(after).contains(j)
                && i != j implies slot_position(after, i) != slot_position(after, j) by {
            assert(taken_slots(data).contains(i));
            assert(taken_slots(data).contains(j));
        }
    }
}

/// Insert keeps a registry well formed: a player with an address other than zero,
/// written into the first empty slot at a position whose flag is clear, leaves the
/// registry well formed with one player more.
pub proof fn lemma_insert_keeps_well_formed(data: Seq<u8>, index: int, player: PlayerJoin)
    requires
        is_well_formed(data),
        is_first_empty(data, index),
        insert_refusal(data, player) is None,
        !position_flag(data, player.position as int),
        !all_zero(player.addr@),
    ensures
        is_well_formed(inserted(data, index, player)),
        taken_slots(inserted(data, index, player)) == taken_slots(data).insert(index),
        flagged_positions(inserted(data, index, player)) == flagged_positions(data).insert(
            player.position as int,
        ),
{
    let after = inserted(data, index, player);
    let p = player.position as int;
    lemma_inserted(data, index, player);
    lemma_sets_are_finite(data);
    assert forall|i: int| 0 <= i < slots_count_of(data) implies slot_is_empty(after, i) == (i
        != index && slot_is_empty(data, i)) && (i != index ==> slot_position(after, i)
        == slot_position(data, i)) by {
        assert(slot_fits(data, i));
        assert(slot_readable(data, i));
    }
    assert(taken_slots(after) =~= taken_slots(data).insert(index));
    assert(flagged_positions(after) =~= flagged_positions(data).insert(p));
    assert(!taken_slots(data).contains(index));
    assert(!flagged_positions(data).contains(p));
    assert(slots_lie_inside(after)) by {
        assert forall|i: int| 0 <= i < slots_count_of(after) implies #[trigger] slot_fits(
            after,
            i,
        ) by {
            assert(slot_fits(data, i));
        }
    }
    assert(positions_are_flagged(after)) by {
        assert forall|i: int| #[trigger] taken_slots(after).contains(i) implies slot_position(
            after,
            i,
        ) < MAX_POSITIONS && position_flag(after, slot_position(after, i) as int) by {
            if i != index {
                assert(taken_slots(data).contains(i));
            }
        }
    }
    assert(positions_are_distinct(after)) by {
        assert forall|i: int, j: int|
            #[trigger] taken_slots(after).contains(i) && #[trigger] taken_slots(after).contains(j)
                && i != j implies slot_position(after, i) != slot_position(after, j) by {
            if i != index {
                assert(taken_slots(data).contains(i));
            }
            if j != index {
                assert(taken_slots(data).contains(j));
            }
        }
    }
}

/// A player without an address is written and counted, but takes no slot: written
/// into the first empty slot, a player whose address is all zero leaves that slot
/// the first empty one, with one player more counted. In a well-formed registry
/// the taken slots are as they were, so that it is well formed no longer.
pub proof fn lemma_insert_of_zero_address(data: Seq<u8>, index: int, player: PlayerJoin)
    requires
        data.len() >= HEAD_LEN,
        is_first_empty(data, index),
        insert_refusal(data, player) is None,
        all_zero(player.addr@),
    ensures
        is_first_empty(inserted(data, index, player), index),
        players_count_of(inserted(data, index, player)) == players_count_of(data) + 1,
        is_well_formed(data) ==> taken_slots(inserted(data, index, player)) == taken_slots(data)
            && !is_well_formed(inserted(data, index, player)),
{
    let after = inserted(data, index, player);
    lemma_inserted(data, index, player);
    assert forall|i: int| 0 <= i < index implies slot_fits(after, i) && !slot_is_empty(
        after,
        i,
    ) by {
        assert(slot_fits(data, i));
        assert(slot_readable(data, i));
    }
    assert forall|i: int| 0 <= i < slots_count_of(data) && slot_fits(data, i) implies slot_is_empty(
        after,
        i,
    ) == slot_is_empty(data, i) by {
        assert(slot_readable(data, i));
    }
    if is_well_formed(data) {
        assert forall|i: int| 0 <= i < slots_count_of(data) implies slot_is_empty(after, i)
            == slot_is_empty(data, i) by {
            assert(slot_fits(data, i));
        }
        assert(taken_slots(after) =~= taken_slots(data));
    }
}

/// Remove keeps a registry well formed: removing the player in a taken slot of a
/// well-formed registry cannot fail, and leaves the registry well formed with one
/// player less.
pub proof fn lemma_remove_keeps_well_formed(data: Seq<u8>, index: int)
    requires
        is_well_formed(data),
        0 <= index < slots_count_of(data),
        !slot_is_empty(data, index),
    ensures
        removal_refusal(data, index) is None,
        is_well_formed(removed(data, index)),
        taken_slots(removed(data, index)) == taken_slots(data).remove(index),
        flagged_positions(removed(data, index)) == flagged_positions(data).remove(
            slot_position(data, index) as int,
        ),
{
    let q = slot_position(data, index) as int;
    lemma_sets_are_finite(data);
    assert(taken_slots(data).contains(index));
    assert(taken_slots(data).len() >= 1) by {
        if taken_slots(data).len() == 0 {
            assert(taken_slots(data) =~= Set::empty());
        }
    }
    assert(players_count_of(data) <= usize::MAX) by {
        assert(slots_count_of(data) <= u32::MAX);
    }
    assert(removal_refusal(data, index) is None);
    let after = removed(data, index);
    lemma_removed(data, index);
    assert forall|i: int| 0 <= i < slots_count_of(data) implies slot_is_empty(after, i) == (i
        == index || slot_is_empty(data, i)) && (i != index ==> slot_position(after, i)
        == slot_position(data, i)) by {
        assert(slot_fits(data, i));
        assert(slot_readable(data, i));
    }
    assert(taken_slots(after) =~= taken_slots(data).remove(index));
    assert(flagged_positions(after) =~= flagged_positions(data).remove(q));
    assert(flagged_positions(data).contains(q));
    assert(slots_lie_inside(after)) by {
        assert forall|i: int| 0 <= i < slots_count_of(after) implies #[trigger] slot_fits(
            after,
            i,
        ) by {
            assert(slot_fits(data, i));
        }
    }
    assert(positions_are_flagged(after)) by {
        assert forall|i: int| #[trigger] taken_slots(after).contains(i) implies slot_position(
            after,
            i,
        ) < MAX_POSITIONS && position_flag(after, slot_position(after, i) as int) by {
            assert(taken_slots(data).contains(i));
            assert(taken_slots(data).contains(index));
        }
    }
    assert(positions_are_distinct(after)) by {
        assert forall|i: int, j: int|
            #[trigger] taken_slots(after).contains(i) && #[trigger] taken_slots(after).contains(j)
                && i != j implies slot_position(after, i) != slot_position(after, j) by {
            assert(taken_slots(data).contains(i));
            assert(taken_slots(data).contains(j));
        }
    }
}

/// Whether the buffer ends where the last slot that the header counts ends.
pub open spec fn is_exactly_sized(data: Seq<u8>) -> bool {
    data.len() == HEAD_LEN + 170 * slots_count_of(data)
}

/// Removal keeps a well-formed registry of exact size as it is: whatever slot a
/// lookup has found, removing its player succeeds and leaves the registry well
/// formed and of exact size.
pub proof fn lemma_removal_keeps_well_formed(data: Seq<u8>, index: int)
    requires
        is_well_formed(data),
        is_exactly_sized(data),
        slot_readable(data, index),
    ensures
        after_removal(data, index) is Ok,
        is_well_formed(after_removal(data, index)->Ok_0),
        is_exactly_sized(after_removal(data, index)->Ok_0),
{
    assert(index < slots_count_of(data));
    assert(slot_fits(data, index));
    if !slot_is_empty(data, index) {
        lemma_remove_keeps_well_formed(data, index);
        lemma_removed(data, index);
    }
}

/// Whether every empty slot that the header counts is blank: a slot holds a player
/// or nothing at all.
pub open spec fn empties_are_blank(data: Seq<u8>) -> bool {
    forall|i: int|
        #![trigger slot_is_empty(data, i)]
        0 <= i < slots_count_of(data) && slot_is_empty(data, i) ==> slot_is_blank(data, i)
}

/// A header of zeros has no slot, and so no empty slot that is not blank.
pub proof fn lemma_fresh_is_blank(data: Seq<u8>)
    requires
        data.len() == HEAD_LEN,
        all_zero(data),
    ensures
        empties_are_blank(data),
{
    lemma_fresh_is_well_formed(data);
}

/// Insert keeps the empty slots blank: a player with an address, written into the
/// first empty slot of a registry whose slots lie inside the buffer, takes that slot
/// and leaves every other slot as it was.
pub proof fn lemma_insert_keeps_blank(data: Seq<u8>, index: int, player: PlayerJoin)
    requires
        data.len() >= HEAD_LEN,
        slots_lie_inside(data),
        is_first_empty(data, index),
        insert_refusal(data, player) is None,
        !all_zero(player.addr@),
        empties_are_blank(data),
    ensures
        empties_are_blank(inserted(data, index, player)),
{
    let after = inserted(data, index, player);
    lemma_inserted(data, index, player);
    assert forall|i: int|
        #![trigger slot_is_empty(after, i)]
        0 <= i < slots_count_of(after) && slot_is_empty(after, i) implies slot_is_blank(
        after,
        i,
    ) by {
        assert(slot_fits(data, i));
        assert(slot_readable(data, i));
        assert(slot_readable(after, i));
        assert(i != index);
        assert(slot_is_empty(data, i));
        lemma_blank_slot(data, i);
        lemma_blank_slot(after, i);
    }
}

/// Other versions keep the empty slots blank.
pub proof fn lemma_versions_keep_blank(data: Seq<u8>, access_version: u64, settle_version: u64)
    requires
        data.len() >= HEAD_LEN,
        slots_lie_inside(data),
        empties_are_blank(data),
    ensures
        empties_are_blank(with_versions(data, access_version, settle_version)),
{
    let after = with_versions(data, access_version, settle_version);
    lemma_with_versions(data, access_version, settle_version);
    assert forall|i: int|
        #![trigger slot_is_empty(after, i)]
        0 <= i < slots_count_of(after) && slot_is_empty(after, i) implies slot_is_blank(
        after,
        i,
    ) by {
        assert(slot_fits(data, i));
        assert(slot_readable(data, i));
        assert(slot_readable(after, i));
        assert(slot_is_empty(data, i));
        lemma_blank_slot(data, i);
        lemma_blank_slot(after, i);
    }
}

/// Removal keeps the empty slots blank: in a well-formed registry of exact size
/// whose empty slots are blank, the slot that a lookup has found is taken, and
/// removing its player leaves one player less, the slot blank and every other slot
/// as it was.
pub proof fn lemma_removal_keeps_blank(data: Seq<u8>, index: int)
    requires
        is_well_formed(data),
        is_exactly_sized(data),
        empties_are_blank(data),
        slot_readable(data, index),
        !slot_is_blank(data, index),
    ensures
        after_removal(data, index) == Ok::<Seq<u8>, crate::error::Failure>(removed(data, index)),
        empties_are_blank(removed(data, index)),
        removed(data, index).len() == data.len(),
        players_count_of(removed(data, index)) == players_count_of(data) - 1,
        slot_is_blank(removed(data, index), index),
        forall|j: int|
            j != index && #[trigger] slot_readable(data, j) ==> slot_is_blank(
                removed(data, index),
                j,
            ) == slot_is_blank(data, j) && crate::state::players::slot_id(removed(data, index), j)
                == crate::state::players::slot_id(data, j),
{
    assert(index < slots_count_of(data));
    assert(slot_fits(data, index));
    assert(!slot_is_empty(data, index));
    lemma_remove_keeps_well_formed(data, index);
    lemma_removed(data, index);
    let after = removed(data, index);
    assert forall|j: int| j != index && #[trigger] slot_readable(data, j) implies slot_is_blank(
        after,
        j,
    ) == slot_is_blank(data, j) && slot_is_empty(after, j) == slot_is_empty(data, j) by {
        assert(slot_readable(after, j));
        lemma_blank_slot(data, j);
        lemma_blank_slot(after, j);
    }
    assert forall|i: int|
        #![trigger slot_is_empty(after, i)]
        0 <= i < slots_count_of(after) && slot_is_empty(after, i) implies slot_is_blank(
        after,
        i,
    ) by {
        if i != index {
            assert(slot_fits(data, i));
            assert(slot_readable(data, i));
            assert(slot_is_empty(data, i));
        }
    }
}

} // verus!
