//! A join: a player takes a position in the game and brings a first deposit.
use crate::address::Address;
use crate::error::{Failure, ProcessError};
use crate::processor::deposit::{check_entry, entry_refusal, fund, funding, DepositAccounts};
use crate::processor::misc::Effect;
use crate::state::game::{DepositStatus, GameState, PlayerDeposit, PlayerJoin};
use crate::state::players::{
    add_player, after_insert, get_available_position, get_players_count, get_slots_count,
    increase_slots_count, is_player_joined, is_position_occupied, joined_by, lowest_free,
    malformed, players_count_of, position_flag, set_versions, slots_count_of, with_slots_count,
    with_versions, zeros, HEAD_LEN, MAX_POSITIONS, PLAYER_INFO_LEN,
};
use crate::address::all_zero;
use crate::state::occupancy::{
    flagged_positions, is_exactly_sized, is_well_formed, lemma_insert_keeps_well_formed,
    lemma_versions_keep_well_formed, positions_are_distinct, positions_are_flagged,
    slots_lie_inside, taken_slots,
};
use crate::state::players::{
    is_lowest_free, lemma_first_empty, lemma_inserted, lemma_with_versions, slot_fits,
    slot_is_empty, slot_position,
};
use crate::types::JoinParams;
use vstd::prelude::*;

verus! {

/// The position a player gets: the one asked for where it is free, else the lowest
/// free position below `max_players`, if one is free.
pub open spec fn granted_position(registry: Seq<u8>, wanted: u16, max_players: u16) -> Option<u16> {
    if wanted < MAX_POSITIONS && !position_flag(registry, wanted as int) {
        Some(wanted)
    } else {
        lowest_free(registry, max_players)
    }
}

/// The registry grown by one empty slot at its end.
pub open spec fn grown(registry: Seq<u8>) -> Seq<u8> {
    with_slots_count(registry + zeros(170), (slots_count_of(registry) + 1) as u32)
}

/// The registry after a player was seated, with the index of the player's slot. The
/// player takes the first empty slot. Where every slot is taken, the registry grows
/// by one slot first.
#[verifier::opaque]
pub open spec fn seated(registry: Seq<u8>, player: PlayerJoin) -> Result<(Seq<u8>, int), Failure> {
    match after_insert(registry, player) {
        Err(e) => Err(e),
        Ok((taken, Some(slot))) => Ok((taken, slot)),
        Ok((_, None)) => if slots_count_of(registry) == u32::MAX || registry.len() + 170
            > usize::MAX {
            Err(Failure::Process(ProcessError::CantIncreasePlayersRegAccountSize))
        } else {
            match after_insert(grown(registry), player) {
                Err(e) => Err(e),
                Ok((taken, Some(slot))) => Ok((taken, slot)),
                Ok((_, None)) => Err(
                    Failure::Process(ProcessError::CantIncreasePlayersRegAccountSize),
                ),
            }
        },
    }
}

/// A registry in which a player was seated holds its header.
proof fn lemma_seated_holds_header(registry: Seq<u8>, player: PlayerJoin)
    requires
        seated(registry, player) is Ok,
    ensures
        seated(registry, player)->Ok_0.0.len() >= HEAD_LEN,
{
    reveal(seated);
    match after_insert(registry, player) {
        Ok((taken, Some(slot))) => {
            crate::state::players::lemma_first_empty(registry, slot);
            crate::state::players::lemma_inserted(registry, slot, player);
        },
        Ok((_, None)) => {
            let larger = grown(registry);
            match after_insert(larger, player) {
                Ok((taken, Some(slot))) => {
                    crate::state::players::lemma_first_empty(larger, slot);
                    crate::state::players::lemma_inserted(larger, slot, player);
                },
                _ => {},
            }
        },
        _ => {},
    }
}

/// Seats a player in the registry, which grows by one slot where every slot is
/// taken. Leaves the registry as it is where the player cannot be seated.
pub fn seat_player(registry: &mut Vec<u8>, player: &PlayerJoin) -> (r: Result<usize, Failure>)
    ensures
        match seated(old(registry)@, *player) {
            Ok((taken, slot)) => r is Ok && r->Ok_0 == slot && final(registry)@ == taken,
            Err(e) => r == Err::<usize, Failure>(e) && final(registry)@ == old(registry)@,
        },
{
    reveal(seated);
    match add_player(registry.as_mut_slice(), player) {
        Err(e) => {
            return Err(e);
        },
        Ok(Some(slot)) => {
            return Ok(slot);
        },
        Ok(None) => {},
    }
    let slots: usize = match get_slots_count(registry.as_slice()) {
        Err(e) => {
            return Err(e);
        },
        Ok(slots) => slots,
    };
    if slots >= u32::MAX as usize || registry.len() > usize::MAX - PLAYER_INFO_LEN {
        return Err(Failure::Process(ProcessError::CantIncreasePlayersRegAccountSize));
    }
    let mut larger: Vec<u8> = vstd::slice::slice_to_vec(registry.as_slice());
    let mut i: usize = 0;
    while i < PLAYER_INFO_LEN
        invariant
            i <= PLAYER_INFO_LEN,
            larger@ == old(registry)@ + zeros(i as nat),
            registry@ == old(registry)@,
            old(registry)@.len() + PLAYER_INFO_LEN <= usize::MAX,
        decreases PLAYER_INFO_LEN - i,
    {
        larger.push(0);
        assert(larger@ =~= old(registry)@ + zeros((i + 1) as nat));
        i += 1;
    }
    assert(slots_count_of(larger@) == slots_count_of(old(registry)@)) by {
        assert(larger@.subrange(152, 156) =~= old(registry)@.subrange(152, 156));
    }
    match increase_slots_count(larger.as_mut_slice()) {
        Err(e) => {
            return Err(e);
        },
        Ok(_) => {},
    }
    match add_player(larger.as_mut_slice(), player) {
        Err(e) => Err(e),
        Ok(None) => Err(Failure::Process(ProcessError::CantIncreasePlayersRegAccountSize)),
        Ok(Some(slot)) => {
            *registry = larger;
            Ok(slot)
        },
    }
}

/// What a join comes to.
pub struct JoinPlan {
    pub access_version: u64,
    pub position: u16,
    pub slot: int,
    pub deposit: PlayerDeposit,
    pub registry: Seq<u8>,
    pub effects: Seq<Effect>,
}

/// The player that a join writes into the registry.
pub open spec fn joining_player(
    payer: Address,
    position: u16,
    access_version: u64,
    params: JoinParams,
) -> PlayerJoin {
    PlayerJoin { addr: payer, position, access_version, verify_key: params.verify_key }
}

/// What the checks of a join come to: the position the player gets and the
/// movements that bring the deposit, or the first failure. The payer has to have
/// signed, the recipient has to be set up, the join must not be made for a settle
/// version the ledger has not reached, the pool and the mint have to be the game's,
/// the game must not be full, the position asked for has to lie below the number of
/// players the game takes, the payer must not sit in the game already, a position
/// has to be free, the access version has to have room to grow, the amount has to
/// meet what the game asks, and the temporary account has to hold it.
#[verifier::opaque]
pub open spec fn join_checks(
    accounts: DepositAccounts,
    recipient_is_initialized: bool,
    game_state: GameState,
    params: JoinParams,
) -> Result<(u16, Seq<Effect>), Failure> {
    let registry = accounts.players_reg.data@;
    if !accounts.payer.is_signer {
        Err(Failure::MissingRequiredSignature)
    } else if !recipient_is_initialized {
        Err(Failure::UninitializedAccount)
    } else if game_state.settle_version < params.settle_version {
        Err(Failure::Process(ProcessError::InvalidSettleVersion))
    } else if accounts.stake.key@ != game_state.stake_account@ {
        Err(Failure::Process(ProcessError::InvalidStakeAccount))
    } else if accounts.mint.key@ != game_state.token_mint@ {
        Err(Failure::Process(ProcessError::InvalidMint))
    } else if registry.len() < HEAD_LEN || players_count_of(registry) > usize::MAX {
        Err(malformed())
    } else if players_count_of(registry) == game_state.max_players {
        Err(Failure::Process(ProcessError::GameFullAlready))
    } else if params.position >= game_state.max_players {
        Err(Failure::Process(ProcessError::InvalidPosition))
    } else {
        match joined_by(registry, accounts.payer.key@) {
            Err(e) => Err(e),
            Ok(true) => Err(Failure::Process(ProcessError::JoinedGameAlready)),
            Ok(false) => match granted_position(registry, params.position, game_state.max_players) {
                None => Err(Failure::Process(ProcessError::PositionTakenAlready)),
                Some(position) => if game_state.access_version == u64::MAX {
                    Err(Failure::Process(ProcessError::StakeAmountOverflow))
                } else {
                    match entry_refusal(game_state.entry_type, params.amount) {
                        Some(e) => Err(e),
                        None => match funding(
                            accounts.temp,
                            accounts.payer.key,
                            accounts.stake.key,
                            game_state.token_mint,
                            params.amount,
                        ) {
                            Err(e) => Err(e),
                            Ok(effects) => Ok((position, effects)),
                        },
                    }
                },
            },
        }
    }
}

/// What a join comes to: the plan, or the first failure. Where the checks go
/// through, the access version grows by one and names the player and the deposit,
/// the player is seated in the registry, and the registry takes the versions.
pub open spec fn joined(
    accounts: DepositAccounts,
    recipient_is_initialized: bool,
    game_state: GameState,
    params: JoinParams,
) -> Result<JoinPlan, Failure> {
    match join_checks(accounts, recipient_is_initialized, game_state, params) {
        Err(e) => Err(e),
        Ok((position, effects)) => {
            let access_version = (game_state.access_version + 1) as u64;
            match seated(
                accounts.players_reg.data@,
                joining_player(accounts.payer.key, position, access_version, params),
            ) {
                Err(e) => Err(e),
                Ok((taken, slot)) => Ok(
                    JoinPlan {
                        access_version,
                        position,
                        slot,
                        deposit: PlayerDeposit {
                            addr: accounts.payer.key,
                            amount: params.amount,
                            access_version,
                            settle_version: params.settle_version,
                            status: DepositStatus::Pending,
                        },
                        registry: with_versions(taken, access_version, game_state.settle_version),
                        effects,
                    },
                ),
            }
        },
    }
}

/// The access version and the deposit to come, the position and the slot the player
/// gets, the registry to come, and the movements to ask the runtime for.
#[derive(Debug, Clone, PartialEq, Eq)]
pub struct Join {
    pub access_version: u64,
    pub position: u16,
    pub slot: usize,
    pub deposit: PlayerDeposit,
    pub registry: Vec<u8>,
    pub effects: Vec<Effect>,
}

/// Runs the checks of a join.
fn check_join(
    accounts: &DepositAccounts,
    recipient_is_initialized: bool,
    game_state: &GameState,
    params: &JoinParams,
) -> (r: Result<(u16, Vec<Effect>), Failure>)
    ensures
        match join_checks(*accounts, recipient_is_initialized, *game_state, *params) {
            Ok((position, effects)) => {
                &&& r is Ok
                &&& r->Ok_0.0 == position
                &&& r->Ok_0.1@ == effects
                &&& game_state.access_version < u64::MAX
            },
            Err(e) => r == Err::<(u16, Vec<Effect>), Failure>(e),
        },
{
    reveal(join_checks);
    if !accounts.payer.is_signer {
        return Err(Failure::MissingRequiredSignature);
    }
    if !recipient_is_initialized {
        return Err(Failure::UninitializedAccount);
    }
    if game_state.settle_version < params.settle_version {
        return Err(Failure::Process(ProcessError::InvalidSettleVersion));
    }
    if !accounts.stake.key.eq(&game_state.stake_account) {
        return Err(Failure::Process(ProcessError::InvalidStakeAccount));
    }
    if !accounts.mint.key.eq(&game_state.token_mint) {
        return Err(Failure::Process(ProcessError::InvalidMint));
    }
    let data: &[u8] = accounts.players_reg.data.as_slice();
    let count: usize = match get_players_count(data) {
        Err(e) => {
            return Err(e);
        },
        Ok(count) => count,
    };
    if count == game_state.max_players as usize {
        return Err(Failure::Process(ProcessError::GameFullAlready));
    }
    if params.position >= game_state.max_players {
        return Err(Failure::Process(ProcessError::InvalidPosition));
    }
    match is_player_joined(data, &accounts.payer.key) {
        Err(e) => {
            return Err(e);
        },
        Ok(true) => {
            return Err(Failure::Process(ProcessError::JoinedGameAlready));
        },
        Ok(false) => {},
    }
    let taken: bool = match is_position_occupied(data, params.position) {
        Err(e) => {
            return Err(e);
        },
        Ok(taken) => taken,
    };
    let position: u16 = if taken {
        match get_available_position(data, game_state.max_players) {
            Err(_) => {
                return Err(Failure::Process(ProcessError::PositionTakenAlready));
            },
            Ok(position) => position,
        }
    } else {
        params.position
    };
    if game_state.access_version == u64::MAX {
        return Err(Failure::Process(ProcessError::StakeAmountOverflow));
    }
    match check_entry(&game_state.entry_type, params.amount) {
        Err(e) => {
            return Err(e);
        },
        Ok(_) => {},
    }
    match fund(
        &accounts.temp,
        &accounts.payer.key,
        &accounts.stake.key,
        &game_state.token_mint,
        params.amount,
    ) {
        Err(e) => Err(e),
        Ok(effects) => Ok((position, effects)),
    }
}

/// Plans a join. Nothing is changed.
pub fn process(
    accounts: &DepositAccounts,
    recipient_is_initialized: bool,
    game_state: &GameState,
    params: JoinParams,
) -> (r: Result<Join, Failure>)
    ensures
        match joined(*accounts, recipient_is_initialized, *game_state, params) {
            Ok(plan) => {
                &&& r is Ok
                &&& r->Ok_0.access_version == plan.access_version
                &&& r->Ok_0.position == plan.position
                &&& r->Ok_0.slot == plan.slot
                &&& r->Ok_0.deposit == plan.deposit
                &&& r->Ok_0.registry@ == plan.registry
                &&& r->Ok_0.effects@ == plan.effects
            },
            Err(e) => r == Err::<Join, Failure>(e),
        },
{
    let (position, effects) = match check_join(
        accounts,
        recipient_is_initialized,
        game_state,
        &params,
    ) {
        Err(e) => {
            return Err(e);
        },
        Ok(checked) => checked,
    };
    let access_version: u64 = game_state.access_version + 1;
    let amount: u64 = params.amount;
    let settle_version: u64 = params.settle_version;
    let player: PlayerJoin = PlayerJoin {
        addr: accounts.payer.key,
        position,
        access_version,
        verify_key: params.verify_key,
    };
    let mut registry: Vec<u8> = vstd::slice::slice_to_vec(accounts.players_reg.data.as_slice());
    let slot: usize = match seat_player(&mut registry, &player) {
        Err(e) => {
            return Err(e);
        },
        Ok(slot) => slot,
    };
    proof {
        lemma_seated_holds_header(accounts.players_reg.data@, player);
    }
    let _ = set_versions(registry.as_mut_slice(), access_version, game_state.settle_version);
    Ok(
        Join {
            access_version,
            position,
            slot,
            deposit: PlayerDeposit {
                addr: accounts.payer.key,
                amount,
                access_version,
                settle_version,
                status: DepositStatus::Pending,
            },
            registry,
            effects,
        },
    )
}

/// What growing leaves as it was: the length grows by a slot, the header counts one
/// slot more, the count of players, every flag and every slot that was there stay,
/// and the new slot is empty.
proof fn lemma_grown(registry: Seq<u8>)
    requires
        registry.len() >= HEAD_LEN,
        is_exactly_sized(registry),
        slots_count_of(registry) < u32::MAX,
    ensures
        ({
            let after = grown(registry);
            let n = slots_count_of(registry) as int;
            &&& after.len() == registry.len() + 170
            &&& slots_count_of(after) == n + 1
            &&& players_count_of(after) == players_count_of(registry)
            &&& forall|q: int|
                0 <= q < MAX_POSITIONS ==> position_flag(after, q) == position_flag(registry, q)
            &&& forall|i: int|
                0 <= i < n ==> slot_fits(after, i) && slot_is_empty(after, i) == slot_is_empty(
                    registry,
                    i,
                ) && slot_position(after, i) == slot_position(registry, i)
            &&& slot_fits(after, n)
            &&& slot_is_empty(after, n)
        }),
{
    let n = slots_count_of(registry) as int;
    let longer = registry + zeros(170);
    let after = grown(registry);
    crate::codec::lemma_u32_round_trip((n + 1) as u32);
    assert(after.subrange(152, 156) =~= crate::codec::le_of_u32((n + 1) as u32));
    assert(after.subrange(16, 24) =~= registry.subrange(16, 24));
    assert forall|i: int| 0 <= i < n implies slot_fits(after, i) && slot_is_empty(after, i)
        == slot_is_empty(registry, i) && slot_position(after, i) == slot_position(registry, i) by {
        let t = crate::state::players::slot_start(i);
        assert(after.subrange(t, t + 32) =~= registry.subrange(t, t + 32));
        assert(after.subrange(t + 32, t + 34) =~= registry.subrange(t + 32, t + 34));
    }
    let t = crate::state::players::slot_start(n);
    assert(after.subrange(t, t + 32) =~= zeros(32));
}

/// Growing keeps a registry well formed: a well-formed registry of exact size,
/// grown by a slot, is a well-formed registry of exact size whose last slot is
/// empty.
pub proof fn lemma_grown_keeps_well_formed(registry: Seq<u8>)
    requires
        is_well_formed(registry),
        is_exactly_sized(registry),
        slots_count_of(registry) < u32::MAX,
    ensures
        is_well_formed(grown(registry)),
        is_exactly_sized(grown(registry)),
        forall|q: int|
            0 <= q < MAX_POSITIONS ==> position_flag(grown(registry), q) == position_flag(
                registry,
                q,
            ),
{
    let after = grown(registry);
    let n = slots_count_of(registry) as int;
    lemma_grown(registry);
    assert(taken_slots(after) =~= taken_slots(registry));
    assert(flagged_positions(after) =~= flagged_positions(registry));
    assert(slots_lie_inside(after)) by {
        assert forall|i: int| 0 <= i < slots_count_of(after) implies #[trigger] slot_fits(
            after,
            i,
        ) by {}
    }
    assert(positions_are_flagged(after)) by {
        assert forall|i: int| #[trigger] taken_slots(after).contains(i) implies slot_position(
            after,
            i,
        ) < MAX_POSITIONS && position_flag(after, slot_position(after, i) as int) by {
            assert(taken_slots(registry).contains(i));
        }
    }
    assert(positions_are_distinct(after)) by {
        assert forall|i: int, j: int|
            #[trigger] taken_slots(after).contains(i) && #[trigger] taken_slots(after).contains(j)
                && i != j implies slot_position(after, i) != slot_position(after, j) by {
            assert(taken_slots(registry).contains(i));
            assert(taken_slots(registry).contains(j));
        }
    }
}

/// Seating keeps a registry well formed: a player with an address other than zero,
/// seated at a position whose flag is clear in a well-formed registry of exact
/// size, leaves a well-formed registry of exact size.
pub proof fn lemma_seated_keeps_well_formed(registry: Seq<u8>, player: PlayerJoin)
    requires
        is_well_formed(registry),
        is_exactly_sized(registry),
        seated(registry, player) is Ok,
        !all_zero(player.addr@),
        !position_flag(registry, player.position as int),
    ensures
        is_well_formed(seated(registry, player)->Ok_0.0),
        is_exactly_sized(seated(registry, player)->Ok_0.0),
{
    reveal(seated);
    match after_insert(registry, player) {
        Ok((taken, Some(slot))) => {
            lemma_first_empty(registry, slot);
            lemma_insert_keeps_well_formed(registry, slot, player);
            lemma_inserted(registry, slot, player);
        },
        Ok((_, None)) => {
            let larger = grown(registry);
            lemma_grown_keeps_well_formed(registry);
            lemma_grown(registry);
            match after_insert(larger, player) {
                Ok((taken, Some(slot))) => {
                    lemma_first_empty(larger, slot);
                    assert(players_count_of(larger) == players_count_of(registry));
                    lemma_insert_keeps_well_formed(larger, slot, player);
                    lemma_inserted(larger, slot, player);
                },
                _ => {},
            }
        },
        _ => {},
    }
}

/// A join keeps the registry well formed: where a payer with an address other than
/// zero joins a game whose registry is well formed and of exact size, the registry
/// to come is well formed and of exact size.
pub proof fn lemma_join_keeps_well_formed(
    accounts: DepositAccounts,
    recipient_is_initialized: bool,
    game_state: GameState,
    params: JoinParams,
)
    requires
        is_well_formed(accounts.players_reg.data@),
        is_exactly_sized(accounts.players_reg.data@),
        !all_zero(accounts.payer.key@),
        joined(accounts, recipient_is_initialized, game_state, params) is Ok,
    ensures
        is_well_formed(joined(accounts, recipient_is_initialized, game_state, params)->Ok_0.registry),
        is_exactly_sized(
            joined(accounts, recipient_is_initialized, game_state, params)->Ok_0.registry,
        ),
{
    reveal(join_checks);
    let registry = accounts.players_reg.data@;
    let position = join_checks(accounts, recipient_is_initialized, game_state, params)->Ok_0.0;
    let access_version = (game_state.access_version + 1) as u64;
    let player = joining_player(accounts.payer.key, position, access_version, params);
    assert(!position_flag(registry, position as int)) by {
        if !(params.position < MAX_POSITIONS && !position_flag(registry, params.position as int)) {
            let p = choose|p: int| is_lowest_free(registry, game_state.max_players, p);
            assert(is_lowest_free(registry, game_state.max_players, p));
        }
    }
    lemma_seated_keeps_well_formed(registry, player);
    let taken = seated(registry, player)->Ok_0.0;
    lemma_versions_keep_well_formed(taken, access_version, game_state.settle_version);
    lemma_with_versions(taken, access_version, game_state.settle_version);
}

} // verus!
