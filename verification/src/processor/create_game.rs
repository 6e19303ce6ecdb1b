//! Creation of a game: the ledger starts empty, and its pool is put under the address
//! that the program signs with for the game.
use crate::address::Address;
use crate::error::{Failure, ProcessError};
use crate::processor::misc::{
    address_to_vec, find_program_address, is_native_mint, mint_initialized_of, native_mint_bytes,
    program_address, seeds_view, token_account_of, unpack_mint, unpack_token_account,
    AccountView, Effect,
};
use crate::state::game::{EntryLock, GameState, GameStatus};
use crate::state::players::HEAD_LEN;
use crate::types::CreateGameAccountParams;
use vstd::prelude::*;

verus! {

/// The accounts that the creation of a game is handed, each under the part it plays.
#[derive(Debug, Clone, PartialEq, Eq)]
pub struct CreateGameAccounts {
    /// Who creates and will own the game.
    pub payer: AccountView,
    /// The account of the game.
    pub game: AccountView,
    /// The account that is to hold the players registry.
    pub players_reg: AccountView,
    /// The pool of the game.
    pub stake: AccountView,
    /// The mint of the token the game is played with.
    pub token: AccountView,
    /// The account of the game's logic bundle.
    pub bundle: AccountView,
    /// The recipient of the game's commissions.
    pub recipient: AccountView,
}

/// What is to be done with the pool of a new game, or why the game cannot be
/// created. The payer has to have signed, the recipient has to exist, the registry
/// has to be a bare header, the data of the game has to be short enough for its
/// length to be stored, and the game has to have an address that the program signs
/// with. For the native token the pool has to be that address; for any other token
/// the mint has to be set up and the pool a token account of it, which is handed
/// over to that address.
pub open spec fn game_setup(
    program_id: Address,
    accounts: CreateGameAccounts,
    params: CreateGameAccountParams,
) -> Result<Option<Effect>, Failure> {
    if !accounts.payer.is_signer {
        Err(Failure::MissingRequiredSignature)
    } else if accounts.recipient.data@.len() == 0 {
        Err(Failure::InvalidAccountData)
    } else if accounts.players_reg.data@.len() != HEAD_LEN {
        Err(Failure::Process(ProcessError::InvalidPlayersRegAccountForInit))
    } else if params.data@.len() > u32::MAX {
        Err(Failure::InvalidArgument)
    } else {
        match program_address(seq![accounts.game.key@], program_id@) {
            None => Err(Failure::Process(ProcessError::InvalidPDA)),
            Some((address, bump_seed)) => if accounts.token.key@ == native_mint_bytes() {
                if address != accounts.stake.key@ {
                    Err(Failure::Process(ProcessError::InvalidStakeAccount))
                } else {
                    Ok(None)
                }
            } else {
                match mint_initialized_of(accounts.token.data@) {
                    Err(e) => Err(e),
                    Ok(false) => Err(Failure::Process(ProcessError::InvalidTokenMint)),
                    Ok(true) => match token_account_of(accounts.stake.data@) {
                        Err(e) => Err(e),
                        Ok((mint, _)) => if mint != accounts.token.key@ {
                            Err(Failure::Process(ProcessError::InvalidStakeAccount))
                        } else {
                            Ok(
                                Some(
                                    Effect::SetAuthority {
                                        account: accounts.stake.key,
                                        owner: accounts.payer.key,
                                        slot: None,
                                        bump_seed,
                                    },
                                ),
                            )
                        },
                    },
                }
            },
        }
    }
}

/// Whether a ledger is the ledger of a game just created for the accounts and the
/// parameters: set up, nobody serving it, both versions at zero, open to all, and no
/// deposit, server, vote, bonus or balance in it.
pub open spec fn is_new_game(
    game_state: GameState,
    accounts: CreateGameAccounts,
    params: CreateGameAccountParams,
) -> bool {
    &&& game_state.game_status == GameStatus::Initialized
    &&& game_state.version@ == "0.2.6"@
    &&& game_state.title == params.title
    &&& game_state.bundle_addr == accounts.bundle.key
    &&& game_state.stake_account == accounts.stake.key
    &&& game_state.owner == accounts.payer.key
    &&& game_state.token_mint == accounts.token.key
    &&& game_state.transactor_addr is None
    &&& game_state.access_version == 0
    &&& game_state.settle_version == 0
    &&& game_state.max_players == params.max_players
    &&& game_state.players_reg_account == accounts.players_reg.key
    &&& game_state.deposits@.len() == 0
    &&& game_state.servers@.len() == 0
    &&& game_state.data_len == params.data@.len()
    &&& game_state.data == params.data
    &&& game_state.votes@.len() == 0
    &&& game_state.unlock_time is None
    &&& game_state.entry_type == params.entry_type
    &&& game_state.recipient_addr == accounts.recipient.key
    &&& game_state.checkpoint@.len() == 0
    &&& game_state.entry_lock == EntryLock::Open
    &&& game_state.bonuses@.len() == 0
    &&& game_state.balances@.len() == 0
}

/// Creates the ledger of a game and plans what is to be done with its pool.
pub fn process(program_id: &Address, accounts: &CreateGameAccounts, params: CreateGameAccountParams) -> (r:
    Result<(GameState, Option<Effect>), Failure>)
    ensures
        match game_setup(*program_id, *accounts, params) {
            Ok(effect) => r is Ok && r->Ok_0.1 == effect && is_new_game(r->Ok_0.0, *accounts, params),
            Err(e) => r == Err::<(GameState, Option<Effect>), Failure>(e),
        },
{
    if !accounts.payer.is_signer {
        return Err(Failure::MissingRequiredSignature);
    }
    if accounts.recipient.data.len() == 0 {
        return Err(Failure::InvalidAccountData);
    }
    if accounts.players_reg.data.len() != HEAD_LEN {
        return Err(Failure::Process(ProcessError::InvalidPlayersRegAccountForInit));
    }
    if params.data.len() > u32::MAX as usize {
        return Err(Failure::InvalidArgument);
    }
    let mut seeds: Vec<Vec<u8>> = Vec::new();
    seeds.push(address_to_vec(&accounts.game.key));
    assert(seeds_view(seeds@) =~= seq![accounts.game.key@]);
    let (address, bump_seed) = match find_program_address(&seeds, program_id) {
        None => {
            return Err(Failure::Process(ProcessError::InvalidPDA));
        },
        Some(found) => found,
    };
    let effect: Option<Effect> = if is_native_mint(&accounts.token.key) {
        if !address.eq(&accounts.stake.key) {
            return Err(Failure::Process(ProcessError::InvalidStakeAccount));
        }
        None
    } else {
        match unpack_mint(accounts.token.data.as_slice()) {
            Err(e) => {
                return Err(e);
            },
            Ok(false) => {
                return Err(Failure::Process(ProcessError::InvalidTokenMint));
            },
            Ok(true) => {},
        }
        match unpack_token_account(accounts.stake.data.as_slice()) {
            Err(e) => {
                return Err(e);
            },
            Ok(token) => {
                if !token.mint.eq(&accounts.token.key) {
                    return Err(Failure::Process(ProcessError::InvalidStakeAccount));
                }
            },
        }
        Some(
            Effect::SetAuthority {
                account: accounts.stake.key,
                owner: accounts.payer.key,
                slot: None,
                bump_seed,
            },
        )
    };
    let data_len: u32 = params.data.len() as u32;
    let game_state: GameState = GameState {
        game_status: GameStatus::Initialized,
        version: "0.2.6".to_owned(),
        title: params.title,
        bundle_addr: accounts.bundle.key,
        stake_account: accounts.stake.key,
        owner: accounts.payer.key,
        token_mint: accounts.token.key,
        transactor_addr: None,
        access_version: 0,
        settle_version: 0,
        max_players: params.max_players,
        players_reg_account: accounts.players_reg.key,
        deposits: Vec::new(),
        servers: Vec::new(),
        data_len,
        data: params.data,
        votes: Vec::new(),
        unlock_time: None,
        entry_type: params.entry_type,
        recipient_addr: accounts.recipient.key,
        checkpoint: Vec::new(),
        entry_lock: EntryLock::Open,
        bonuses: Vec::new(),
        balances: Vec::new(),
    };
    Ok((game_state, effect))
}

} // verus!
