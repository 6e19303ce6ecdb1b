//! Attaching bonuses to a game: each bonus is a token account of its own, handed
//! over to the address that the program signs with for the game.
use crate::address::Address;
use crate::error::{Failure, ProcessError};
use crate::processor::create_recipient::{check_identifier, is_identifier};
use crate::processor::misc::{
    address_to_vec, find_program_address, is_native_mint, native_mint_bytes, program_address,
    seeds_view, token_account_of, unpack_token_account, AccountView, Effect,
};
use crate::state::game::{Bonus, BonusView};
use crate::types::AttachBonusParams;
use vstd::prelude::*;

verus! {

/// Whether every identifier is fit to name a bonus.
pub open spec fn are_identifiers(identifiers: Seq<String>) -> bool {
    forall|i: int| 0 <= i < identifiers.len() ==> is_identifier(#[trigger] identifiers[i]@)
}

/// How far the attaching has come: the bonuses made so far and what is to be done
/// with their accounts.
pub struct AttachStage {
    pub bonuses: Seq<BonusView>,
    pub effects: Seq<Effect>,
}

/// The stage after the first `k` identifiers. Identifier number `k` names the bonus
/// held by the account supplied as number `k`, which has to be a token account of
/// another token than the native one. The bonus is as large as the account holds.
pub open spec fn after_attach(
    identifiers: Seq<String>,
    rest: Seq<AccountView>,
    payer: Address,
    bump_seed: u8,
    k: nat,
) -> Result<AttachStage, Failure>
    decreases k,
{
    if k == 0 {
        Ok(AttachStage { bonuses: Seq::empty(), effects: Seq::empty() })
    } else {
        let j = (k - 1) as int;
        match after_attach(identifiers, rest, payer, bump_seed, (k - 1) as nat) {
            Err(e) => Err(e),
            Ok(stage) => if j >= rest.len() {
                Err(Failure::NotEnoughAccountKeys)
            } else {
                match token_account_of(rest[j].data@) {
                    Err(e) => Err(e),
                    Ok((mint, amount)) => if mint == native_mint_bytes() {
                        Err(Failure::Process(ProcessError::NativeTokenNotSupported))
                    } else {
                        Ok(
                            AttachStage {
                                bonuses: stage.bonuses.push(
                                    BonusView {
                                        identifier: identifiers[j]@,
                                        stake_addr: rest[j].key,
                                        token_addr: mint,
                                        amount,
                                    },
                                ),
                                effects: stage.effects.push(
                                    Effect::SetAuthority {
                                        account: rest[j].key,
                                        owner: payer,
                                        slot: None,
                                        bump_seed,
                                    },
                                ),
                            },
                        )
                    },
                }
            },
        }
    }
}

/// A failure among the first identifiers is the failure of them all.
proof fn lemma_attach_fails(
    identifiers: Seq<String>,
    rest: Seq<AccountView>,
    payer: Address,
    bump_seed: u8,
    k: nat,
    n: nat,
    e: Failure,
)
    requires
        k <= n,
        after_attach(identifiers, rest, payer, bump_seed, k) == Err::<AttachStage, Failure>(e),
    ensures
        after_attach(identifiers, rest, payer, bump_seed, n) == Err::<AttachStage, Failure>(e),
    decreases n - k,
{
    if k < n {
        lemma_attach_fails(identifiers, rest, payer, bump_seed, k + 1, n, e);
    }
}

/// What attaching bonuses comes to: the bonuses to add to the game and what is to be
/// done with their accounts, or the first failure. Every identifier has to be fit,
/// the payer has to have signed, and the game has to have an address that the
/// program signs with.
pub open spec fn attached(
    program_id: Address,
    payer: AccountView,
    game_key: Address,
    identifiers: Seq<String>,
    rest: Seq<AccountView>,
) -> Result<AttachStage, Failure> {
    if !are_identifiers(identifiers) {
        Err(Failure::Process(ProcessError::InvalidIdentifierLength))
    } else if !payer.is_signer {
        Err(Failure::MissingRequiredSignature)
    } else {
        match program_address(seq![game_key@], program_id@) {
            None => Err(Failure::Process(ProcessError::InvalidPDA)),
            Some((_, bump_seed)) => after_attach(
                identifiers,
                rest,
                payer.key,
                bump_seed,
                identifiers.len(),
            ),
        }
    }
}

/// The bonuses as the contracts speak of them.
pub open spec fn bonuses_view(bonuses: Seq<Bonus>) -> Seq<BonusView> {
    Seq::new(bonuses.len(), |i: int| bonuses[i]@)
}

/// Plans the attaching of bonuses to a game. Returns the bonuses to add to the game
/// and what is to be done with their accounts.
#[verifier::loop_isolation(false)]
pub fn process(
    program_id: &Address,
    payer: &AccountView,
    game_key: &Address,
    params: &AttachBonusParams,
    rest: &Vec<AccountView>,
) -> (r: Result<(Vec<Bonus>, Vec<Effect>), Failure>)
    ensures
        match attached(*program_id, *payer, *game_key, params.identifiers@, rest@) {
            Ok(stage) => {
                &&& r is Ok
                &&& bonuses_view(r->Ok_0.0@) == stage.bonuses
                &&& r->Ok_0.1@ == stage.effects
            },
            Err(e) => r == Err::<(Vec<Bonus>, Vec<Effect>), Failure>(e),
        },
{
    let n: usize = params.identifiers.len();
    let mut i: usize = 0;
    while i < n
        invariant
            i <= n,
            n == params.identifiers@.len(),
            forall|j: int| 0 <= j < i ==> is_identifier(#[trigger] params.identifiers@[j]@),
        decreases n - i,
    {
        if !check_identifier(&params.identifiers[i]) {
            assert(!is_identifier(params.identifiers@[i as int]@));
            return Err(Failure::Process(ProcessError::InvalidIdentifierLength));
        }
        i += 1;
    }
    if !payer.is_signer {
        return Err(Failure::MissingRequiredSignature);
    }
    let mut seeds: Vec<Vec<u8>> = Vec::new();
    seeds.push(address_to_vec(game_key));
    assert(seeds_view(seeds@) =~= seq![game_key@]);
    let bump_seed: u8 = match find_program_address(&seeds, program_id) {
        None => {
            return Err(Failure::Process(ProcessError::InvalidPDA));
        },
        Some((_, bump_seed)) => bump_seed,
    };
    let mut bonuses: Vec<Bonus> = Vec::new();
    let mut effects: Vec<Effect> = Vec::new();
    assert(bonuses_view(bonuses@) =~= Seq::empty());
    let mut k: usize = 0;
    while k < n
        invariant
            k <= n,
            after_attach(params.identifiers@, rest@, payer.key, bump_seed, k as nat) == Ok::<
                AttachStage,
                Failure,
            >(AttachStage { bonuses: bonuses_view(bonuses@), effects: effects@ }),
        decreases n - k,
    {
        let ghost before = bonuses_view(bonuses@);
        let mut failure: Option<Failure> = None;
        if k >= rest.len() {
            failure = Some(Failure::NotEnoughAccountKeys);
        } else {
            match unpack_token_account(rest[k].data.as_slice()) {
                Err(e) => {
                    failure = Some(e);
                },
                Ok(token) => {
                    if is_native_mint(&token.mint) {
                        failure = Some(Failure::Process(ProcessError::NativeTokenNotSupported));
                    } else {
                        bonuses.push(
                            Bonus {
                                identifier: params.identifiers[k].clone(),
                                stake_addr: rest[k].key,
                                token_addr: token.mint,
                                amount: token.amount,
                            },
                        );
                        effects.push(
                            Effect::SetAuthority {
                                account: rest[k].key,
                                owner: payer.key,
                                slot: None,
                                bump_seed,
                            },
                        );
                        assert(bonuses_view(bonuses@) =~= before.push(
                            BonusView {
                                identifier: params.identifiers@[k as int]@,
                                stake_addr: rest@[k as int].key,
                                token_addr: token.mint@,
                                amount: token.amount,
                            },
                        ));
                    }
                },
            }
        }
        match failure {
            Some(e) => {
                proof {
                    assert(after_attach(
                        params.identifiers@,
                        rest@,
                        payer.key,
                        bump_seed,
                        (k + 1) as nat,
                    ) == Err::<AttachStage, Failure>(e));
                    lemma_attach_fails(
                        params.identifiers@,
                        rest@,
                        payer.key,
                        bump_seed,
                        (k + 1) as nat,
                        n as nat,
                        e,
                    );
                }
                return Err(e);
            },
            None => {},
        }
        k += 1;
    }
    Ok((bonuses, effects))
}

} // verus!
