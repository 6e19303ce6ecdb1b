//! Registration of a server's profile.
use crate::address::Address;
use crate::error::{Failure, ProcessError};
use crate::processor::misc::{create_with_seed, seed_refusal, seeded_address, AccountView};
use crate::state::server::ServerState;
use crate::types::RegisterServerParams;
use vstd::prelude::*;

verus! {

/// Why a server is not registered, if it is not: the owner has not signed, the account
/// may not be changed, no address can be derived for it, it is not the account
/// derived from the owner and the seed, or it holds other credentials already.
pub open spec fn server_refusal(
    program_id: Address,
    owner: AccountView,
    server: AccountView,
    seed: Seq<char>,
    held: Option<Seq<u8>>,
    credentials: Seq<u8>,
) -> Option<Failure> {
    if !owner.is_signer {
        Some(Failure::MissingRequiredSignature)
    } else if !server.is_writable {
        Some(Failure::Process(ProcessError::InvalidAccountStatus))
    } else {
        match seeded_address(owner.key@, seed, program_id@) {
            Err(e) => Some(e),
            Ok(address) => if address != server.key@ {
                Some(Failure::Process(ProcessError::InvalidAccountPubkey))
            } else if held is Some && held->Some_0 != credentials {
                Some(Failure::Process(ProcessError::InconsistentCredentials))
            } else {
                None
            },
        }
    }
}

/// Whether two byte strings are the same.
fn same_bytes(a: &Vec<u8>, b: &Vec<u8>) -> (r: bool)
    ensures
        r == (a@ == b@),
{
    if a.len() != b.len() {
        return false;
    }
    let n: usize = a.len();
    let mut i: usize = 0;
    while i < n
        invariant
            i <= n,
            n == a@.len(),
            n == b@.len(),
            forall|j: int| 0 <= j < i ==> a@[j] == b@[j],
        decreases n - i,
    {
        if a[i] != b[i] {
            return false;
        }
        i += 1;
    }
    assert(a@ =~= b@);
    true
}

/// Registers the profile of a server. `held` is what credentials the account holds
/// already, if it holds a profile; they cannot be changed.
pub fn process(
    program_id: &Address,
    owner: &AccountView,
    server: &AccountView,
    held: Option<&Vec<u8>>,
    params: RegisterServerParams,
    seed: &str,
) -> (r: Result<ServerState, Failure>)
    ensures
        match server_refusal(
            *program_id,
            *owner,
            *server,
            seed@,
            match held {
                Some(credentials) => Some(credentials@),
                None => None,
            },
            params.credentials@,
        ) {
            Some(e) => r == Err::<ServerState, Failure>(e),
            None => {
                &&& r is Ok
                &&& r->Ok_0.is_initialized
                &&& r->Ok_0.addr == server.key
                &&& r->Ok_0.owner == owner.key
                &&& r->Ok_0.endpoint == params.endpoint
            },
        },
        owner.is_signer && server.is_writable ==> match seed_refusal(seed@, program_id@) {
            Some(e) => r == Err::<ServerState, Failure>(e),
            None => seeded_address(owner.key@, seed@, program_id@) is Ok,
        },
{
    if !owner.is_signer {
        return Err(Failure::MissingRequiredSignature);
    }
    if !server.is_writable {
        return Err(Failure::Process(ProcessError::InvalidAccountStatus));
    }
    let address: Address = match create_with_seed(&owner.key, seed, program_id) {
        Err(e) => {
            return Err(e);
        },
        Ok(address) => address,
    };
    if !address.eq(&server.key) {
        return Err(Failure::Process(ProcessError::InvalidAccountPubkey));
    }
    match held {
        Some(credentials) => {
            if !same_bytes(credentials, &params.credentials) {
                return Err(Failure::Process(ProcessError::InconsistentCredentials));
            }
        },
        None => {},
    }
    Ok(
        ServerState {
            is_initialized: true,
            addr: server.key,
            owner: owner.key,
            endpoint: params.endpoint,
        },
    )
}

} // verus!
