use vstd::prelude::*;
use crate::account::AccountId;

verus! {

/// A handle to the reward token that was created for a session. The session keeps it and
/// never looks inside.
#[derive(Clone, Copy, Debug, PartialEq, Eq)]
pub struct TokenHandle(pub AccountId);

/// How many units of the reward token come into being.
pub const TOKEN_SUPPLY: u128 = 100_000_000_000;

/// The balance handed to a new token instance.
pub const TOKEN_ENDOWMENT: u128 = 0;

/// The most computation time that the creation of the token may take.
pub const TOKEN_REF_TIME_LIMIT: u64 = 500_000_000;

/// The largest proof that the creation of the token may need.
pub const TOKEN_PROOF_SIZE_LIMIT: u64 = 200_000;

/// The most that may be charged for the storage of the token.
pub const TOKEN_STORAGE_DEPOSIT_LIMIT: u128 = 100_000_000_000;

/// What the host is asked to create before a session opens: one reward token,
/// with a fixed supply and fixed limits on what its creation may consume.
#[derive(Clone, Copy, Debug, PartialEq, Eq)]
pub struct TokenRequest {
    /// How many units of the token come into being.
    pub initial_supply: u128,
    /// The balance handed to the new token instance.
    pub endowment: u128,
    /// The bytes that tell this instance from others made of the same code.
    pub salt: [u8; 4],
    /// The most computation time the creation may take.
    pub ref_time_limit: u64,
    /// The largest proof the creation may need.
    pub proof_size_limit: u64,
    /// The most that may be charged for storage.
    pub storage_deposit_limit: u128,
}

impl TokenRequest {
    /// The request that every session makes.
    pub open spec fn standard() -> TokenRequest {
        TokenRequest {
            initial_supply: TOKEN_SUPPLY,
            endowment: TOKEN_ENDOWMENT,
            salt: [0xDE, 0xAD, 0xBE, 0xEF],
            ref_time_limit: TOKEN_REF_TIME_LIMIT,
            proof_size_limit: TOKEN_PROOF_SIZE_LIMIT,
            storage_deposit_limit: TOKEN_STORAGE_DEPOSIT_LIMIT,
        }
    }

    /// The request that every session makes.
    pub fn fixed() -> (request: TokenRequest)
        ensures
            request == TokenRequest::standard(),
    {
        TokenRequest {
            initial_supply: TOKEN_SUPPLY,
            endowment: TOKEN_ENDOWMENT,
            salt: [0xDE, 0xAD, 0xBE, 0xEF],
            ref_time_limit: TOKEN_REF_TIME_LIMIT,
            proof_size_limit: TOKEN_PROOF_SIZE_LIMIT,
            storage_deposit_limit: TOKEN_STORAGE_DEPOSIT_LIMIT,
        }
    }
}

} // verus!
