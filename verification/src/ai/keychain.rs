//! API keys of the AI providers, kept in the credential store under the
//! provider's id (see `crate::keychain`).
use vstd::prelude::*;
use crate::keychain::{delete_secret, get_secret, read_report, set_secret, store_report};

verus! {

/// Stores the API key of a provider in the entry of its id
/// (`crate::keychain::secret_target`); the store decides the outcome.
pub fn set_api_key(provider_id: &str, key: &str) -> (r: Result<(), String>)
    ensures
        store_report(r),
{
    set_secret(provider_id, key)
}

/// The API key of a provider, read from the entry of its id: `Ok(None)`
/// when none is stored; the store decides the outcome.
pub fn get_api_key(provider_id: &str) -> (r: Result<Option<String>, String>)
    ensures
        read_report(r),
{
    get_secret(provider_id)
}

/// Removes the API key of a provider from the entry of its id; removing
/// a missing key succeeds, and the store decides the outcome.
pub fn delete_api_key(provider_id: &str) -> (r: Result<(), String>)
    ensures
        store_report(r),
{
    delete_secret(provider_id)
}

} // verus!
