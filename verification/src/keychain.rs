//! Secrets kept in the operating system's credential store (Keychain,
//! Credential Manager, Secret Service) through the `keyring` crate, under
//! one service name. What the store holds is outside this library: these
//! functions only fix which entry is addressed and how an answer of the
//! store is reported.
use vstd::prelude::*;

verus! {

#[verifier::external_type_specification]
#[verifier::external_body]
pub struct ExKeyringEntry(keyring::Entry);

/// An error of the credential store: `NoEntry` when nothing is stored
/// under the entry, with the store's message either way.
pub enum StoreError {
    NoEntry(String),
    Other(String),
}

/// The service under which every secret of the application is stored.
pub const SERVICE: &'static str = "popcorn-p2p";

/// The message `keyring` gives when nothing is stored under an entry.
pub const NO_ENTRY_MESSAGE: &'static str = "No matching credential found";

/// The entry of the credential store that holds one secret of the
/// application: always under `SERVICE`, with the secret's id as user.
pub struct StoreTarget {
    service: String,
    user: String,
}

impl StoreTarget {
    #[verifier::type_invariant]
    spec fn of_the_application(self) -> bool {
        self.service@ == SERVICE@
    }

    /// The service of the entry.
    pub closed spec fn service_view(self) -> Seq<char> {
        self.service@
    }

    /// The user of the entry.
    pub closed spec fn user_view(self) -> Seq<char> {
        self.user@
    }

    /// The service of the entry.
    pub fn service(&self) -> (r: &str)
        ensures
            r@ == self.service_view(),
            r@ == SERVICE@,
    {
        proof {
            use_type_invariant(self);
        }
        self.service.as_str()
    }

    /// The user of the entry.
    pub fn user(&self) -> (r: &str)
        ensures
            r@ == self.user_view(),
    {
        self.user.as_str()
    }
}

/// The entry that holds the secret `id`: service `SERVICE`, user `id`.
pub fn secret_target(id: &str) -> (t: StoreTarget)
    ensures
        t.service_view() == SERVICE@,
        t.user_view() == id@,
{
    StoreTarget { service: SERVICE.to_owned(), user: id.to_owned() }
}

/// What `keyring` reports with an error: `NoEntry` always with
/// `NO_ENTRY_MESSAGE`, any other error with a message that is not empty
/// (every one of its error messages starts with a fixed text).
pub open spec fn reported_error(e: StoreError) -> bool {
    match e {
        StoreError::NoEntry(m) => m@ == NO_ENTRY_MESSAGE@,
        StoreError::Other(m) => m@.len() > 0,
    }
}

/// Calls `keyring::Entry::new(service, user)` on the target's service and
/// user, which opens the entry of the platform store; it fails when no
/// store is available or the store refuses the names. Of the outcome,
/// which depends on the machine, only the form of its error is claimed.
#[verifier::external_body]
fn open_entry(target: &StoreTarget) -> (r: Result<keyring::Entry, StoreError>)
    ensures
        r matches Err(e) ==> reported_error(e),
{
    keyring::Entry::new(target.service.as_str(), target.user.as_str()).map_err(|e| match e {
        keyring::Error::NoEntry => StoreError::NoEntry(e.to_string()),
        _ => StoreError::Other(e.to_string()),
    })
}

/// Calls `keyring::Entry::set_password`; the outcome depends on the store,
/// and only the form of its error is claimed.
#[verifier::external_body]
fn store_password(entry: &keyring::Entry, password: &str) -> (r: Result<(), StoreError>)
    ensures
        r matches Err(e) ==> reported_error(e),
{
    entry.set_password(password).map_err(|e| match e {
        keyring::Error::NoEntry => StoreError::NoEntry(e.to_string()),
        _ => StoreError::Other(e.to_string()),
    })
}

/// Calls `keyring::Entry::get_password`; the outcome depends on the store,
/// and only the form of its error is claimed.
#[verifier::external_body]
fn read_password(entry: &keyring::Entry) -> (r: Result<String, StoreError>)
    ensures
        r matches Err(e) ==> reported_error(e),
{
    entry.get_password().map_err(|e| match e {
        keyring::Error::NoEntry => StoreError::NoEntry(e.to_string()),
        _ => StoreError::Other(e.to_string()),
    })
}

/// Calls `keyring::Entry::delete_credential`; the outcome depends on the
/// store, and only the form of its error is claimed.
#[verifier::external_body]
fn remove_credential(entry: &keyring::Entry) -> (r: Result<(), StoreError>)
    ensures
        r matches Err(e) ==> reported_error(e),
{
    entry.delete_credential().map_err(|e| match e {
        keyring::Error::NoEntry => StoreError::NoEntry(e.to_string()),
        _ => StoreError::Other(e.to_string()),
    })
}

/// The message of a store error.
pub open spec fn store_message(e: StoreError) -> Seq<char> {
    match e {
        StoreError::NoEntry(m) => m@,
        StoreError::Other(m) => m@,
    }
}

fn message_of(e: StoreError) -> (m: String)
    ensures
        m@ == store_message(e),
{
    match e {
        StoreError::NoEntry(m) => m,
        StoreError::Other(m) => m,
    }
}

/// What storing a secret reports for what the store answered: the store's
/// message on any error.
pub fn store_outcome(stored: Result<(), StoreError>) -> (r: Result<(), String>)
    ensures
        match stored {
            Ok(()) => r is Ok,
            Err(e) => r matches Err(m) && m@ == store_message(e),
        },
{
    match stored {
        Ok(()) => Ok(()),
        Err(e) => Err(message_of(e)),
    }
}

/// What reading a secret reports for what the store answered: the secret,
/// `None` when nothing is stored, or the store's message.
pub fn read_outcome(read: Result<String, StoreError>) -> (r: Result<Option<String>, String>)
    ensures
        match read {
            Ok(s) => r == Ok::<Option<String>, String>(Some(s)),
            Err(StoreError::NoEntry(_)) => r == Ok::<Option<String>, String>(None),
            Err(StoreError::Other(m)) => r matches Err(x) && x@ == m@,
        },
{
    match read {
        Ok(s) => Ok(Some(s)),
        Err(StoreError::NoEntry(_)) => Ok(None),
        Err(StoreError::Other(m)) => Err(m),
    }
}

/// What removing a secret reports for what the store answered: removing
/// a secret that is not there succeeds.
pub fn removal_outcome(removed: Result<(), StoreError>) -> (r: Result<(), String>)
    ensures
        match removed {
            Ok(()) => r is Ok,
            Err(StoreError::NoEntry(_)) => r is Ok,
            Err(StoreError::Other(m)) => r matches Err(x) && x@ == m@,
        },
{
    match removed {
        Ok(()) => Ok(()),
        Err(StoreError::NoEntry(_)) => Ok(()),
        Err(StoreError::Other(m)) => Err(m),
    }
}

/// What storing a secret can report: success, or the message of an error
/// of the store, which is never empty.
pub open spec fn store_report(r: Result<(), String>) -> bool {
    r matches Err(m) ==> m@.len() > 0
}

/// What reading a secret can report: the secret, `None`, or the message
/// of an error of the store, which is never empty.
pub open spec fn read_report(r: Result<Option<String>, String>) -> bool {
    r matches Err(m) ==> m@.len() > 0
}

proof fn lemma_reported_message(e: StoreError)
    requires
        reported_error(e),
    ensures
        store_message(e).len() > 0,
{
    reveal_strlit("No matching credential found");
}

proof fn lemma_reported_answer<T>(answer: Result<T, StoreError>)
    requires
        answer matches Err(e) ==> reported_error(e),
    ensures
        answer matches Err(e) ==> store_message(e).len() > 0,
{
    if let Err(e) = answer {
        lemma_reported_message(e);
    }
}

/// Stores `secret` under `id` (the entry `secret_target(id)`); the error
/// is the store's message. Whether the store accepts it depends on the
/// machine and on what the store holds; what each answer of the store
/// becomes is the contract of `store_outcome`.
pub fn set_secret(id: &str, secret: &str) -> (r: Result<(), String>)
    ensures
        store_report(r),
{
    let target = secret_target(id);
    match open_entry(&target) {
        Ok(entry) => {
            let answer = store_password(&entry, secret);
            proof {
                lemma_reported_answer(answer);
            }
            store_outcome(answer)
        },
        Err(e) => {
            proof {
                lemma_reported_message(e);
            }
            Err(message_of(e))
        },
    }
}

/// The secret stored under `id` (the entry `secret_target(id)`):
/// `Ok(None)` when the store has none. What the store holds, and whether
/// it answers, depends on the machine; what each answer of the store
/// becomes is the contract of `read_outcome`.
pub fn get_secret(id: &str) -> (r: Result<Option<String>, String>)
    ensures
        read_report(r),
{
    let target = secret_target(id);
    match open_entry(&target) {
        Ok(entry) => {
            let answer = read_password(&entry);
            proof {
                lemma_reported_answer(answer);
            }
            read_outcome(answer)
        },
        Err(e) => {
            proof {
                lemma_reported_message(e);
            }
            Err(message_of(e))
        },
    }
}

/// Removes the secret stored under `id` (the entry `secret_target(id)`);
/// removing a secret that is not there succeeds. Whether the store
/// answers depends on the machine; what each answer of the store becomes
/// is the contract of `removal_outcome`.
pub fn delete_secret(id: &str) -> (r: Result<(), String>)
    ensures
        store_report(r),
{
    let target = secret_target(id);
    match open_entry(&target) {
        Ok(entry) => {
            let answer = remove_credential(&entry);
            proof {
                lemma_reported_answer(answer);
            }
            removal_outcome(answer)
        },
        Err(e) => {
            proof {
                lemma_reported_message(e);
            }
            Err(message_of(e))
        },
    }
}

} // verus!
