//! The three operations of the secrets manager, over any store: add, get and list.
use crate::model::{listing_of, records_sorted, Secrets};
use crate::order::key_lt;
use crate::store::{SecretsStore, StoreError};
use crate::text::has_char;
use crate::timestamp::{read_from_clock, ClockError, Timestamp};
use vstd::prelude::*;

verus! {

/// Why a key or value is refused.
#[derive(Clone, Copy, Debug, PartialEq, Eq, Structural)]
pub enum ValidationError {
    EmptyKey,
    KeyHasNewline,
    EmptyValue,
    ValueHasNewline,
}

impl ValidationError {
    /// The message that describes the error.
    pub fn message(&self) -> (res: &'static str)
        ensures
            res@ == match self {
                ValidationError::EmptyKey => "key must not be empty"@,
                ValidationError::KeyHasNewline => "key must not contain a newline"@,
                ValidationError::EmptyValue => "value must not be empty"@,
                ValidationError::ValueHasNewline => "value must not contain a newline"@,
            },
    {
        match self {
            ValidationError::EmptyKey => "key must not be empty",
            ValidationError::KeyHasNewline => "key must not contain a newline",
            ValidationError::EmptyValue => "value must not be empty",
            ValidationError::ValueHasNewline => "value must not contain a newline",
        }
    }
}

/// What is wrong with a key to look up, if anything: it is empty.
pub open spec fn key_fault(key: Seq<char>) -> Option<ValidationError> {
    if key.len() == 0 {
        Some(ValidationError::EmptyKey)
    } else {
        None
    }
}

/// What is wrong with a key and value to store, if anything, checked in this
/// order: an empty key, a key with a newline, an empty value, a value with a
/// newline (a newline would break the line format).
pub open spec fn entry_fault(key: Seq<char>, value: Seq<char>) -> Option<ValidationError> {
    if key.len() == 0 {
        Some(ValidationError::EmptyKey)
    } else if has_char(key, '\n') {
        Some(ValidationError::KeyHasNewline)
    } else if value.len() == 0 {
        Some(ValidationError::EmptyValue)
    } else if has_char(value, '\n') {
        Some(ValidationError::ValueHasNewline)
    } else {
        None
    }
}

fn has_newline(s: &str) -> (res: bool)
    ensures
        res == has_char(s@, '\n'),
{
    let chars = crate::text::chars_of(s);
    crate::text::contains_char(chars.as_slice(), '\n')
}

/// Accepts a key to look up that is not empty.
pub fn validate_key(key: &str) -> (res: Result<(), ValidationError>)
    ensures
        match key_fault(key@) {
            Some(e) => res == Err::<(), ValidationError>(e),
            None => res is Ok,
        },
        res is Ok <==> key@.len() > 0,
{
    if key.is_empty() {
        return Err(ValidationError::EmptyKey);
    }
    Ok(())
}

/// Accepts a key and value to store: both not empty, neither holding a newline.
pub fn validate_key_value(key: &str, value: &str) -> (res: Result<(), ValidationError>)
    ensures
        match entry_fault(key@, value@) {
            Some(e) => res == Err::<(), ValidationError>(e),
            None => res is Ok,
        },
        res is Ok <==> {
            &&& key@.len() > 0
            &&& value@.len() > 0
            &&& forall|i: int| 0 <= i < key@.len() ==> key@[i] != '\n'
            &&& forall|i: int| 0 <= i < value@.len() ==> value@[i] != '\n'
        },
{
    proof {
        crate::laws::lemma_entry_accepted_iff_nonempty_without_newline(key@, value@);
    }
    validate_key(key)?;
    if has_newline(key) {
        return Err(ValidationError::KeyHasNewline);
    }
    if value.is_empty() {
        return Err(ValidationError::EmptyValue);
    }
    if has_newline(value) {
        return Err(ValidationError::ValueHasNewline);
    }
    Ok(())
}

/// Why an operation of the manager failed.
#[derive(Debug)]
pub enum ManagerError {
    /// The key or value was refused.
    Invalid(ValidationError),
    /// The secrets could not be loaded.
    Load(StoreError),
    /// The secrets could not be saved.
    Save(StoreError),
    /// The system clock gave no instant to stamp the secret with.
    Clock(ClockError),
}

/// The secrets after `add(key, value)`: `key` set to `value` with the time of
/// the call, everything else as loaded; an error where the clock gives no instant.
pub fn with_secret(secrets: Secrets, key: &str, value: &str) -> (res: Result<Secrets, ClockError>)
    ensures
        res matches Ok(s) ==> s@ == secrets@.insert(key@, (value@, s@[key@].1)) && s@[key@].1.0 >= 0
            && s@[key@].1.1 < 1_000_000_000 && read_from_clock(s@[key@].1) && records_sorted(s.records()),
{
    let mut secrets = secrets;
    secrets.upsert(key.to_owned(), value.to_owned())?;
    Ok(secrets)
}

/// The value stored for `key`, if any.
pub fn lookup(secrets: &Secrets, key: &str) -> (res: Option<String>)
    ensures
        res is Some == secrets@.contains_key(key@),
        res matches Some(v) ==> v@ == secrets@[key@].0,
{
    match secrets.get(key) {
        Some(e) => Some(e.value.clone()),
        None => None,
    }
}

/// Adds, reads and lists secrets kept in a store.
#[derive(Clone)]
pub struct SecretsManager<S: SecretsStore> {
    store: S,
}

impl<S: SecretsStore> SecretsManager<S> {
    /// The store the secrets are kept in.
    pub closed spec fn store_spec(self) -> S {
        self.store
    }

    /// A manager of the secrets in `store`.
    pub fn new(store: S) -> (res: Self)
        ensures
            res.store_spec() == store,
    {
        SecretsManager { store }
    }

    /// The store the secrets are kept in.
    pub fn store(&self) -> (res: &S)
        ensures
            *res == self.store_spec(),
    {
        &self.store
    }

    /// Sets `key` to `value` (stamped with the current time) in the store: the
    /// key and value are checked first, then the secrets are loaded, updated as
    /// `with_secret` does (failing where the clock gives no instant), and saved.
    /// A refused key or value fails before the store is used.
    ///
    /// What the store's `load` and `save` return is up to the store; the clauses
    /// say what was handed to them and what each outcome of theirs leads to.
    pub fn add(&self, key: &str, value: &str) -> (res: Result<(), ManagerError>)
        ensures
            entry_fault(key@, value@) matches Some(e) ==> res matches Err(ManagerError::Invalid(f))
                && f == e,
            entry_fault(key@, value@) is None ==> !(res matches Err(ManagerError::Invalid(_))),
            res matches Err(ManagerError::Load(e)) ==> call_ensures(
                S::load,
                (&self.store_spec(),),
                Err::<Secrets, StoreError>(e),
            ),
            res is Ok ==> exists|s: Secrets, t: Secrets|
                {
                    &&& #[trigger] call_ensures(S::load, (&self.store_spec(),), Ok::<Secrets, StoreError>(s))
                    &&& added(s, t, key@, value@)
                    &&& #[trigger] call_ensures(S::save, (&self.store_spec(), &t), Ok::<(), StoreError>(()))
                },
            res matches Err(ManagerError::Save(e)) ==> exists|s: Secrets, t: Secrets|
                {
                    &&& #[trigger] call_ensures(S::load, (&self.store_spec(),), Ok::<Secrets, StoreError>(s))
                    &&& added(s, t, key@, value@)
                    &&& #[trigger] call_ensures(S::save, (&self.store_spec(), &t), Err::<(), StoreError>(e))
                },
    {
        match validate_key_value(key, value) {
            Err(e) => return Err(ManagerError::Invalid(e)),
            Ok(()) => {},
        }
        let loaded = self.store.load();
        let secrets = match loaded {
            Ok(s) => s,
            Err(e) => return Err(ManagerError::Load(e)),
        };
        let ghost s0 = secrets;
        let updated = match with_secret(secrets, key, value) {
            Ok(s) => s,
            Err(e) => return Err(ManagerError::Clock(e)),
        };
        let saved = self.store.save(&updated);
        assert(call_ensures(S::load, (&self.store_spec(),), Ok::<Secrets, StoreError>(s0)));
        match saved {
            Ok(u) => {
                assert(saved == Ok::<(), StoreError>(()));
                Ok(())
            },
            Err(e) => {
                Err(ManagerError::Save(e))
            },
        }
    }

    /// The value stored for `key`, as `lookup` finds it in the loaded secrets. An
    /// empty key fails before the store is used; any other key is looked up (one
    /// with a newline is never stored, so it is not found).
    pub fn get(&self, key: &str) -> (res: Result<Option<String>, ManagerError>)
        ensures
            key_fault(key@) matches Some(e) ==> res matches Err(ManagerError::Invalid(f)) && f == e,
            key_fault(key@) is None ==> (res is Ok || res matches Err(ManagerError::Load(_))),
            res matches Err(ManagerError::Load(e)) ==> call_ensures(
                S::load,
                (&self.store_spec(),),
                Err::<Secrets, StoreError>(e),
            ),
            res matches Ok(v) ==> exists|s: Secrets|
                {
                    &&& #[trigger] call_ensures(S::load, (&self.store_spec(),), Ok::<Secrets, StoreError>(s))
                    &&& (v is Some <==> s@.contains_key(key@))
                    &&& v matches Some(x) ==> x@ == s@[key@].0
                },
    {
        match validate_key(key) {
            Err(e) => return Err(ManagerError::Invalid(e)),
            Ok(()) => {},
        }
        let loaded = self.store.load();
        let secrets = match loaded {
            Ok(s) => s,
            Err(e) => return Err(ManagerError::Load(e)),
        };
        let found = lookup(&secrets, key);
        assert(call_ensures(S::load, (&self.store_spec(),), Ok::<Secrets, StoreError>(secrets)));
        Ok(found)
    }

    /// The stored keys that pass `pattern` (a case-insensitive substring), each
    /// with the time it was last set, in key order, as `Secrets::matching` finds
    /// them in the loaded secrets.
    pub fn list(&self, pattern: Option<&str>) -> (res: Result<Vec<(String, Timestamp)>, ManagerError>)
        ensures
            res matches Err(e) ==> e matches ManagerError::Load(l) && call_ensures(
                S::load,
                (&self.store_spec(),),
                Err::<Secrets, StoreError>(l),
            ),
            res matches Ok(v) ==> exists|s: Secrets|
                #[trigger] call_ensures(S::load, (&self.store_spec(),), Ok::<Secrets, StoreError>(s))
                    && listing_of(s, pattern, v@),
            res matches Ok(v) ==> forall|j: int, k: int| 0 <= j < k < v@.len() ==> key_lt(
                #[trigger] v@[j].0@,
                #[trigger] v@[k].0@,
            ),
    {
        let loaded = self.store.load();
        let secrets = match loaded {
            Ok(s) => s,
            Err(e) => return Err(ManagerError::Load(e)),
        };
        let found = secrets.matching(pattern);
        assert(call_ensures(S::load, (&self.store_spec(),), Ok::<Secrets, StoreError>(secrets)));
        Ok(found)
    }
}

/// `t` is `s` with `key` set to `value`, stamped with an instant at or after the
/// epoch, everything else unchanged: the secrets that `add` hands to the store.
pub open spec fn added(s: Secrets, t: Secrets, key: Seq<char>, value: Seq<char>) -> bool {
    &&& t@ == s@.insert(key, (value, t@[key].1))
    &&& t@[key].1.0 >= 0
    &&& t@[key].1.1 < 1_000_000_000
    &&& read_from_clock(t@[key].1)
}

} // verus!
