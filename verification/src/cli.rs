//! The decisions of the command-line program: which settings a command needs,
//! which source of a setting wins, how a new value is confirmed, what a listing
//! prints and which exit code each outcome gives.
use crate::timestamp::{rfc3339_utc_text, Timestamp};
use vstd::prelude::*;

verus! {

/// A command of the program.
#[derive(Debug)]
pub enum Command {
    /// Store or update the secret `key`; its value is asked for.
    Add { key: String },
    /// Print the value of the secret `key`.
    Get { key: String },
    /// Print the stored keys that contain `pattern` (ignoring case), with the
    /// time each was last set where asked.
    List { pattern: Option<String>, with_timestamps: bool },
}

impl Command {
    /// Only `add` encrypts, so only it needs a gpg recipient.
    pub fn needs_recipient(&self) -> (res: bool)
        ensures
            res == (self is Add),
    {
        match self {
            Command::Add { .. } => true,
            _ => false,
        }
    }

    /// `add` and `get` ask for a secrets file when none is set; `list` uses the default.
    pub fn needs_file(&self) -> (res: bool)
        ensures
            res == !(self is List),
    {
        match self {
            Command::List { .. } => false,
            _ => true,
        }
    }
}

/// The first of the settings that is set: flag, then environment, then the saved
/// default.
pub fn choose_setting<T>(flag: Option<T>, env: Option<T>, saved: Option<T>) -> (res: Option<T>)
    ensures
        res == match flag {
            Some(f) => Some(f),
            None => match env {
                Some(e) => Some(e),
                None => saved,
            },
        },
{
    match flag {
        Some(f) => Some(f),
        None => match env {
            Some(e) => Some(e),
            None => saved,
        },
    }
}

/// Whether a first-run question is due: a needed setting is unset.
pub fn needs_defaults(command: &Command, file_set: bool, recipient_set: bool) -> (res: bool)
    ensures
        res == ((!(command is List) && !file_set) || (command is Add && !recipient_set)),
{
    (command.needs_file() && !file_set) || (command.needs_recipient() && !recipient_set)
}

/// The secrets file used when none is set.
pub fn default_file() -> (res: String)
    ensures
        res@ == "secrets.enc"@,
{
    "secrets.enc".to_owned()
}

/// Why a value typed for `add` is refused.
#[derive(Clone, Copy, Debug, PartialEq, Eq, Structural)]
pub enum EntryError {
    /// The value is empty.
    EmptyValue,
    /// The confirmation differs from the value.
    Mismatch,
}

impl EntryError {
    /// The message that describes the error.
    pub fn message(&self) -> (res: &'static str)
        ensures
            res@ == match self {
                EntryError::EmptyValue => "value must not be empty"@,
                EntryError::Mismatch => "values do not match"@,
            },
    {
        match self {
            EntryError::EmptyValue => "value must not be empty",
            EntryError::Mismatch => "values do not match",
        }
    }
}

/// Accepts a typed value that is not empty and that the confirmation repeats.
pub fn check_new_value(value: &String, confirm: &String) -> (res: Result<(), EntryError>)
    ensures
        value@.len() == 0 ==> res == Err::<(), EntryError>(EntryError::EmptyValue),
        value@.len() > 0 && value@ != confirm@ ==> res == Err::<(), EntryError>(EntryError::Mismatch),
        value@.len() > 0 && value@ == confirm@ ==> res is Ok,
{
    if value.as_str().is_empty() {
        return Err(EntryError::EmptyValue);
    }
    if *value != *confirm {
        return Err(EntryError::Mismatch);
    }
    Ok(())
}

/// The exit code of `get`: 0 when the key was found, 1 when it was not.
pub fn get_exit_code(found: bool) -> (res: i32)
    ensures
        res == if found {
            0i32
        } else {
            1i32
        },
{
    if found {
        0
    } else {
        1
    }
}

/// The exit code of a command that failed.
pub fn failure_exit_code() -> (res: i32)
    ensures
        res == 2,
{
    2
}

/// The line printed for a listed key: the key, or the key, a space and the time
/// it was last set.
pub open spec fn listing_line(key: Seq<char>, ts: (i64, u32), with_timestamps: bool) -> Seq<char> {
    if with_timestamps {
        key + seq![' '] + rfc3339_utc_text(ts.0, ts.1)
    } else {
        key
    }
}

/// The lines that `list` prints, one per key, in the order given.
pub fn listing_lines(entries: &Vec<(String, Timestamp)>, with_timestamps: bool) -> (res: Vec<String>)
    ensures
        res@.len() == entries@.len(),
        forall|i: int| 0 <= i < res@.len() ==> #[trigger] res@[i]@ == listing_line(
            entries@[i].0@,
            entries@[i].1@,
            with_timestamps,
        ),
{
    let mut out: Vec<String> = Vec::new();
    let mut i: usize = 0;
    while i < entries.len()
        invariant
            i <= entries@.len(),
            out@.len() == i,
            forall|j: int| 0 <= j < i ==> #[trigger] out@[j]@ == listing_line(
                entries@[j].0@,
                entries@[j].1@,
                with_timestamps,
            ),
        decreases entries@.len() - i,
    {
        let (key, ts) = &entries[i];
        let mut line = key.clone();
        if with_timestamps {
            line.append(" ");
            let t = ts.to_rfc3339();
            line.append(t.as_str());
            proof {
                reveal_strlit(" ");
            }
        }
        out.push(line);
        i = i + 1;
    }
    out
}

} // verus!
