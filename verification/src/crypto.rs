//! Encryption at rest through the `gpg` program: the command lines to run, and
//! how its output is read. Running the program is left to the caller.
use crate::codec::utf8_string;
use crate::text::{chars_of, copy_range, trim, trim_bounds};
use crate::codec::string_from_chars;
use std::path::PathBuf;
use vstd::prelude::*;
use vstd::utf8::{decode_utf8, valid_utf8};

verus! {

#[verifier::external_type_specification]
#[verifier::external_body]
pub struct ExPathBuf(PathBuf);

#[verifier::external_type_specification]
#[verifier::external_body]
pub struct ExPath(std::path::Path);

/// `PathBuf::clone`: the copy is the same path.
pub assume_specification[ <PathBuf as Clone>::clone ](p: &PathBuf) -> (res: PathBuf)
    ensures
        res == *p,
;

/// The text that `String::from_utf8_lossy` makes of `bytes`.
pub uninterp spec fn utf8_lossy_text(bytes: Seq<u8>) -> Seq<char>;

/// Calls `String::from_utf8_lossy`. Claimed of it, as std documents: the result is
/// named by `utf8_lossy_text`, and on valid UTF-8 it is the text that the bytes encode.
#[verifier::external_body]
fn lossy_string(bytes: &[u8]) -> (res: String)
    ensures
        res@ == utf8_lossy_text(bytes@),
        valid_utf8(bytes@) ==> res@ == decode_utf8(bytes@),
{
    String::from_utf8_lossy(bytes).into_owned()
}

/// Which gpg operation produced an output.
#[derive(Clone, Copy, Debug, PartialEq, Eq, Structural)]
pub enum GpgOperation {
    Encrypt,
    Decrypt,
}

/// Why encryption or decryption failed.
#[derive(Debug)]
pub enum CryptoError {
    /// The recipient was empty or only white space.
    MissingRecipient,
    /// gpg exited unsuccessfully: its exit status as the system describes it,
    /// and what it wrote to standard error, trimmed.
    GpgFailed { status: String, stderr: String },
    /// The operation's output is not UTF-8.
    OutputNotUtf8(GpgOperation),
}

/// A gpg invocation: `gpg <flags> [--homedir <homedir>] <args>`, with `input`
/// written to its standard input.
#[derive(Debug)]
pub struct GpgCommand {
    pub flags: Vec<String>,
    pub homedir: Option<PathBuf>,
    pub args: Vec<String>,
    pub input: String,
}

/// The flags for a terminal session (gpg may ask for a passphrase) or for a
/// batch run (gpg must never prompt).
pub open spec fn mode_flags_spec(interactive: bool) -> Seq<Seq<char>> {
    if interactive {
        seq!["--yes"@]
    } else {
        seq!["--batch"@, "--yes"@, "--no-tty"@]
    }
}

/// The arguments that encrypt for `recipient` into ASCII armor.
pub open spec fn encrypt_args_spec(recipient: Seq<char>) -> Seq<Seq<char>> {
    seq!["--armor"@, "--trust-model"@, "always"@, "--encrypt"@, "--recipient"@, recipient]
}

/// The views of a list of strings.
pub open spec fn texts(v: Seq<String>) -> Seq<Seq<char>> {
    v.map_values(|s: String| s@)
}

fn owned(s: &str) -> (res: String)
    ensures
        res@ == s@,
{
    s.to_owned()
}

/// The mode flags: `--yes` in a terminal; `--batch --yes --no-tty` otherwise.
pub fn mode_flags(interactive: bool) -> (res: Vec<String>)
    ensures
        texts(res@) == mode_flags_spec(interactive),
{
    let mut v: Vec<String> = Vec::new();
    if interactive {
        v.push(owned("--yes"));
    } else {
        v.push(owned("--batch"));
        v.push(owned("--yes"));
        v.push(owned("--no-tty"));
    }
    assert(texts(v@) =~= mode_flags_spec(interactive));
    v
}

/// The gpg command that encrypts `plaintext` for `recipient` (trimmed) as an
/// ASCII-armored message; an error where the recipient is blank.
pub fn encrypt_text(plaintext: &str, recipient: &str, homedir: Option<&PathBuf>, interactive: bool) -> (res: Result<GpgCommand, CryptoError>)
    ensures
        trim(recipient@).len() == 0 <==> res is Err,
        res matches Err(e) ==> e is MissingRecipient,
        res matches Ok(c) ==> {
            &&& texts(c.flags@) == mode_flags_spec(interactive)
            &&& c.homedir == match homedir {
                Some(h) => Some(*h),
                None => None,
            }
            &&& texts(c.args@) == encrypt_args_spec(trim(recipient@))
            &&& c.input@ == plaintext@
        },
{
    let rc = chars_of(recipient);
    let (a, b) = trim_bounds(rc.as_slice());
    if a == b {
        return Err(CryptoError::MissingRecipient);
    }
    let r = string_from_chars(copy_range(rc.as_slice(), a, b).as_slice());
    let mut args: Vec<String> = Vec::new();
    args.push(owned("--armor"));
    args.push(owned("--trust-model"));
    args.push(owned("always"));
    args.push(owned("--encrypt"));
    args.push(owned("--recipient"));
    args.push(r);
    assert(texts(args@) =~= encrypt_args_spec(trim(recipient@)));
    let homedir = match homedir {
        Some(h) => Some(h.clone()),
        None => None,
    };
    Ok(GpgCommand { flags: mode_flags(interactive), homedir, args, input: owned(plaintext) })
}

/// The gpg command that decrypts `ciphertext` (armored or binary).
pub fn decrypt_text(ciphertext: &str, homedir: Option<&PathBuf>, interactive: bool) -> (res: GpgCommand)
    ensures
        texts(res.flags@) == mode_flags_spec(interactive),
        res.homedir == match homedir {
            Some(h) => Some(*h),
            None => None,
        },
        texts(res.args@) == seq!["--decrypt"@],
        res.input@ == ciphertext@,
{
    let mut args: Vec<String> = Vec::new();
    args.push(owned("--decrypt"));
    assert(texts(args@) =~= seq!["--decrypt"@]);
    let homedir = match homedir {
        Some(h) => Some(h.clone()),
        None => None,
    };
    GpgCommand { flags: mode_flags(interactive), homedir, args, input: owned(ciphertext) }
}

/// What a finished gpg run gives: its standard output as text, an error with its
/// exit status and trimmed standard error where it failed, or an error where the
/// output is not UTF-8.
pub fn gpg_outcome(success: bool, status: &str, stdout: Vec<u8>, stderr: &[u8], operation: GpgOperation) -> (res: Result<String, CryptoError>)
    ensures
        !success ==> (res matches Err(CryptoError::GpgFailed { status: s, stderr: e }) && s@
            == status@ && e@ == trim(utf8_lossy_text(stderr@))),
        success && valid_utf8(stdout@) ==> (res matches Ok(t) && t@ == decode_utf8(stdout@)),
        success && !valid_utf8(stdout@) ==> (res matches Err(CryptoError::OutputNotUtf8(op))
            && op == operation),
{
    if !success {
        let text = lossy_string(stderr);
        let tc = chars_of(text.as_str());
        let (a, b) = trim_bounds(tc.as_slice());
        let e = string_from_chars(copy_range(tc.as_slice(), a, b).as_slice());
        return Err(CryptoError::GpgFailed { status: owned(status), stderr: e });
    }
    match utf8_string(stdout) {
        Some(t) => Ok(t),
        None => Err(CryptoError::OutputNotUtf8(operation)),
    }
}

impl CryptoError {
    /// The message that describes the error.
    pub fn message(&self) -> (res: String)
        ensures
            res@ == match self {
                CryptoError::MissingRecipient => "missing GPG recipient"@,
                CryptoError::GpgFailed { status, stderr } => if stderr@.len() == 0 {
                    "gpg failed with exit status: "@ + status@
                } else {
                    "gpg failed: "@ + stderr@
                },
                CryptoError::OutputNotUtf8(GpgOperation::Encrypt) => "gpg output is not UTF-8"@,
                CryptoError::OutputNotUtf8(GpgOperation::Decrypt) => "decrypted output is not UTF-8"@,
            },
    {
        match self {
            CryptoError::MissingRecipient => owned("missing GPG recipient"),
            CryptoError::GpgFailed { status, stderr } => {
                if stderr.as_str().is_empty() {
                    let mut m = owned("gpg failed with exit status: ");
                    m.append(status.as_str());
                    m
                } else {
                    let mut m = owned("gpg failed: ");
                    m.append(stderr.as_str());
                    m
                }
            },
            CryptoError::OutputNotUtf8(GpgOperation::Encrypt) => owned("gpg output is not UTF-8"),
            CryptoError::OutputNotUtf8(GpgOperation::Decrypt) => owned("decrypted output is not UTF-8"),
        }
    }
}

} // verus!
