//! Where secrets are kept: the store interface, and the settings and decisions
//! of the store that keeps them in one gpg-encrypted file.
use crate::crypto::{decrypt_text, encrypt_text, CryptoError, GpgCommand, mode_flags_spec, texts, encrypt_args_spec};
use crate::model::{all_restorable, read_text, whole_seconds, ParseError, Secrets, SecretView};
use crate::format::LineFault;
use crate::text::{join_lines, trim};
use std::path::{Path, PathBuf};
use vstd::prelude::*;
use vstd::std_specs::convert::IntoSpec;

verus! {

/// Why secrets could not be loaded or saved.
#[derive(Debug)]
pub enum StoreError {
    /// Saving needs a gpg recipient and none was set.
    MissingRecipient,
    /// Encryption or decryption failed.
    Crypto(CryptoError),
    /// The decrypted text holds a line that cannot be read.
    Parse(ParseError),
    /// Reading or writing the file failed, as described.
    Io(String),
}

/// Something that loads and saves the whole set of secrets.
pub trait SecretsStore: Clone {
    /// The secrets kept now.
    fn load(&self) -> Result<Secrets, StoreError>;

    /// Keeps `secrets` in place of what was kept.
    fn save(&self, secrets: &Secrets) -> Result<(), StoreError>;
}

/// A store that keeps the secrets in one file, encrypted with gpg for a recipient.
#[derive(Clone, Debug)]
pub struct FileSecretsStore {
    path: PathBuf,
    recipient: Option<String>,
    gnupghome: Option<PathBuf>,
}

impl FileSecretsStore {
    /// The file the secrets are kept in.
    pub closed spec fn path_spec(self) -> PathBuf {
        self.path
    }

    /// The gpg recipient to encrypt for, if set.
    pub closed spec fn recipient_spec(self) -> Option<Seq<char>> {
        match self.recipient {
            Some(r) => Some(r@),
            None => None,
        }
    }

    /// The gpg home directory to use, if set.
    pub closed spec fn gnupghome_spec(self) -> Option<PathBuf> {
        self.gnupghome
    }

    /// A store for the file at `path`, with no recipient and gpg's default home.
    pub fn new(path: PathBuf) -> (res: Self)
        ensures
            res.path_spec() == path,
            res.recipient_spec() is None,
            res.gnupghome_spec() is None,
    {
        FileSecretsStore { path, recipient: None, gnupghome: None }
    }

    /// The same store, encrypting for `recipient`, kept as the conversion into
    /// `String` returns it (for `&str` and `String`, the same text, untrimmed).
    pub fn with_recipient<R: Into<String>>(self, recipient: R) -> (res: Self)
        ensures
            res.path_spec() == self.path_spec(),
            res.gnupghome_spec() == self.gnupghome_spec(),
            exists|r: String| #[trigger] call_ensures(R::into, (recipient,), r) && res.recipient_spec() == Some(r@),
            <R as IntoSpec<String>>::obeys_into_spec() ==> res.recipient_spec() == Some(
                recipient.into_spec()@,
            ),
    {
        let r: String = recipient.into();
        assert(call_ensures(R::into, (recipient,), r));
        FileSecretsStore { path: self.path, recipient: Some(r), gnupghome: self.gnupghome }
    }

    /// The same store, using `gnupghome` as gpg's home directory.
    pub fn with_gnupghome(self, gnupghome: PathBuf) -> (res: Self)
        ensures
            res.path_spec() == self.path_spec(),
            res.recipient_spec() == self.recipient_spec(),
            res.gnupghome_spec() == Some(gnupghome),
    {
        FileSecretsStore { path: self.path, recipient: self.recipient, gnupghome: Some(gnupghome) }
    }

    /// The file the secrets are kept in.
    pub fn path(&self) -> (res: &PathBuf)
        ensures
            *res == self.path_spec(),
    {
        &self.path
    }

    /// The gpg recipient, if set.
    pub fn recipient(&self) -> (res: Option<&str>)
        ensures
            match res {
                Some(r) => self.recipient_spec() == Some(r@),
                None => self.recipient_spec() is None,
            },
    {
        match &self.recipient {
            Some(r) => Some(r.as_str()),
            None => None,
        }
    }

    /// The gpg home directory, if set.
    pub fn gnupghome(&self) -> (res: Option<&PathBuf>)
        ensures
            match res {
                Some(h) => self.gnupghome_spec() == Some(*h),
                None => self.gnupghome_spec() is None,
            },
    {
        match &self.gnupghome {
            Some(h) => Some(h),
            None => None,
        }
    }

    /// The gpg command that encrypts `secrets` for saving: their stored text
    /// encrypted for the recipient. Fails where no recipient is set, or where the
    /// recipient is blank.
    pub fn save_command(&self, secrets: &Secrets, interactive: bool) -> (res: Result<GpgCommand, StoreError>)
        ensures
            self.recipient_spec() is None ==> res matches Err(StoreError::MissingRecipient),
            self.recipient_spec() matches Some(r) ==> (trim(r).len() == 0 <==> res matches Err(
                StoreError::Crypto(CryptoError::MissingRecipient),
            )),
            self.recipient_spec() matches Some(r) && trim(r).len() > 0 ==> res is Ok,
            res matches Ok(c) ==> {
                &&& self.recipient_spec() matches Some(r) && texts(c.args@) == encrypt_args_spec(
                    trim(r),
                )
                &&& texts(c.flags@) == mode_flags_spec(interactive)
                &&& c.homedir == self.gnupghome_spec()
                &&& c.input@ == join_lines(
                    secrets.records().map_values(|r: (Seq<char>, Seq<char>, (i64, u32))| crate::format::record_line(r)),
                )
                &&& all_restorable(secrets@) ==> read_text(c.input@) == Ok::<
                    Map<Seq<char>, SecretView>,
                    (LineFault, Seq<char>),
                >(whole_seconds(secrets@))
            },
    {
        let recipient = match &self.recipient {
            Some(r) => r,
            None => return Err(StoreError::MissingRecipient),
        };
        let plaintext = secrets.to_plaintext();
        let homedir = match &self.gnupghome {
            Some(h) => Some(h),
            None => None,
        };
        match encrypt_text(plaintext.as_str(), recipient.as_str(), homedir, interactive) {
            Ok(c) => Ok(c),
            Err(e) => Err(StoreError::Crypto(e)),
        }
    }

    /// The gpg command that decrypts the file's `ciphertext` for loading.
    pub fn load_command(&self, ciphertext: &str, interactive: bool) -> (res: GpgCommand)
        ensures
            texts(res.flags@) == mode_flags_spec(interactive),
            res.homedir == self.gnupghome_spec(),
            texts(res.args@) == seq!["--decrypt"@],
            res.input@ == ciphertext@,
    {
        let homedir = match &self.gnupghome {
            Some(h) => Some(h),
            None => None,
        };
        decrypt_text(ciphertext, homedir, interactive)
    }
}

/// `String::from` on a string slice (std's `impl From<&str> for String`): std
/// documents it as converting the slice into an owned `String`; the claim is that
/// the text is the same.
pub assume_specification<'a>[ <String as From<&'a str>>::from ](s: &str) -> (res: String)
    ensures
        res@ == s@,
;

/// std's blanket `impl<T> From<T> for T`, documented as returning its argument
/// unchanged.
pub assume_specification<Val>[ <Val as From<Val>>::from ](t: Val) -> (res: Val)
    ensures
        res == t,
;

/// Calls `PathBuf::as_path`. Nothing is claimed of the result: Verus sees `Path`
/// and `PathBuf` only as opaque values, and no name may take them, so no clause
/// ties the path returned to the one stored.
#[verifier::external_body]
fn path_of(p: &PathBuf) -> &Path {
    p.as_path()
}

impl AsRef<Path> for FileSecretsStore {
    /// The file the secrets are kept in.
    fn as_ref(&self) -> &Path {
        path_of(&self.path)
    }
}

/// The secrets in a decrypted text; a missing file holds none.
pub fn secrets_from_plaintext(plaintext: Option<&str>) -> (res: Result<Secrets, StoreError>)
    ensures
        plaintext is None ==> (res matches Ok(s) && s@ == Map::<Seq<char>, SecretView>::empty()),
        plaintext matches Some(t) ==> match res {
            Ok(s) => read_text(t@) == Ok::<Map<Seq<char>, SecretView>, (LineFault, Seq<char>)>(s@),
            Err(e) => e matches StoreError::Parse(p) && read_text(t@) == Err::<
                Map<Seq<char>, SecretView>,
                (LineFault, Seq<char>),
            >(p@),
        },
{
    match plaintext {
        None => Ok(Secrets::new()),
        Some(t) => match Secrets::from_plaintext(t) {
            Ok(s) => Ok(s),
            Err(p) => Err(StoreError::Parse(p)),
        },
    }
}

} // verus!
