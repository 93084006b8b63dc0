//! The user's defaults (gpg recipient and secrets file) kept in
//! `$HOME/.secrets-manager/config.toml`: where they live, what the permissions
//! of that directory and file must be, how values are cleaned, and which
//! values a first run asks for. Reading, writing and prompting are left to the
//! caller.
use crate::codec::string_from_chars;
use crate::text::{chars_of, copy_range, trim, trim_bounds};
use vstd::prelude::*;

verus! {

/// The defaults: a gpg recipient and a secrets file, each possibly unset.
#[derive(Debug)]
pub struct AppConfig {
    pub gpg_recipient: Option<String>,
    pub file: Option<String>,
}

/// The text of an optional string.
pub open spec fn opt_text(o: Option<String>) -> Option<Seq<char>> {
    match o {
        Some(s) => Some(s@),
        None => None,
    }
}

impl View for AppConfig {
    type V = (Option<Seq<char>>, Option<Seq<char>>);

    /// The recipient and the file.
    open spec fn view(&self) -> (Option<Seq<char>>, Option<Seq<char>>) {
        (opt_text(self.gpg_recipient), opt_text(self.file))
    }
}

fn clone_opt(o: &Option<String>) -> (res: Option<String>)
    ensures
        opt_text(res) == opt_text(*o),
{
    match o {
        Some(s) => Some(s.clone()),
        None => None,
    }
}

impl Clone for AppConfig {
    fn clone(&self) -> (res: Self)
        ensures
            res@ == self@,
    {
        AppConfig { gpg_recipient: clone_opt(&self.gpg_recipient), file: clone_opt(&self.file) }
    }
}

impl Default for AppConfig {
    /// Neither default set.
    fn default() -> (res: Self)
        ensures
            res@ == (None::<Seq<char>>, None::<Seq<char>>),
    {
        AppConfig { gpg_recipient: None, file: None }
    }
}

/// A value kept only where it is not blank.
pub open spec fn non_blank(o: Option<Seq<char>>) -> Option<Seq<char>> {
    match o {
        Some(s) => if trim(s).len() == 0 {
            None
        } else {
            Some(s)
        },
        None => None,
    }
}

/// `s`, unless it is empty or only white space.
pub fn non_empty(s: String) -> (res: Option<String>)
    ensures
        opt_text(res) == non_blank(Some(s@)),
{
    let chars = chars_of(s.as_str());
    let (a, b) = trim_bounds(chars.as_slice());
    if a == b {
        None
    } else {
        Some(s)
    }
}

/// The defaults with blank values unset, as they are saved and loaded.
pub fn normalize(cfg: AppConfig) -> (res: AppConfig)
    ensures
        res@ == (non_blank(cfg@.0), non_blank(cfg@.1)),
{
    let gpg_recipient = match cfg.gpg_recipient {
        Some(r) => non_empty(r),
        None => None,
    };
    let file = match cfg.file {
        Some(f) => non_empty(f),
        None => None,
    };
    AppConfig { gpg_recipient, file }
}

/// Cleaning defaults twice is cleaning them once: what is loaded after a save
/// is what was saved.
pub proof fn lemma_normalize_idempotent(cfg: (Option<Seq<char>>, Option<Seq<char>>))
    ensures
        non_blank(non_blank(cfg.0)) == non_blank(cfg.0),
        non_blank(non_blank(cfg.1)) == non_blank(cfg.1),
{
}

/// Why the defaults cannot be located or used.
#[derive(Debug)]
pub enum ConfigError {
    /// `$HOME` is not set.
    HomeNotSet,
    /// The configuration directory has other permissions than 0700.
    DirPermissions { dir: String, mode: u32 },
    /// The configuration file has other permissions than 0600.
    FilePermissions { path: String, mode: u32 },
}

/// `comp` (a relative name) appended to the path `base`, with one `/` between,
/// as `Path::join` does on Unix.
pub open spec fn join_path(base: Seq<char>, comp: Seq<char>) -> Seq<char> {
    if base.len() == 0 || base.last() == '/' {
        base + comp
    } else {
        base + seq!['/'] + comp
    }
}

fn join_path_exec(base: &str, comp: &str) -> (res: String)
    ensures
        res@ == join_path(base@, comp@),
{
    let chars = chars_of(base);
    let mut out = base.to_owned();
    if chars.len() > 0 && chars[chars.len() - 1] != '/' {
        out.append("/");
        proof {
            reveal_strlit("/");
        }
    }
    out.append(comp);
    out
}

/// The configuration directory, `$HOME/.secrets-manager`, given `$HOME`.
pub fn config_dir(home: Option<&str>) -> (res: Result<String, ConfigError>)
    ensures
        home is None <==> res is Err,
        res matches Err(e) ==> e is HomeNotSet,
        res matches Ok(d) ==> home matches Some(h) && d@ == join_path(h@, ".secrets-manager"@),
{
    match home {
        None => Err(ConfigError::HomeNotSet),
        Some(h) => Ok(join_path_exec(h, ".secrets-manager")),
    }
}

/// The configuration file, `$HOME/.secrets-manager/config.toml`, given `$HOME`.
pub fn config_path(home: Option<&str>) -> (res: Result<String, ConfigError>)
    ensures
        home is None <==> res is Err,
        res matches Err(e) ==> e is HomeNotSet,
        res matches Ok(p) ==> home matches Some(h) && p@ == join_path(
            join_path(h@, ".secrets-manager"@),
            "config.toml"@,
        ),
{
    let dir = config_dir(home)?;
    Ok(join_path_exec(dir.as_str(), "config.toml"))
}

/// The permission bits of a file mode (`mode & 0o777`).
pub fn permission_bits(mode: u32) -> (res: u32)
    ensures
        res == mode % 512,
{
    assert(mode & 511 == mode % 512) by (bit_vector);
    mode & 0o777
}

/// Accepts the configuration directory only with permissions 0700.
pub fn check_dir_mode(dir: &str, mode: u32) -> (res: Result<(), ConfigError>)
    ensures
        res is Ok <==> mode == 0o700,
        res matches Err(e) ==> (e matches ConfigError::DirPermissions { dir: d, mode: m } && d@
            == dir@ && m == mode),
{
    if mode != 0o700 {
        return Err(ConfigError::DirPermissions { dir: dir.to_owned(), mode });
    }
    Ok(())
}

/// Accepts the configuration file only with permissions 0600.
pub fn check_file_mode(path: &str, mode: u32) -> (res: Result<(), ConfigError>)
    ensures
        res is Ok <==> mode == 0o600,
        res matches Err(e) ==> (e matches ConfigError::FilePermissions { path: p, mode: m } && p@
            == path@ && m == mode),
{
    if mode != 0o600 {
        return Err(ConfigError::FilePermissions { path: path.to_owned(), mode });
    }
    Ok(())
}

/// The octal digit for `d` (below 8).
pub open spec fn octal_digit(d: nat) -> char {
    if d == 0 {
        '0'
    } else if d == 1 {
        '1'
    } else if d == 2 {
        '2'
    } else if d == 3 {
        '3'
    } else if d == 4 {
        '4'
    } else if d == 5 {
        '5'
    } else if d == 6 {
        '6'
    } else {
        '7'
    }
}

/// `n` in octal, without leading zeros (what `{:o}` writes).
pub open spec fn octal_text(n: nat) -> Seq<char>
    decreases n,
{
    if n < 8 {
        seq![octal_digit(n)]
    } else {
        octal_text(n / 8).push(octal_digit(n % 8))
    }
}

fn octal_digit_exec(d: u32) -> (res: char)
    requires
        d < 8,
    ensures
        res == octal_digit(d as nat),
{
    if d == 0 {
        '0'
    } else if d == 1 {
        '1'
    } else if d == 2 {
        '2'
    } else if d == 3 {
        '3'
    } else if d == 4 {
        '4'
    } else if d == 5 {
        '5'
    } else if d == 6 {
        '6'
    } else {
        '7'
    }
}

fn octal_chars(n: u32) -> (res: Vec<char>)
    ensures
        res@ == octal_text(n as nat),
    decreases n,
{
    if n < 8 {
        let mut v: Vec<char> = Vec::new();
        v.push(octal_digit_exec(n));
        assert(v@ =~= octal_text(n as nat));
        v
    } else {
        let mut v = octal_chars(n / 8);
        v.push(octal_digit_exec(n % 8));
        v
    }
}

impl ConfigError {
    /// The message that describes the error.
    pub fn message(&self) -> (res: String)
        ensures
            res@ == match self {
                ConfigError::HomeNotSet => "$HOME is not set; cannot locate config directory"@,
                ConfigError::DirPermissions { dir, mode } => "config directory "@ + dir@
                    + " must have permissions 0700 (current: "@ + octal_text(*mode as nat)
                    + "); run: chmod 700 "@ + dir@,
                ConfigError::FilePermissions { path, mode } => "config file "@ + path@
                    + " must have permissions 0600 (current: "@ + octal_text(*mode as nat)
                    + "); run: chmod 600 "@ + path@,
            },
    {
        match self {
            ConfigError::HomeNotSet => "$HOME is not set; cannot locate config directory".to_owned(),
            ConfigError::DirPermissions { dir, mode } => {
                let octal = string_from_chars(octal_chars(*mode).as_slice());
                let mut m = "config directory ".to_owned();
                m.append(dir.as_str());
                m.append(" must have permissions 0700 (current: ");
                m.append(octal.as_str());
                m.append("); run: chmod 700 ");
                m.append(dir.as_str());
                m
            },
            ConfigError::FilePermissions { path, mode } => {
                let octal = string_from_chars(octal_chars(*mode).as_slice());
                let mut m = "config file ".to_owned();
                m.append(path.as_str());
                m.append(" must have permissions 0600 (current: ");
                m.append(octal.as_str());
                m.append("); run: chmod 600 ");
                m.append(path.as_str());
                m
            },
        }
    }
}

/// A default that a first run asks for.
#[derive(Clone, Copy, Debug, PartialEq, Eq, Structural)]
pub enum ConfigPrompt {
    /// The secrets file (offered with `secrets.enc`).
    File,
    /// The gpg recipient (which must not be blank).
    Recipient,
}

impl ConfigPrompt {
    /// The question asked.
    pub fn label(&self) -> (res: &'static str)
        ensures
            res@ == match self {
                ConfigPrompt::File => "Default encrypted file path"@,
                ConfigPrompt::Recipient => "Default GPG recipient (email/keyid/fingerprint)"@,
            },
    {
        match self {
            ConfigPrompt::File => "Default encrypted file path",
            ConfigPrompt::Recipient => "Default GPG recipient (email/keyid/fingerprint)",
        }
    }

    /// The answer taken when the input is blank.
    pub fn default_answer(&self) -> (res: Option<&'static str>)
        ensures
            match self {
                ConfigPrompt::File => res matches Some(d) && d@ == "secrets.enc"@,
                ConfigPrompt::Recipient => res is None,
            },
    {
        match self {
            ConfigPrompt::File => Some("secrets.enc"),
            ConfigPrompt::Recipient => None,
        }
    }

    /// Whether a blank answer is refused (and the question asked again).
    pub fn requires_non_empty(&self) -> (res: bool)
        ensures
            res == (*self == ConfigPrompt::Recipient),
    {
        match self {
            ConfigPrompt::File => false,
            ConfigPrompt::Recipient => true,
        }
    }
}

/// The questions of a first run: none without a terminal; otherwise the file
/// where it is needed and unset, then the recipient where it is needed and unset.
pub open spec fn prompts_needed(
    cfg: (Option<Seq<char>>, Option<Seq<char>>),
    require_recipient: bool,
    require_file: bool,
    interactive: bool,
) -> Seq<ConfigPrompt> {
    if !interactive {
        Seq::empty()
    } else {
        (if require_file && cfg.1 is None {
            seq![ConfigPrompt::File]
        } else {
            Seq::empty()
        }) + (if require_recipient && cfg.0 is None {
            seq![ConfigPrompt::Recipient]
        } else {
            Seq::empty()
        })
    }
}

/// The questions to ask for the defaults that are needed and unset, in order;
/// none where there is no terminal to ask on.
pub fn prompt_for_missing(cfg: &AppConfig, require_recipient: bool, require_file: bool, interactive: bool) -> (res: Vec<ConfigPrompt>)
    ensures
        res@ == prompts_needed(cfg@, require_recipient, require_file, interactive),
        res@.contains(ConfigPrompt::Recipient) <==> (interactive && require_recipient && cfg.gpg_recipient is None),
        res@.contains(ConfigPrompt::File) <==> (interactive && require_file && cfg.file is None),
{
    proof {
        crate::laws::lemma_first_run_asks_for_what_is_missing(cfg@, require_recipient, require_file, interactive);
    }
    let mut v: Vec<ConfigPrompt> = Vec::new();
    if !interactive {
        assert(v@ =~= prompts_needed(cfg@, require_recipient, require_file, interactive));
        return v;
    }
    if require_file && cfg.file.is_none() {
        v.push(ConfigPrompt::File);
    }
    if require_recipient && cfg.gpg_recipient.is_none() {
        v.push(ConfigPrompt::Recipient);
    }
    assert(v@ =~= prompts_needed(cfg@, require_recipient, require_file, interactive));
    v
}

/// The answer that an input line gives: the input trimmed, or the default where
/// that is empty (the empty text without a default).
pub open spec fn answer_text(input: Seq<char>, default: Option<Seq<char>>) -> Seq<char> {
    if trim(input).len() == 0 {
        match default {
            Some(d) => d,
            None => Seq::empty(),
        }
    } else {
        trim(input)
    }
}

/// The answer that an input line gives, or `None` where a blank answer is
/// refused and the question must be asked again.
pub fn resolve_prompt_input(input: &str, default: Option<&str>, require_non_empty: bool) -> (res: Option<String>)
    ensures
        ({
            let a = answer_text(
                input@,
                match default {
                    Some(d) => Some(d@),
                    None => None,
                },
            );
            if require_non_empty && trim(a).len() == 0 {
                res is None
            } else {
                res matches Some(v) && v@ == a
            }
        }),
{
    let chars = chars_of(input);
    let (a, b) = trim_bounds(chars.as_slice());
    let value = if a == b {
        match default {
            Some(d) => d.to_owned(),
            None => String::new(),
        }
    } else {
        string_from_chars(copy_range(chars.as_slice(), a, b).as_slice())
    };
    if require_non_empty {
        let vc = chars_of(value.as_str());
        let (c, d) = trim_bounds(vc.as_slice());
        if c == d {
            return None;
        }
    }
    Some(value)
}

/// The defaults with the answer to `prompt` set.
pub fn apply_answer(cfg: AppConfig, prompt: ConfigPrompt, answer: String) -> (res: AppConfig)
    ensures
        res@ == match prompt {
            ConfigPrompt::File => (cfg@.0, Some(answer@)),
            ConfigPrompt::Recipient => (Some(answer@), cfg@.1),
        },
{
    match prompt {
        ConfigPrompt::File => AppConfig { gpg_recipient: cfg.gpg_recipient, file: Some(answer) },
        ConfigPrompt::Recipient => AppConfig { gpg_recipient: Some(answer), file: cfg.file },
    }
}

} // verus!
