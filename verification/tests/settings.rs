use secrets_manager::cli::{check_new_value, choose_setting, default_file, failure_exit_code, get_exit_code, listing_lines, needs_defaults, Command, EntryError};
use secrets_manager::config::{
    apply_answer, check_dir_mode, check_file_mode, config_dir, config_path, non_empty, normalize, permission_bits,
    prompt_for_missing, resolve_prompt_input, AppConfig, ConfigError, ConfigPrompt,
};
use secrets_manager::crypto::{decrypt_text, encrypt_text, gpg_outcome, mode_flags, CryptoError, GpgOperation};
use secrets_manager::store::{secrets_from_plaintext, StoreError};
use secrets_manager::text::{join_with_newlines, split_lines};
use secrets_manager::timestamp::Timestamp;
use secrets_manager::{FileSecretsStore, Secrets};
use std::path::PathBuf;

#[test]
fn load_errors_on_too_permissive_file() {
    let err = check_file_mode("/home/me/.secrets-manager/config.toml", permission_bits(0o100644)).unwrap_err();
    let msg = err.message();
    assert!(msg.contains("permissions 0600"));
    assert_eq!(
        msg,
        "config file /home/me/.secrets-manager/config.toml must have permissions 0600 (current: 644); run: chmod 600 /home/me/.secrets-manager/config.toml"
    );
    assert!(check_file_mode("f", 0o600).is_ok());
}

#[test]
fn directory_permissions() {
    assert!(check_dir_mode("d", 0o700).is_ok());
    let err = check_dir_mode("d", 0o755).unwrap_err();
    assert!(matches!(err, ConfigError::DirPermissions { mode: 0o755, .. }));
    assert_eq!(err.message(), "config directory d must have permissions 0700 (current: 755); run: chmod 700 d");
    assert_eq!(check_dir_mode("d", 0).unwrap_err().message(), "config directory d must have permissions 0700 (current: 0); run: chmod 700 d");
    assert_eq!(permission_bits(0o40700), 0o700);
}

#[test]
fn config_locations() {
    assert_eq!(config_dir(Some("/home/me")).unwrap(), "/home/me/.secrets-manager");
    assert_eq!(config_dir(Some("/home/me/")).unwrap(), "/home/me/.secrets-manager");
    assert_eq!(config_path(Some("/home/me")).unwrap(), "/home/me/.secrets-manager/config.toml");
    let err = config_dir(None).unwrap_err();
    assert!(matches!(err, ConfigError::HomeNotSet));
    assert_eq!(err.message(), "$HOME is not set; cannot locate config directory");
    assert!(config_path(None).is_err());
}

#[test]
fn blank_defaults_are_dropped() {
    assert_eq!(non_empty("  ".to_string()), None);
    assert_eq!(non_empty("".to_string()), None);
    assert_eq!(non_empty(" x ".to_string()).as_deref(), Some(" x "));
    let cfg = normalize(AppConfig { gpg_recipient: Some("\t\n".to_string()), file: Some("/tmp/secrets.enc".to_string()) });
    assert_eq!(cfg.gpg_recipient, None);
    assert_eq!(cfg.file.as_deref(), Some("/tmp/secrets.enc"));
    let again = normalize(cfg.clone());
    assert_eq!(again.file, cfg.file);
    let d = AppConfig::default();
    assert!(d.gpg_recipient.is_none() && d.file.is_none());
}

#[test]
fn first_run_questions() {
    let empty = AppConfig::default();
    assert_eq!(prompt_for_missing(&empty, true, true, true), vec![ConfigPrompt::File, ConfigPrompt::Recipient]);
    assert_eq!(prompt_for_missing(&empty, false, true, true), vec![ConfigPrompt::File]);
    assert!(prompt_for_missing(&empty, true, true, false).is_empty());
    let full = AppConfig { gpg_recipient: Some("me@example.com".to_string()), file: Some("f".to_string()) };
    assert!(prompt_for_missing(&full, true, true, true).is_empty());
    assert_eq!(ConfigPrompt::File.default_answer(), Some("secrets.enc"));
    assert_eq!(ConfigPrompt::Recipient.default_answer(), None);
    assert!(ConfigPrompt::Recipient.requires_non_empty());
    assert_eq!(ConfigPrompt::File.label(), "Default encrypted file path");
    let cfg = apply_answer(empty, ConfigPrompt::File, "secrets.enc".to_string());
    let cfg = apply_answer(cfg, ConfigPrompt::Recipient, "me@example.com".to_string());
    assert_eq!(cfg.file.as_deref(), Some("secrets.enc"));
    assert_eq!(cfg.gpg_recipient.as_deref(), Some("me@example.com"));
}

#[test]
fn prompt_answers() {
    assert_eq!(resolve_prompt_input("  /x/y \n", Some("secrets.enc"), false).as_deref(), Some("/x/y"));
    assert_eq!(resolve_prompt_input("\n", Some("secrets.enc"), false).as_deref(), Some("secrets.enc"));
    assert_eq!(resolve_prompt_input("   ", None, true), None);
    assert_eq!(resolve_prompt_input("", None, false).as_deref(), Some(""));
}

#[test]
fn gpg_commands() {
    assert_eq!(mode_flags(true), vec!["--yes"]);
    assert_eq!(mode_flags(false), vec!["--batch", "--yes", "--no-tty"]);
    let c = encrypt_text("secret text", "  me@example.com ", Some(&PathBuf::from("/g")), false).unwrap();
    assert_eq!(c.args, vec!["--armor", "--trust-model", "always", "--encrypt", "--recipient", "me@example.com"]);
    assert_eq!(c.flags, vec!["--batch", "--yes", "--no-tty"]);
    assert_eq!(c.homedir, Some(PathBuf::from("/g")));
    assert_eq!(c.input, "secret text");
    assert!(matches!(encrypt_text("t", "   ", None, true), Err(CryptoError::MissingRecipient)));
    assert_eq!(CryptoError::MissingRecipient.message(), "missing GPG recipient");
    let d = decrypt_text("-----BEGIN PGP MESSAGE-----", None, true);
    assert_eq!(d.args, vec!["--decrypt"]);
    assert_eq!(d.flags, vec!["--yes"]);
    assert_eq!(d.homedir, None);
}

#[test]
fn gpg_outcomes() {
    assert_eq!(gpg_outcome(true, "exit status: 0", b"plain".to_vec(), b"", GpgOperation::Decrypt).unwrap(), "plain");
    let e = gpg_outcome(false, "exit status: 2", Vec::new(), b"  no secret key \n", GpgOperation::Decrypt).unwrap_err();
    assert_eq!(e.message(), "gpg failed: no secret key");
    let e = gpg_outcome(false, "exit status: 2", Vec::new(), b" \n", GpgOperation::Encrypt).unwrap_err();
    assert_eq!(e.message(), "gpg failed with exit status: exit status: 2");
    let e = gpg_outcome(true, "exit status: 0", vec![0xff, 0xfe], b"", GpgOperation::Decrypt).unwrap_err();
    assert_eq!(e.message(), "decrypted output is not UTF-8");
    let e = gpg_outcome(true, "exit status: 0", vec![0xff], b"", GpgOperation::Encrypt).unwrap_err();
    assert_eq!(e.message(), "gpg output is not UTF-8");
}

#[test]
fn file_store_settings() {
    let store = FileSecretsStore::new(PathBuf::from("secrets.enc"));
    assert_eq!(store.path(), &PathBuf::from("secrets.enc"));
    assert_eq!(store.recipient(), None);
    assert_eq!(store.gnupghome(), None);
    let mut s = Secrets::new();
    s.insert("k".to_string(), "v".to_string(), Timestamp::from_unix(0, 0).unwrap());
    assert!(matches!(store.save_command(&s, false), Err(StoreError::MissingRecipient)));
    let store = store.with_recipient("me@example.com").with_gnupghome(PathBuf::from("/g"));
    assert_eq!(store.recipient(), Some("me@example.com"));
    assert_eq!(store.gnupghome(), Some(&PathBuf::from("/g")));
    let c = store.save_command(&s, true).unwrap();
    assert_eq!(c.input, "k:v:1970-01-01T00:00:00Z");
    assert_eq!(c.args.last().map(|a| a.as_str()), Some("me@example.com"));
    let l = store.load_command("cipher", true);
    assert_eq!(l.input, "cipher");
    assert_eq!(l.args, vec!["--decrypt"]);
    let blank = FileSecretsStore::new(PathBuf::from("f")).with_recipient(" ".to_string());
    assert_eq!(blank.recipient(), Some(" "));
    assert!(matches!(blank.save_command(&s, true), Err(StoreError::Crypto(CryptoError::MissingRecipient))));
}

#[test]
fn loading_text() {
    assert_eq!(secrets_from_plaintext(None).unwrap().len(), 0);
    assert_eq!(secrets_from_plaintext(Some("a:b:1970-01-01T00:00:00Z")).unwrap().len(), 1);
    assert!(matches!(secrets_from_plaintext(Some("nonsense")), Err(StoreError::Parse(_))));
}

#[test]
fn lines_of_text() {
    assert_eq!(split_lines("a\r\nb\n\nc"), vec!["a", "b", "", "c"]);
    assert_eq!(split_lines("x\r"), vec!["x\r"]);
    assert!(split_lines("").is_empty());
    assert_eq!(split_lines("\n"), vec![""]);
    let joined = join_with_newlines(&vec!["a".to_string(), "b".to_string()]);
    assert_eq!(joined, "a\nb");
    assert_eq!(split_lines(&joined), vec!["a", "b"]);
}

#[test]
fn command_decisions() {
    let add = Command::Add { key: "k".to_string() };
    let get = Command::Get { key: "k".to_string() };
    let list = Command::List { pattern: None, with_timestamps: false };
    assert!(add.needs_recipient() && add.needs_file());
    assert!(!get.needs_recipient() && get.needs_file());
    assert!(!list.needs_recipient() && !list.needs_file());
    assert!(needs_defaults(&add, true, false));
    assert!(!needs_defaults(&get, true, false));
    assert!(!needs_defaults(&list, false, false));
    assert_eq!(choose_setting(None, Some(2), Some(3)), Some(2));
    assert_eq!(choose_setting(Some(1), Some(2), Some(3)), Some(1));
    assert_eq!(choose_setting::<i32>(None, None, None), None);
    assert_eq!(default_file(), "secrets.enc");
    assert_eq!(get_exit_code(true), 0);
    assert_eq!(get_exit_code(false), 1);
    assert_eq!(failure_exit_code(), 2);
}

#[test]
fn new_value_checks() {
    assert_eq!(check_new_value(&"".to_string(), &"".to_string()), Err(EntryError::EmptyValue));
    assert_eq!(check_new_value(&"a".to_string(), &"b".to_string()), Err(EntryError::Mismatch));
    assert_eq!(check_new_value(&"a".to_string(), &"a".to_string()), Ok(()));
    assert_eq!(EntryError::Mismatch.message(), "values do not match");
}

#[test]
fn listing_output() {
    let entries = vec![
        ("api_key".to_string(), Timestamp::from_unix(1771928400, 5).unwrap()),
        ("db_password".to_string(), Timestamp::from_unix(1771928130, 0).unwrap()),
    ];
    assert_eq!(listing_lines(&entries, false), vec!["api_key", "db_password"]);
    assert_eq!(
        listing_lines(&entries, true),
        vec!["api_key 2026-02-24T10:20:00Z", "db_password 2026-02-24T10:15:30Z"]
    );
}
