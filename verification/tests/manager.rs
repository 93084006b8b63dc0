use secrets_manager::manager::{lookup, validate_key, validate_key_value, with_secret, ManagerError, ValidationError};
use secrets_manager::store::{secrets_from_plaintext, StoreError};
use secrets_manager::{Secrets, SecretsManager, SecretsStore};
use std::cell::RefCell;
use std::path::PathBuf;
use std::rc::Rc;
use tempfile::tempdir;

/// A store that keeps the stored text in memory, through the library's own
/// plaintext format.
#[derive(Clone)]
struct MemoryStore {
    _path: PathBuf,
    _password: String,
    text: Rc<RefCell<Option<String>>>,
    saves: Rc<RefCell<usize>>,
}

impl MemoryStore {
    fn new(path: PathBuf, password: String) -> Self {
        MemoryStore {
            _path: path,
            _password: password,
            text: Rc::new(RefCell::new(None)),
            saves: Rc::new(RefCell::new(0)),
        }
    }
}

impl SecretsStore for MemoryStore {
    fn load(&self) -> Result<Secrets, StoreError> {
        let text = self.text.borrow().clone();
        secrets_from_plaintext(text.as_deref())
    }

    fn save(&self, secrets: &Secrets) -> Result<(), StoreError> {
        *self.text.borrow_mut() = Some(secrets.to_plaintext());
        *self.saves.borrow_mut() += 1;
        Ok(())
    }
}

/// A store whose loads always fail.
#[derive(Clone)]
struct BrokenStore;

impl SecretsStore for BrokenStore {
    fn load(&self) -> Result<Secrets, StoreError> {
        Err(StoreError::Io("unreadable".to_string()))
    }

    fn save(&self, _secrets: &Secrets) -> Result<(), StoreError> {
        Err(StoreError::Io("unwritable".to_string()))
    }
}

#[test]
fn add_then_get_returns_value() {
    let dir = tempdir().unwrap();
    let path = dir.path().join("secrets.txt");

    let store = MemoryStore::new(path, "test-password".to_string());
    let manager = SecretsManager::new(store);

    manager.add("db_password", "s3cr3t").unwrap();
    let value = manager.get("db_password").unwrap();
    assert_eq!(value.as_deref(), Some("s3cr3t"));
}

#[test]
fn add_updates_existing_key() {
    let dir = tempdir().unwrap();
    let path = dir.path().join("secrets.txt");

    let store = MemoryStore::new(path, "test-password".to_string());
    let manager = SecretsManager::new(store);

    manager.add("api_key", "abc123").unwrap();
    manager.add("api_key", "def456").unwrap();

    let value = manager.get("api_key").unwrap();
    assert_eq!(value.as_deref(), Some("def456"));
}

#[test]
fn get_of_missing_key_is_none() {
    let manager = SecretsManager::new(MemoryStore::new(PathBuf::from("x"), String::new()));
    manager.add("present", "v").unwrap();
    assert_eq!(manager.get("absent").unwrap(), None);
}

#[test]
fn add_refuses_empty_key_without_touching_the_store() {
    let store = MemoryStore::new(PathBuf::from("x"), String::new());
    let manager = SecretsManager::new(store.clone());
    match manager.add("", "v") {
        Err(ManagerError::Invalid(e)) => assert_eq!(e, ValidationError::EmptyKey),
        other => panic!("unexpected: {:?}", other),
    }
    assert_eq!(*store.saves.borrow(), 0);
}

#[test]
fn add_refuses_empty_and_multiline_values() {
    let manager = SecretsManager::new(MemoryStore::new(PathBuf::from("x"), String::new()));
    assert!(matches!(manager.add("k", ""), Err(ManagerError::Invalid(ValidationError::EmptyValue))));
    assert!(matches!(manager.add("k", "a\nb"), Err(ManagerError::Invalid(ValidationError::ValueHasNewline))));
    assert!(matches!(manager.add("a\nb", "v"), Err(ManagerError::Invalid(ValidationError::KeyHasNewline))));
}

#[test]
fn keys_and_values_with_colons_are_kept() {
    let manager = SecretsManager::new(MemoryStore::new(PathBuf::from("x"), String::new()));
    manager.add("injected:key", "value:withtest").unwrap();
    assert_eq!(manager.get("injected:key").unwrap().as_deref(), Some("value:withtest"));
}

#[test]
fn get_of_a_key_with_a_newline_finds_nothing() {
    let manager = SecretsManager::new(MemoryStore::new(PathBuf::from("x"), String::new()));
    manager.add("k", "v").unwrap();
    assert_eq!(manager.get("a\nb").unwrap(), None);
}

#[test]
fn get_refuses_empty_key() {
    let manager = SecretsManager::new(BrokenStore);
    assert!(matches!(manager.get(""), Err(ManagerError::Invalid(ValidationError::EmptyKey))));
}

#[test]
fn store_failures_are_reported() {
    let manager = SecretsManager::new(BrokenStore);
    assert!(matches!(manager.get("k"), Err(ManagerError::Load(StoreError::Io(_)))));
    assert!(matches!(manager.add("k", "v"), Err(ManagerError::Load(StoreError::Io(_)))));
    assert!(matches!(manager.list(None), Err(ManagerError::Load(StoreError::Io(_)))));
}

#[test]
fn list_filters_keys_ignoring_case_in_key_order() {
    let manager = SecretsManager::new(MemoryStore::new(PathBuf::from("x"), String::new()));
    manager.add("db_password", "a").unwrap();
    manager.add("api_key", "b").unwrap();
    manager.add("DB_USER", "c").unwrap();
    let all: Vec<String> = manager.list(None).unwrap().into_iter().map(|(k, _)| k).collect();
    assert_eq!(all, vec!["DB_USER", "api_key", "db_password"]);
    let db: Vec<String> = manager.list(Some("Db")).unwrap().into_iter().map(|(k, _)| k).collect();
    assert_eq!(db, vec!["DB_USER", "db_password"]);
    assert!(manager.list(Some("nothing")).unwrap().is_empty());
}

#[test]
fn validation_follows_the_documented_rules() {
    assert_eq!(validate_key(""), Err(ValidationError::EmptyKey));
    assert_eq!(validate_key("a\nb"), Ok(()));
    assert_eq!(validate_key_value("a\nb", "v"), Err(ValidationError::KeyHasNewline));
    assert_eq!(validate_key("a:b"), Ok(()));
    assert_eq!(validate_key_value("", ""), Err(ValidationError::EmptyKey));
    assert_eq!(validate_key_value("k", ""), Err(ValidationError::EmptyValue));
    assert_eq!(validate_key_value("k", "x\n"), Err(ValidationError::ValueHasNewline));
    assert_eq!(validate_key_value("k", "v:w"), Ok(()));
    assert_eq!(ValidationError::EmptyKey.message(), "key must not be empty");
    assert_eq!(ValidationError::EmptyValue.message(), "value must not be empty");
}

#[test]
fn with_secret_then_lookup() {
    let s = with_secret(Secrets::new(), "k", "v1").unwrap();
    let s = with_secret(s, "k", "v2").unwrap();
    let s = with_secret(s, "j", "w").unwrap();
    assert_eq!(lookup(&s, "k").as_deref(), Some("v2"));
    assert_eq!(lookup(&s, "j").as_deref(), Some("w"));
    assert_eq!(lookup(&s, "z"), None);
    assert_eq!(s.len(), 2);
}
