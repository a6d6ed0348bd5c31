use bava::store;
use bava::store::{config_dir, default_path, key, profiles_dir, list_toml_stems, missing, read, rename, LocalStorage, StoreError};

fn not_found(s: &str) -> StoreError {
    StoreError::NotFound(s.to_string())
}

#[test]
fn web_store_keys_are_prefixed_paths() {
    assert_eq!(key("/config/bava/config.toml"), "bava:/config/bava/config.toml");
    assert_eq!(config_dir().as_deref(), Some("/config"));
    assert_eq!(missing("x"), not_found("x"));
}

#[test]
fn web_store_read_gives_back_what_was_written() {
    let mut st = Some(LocalStorage::new());
    assert_eq!(read(&st, "/config/bava/config.toml"), Err(not_found("no such key")));
    store::write(&mut st, "/config/bava/config.toml", "[gui]\n").unwrap();
    store::write(&mut st, "/config/bava/other.toml", "x").unwrap();
    assert_eq!(read(&st, "/config/bava/config.toml"), Ok("[gui]\n".to_string()));
    store::write(&mut st, "/config/bava/config.toml", "[vis]\n").unwrap();
    assert_eq!(read(&st, "/config/bava/config.toml"), Ok("[vis]\n".to_string()));
    assert_eq!(read(&st, "/config/bava/other.toml"), Ok("x".to_string()));
    assert_eq!(st.as_ref().unwrap().get_item("bava:/config/bava/other.toml").as_deref(), Some("x"));
}

#[test]
fn web_store_without_storage_reports_not_found() {
    let mut st: Option<LocalStorage> = None;
    assert_eq!(read(&st, "/a"), Err(not_found("localStorage unavailable")));
    assert_eq!(store::write(&mut st, "/a", "t"), Err(not_found("localStorage unavailable")));
    assert!(st.is_none());
    assert!(list_toml_stems(&st, "/config").is_empty());
}

#[test]
fn web_store_rename_moves_the_text() {
    let mut st = Some(LocalStorage::new());
    store::write(&mut st, "/c/config.toml", "[broken").unwrap();
    rename(&mut st, "/c/config.toml", "/c/config.toml.bak").unwrap();
    assert_eq!(read(&st, "/c/config.toml.bak"), Ok("[broken".to_string()));
    assert_eq!(read(&st, "/c/config.toml"), Err(not_found("no such key")));
    assert_eq!(rename(&mut st, "/c/missing", "/c/x"), Err(not_found("no such key")));
    assert_eq!(st.as_ref().unwrap().length(), 1);
}

#[test]
fn web_store_lists_direct_toml_children() {
    let mut st = Some(LocalStorage::new());
    store::write(&mut st, "/config/bava/profiles/night.toml", "a").unwrap();
    store::write(&mut st, "/config/bava/profiles/sub/deep.toml", "b").unwrap();
    store::write(&mut st, "/config/bava/profiles/notes.txt", "c").unwrap();
    store::write(&mut st, "/config/bava/config.toml", "d").unwrap();
    store::write(&mut st, "/config/bava/profiles/day.toml", "e").unwrap();
    let stems = list_toml_stems(&st, "/config/bava/profiles");
    assert_eq!(stems, vec!["night".to_string(), "day".to_string()]);
}

#[test]
fn local_storage_keeps_first_insertion_order() {
    let mut st = LocalStorage::new();
    assert!(st.set_item("a", "1"));
    assert!(st.set_item("b", "2"));
    assert!(st.set_item("a", "3"));
    assert_eq!(st.length(), 2);
    assert_eq!(st.key(0).as_deref(), Some("a"));
    assert_eq!(st.key(1).as_deref(), Some("b"));
    assert_eq!(st.key(2), None);
    assert_eq!(st.get_item("a").as_deref(), Some("3"));
    st.remove_item("a");
    assert_eq!(st.get_item("a"), None);
    assert_eq!(st.key(0).as_deref(), Some("b"));
}

fn rejected() -> StoreError {
    StoreError::Rejected("localStorage write rejected (quota exceeded?)".to_string())
}

#[test]
fn local_storage_refuses_writes_past_its_quota() {
    // "ab" + "cd" is 4 characters; a 5-character quota leaves room for 1 more.
    let mut st = LocalStorage::with_quota(5);
    assert!(st.set_item("ab", "cd"));
    assert!(!st.set_item("e", "f"));
    assert_eq!(st.length(), 1);
    // Replacing a value frees the old one first.
    assert!(st.set_item("ab", "xyz"));
    assert_eq!(st.get_item("ab").as_deref(), Some("xyz"));
    assert!(!st.set_item("ab", "wxyz"));
    assert_eq!(st.get_item("ab").as_deref(), Some("xyz"));
    st.remove_item("ab");
    assert!(st.set_item("e", "f"));
}

#[test]
fn web_store_write_past_quota_is_rejected_and_changes_nothing() {
    // The key "bava:/a" alone is 7 characters.
    let mut st = Some(LocalStorage::with_quota(10));
    assert_eq!(store::write(&mut st, "/a", "123"), Ok(()));
    assert_eq!(store::write(&mut st, "/a", "1234"), Err(rejected()));
    assert_eq!(read(&st, "/a"), Ok("123".to_string()));
    assert_eq!(store::write(&mut st, "/b", ""), Err(rejected()));
}

#[test]
fn web_store_rename_past_quota_keeps_the_source() {
    let mut st = Some(LocalStorage::with_quota(20));
    store::write(&mut st, "/a", "0123456789").unwrap();
    // A second copy under another key would need 17 more characters.
    assert_eq!(rename(&mut st, "/a", "/b"), Err(rejected()));
    assert_eq!(read(&st, "/a"), Ok("0123456789".to_string()));
    assert_eq!(read(&st, "/b"), Err(not_found("no such key")));
}

#[test]
fn web_store_rename_onto_itself_keeps_the_text() {
    let mut st = Some(LocalStorage::new());
    store::write(&mut st, "/c/config.toml", "[gui]").unwrap();
    assert_eq!(rename(&mut st, "/c/config.toml", "/c/config.toml"), Ok(()));
    assert_eq!(read(&st, "/c/config.toml"), Ok("[gui]".to_string()));
    assert_eq!(st.as_ref().unwrap().length(), 1);
}

#[test]
fn web_store_paths_live_under_config() {
    assert_eq!(default_path().as_deref(), Some("/config/bava/config.toml"));
    assert_eq!(profiles_dir().as_deref(), Some("/config/bava/profiles"));
}
