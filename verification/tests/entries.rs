use contract_db::connection::ContractDatabaseConnection;
use contract_db::database::{
    check_type, describe_map, stored_value, ContractDatabaseTransacter,
};
use contract_db::errors::{DatabaseError, ErrType, Fault};
use contract_db::values::{Language, TypeSignature, Value};

/// Types are prefixes: a type admits the values whose text begins with it.
fn admits(signature: &TypeSignature, value: &Value) -> bool {
    match value {
        Value::Other(text) => text.starts_with(signature.serialize().as_str()),
        _ => false,
    }
}

fn serialize(value: &Value) -> String {
    match value {
        Value::Void => "void".to_string(),
        Value::Bool(b) => format!("bool {}", b),
        Value::Other(text) => format!("<{}>", text),
    }
}

fn deserialize(text: &String) -> Value {
    match text.as_str() {
        "void" => Value::Void,
        "bool true" => Value::Bool(true),
        "bool false" => Value::Bool(false),
        other => Value::Other(other[1..other.len() - 1].to_string()),
    }
}

type Prefixes = Language<
    fn(&TypeSignature, &Value) -> bool,
    fn(&Value) -> String,
    fn(&String) -> Value,
>;

fn language() -> Prefixes {
    Language { admits, serialize, deserialize }
}

fn other(text: &str) -> Value {
    Value::Other(text.to_string())
}

fn signature(text: &str) -> TypeSignature {
    TypeSignature::deserialize(text)
}

fn is_undefined_map(error: DatabaseError, name: &str) -> bool {
    matches!(error.err_type, ErrType::UndefinedMap(n) if n == name)
}

fn is_type_error(error: DatabaseError, text: &str, value: &Value) -> bool {
    matches!(error.err_type, ErrType::TypeError(t, v) if t.serialize() == text && v == *value)
}

#[test]
fn a_set_entry_is_fetched() {
    let mut conn = ContractDatabaseConnection::memory().unwrap();
    let mut db = conn.begin_save_point().unwrap();
    db.create_map("tokens", "balances", signature("key"), signature("value")).unwrap();

    let absent = db.fetch_entry("tokens", "balances", &other("key a"), &language()).unwrap();
    assert_eq!(absent, Value::Void);

    let answer = db
        .set_entry("tokens", "balances", other("key a"), other("value 1"), &language())
        .unwrap();
    assert_eq!(answer, Value::Void);
    let found = db.fetch_entry("tokens", "balances", &other("key a"), &language()).unwrap();
    assert_eq!(found, other("value 1"));
}

#[test]
fn a_set_entry_is_overwritten() {
    let mut conn = ContractDatabaseConnection::memory().unwrap();
    let mut db = conn.begin_save_point().unwrap();
    db.create_map("tokens", "balances", signature("key"), signature("value")).unwrap();
    db.set_entry("tokens", "balances", other("key a"), other("value 1"), &language()).unwrap();
    db.set_entry("tokens", "balances", other("key a"), other("value 2"), &language()).unwrap();
    let found = db.fetch_entry("tokens", "balances", &other("key a"), &language()).unwrap();
    assert_eq!(found, other("value 2"));
}

#[test]
fn a_set_entry_is_not_seen_elsewhere() {
    let mut conn = ContractDatabaseConnection::memory().unwrap();
    let mut db = conn.begin_save_point().unwrap();
    db.create_map("tokens", "balances", signature("key"), signature("value")).unwrap();
    db.create_map("tokens", "owners", signature("key"), signature("value")).unwrap();
    db.set_entry("tokens", "balances", other("key a"), other("value 1"), &language()).unwrap();
    db.set_entry("tokens", "owners", other("key b"), other("value 2"), &language()).unwrap();

    let same_map = db.fetch_entry("tokens", "balances", &other("key b"), &language()).unwrap();
    assert_eq!(same_map, Value::Void);
    let same_key = db.fetch_entry("tokens", "owners", &other("key a"), &language()).unwrap();
    assert_eq!(same_key, Value::Void);
    let kept = db.fetch_entry("tokens", "balances", &other("key a"), &language()).unwrap();
    assert_eq!(kept, other("value 1"));
}

#[test]
fn an_insertion_does_not_overwrite() {
    let mut conn = ContractDatabaseConnection::memory().unwrap();
    let mut db = conn.begin_save_point().unwrap();
    db.create_map("tokens", "balances", signature("key"), signature("value")).unwrap();

    let first = db
        .insert_entry("tokens", "balances", other("key a"), other("value 1"), &language())
        .unwrap();
    assert_eq!(first, Value::Bool(true));
    let second = db
        .insert_entry("tokens", "balances", other("key a"), other("value 2"), &language())
        .unwrap();
    assert_eq!(second, Value::Bool(false));
    let found = db.fetch_entry("tokens", "balances", &other("key a"), &language()).unwrap();
    assert_eq!(found, other("value 1"));
}

#[test]
fn a_deleted_entry_is_absent_and_can_be_inserted_again() {
    let mut conn = ContractDatabaseConnection::memory().unwrap();
    let mut db = conn.begin_save_point().unwrap();
    db.create_map("tokens", "balances", signature("key"), signature("value")).unwrap();

    let nothing = db.delete_entry("tokens", "balances", &other("key a"), &language()).unwrap();
    assert_eq!(nothing, Value::Bool(false));
    db.set_entry("tokens", "balances", other("key a"), other("value 1"), &language()).unwrap();
    let deleted = db.delete_entry("tokens", "balances", &other("key a"), &language()).unwrap();
    assert_eq!(deleted, Value::Bool(true));
    let found = db.fetch_entry("tokens", "balances", &other("key a"), &language()).unwrap();
    assert_eq!(found, Value::Void);
    let again = db.delete_entry("tokens", "balances", &other("key a"), &language()).unwrap();
    assert_eq!(again, Value::Bool(false));
    let inserted = db
        .insert_entry("tokens", "balances", other("key a"), other("value 2"), &language())
        .unwrap();
    assert_eq!(inserted, Value::Bool(true));
    let found = db.fetch_entry("tokens", "balances", &other("key a"), &language()).unwrap();
    assert_eq!(found, other("value 2"));
}

#[test]
fn a_stored_void_counts_as_absent() {
    let mut conn = ContractDatabaseConnection::memory().unwrap();
    let mut db = conn.begin_save_point().unwrap();
    let permissive = Language {
        admits: |_: &TypeSignature, _: &Value| true,
        serialize,
        deserialize,
    };
    db.create_map("tokens", "balances", signature("key"), signature("value")).unwrap();
    db.set_entry("tokens", "balances", other("key a"), Value::Void, &permissive).unwrap();
    let inserted = db
        .insert_entry("tokens", "balances", other("key a"), other("value 1"), &permissive)
        .unwrap();
    assert_eq!(inserted, Value::Bool(true));
}

#[test]
fn an_undefined_map_is_an_error() {
    let mut conn = ContractDatabaseConnection::memory().unwrap();
    let mut db = conn.begin_save_point().unwrap();
    db.create_map("tokens", "balances", signature("key"), signature("value")).unwrap();

    let fetched = db.fetch_entry("tokens", "owners", &other("key a"), &language());
    assert!(is_undefined_map(fetched.unwrap_err(), "owners"));
    let fetched = db.fetch_entry("names", "balances", &other("key a"), &language());
    assert!(is_undefined_map(fetched.unwrap_err(), "balances"));
    let set = db.set_entry("tokens", "owners", other("key a"), other("value 1"), &language());
    assert!(is_undefined_map(set.unwrap_err(), "owners"));
    let inserted = db.insert_entry("names", "owners", other("key a"), other("value"), &language());
    assert!(is_undefined_map(inserted.unwrap_err(), "owners"));
    let deleted = db.delete_entry("tokens", "owners", &other("key a"), &language());
    assert!(is_undefined_map(deleted.unwrap_err(), "owners"));
}

#[test]
fn a_refused_key_is_a_type_error() {
    let mut conn = ContractDatabaseConnection::memory().unwrap();
    let mut db = conn.begin_save_point().unwrap();
    db.create_map("tokens", "balances", signature("key"), signature("value")).unwrap();
    let bad = other("lock a");

    let fetched = db.fetch_entry("tokens", "balances", &bad, &language());
    assert!(is_type_error(fetched.unwrap_err(), "key", &bad));
    let set = db.set_entry("tokens", "balances", bad.clone(), other("value 1"), &language());
    assert!(is_type_error(set.unwrap_err(), "key", &bad));
    let inserted = db.insert_entry("tokens", "balances", bad.clone(), other("lock"), &language());
    assert!(is_type_error(inserted.unwrap_err(), "key", &bad));
    let deleted = db.delete_entry("tokens", "balances", &bad, &language());
    assert!(is_type_error(deleted.unwrap_err(), "key", &bad));
}

#[test]
fn a_refused_value_is_a_type_error_and_changes_nothing() {
    let mut conn = ContractDatabaseConnection::memory().unwrap();
    let mut db = conn.begin_save_point().unwrap();
    db.create_map("tokens", "balances", signature("key"), signature("value")).unwrap();
    let bad = other("key b");

    let set = db.set_entry("tokens", "balances", other("key a"), bad.clone(), &language());
    assert!(is_type_error(set.unwrap_err(), "value", &bad));
    let inserted = db.insert_entry("tokens", "balances", other("key a"), bad.clone(), &language());
    assert!(is_type_error(inserted.unwrap_err(), "value", &bad));
    let found = db.fetch_entry("tokens", "balances", &other("key a"), &language()).unwrap();
    assert_eq!(found, Value::Void);
}

#[test]
fn texts_of_all_kinds_are_kept() {
    let mut conn = ContractDatabaseConnection::memory().unwrap();
    let mut db = conn.begin_save_point().unwrap();
    db.create_map("tökens", "b'alances", signature(""), signature("")).unwrap();
    for text in ["", "'; DROP TABLE data_table; --", "\u{1F600} ü", "a\nb\u{0}c", "NULL"] {
        db.set_entry("tökens", "b'alances", other(text), other(text), &language()).unwrap();
        let found = db.fetch_entry("tökens", "b'alances", &other(text), &language()).unwrap();
        assert_eq!(found, other(text));
    }
}

#[test]
fn no_two_maps_share_a_name() {
    let mut conn = ContractDatabaseConnection::memory().unwrap();
    let mut db = conn.begin_save_point().unwrap();
    db.create_map("tokens", "balances", signature("key"), signature("value")).unwrap();
    let same = db.create_map("tokens", "balances", signature("k"), signature("v")).unwrap_err();
    assert!(same.was_refused());
    assert!(matches!(same.err_type, ErrType::Fatal(Fault::Sql(_))));
    let elsewhere = db.create_map("names", "balances", signature("k"), signature("v"));
    assert!(matches!(elsewhere.unwrap_err().err_type, ErrType::Fatal(Fault::Sql(_))));
    let found = db.fetch_entry("tokens", "balances", &other("key a"), &language()).unwrap();
    assert_eq!(found, Value::Void);
    let set = db.set_entry("tokens", "balances", other("key a"), other("value 1"), &language());
    assert_eq!(set.unwrap(), Value::Void);
    db.create_map("names", "balances", signature("k"), signature("v")).unwrap_err();
    let kept = db.fetch_entry("tokens", "balances", &other("key a"), &language()).unwrap();
    assert_eq!(kept, other("value 1"));
    let unowned = db.fetch_entry("names", "balances", &other("k"), &language());
    assert!(is_undefined_map(unowned.unwrap_err(), "balances"));
}

#[test]
fn a_row_describes_a_map() {
    let row = Some((7, "k".to_string(), "v".to_string()));
    let map = describe_map(row, "balances").unwrap();
    assert_eq!(map.map_identifier, 7);
    assert_eq!(map.key_type, signature("k"));
    assert_eq!(map.value_type, signature("v"));
    assert!(is_undefined_map(describe_map(None, "balances").unwrap_err(), "balances"));
}

#[test]
fn a_row_says_what_is_stored() {
    assert_eq!(stored_value(None, &language()), Value::Void);
    assert_eq!(stored_value(Some(None), &language()), Value::Void);
    assert_eq!(stored_value(Some(Some("<a>".to_string())), &language()), other("a"));
}

#[test]
fn a_type_is_checked_as_the_language_says() {
    assert!(check_type(&signature("key"), &other("key a"), &language()).is_ok());
    let error = check_type(&signature("key"), &other("lock"), &language()).unwrap_err();
    assert!(is_type_error(error, "key", &other("lock")));
    let error = check_type(&signature(""), &Value::Bool(true), &language()).unwrap_err();
    assert!(is_type_error(error, "", &Value::Bool(true)));
}

#[test]
fn a_deletion_is_not_seen_elsewhere() {
    let mut conn = ContractDatabaseConnection::memory().unwrap();
    let mut db = conn.begin_save_point().unwrap();
    db.create_map("tokens", "balances", signature("key"), signature("value")).unwrap();
    db.create_map("tokens", "owners", signature("key"), signature("value")).unwrap();
    for map in ["balances", "owners"] {
        for key in ["key a", "key b"] {
            db.set_entry("tokens", map, other(key), other("value 1"), &language()).unwrap();
        }
    }
    db.delete_entry("tokens", "balances", &other("key a"), &language()).unwrap();
    let same_map = db.fetch_entry("tokens", "balances", &other("key b"), &language()).unwrap();
    assert_eq!(same_map, other("value 1"));
    let same_key = db.fetch_entry("tokens", "owners", &other("key a"), &language()).unwrap();
    assert_eq!(same_key, other("value 1"));
}

#[test]
fn a_new_map_holds_nothing_and_changes_no_other() {
    let mut conn = ContractDatabaseConnection::memory().unwrap();
    let mut db = conn.begin_save_point().unwrap();
    db.create_map("tokens", "balances", signature("key"), signature("value")).unwrap();
    db.set_entry("tokens", "balances", other("key a"), other("value 1"), &language()).unwrap();
    db.create_map("tokens", "owners", signature("key"), signature("value")).unwrap();
    let new = db.fetch_entry("tokens", "owners", &other("key a"), &language()).unwrap();
    assert_eq!(new, Value::Void);
    let kept = db.fetch_entry("tokens", "balances", &other("key a"), &language()).unwrap();
    assert_eq!(kept, other("value 1"));
}

#[test]
fn the_latest_change_decides() {
    let mut conn = ContractDatabaseConnection::memory().unwrap();
    let mut db = conn.begin_save_point().unwrap();
    let key = || other("key a");
    db.create_map("tokens", "balances", signature("key"), signature("value")).unwrap();
    for text in ["value 1", "value 2", "value 3"] {
        db.set_entry("tokens", "balances", key(), other(text), &language()).unwrap();
        db.create_map("tokens", text, signature("key"), signature("value")).unwrap();
        db.sim_mine_block().unwrap();
        let found = db.fetch_entry("tokens", "balances", &key(), &language()).unwrap();
        assert_eq!(found, other(text));
    }
    db.delete_entry("tokens", "balances", &key(), &language()).unwrap();
    db.set_entry("tokens", "balances", other("key b"), other("value 9"), &language()).unwrap();
    let found = db.fetch_entry("tokens", "balances", &key(), &language()).unwrap();
    assert_eq!(found, Value::Void);
    db.insert_entry("tokens", "balances", key(), other("value 4"), &language()).unwrap();
    let found = db.fetch_entry("tokens", "balances", &key(), &language()).unwrap();
    assert_eq!(found, other("value 4"));
}

#[test]
fn only_admitted_values_are_read() {
    let mut conn = ContractDatabaseConnection::memory().unwrap();
    let mut db = conn.begin_save_point().unwrap();
    db.create_map("tokens", "balances", signature("key"), signature("value")).unwrap();
    for text in ["value 1", "lock", "value 2", "key"] {
        let set = db.set_entry("tokens", "balances", other("key a"), other(text), &language());
        assert_eq!(set.is_ok(), text.starts_with("value"));
        let found = db.fetch_entry("tokens", "balances", &other("key a"), &language()).unwrap();
        assert!(admits(&signature("value"), &found));
    }
}
