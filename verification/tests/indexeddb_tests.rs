// Keys, key ranges, cursors and transactions of the indexed database.

use browser_engine::indexeddb::{
    IDBCursor, IDBCursorDirection, IDBError, IDBIndexParameters, IDBKey, IDBKeyRange,
    IDBObjectStoreParameters, IDBTransaction, IDBTransactionMode,
};
use std::cmp::Ordering;

#[test]
fn test_idb_key_compare() {
    let key1 = IDBKey::Number(1);
    let key2 = IDBKey::Number(2);
    assert_eq!(key1.compare(&key2), std::cmp::Ordering::Less);
    assert_eq!(key2.compare(&key1), std::cmp::Ordering::Greater);
    assert_eq!(key1.compare(&key1), std::cmp::Ordering::Equal);
}

#[test]
fn test_idb_key_range() {
    let range = IDBKeyRange::bound(
        IDBKey::Number(1),
        IDBKey::Number(10),
        false,
        false,
    );

    assert!(range.includes(&IDBKey::Number(1)));
    assert!(range.includes(&IDBKey::Number(5)));
    assert!(range.includes(&IDBKey::Number(10)));
    assert!(!range.includes(&IDBKey::Number(0)));
    assert!(!range.includes(&IDBKey::Number(11)));
}

#[test]
fn test_cursor() {
    let keys = vec![
        IDBKey::Number(1),
        IDBKey::Number(2),
        IDBKey::Number(3),
    ];

    let mut cursor = IDBCursor::new(keys, IDBCursorDirection::Next);
    assert_eq!(cursor.key(), Some(&IDBKey::Number(1)));

    cursor.continue_cursor();
    assert_eq!(cursor.key(), Some(&IDBKey::Number(2)));

    cursor.advance(1);
    assert_eq!(cursor.key(), Some(&IDBKey::Number(3)));

    cursor.continue_cursor();
    assert!(!cursor.has_value());
}

fn text(s: &str) -> IDBKey {
    IDBKey::String(s.to_string())
}

#[test]
fn test_keys_of_each_kind() {
    assert_eq!(text("apple").compare(&text("apples")), Ordering::Less);
    assert_eq!(text("b").compare(&text("apple")), Ordering::Greater);
    assert_eq!(text("é").compare(&text("z")), Ordering::Greater);
    assert_eq!(text("").compare(&text("")), Ordering::Equal);
    assert_eq!(text("ab").compare(&text("ab")), "ab".cmp("ab"));
    assert_eq!(text("Zebra").compare(&text("apple")), "Zebra".cmp("apple"));
    assert_eq!(IDBKey::Date(-5).compare(&IDBKey::Date(3)), Ordering::Less);
    assert_eq!(IDBKey::Number(i64::MIN).compare(&IDBKey::Number(i64::MAX)), Ordering::Less);
    let short = IDBKey::Array(vec![IDBKey::Number(1), text("a")]);
    let long = IDBKey::Array(vec![IDBKey::Number(1), text("a"), IDBKey::Date(0)]);
    let other = IDBKey::Array(vec![IDBKey::Number(1), text("b")]);
    assert_eq!(short.compare(&long), Ordering::Less);
    assert_eq!(long.compare(&short), Ordering::Greater);
    assert_eq!(long.compare(&other), Ordering::Less);
    assert_eq!(short.compare(&short.clone()), Ordering::Equal);
    assert_eq!(short.order(&other), -1);
    assert_eq!(IDBKey::Array(vec![]).compare(&IDBKey::Array(vec![])), Ordering::Equal);
    // keys of different kinds have no order
    assert_eq!(IDBKey::Number(1).compare(&text("1")), Ordering::Equal);
    assert_eq!(IDBKey::Date(9).compare(&IDBKey::Number(1)), Ordering::Equal);
    let mixed = IDBKey::Array(vec![text("x"), IDBKey::Number(2)]);
    let numbers = IDBKey::Array(vec![IDBKey::Number(7), IDBKey::Number(1)]);
    assert_eq!(mixed.compare(&numbers), Ordering::Greater);
}

#[test]
fn test_key_range_bounds() {
    let only = IDBKeyRange::only(text("k"));
    assert!(only.includes(&text("k")));
    assert!(!only.includes(&text("j")));
    assert!(!only.includes(&text("l")));
    let open = IDBKeyRange::bound(IDBKey::Number(1), IDBKey::Number(10), true, true);
    assert!(!open.includes(&IDBKey::Number(1)));
    assert!(open.includes(&IDBKey::Number(2)));
    assert!(open.includes(&IDBKey::Number(9)));
    assert!(!open.includes(&IDBKey::Number(10)));
    let from = IDBKeyRange::lower_bound(IDBKey::Number(5), false);
    assert!(from.includes(&IDBKey::Number(5)));
    assert!(from.includes(&IDBKey::Number(i64::MAX)));
    assert!(!from.includes(&IDBKey::Number(4)));
    assert!(!IDBKeyRange::lower_bound(IDBKey::Number(5), true).includes(&IDBKey::Number(5)));
    let up_to = IDBKeyRange::upper_bound(IDBKey::Number(5), true);
    assert!(up_to.includes(&IDBKey::Number(4)));
    assert!(!up_to.includes(&IDBKey::Number(5)));
    assert!(up_to.lower.is_none());
    let empty = IDBKeyRange::bound(IDBKey::Number(3), IDBKey::Number(2), false, false);
    assert!(!empty.includes(&IDBKey::Number(2)));
    assert!(!empty.includes(&IDBKey::Number(3)));
}

#[test]
fn test_cursor_visits_keys_in_order() {
    let keys = vec![
        IDBKey::Number(3),
        IDBKey::Number(-1),
        IDBKey::Number(7),
        IDBKey::Number(3),
        IDBKey::Number(0),
    ];
    let mut forwards = IDBCursor::new(keys.clone(), IDBCursorDirection::NextUnique);
    let mut seen = Vec::new();
    while let Some(key) = forwards.key() {
        seen.push(key.clone());
        forwards.continue_cursor();
    }
    let numbers = |list: &[i64]| list.iter().map(|n| IDBKey::Number(*n)).collect::<Vec<_>>();
    assert_eq!(seen, numbers(&[-1, 0, 3, 3, 7]));
    let mut backwards = IDBCursor::new(keys, IDBCursorDirection::Prev);
    backwards.advance(3);
    assert_eq!(backwards.key(), Some(&IDBKey::Number(0)));
    backwards.advance(5);
    assert_eq!(backwards.key(), None);
    assert!(!backwards.has_value());
    let empty = IDBCursor::new(vec![], IDBCursorDirection::PrevUnique);
    assert!(!empty.has_value());
    assert_eq!(empty.key(), None);
}

#[test]
fn test_transaction_states() {
    let mut transaction =
        IDBTransaction::new(vec!["a".to_string(), "b".to_string()], IDBTransactionMode::ReadWrite);
    assert_eq!(transaction.mode(), IDBTransactionMode::ReadWrite);
    assert_eq!(transaction.object_store_names(), &["a".to_string(), "b".to_string()]);
    assert!(transaction.is_active());
    transaction.commit();
    assert!(!transaction.is_active());
    let mut aborted = IDBTransaction::new(vec![], IDBTransactionMode::ReadOnly);
    aborted.abort();
    assert!(!aborted.is_active());
    aborted.commit();
    assert!(!aborted.is_active());
}

#[test]
fn test_idb_parameters_and_errors() {
    let index = IDBIndexParameters::default();
    assert!(!index.unique && !index.multi_entry);
    let store = IDBObjectStoreParameters::default();
    assert!(store.key_path.is_none() && !store.auto_increment);
    assert_eq!(IDBError::NotFoundError("x".to_string()).to_string(), "NotFoundError: x");
    assert_eq!(IDBError::InvalidStateError("y".to_string()).to_string(), "InvalidStateError: y");
    assert_eq!(IDBError::ConstraintError("".to_string()).to_string(), "ConstraintError: ");
    assert_eq!(IDBError::VersionError("v".to_string()).to_string(), "VersionError: v");
    assert_eq!(IDBError::DataError("d".to_string()).to_string(), "DataError: d");
    assert_eq!(IDBError::UnknownError("u".to_string()).to_string(), "UnknownError: u");
    assert_eq!(IDBError::TransactionInactiveError.to_string(), "TransactionInactiveError");
    assert_eq!(IDBError::ReadOnlyError.to_string(), "ReadOnlyError");
    assert_eq!(IDBError::AbortError.to_string(), "AbortError");
}
