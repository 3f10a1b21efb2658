//! Tests of the plain in-memory store.

use blazekv::error::StoreError;
use blazekv::store::Store;

#[test]
fn store_test_store_set_and_get_success() {
    let mut store = Store::new();
    let key = "key1".to_string();
    let value = b"hello world".to_vec();

    store.set(key.clone(), value.clone()).expect("set should succeed");
    let retrieved = store.get(&key).expect("get should succeed");

    assert_eq!(retrieved, &value);
}

#[test]
fn store_test_store_get_not_found() {
    let store = Store::new();
    let key = "missing_key".to_string();

    let result = store.get(&key);
    assert!(matches!(result, Err(StoreError::NotFound)));
}

#[test]
fn store_test_store_overwrite_existing_key() {
    let mut store = Store::new();
    let key = "key1".to_string();
    let value1 = b"first".to_vec();
    let value2 = b"second".to_vec();

    store.set(key.clone(), value1.clone()).expect("first set should succeed");
    store.set(key.clone(), value2.clone()).expect("second set should succeed");

    let retrieved = store.get(&key).expect("get should succeed");
    assert_eq!(retrieved, &value2);
}

#[test]
fn store_test_store_new_is_empty() {
    let store = Store::new();
    assert!(store.is_empty(), "new store should be empty");
}
