//! Tests of the write-ahead storage engine over the in-memory writer.

use blazekv::actor::WalActor;
use blazekv::encoder::WalCodec;
use blazekv::engine::MemoryStorageEngine;
use blazekv::error::StorageError;
use blazekv::replay::rebuild_index;
use blazekv::replay::replay;
use blazekv::writer::MemWriter;

fn fresh_engine() -> MemoryStorageEngine<MemWriter> {
    let writer = MemWriter::new(WalCodec::new());
    MemoryStorageEngine::new(WalActor::new(writer))
}

#[test]
fn memory_test_store_set_and_get_success() {
    let mut store = fresh_engine();
    let key = "key1".to_string();
    let value = b"hello world".to_vec();

    store.set(key.clone(), value.clone()).expect("set should succeed");
    let retrieved = store.get(&key).expect("get should succeed");

    assert_eq!(retrieved, Some(value));

    let _ = store.shutdown();
}

#[test]
fn memory_test_store_get_not_found() {
    let store = fresh_engine();
    let key = "missing_key".to_string();

    let result = store.get(&key).expect("get should succeed");

    assert_eq!(result, None);
}

#[test]
fn test_store_delete_success() {
    let mut store = fresh_engine();
    let key = "key1".to_string();
    let value = b"hello world".to_vec();
    store.set(key.clone(), value.clone()).expect("set should succeed");

    let result = store.get(&key).expect("get should succeed");
    assert_eq!(result, Some(value.clone()));

    let result = store.delete(&key).expect("delete should succeed");
    assert_eq!(result, Some(value.clone()));

    let result = store.get(&key).expect("get should succeed");
    assert_eq!(result, None);

    let _ = store.shutdown();
}

#[test]
fn memory_test_store_overwrite_existing_key() {
    let mut store = fresh_engine();
    let key = "key1".to_string();
    let value1 = b"first".to_vec();
    let value2 = b"second".to_vec();

    store.set(key.clone(), value1.clone()).expect("first set should succeed");
    store.set(key.clone(), value2.clone()).expect("second set should succeed");

    let retrieved = store.get(&key).expect("get should succeed");
    assert_eq!(retrieved, Some(value2));

    let _ = store.shutdown();
}

#[test]
fn memory_test_store_new_is_empty() {
    let store = fresh_engine();
    assert!(store.is_empty(), "new store should be empty");
}

#[test]
fn write_ahead_set_then_replay_holds_key() {
    let mut store = fresh_engine();
    store.set("k".to_string(), b"v".to_vec()).expect("set should succeed");

    let log = store.wal().writer().bytes();
    let entries = replay(&WalCodec::new(), log).expect("log should replay");
    let index = rebuild_index(&entries);
    assert_eq!(index.get("k"), Some(&b"v".to_vec()));
}

#[test]
fn write_ahead_failed_append_leaves_index_unchanged() {
    let mut writer = MemWriter::new(WalCodec::new());
    writer.set_failing(true);
    let mut store = MemoryStorageEngine::new(WalActor::new(writer));

    let result = store.set("k".to_string(), b"v".to_vec());
    assert!(matches!(result, Err(StorageError::Wal(_))));
    assert_eq!(store.get("k").expect("get should succeed"), None);
    assert!(store.wal().writer().bytes().is_empty(), "nothing may reach the log");
}

#[test]
fn write_ahead_failed_append_keeps_prior_value() {
    let mut writer = MemWriter::new(WalCodec::new());
    writer.set_failing_after(1);
    let mut store = MemoryStorageEngine::new(WalActor::new(writer));

    store.set("k".to_string(), b"old".to_vec()).expect("first set should succeed");
    let result = store.set("k".to_string(), b"new".to_vec());
    assert!(matches!(result, Err(StorageError::Wal(_))));

    // The index keeps the prior value, and the log still replays to it.
    assert_eq!(store.get("k").expect("get should succeed"), Some(b"old".to_vec()));
    let entries = replay(&WalCodec::new(), store.wal().writer().bytes()).expect("log should replay");
    let index = rebuild_index(&entries);
    assert_eq!(index.get("k"), Some(&b"old".to_vec()));
}

#[test]
fn resume_rebuilds_index_from_existing_log() {
    let mut store = fresh_engine();
    store.set("k1".to_string(), b"v1".to_vec()).expect("set should succeed");
    store.set("k2".to_string(), b"v2".to_vec()).expect("set should succeed");
    store.delete("k1").expect("delete should succeed");
    store.shutdown().expect("shutdown should succeed");

    let log = store.wal().writer().bytes().clone();
    let entries = replay(&WalCodec::new(), &log).expect("log should replay");
    let writer = MemWriter::with_log(WalCodec::new(), log);
    let resumed = MemoryStorageEngine::resume(WalActor::new(writer), &entries);

    assert_eq!(resumed.get("k1").expect("get should succeed"), None);
    assert_eq!(resumed.get("k2").expect("get should succeed"), Some(b"v2".to_vec()));
}

#[test]
fn shutdown_twice_surfaces_channel_closed() {
    let mut store = fresh_engine();
    store.shutdown().expect("first shutdown should succeed");
    let second = store.shutdown();
    assert!(matches!(second, Err(StorageError::Wal(blazekv::error::WalError::SendClosed))));
}
