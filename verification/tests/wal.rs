//! Tests of the WAL pipeline: queue backpressure, actor ordering, drain
//! on shutdown, and the end-to-end scenarios.

use blazekv::actor::WalActor;
use blazekv::encoder::WalCodec;
use blazekv::engine::MemoryStorageEngine;
use blazekv::entry::WalEntry;
use blazekv::error::WalError;
use blazekv::message::WalMessage;
use blazekv::queue::WalConfig;
use blazekv::queue::WalQueue;
use blazekv::replay::rebuild_index;
use blazekv::replay::replay;
use blazekv::writer::MemWriter;

fn put(i: usize) -> WalEntry {
    WalEntry::Put { key: format!("K{}", i), data: format!("V{}", i).into_bytes() }
}

#[test]
fn single_writer_ordering_replays_batch_in_order() {
    let n: usize = 5;
    let mut actor = WalActor::new(MemWriter::new(WalCodec::new()));
    let mut batch = Vec::new();
    for i in 0..n {
        batch.push(WalMessage::Write(put(i)));
    }
    let acks = actor.run(batch);
    assert_eq!(acks.len(), n);
    assert!(acks.iter().all(|a| a.is_ok()));

    let entries = replay(&WalCodec::new(), actor.writer().bytes()).expect("log should replay");
    let expected: Vec<WalEntry> = (0..n).map(put).collect();
    assert_eq!(entries, expected);
}

#[test]
fn backpressure_full_queue_refuses_until_drained() {
    let capacity: usize = 4;
    let mut queue = WalQueue::new(&WalConfig { buffer_size: capacity });
    for i in 0..capacity {
        assert!(queue.try_enqueue(WalMessage::Write(put(i))), "request {} should enter", i);
    }
    // The (capacity + 1)-th producer cannot get in: in the running
    // system it stays suspended right here.
    assert!(!queue.try_enqueue(WalMessage::Write(put(capacity))));
    assert_eq!(queue.len(), capacity);

    // Once the consumer drains, capacity is free again.
    let batch = queue.take_all();
    assert_eq!(batch.len(), capacity);
    assert!(queue.try_enqueue(WalMessage::Write(put(capacity))));
}

#[test]
fn shutdown_drains_pending_writes_before_acknowledging() {
    let k: usize = 6;
    let mut queue = WalQueue::new(&WalConfig { buffer_size: 16 });
    for i in 0..k {
        assert!(queue.try_enqueue(WalMessage::Write(put(i))));
    }
    // Shutdown is requested at once, without awaiting the writes.
    assert!(queue.try_enqueue(WalMessage::Shutdown));

    let mut actor = WalActor::new(MemWriter::new(WalCodec::new()));
    let acks = actor.run(queue.take_all());
    assert_eq!(acks.len(), k + 1);
    assert!(acks[k].is_ok(), "shutdown must be acknowledged");
    assert!(!actor.is_running());

    // The acknowledgment arrived only after all k writes became
    // durable: every appended byte is synced, and replay shows all k
    // records.
    let writer = actor.writer();
    assert_eq!(writer.synced_bytes(), writer.bytes().len());
    let entries = replay(&WalCodec::new(), writer.bytes()).expect("log should replay");
    assert_eq!(entries.len(), k);
    let expected: Vec<WalEntry> = (0..k).map(put).collect();
    assert_eq!(entries, expected);
}

#[test]
fn actor_keeps_running_after_a_failed_request() {
    let mut writer = MemWriter::new(WalCodec::new());
    writer.set_failing_after(0);
    let mut actor = WalActor::new(writer);

    let first = actor.process(&WalMessage::Write(put(0)));
    assert_eq!(first, Err(WalError::Io));
    assert!(actor.is_running(), "a failed append must not stop the actor");

    let flushed = actor.process(&WalMessage::Flush);
    assert_eq!(flushed, Ok(()));
}

#[test]
fn flush_and_sync_give_strictly_increasing_durability() {
    let mut actor = WalActor::new(MemWriter::new(WalCodec::new()));
    actor.process(&WalMessage::Write(put(1))).expect("write should succeed");
    actor.process(&WalMessage::Flush).expect("flush should succeed");
    assert_eq!(actor.writer().synced_bytes(), 0, "flush alone must not reach stable storage");
    actor.process(&WalMessage::Sync).expect("sync should succeed");
    assert_eq!(actor.writer().synced_bytes(), actor.writer().bytes().len());
}

#[test]
fn request_after_termination_is_refused_as_closed() {
    let mut actor = WalActor::new(MemWriter::new(WalCodec::new()));
    actor.process(&WalMessage::Shutdown).expect("shutdown should succeed");
    assert!(!actor.is_running());
    let late = actor.process(&WalMessage::Write(put(9)));
    assert_eq!(late, Err(WalError::SendClosed));
}

#[test]
fn end_to_end_set_delete_shutdown_replays_to_empty_index() {
    let config = WalConfig { buffer_size: 16 };
    let queue = WalQueue::new(&config);
    assert_eq!(queue.len(), 0);

    let writer = MemWriter::new(WalCodec::new());
    let mut store = MemoryStorageEngine::new(WalActor::new(writer));

    store.set("K1".to_string(), b"V1".to_vec()).expect("set should succeed");
    store.delete("K1").expect("delete should succeed");
    store.shutdown().expect("shutdown should succeed");

    let log = store.wal().writer().bytes();
    assert_eq!(store.wal().writer().synced_bytes(), log.len());

    let entries = replay(&WalCodec::new(), log).expect("log should replay");
    assert_eq!(
        entries,
        vec![
            WalEntry::Put { key: "K1".to_string(), data: b"V1".to_vec() },
            WalEntry::Delete { key: "K1".to_string() },
        ]
    );
    let index = rebuild_index(&entries);
    assert!(index.is_empty(), "replaying set then delete leaves nothing");
}

#[test]
fn get_missing_on_empty_index_never_touches_the_log() {
    let store = MemoryStorageEngine::new(WalActor::new(MemWriter::new(WalCodec::new())));
    let result = store.get("missing").expect("get should succeed");
    assert_eq!(result, None);
    assert!(store.wal().writer().bytes().is_empty(), "the WAL path must stay untouched");
}
