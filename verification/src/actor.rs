//! The actor: the single owner of a writer, draining requests strictly
//! in arrival order.
//!
//! Exclusive ownership — not a lock — is what makes concurrent appends
//! safe: only the actor ever touches the writer, so no two appends can
//! execute at once, and the durable byte sequence is totally ordered by
//! the order in which requests leave the queue.

use vstd::prelude::*;

use crate::encoder::spec_encode;
use crate::error::WalError;
use crate::message::has_shutdown;
use crate::replay::encode_all;
use crate::message::msg_models_of;
use crate::message::MsgModel;
use crate::message::WalMessage;
use crate::writer::WalWriter;

verus! {

/// Whether the consumer is still draining requests or has stopped.
pub enum ActorState {
    Running,
    Terminated,
}

/// The single consumer of the request queue. It owns its writer for the
/// writer's whole lifetime; the writer is never shared and never
/// reachable from anywhere else.
pub struct WalActor<W: WalWriter> {
    writer: W,
    state: ActorState,
}

/// The acknowledgments of a batch, reduced to what each one granted.
pub open spec fn oks_of(acks: Seq<Result<(), WalError>>) -> Seq<bool> {
    acks.map_values(|r: Result<(), WalError>| r is Ok)
}

/// The bytes a batch of requests adds to the log, given which requests
/// were acknowledged with success: each successfully acknowledged write
/// appends its record's encoding, in batch order; everything else
/// appends nothing.
pub open spec fn growth(msgs: Seq<MsgModel>, oks: Seq<bool>) -> Seq<u8>
    recommends
        msgs.len() == oks.len(),
    decreases msgs.len(),
{
    if msgs.len() == 0 {
        Seq::empty()
    } else {
        growth(msgs.drop_last(), oks.drop_last()) + (match msgs.last() {
            MsgModel::Write(e) => if oks.last() {
                spec_encode(e)
            } else {
                Seq::empty()
            },
            _ => Seq::empty(),
        })
    }
}

/// Single-writer ordering, composed with the batch: when a batch is all
/// writes and every one is acknowledged with success, the log grows by
/// exactly the records' encodings, in submission order. Together with
/// `replay::lemma_records_round_trip`, the durable byte sequence then
/// replays to exactly those records in that order.
pub proof fn lemma_growth_all_writes(
    msgs: Seq<MsgModel>,
    oks: Seq<bool>,
    entries: Seq<crate::entry::EntryModel>,
)
    requires
        oks.len() == msgs.len(),
        entries.len() == msgs.len(),
        forall|i: int|
            0 <= i < msgs.len() ==> (#[trigger] msgs[i]) == MsgModel::Write(entries[i]) && oks[i],
    ensures
        growth(msgs, oks) == encode_all(entries),
    decreases msgs.len(),
{
    if msgs.len() == 0 {
        assert(entries =~= Seq::<crate::entry::EntryModel>::empty());
    } else {
        let last = msgs.len() - 1;
        lemma_growth_all_writes(msgs.drop_last(), oks.drop_last(), entries.drop_last());
        crate::replay::lemma_encode_all_push(entries.drop_last(), entries[last]);
        assert(entries.drop_last().push(entries[last]) =~= entries);
        assert(msgs.last() == MsgModel::Write(entries[last]));
        assert(oks.last());
    }
}

/// Single-writer ordering, end to end: for entries submitted
/// sequentially as one batch of writes and all acknowledged with
/// success over a fresh log, the durable byte sequence replays to
/// exactly those entries, in submission order.
pub proof fn lemma_single_writer_ordering(
    msgs: Seq<MsgModel>,
    oks: Seq<bool>,
    entries: Seq<crate::entry::EntryModel>,
)
    requires
        oks.len() == msgs.len(),
        entries.len() == msgs.len(),
        forall|i: int|
            0 <= i < msgs.len() ==> (#[trigger] msgs[i]) == MsgModel::Write(entries[i]) && oks[i],
        crate::replay::all_fit(entries),
    ensures
        crate::replay::spec_records(growth(msgs, oks)) == Some(entries),
{
    lemma_growth_all_writes(msgs, oks, entries);
    crate::replay::lemma_records_round_trip(entries);
}

/// What a batch appends depends only on the writes and their
/// acknowledgments; acknowledgments of other requests do not matter.
pub proof fn lemma_growth_same_writes(msgs: Seq<MsgModel>, a: Seq<bool>, b: Seq<bool>)
    requires
        a.len() == msgs.len(),
        b.len() == msgs.len(),
        forall|i: int| 0 <= i < msgs.len() && (#[trigger] msgs[i]) is Write ==> a[i] == b[i],
    ensures
        growth(msgs, a) == growth(msgs, b),
    decreases msgs.len(),
{
    if msgs.len() > 0 {
        lemma_growth_same_writes(msgs.drop_last(), a.drop_last(), b.drop_last());
        assert(msgs[msgs.len() - 1] == msgs.last());
    }
}

impl<W: WalWriter> WalActor<W> {
    /// The writer's log, as seen through the actor.
    pub closed spec fn contents(&self) -> Seq<u8> {
        self.writer.contents()
    }

    /// How many log bytes have left the process's buffers.
    pub closed spec fn flushed_len(&self) -> int {
        self.writer.flushed_len()
    }

    /// How many log bytes are durable on stable storage.
    pub closed spec fn synced_len(&self) -> int {
        self.writer.synced_len()
    }

    /// Whether the actor still consumes requests.
    pub closed spec fn running(&self) -> bool {
        self.state is Running
    }

    /// Whether the owned writer owes success to every operation.
    pub closed spec fn reliable(&self) -> bool {
        self.writer.reliable()
    }

    /// Takes exclusive ownership of the writer; the actor starts out
    /// consuming.
    pub fn new(writer: W) -> (r: Self)
        ensures
            r.running(),
            r.contents() == writer.contents(),
            r.flushed_len() == writer.flushed_len(),
            r.synced_len() == writer.synced_len(),
            r.reliable() == writer.reliable(),
    {
        WalActor { writer, state: ActorState::Running }
    }

    /// The writer, for reading the log back out.
    pub fn writer(&self) -> (r: &W)
        ensures
            r.contents() == self.contents(),
            r.flushed_len() == self.flushed_len(),
            r.synced_len() == self.synced_len(),
            r.reliable() == self.reliable(),
    {
        &self.writer
    }

    /// Whether the actor still consumes requests, as a value a caller
    /// can branch on.
    pub fn is_running(&self) -> (r: bool)
        ensures
            r == self.running(),
    {
        match self.state {
            ActorState::Running => true,
            ActorState::Terminated => false,
        }
    }

    /// Handles one request to completion before any other is looked at:
    /// the single-writer serialization step. A failed writer operation
    /// is reported on this request's acknowledgment alone, and the actor
    /// keeps consuming — a later request may succeed even though an
    /// earlier one did not. A shutdown flushes, syncs, acknowledges and
    /// stops the actor. A request reaching a stopped actor is refused
    /// with the channel-closed error and changes nothing.
    pub fn process(&mut self, msg: &WalMessage) -> (ack: Result<(), WalError>)
        ensures
            final(self).reliable() == old(self).reliable(),
            old(self).running() && old(self).reliable() ==> ack is Ok,
            !old(self).running() ==> {
                &&& final(self).contents() == old(self).contents()
                &&& final(self).flushed_len() == old(self).flushed_len()
                &&& final(self).synced_len() == old(self).synced_len()
                &&& !final(self).running()
                &&& ack == Err::<(), WalError>(WalError::SendClosed)
            },
            old(self).running() ==> final(self).contents() == old(self).contents() + (match msg@ {
                MsgModel::Write(e) => if ack is Ok {
                    spec_encode(e)
                } else {
                    Seq::<u8>::empty()
                },
                _ => Seq::<u8>::empty(),
            }),
            old(self).running() ==> match msg@ {
                MsgModel::Write(e) => {
                    &&& final(self).running()
                    &&& final(self).flushed_len() == old(self).flushed_len()
                    &&& final(self).synced_len() == old(self).synced_len()
                    &&& ack is Ok ==> crate::encoder::model_fits(e)
                },
                MsgModel::Flush => {
                    &&& final(self).running()
                    &&& final(self).synced_len() == old(self).synced_len()
                    &&& ack is Ok ==> final(self).flushed_len() == old(self).contents().len()
                    &&& ack is Err ==> final(self).flushed_len() == old(self).flushed_len()
                },
                MsgModel::Sync => {
                    &&& final(self).running()
                    &&& ack is Ok ==> final(self).flushed_len() == old(self).contents().len()
                        && final(self).synced_len() == old(self).contents().len()
                },
                MsgModel::Shutdown => {
                    &&& !final(self).running()
                    &&& ack is Ok ==> final(self).flushed_len() == old(self).contents().len()
                        && final(self).synced_len() == old(self).contents().len()
                },
            },
    {
        match self.state {
            ActorState::Terminated => {
                return Err(WalError::SendClosed);
            },
            ActorState::Running => {
            },
        }
        match msg {
            WalMessage::Write(entry) => self.writer.append(entry),
            WalMessage::Flush => self.writer.flush(),
            WalMessage::Sync => self.writer.sync(),
            WalMessage::Shutdown => {
                let flushed = self.writer.flush();
                let synced = self.writer.sync();
                self.state = ActorState::Terminated;
                match flushed {
                    Ok(()) => synced,
                    Err(e) => Err(e),
                }
            },
        }
    }

    /// Drains a whole batch of requests strictly in arrival order,
    /// producing one acknowledgment per request.
    ///
    /// If the batch asks for shutdown, every request already in the
    /// batch is still applied — drain before terminate — and only then
    /// is the log flushed, forced onto stable storage, and the shutdown
    /// acknowledged; a successful shutdown acknowledgment therefore
    /// implies that everything appended is durable.
    pub fn run(&mut self, msgs: Vec<WalMessage>) -> (acks: Vec<Result<(), WalError>>)
        requires
            old(self).running(),
        ensures
            acks@.len() == msgs@.len(),
            final(self).reliable() == old(self).reliable(),
            old(self).reliable() ==> forall|i: int|
                0 <= i < acks@.len() ==> (#[trigger] acks@[i]) is Ok,
            final(self).contents() == old(self).contents() + growth(
                msg_models_of(msgs@),
                oks_of(acks@),
            ),
            final(self).running() == !has_shutdown(msg_models_of(msgs@)),
            forall|i: int|
                0 <= i < msgs@.len() && (#[trigger] msgs@[i])@ is Shutdown && acks@[i] is Ok
                    ==> final(self).synced_len() == final(self).contents().len(),
    {
        let ghost base = self.contents();
        let ghost was_reliable = self.reliable();
        let mut acks: Vec<Result<(), WalError>> = Vec::new();
        let mut shutdown_requested = false;
        let mut i: usize = 0;
        while i < msgs.len()
            invariant
                i <= msgs@.len(),
                acks@.len() == i,
                self.running(),
                self.reliable() == was_reliable,
                was_reliable ==> forall|j: int| 0 <= j < i ==> (#[trigger] acks@[j]) is Ok,
                self.contents() == base + growth(
                    msg_models_of(msgs@.take(i as int)),
                    oks_of(acks@),
                ),
                shutdown_requested == has_shutdown(msg_models_of(msgs@.take(i as int))),
                forall|j: int|
                    0 <= j < i && (#[trigger] msgs@[j])@ is Shutdown ==> acks@[j] is Ok,
            decreases msgs@.len() - i,
        {
            let ghost prev_acks = acks@;
            let msg = &msgs[i];
            match msg {
                WalMessage::Shutdown => {
                    shutdown_requested = true;
                    acks.push(Ok(()));
                },
                _ => {
                    let a = self.process(msg);
                    acks.push(a);
                },
            }
            proof {
                let taken = msg_models_of(msgs@.take(i + 1));
                assert(taken.drop_last() =~= msg_models_of(msgs@.take(i as int)));
                assert(taken.last() == msgs@[i as int]@);
                assert(oks_of(acks@).drop_last() =~= oks_of(prev_acks));
                assert(oks_of(acks@).last() == (acks@[i as int] is Ok));
                if msgs@[i as int]@ is Shutdown {
                    assert(taken[i as int] is Shutdown);
                    assert(has_shutdown(taken));
                } else {
                    if has_shutdown(taken) {
                        let j = choose|j: int| 0 <= j < taken.len() && taken[j] is Shutdown;
                        assert(msg_models_of(msgs@.take(i as int))[j] is Shutdown);
                    }
                    assert(has_shutdown(taken) == has_shutdown(
                        msg_models_of(msgs@.take(i as int)),
                    ));
                }
            }
            i = i + 1;
        }
        proof {
            assert(msgs@.take(msgs@.len() as int) =~= msgs@);
        }
        if shutdown_requested {
            let ghost drained_acks = acks@;
            let flushed = self.writer.flush();
            let synced = self.writer.sync();
            let final_ack: Result<(), WalError> = match flushed {
                Ok(()) => synced,
                Err(e) => Err(e),
            };
            let mut j: usize = 0;
            while j < msgs.len()
                invariant
                    j <= msgs@.len(),
                    acks@.len() == msgs@.len(),
                    drained_acks.len() == msgs@.len(),
                    self.reliable() == was_reliable,
                    was_reliable ==> final_ack is Ok,
                    was_reliable ==> forall|k: int|
                        0 <= k < msgs@.len() ==> (#[trigger] drained_acks[k]) is Ok,
                    forall|k: int|
                        0 <= k < msgs@.len() && !((#[trigger] msgs@[k])@ is Shutdown) ==> acks@[k]
                            == drained_acks[k],
                    forall|k: int|
                        0 <= k < j && (#[trigger] msgs@[k])@ is Shutdown ==> acks@[k] == final_ack,
                    forall|k: int|
                        j <= k < msgs@.len() && (#[trigger] msgs@[k])@ is Shutdown ==> acks@[k]
                            is Ok,
                decreases msgs@.len() - j,
            {
                match &msgs[j] {
                    WalMessage::Shutdown => {
                        acks.set(j, final_ack);
                    },
                    _ => {
                    },
                }
                j = j + 1;
            }
            proof {
                assert forall|k: int|
                    0 <= k < msg_models_of(msgs@).len() && (#[trigger] msg_models_of(msgs@)[k])
                        is Write implies oks_of(acks@)[k] == oks_of(drained_acks)[k] by {
                    assert(acks@[k] == drained_acks[k]);
                }
                lemma_growth_same_writes(msg_models_of(msgs@), oks_of(acks@), oks_of(drained_acks));
            }
            self.state = ActorState::Terminated;
            proof {
                assert forall|i: int|
                    0 <= i < msgs@.len() && (#[trigger] msgs@[i])@ is Shutdown && acks@[i]
                        is Ok implies self.synced_len() == self.contents().len() by {
                    assert(acks@[i] == final_ack);
                }
                if was_reliable {
                    assert forall|k: int| 0 <= k < acks@.len() implies (#[trigger] acks@[k])
                        is Ok by {
                        if msgs@[k]@ is Shutdown {
                            assert(acks@[k] == final_ack);
                        } else {
                            assert(acks@[k] == drained_acks[k]);
                        }
                    }
                }
            }
            acks
        } else {
            proof {
                assert forall|i: int| 0 <= i < msgs@.len() implies !((#[trigger] msgs@[i])@
                    is Shutdown) by {
                    if msgs@[i]@ is Shutdown {
                        assert(msg_models_of(msgs@)[i] is Shutdown);
                        assert(has_shutdown(msg_models_of(msgs@)));
                    }
                }
            }
            acks
        }
    }
}

} // verus!
