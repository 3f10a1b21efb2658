//! The bounded request queue between producers and the actor: the
//! system's only backpressure mechanism.

use vstd::prelude::*;

use crate::message::msg_models_of;
use crate::message::MsgModel;
use crate::message::WalMessage;

verus! {

/// The one tunable this core reads: the bounded queue's capacity,
/// supplied when the system is spawned.
pub struct WalConfig {
    pub buffer_size: usize,
}

/// A bounded first-in-first-out queue of requests. When it is full, a
/// producer cannot enqueue — in the running system the producer suspends
/// until the consumer takes requests out — so at most `cap()` requests
/// are ever in flight unacknowledged.
pub struct WalQueue {
    items: Vec<WalMessage>,
    capacity: usize,
}

impl WalQueue {
    /// The queued requests, oldest first.
    pub closed spec fn contents(&self) -> Seq<MsgModel> {
        msg_models_of(self.items@)
    }

    /// The capacity the queue was created with.
    pub closed spec fn cap(&self) -> int {
        self.capacity as int
    }

    /// Creates an empty queue with the configured capacity.
    pub fn new(config: &WalConfig) -> (r: Self)
        ensures
            r.contents() == Seq::<MsgModel>::empty(),
            r.cap() == config.buffer_size,
    {
        let r = WalQueue { items: Vec::new(), capacity: config.buffer_size };
        proof {
            assert(r.contents() =~= Seq::<MsgModel>::empty());
        }
        r
    }

    /// How many requests are queued.
    pub fn len(&self) -> (r: usize)
        ensures
            r == self.contents().len(),
    {
        self.items.len()
    }

    /// Backpressure, stated exactly: the request is accepted when and
    /// only when the queue is below capacity; a full queue refuses it
    /// and is left unchanged, so the producer must wait for the
    /// consumer before its request can enter.
    pub fn try_enqueue(&mut self, msg: WalMessage) -> (accepted: bool)
        ensures
            accepted == (old(self).contents().len() < old(self).cap()),
            final(self).cap() == old(self).cap(),
            accepted ==> final(self).contents() == old(self).contents().push(msg@),
            !accepted ==> final(self).contents() == old(self).contents(),
    {
        if self.items.len() < self.capacity {
            self.items.push(msg);
            proof {
                assert(self.contents() =~= old(self).contents().push(msg@));
            }
            true
        } else {
            false
        }
    }

    /// Takes every queued request, in arrival order: the batch the
    /// consumer drains when it wakes. The queue is empty afterwards,
    /// with its capacity free again.
    pub fn take_all(&mut self) -> (batch: Vec<WalMessage>)
        ensures
            msg_models_of(batch@) == old(self).contents(),
            final(self).contents() == Seq::<MsgModel>::empty(),
            final(self).cap() == old(self).cap(),
    {
        let mut batch: Vec<WalMessage> = Vec::new();
        core::mem::swap(&mut batch, &mut self.items);
        proof {
            assert(self.contents() =~= Seq::<MsgModel>::empty());
        }
        batch
    }
}

} // verus!
