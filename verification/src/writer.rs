//! The writer capability — append, flush, sync — and its verified
//! in-memory implementation.

use vstd::prelude::*;

use crate::encoder::model_fits;
use crate::encoder::spec_encode;
use crate::encoder::WalCodec;
use crate::entry::WalEntry;
use crate::error::WalError;

verus! {

/// An append-only target for encoded records, with two durability
/// operations of strictly increasing strength: `flush` pushes
/// process-level buffers toward the operating system, and `sync`
/// additionally forces stable storage.
///
/// Implementations are substitutable under the actor without changing
/// it. [`MemWriter`] below is the verified in-memory implementation; a
/// disk-backed one belongs to the runtime around this crate, since it
/// does file input and output.
pub trait WalWriter: Sized {
    /// Every byte appended so far, in order.
    spec fn contents(&self) -> Seq<u8>;

    /// How many of those bytes have left the process's own buffers.
    spec fn flushed_len(&self) -> int;

    /// How many of those bytes are durable on stable storage.
    spec fn synced_len(&self) -> int;

    /// Whether this writer owes success to every operation. A
    /// deterministic in-memory target can promise this; a target that
    /// can give out — a real disk, or a double injecting faults — makes
    /// it false. Once reliable, a writer stays so: no trait operation
    /// may revoke it.
    spec fn reliable(&self) -> bool;

    /// Encodes the record and appends its bytes. A failure is local to
    /// this request: the target is left exactly as it was.
    fn append(&mut self, entry: &WalEntry) -> (r: Result<(), WalError>)
        ensures
            final(self).flushed_len() == old(self).flushed_len(),
            final(self).synced_len() == old(self).synced_len(),
            final(self).reliable() == old(self).reliable(),
            old(self).reliable() ==> r is Ok,
            r is Ok ==> model_fits(entry@) && final(self).contents() == old(self).contents()
                + spec_encode(entry@),
            r is Err ==> final(self).contents() == old(self).contents(),
    ;

    /// Pushes process-level buffers toward the operating system.
    fn flush(&mut self) -> (r: Result<(), WalError>)
        ensures
            final(self).contents() == old(self).contents(),
            final(self).synced_len() == old(self).synced_len(),
            final(self).reliable() == old(self).reliable(),
            old(self).reliable() ==> r is Ok,
            r is Ok ==> final(self).flushed_len() == old(self).contents().len(),
            r is Err ==> final(self).flushed_len() == old(self).flushed_len(),
    ;

    /// Forces every appended byte onto stable storage; this subsumes a
    /// flush.
    fn sync(&mut self) -> (r: Result<(), WalError>)
        ensures
            final(self).contents() == old(self).contents(),
            final(self).reliable() == old(self).reliable(),
            old(self).reliable() ==> r is Ok,
            r is Ok ==> final(self).flushed_len() == old(self).contents().len()
                && final(self).synced_len() == old(self).contents().len(),
            r is Err ==> final(self).flushed_len() == old(self).flushed_len()
                && final(self).synced_len() == old(self).synced_len(),
    ;
}

/// An in-memory writer that tracks exactly what a disk-backed writer
/// would hold in its file, in the operating system's buffers, and on
/// stable storage.
///
/// It doubles as the deterministic test stand-in for the disk: it can be
/// told to refuse appends, which is how callers' failure paths are
/// exercised without a failing disk.
pub struct MemWriter {
    codec: WalCodec,
    log: Vec<u8>,
    flushed: usize,
    synced: usize,
    fail_after: Option<usize>,
}

impl MemWriter {
    /// How many more appends the writer will accept before refusing
    /// them: `None` means it never refuses.
    pub closed spec fn appends_until_refusal(&self) -> Option<usize> {
        self.fail_after
    }

    /// Whether the very next append is refused.
    pub open spec fn is_failing(&self) -> bool {
        self.appends_until_refusal() == Some(0usize)
    }

    /// Creates a writer over an empty log that accepts appends.
    pub fn new(codec: WalCodec) -> (r: Self)
        ensures
            r.contents() == Seq::<u8>::empty(),
            r.flushed_len() == 0,
            r.synced_len() == 0,
            r.appends_until_refusal() == None::<usize>,
    {
        MemWriter { codec, log: Vec::new(), flushed: 0, synced: 0, fail_after: None }
    }

    /// Creates a writer over a log recovered from stable storage: the
    /// given bytes already survived, so they count as durable.
    pub fn with_log(codec: WalCodec, log: Vec<u8>) -> (r: Self)
        ensures
            r.contents() == log@,
            r.flushed_len() == log@.len(),
            r.synced_len() == log@.len(),
            r.appends_until_refusal() == None::<usize>,
    {
        let flushed = log.len();
        MemWriter { codec, log, flushed, synced: flushed, fail_after: None }
    }

    /// Tells the writer to refuse every append from now on, or to
    /// accept them all again: the fault injection used to exercise
    /// callers' failure paths.
    pub fn set_failing(&mut self, failing: bool)
        ensures
            final(self).contents() == old(self).contents(),
            final(self).flushed_len() == old(self).flushed_len(),
            final(self).synced_len() == old(self).synced_len(),
            final(self).appends_until_refusal() == if failing {
                Some(0usize)
            } else {
                None::<usize>
            },
    {
        self.fail_after = if failing {
            Some(0)
        } else {
            None
        };
    }

    /// Tells the writer to accept the next `n` appends and refuse the
    /// ones after them: the fault injection for a target that gives out
    /// mid-way.
    pub fn set_failing_after(&mut self, n: usize)
        ensures
            final(self).contents() == old(self).contents(),
            final(self).flushed_len() == old(self).flushed_len(),
            final(self).synced_len() == old(self).synced_len(),
            final(self).appends_until_refusal() == Some(n),
    {
        self.fail_after = Some(n);
    }

    /// The appended bytes: what the disk-backed analogue's file holds.
    pub fn bytes(&self) -> (r: &Vec<u8>)
        ensures
            r@ == self.contents(),
    {
        &self.log
    }

    /// How many bytes are durable, as a number a caller can read off.
    pub fn synced_bytes(&self) -> (r: usize)
        ensures
            r == self.synced_len(),
    {
        self.synced
    }
}

impl WalWriter for MemWriter {
    closed spec fn contents(&self) -> Seq<u8> {
        self.log@
    }

    closed spec fn flushed_len(&self) -> int {
        self.flushed as int
    }

    closed spec fn synced_len(&self) -> int {
        self.synced as int
    }

    open spec fn reliable(&self) -> bool {
        self.appends_until_refusal() is None
    }

    /// Success is owed exactly while the fault budget is not exhausted:
    /// encoding itself never fails. A successful append consumes one
    /// unit of a finite budget; an unlimited writer stays unlimited.
    fn append(&mut self, entry: &WalEntry) -> (r: Result<(), WalError>)
        ensures
            r is Ok <==> old(self).appends_until_refusal() != Some(0usize),
            final(self).appends_until_refusal() == (match old(self).appends_until_refusal() {
                None => None::<usize>,
                Some(n) => if n == 0 {
                    Some(0usize)
                } else {
                    Some((n - 1) as usize)
                },
            }),
    {
        match self.fail_after {
            Some(n) => {
                if n == 0 {
                    return Err(WalError::Io);
                }
                self.fail_after = Some(n - 1);
            },
            None => {
            },
        }
        match self.codec.encode(entry) {
            Ok(mut bytes) => {
                self.log.append(&mut bytes);
                Ok(())
            },
            Err(_) => Err(WalError::Encode),
        }
    }

    /// Never fails: moving bytes out of the process's own buffers is a
    /// bookkeeping step for an in-memory target.
    fn flush(&mut self) -> (r: Result<(), WalError>)
        ensures
            r is Ok,
            final(self).appends_until_refusal() == old(self).appends_until_refusal(),
    {
        self.flushed = self.log.len();
        Ok(())
    }

    /// Never fails: stable storage is a second counter here.
    fn sync(&mut self) -> (r: Result<(), WalError>)
        ensures
            r is Ok,
            final(self).appends_until_refusal() == old(self).appends_until_refusal(),
    {
        self.flushed = self.log.len();
        self.synced = self.flushed;
        Ok(())
    }
}

} // verus!
