//! The request protocol between producers and the single consumer that
//! owns the writer.
//!
//! In the running system each request travels with the sending half of a
//! single-use acknowledgment channel; those halves belong to the runtime
//! around this crate. What the consumer must *do* for each request — the
//! part with content — is modelled here.

use vstd::prelude::*;

use crate::entry::EntryModel;
use crate::entry::WalEntry;

verus! {

/// A request for the consumer of the log: append one record, push
/// process buffers toward the operating system, force stable storage, or
/// drain and stop.
pub enum WalMessage {
    Write(WalEntry),
    Flush,
    Sync,
    Shutdown,
}

/// The model of a request.
#[verifier::ext_equal]
pub enum MsgModel {
    Write(EntryModel),
    Flush,
    Sync,
    Shutdown,
}

impl View for WalMessage {
    type V = MsgModel;

    open spec fn view(&self) -> MsgModel {
        match self {
            WalMessage::Write(entry) => MsgModel::Write(entry@),
            WalMessage::Flush => MsgModel::Flush,
            WalMessage::Sync => MsgModel::Sync,
            WalMessage::Shutdown => MsgModel::Shutdown,
        }
    }
}

/// The models of a sequence of requests, in order.
pub open spec fn msg_models_of(msgs: Seq<WalMessage>) -> Seq<MsgModel> {
    msgs.map_values(|m: WalMessage| m@)
}

/// Whether any request of the sequence asks for shutdown.
pub open spec fn has_shutdown(ms: Seq<MsgModel>) -> bool {
    exists|i: int| 0 <= i < ms.len() && ms[i] is Shutdown
}

} // verus!
