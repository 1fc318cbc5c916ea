//! The channel that decoded messages are handed to.
use crate::protocol::ProtocolMsgs;
use std::sync::mpsc::SyncSender;
use vstd::prelude::*;

verus! {

/// `std::sync::mpsc::SyncSender`, the sending half of a bounded channel.
#[verifier::external_type_specification]
#[verifier::external_body]
#[verifier::reject_recursive_types(T)]
pub struct ExSyncSender<T>(std::sync::mpsc::SyncSender<T>);

/// `std::sync::mpsc::RecvError`, returned when the sending halves are gone.
#[verifier::external_type_specification]
#[verifier::external_body]
pub struct ExRecvError(std::sync::mpsc::RecvError);

/// `SyncSender::send`: hands `msg` to the channel, waiting for room. Whether it was accepted
/// depends on whether the receiving half is still alive, so nothing is stated of the result:
/// `true` when `send` returned `Ok`.
#[verifier::external_body]
pub(crate) fn send_msg(tx: &SyncSender<ProtocolMsgs>, msg: ProtocolMsgs) -> (delivered: bool) {
    tx.send(msg).is_ok()
}

} // verus!
