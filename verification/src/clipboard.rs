//! What the clipboard back ends and the connections exchange.

use std::sync::mpsc::Sender;
use std::sync::Arc;

use vstd::prelude::*;

verus! {

/// `std::sync::mpsc::Sender`, the sending half of a channel.
#[verifier::external_type_specification]
#[verifier::external_body]
#[verifier::reject_recursive_types(T)]
pub struct ExSender<T>(Sender<T>);

/// `Sender::send` hands `value` to the receiving half. It fails when that
/// half is gone, and the `SendError` it then returns carries the value that
/// could not be sent, which is given back here. Whether the receiving half is
/// gone depends on another thread, so success is not stated.
#[verifier::external_body]
pub(crate) fn send_value<T>(sender: &Sender<T>, value: T) -> (r: Result<(), T>)
    ensures
        r matches Err(v) ==> v == value,
{
    sender.send(value).map_err(|e| e.0)
}

/// `Arc::clone`: another pointer to the same value.
#[verifier::external_body]
pub(crate) fn share<T>(value: &Arc<T>) -> (r: Arc<T>)
    ensures
        r == *value,
{
    Arc::clone(value)
}

/// The clipboard at one moment: when it changed, and its content in each
/// format as (MIME type, data) pairs.
pub type Change = Arc<(u64, Vec<(String, Vec<u8>)>)>;

/// Where a change comes from: a peer (incoming) or this computer (outgoing).
pub enum Direction<T> {
    Incoming(T),
    Outgoing(T),
}

/// A change with its direction, as the back ends and connections report it.
pub type Message = Direction<Change>;

/// A clipboard back end: it reports the changes of the local clipboard on a
/// channel and takes the changes that peers send.
pub trait Clipboard {
    fn start(&self, channel: Sender<Message>);

    fn set(&self, value: Change);
}

/// The mathematical content of the (format, data) pairs of a change.
pub open spec fn entries_view(es: Seq<(String, Vec<u8>)>) -> Seq<(Seq<char>, Seq<u8>)> {
    es.map_values(|e: (String, Vec<u8>)| (e.0@, e.1@))
}

} // verus!
