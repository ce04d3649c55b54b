//! The connections to the peers: who they are, and the messages that go to
//! and come from them.

use std::sync::mpsc::Sender;

use vstd::prelude::*;

use crate::clipboard;
use crate::clipboard::{send_value, share};
use crate::connection::incoming::spec_change_from;
use crate::protocol::clipboard::ChangeModel;
use crate::connection::outgoing::spec_message_from;
use crate::protocol::clipboard::{
    change_bytes, change_wf, lemma_change_frame_roundtrip, spec_parse_delimited_change,
};
use crate::protocol::wire::{frame_bytes, pow256};

pub mod incoming;
pub mod manager;
pub mod outgoing;

verus! {

/// A computer to share the clipboard with, or this computer's own listening
/// address: IP, port, and the PEM files of its certificate and private key.
#[derive(Clone, Debug, PartialEq, Eq)]
pub struct Peer {
    pub ip: String,
    pub port: u16,
    pub cert: Option<String>,
    pub key: Option<String>,
}

/// The mathematical content of a [`Peer`].
pub struct PeerModel {
    pub ip: Seq<char>,
    pub port: u16,
    pub cert: Option<Seq<char>>,
    pub key: Option<Seq<char>>,
}

/// The view of an optional string.
pub open spec fn opt_view(s: Option<String>) -> Option<Seq<char>> {
    match s {
        Some(x) => Some(x@),
        None => None,
    }
}

impl View for Peer {
    type V = PeerModel;

    open spec fn view(&self) -> PeerModel {
        PeerModel { ip: self.ip@, port: self.port, cert: opt_view(self.cert), key: opt_view(self.key) }
    }
}

/// The views of a sequence of peers.
pub open spec fn peers_view(ps: Seq<Peer>) -> Seq<PeerModel> {
    ps.map_values(|p: Peer| p@)
}

/// The port a peer listens on when none is configured.
pub const DEFAULT_PORT: u16 = 23421;

/// The address a peer listens on when none is configured.
pub open spec fn default_ip() -> Seq<char> {
    seq!['0', '.', '0', '.', '0', '.', '0']
}

impl Default for Peer {
    /// All addresses, the default port, no certificate and no key.
    fn default() -> (r: Peer)
        ensures
            r.ip@ == default_ip(),
            r.port == DEFAULT_PORT,
            r.cert is None,
            r.key is None,
    {
        let ip = String::from_str("0.0.0.0");
        proof {
            reveal_strlit("0.0.0.0");
        }
        assert(ip@ =~= default_ip());
        Peer { ip, port: DEFAULT_PORT, cert: None, key: None }
    }
}

/// The channels of the connections to every peer.
pub struct Broadcast(pub Vec<Sender<clipboard::Change>>);

impl Broadcast {
    /// Hands the change to every connection, in order, and stops at the
    /// first one whose connection is gone, giving the change back. With no
    /// connection there is nothing to fail, and it succeeds; otherwise whether
    /// each connection is still there depends on other threads.
    pub fn send(&self, change: clipboard::Change) -> (r: Result<(), clipboard::Change>)
        ensures
            self.0@.len() == 0 ==> r is Ok,
            r matches Err(c) ==> c == change,
    {
        let mut i: usize = 0;
        while i < self.0.len()
            decreases self.0.len() - i,
        {
            match send_value(&self.0[i], share(&change)) {
                Ok(()) => {},
                Err(c) => return Err(c),
            }
            i = i + 1;
        }
        Ok(())
    }
}

/// A peer receives the clipboard change that was sent to it: the
/// length-delimited message built from a change at time `at` with the
/// (format, data) pairs `es` parses back on the other end, whatever follows it
/// on the stream, and takes apart into the same time and the same pairs in
/// the same order. The contents must fit the 32-bit length prefixes of the
/// format, and the whole message the 64-bit one of the frame.
pub proof fn lemma_peer_receives_change(
    at: u64,
    es: Seq<(Seq<char>, Seq<u8>)>,
    rest: Seq<u8>,
)
    requires
        change_wf(spec_message_from(at, es)),
        change_bytes(spec_message_from(at, es)).len() < pow256(8),
    ensures
        ({
            let sent = frame_bytes(change_bytes(spec_message_from(at, es)));
            &&& spec_parse_delimited_change(sent + rest) matches Ok((m, n)) && n == sent.len()
                && spec_change_from(m) == (at, es)
        }),
{
    let m = spec_message_from(at, es);
    lemma_change_frame_roundtrip(m, rest);
    assert(spec_change_from(m).1 =~= es);
}

/// Order is kept in each direction, not only over a round trip: the message
/// built from a change at time `at` with the pairs `es` has that time and, at
/// each position `i`, a content with the `i`-th format and data and nothing
/// else; and the `i`-th pair taken from a received message `m` comes from its
/// `i`-th content, an unset field read as empty.
pub proof fn lemma_contents_keep_order(at: u64, es: Seq<(Seq<char>, Seq<u8>)>, m: ChangeModel)
    ensures
        spec_message_from(at, es).at == Some(at),
        spec_message_from(at, es).unknown.len() == 0,
        spec_message_from(at, es).content.len() == es.len(),
        forall|i: int|
            0 <= i < es.len() ==> {
                let c = #[trigger] spec_message_from(at, es).content[i];
                &&& c.format == Some(es[i].0)
                &&& c.data == Some(es[i].1)
                &&& c.unknown.len() == 0
            },
        spec_change_from(m).0 == (match m.at {
            Some(v) => v,
            None => 0u64,
        }),
        spec_change_from(m).1.len() == m.content.len(),
        forall|i: int|
            0 <= i < m.content.len() ==> {
                let p = #[trigger] spec_change_from(m).1[i];
                &&& p.0 == (match m.content[i].format {
                    Some(f) => f,
                    None => Seq::<char>::empty(),
                })
                &&& p.1 == (match m.content[i].data {
                    Some(d) => d,
                    None => Seq::<u8>::empty(),
                })
            },
{
}

} // verus!
