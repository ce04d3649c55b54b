//! A connection manager with a fixed list of peer addresses.

use std::sync::mpsc::Sender;

use vstd::prelude::*;

use crate::clipboard;
use crate::clipboard::{send_value, share};
use crate::protocol::handshake;

verus! {

/// Where to listen, which peers to connect to, and, once the connections are
/// started, the channel of each.
pub struct Manager {
    pub bind: String,
    pub port: u16,
    pub peers: Vec<String>,
    pub broadcast: Option<Vec<Sender<clipboard::Change>>>,
}

impl Manager {
    /// A manager whose connections are not started yet.
    pub fn new(bind: String, port: u16, peers: Vec<String>) -> (r: Manager)
        ensures
            r.bind@ == bind@,
            r.port == port,
            r.peers@ == peers@,
            r.broadcast is None,
    {
        Manager { bind, port, peers, broadcast: None }
    }

    /// Whether a peer's handshake is accepted; see [`handshake::spec_verify`].
    pub fn verify(msg: &handshake::Identity) -> (r: bool)
        ensures
            r == handshake::spec_verify(msg@),
    {
        handshake::verify(msg)
    }

    /// The handshake this computer opens each connection with.
    pub fn identity() -> (r: handshake::Identity)
        ensures
            r@ == handshake::spec_identity(),
    {
        handshake::identity()
    }

    /// Hands a change to the channel of every started connection; a
    /// connection that is gone is skipped.
    pub fn set(&self, change: clipboard::Change)
        requires
            self.broadcast is Some,
    {
        match &self.broadcast {
            Some(senders) => {
                let mut i: usize = 0;
                while i < senders.len()
                    decreases senders.len() - i,
                {
                    let _ = send_value(&senders[i], share(&change));
                    i = i + 1;
                }
            },
            None => {},
        }
    }
}

} // verus!
