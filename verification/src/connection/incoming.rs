//! The connections from the peers: what this computer accepts from them.

use vstd::prelude::*;

use std::sync::Arc;

use crate::clipboard::{entries_view, Direction, Message};
use crate::connection::Peer;
use crate::protocol::clipboard::{Change, ChangeModel, ContentModel};
use crate::protocol::handshake;

verus! {

/// Whether a peer's handshake is accepted; see [`handshake::spec_verify`].
pub fn verify(msg: &handshake::Identity) -> (r: bool)
    ensures
        r == handshake::spec_verify(msg@),
{
    handshake::verify(msg)
}

/// The format of a content, empty when unset.
pub open spec fn format_or_empty(c: ContentModel) -> Seq<char> {
    match c.format {
        Some(f) => f,
        None => Seq::empty(),
    }
}

/// The data of a content, empty when unset.
pub open spec fn data_or_empty(c: ContentModel) -> Seq<u8> {
    match c.data {
        Some(d) => d,
        None => Seq::empty(),
    }
}

/// The clipboard change a received message carries: its time (zero when
/// unset) and a (format, data) pair per content, unset fields read as empty.
pub open spec fn spec_change_from(m: ChangeModel) -> (u64, Seq<(Seq<char>, Seq<u8>)>) {
    (
        match m.at {
            Some(v) => v,
            None => 0,
        },
        m.content.map_values(|c: ContentModel| (format_or_empty(c), data_or_empty(c))),
    )
}

/// Takes a received message apart into the clipboard change it carries.
pub fn change_from_message(msg: &Change) -> (r: (u64, Vec<(String, Vec<u8>)>))
    ensures
        r.0 == spec_change_from(msg@).0,
        entries_view(r.1@) == spec_change_from(msg@).1,
{
    let at = msg.get_at();
    let contents = msg.get_content();
    let ghost target = spec_change_from(msg@).1;
    let mut out: Vec<(String, Vec<u8>)> = Vec::new();
    let mut i: usize = 0;
    while i < contents.len()
        invariant
            i <= contents@.len(),
            target == spec_change_from(msg@).1,
            crate::protocol::clipboard::contents_view(contents@) == msg@.content,
            entries_view(out@) =~= target.take(i as int),
        decreases contents.len() - i,
    {
        let c = &contents[i];
        let format = String::from_str(c.get_format());
        let data = vstd::slice::slice_to_vec(c.get_data());
        assert(crate::protocol::clipboard::contents_view(contents@)[i as int] == c@);
        assert(target[i as int] == (format@, data@));
        let ghost before = out@;
        let ghost e = (format@, data@);
        out.push((format, data));
        assert(entries_view(out@) =~= entries_view(before).push(e));
        assert(target.take(i + 1) =~= target.take(i as int).push(e));
        assert(entries_view(out@) =~= target.take(i + 1));
        i = i + 1;
    }
    assert(target.take(contents@.len() as int) =~= target);
    (at, out)
}

/// The first of `peers` whose address is `ip`, as an index.
pub fn find_peer(peers: &Vec<Peer>, ip: &String) -> (r: Option<usize>)
    ensures
        r matches Some(i) ==> i < peers@.len() && peers@[i as int].ip@ == ip@ && forall|j: int|
            0 <= j < i ==> peers@[j].ip@ != ip@,
        r is None ==> forall|j: int| 0 <= j < peers@.len() ==> peers@[j].ip@ != ip@,
{
    let mut i: usize = 0;
    while i < peers.len()
        invariant
            i <= peers@.len(),
            forall|j: int| 0 <= j < i ==> peers@[j].ip@ != ip@,
        decreases peers.len() - i,
    {
        if peers[i].ip == *ip {
            return Some(i);
        }
        i = i + 1;
    }
    None
}

/// What a connection from the address `ip` hands on for a received message:
/// the change it carries, as an incoming message, where one of `peers` has
/// that address, and nothing where none has.
pub fn accept_change(peers: &Vec<Peer>, ip: &String, msg: &Change) -> (r: Option<Message>)
    ensures
        r is Some <==> exists|j: int| 0 <= j < peers@.len() && peers@[j].ip@ == ip@,
        r matches Some(m) ==> m matches Direction::Incoming(c) && c.0 == spec_change_from(msg@).0
            && entries_view(c.1@) == spec_change_from(msg@).1,
{
    match find_peer(peers, ip) {
        Some(i) => {
            assert(peers@[i as int].ip@ == ip@);
            Some(Direction::Incoming(Arc::new(change_from_message(msg))))
        },
        None => None,
    }
}

} // verus!
