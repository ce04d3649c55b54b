//! The connection to one peer: what this computer sends it.

use vstd::prelude::*;

use crate::clipboard::entries_view;
use crate::protocol::clipboard::{Change, Content, ContentModel, ChangeModel, contents_view};
use crate::protocol::handshake;

verus! {

/// The handshake this computer opens each connection with.
pub fn identity() -> (r: handshake::Identity)
    ensures
        r@ == handshake::spec_identity(),
{
    handshake::identity()
}

/// The message that carries a clipboard change: its time, then one content
/// per format, in order.
pub open spec fn spec_message_from(at: u64, es: Seq<(Seq<char>, Seq<u8>)>) -> ChangeModel {
    ChangeModel {
        at: Some(at),
        content: Seq::new(
            es.len(),
            |i: int| ContentModel { format: Some(es[i].0), data: Some(es[i].1), unknown: Seq::empty() },
        ),
        unknown: Seq::empty(),
    }
}

/// Builds the message that carries a clipboard change.
pub fn message_from_change(change: &(u64, Vec<(String, Vec<u8>)>)) -> (r: Change)
    ensures
        r@ == spec_message_from(change.0, entries_view(change.1@)),
{
    let mut msg = Change::new();
    msg.set_at(change.0);
    let mut contents: Vec<Content> = Vec::new();
    let ghost target = spec_message_from(change.0, entries_view(change.1@));
    let mut i: usize = 0;
    while i < change.1.len()
        invariant
            i <= change.1@.len(),
            target == spec_message_from(change.0, entries_view(change.1@)),
            contents_view(contents@) =~= target.content.take(i as int),
        decreases change.1.len() - i,
    {
        let mut c = Content::new();
        let (format, data) = &change.1[i];
        c.set_format(String::from_str(format.as_str()));
        c.set_data(vstd::slice::slice_to_vec(data.as_slice()));
        assert(entries_view(change.1@)[i as int] == (format@, data@));
        assert(c@ == target.content[i as int]);
        let ghost before = contents@;
        let ghost cv = c@;
        contents.push(c);
        assert(contents_view(contents@) =~= contents_view(before).push(cv));
        assert(target.content.take(i + 1) =~= target.content.take(i as int).push(cv));
        assert(contents_view(contents@) =~= target.content.take(i + 1));
        i = i + 1;
    }
    assert(target.content.take(change.1@.len() as int) =~= target.content);
    msg.set_content(contents);
    msg
}

} // verus!
