//! Helpers that the back ends and connections share: taking the latest value
//! off a channel, and hashing a clipboard content.

use std::hash::Hasher;
use std::sync::mpsc::Receiver;

use vstd::prelude::*;
use vstd::utf8::*;

use crate::clipboard::entries_view;
use crate::protocol::wire::{le_bytes, write_le};

verus! {

/// `std::sync::mpsc::Receiver`, the receiving half of a channel.
#[verifier::external_type_specification]
#[verifier::external_body]
#[verifier::reject_recursive_types(T)]
pub struct ExReceiver<T>(Receiver<T>);

/// `std::hash::SipHasher`, SipHash 2-4 with zero keys.
#[verifier::external_type_specification]
#[verifier::external_body]
#[allow(deprecated)]
pub struct ExSipHasher(std::hash::SipHasher);

/// The bytes a `SipHasher` has been fed so far, in order.
pub uninterp spec fn sip_fed(hasher: std::hash::SipHasher) -> Seq<u8>;

/// SipHash 2-4 with both keys zero, of a byte string.
pub uninterp spec fn sip_digest(bytes: Seq<u8>) -> u64;

/// `Receiver::try_recv`: a value that is waiting on the channel, if any.
/// Whether one is waiting depends on other threads, so nothing is stated.
#[verifier::external_body]
fn try_recv<T>(channel: &Receiver<T>) -> Option<T> {
    channel.try_recv().ok()
}

/// `SipHasher::new`: a hasher with zero keys that has been fed nothing.
#[verifier::external_body]
#[allow(deprecated)]
pub(crate) fn sip_new() -> (r: std::hash::SipHasher)
    ensures
        sip_fed(r) == Seq::<u8>::empty(),
{
    std::hash::SipHasher::new()
}

/// `Hasher::write`: feeds `bytes` to the hasher, after what it was fed
/// before.
#[verifier::external_body]
pub(crate) fn sip_write(hasher: &mut std::hash::SipHasher, bytes: &[u8])
    ensures
        sip_fed(*final(hasher)) == sip_fed(*old(hasher)) + bytes@,
{
    hasher.write(bytes)
}

/// `Hasher::finish`: SipHash 2-4 with zero keys of the bytes fed so far.
/// SipHash reads its message as bytes, so the digest depends on those bytes
/// alone, on every machine.
#[verifier::external_body]
pub(crate) fn sip_finish(hasher: &std::hash::SipHasher) -> (r: u64)
    ensures
        r == sip_digest(sip_fed(*hasher)),
{
    hasher.finish()
}

/// The bytes that stand for one (MIME type, data) pair in a content hash,
/// after the hash so far: that hash in eight bytes, low byte first; the
/// type's UTF-8 and a 0xff byte; the data's length in eight bytes, low byte
/// first; the data. These are the bytes that hashing the tuple
/// `(previous, type, data)` feeds on a 64-bit little-endian machine.
pub open spec fn entry_bytes(previous: u64, key: Seq<char>, value: Seq<u8>) -> Seq<u8> {
    le_bytes(previous as nat, 8) + encode_utf8(key) + seq![0xffu8] + le_bytes(value.len(), 8) + value
}

/// Appends the bytes of [`entry_bytes`].
pub(crate) fn push_entry_bytes(out: &mut Vec<u8>, previous: u64, key: &str, value: &[u8])
    ensures
        final(out)@ == old(out)@ + entry_bytes(previous, key@, value@),
{
    let ghost start = out@;
    write_le(out, previous, 8);
    let kb = key.as_bytes();
    let mut i: usize = 0;
    let ghost mid = out@;
    while i < kb.len()
        invariant
            i <= kb@.len(),
            out@ == mid + kb@.take(i as int),
        decreases kb.len() - i,
    {
        out.push(kb[i]);
        assert(out@ =~= mid + kb@.take(i + 1));
        i = i + 1;
    }
    assert(kb@.take(kb@.len() as int) =~= kb@);
    out.push(0xff);
    write_le(out, value.len() as u64, 8);
    let ghost mid2 = out@;
    let mut j: usize = 0;
    while j < value.len()
        invariant
            j <= value@.len(),
            out@ == mid2 + value@.take(j as int),
        decreases value.len() - j,
    {
        out.push(value[j]);
        assert(out@ =~= mid2 + value@.take(j + 1));
        j = j + 1;
    }
    assert(value@.take(value@.len() as int) =~= value@);
    assert(out@ =~= start + entry_bytes(previous, key@, value@));
}

/// The bytes one hasher is fed for a content, and the hash after each pair:
/// each pair is fed with the hash after the pairs before it.
pub open spec fn hash_stream(es: Seq<(Seq<char>, Seq<u8>)>) -> (Seq<u8>, u64)
    decreases es.len(),
{
    if es.len() == 0 {
        (Seq::empty(), 0)
    } else {
        let (fed, h) = hash_stream(es.drop_last());
        let more = fed + entry_bytes(h, es.last().0, es.last().1);
        (more, sip_digest(more))
    }
}

/// The last of `values`; `None` when there is none.
pub fn latest<T>(values: Vec<T>) -> (r: Option<T>)
    ensures
        values@.len() == 0 ==> r is None,
        values@.len() > 0 ==> r == Some(values@.last()),
{
    let mut values = values;
    values.pop()
}

/// Takes the values waiting on the channel, in the order they were sent. What
/// arrives depends on other threads, so nothing is stated. The loop stops
/// after `u64::MAX` values at the latest.
fn drain<T>(channel: &Receiver<T>) -> Vec<T> {
    let mut values: Vec<T> = Vec::new();
    let mut budget: u64 = u64::MAX;
    while budget > 0
        decreases budget,
    {
        match try_recv(channel) {
            Some(next) => {
                values.push(next);
                budget = budget - 1;
            },
            None => {
                return values;
            },
        }
    }
    values
}

/// Takes every value waiting on the channel and returns the last of them, or
/// `None` when none is waiting: the waiting values are drained and
/// [`latest`] keeps the last. What was waiting depends on other threads, so
/// the result is not stated here.
pub fn flush<T>(channel: &Receiver<T>) -> Option<T> {
    latest(drain(channel))
}

/// A hash of a clipboard content, the (MIME type, data) pairs in key order:
/// one hasher is fed each pair after the hash so far, see [`hash_stream`].
pub fn hash(content: &Vec<(String, Vec<u8>)>) -> (r: u64)
    ensures
        r == hash_stream(entries_view(content@)).1,
{
    let ghost es = entries_view(content@);
    let mut hasher = sip_new();
    let mut h: u64 = 0;
    let mut i: usize = 0;
    while i < content.len()
        invariant
            es == entries_view(content@),
            i <= content@.len(),
            (sip_fed(hasher), h) == hash_stream(es.take(i as int)),
        decreases content.len() - i,
    {
        let mut buf: Vec<u8> = Vec::new();
        push_entry_bytes(&mut buf, h, content[i].0.as_str(), content[i].1.as_slice());
        sip_write(&mut hasher, buf.as_slice());
        h = sip_finish(&hasher);
        assert(es.take(i + 1).drop_last() =~= es.take(i as int));
        assert(es.take(i + 1).last() == es[i as int]);
        i = i + 1;
    }
    assert(es.take(es.len() as int) =~= es);
    h
}

} // verus!
