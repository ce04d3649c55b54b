//! The protocol-buffers wire format: varints, little-endian fixed-width
//! integers, tags and length-delimited payloads.

use vstd::prelude::*;

verus! {

/// Why a byte sequence is not a well-formed encoding.
#[derive(Clone, Copy, Debug, PartialEq, Eq, Structural)]
pub enum DecodeError {
    /// The input ended in the middle of a value.
    Truncated,
    /// A varint is longer than its type allows, or its value does not fit.
    IncorrectVarint,
    /// A tag names field number zero or an unknown wire type.
    IncorrectTag,
    /// A field uses the group wire types, which this format does not carry.
    UnsupportedWireType,
    /// A known field arrived with a wire type other than its own.
    UnexpectedWireType,
    /// A string field does not hold valid UTF-8.
    InvalidUtf8,
    /// A message lacks one of its required fields.
    MissingRequiredField,
}

/// 128 to the power `n`.
pub open spec fn pow128(n: nat) -> nat
    decreases n,
{
    if n == 0 {
        1
    } else {
        128 * pow128((n - 1) as nat)
    }
}

/// 256 to the power `n`.
pub open spec fn pow256(n: nat) -> nat
    decreases n,
{
    if n == 0 {
        1
    } else {
        256 * pow256((n - 1) as nat)
    }
}

/// The canonical (shortest) varint encoding of `v`: seven bits per byte,
/// least significant group first, the high bit set on every byte but the last.
pub open spec fn varint_bytes(v: nat) -> Seq<u8>
    decreases v,
{
    if v < 128 {
        seq![v as u8]
    } else {
        seq![(v % 128 + 128) as u8] + varint_bytes(v / 128)
    }
}

/// The value carried by the varint bytes `t`, continuation bits ignored.
pub open spec fn varint_value(t: Seq<u8>) -> nat
    decreases t.len(),
{
    if t.len() == 0 {
        0
    } else {
        (t[0] % 128) as nat + 128 * varint_value(t.drop_first())
    }
}

/// How many bytes the varint at the start of `s` occupies, when it ends within
/// its first `max` bytes: `IncorrectVarint` when it runs longer, `Truncated`
/// when the input ends first.
pub open spec fn varint_scan(s: Seq<u8>, max: nat) -> Result<nat, DecodeError>
    decreases max,
{
    if max == 0 {
        Err(DecodeError::IncorrectVarint)
    } else if s.len() == 0 {
        Err(DecodeError::Truncated)
    } else if s[0] < 128 {
        Ok(1)
    } else {
        match varint_scan(s.drop_first(), (max - 1) as nat) {
            Ok(n) => Ok(n + 1),
            Err(e) => Err(e),
        }
    }
}

/// Reading a varint of at most `max` bytes whose value must stay below `limit`:
/// its value and its length.
pub open spec fn spec_read_varint(s: Seq<u8>, max: nat, limit: nat) -> Result<(nat, nat), DecodeError> {
    match varint_scan(s, max) {
        Ok(n) => {
            let v = varint_value(s.take(n as int));
            if v < limit {
                Ok((v, n))
            } else {
                Err(DecodeError::IncorrectVarint)
            }
        },
        Err(e) => Err(e),
    }
}

/// A 64-bit varint, as protocol buffers read `uint64` values and message lengths.
pub open spec fn spec_read_varint64(s: Seq<u8>) -> Result<(nat, nat), DecodeError> {
    spec_read_varint(s, 10, pow256(8))
}

/// A 32-bit varint, as protocol buffers read tags and string lengths.
pub open spec fn spec_read_varint32(s: Seq<u8>) -> Result<(nat, nat), DecodeError> {
    spec_read_varint(s, 5, pow256(4))
}

/// The value of little-endian bytes.
pub open spec fn le_value(t: Seq<u8>) -> nat
    decreases t.len(),
{
    if t.len() == 0 {
        0
    } else {
        t[0] as nat + 256 * le_value(t.drop_first())
    }
}

/// The `n` little-endian bytes of `v` (taken modulo 256 to the `n`).
pub open spec fn le_bytes(v: nat, n: nat) -> Seq<u8>
    decreases n,
{
    if n == 0 {
        Seq::empty()
    } else {
        seq![(v % 256) as u8] + le_bytes(v / 256, (n - 1) as nat)
    }
}

// ---------------------------------------------------------------- lemmas

proof fn lemma_pow128_mono(a: nat, b: nat)
    requires
        a <= b,
    ensures
        pow128(a) <= pow128(b),
        pow128(a) >= 1,
    decreases b,
{
    if a < b {
        lemma_pow128_mono(a, (b - 1) as nat);
    } else if a > 0 {
        lemma_pow128_mono((a - 1) as nat, (a - 1) as nat);
    }
}

proof fn lemma_pow256_mono(a: nat, b: nat)
    requires
        a <= b,
    ensures
        pow256(a) <= pow256(b),
        pow256(a) >= 1,
    decreases b,
{
    if a < b {
        lemma_pow256_mono(a, (b - 1) as nat);
    } else if a > 0 {
        lemma_pow256_mono((a - 1) as nat, (a - 1) as nat);
    }
}

/// The powers the formats use.
pub proof fn lemma_pow_facts()
    ensures
        pow256(2) == 65536,
        pow128(10) == 1180591620717411303424,
        pow128(5) == 34359738368,
        pow256(8) == 18446744073709551616,
        pow256(4) == 4294967296,
{
    reveal_with_fuel(pow128, 11);
    reveal_with_fuel(pow256, 9);
}

/// A varint never extends past its input or its maximum length.
pub proof fn lemma_varint_scan_len(s: Seq<u8>, max: nat)
    ensures
        varint_scan(s, max) matches Ok(n) ==> 1 <= n <= s.len() && n <= max,
    decreases max,
{
    if max > 0 && s.len() > 0 && s[0] >= 128 {
        lemma_varint_scan_len(s.drop_first(), (max - 1) as nat);
    }
}

proof fn lemma_varint_value_bound(t: Seq<u8>)
    ensures
        varint_value(t) < pow128(t.len()),
    decreases t.len(),
{
    if t.len() > 0 {
        lemma_varint_value_bound(t.drop_first());
    }
}

proof fn lemma_le_value_bound(t: Seq<u8>)
    ensures
        le_value(t) < pow256(t.len()),
    decreases t.len(),
{
    if t.len() > 0 {
        lemma_le_value_bound(t.drop_first());
    }
}

proof fn lemma_varint_bytes_len(v: nat, k: nat)
    requires
        v < pow128(k),
        k >= 1,
    ensures
        varint_bytes(v).len() <= k,
        varint_bytes(v).len() >= 1,
    decreases v,
{
    if v >= 128 {
        if k == 1 {
            assert(pow128(1) == 128) by {
                reveal_with_fuel(pow128, 2);
            }
        }
        assert(v / 128 < pow128((k - 1) as nat));
        lemma_varint_bytes_len(v / 128, (k - 1) as nat);
    }
}

proof fn lemma_varint_bytes_shape(v: nat)
    ensures
        varint_bytes(v).len() >= 1,
        forall|i: int| 0 <= i < varint_bytes(v).len() - 1 ==> varint_bytes(v)[i] >= 128,
        varint_bytes(v)[varint_bytes(v).len() - 1] < 128,
        varint_value(varint_bytes(v)) == v,
    decreases v,
{
    let t = varint_bytes(v);
    if v >= 128 {
        lemma_varint_bytes_shape(v / 128);
        assert(t.drop_first() =~= varint_bytes(v / 128));
        assert(t[0] % 128 == v % 128);
    } else {
        assert(t.drop_first().len() == 0);
        assert(varint_value(t.drop_first()) == 0);
    }
}

proof fn lemma_scan_bytes(v: nat, rest: Seq<u8>, max: nat)
    requires
        varint_bytes(v).len() <= max,
    ensures
        varint_scan(varint_bytes(v) + rest, max) == Ok::<nat, DecodeError>(varint_bytes(v).len()),
    decreases v,
{
    lemma_varint_bytes_shape(v);
    let s = varint_bytes(v) + rest;
    if v >= 128 {
        lemma_varint_bytes_shape(v / 128);
        assert(s.drop_first() =~= varint_bytes(v / 128) + rest);
        lemma_scan_bytes(v / 128, rest, (max - 1) as nat);
    }
}

/// Reading back the canonical encoding of a value below `limit` gives the value
/// and the encoding's length, whatever follows it.
pub proof fn lemma_read_varint_bytes(v: nat, rest: Seq<u8>, max: nat, limit: nat)
    requires
        v < limit,
        v < pow128(max),
        max >= 1,
    ensures
        spec_read_varint(varint_bytes(v) + rest, max, limit) == Ok::<(nat, nat), DecodeError>(
            (v, varint_bytes(v).len()),
        ),
{
    lemma_varint_bytes_len(v, max);
    lemma_scan_bytes(v, rest, max);
    lemma_varint_bytes_shape(v);
    let s = varint_bytes(v) + rest;
    assert(s.take(varint_bytes(v).len() as int) =~= varint_bytes(v));
}

/// Both varint widths read back what the canonical encoding wrote.
pub proof fn lemma_varint_roundtrip(v: nat, rest: Seq<u8>)
    ensures
        v < pow256(8) ==> spec_read_varint64(varint_bytes(v) + rest) == Ok::<(nat, nat), DecodeError>(
            (v, varint_bytes(v).len()),
        ),
        v < pow256(4) ==> spec_read_varint32(varint_bytes(v) + rest) == Ok::<(nat, nat), DecodeError>(
            (v, varint_bytes(v).len()),
        ),
{
    lemma_pow_facts();
    if v < pow256(8) {
        lemma_read_varint_bytes(v, rest, 10, pow256(8));
    }
    if v < pow256(4) {
        lemma_read_varint_bytes(v, rest, 5, pow256(4));
    }
}

/// Reading `n` little-endian bytes written from `v` gives `v` back.
pub proof fn lemma_le_roundtrip(v: nat, n: nat)
    requires
        v < pow256(n),
    ensures
        le_bytes(v, n).len() == n,
        le_value(le_bytes(v, n)) == v,
    decreases n,
{
    if n > 0 {
        lemma_le_roundtrip(v / 256, (n - 1) as nat);
        assert(le_bytes(v, n).drop_first() =~= le_bytes(v / 256, (n - 1) as nat));
    }
}

// ---------------------------------------------------------------- exec

/// Appends the canonical varint encoding of `v`.
pub fn write_varint(out: &mut Vec<u8>, v: u64)
    ensures
        final(out)@ == old(out)@ + varint_bytes(v as nat),
{
    let mut x: u64 = v;
    while x >= 128
        invariant
            out@ + varint_bytes(x as nat) == old(out)@ + varint_bytes(v as nat),
        decreases x,
    {
        let ghost before = out@;
        out.push((x % 128 + 128) as u8);
        assert(out@ + varint_bytes((x / 128) as nat) =~= before + varint_bytes(x as nat));
        x = x / 128;
    }
    let ghost before = out@;
    out.push(x as u8);
    assert(out@ =~= before + varint_bytes(x as nat));
}

/// Reads a varint of at most `max` bytes from `buf` at `pos`; the value is
/// returned without a bound check, with the number of bytes read.
fn read_varint_raw(buf: &[u8], pos: usize, max: usize) -> (r: Result<(u128, usize), DecodeError>)
    requires
        pos <= buf@.len(),
        1 <= max <= 10,
    ensures
        match varint_scan(buf@.skip(pos as int), max as nat) {
            Ok(n) => r == Ok::<(u128, usize), DecodeError>(
                (varint_value(buf@.skip(pos as int).take(n as int)) as u128, n as usize),
            ) && n <= max && varint_value(buf@.skip(pos as int).take(n as int)) < pow128(max as nat),
            Err(e) => r == Err::<(u128, usize), DecodeError>(e),
        },
{
    let ghost s = buf@.skip(pos as int);
    let len = buf.len();
    let mut i: usize = 0;
    assert(s.skip(0) =~= s);
    // find the terminating byte
    while i < max && i < len - pos && buf[pos + i] >= 128
        invariant
            s == buf@.skip(pos as int),
            len == buf@.len(),
            pos <= len,
            1 <= max <= 10,
            i <= max,
            i <= len - pos,
            varint_scan(s, max as nat) == (match varint_scan(s.skip(i as int), (max - i) as nat) {
                Ok(n) => Ok::<nat, DecodeError>(n + i as nat),
                Err(e) => Err(e),
            }),
        decreases max - i,
    {
        assert(s.skip(i as int)[0] == buf[pos + i]);
        assert(s.skip(i as int).drop_first() =~= s.skip(i + 1));
        i = i + 1;
    }
    if i == max {
        assert(varint_scan(s.skip(i as int), 0) == Err::<nat, DecodeError>(DecodeError::IncorrectVarint));
        return Err(DecodeError::IncorrectVarint);
    }
    if i == len - pos {
        assert(s.skip(i as int).len() == 0);
        return Err(DecodeError::Truncated);
    }
    assert(s.skip(i as int)[0] == buf[pos + i]);
    let ghost n: nat = (i + 1) as nat;
    let ghost t = s.take(n as int);
    assert(varint_scan(s, max as nat) == Ok::<nat, DecodeError>(n));
    // accumulate from the last byte back to the first
    let mut v: u128 = 0;
    let mut j: usize = i + 1;
    proof {
        lemma_pow_facts();
        assert(t.subrange(j as int, n as int).len() == 0);
    }
    while j > 0
        invariant
            s == buf@.skip(pos as int),
            t == s.take(n as int),
            n == i + 1,
            i < max <= 10,
            len == buf@.len(),
            pos + i < len,
            j <= n,
            v as nat == varint_value(t.subrange(j as int, n as int)),
            pow128(10) == 1180591620717411303424,
        decreases j,
    {
        let ghost old_v = v;
        j = j - 1;
        let b = buf[pos + j];
        assert(t[j as int] == b);
        proof {
            let sub = t.subrange(j as int, n as int);
            assert(sub.drop_first() =~= t.subrange(j + 1, n as int));
            lemma_varint_value_bound(t.subrange(j + 1, n as int));
            lemma_pow128_mono((n - (j + 1)) as nat, 10);
        }
        v = v * 128 + (b % 128) as u128;
    }
    assert(t.subrange(0, n as int) =~= t);
    proof {
        lemma_varint_value_bound(t);
        lemma_pow128_mono(n, max as nat);
    }
    Ok((v, i + 1))
}

/// Reads a 64-bit varint at `pos`: its value and length.
pub fn read_varint64(buf: &[u8], pos: usize) -> (r: Result<(u64, usize), DecodeError>)
    requires
        pos <= buf@.len(),
    ensures
        match spec_read_varint64(buf@.skip(pos as int)) {
            Ok((v, n)) => r == Ok::<(u64, usize), DecodeError>((v as u64, n as usize)) && v
                < pow256(8) && 1 <= n <= 10 && pos + n <= buf@.len(),
            Err(e) => r == Err::<(u64, usize), DecodeError>(e),
        },
{
    proof {
        lemma_pow_facts();
        lemma_varint_scan_len(buf@.skip(pos as int), 10);
    }
    match read_varint_raw(buf, pos, 10) {
        Ok((v, n)) => {
            if v < 18446744073709551616u128 {
                Ok((v as u64, n))
            } else {
                Err(DecodeError::IncorrectVarint)
            }
        },
        Err(e) => Err(e),
    }
}

/// Reads a 32-bit varint at `pos`: its value and length.
pub fn read_varint32(buf: &[u8], pos: usize) -> (r: Result<(u32, usize), DecodeError>)
    requires
        pos <= buf@.len(),
    ensures
        match spec_read_varint32(buf@.skip(pos as int)) {
            Ok((v, n)) => r == Ok::<(u32, usize), DecodeError>((v as u32, n as usize)) && v
                < pow256(4) && 1 <= n <= 5 && pos + n <= buf@.len(),
            Err(e) => r == Err::<(u32, usize), DecodeError>(e),
        },
{
    proof {
        lemma_pow_facts();
        lemma_varint_scan_len(buf@.skip(pos as int), 5);
    }
    match read_varint_raw(buf, pos, 5) {
        Ok((v, n)) => {
            if v < 4294967296u128 {
                Ok((v as u32, n))
            } else {
                Err(DecodeError::IncorrectVarint)
            }
        },
        Err(e) => Err(e),
    }
}

/// Appends the `n` little-endian bytes of `v`.
pub fn write_le(out: &mut Vec<u8>, v: u64, n: usize)
    requires
        n <= 8,
    ensures
        final(out)@ == old(out)@ + le_bytes(v as nat, n as nat),
{
    let mut x: u64 = v;
    let mut k: usize = n;
    while k > 0
        invariant
            out@ + le_bytes(x as nat, k as nat) == old(out)@ + le_bytes(v as nat, n as nat),
        decreases k,
    {
        let ghost before = out@;
        out.push((x % 256) as u8);
        assert(out@ + le_bytes((x / 256) as nat, (k - 1) as nat) =~= before + le_bytes(
            x as nat,
            k as nat,
        ));
        x = x / 256;
        k = k - 1;
    }
    assert(out@ =~= out@ + le_bytes(x as nat, 0));
}

/// Reads `n` little-endian bytes at `pos`.
pub fn read_le(buf: &[u8], pos: usize, n: usize) -> (r: u64)
    requires
        n <= 8,
        pos + n <= buf@.len(),
    ensures
        r as nat == le_value(buf@.subrange(pos as int, pos + n)),
{
    let ghost t = buf@.subrange(pos as int, pos + n);
    let len = buf.len();
    let mut v: u64 = 0;
    let mut j: usize = n;
    proof {
        lemma_pow_facts();
    }
    assert(t.subrange(n as int, n as int).len() == 0);
    while j > 0
        invariant
            t == buf@.subrange(pos as int, pos + n),
            n <= 8,
            len == buf@.len(),
            pos + n <= len,
            j <= n,
            v as nat == le_value(t.subrange(j as int, n as int)),
            pow256(8) == 18446744073709551616,
        decreases j,
    {
        j = j - 1;
        let b = buf[pos + j];
        assert(t[j as int] == b);
        proof {
            let sub = t.subrange(j as int, n as int);
            assert(sub.drop_first() =~= t.subrange(j + 1, n as int));
            lemma_le_value_bound(t.subrange(j + 1, n as int));
            lemma_pow256_mono((n - (j + 1)) as nat, 7);
            reveal_with_fuel(pow256, 9);
        }
        v = v * 256 + b as u64;
    }
    assert(t.subrange(0, n as int) =~= t);
    v
}

// ---------------------------------------------------------------- fields

/// The payload of one field, by wire type.
#[derive(Clone, Debug, PartialEq, Eq)]
pub enum WireValue {
    /// Wire type 0.
    Varint(u64),
    /// Wire type 1.
    Fixed64(u64),
    /// Wire type 2.
    LengthDelimited(Vec<u8>),
    /// Wire type 5.
    Fixed32(u32),
}

/// The mathematical content of a [`WireValue`].
pub enum WireModel {
    Varint(u64),
    Fixed64(u64),
    LengthDelimited(Seq<u8>),
    Fixed32(u32),
}

impl View for WireValue {
    type V = WireModel;

    open spec fn view(&self) -> WireModel {
        match self {
            WireValue::Varint(v) => WireModel::Varint(*v),
            WireValue::Fixed64(v) => WireModel::Fixed64(*v),
            WireValue::LengthDelimited(b) => WireModel::LengthDelimited(b@),
            WireValue::Fixed32(v) => WireModel::Fixed32(*v),
        }
    }
}

/// A field that a message does not know, kept as it arrived.
#[derive(Clone, Debug, PartialEq, Eq)]
pub struct UnknownField {
    pub number: u32,
    pub value: WireValue,
}

impl View for UnknownField {
    type V = (u32, WireModel);

    open spec fn view(&self) -> (u32, WireModel) {
        (self.number, self.value@)
    }
}

/// The views of a sequence of unknown fields.
pub open spec fn fields_view(fs: Seq<UnknownField>) -> Seq<(u32, WireModel)> {
    fs.map_values(|f: UnknownField| f@)
}

/// The wire type number of a payload.
pub open spec fn wire_type(w: WireModel) -> nat {
    match w {
        WireModel::Varint(_) => 0,
        WireModel::Fixed64(_) => 1,
        WireModel::LengthDelimited(_) => 2,
        WireModel::Fixed32(_) => 5,
    }
}

/// The largest field number protocol buffers allow.
pub open spec fn max_field_number() -> nat {
    0x1fffffff
}

/// A field that can be written and read back: a valid number and, for a
/// length-delimited payload, a length that fits the 32-bit length prefix.
pub open spec fn field_wf(f: (u32, WireModel)) -> bool {
    &&& 1 <= f.0 <= max_field_number()
    &&& match f.1 {
        WireModel::LengthDelimited(b) => b.len() < pow256(4),
        _ => true,
    }
}

/// The bytes of a tag.
pub open spec fn tag_bytes(number: nat, wt: nat) -> Seq<u8> {
    varint_bytes(number * 8 + wt)
}

/// The bytes of a payload.
pub open spec fn payload_bytes(w: WireModel) -> Seq<u8> {
    match w {
        WireModel::Varint(v) => varint_bytes(v as nat),
        WireModel::Fixed64(v) => le_bytes(v as nat, 8),
        WireModel::LengthDelimited(b) => varint_bytes(b.len()) + b,
        WireModel::Fixed32(v) => le_bytes(v as nat, 4),
    }
}

/// The bytes of one field: its tag, then its payload.
pub open spec fn field_bytes(f: (u32, WireModel)) -> Seq<u8> {
    tag_bytes(f.0 as nat, wire_type(f.1)) + payload_bytes(f.1)
}

/// The bytes of a run of fields, one after the other.
pub open spec fn fields_bytes(fs: Seq<(u32, WireModel)>) -> Seq<u8>
    decreases fs.len(),
{
    if fs.len() == 0 {
        Seq::empty()
    } else {
        field_bytes(fs[0]) + fields_bytes(fs.drop_first())
    }
}

/// Reading a tag: field number, wire type and the tag's length.
#[verifier::opaque]
pub open spec fn spec_read_tag(s: Seq<u8>) -> Result<(u32, nat, nat), DecodeError> {
    match spec_read_varint32(s) {
        Ok((v, n)) => {
            if v / 8 == 0 || v % 8 > 5 {
                Err(DecodeError::IncorrectTag)
            } else {
                Ok(((v / 8) as u32, v % 8, n))
            }
        },
        Err(e) => Err(e),
    }
}

/// Reading the payload of wire type `wt`: the payload and its length.
#[verifier::opaque]
pub open spec fn spec_read_payload(s: Seq<u8>, wt: nat) -> Result<(WireModel, nat), DecodeError> {
    if wt == 0 {
        match spec_read_varint64(s) {
            Ok((v, n)) => Ok((WireModel::Varint(v as u64), n)),
            Err(e) => Err(e),
        }
    } else if wt == 1 {
        if s.len() < 8 {
            Err(DecodeError::Truncated)
        } else {
            Ok((WireModel::Fixed64(le_value(s.take(8)) as u64), 8))
        }
    } else if wt == 2 {
        match spec_read_varint32(s) {
            Ok((len, n)) => {
                if s.len() - n < len {
                    Err(DecodeError::Truncated)
                } else {
                    Ok((WireModel::LengthDelimited(s.subrange(n as int, (n + len) as int)), n + len))
                }
            },
            Err(e) => Err(e),
        }
    } else if wt == 5 {
        if s.len() < 4 {
            Err(DecodeError::Truncated)
        } else {
            Ok((WireModel::Fixed32(le_value(s.take(4)) as u32), 4))
        }
    } else {
        Err(DecodeError::UnsupportedWireType)
    }
}

/// A tag written for a valid field reads back as that field's number and type.
pub proof fn lemma_tag_roundtrip(number: nat, wt: nat, rest: Seq<u8>)
    requires
        1 <= number <= max_field_number(),
        wt <= 5,
    ensures
        spec_read_tag(tag_bytes(number, wt) + rest) == Ok::<(u32, nat, nat), DecodeError>(
            (number as u32, wt, tag_bytes(number, wt).len()),
        ),
{
    reveal(spec_read_tag);
    lemma_pow_facts();
    let v = number * 8 + wt;
    lemma_varint_roundtrip(v, rest);
    assert(v / 8 == number);
    assert(v % 8 == wt);
}

/// A payload written for a valid field reads back whole, whatever follows it.
pub proof fn lemma_payload_roundtrip(w: WireModel, rest: Seq<u8>)
    requires
        field_wf((1, w)),
    ensures
        spec_read_payload(payload_bytes(w) + rest, wire_type(w)) == Ok::<(WireModel, nat), DecodeError>(
            (w, payload_bytes(w).len()),
        ),
{
    reveal(spec_read_payload);
    lemma_pow_facts();
    let s = payload_bytes(w) + rest;
    match w {
        WireModel::Varint(v) => {
            lemma_varint_roundtrip(v as nat, rest);
        },
        WireModel::Fixed64(v) => {
            lemma_le_roundtrip(v as nat, 8);
            assert(s.take(8) =~= le_bytes(v as nat, 8));
        },
        WireModel::LengthDelimited(b) => {
            lemma_varint_roundtrip(b.len(), b + rest);
            assert(s =~= varint_bytes(b.len()) + (b + rest));
            let n = varint_bytes(b.len()).len();
            assert(s.subrange(n as int, (n + b.len()) as int) =~= b);
        },
        WireModel::Fixed32(v) => {
            lemma_le_roundtrip(v as nat, 4);
            assert(s.take(4) =~= le_bytes(v as nat, 4));
        },
    }
}

/// A valid field reads back, tag then payload, whatever follows it, and the
/// reading stops exactly at its end.
pub proof fn lemma_field_roundtrip(f: (u32, WireModel), rest: Seq<u8>)
    requires
        field_wf(f),
    ensures
        ({
            let s = field_bytes(f) + rest;
            let tn = tag_bytes(f.0 as nat, wire_type(f.1)).len();
            &&& spec_read_tag(s) == Ok::<(u32, nat, nat), DecodeError>((f.0, wire_type(f.1), tn))
            &&& spec_read_payload(s.skip(tn as int), wire_type(f.1)) == Ok::<(WireModel, nat), DecodeError>(
                (f.1, payload_bytes(f.1).len()),
            )
            &&& tn >= 1
            &&& field_bytes(f).len() == tn + payload_bytes(f.1).len()
            &&& s.skip(field_bytes(f).len() as int) == rest
        }),
{
    let s = field_bytes(f) + rest;
    let tb = tag_bytes(f.0 as nat, wire_type(f.1));
    lemma_varint_bytes_shape(f.0 as nat * 8 + wire_type(f.1));
    assert(s =~= tb + (payload_bytes(f.1) + rest));
    lemma_tag_roundtrip(f.0 as nat, wire_type(f.1), payload_bytes(f.1) + rest);
    assert(s.skip(tb.len() as int) =~= payload_bytes(f.1) + rest);
    match f.1 {
        WireModel::LengthDelimited(b) => {},
        _ => {},
    }
    lemma_payload_roundtrip(f.1, rest);
    assert(s.skip(field_bytes(f).len() as int) =~= rest);
}

/// The encoding of a non-empty run of fields starts with its first field.
pub proof fn lemma_fields_bytes_cons(fs: Seq<(u32, WireModel)>)
    requires
        fs.len() > 0,
    ensures
        fields_bytes(fs) == field_bytes(fs[0]) + fields_bytes(fs.drop_first()),
        fields_bytes(fs).len() > 0,
{
    lemma_varint_bytes_shape(fs[0].0 as nat * 8 + wire_type(fs[0].1));
}

/// The encoding of two runs of fields is the concatenation of their encodings.
pub proof fn lemma_fields_bytes_append(a: Seq<(u32, WireModel)>, b: Seq<(u32, WireModel)>)
    ensures
        fields_bytes(a + b) == fields_bytes(a) + fields_bytes(b),
    decreases a.len(),
{
    if a.len() == 0 {
        assert(a + b =~= b);
        assert(fields_bytes(a) + fields_bytes(b) =~= fields_bytes(b));
    } else {
        assert((a + b).drop_first() =~= a.drop_first() + b);
        assert((a + b)[0] == a[0]);
        lemma_fields_bytes_append(a.drop_first(), b);
        assert(fields_bytes(a + b) =~= fields_bytes(a) + fields_bytes(b));
    }
}

/// The encoding of a run of fields with one more field at its end.
pub proof fn lemma_fields_bytes_push(fs: Seq<(u32, WireModel)>, f: (u32, WireModel))
    ensures
        fields_bytes(fs.push(f)) == fields_bytes(fs) + field_bytes(f),
{
    lemma_fields_bytes_append(fs, seq![f]);
    assert(fs + seq![f] =~= fs.push(f));
    lemma_fields_bytes_single(f);
}

/// The encoding of a single field.
pub proof fn lemma_fields_bytes_single(f: (u32, WireModel))
    ensures
        fields_bytes(seq![f]) == field_bytes(f),
{
    let fs = seq![f];
    assert(fs.drop_first() =~= Seq::<(u32, WireModel)>::empty());
    assert(fields_bytes(Seq::<(u32, WireModel)>::empty()) =~= Seq::<u8>::empty());
    assert(fs[0] == f);
    assert(fields_bytes(fs) =~= field_bytes(f));
}

/// `le_bytes` gives exactly the number of bytes asked for.
pub proof fn lemma_le_bytes_len(v: nat, n: nat)
    ensures
        le_bytes(v, n).len() == n,
    decreases n,
{
    if n > 0 {
        lemma_le_bytes_len(v / 256, (n - 1) as nat);
    }
}

/// The number of bytes of the encoding of one field.
pub fn field_len(f: &UnknownField) -> (r: usize)
    requires
        field_bytes(f@).len() <= usize::MAX,
    ensures
        r as nat == field_bytes(f@).len(),
{
    let t = varint_len(f.number as u64 * 8 + wire_type_of(&f.value) as u64);
    proof {
        lemma_le_bytes_len(0, 0);
    }
    match &f.value {
        WireValue::Varint(v) => t + varint_len(*v),
        WireValue::Fixed64(v) => {
            proof {
                lemma_le_bytes_len(*v as nat, 8);
            }
            t + 8
        },
        WireValue::LengthDelimited(b) => t + varint_len(b.len() as u64) + b.len(),
        WireValue::Fixed32(v) => {
            proof {
                lemma_le_bytes_len(*v as nat, 4);
            }
            t + 4
        },
    }
}

/// The number of bytes of the varint encoding of `v`.
pub fn varint_len(v: u64) -> (r: usize)
    ensures
        r as nat == varint_bytes(v as nat).len(),
        1 <= r <= 10,
{
    proof {
        lemma_pow_facts();
        lemma_varint_bytes_len(v as nat, 10);
    }
    let mut x: u64 = v;
    let mut n: usize = 1;
    while x >= 128
        invariant
            n + varint_bytes(x as nat).len() == 1 + varint_bytes(v as nat).len(),
            varint_bytes(v as nat).len() <= 10,
            n >= 1,
        decreases x,
    {
        x = x / 128;
        n = n + 1;
    }
    n
}

/// Appends the bytes of a tag.
pub fn write_tag(out: &mut Vec<u8>, number: u32, wt: u8)
    requires
        wt <= 7,
    ensures
        final(out)@ == old(out)@ + tag_bytes(number as nat, wt as nat),
{
    write_varint(out, (number as u64) * 8 + wt as u64);
}

/// Appends the bytes of a payload.
pub fn write_payload(out: &mut Vec<u8>, w: &WireValue)
    ensures
        final(out)@ == old(out)@ + payload_bytes(w@),
{
    match w {
        WireValue::Varint(v) => write_varint(out, *v),
        WireValue::Fixed64(v) => write_le(out, *v, 8),
        WireValue::LengthDelimited(b) => write_bytes(out, b.as_slice()),
        WireValue::Fixed32(v) => write_le(out, *v as u64, 4),
    }
}

/// Appends a length-delimited payload: the length as a varint, then the bytes.
pub fn write_bytes(out: &mut Vec<u8>, b: &[u8])
    ensures
        final(out)@ == old(out)@ + varint_bytes(b@.len()) + b@,
{
    write_varint(out, b.len() as u64);
    let ghost mid = out@;
    let mut i: usize = 0;
    while i < b.len()
        invariant
            i <= b@.len(),
            out@ == mid + b@.take(i as int),
        decreases b.len() - i,
    {
        out.push(b[i]);
        assert(b@.take(i + 1) =~= b@.take(i as int).push(b[i as int]));
        i = i + 1;
    }
    assert(b@.take(b@.len() as int) =~= b@);
    assert(mid + b@ =~= old(out)@ + varint_bytes(b@.len()) + b@);
}

/// The wire type number of a payload.
pub fn wire_type_of(w: &WireValue) -> (r: u8)
    ensures
        r as nat == wire_type(w@),
{
    match w {
        WireValue::Varint(_) => 0,
        WireValue::Fixed64(_) => 1,
        WireValue::LengthDelimited(_) => 2,
        WireValue::Fixed32(_) => 5,
    }
}

/// Appends the bytes of a field.
pub fn write_field(out: &mut Vec<u8>, f: &UnknownField)
    ensures
        final(out)@ == old(out)@ + field_bytes(f@),
{
    let wt = wire_type_of(&f.value);
    write_tag(out, f.number, wt);
    write_payload(out, &f.value);
    assert(final(out)@ =~= old(out)@ + field_bytes(f@));
}

/// Reads a tag at `pos`: field number, wire type and the tag's length.
pub fn read_tag(buf: &[u8], pos: usize) -> (r: Result<(u32, u8, usize), DecodeError>)
    requires
        pos <= buf@.len(),
    ensures
        match spec_read_tag(buf@.skip(pos as int)) {
            Ok((num, wt, n)) => r == Ok::<(u32, u8, usize), DecodeError>((num, wt as u8, n as usize))
                && 1 <= n && pos + n <= buf@.len() && wt <= 5 && 1 <= num <= max_field_number(),
            Err(e) => r == Err::<(u32, u8, usize), DecodeError>(e),
        },
{
    proof {
        lemma_pow_facts();
        reveal(spec_read_tag);
    }
    match read_varint32(buf, pos) {
        Ok((v, n)) => {
            if v / 8 == 0 || v % 8 > 5 {
                Err(DecodeError::IncorrectTag)
            } else {
                Ok((v / 8, (v % 8) as u8, n))
            }
        },
        Err(e) => Err(e),
    }
}

/// Reads the payload of wire type `wt` at `pos`: the payload and its length.
pub fn read_payload(buf: &[u8], pos: usize, wt: u8) -> (r: Result<(WireValue, usize), DecodeError>)
    requires
        pos <= buf@.len(),
    ensures
        match spec_read_payload(buf@.skip(pos as int), wt as nat) {
            Ok((w, n)) => r matches Ok((v, m)) && v@ == w && m == n && pos + n <= buf@.len(),
            Err(e) => r == Err::<(WireValue, usize), DecodeError>(e),
        },
{
    let ghost s = buf@.skip(pos as int);
    let len = buf.len();
    assert(s.len() == len - pos);
    proof {
        lemma_pow_facts();
        reveal(spec_read_payload);
    }
    if wt == 0 {
        match read_varint64(buf, pos) {
            Ok((v, n)) => {
                Ok((WireValue::Varint(v), n))
            },
            Err(e) => Err(e),
        }
    } else if wt == 1 {
        if len - pos < 8 {
            Err(DecodeError::Truncated)
        } else {
            let v = read_le(buf, pos, 8);
            assert(buf@.subrange(pos as int, pos + 8) =~= s.take(8));
            Ok((WireValue::Fixed64(v), 8))
        }
    } else if wt == 2 {
        match read_varint32(buf, pos) {
            Ok((l, n)) => {
                if (len - pos - n) < l as usize {
                    Err(DecodeError::Truncated)
                } else {
                    let start = pos + n;
                    let mut b: Vec<u8> = Vec::new();
                    let mut i: usize = 0;
                    while i < l as usize
                        invariant
                            len == buf@.len(),
                            start + l <= len,
                            i <= l,
                            b@ == buf@.subrange(start as int, start + i),
                        decreases l - i,
                    {
                        b.push(buf[start + i]);
                        assert(buf@.subrange(start as int, start + i + 1) =~= buf@.subrange(
                            start as int,
                            start + i,
                        ).push(buf[start + i]));
                        i = i + 1;
                    }
                    assert(buf@.subrange(start as int, start + l) =~= s.subrange(
                        n as int,
                        n + l,
                    ));
                    Ok((WireValue::LengthDelimited(b), n + l as usize))
                }
            },
            Err(e) => Err(e),
        }
    } else if wt == 5 {
        if len - pos < 4 {
            Err(DecodeError::Truncated)
        } else {
            let v = read_le(buf, pos, 4);
            proof {
                lemma_le_value_bound(buf@.subrange(pos as int, pos + 4));
                reveal_with_fuel(pow256, 5);
            }
            assert(buf@.subrange(pos as int, pos + 4) =~= s.take(4));
            Ok((WireValue::Fixed32(v as u32), 4))
        }
    } else {
        Err(DecodeError::UnsupportedWireType)
    }
}

// ---------------------------------------------------------------- messages

/// Decoding the first field of `s` into the message `c`, where `ok` says which
/// wire types the message's known fields accept and `apply` what a field does
/// to the message: the updated message and the field's length.
pub open spec fn message_step<M>(
    apply: spec_fn(M, u32, WireModel) -> Result<M, DecodeError>,
    ok: spec_fn(u32, nat) -> bool,
    c: M,
    s: Seq<u8>,
) -> Result<(M, nat), DecodeError> {
    match spec_read_tag(s) {
        Err(e) => Err(e),
        Ok((number, wt, n)) => {
            if !ok(number, wt) {
                Err(DecodeError::UnexpectedWireType)
            } else {
                match spec_read_payload(s.skip(n as int), wt) {
                    Err(e) => Err(e),
                    Ok((w, m)) => match apply(c, number, w) {
                        Ok(c2) => Ok((c2, n + m)),
                        Err(e) => Err(e),
                    },
                }
            }
        },
    }
}

/// Merging every field of `s`, one after the other, into the message `c`.
pub open spec fn message_merge<M>(
    apply: spec_fn(M, u32, WireModel) -> Result<M, DecodeError>,
    ok: spec_fn(u32, nat) -> bool,
    c: M,
    s: Seq<u8>,
) -> Result<M, DecodeError>
    decreases s.len(),
{
    if s.len() == 0 {
        Ok(c)
    } else {
        match message_step(apply, ok, c, s) {
            Err(e) => Err(e),
            Ok((c2, k)) => if 0 < k <= s.len() {
                message_merge(apply, ok, c2, s.skip(k as int))
            } else {
                Err(DecodeError::Truncated)
            },
        }
    }
}

/// Applying decoded fields one after the other.
pub open spec fn message_fold<M>(
    apply: spec_fn(M, u32, WireModel) -> Result<M, DecodeError>,
    c: M,
    fs: Seq<(u32, WireModel)>,
) -> Result<M, DecodeError>
    decreases fs.len(),
{
    if fs.len() == 0 {
        Ok(c)
    } else {
        match apply(c, fs[0].0, fs[0].1) {
            Ok(c2) => message_fold(apply, c2, fs.drop_first()),
            Err(e) => Err(e),
        }
    }
}

/// Decoding the encoding of valid fields applies those fields.
pub proof fn lemma_message_merge_fields<M>(
    apply: spec_fn(M, u32, WireModel) -> Result<M, DecodeError>,
    ok: spec_fn(u32, nat) -> bool,
    c: M,
    fs: Seq<(u32, WireModel)>,
)
    requires
        forall|i: int|
            0 <= i < fs.len() ==> field_wf(#[trigger] fs[i]) && ok(fs[i].0, wire_type(fs[i].1)),
    ensures
        message_merge(apply, ok, c, fields_bytes(fs)) == message_fold(apply, c, fs),
    decreases fs.len(),
{
    if fs.len() > 0 {
        lemma_fields_bytes_cons(fs);
        assert(field_wf(fs[0]));
        lemma_field_roundtrip(fs[0], fields_bytes(fs.drop_first()));
        match apply(c, fs[0].0, fs[0].1) {
            Ok(c2) => {
                lemma_message_merge_fields(apply, ok, c2, fs.drop_first());
            },
            Err(e) => {},
        }
    }
}

/// Folding over two runs of fields is folding over the first, then the second.
pub proof fn lemma_message_fold_append<M>(
    apply: spec_fn(M, u32, WireModel) -> Result<M, DecodeError>,
    c: M,
    a: Seq<(u32, WireModel)>,
    b: Seq<(u32, WireModel)>,
)
    ensures
        message_fold(apply, c, a + b) == (match message_fold(apply, c, a) {
            Ok(c2) => message_fold(apply, c2, b),
            Err(e) => Err(e),
        }),
    decreases a.len(),
{
    if a.len() == 0 {
        assert(a + b =~= b);
    } else {
        assert((a + b)[0] == a[0]);
        assert((a + b).drop_first() =~= a.drop_first() + b);
        match apply(c, a[0].0, a[0].1) {
            Ok(c2) => lemma_message_fold_append(apply, c2, a.drop_first(), b),
            Err(e) => {},
        }
    }
}

/// Folding over a single field applies it.
pub proof fn lemma_message_fold_single<M>(
    apply: spec_fn(M, u32, WireModel) -> Result<M, DecodeError>,
    c: M,
    f: (u32, WireModel),
)
    ensures
        message_fold(apply, c, seq![f]) == apply(c, f.0, f.1),
{
    assert(seq![f].drop_first() =~= Seq::<(u32, WireModel)>::empty());
    assert(seq![f][0] == f);
    match apply(c, f.0, f.1) {
        Ok(c2) => {
            assert(message_fold(apply, c2, Seq::<(u32, WireModel)>::empty()) == Ok::<M, DecodeError>(c2));
        },
        Err(e) => {},
    }
}

/// Appends a field holding a 64-bit varint.
pub fn write_varint_field(out: &mut Vec<u8>, number: u32, v: u64)
    ensures
        final(out)@ == old(out)@ + fields_bytes(seq![(number, WireModel::Varint(v))]),
{
    proof {
        lemma_fields_bytes_single((number, WireModel::Varint(v)));
    }
    write_tag(out, number, 0);
    write_varint(out, v);
    assert(final(out)@ =~= old(out)@ + fields_bytes(seq![(number, WireModel::Varint(v))]));
}

/// Appends a length-delimited field.
pub fn write_delimited_field(out: &mut Vec<u8>, number: u32, b: &[u8])
    ensures
        final(out)@ == old(out)@ + fields_bytes(seq![(number, WireModel::LengthDelimited(b@))]),
{
    proof {
        lemma_fields_bytes_single((number, WireModel::LengthDelimited(b@)));
    }
    write_tag(out, number, 2);
    write_bytes(out, b);
    assert(final(out)@ =~= old(out)@ + fields_bytes(seq![(number, WireModel::LengthDelimited(b@))]));
}

// ---------------------------------------------------------------- framing

/// Reading a length-delimited frame: where its body starts and how long it is.
/// The length is a 64-bit varint, and the body must be all there.
pub open spec fn spec_read_frame(s: Seq<u8>) -> Result<(nat, nat), DecodeError> {
    match spec_read_varint64(s) {
        Ok((l, n)) => if s.len() - n < l {
            Err(DecodeError::Truncated)
        } else {
            Ok((n, l))
        },
        Err(e) => Err(e),
    }
}

/// The frame of `body`: its length as a varint, then the body.
pub open spec fn frame_bytes(body: Seq<u8>) -> Seq<u8> {
    varint_bytes(body.len()) + body
}

/// A frame reads back as its own body, whatever follows it.
pub proof fn lemma_frame_roundtrip(body: Seq<u8>, rest: Seq<u8>)
    requires
        body.len() < pow256(8),
    ensures
        ({
            let s = frame_bytes(body) + rest;
            let n = varint_bytes(body.len()).len();
            &&& spec_read_frame(s) == Ok::<(nat, nat), DecodeError>((n, body.len()))
            &&& s.subrange(n as int, (n + body.len()) as int) == body
            &&& frame_bytes(body).len() == n + body.len()
        }),
{
    let s = frame_bytes(body) + rest;
    assert(s =~= varint_bytes(body.len()) + (body + rest));
    lemma_varint_roundtrip(body.len(), body + rest);
    let n = varint_bytes(body.len()).len();
    assert(s.subrange(n as int, (n + body.len()) as int) =~= body);
}

/// Reads the frame at the start of `buf`: where its body starts and its length.
pub fn read_frame(buf: &[u8]) -> (r: Result<(usize, usize), DecodeError>)
    ensures
        match spec_read_frame(buf@) {
            Ok((n, l)) => r == Ok::<(usize, usize), DecodeError>((n as usize, l as usize)) && n + l
                <= buf@.len(),
            Err(e) => r == Err::<(usize, usize), DecodeError>(e),
        },
{
    assert(buf@.skip(0) =~= buf@);
    proof {
        lemma_pow_facts();
    }
    match read_varint64(buf, 0) {
        Ok((l, n)) => {
            if ((buf.len() - n) as u64) < l {
                Err(DecodeError::Truncated)
            } else {
                Ok((n, l as usize))
            }
        },
        Err(e) => Err(e),
    }
}

/// Copies `buf[start..start + len]` into a new vector.
pub fn slice_copy(buf: &[u8], start: usize, len: usize) -> (r: Vec<u8>)
    requires
        start + len <= buf@.len(),
    ensures
        r@ == buf@.subrange(start as int, start + len),
{
    let mut out: Vec<u8> = Vec::new();
    let mut i: usize = 0;
    let total = buf.len();
    while i < len
        invariant
            total == buf@.len(),
            start + len <= total,
            i <= len,
            out@ == buf@.subrange(start as int, start + i),
        decreases len - i,
    {
        out.push(buf[start + i]);
        assert(buf@.subrange(start as int, start + i + 1) =~= buf@.subrange(start as int, start + i).push(
            buf[start + i],
        ));
        i = i + 1;
    }
    out
}

} // verus!
