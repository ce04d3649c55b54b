//! The clipboard messages: `Content` (one format of the clipboard) and
//! `Change` (a timestamped set of contents), with their wire encoding.
//!
//! ```text
//! message Content { required string format = 1; required bytes data = 2; }
//! message Change  { optional uint64 at = 1; repeated Content content = 2; }
//! ```

use vstd::prelude::*;
use vstd::utf8::*;

use crate::protocol::wire::{
    DecodeError, UnknownField, WireModel, WireValue, field_bytes, field_wf, fields_bytes,
    fields_view, lemma_field_roundtrip, lemma_fields_bytes_append, lemma_fields_bytes_cons, pow256,
    read_payload, read_tag, spec_read_payload, spec_read_tag, tag_bytes, wire_type, write_bytes,
    write_field, write_tag, max_field_number, payload_bytes, lemma_fields_bytes_push, lemma_fields_bytes_single, varint_len, field_len,
    varint_bytes, write_varint, frame_bytes, lemma_frame_roundtrip, read_frame, slice_copy,
    spec_read_frame,
};

verus! {

broadcast use {encode_utf8_valid_utf8, encode_utf8_decode_utf8};

/// What `String::from_utf8` returns for `bytes`: the string they encode, when
/// they are valid UTF-8.
#[verifier::external_body]
pub(crate) fn string_from_utf8(bytes: Vec<u8>) -> (r: Option<String>)
    ensures
        r is Some <==> valid_utf8(bytes@),
        r matches Some(s) ==> s@ == decode_utf8(bytes@),
{
    String::from_utf8(bytes).ok()
}

/// The mathematical content of a [`Content`] message.
pub struct ContentModel {
    pub format: Option<Seq<char>>,
    pub data: Option<Seq<u8>>,
    pub unknown: Seq<(u32, WireModel)>,
}

/// One format of the clipboard: its MIME type and the data in that format.
#[derive(Clone, Debug, PartialEq, Eq)]
pub struct Content {
    format: Option<String>,
    data: Option<Vec<u8>>,
    unknown_fields: Vec<UnknownField>,
}

impl View for Content {
    type V = ContentModel;

    closed spec fn view(&self) -> ContentModel {
        ContentModel {
            format: match self.format {
                Some(s) => Some(s@),
                None => None,
            },
            data: match self.data {
                Some(d) => Some(d@),
                None => None,
            },
            unknown: fields_view(self.unknown_fields@),
        }
    }
}

/// The message with no field set.
pub open spec fn empty_content() -> ContentModel {
    ContentModel { format: None, data: None, unknown: Seq::empty() }
}

/// The fields a `Content` is written as, in order.
pub open spec fn content_fields(c: ContentModel) -> Seq<(u32, WireModel)> {
    let f: Seq<(u32, WireModel)> = match c.format {
        Some(s) => seq![(1u32, WireModel::LengthDelimited(encode_utf8(s)))],
        None => Seq::empty(),
    };
    let d: Seq<(u32, WireModel)> = match c.data {
        Some(b) => seq![(2u32, WireModel::LengthDelimited(b))],
        None => Seq::empty(),
    };
    f + d + c.unknown
}

/// The encoding of a `Content`.
pub open spec fn content_bytes(c: ContentModel) -> Seq<u8> {
    fields_bytes(content_fields(c))
}

/// A `Content` that encodes and decodes back to itself: its known fields fit
/// their length prefix, and its unknown fields are valid and do not reuse the
/// known field numbers.
pub open spec fn content_wf(c: ContentModel) -> bool {
    &&& (c.format matches Some(s) ==> encode_utf8(s).len() < pow256(4))
    &&& (c.data matches Some(b) ==> b.len() < pow256(4))
    &&& forall|i: int|
        0 <= i < c.unknown.len() ==> field_wf(#[trigger] c.unknown[i]) && c.unknown[i].0 != 1
            && c.unknown[i].0 != 2
}

/// What one decoded field does to a `Content`.
pub open spec fn content_apply(c: ContentModel, number: u32, w: WireModel) -> Result<
    ContentModel,
    DecodeError,
> {
    if number == 1 {
        match w {
            WireModel::LengthDelimited(b) => {
                if valid_utf8(b) {
                    Ok(ContentModel { format: Some(decode_utf8(b)), ..c })
                } else {
                    Err(DecodeError::InvalidUtf8)
                }
            },
            _ => Err(DecodeError::UnexpectedWireType),
        }
    } else if number == 2 {
        match w {
            WireModel::LengthDelimited(b) => Ok(ContentModel { data: Some(b), ..c }),
            _ => Err(DecodeError::UnexpectedWireType),
        }
    } else {
        Ok(ContentModel { unknown: c.unknown.push((number, w)), ..c })
    }
}

/// The wire type a known field of `Content` must arrive with.
pub open spec fn content_wire_ok(number: u32, wt: nat) -> bool {
    (number == 1 || number == 2) ==> wt == 2
}

/// Decoding the first field of `s` into `c`: the updated message and the
/// field's length.
pub open spec fn content_step(c: ContentModel, s: Seq<u8>) -> Result<(ContentModel, nat), DecodeError> {
    match spec_read_tag(s) {
        Err(e) => Err(e),
        Ok((number, wt, n)) => {
            if !content_wire_ok(number, wt) {
                Err(DecodeError::UnexpectedWireType)
            } else {
                match spec_read_payload(s.skip(n as int), wt) {
                    Err(e) => Err(e),
                    Ok((w, m)) => match content_apply(c, number, w) {
                        Ok(c2) => Ok((c2, n + m)),
                        Err(e) => Err(e),
                    },
                }
            }
        },
    }
}

/// Merging the fields of `s`, one after the other, into `c`.
pub open spec fn content_merge(c: ContentModel, s: Seq<u8>) -> Result<ContentModel, DecodeError>
    decreases s.len(),
{
    if s.len() == 0 {
        Ok(c)
    } else {
        match content_step(c, s) {
            Err(e) => Err(e),
            Ok((c2, k)) => if 0 < k <= s.len() {
                content_merge(c2, s.skip(k as int))
            } else {
                Err(DecodeError::Truncated)
            },
        }
    }
}

/// What merging `d`, decoded on its own, into `c` gives: each field that `d`
/// sets replaces that of `c`, and unknown fields are appended.
pub open spec fn content_join(c: ContentModel, d: ContentModel) -> ContentModel {
    ContentModel {
        format: if d.format is Some { d.format } else { c.format },
        data: if d.data is Some { d.data } else { c.data },
        unknown: c.unknown + d.unknown,
    }
}

/// Merging bytes into any message is joining that message with what the
/// bytes decode to on their own; the errors do not depend on the message.
pub proof fn lemma_content_merge_join(c: ContentModel, d: ContentModel, s: Seq<u8>)
    ensures
        content_merge(content_join(c, d), s) == match content_merge(d, s) {
            Ok(x) => Ok::<ContentModel, DecodeError>(content_join(c, x)),
            Err(e) => Err(e),
        },
    decreases s.len(),
{
    if s.len() > 0 {
        match spec_read_tag(s) {
            Err(e) => {},
            Ok((number, wt, n)) => {
                if content_wire_ok(number, wt) {
                    match spec_read_payload(s.skip(n as int), wt) {
                        Err(e) => {},
                        Ok((w, m)) => {
                            match content_apply(d, number, w) {
                                Ok(d2) => {
                                    if number != 1 && number != 2 {
                                        assert((c.unknown + d.unknown).push((number, w))
                                            =~= c.unknown + d.unknown.push((number, w)));
                                    }
                                    assert(content_apply(content_join(c, d), number, w)
                                        == Ok::<ContentModel, DecodeError>(content_join(c, d2)));
                                    if 0 < n + m <= s.len() {
                                        lemma_content_merge_join(c, d2, s.skip((n + m) as int));
                                    }
                                },
                                Err(e) => {},
                            }
                        },
                    }
                }
            },
        }
    }
}

/// Joining with the empty message changes nothing.
pub proof fn lemma_content_join_empty(c: ContentModel)
    ensures
        content_join(c, empty_content()) == c,
{
    assert(c.unknown + Seq::<(u32, WireModel)>::empty() =~= c.unknown);
}

/// Whether both required fields are present.
pub open spec fn content_initialized(c: ContentModel) -> bool {
    c.format is Some && c.data is Some
}

/// Parsing a whole `Content` from bytes: every field merged into the empty
/// message, which must then hold both required fields.
pub open spec fn spec_parse_content(s: Seq<u8>) -> Result<ContentModel, DecodeError> {
    match content_merge(empty_content(), s) {
        Ok(c) => if content_initialized(c) {
            Ok(c)
        } else {
            Err(DecodeError::MissingRequiredField)
        },
        Err(e) => Err(e),
    }
}

/// Applying decoded fields one after the other.
pub open spec fn content_fold(c: ContentModel, fs: Seq<(u32, WireModel)>) -> Result<
    ContentModel,
    DecodeError,
>
    decreases fs.len(),
{
    if fs.len() == 0 {
        Ok(c)
    } else {
        match content_apply(c, fs[0].0, fs[0].1) {
            Ok(c2) => content_fold(c2, fs.drop_first()),
            Err(e) => Err(e),
        }
    }
}

/// Decoding the encoding of valid fields applies those fields.
pub proof fn lemma_content_merge_fields(c: ContentModel, fs: Seq<(u32, WireModel)>)
    requires
        forall|i: int|
            0 <= i < fs.len() ==> field_wf(#[trigger] fs[i]) && content_wire_ok(
                fs[i].0,
                wire_type(fs[i].1),
            ),
    ensures
        content_merge(c, fields_bytes(fs)) == content_fold(c, fs),
    decreases fs.len(),
{
    if fs.len() > 0 {
        let s = fields_bytes(fs);
        lemma_fields_bytes_cons(fs);
        assert(field_wf(fs[0]));
        lemma_field_roundtrip(fs[0], fields_bytes(fs.drop_first()));
        match content_apply(c, fs[0].0, fs[0].1) {
            Ok(c2) => {
                lemma_content_merge_fields(c2, fs.drop_first());
            },
            Err(e) => {},
        }
    }
}

proof fn lemma_content_fold_unknown(c: ContentModel, us: Seq<(u32, WireModel)>)
    requires
        forall|i: int| 0 <= i < us.len() ==> (#[trigger] us[i]).0 != 1 && us[i].0 != 2,
    ensures
        content_fold(c, us) == Ok::<ContentModel, DecodeError>(
            ContentModel { unknown: c.unknown + us, ..c },
        ),
    decreases us.len(),
{
    if us.len() == 0 {
        assert(c.unknown + us =~= c.unknown);
    } else {
        let c2 = ContentModel { unknown: c.unknown.push(us[0]), ..c };
        lemma_content_fold_unknown(c2, us.drop_first());
        assert(c2.unknown + us.drop_first() =~= c.unknown + us);
    }
}

/// Decoding the encoding of a valid `Content` gives it back.
pub proof fn lemma_content_roundtrip(c: ContentModel)
    requires
        content_wf(c),
    ensures
        content_merge(empty_content(), content_bytes(c)) == Ok::<ContentModel, DecodeError>(c),
{
    let fs = content_fields(c);
    assert forall|i: int|
        0 <= i < fs.len() implies field_wf(#[trigger] fs[i]) && content_wire_ok(
            fs[i].0,
            wire_type(fs[i].1),
        ) by {
        let nf: int = if c.format is Some { 1 } else { 0 };
        let nd: int = if c.data is Some { 1 } else { 0 };
        if i >= nf + nd {
            assert(fs[i] == c.unknown[i - nf - nd]);
        }
    }
    lemma_content_merge_fields(empty_content(), fs);
    let e = empty_content();
    let c1 = match c.format {
        Some(s) => ContentModel { format: Some(s), ..e },
        None => e,
    };
    let c2 = match c.data {
        Some(b) => ContentModel { data: Some(b), ..c1 },
        None => c1,
    };
    lemma_content_fold_unknown(c2, c.unknown);
    let f: Seq<(u32, WireModel)> = match c.format {
        Some(s) => seq![(1u32, WireModel::LengthDelimited(encode_utf8(s)))],
        None => Seq::empty(),
    };
    let d: Seq<(u32, WireModel)> = match c.data {
        Some(b) => seq![(2u32, WireModel::LengthDelimited(b))],
        None => Seq::empty(),
    };
    assert(fs == f + d + c.unknown);
    let du = d + c.unknown;
    if c.format is Some {
        let s = c.format->0;
        assert((f + du) =~= fs);
        assert(fs.drop_first() =~= du);
        assert(valid_utf8(encode_utf8(s)));
        assert(decode_utf8(encode_utf8(s)) == s);
        assert(content_apply(e, fs[0].0, fs[0].1) == Ok::<ContentModel, DecodeError>(c1));
        assert(content_fold(e, fs) == content_fold(c1, du));
    } else {
        assert(fs =~= du);
    }
    assert(content_fold(e, fs) == content_fold(c1, du));
    if c.data is Some {
        assert(du.drop_first() =~= c.unknown);
        assert(content_apply(c1, du[0].0, du[0].1) == Ok::<ContentModel, DecodeError>(c2));
    } else {
        assert(du =~= c.unknown);
    }
    assert(content_fold(c1, du) == content_fold(c2, c.unknown));
    assert(c2.unknown + c.unknown =~= c.unknown);
    assert(Seq::<(u32, WireModel)>::empty() + c.unknown =~= c.unknown);
}

impl Content {
    /// The message with no field set.
    pub fn new() -> (r: Content)
        ensures
            r@ == empty_content(),
    {
        let r = Content { format: None, data: None, unknown_fields: Vec::new() };
        assert(r@.unknown =~= Seq::<(u32, WireModel)>::empty());
        r
    }

    /// Unsets the format.
    pub fn clear_format(&mut self)
        ensures
            final(self)@ == (ContentModel { format: None, ..old(self)@ }),
    {
        self.format = None;
    }

    /// Whether the format is set.
    pub fn has_format(&self) -> (r: bool)
        ensures
            r == self@.format is Some,
    {
        self.format.is_some()
    }

    /// Sets the format.
    pub fn set_format(&mut self, v: String)
        ensures
            final(self)@ == (ContentModel { format: Some(v@), ..old(self)@ }),
    {
        self.format = Some(v);
    }

    /// The format, for changing in place; an unset format is first set to the
    /// empty string.
    pub fn mut_format(&mut self) -> (r: &mut String)
        ensures
            r@ == (match old(self)@.format {
                Some(f) => f,
                None => Seq::empty(),
            }),
            final(self)@ == (ContentModel { format: Some(final(r)@), ..old(self)@ }),
    {
        if self.format.is_none() {
            self.format = Some(String::new());
        }
        match &mut self.format {
            Some(f) => f,
            None => vstd::pervasive::unreached(),
        }
    }

    /// Takes the format out, leaving it unset; an unset format gives the empty
    /// string.
    pub fn take_format(&mut self) -> (r: String)
        ensures
            r@ == (match old(self)@.format {
                Some(f) => f,
                None => Seq::empty(),
            }),
            final(self)@ == (ContentModel { format: None, ..old(self)@ }),
    {
        match self.format.take() {
            Some(f) => f,
            None => String::new(),
        }
    }

    /// The format; the empty string when unset.
    pub fn get_format(&self) -> (r: &str)
        ensures
            r@ == (match self@.format {
                Some(f) => f,
                None => Seq::empty(),
            }),
    {
        match &self.format {
            Some(f) => f.as_str(),
            None => {
                proof {
                    reveal_strlit("");
                }
                ""
            },
        }
    }

    /// Unsets the data.
    pub fn clear_data(&mut self)
        ensures
            final(self)@ == (ContentModel { data: None, ..old(self)@ }),
    {
        self.data = None;
    }

    /// Whether the data is set.
    pub fn has_data(&self) -> (r: bool)
        ensures
            r == self@.data is Some,
    {
        self.data.is_some()
    }

    /// Sets the data.
    pub fn set_data(&mut self, v: Vec<u8>)
        ensures
            final(self)@ == (ContentModel { data: Some(v@), ..old(self)@ }),
    {
        self.data = Some(v);
    }

    /// The data, for changing in place; unset data is first set to empty.
    pub fn mut_data(&mut self) -> (r: &mut Vec<u8>)
        ensures
            r@ == (match old(self)@.data {
                Some(d) => d,
                None => Seq::empty(),
            }),
            final(self)@ == (ContentModel { data: Some(final(r)@), ..old(self)@ }),
    {
        if self.data.is_none() {
            self.data = Some(Vec::new());
        }
        match &mut self.data {
            Some(d) => d,
            None => vstd::pervasive::unreached(),
        }
    }

    /// Takes the data out, leaving it unset; unset data gives an empty vector.
    pub fn take_data(&mut self) -> (r: Vec<u8>)
        ensures
            r@ == (match old(self)@.data {
                Some(d) => d,
                None => Seq::empty(),
            }),
            final(self)@ == (ContentModel { data: None, ..old(self)@ }),
    {
        match self.data.take() {
            Some(d) => d,
            None => Vec::new(),
        }
    }

    /// The data; empty when unset.
    pub fn get_data(&self) -> (r: &[u8])
        ensures
            r@ == (match self@.data {
                Some(d) => d,
                None => Seq::empty(),
            }),
    {
        match &self.data {
            Some(d) => d.as_slice(),
            None => {
                let e: &[u8] = &[];
                assert(e@ =~= Seq::<u8>::empty());
                e
            },
        }
    }

    /// Unsets every field, unknown ones included.
    pub fn clear(&mut self)
        ensures
            final(self)@ == empty_content(),
    {
        self.format = None;
        self.data = None;
        self.unknown_fields = Vec::new();
        assert(self@.unknown =~= Seq::<(u32, WireModel)>::empty());
    }

    /// Whether both required fields are set.
    pub fn is_initialized(&self) -> (r: bool)
        ensures
            r == content_initialized(self@),
    {
        self.format.is_some() && self.data.is_some()
    }
}

/// Appends every unknown field, in order.
pub fn write_unknown(out: &mut Vec<u8>, fs: &Vec<UnknownField>)
    ensures
        final(out)@ == old(out)@ + fields_bytes(fields_view(fs@)),
{
    let mut i: usize = 0;
    assert(fields_view(fs@).take(0) =~= Seq::<(u32, WireModel)>::empty());
    while i < fs.len()
        invariant
            i <= fs@.len(),
            out@ == old(out)@ + fields_bytes(fields_view(fs@).take(i as int)),
        decreases fs.len() - i,
    {
        write_field(out, &fs[i]);
        proof {
            lemma_fields_bytes_push(fields_view(fs@).take(i as int), fs@[i as int]@);
            assert(fields_view(fs@).take(i + 1) =~= fields_view(fs@).take(i as int).push(
                fs@[i as int]@,
            ));
        }
        i = i + 1;
    }
    assert(fields_view(fs@).take(fs@.len() as int) =~= fields_view(fs@));
}

/// The number of bytes of a length-delimited field holding `len` bytes.
pub(crate) fn delimited_field_len(number: u32, len: usize) -> (r: usize)
    requires
        tag_bytes(number as nat, 2).len() + varint_bytes(len as nat).len() + len <= usize::MAX,
    ensures
        r as nat == tag_bytes(number as nat, 2).len() + varint_bytes(len as nat).len() + len,
{
    varint_len(number as u64 * 8 + 2) + varint_len(len as u64) + len
}

/// The number of bytes of the encoding of a run of unknown fields.
pub(crate) fn unknown_len(fs: &Vec<UnknownField>) -> (r: usize)
    requires
        fields_bytes(fields_view(fs@)).len() <= usize::MAX,
    ensures
        r as nat == fields_bytes(fields_view(fs@)).len(),
{
    let ghost all = fields_view(fs@);
    let mut total: usize = 0;
    let mut i: usize = 0;
    assert(all.take(0) =~= Seq::<(u32, WireModel)>::empty());
    while i < fs.len()
        invariant
            all == fields_view(fs@),
            i <= fs@.len(),
            total as nat == fields_bytes(all.take(i as int)).len(),
            fields_bytes(all).len() <= usize::MAX,
        decreases fs.len() - i,
    {
        proof {
            lemma_fields_bytes_push(all.take(i as int), fs@[i as int]@);
            assert(all.take(i + 1) =~= all.take(i as int).push(fs@[i as int]@));
            lemma_fields_bytes_append(all.take(i + 1), all.skip(i + 1));
            assert(all.take(i + 1) + all.skip(i + 1) =~= all);
        }
        total = total + field_len(&fs[i]);
        i = i + 1;
    }
    assert(all.take(fs@.len() as int) =~= all);
    total
}

impl Content {
    /// The number of bytes of the encoding of this message.
    pub fn compute_size(&self) -> (r: usize)
        requires
            content_bytes(self@).len() <= usize::MAX,
        ensures
            r as nat == content_bytes(self@).len(),
    {
        let ghost c = self@;
        let ghost f: Seq<(u32, WireModel)> = match c.format {
            Some(s) => seq![(1u32, WireModel::LengthDelimited(encode_utf8(s)))],
            None => Seq::empty(),
        };
        let ghost d: Seq<(u32, WireModel)> = match c.data {
            Some(b) => seq![(2u32, WireModel::LengthDelimited(b))],
            None => Seq::empty(),
        };
        proof {
            lemma_fields_bytes_append(f + d, c.unknown);
            lemma_fields_bytes_append(f, d);
            if c.format is Some {
                lemma_fields_bytes_single(f[0]);
                assert(f =~= seq![f[0]]);
            }
            if c.data is Some {
                lemma_fields_bytes_single(d[0]);
                assert(d =~= seq![d[0]]);
            }
        }
        let a: usize = match &self.format {
            Some(s) => delimited_field_len(1, s.as_str().as_bytes().len()),
            None => 0,
        };
        let b: usize = match &self.data {
            Some(x) => delimited_field_len(2, x.len()),
            None => 0,
        };
        a + b + unknown_len(&self.unknown_fields)
    }

    /// Appends the encoding of this message.
    pub fn write_to(&self, out: &mut Vec<u8>)
        ensures
            final(out)@ == old(out)@ + content_bytes(self@),
    {
        let ghost c = self@;
        let ghost f: Seq<(u32, WireModel)> = match c.format {
            Some(s) => seq![(1u32, WireModel::LengthDelimited(encode_utf8(s)))],
            None => Seq::empty(),
        };
        let ghost d: Seq<(u32, WireModel)> = match c.data {
            Some(b) => seq![(2u32, WireModel::LengthDelimited(b))],
            None => Seq::empty(),
        };
        proof {
            lemma_fields_bytes_append(f + d, c.unknown);
            lemma_fields_bytes_append(f, d);
            if c.format is Some {
                lemma_fields_bytes_single(f[0]);
                assert(f =~= seq![f[0]]);
            }
            if c.data is Some {
                lemma_fields_bytes_single(d[0]);
                assert(d =~= seq![d[0]]);
            }
        }
        let ghost start = out@;
        match &self.format {
            Some(s) => {
                write_tag(out, 1, 2);
                write_bytes(out, s.as_str().as_bytes());
            },
            None => {},
        }
        assert(out@ =~= start + fields_bytes(f));
        let ghost mid = out@;
        match &self.data {
            Some(b) => {
                write_tag(out, 2, 2);
                write_bytes(out, b.as_slice());
            },
            None => {},
        }
        assert(out@ =~= mid + fields_bytes(d));
        write_unknown(out, &self.unknown_fields);
        assert(out@ =~= start + content_bytes(c));
    }

    /// The encoding of this message.
    pub fn write_to_bytes(&self) -> (r: Vec<u8>)
        ensures
            r@ == content_bytes(self@),
    {
        let mut out: Vec<u8> = Vec::new();
        self.write_to(&mut out);
        assert(out@ =~= content_bytes(self@));
        out
    }

    /// Decodes the fields of `buf` into the empty message, without asking for
    /// the required fields.
    pub fn merge_from(buf: &[u8]) -> (r: Result<Content, DecodeError>)
        ensures
            match content_merge(empty_content(), buf@) {
                Ok(m) => r matches Ok(c) && c@ == m,
                Err(e) => r == Err::<Content, DecodeError>(e),
            },
    {
        let mut c = Content::new();
        let mut pos: usize = 0;
        let len = buf.len();
        assert(buf@.skip(0) =~= buf@);
        while pos < len
            invariant
                len == buf@.len(),
                pos <= len,
                content_merge(empty_content(), buf@) == content_merge(c@, buf@.skip(pos as int)),
            decreases len - pos,
        {
            let ghost s = buf@.skip(pos as int);
            let (number, wt, n) = match read_tag(buf, pos) {
                Ok(t) => t,
                Err(e) => return Err(e),
            };
            if (number == 1 || number == 2) && wt != 2 {
                return Err(DecodeError::UnexpectedWireType);
            }
            assert(buf@.skip(pos + n) =~= s.skip(n as int));
            let (w, m) = match read_payload(buf, pos + n, wt) {
                Ok(p) => p,
                Err(e) => return Err(e),
            };
            let ghost cm = c@;
            if number == 1 {
                match w {
                    WireValue::LengthDelimited(b) => {
                        match string_from_utf8(b) {
                            Some(f) => {
                                c.format = Some(f);
                            },
                            None => return Err(DecodeError::InvalidUtf8),
                        }
                    },
                    _ => return Err(DecodeError::UnexpectedWireType),
                }
            } else if number == 2 {
                match w {
                    WireValue::LengthDelimited(b) => {
                        c.data = Some(b);
                    },
                    _ => return Err(DecodeError::UnexpectedWireType),
                }
            } else {
                let ghost wv = w@;
                c.unknown_fields.push(UnknownField { number, value: w });
                assert(c@.unknown =~= cm.unknown.push((number, wv)));
            }
            assert(buf@.skip(pos + n + m) =~= s.skip(n + m));
            pos = pos + n + m;
        }
        assert(buf@.skip(pos as int).len() == 0);
        Ok(c)
    }

    /// Decodes the fields of `buf` into this message: fields that `buf` sets
    /// replace those held, unknown fields are appended. On an error the
    /// message is left as it was.
    pub fn merge(&mut self, buf: &[u8]) -> (r: Result<(), DecodeError>)
        ensures
            match content_merge(old(self)@, buf@) {
                Ok(m) => r is Ok && final(self)@ == m,
                Err(e) => r == Err::<(), DecodeError>(e) && final(self)@ == old(self)@,
            },
    {
        proof {
            lemma_content_join_empty(self@);
            lemma_content_merge_join(self@, empty_content(), buf@);
        }
        match Content::merge_from(buf) {
            Ok(d) => {
                let ghost dv = d@;
                let Content { format, data, unknown_fields } = d;
                let mut unknown_fields = unknown_fields;
                let ghost old_unknown = self.unknown_fields@;
                let ghost du = unknown_fields@;
                if format.is_some() {
                    self.format = format;
                }
                if data.is_some() {
                    self.data = data;
                }
                self.unknown_fields.append(&mut unknown_fields);
                assert(fields_view(old_unknown + du) =~= fields_view(old_unknown) + fields_view(du));
                Ok(())
            },
            Err(e) => Err(e),
        }
    }

    /// Parses a whole message: every field of `buf`, then a check that both
    /// required fields are present.
    pub fn parse_from_bytes(buf: &[u8]) -> (r: Result<Content, DecodeError>)
        ensures
            match spec_parse_content(buf@) {
                Ok(m) => r matches Ok(c) && c@ == m,
                Err(e) => r == Err::<Content, DecodeError>(e),
            },
    {
        match Content::merge_from(buf) {
            Ok(c) => {
                if c.is_initialized() {
                    Ok(c)
                } else {
                    Err(DecodeError::MissingRequiredField)
                }
            },
            Err(e) => Err(e),
        }
    }
}

// ---------------------------------------------------------------- Change

/// The mathematical content of a [`Change`] message.
pub struct ChangeModel {
    pub at: Option<u64>,
    pub content: Seq<ContentModel>,
    pub unknown: Seq<(u32, WireModel)>,
}

/// The views of a sequence of contents.
pub open spec fn contents_view(cs: Seq<Content>) -> Seq<ContentModel> {
    cs.map_values(|c: Content| c@)
}

/// A change of the clipboard: when it happened and the clipboard in each of
/// its formats.
#[derive(Clone, Debug, PartialEq, Eq)]
pub struct Change {
    at: Option<u64>,
    content: Vec<Content>,
    unknown_fields: Vec<UnknownField>,
}

impl View for Change {
    type V = ChangeModel;

    closed spec fn view(&self) -> ChangeModel {
        ChangeModel {
            at: self.at,
            content: contents_view(self.content@),
            unknown: fields_view(self.unknown_fields@),
        }
    }
}

/// The message with no field set.
pub open spec fn empty_change() -> ChangeModel {
    ChangeModel { at: None, content: Seq::empty(), unknown: Seq::empty() }
}

/// The fields the contents of a `Change` are written as.
pub open spec fn contents_fields(ms: Seq<ContentModel>) -> Seq<(u32, WireModel)> {
    Seq::new(ms.len(), |i: int| (2u32, WireModel::LengthDelimited(content_bytes(ms[i]))))
}

/// The fields a `Change` is written as, in order.
pub open spec fn change_fields(c: ChangeModel) -> Seq<(u32, WireModel)> {
    let a: Seq<(u32, WireModel)> = match c.at {
        Some(v) => seq![(1u32, WireModel::Varint(v))],
        None => Seq::empty(),
    };
    a + contents_fields(c.content) + c.unknown
}

/// The encoding of a `Change`.
pub open spec fn change_bytes(c: ChangeModel) -> Seq<u8> {
    fields_bytes(change_fields(c))
}

/// A `Change` that encodes and decodes back to itself.
pub open spec fn change_wf(c: ChangeModel) -> bool {
    &&& forall|i: int|
        0 <= i < c.content.len() ==> content_wf(#[trigger] c.content[i]) && content_bytes(
            c.content[i],
        ).len() < pow256(4)
    &&& forall|i: int|
        0 <= i < c.unknown.len() ==> field_wf(#[trigger] c.unknown[i]) && c.unknown[i].0 != 1
            && c.unknown[i].0 != 2
}

/// What one decoded field does to a `Change`.
pub open spec fn change_apply(c: ChangeModel, number: u32, w: WireModel) -> Result<
    ChangeModel,
    DecodeError,
> {
    if number == 1 {
        match w {
            WireModel::Varint(v) => Ok(ChangeModel { at: Some(v), ..c }),
            _ => Err(DecodeError::UnexpectedWireType),
        }
    } else if number == 2 {
        match w {
            WireModel::LengthDelimited(b) => match content_merge(empty_content(), b) {
                Ok(m) => Ok(ChangeModel { content: c.content.push(m), ..c }),
                Err(e) => Err(e),
            },
            _ => Err(DecodeError::UnexpectedWireType),
        }
    } else {
        Ok(ChangeModel { unknown: c.unknown.push((number, w)), ..c })
    }
}

/// The wire type a known field of `Change` must arrive with.
pub open spec fn change_wire_ok(number: u32, wt: nat) -> bool {
    &&& number == 1 ==> wt == 0
    &&& number == 2 ==> wt == 2
}

/// Decoding the first field of `s` into `c`.
pub open spec fn change_step(c: ChangeModel, s: Seq<u8>) -> Result<(ChangeModel, nat), DecodeError> {
    match spec_read_tag(s) {
        Err(e) => Err(e),
        Ok((number, wt, n)) => {
            if !change_wire_ok(number, wt) {
                Err(DecodeError::UnexpectedWireType)
            } else {
                match spec_read_payload(s.skip(n as int), wt) {
                    Err(e) => Err(e),
                    Ok((w, m)) => match change_apply(c, number, w) {
                        Ok(c2) => Ok((c2, n + m)),
                        Err(e) => Err(e),
                    },
                }
            }
        },
    }
}

/// Merging the fields of `s`, one after the other, into `c`. A `Change` has no
/// required field, so this is also how a whole `Change` is parsed.
pub open spec fn change_merge(c: ChangeModel, s: Seq<u8>) -> Result<ChangeModel, DecodeError>
    decreases s.len(),
{
    if s.len() == 0 {
        Ok(c)
    } else {
        match change_step(c, s) {
            Err(e) => Err(e),
            Ok((c2, k)) => if 0 < k <= s.len() {
                change_merge(c2, s.skip(k as int))
            } else {
                Err(DecodeError::Truncated)
            },
        }
    }
}

/// What merging `d`, decoded on its own, into `c` gives: a timestamp that
/// `d` sets replaces that of `c`; contents and unknown fields are appended.
pub open spec fn change_join(c: ChangeModel, d: ChangeModel) -> ChangeModel {
    ChangeModel {
        at: if d.at is Some { d.at } else { c.at },
        content: c.content + d.content,
        unknown: c.unknown + d.unknown,
    }
}

/// Merging bytes into any `Change` is joining it with what the bytes decode
/// to on their own; the errors do not depend on the message.
pub proof fn lemma_change_merge_join(c: ChangeModel, d: ChangeModel, s: Seq<u8>)
    ensures
        change_merge(change_join(c, d), s) == match change_merge(d, s) {
            Ok(x) => Ok::<ChangeModel, DecodeError>(change_join(c, x)),
            Err(e) => Err(e),
        },
    decreases s.len(),
{
    if s.len() > 0 {
        match spec_read_tag(s) {
            Err(e) => {},
            Ok((number, wt, n)) => {
                if change_wire_ok(number, wt) {
                    match spec_read_payload(s.skip(n as int), wt) {
                        Err(e) => {},
                        Ok((w, m)) => {
                            match change_apply(d, number, w) {
                                Ok(d2) => {
                                    if number == 2 {
                                        if let WireModel::LengthDelimited(b) = w {
                                            if let Ok(x) = content_merge(empty_content(), b) {
                                                assert((c.content + d.content).push(x)
                                                    =~= c.content + d.content.push(x));
                                            }
                                        }
                                    } else if number != 1 {
                                        assert((c.unknown + d.unknown).push((number, w))
                                            =~= c.unknown + d.unknown.push((number, w)));
                                    }
                                    assert(change_apply(change_join(c, d), number, w)
                                        == Ok::<ChangeModel, DecodeError>(change_join(c, d2)));
                                    if 0 < n + m <= s.len() {
                                        lemma_change_merge_join(c, d2, s.skip((n + m) as int));
                                    }
                                },
                                Err(e) => {},
                            }
                        },
                    }
                }
            },
        }
    }
}

/// Joining with the empty `Change` changes nothing.
pub proof fn lemma_change_join_empty(c: ChangeModel)
    ensures
        change_join(c, empty_change()) == c,
{
    assert(c.content + Seq::<ContentModel>::empty() =~= c.content);
    assert(c.unknown + Seq::<(u32, WireModel)>::empty() =~= c.unknown);
}

/// Parsing a whole `Change` from bytes.
pub open spec fn spec_parse_change(s: Seq<u8>) -> Result<ChangeModel, DecodeError> {
    change_merge(empty_change(), s)
}

/// Applying decoded fields one after the other.
pub open spec fn change_fold(c: ChangeModel, fs: Seq<(u32, WireModel)>) -> Result<ChangeModel, DecodeError>
    decreases fs.len(),
{
    if fs.len() == 0 {
        Ok(c)
    } else {
        match change_apply(c, fs[0].0, fs[0].1) {
            Ok(c2) => change_fold(c2, fs.drop_first()),
            Err(e) => Err(e),
        }
    }
}

/// Decoding the encoding of valid fields applies those fields.
pub proof fn lemma_change_merge_fields(c: ChangeModel, fs: Seq<(u32, WireModel)>)
    requires
        forall|i: int|
            0 <= i < fs.len() ==> field_wf(#[trigger] fs[i]) && change_wire_ok(
                fs[i].0,
                wire_type(fs[i].1),
            ),
    ensures
        change_merge(c, fields_bytes(fs)) == change_fold(c, fs),
    decreases fs.len(),
{
    if fs.len() > 0 {
        lemma_fields_bytes_cons(fs);
        assert(field_wf(fs[0]));
        lemma_field_roundtrip(fs[0], fields_bytes(fs.drop_first()));
        match change_apply(c, fs[0].0, fs[0].1) {
            Ok(c2) => {
                lemma_change_merge_fields(c2, fs.drop_first());
            },
            Err(e) => {},
        }
    }
}

proof fn lemma_change_fold_unknown(c: ChangeModel, us: Seq<(u32, WireModel)>)
    requires
        forall|i: int| 0 <= i < us.len() ==> (#[trigger] us[i]).0 != 1 && us[i].0 != 2,
    ensures
        change_fold(c, us) == Ok::<ChangeModel, DecodeError>(
            ChangeModel { unknown: c.unknown + us, ..c },
        ),
    decreases us.len(),
{
    if us.len() == 0 {
        assert(c.unknown + us =~= c.unknown);
    } else {
        let c2 = ChangeModel { unknown: c.unknown.push(us[0]), ..c };
        lemma_change_fold_unknown(c2, us.drop_first());
        assert(c2.unknown + us.drop_first() =~= c.unknown + us);
    }
}

proof fn lemma_change_fold_contents(c: ChangeModel, ms: Seq<ContentModel>, rest: Seq<(u32, WireModel)>)
    requires
        forall|i: int| 0 <= i < ms.len() ==> content_wf(#[trigger] ms[i]),
    ensures
        change_fold(c, contents_fields(ms) + rest) == change_fold(
            ChangeModel { content: c.content + ms, ..c },
            rest,
        ),
    decreases ms.len(),
{
    if ms.len() == 0 {
        assert(contents_fields(ms) + rest =~= rest);
        assert(c.content + ms =~= c.content);
    } else {
        let fs = contents_fields(ms) + rest;
        assert(fs[0] == (2u32, WireModel::LengthDelimited(content_bytes(ms[0]))));
        assert(content_wf(ms[0]));
        lemma_content_roundtrip(ms[0]);
        let c2 = ChangeModel { content: c.content.push(ms[0]), ..c };
        assert(fs.drop_first() =~= contents_fields(ms.drop_first()) + rest);
        lemma_change_fold_contents(c2, ms.drop_first(), rest);
        assert(c2.content + ms.drop_first() =~= c.content + ms);
    }
}

/// Decoding the encoding of a valid `Change` gives it back.
pub proof fn lemma_change_roundtrip(c: ChangeModel)
    requires
        change_wf(c),
    ensures
        spec_parse_change(change_bytes(c)) == Ok::<ChangeModel, DecodeError>(c),
{
    let fs = change_fields(c);
    let a: Seq<(u32, WireModel)> = match c.at {
        Some(v) => seq![(1u32, WireModel::Varint(v))],
        None => Seq::empty(),
    };
    let cf = contents_fields(c.content);
    assert(fs == a + cf + c.unknown);
    assert forall|i: int|
        0 <= i < fs.len() implies field_wf(#[trigger] fs[i]) && change_wire_ok(
            fs[i].0,
            wire_type(fs[i].1),
        ) by {
        let na: int = if c.at is Some { 1 } else { 0 };
        if i >= na + cf.len() {
            assert(fs[i] == c.unknown[i - na - cf.len()]);
        } else if i >= na {
            assert(fs[i] == cf[i - na]);
            assert(content_wf(c.content[i - na]));
        }
    }
    lemma_change_merge_fields(empty_change(), fs);
    let e = empty_change();
    let c1 = match c.at {
        Some(v) => ChangeModel { at: Some(v), ..e },
        None => e,
    };
    let rest = cf + c.unknown;
    if c.at is Some {
        assert(fs =~= a + rest);
        assert(fs.drop_first() =~= rest);
    } else {
        assert(fs =~= rest);
    }
    assert(change_fold(e, fs) == change_fold(c1, rest));
    lemma_change_fold_contents(c1, c.content, c.unknown);
    let c2 = ChangeModel { content: c1.content + c.content, ..c1 };
    assert(c1.content + c.content =~= c.content);
    lemma_change_fold_unknown(c2, c.unknown);
    assert(c2.unknown + c.unknown =~= c.unknown);
}

impl Change {
    /// The message with no field set.
    pub fn new() -> (r: Change)
        ensures
            r@ == empty_change(),
    {
        let r = Change { at: None, content: Vec::new(), unknown_fields: Vec::new() };
        assert(r@.content =~= Seq::<ContentModel>::empty());
        assert(r@.unknown =~= Seq::<(u32, WireModel)>::empty());
        r
    }

    /// Unsets the time of the change.
    pub fn clear_at(&mut self)
        ensures
            final(self)@ == (ChangeModel { at: None, ..old(self)@ }),
    {
        self.at = None;
    }

    /// Whether the time of the change is set.
    pub fn has_at(&self) -> (r: bool)
        ensures
            r == self@.at is Some,
    {
        self.at.is_some()
    }

    /// Sets the time of the change.
    pub fn set_at(&mut self, v: u64)
        ensures
            final(self)@ == (ChangeModel { at: Some(v), ..old(self)@ }),
    {
        self.at = Some(v);
    }

    /// The time of the change; zero when unset.
    pub fn get_at(&self) -> (r: u64)
        ensures
            r == (match self@.at {
                Some(v) => v,
                None => 0,
            }),
    {
        match self.at {
            Some(v) => v,
            None => 0,
        }
    }

    /// Removes every content.
    pub fn clear_content(&mut self)
        ensures
            final(self)@ == (ChangeModel { content: Seq::empty(), ..old(self)@ }),
    {
        self.content = Vec::new();
        assert(self@.content =~= Seq::<ContentModel>::empty());
    }

    /// Replaces the contents.
    pub fn set_content(&mut self, v: Vec<Content>)
        ensures
            final(self)@ == (ChangeModel { content: contents_view(v@), ..old(self)@ }),
    {
        self.content = v;
    }

    /// The contents, for changing in place.
    pub fn mut_content(&mut self) -> (r: &mut Vec<Content>)
        ensures
            contents_view(r@) == old(self)@.content,
            final(self)@ == (ChangeModel { content: contents_view(final(r)@), ..old(self)@ }),
    {
        &mut self.content
    }

    /// Takes the contents out, leaving none.
    pub fn take_content(&mut self) -> (r: Vec<Content>)
        ensures
            contents_view(r@) == old(self)@.content,
            final(self)@ == (ChangeModel { content: Seq::empty(), ..old(self)@ }),
    {
        let mut r: Vec<Content> = Vec::new();
        std::mem::swap(&mut r, &mut self.content);
        assert(self@.content =~= Seq::<ContentModel>::empty());
        r
    }

    /// The contents.
    pub fn get_content(&self) -> (r: &[Content])
        ensures
            contents_view(r@) == self@.content,
    {
        self.content.as_slice()
    }

    /// Unsets every field, unknown ones included.
    pub fn clear(&mut self)
        ensures
            final(self)@ == empty_change(),
    {
        self.at = None;
        self.content = Vec::new();
        self.unknown_fields = Vec::new();
        assert(self@.content =~= Seq::<ContentModel>::empty());
        assert(self@.unknown =~= Seq::<(u32, WireModel)>::empty());
    }

    /// A `Change` has no required field.
    pub fn is_initialized(&self) -> (r: bool)
        ensures
            r,
    {
        true
    }

    /// Appends the encoding of this message.
    pub fn write_to(&self, out: &mut Vec<u8>)
        ensures
            final(out)@ == old(out)@ + change_bytes(self@),
    {
        let ghost c = self@;
        let ghost a: Seq<(u32, WireModel)> = match c.at {
            Some(v) => seq![(1u32, WireModel::Varint(v))],
            None => Seq::empty(),
        };
        let ghost cf = contents_fields(c.content);
        proof {
            lemma_fields_bytes_append(a + cf, c.unknown);
            lemma_fields_bytes_append(a, cf);
            if c.at is Some {
                lemma_fields_bytes_single(a[0]);
                assert(a =~= seq![a[0]]);
            }
        }
        let ghost start = out@;
        match self.at {
            Some(v) => {
                write_tag(out, 1, 0);
                write_varint(out, v);
            },
            None => {},
        }
        assert(out@ =~= start + fields_bytes(a));
        let ghost mid = out@;
        let mut i: usize = 0;
        assert(cf.take(0) =~= Seq::<(u32, WireModel)>::empty());
        while i < self.content.len()
            invariant
                cf == contents_fields(contents_view(self.content@)),
                i <= self.content@.len(),
                out@ == mid + fields_bytes(cf.take(i as int)),
            decreases self.content.len() - i,
        {
            let bytes = self.content[i].write_to_bytes();
            write_tag(out, 2, 2);
            write_bytes(out, bytes.as_slice());
            proof {
                lemma_fields_bytes_push(cf.take(i as int), cf[i as int]);
                assert(cf.take(i + 1) =~= cf.take(i as int).push(cf[i as int]));
            }
            i = i + 1;
        }
        assert(cf.take(cf.len() as int) =~= cf);
        write_unknown(out, &self.unknown_fields);
        assert(out@ =~= start + change_bytes(c));
    }

    /// The encoding of this message.
    pub fn write_to_bytes(&self) -> (r: Vec<u8>)
        ensures
            r@ == change_bytes(self@),
    {
        let mut out: Vec<u8> = Vec::new();
        self.write_to(&mut out);
        assert(out@ =~= change_bytes(self@));
        out
    }

    /// The number of bytes of the encoding of this message.
    pub fn compute_size(&self) -> (r: usize)
        requires
            change_bytes(self@).len() <= usize::MAX,
        ensures
            r as nat == change_bytes(self@).len(),
    {
        let bytes = self.write_to_bytes();
        bytes.len()
    }

    /// Decodes the fields of `buf` into this message: a timestamp in `buf`
    /// replaces the one held, contents and unknown fields are appended. On an
    /// error the message is left as it was.
    pub fn merge(&mut self, buf: &[u8]) -> (r: Result<(), DecodeError>)
        ensures
            match change_merge(old(self)@, buf@) {
                Ok(m) => r is Ok && final(self)@ == m,
                Err(e) => r == Err::<(), DecodeError>(e) && final(self)@ == old(self)@,
            },
    {
        proof {
            lemma_change_join_empty(self@);
            lemma_change_merge_join(self@, empty_change(), buf@);
        }
        match Change::parse_from_bytes(buf) {
            Ok(d) => {
                let Change { at, content, unknown_fields } = d;
                let mut content = content;
                let mut unknown_fields = unknown_fields;
                let ghost old_content = self.content@;
                let ghost old_unknown = self.unknown_fields@;
                let ghost dc = content@;
                let ghost du = unknown_fields@;
                if at.is_some() {
                    self.at = at;
                }
                self.content.append(&mut content);
                self.unknown_fields.append(&mut unknown_fields);
                assert(contents_view(old_content + dc) =~= contents_view(old_content) + contents_view(dc));
                assert(fields_view(old_unknown + du) =~= fields_view(old_unknown) + fields_view(du));
                Ok(())
            },
            Err(e) => Err(e),
        }
    }

    /// Parses a whole message: every field of `buf`, merged one after the
    /// other into the empty message.
    pub fn parse_from_bytes(buf: &[u8]) -> (r: Result<Change, DecodeError>)
        ensures
            match spec_parse_change(buf@) {
                Ok(m) => r matches Ok(c) && c@ == m,
                Err(e) => r == Err::<Change, DecodeError>(e),
            },
    {
        let mut c = Change::new();
        let mut pos: usize = 0;
        let len = buf.len();
        assert(buf@.skip(0) =~= buf@);
        while pos < len
            invariant
                len == buf@.len(),
                pos <= len,
                spec_parse_change(buf@) == change_merge(c@, buf@.skip(pos as int)),
            decreases len - pos,
        {
            let ghost s = buf@.skip(pos as int);
            let (number, wt, n) = match read_tag(buf, pos) {
                Ok(t) => t,
                Err(e) => return Err(e),
            };
            if (number == 1 && wt != 0) || (number == 2 && wt != 2) {
                return Err(DecodeError::UnexpectedWireType);
            }
            assert(buf@.skip(pos + n) =~= s.skip(n as int));
            let (w, m) = match read_payload(buf, pos + n, wt) {
                Ok(p) => p,
                Err(e) => return Err(e),
            };
            let ghost cm = c@;
            if number == 1 {
                match w {
                    WireValue::Varint(v) => {
                        c.at = Some(v);
                    },
                    _ => return Err(DecodeError::UnexpectedWireType),
                }
            } else if number == 2 {
                match w {
                    WireValue::LengthDelimited(b) => {
                        match Content::merge_from(b.as_slice()) {
                            Ok(x) => {
                                let ghost xv = x@;
                                c.content.push(x);
                                assert(c@.content =~= cm.content.push(xv));
                            },
                            Err(e) => return Err(e),
                        }
                    },
                    _ => return Err(DecodeError::UnexpectedWireType),
                }
            } else {
                let ghost wv = w@;
                c.unknown_fields.push(UnknownField { number, value: w });
                assert(c@.unknown =~= cm.unknown.push((number, wv)));
            }
            assert(buf@.skip(pos + n + m) =~= s.skip(n + m));
            pos = pos + n + m;
        }
        assert(buf@.skip(pos as int).len() == 0);
        Ok(c)
    }
}

/// Parsing a length-delimited `Change` from the start of `s`: the message and
/// the number of bytes its frame takes.
pub open spec fn spec_parse_delimited_change(s: Seq<u8>) -> Result<(ChangeModel, nat), DecodeError> {
    match spec_read_frame(s) {
        Ok((n, l)) => match spec_parse_change(s.subrange(n as int, (n + l) as int)) {
            Ok(m) => Ok((m, n + l)),
            Err(e) => Err(e),
        },
        Err(e) => Err(e),
    }
}

/// A valid `Change` written length-delimited reads back whole, whatever
/// follows it on the stream.
pub proof fn lemma_change_frame_roundtrip(c: ChangeModel, rest: Seq<u8>)
    requires
        change_wf(c),
        change_bytes(c).len() < pow256(8),
    ensures
        spec_parse_delimited_change(frame_bytes(change_bytes(c)) + rest) == Ok::<
            (ChangeModel, nat),
            DecodeError,
        >((c, frame_bytes(change_bytes(c)).len())),
{
    lemma_frame_roundtrip(change_bytes(c), rest);
    lemma_change_roundtrip(c);
}

impl Change {
    /// The encoding of this message preceded by its length, as it goes on a
    /// stream.
    pub fn write_length_delimited_to_bytes(&self) -> (r: Vec<u8>)
        ensures
            r@ == frame_bytes(change_bytes(self@)),
    {
        let body = self.write_to_bytes();
        let mut out: Vec<u8> = Vec::new();
        write_bytes(&mut out, body.as_slice());
        assert(out@ =~= frame_bytes(change_bytes(self@)));
        out
    }

    /// Parses a length-delimited message at the start of `buf`: the message
    /// and the number of bytes its frame takes.
    #[verifier::rlimit(40)]
    pub fn parse_length_delimited_from(buf: &[u8]) -> (r: Result<(Change, usize), DecodeError>)
        ensures
            match spec_parse_delimited_change(buf@) {
                Ok((m, k)) => r matches Ok((c, j)) && c@ == m && j == k,
                Err(e) => r == Err::<(Change, usize), DecodeError>(e),
            },
    {
        let total = buf.len();
        match read_frame(buf) {
            Ok((n, l)) => {
                let body = slice_copy(buf, n, l);
                match Change::parse_from_bytes(body.as_slice()) {
                    Ok(c) => Ok((c, n + l)),
                    Err(e) => Err(e),
                }
            },
            Err(e) => Err(e),
        }
    }
}

} // verus!
