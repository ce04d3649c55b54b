//! The handshake a peer opens a connection with: who it is and which version
//! of the protocol it speaks.
//!
//! ```text
//! message Version  { required uint32 major = 1; required uint32 minor = 2; required uint32 patch = 3; }
//! message Identity { required string name = 1; required Version version = 2; }
//! ```

use vstd::prelude::*;
use vstd::utf8::*;

use crate::protocol::clipboard::string_from_utf8;
use crate::protocol::wire::{
    DecodeError, UnknownField, WireModel, WireValue, field_wf, fields_bytes, fields_view,
    lemma_fields_bytes_append, lemma_message_fold_append, lemma_message_fold_single,
    lemma_message_merge_fields, message_fold, message_merge, pow256, read_payload, read_tag,
    spec_read_tag, spec_read_payload, wire_type, write_delimited_field, write_varint_field,
    frame_bytes, lemma_frame_roundtrip, read_frame, slice_copy, spec_read_frame, write_bytes,
};
use crate::protocol::clipboard::write_unknown;

verus! {

broadcast use {encode_utf8_valid_utf8, encode_utf8_decode_utf8};

/// Major version of this implementation of the protocol.
pub const VERSION_MAJOR: u32 = 0;

/// Minor version of this implementation of the protocol.
pub const VERSION_MINOR: u32 = 1;

/// Patch version of this implementation of the protocol.
pub const VERSION_PATCH: u32 = 0;

/// The name every peer of this program gives in its handshake.
pub open spec fn spec_name() -> Seq<char> {
    seq!['c', 'l', 'i', 'p', 'b', 'o', 'a', 'r', 'd']
}

// ---------------------------------------------------------------- Version

/// The mathematical content of a [`Version`] message.
pub struct VersionModel {
    pub major: Option<u32>,
    pub minor: Option<u32>,
    pub patch: Option<u32>,
    pub unknown: Seq<(u32, WireModel)>,
}

/// The version triple carried by a handshake.
#[derive(Clone, Debug, PartialEq, Eq)]
pub struct Version {
    major: Option<u32>,
    minor: Option<u32>,
    patch: Option<u32>,
    unknown_fields: Vec<UnknownField>,
}

impl View for Version {
    type V = VersionModel;

    closed spec fn view(&self) -> VersionModel {
        VersionModel {
            major: self.major,
            minor: self.minor,
            patch: self.patch,
            unknown: fields_view(self.unknown_fields@),
        }
    }
}

/// The `Version` with no field set.
pub open spec fn empty_version() -> VersionModel {
    VersionModel { major: None, minor: None, patch: None, unknown: Seq::empty() }
}

/// What one decoded field does to a `Version`: a `uint32` field takes a
/// varint whose value fits 32 bits.
pub open spec fn version_apply(c: VersionModel, number: u32, w: WireModel) -> Result<
    VersionModel,
    DecodeError,
> {
    if 1 <= number <= 3 {
        match w {
            WireModel::Varint(v) => {
                if v < pow256(4) {
                    if number == 1 {
                        Ok(VersionModel { major: Some(v as u32), ..c })
                    } else if number == 2 {
                        Ok(VersionModel { minor: Some(v as u32), ..c })
                    } else {
                        Ok(VersionModel { patch: Some(v as u32), ..c })
                    }
                } else {
                    Err(DecodeError::IncorrectVarint)
                }
            },
            _ => Err(DecodeError::UnexpectedWireType),
        }
    } else {
        Ok(VersionModel { unknown: c.unknown.push((number, w)), ..c })
    }
}

/// The wire type a known field of `Version` must arrive with.
pub open spec fn version_wire_ok(number: u32, wt: nat) -> bool {
    1 <= number <= 3 ==> wt == 0
}

/// [`version_apply`] as a function value.
pub open spec fn version_applier() -> spec_fn(VersionModel, u32, WireModel) -> Result<
    VersionModel,
    DecodeError,
> {
    |c: VersionModel, n: u32, w: WireModel| version_apply(c, n, w)
}

/// [`version_wire_ok`] as a function value.
pub open spec fn version_wire_rule() -> spec_fn(u32, nat) -> bool {
    |n: u32, wt: nat| version_wire_ok(n, wt)
}

/// Merging the fields of `s` into the empty `Version`.
pub open spec fn version_merge(s: Seq<u8>) -> Result<VersionModel, DecodeError> {
    message_merge(version_applier(), version_wire_rule(), empty_version(), s)
}

/// The fields a `Version` is written as, in order.
pub open spec fn version_fields(c: VersionModel) -> Seq<(u32, WireModel)> {
    let a: Seq<(u32, WireModel)> = match c.major {
        Some(v) => seq![(1u32, WireModel::Varint(v as u64))],
        None => Seq::empty(),
    };
    let b: Seq<(u32, WireModel)> = match c.minor {
        Some(v) => seq![(2u32, WireModel::Varint(v as u64))],
        None => Seq::empty(),
    };
    let p: Seq<(u32, WireModel)> = match c.patch {
        Some(v) => seq![(3u32, WireModel::Varint(v as u64))],
        None => Seq::empty(),
    };
    a + b + p + c.unknown
}

/// The encoding of a `Version`.
pub open spec fn version_bytes(c: VersionModel) -> Seq<u8> {
    fields_bytes(version_fields(c))
}

/// A `Version` that encodes and decodes back to itself.
pub open spec fn version_wf(c: VersionModel) -> bool {
    forall|i: int|
        0 <= i < c.unknown.len() ==> field_wf(#[trigger] c.unknown[i]) && !(1 <= c.unknown[i].0
            <= 3)
}

/// Whether all three required fields are set.
pub open spec fn version_initialized(c: VersionModel) -> bool {
    c.major is Some && c.minor is Some && c.patch is Some
}

proof fn lemma_version_fold_unknown(c: VersionModel, us: Seq<(u32, WireModel)>)
    requires
        forall|i: int| 0 <= i < us.len() ==> !(1 <= (#[trigger] us[i]).0 <= 3),
    ensures
        message_fold(version_applier(), c, us)
            == Ok::<VersionModel, DecodeError>(VersionModel { unknown: c.unknown + us, ..c }),
    decreases us.len(),
{
    if us.len() == 0 {
        assert(c.unknown + us =~= c.unknown);
    } else {
        let c2 = VersionModel { unknown: c.unknown.push(us[0]), ..c };
        lemma_version_fold_unknown(c2, us.drop_first());
        assert(c2.unknown + us.drop_first() =~= c.unknown + us);
    }
}

/// Decoding the encoding of a valid `Version` gives it back.
pub proof fn lemma_version_roundtrip(c: VersionModel)
    requires
        version_wf(c),
    ensures
        version_merge(version_bytes(c)) == Ok::<VersionModel, DecodeError>(c),
{
    let apply = version_applier();
    let ok = version_wire_rule();
    let a: Seq<(u32, WireModel)> = match c.major {
        Some(v) => seq![(1u32, WireModel::Varint(v as u64))],
        None => Seq::empty(),
    };
    let b: Seq<(u32, WireModel)> = match c.minor {
        Some(v) => seq![(2u32, WireModel::Varint(v as u64))],
        None => Seq::empty(),
    };
    let p: Seq<(u32, WireModel)> = match c.patch {
        Some(v) => seq![(3u32, WireModel::Varint(v as u64))],
        None => Seq::empty(),
    };
    let fs = version_fields(c);
    assert(fs == a + b + p + c.unknown);
    assert forall|i: int|
        0 <= i < fs.len() implies field_wf(#[trigger] fs[i]) && ok(fs[i].0, wire_type(fs[i].1)) by {
        let k = a.len() + b.len() + p.len();
        if i >= k {
            assert(fs[i] == c.unknown[i - k]);
        }
    }
    lemma_message_merge_fields(apply, ok, empty_version(), fs);
    assert(pow256(4) == 4294967296) by {
        reveal_with_fuel(pow256, 5);
    }
    let e = empty_version();
    let c1 = VersionModel { major: c.major, ..e };
    let c2 = VersionModel { minor: c.minor, ..c1 };
    let c3 = VersionModel { patch: c.patch, ..c2 };
    lemma_message_fold_append(apply, e, a + b + p, c.unknown);
    lemma_message_fold_append(apply, e, a + b, p);
    lemma_message_fold_append(apply, e, a, b);
    if c.major is Some {
        lemma_message_fold_single(apply, e, a[0]);
        assert(a =~= seq![a[0]]);
    }
    assert(message_fold(apply, e, a) == Ok::<VersionModel, DecodeError>(c1));
    if c.minor is Some {
        lemma_message_fold_single(apply, c1, b[0]);
        assert(b =~= seq![b[0]]);
    }
    assert(message_fold(apply, c1, b) == Ok::<VersionModel, DecodeError>(c2));
    if c.patch is Some {
        lemma_message_fold_single(apply, c2, p[0]);
        assert(p =~= seq![p[0]]);
    }
    assert(message_fold(apply, c2, p) == Ok::<VersionModel, DecodeError>(c3));
    lemma_version_fold_unknown(c3, c.unknown);
    assert(c3.unknown + c.unknown =~= c.unknown);
}

impl Version {
    /// The message with no field set.
    pub fn new() -> (r: Version)
        ensures
            r@ == empty_version(),
    {
        let r = Version { major: None, minor: None, patch: None, unknown_fields: Vec::new() };
        assert(r@.unknown =~= Seq::<(u32, WireModel)>::empty());
        r
    }

    /// Sets the major version.
    pub fn set_major(&mut self, v: u32)
        ensures
            final(self)@ == (VersionModel { major: Some(v), ..old(self)@ }),
    {
        self.major = Some(v);
    }

    /// Sets the minor version.
    pub fn set_minor(&mut self, v: u32)
        ensures
            final(self)@ == (VersionModel { minor: Some(v), ..old(self)@ }),
    {
        self.minor = Some(v);
    }

    /// Sets the patch version.
    pub fn set_patch(&mut self, v: u32)
        ensures
            final(self)@ == (VersionModel { patch: Some(v), ..old(self)@ }),
    {
        self.patch = Some(v);
    }

    /// The major version; zero when unset.
    pub fn get_major(&self) -> (r: u32)
        ensures
            r == (match self@.major {
                Some(v) => v,
                None => 0,
            }),
    {
        match self.major {
            Some(v) => v,
            None => 0,
        }
    }

    /// The minor version; zero when unset.
    pub fn get_minor(&self) -> (r: u32)
        ensures
            r == (match self@.minor {
                Some(v) => v,
                None => 0,
            }),
    {
        match self.minor {
            Some(v) => v,
            None => 0,
        }
    }

    /// The patch version; zero when unset.
    pub fn get_patch(&self) -> (r: u32)
        ensures
            r == (match self@.patch {
                Some(v) => v,
                None => 0,
            }),
    {
        match self.patch {
            Some(v) => v,
            None => 0,
        }
    }

    /// Whether all three required fields are set.
    pub fn is_initialized(&self) -> (r: bool)
        ensures
            r == version_initialized(self@),
    {
        self.major.is_some() && self.minor.is_some() && self.patch.is_some()
    }

    /// Appends the encoding of this message.
    pub fn write_to(&self, out: &mut Vec<u8>)
        ensures
            final(out)@ == old(out)@ + version_bytes(self@),
    {
        let ghost c = self@;
        let ghost a: Seq<(u32, WireModel)> = match c.major {
            Some(v) => seq![(1u32, WireModel::Varint(v as u64))],
            None => Seq::empty(),
        };
        let ghost b: Seq<(u32, WireModel)> = match c.minor {
            Some(v) => seq![(2u32, WireModel::Varint(v as u64))],
            None => Seq::empty(),
        };
        let ghost p: Seq<(u32, WireModel)> = match c.patch {
            Some(v) => seq![(3u32, WireModel::Varint(v as u64))],
            None => Seq::empty(),
        };
        proof {
            lemma_fields_bytes_append(a + b + p, c.unknown);
            lemma_fields_bytes_append(a + b, p);
            lemma_fields_bytes_append(a, b);
            assert(fields_bytes(Seq::<(u32, WireModel)>::empty()) =~= Seq::<u8>::empty());
        }
        let ghost start = out@;
        if let Some(v) = self.major {
            write_varint_field(out, 1, v as u64);
        }
        assert(out@ =~= start + fields_bytes(a));
        let ghost m1 = out@;
        if let Some(v) = self.minor {
            write_varint_field(out, 2, v as u64);
        }
        assert(out@ =~= m1 + fields_bytes(b));
        let ghost m2 = out@;
        if let Some(v) = self.patch {
            write_varint_field(out, 3, v as u64);
        }
        assert(out@ =~= m2 + fields_bytes(p));
        write_unknown(out, &self.unknown_fields);
        assert(out@ =~= start + version_bytes(c));
    }

    /// Decodes the fields of `buf` into the empty message, without asking for
    /// the required fields.
    pub fn merge_from(buf: &[u8]) -> (r: Result<Version, DecodeError>)
        ensures
            match version_merge(buf@) {
                Ok(m) => r matches Ok(c) && c@ == m,
                Err(e) => r == Err::<Version, DecodeError>(e),
            },
    {
        let mut c = Version::new();
        let mut pos: usize = 0;
        let len = buf.len();
        assert(buf@.skip(0) =~= buf@);
        proof {
            reveal_with_fuel(pow256, 5);
        }
        while pos < len
            invariant
                len == buf@.len(),
                pos <= len,
                pow256(4) == 4294967296,
                version_merge(buf@) == message_merge(
                    version_applier(),
                    version_wire_rule(),
                    c@,
                    buf@.skip(pos as int),
                ),
            decreases len - pos,
        {
            let ghost s = buf@.skip(pos as int);
            let (number, wt, n) = match read_tag(buf, pos) {
                Ok(t) => t,
                Err(e) => return Err(e),
            };
            if 1 <= number && number <= 3 && wt != 0 {
                assert(message_merge(version_applier(), version_wire_rule(), c@, s) == Err::<VersionModel, DecodeError>(
                    DecodeError::UnexpectedWireType,
                ));
                return Err(DecodeError::UnexpectedWireType);
            }
            assert(buf@.skip(pos + n) =~= s.skip(n as int));
            let (w, m) = match read_payload(buf, pos + n, wt) {
                Ok(p) => p,
                Err(e) => return Err(e),
            };
            let ghost cm = c@;
            if 1 <= number && number <= 3 {
                match w {
                    WireValue::Varint(v) => {
                        if v >= 4294967296 {
                            return Err(DecodeError::IncorrectVarint);
                        }
                        if number == 1 {
                            c.major = Some(v as u32);
                        } else if number == 2 {
                            c.minor = Some(v as u32);
                        } else {
                            c.patch = Some(v as u32);
                        }
                    },
                    _ => return Err(DecodeError::UnexpectedWireType),
                }
            } else {
                let ghost wv = w@;
                c.unknown_fields.push(UnknownField { number, value: w });
                assert(c@.unknown =~= cm.unknown.push((number, wv)));
            }
            assert(buf@.skip(pos + n + m) =~= s.skip(n + m));
            pos = pos + n + m;
        }
        assert(buf@.skip(pos as int).len() == 0);
        Ok(c)
    }
}

// ---------------------------------------------------------------- Identity

/// The mathematical content of an [`Identity`] message.
pub struct IdentityModel {
    pub name: Option<Seq<char>>,
    pub version: Option<VersionModel>,
    pub unknown: Seq<(u32, WireModel)>,
}

/// Who a peer is and which version of the protocol it speaks.
#[derive(Clone, Debug, PartialEq, Eq)]
pub struct Identity {
    name: Option<String>,
    version: Option<Version>,
    unknown_fields: Vec<UnknownField>,
}

impl View for Identity {
    type V = IdentityModel;

    closed spec fn view(&self) -> IdentityModel {
        IdentityModel {
            name: match self.name {
                Some(s) => Some(s@),
                None => None,
            },
            version: match self.version {
                Some(v) => Some(v@),
                None => None,
            },
            unknown: fields_view(self.unknown_fields@),
        }
    }
}

/// The `Identity` with no field set.
pub open spec fn empty_identity() -> IdentityModel {
    IdentityModel { name: None, version: None, unknown: Seq::empty() }
}

/// What one decoded field does to an `Identity`; a `version` field replaces
/// the version with the one it holds.
pub open spec fn identity_apply(c: IdentityModel, number: u32, w: WireModel) -> Result<
    IdentityModel,
    DecodeError,
> {
    if number == 1 {
        match w {
            WireModel::LengthDelimited(b) => {
                if valid_utf8(b) {
                    Ok(IdentityModel { name: Some(decode_utf8(b)), ..c })
                } else {
                    Err(DecodeError::InvalidUtf8)
                }
            },
            _ => Err(DecodeError::UnexpectedWireType),
        }
    } else if number == 2 {
        match w {
            WireModel::LengthDelimited(b) => match version_merge(b) {
                Ok(v) => Ok(IdentityModel { version: Some(v), ..c }),
                Err(e) => Err(e),
            },
            _ => Err(DecodeError::UnexpectedWireType),
        }
    } else {
        Ok(IdentityModel { unknown: c.unknown.push((number, w)), ..c })
    }
}

/// [`identity_apply`] as a function value.
pub open spec fn identity_applier() -> spec_fn(IdentityModel, u32, WireModel) -> Result<
    IdentityModel,
    DecodeError,
> {
    |c: IdentityModel, n: u32, w: WireModel| identity_apply(c, n, w)
}

/// The wire type a known field of `Identity` must arrive with.
pub open spec fn identity_wire_rule() -> spec_fn(u32, nat) -> bool {
    |n: u32, wt: nat| (n == 1 || n == 2) ==> wt == 2
}

/// Merging the fields of `s` into the empty `Identity`.
pub open spec fn identity_merge(s: Seq<u8>) -> Result<IdentityModel, DecodeError> {
    message_merge(identity_applier(), identity_wire_rule(), empty_identity(), s)
}

/// Whether the name and a complete version are present.
pub open spec fn identity_initialized(c: IdentityModel) -> bool {
    &&& c.name is Some
    &&& c.version matches Some(v) && version_initialized(v)
}

/// Parsing a whole `Identity`: every field, then the required ones checked.
pub open spec fn spec_parse_identity(s: Seq<u8>) -> Result<IdentityModel, DecodeError> {
    match identity_merge(s) {
        Ok(c) => if identity_initialized(c) {
            Ok(c)
        } else {
            Err(DecodeError::MissingRequiredField)
        },
        Err(e) => Err(e),
    }
}

/// The fields an `Identity` is written as, in order.
pub open spec fn identity_fields(c: IdentityModel) -> Seq<(u32, WireModel)> {
    let a: Seq<(u32, WireModel)> = match c.name {
        Some(s) => seq![(1u32, WireModel::LengthDelimited(encode_utf8(s)))],
        None => Seq::empty(),
    };
    let b: Seq<(u32, WireModel)> = match c.version {
        Some(v) => seq![(2u32, WireModel::LengthDelimited(version_bytes(v)))],
        None => Seq::empty(),
    };
    a + b + c.unknown
}

/// The encoding of an `Identity`.
pub open spec fn identity_bytes(c: IdentityModel) -> Seq<u8> {
    fields_bytes(identity_fields(c))
}

/// An `Identity` that encodes and decodes back to itself.
pub open spec fn identity_wf(c: IdentityModel) -> bool {
    &&& (c.name matches Some(s) ==> encode_utf8(s).len() < pow256(4))
    &&& (c.version matches Some(v) ==> version_wf(v) && version_bytes(v).len() < pow256(4))
    &&& forall|i: int|
        0 <= i < c.unknown.len() ==> field_wf(#[trigger] c.unknown[i]) && c.unknown[i].0 != 1
            && c.unknown[i].0 != 2
}

proof fn lemma_identity_fold_unknown(c: IdentityModel, us: Seq<(u32, WireModel)>)
    requires
        forall|i: int| 0 <= i < us.len() ==> (#[trigger] us[i]).0 != 1 && us[i].0 != 2,
    ensures
        message_fold(identity_applier(), c, us) == Ok::<IdentityModel, DecodeError>(
            IdentityModel { unknown: c.unknown + us, ..c },
        ),
    decreases us.len(),
{
    if us.len() == 0 {
        assert(c.unknown + us =~= c.unknown);
    } else {
        let c2 = IdentityModel { unknown: c.unknown.push(us[0]), ..c };
        lemma_identity_fold_unknown(c2, us.drop_first());
        assert(c2.unknown + us.drop_first() =~= c.unknown + us);
    }
}

/// Decoding the encoding of a valid `Identity` gives it back.
pub proof fn lemma_identity_roundtrip(c: IdentityModel)
    requires
        identity_wf(c),
    ensures
        identity_merge(identity_bytes(c)) == Ok::<IdentityModel, DecodeError>(c),
{
    let apply = identity_applier();
    let ok = identity_wire_rule();
    let a: Seq<(u32, WireModel)> = match c.name {
        Some(s) => seq![(1u32, WireModel::LengthDelimited(encode_utf8(s)))],
        None => Seq::empty(),
    };
    let b: Seq<(u32, WireModel)> = match c.version {
        Some(v) => seq![(2u32, WireModel::LengthDelimited(version_bytes(v)))],
        None => Seq::empty(),
    };
    let fs = identity_fields(c);
    assert(fs == a + b + c.unknown);
    assert forall|i: int|
        0 <= i < fs.len() implies field_wf(#[trigger] fs[i]) && ok(fs[i].0, wire_type(fs[i].1)) by {
        let k = a.len() + b.len();
        if i >= k {
            assert(fs[i] == c.unknown[i - k]);
        }
    }
    lemma_message_merge_fields(apply, ok, empty_identity(), fs);
    let e = empty_identity();
    let c1 = IdentityModel { name: c.name, ..e };
    let c2 = IdentityModel { version: c.version, ..c1 };
    lemma_message_fold_append(apply, e, a + b, c.unknown);
    lemma_message_fold_append(apply, e, a, b);
    if c.name is Some {
        lemma_message_fold_single(apply, e, a[0]);
        assert(a =~= seq![a[0]]);
    }
    assert(message_fold(apply, e, a) == Ok::<IdentityModel, DecodeError>(c1));
    if c.version is Some {
        lemma_version_roundtrip(c.version->0);
        lemma_message_fold_single(apply, c1, b[0]);
        assert(b =~= seq![b[0]]);
    }
    assert(message_fold(apply, c1, b) == Ok::<IdentityModel, DecodeError>(c2));
    lemma_identity_fold_unknown(c2, c.unknown);
    assert(c2.unknown + c.unknown =~= c.unknown);
}

impl Identity {
    /// The message with no field set.
    pub fn new() -> (r: Identity)
        ensures
            r@ == empty_identity(),
    {
        let r = Identity { name: None, version: None, unknown_fields: Vec::new() };
        assert(r@.unknown =~= Seq::<(u32, WireModel)>::empty());
        r
    }

    /// Sets the name.
    pub fn set_name(&mut self, v: String)
        ensures
            final(self)@ == (IdentityModel { name: Some(v@), ..old(self)@ }),
    {
        self.name = Some(v);
    }

    /// Sets the version.
    pub fn set_version(&mut self, v: Version)
        ensures
            final(self)@ == (IdentityModel { version: Some(v@), ..old(self)@ }),
    {
        self.version = Some(v);
    }

    /// The name; the empty string when unset.
    pub fn get_name(&self) -> (r: String)
        ensures
            r@ == (match self@.name {
                Some(s) => s,
                None => Seq::empty(),
            }),
    {
        match &self.name {
            Some(s) => s.clone(),
            None => String::new(),
        }
    }

    /// Whether the name and a complete version are set.
    pub fn is_initialized(&self) -> (r: bool)
        ensures
            r == identity_initialized(self@),
    {
        self.name.is_some() && match &self.version {
            Some(v) => v.is_initialized(),
            None => false,
        }
    }
}

/// The version a handshake announces; the empty version when it has none.
pub open spec fn announced_version(c: IdentityModel) -> VersionModel {
    match c.version {
        Some(v) => v,
        None => empty_version(),
    }
}

/// A `uint32` field's value, zero when unset.
pub open spec fn or_zero(v: Option<u32>) -> u32 {
    match v {
        Some(x) => x,
        None => 0,
    }
}

/// Whether a peer's handshake is accepted: it names this program, its major
/// and minor versions equal ours, and its patch version is at most our minor
/// version.
pub open spec fn spec_verify(c: IdentityModel) -> bool {
    let v = announced_version(c);
    &&& (match c.name {
        Some(s) => s,
        None => Seq::empty(),
    }) == spec_name()
    &&& or_zero(v.major) == VERSION_MAJOR
    &&& or_zero(v.minor) == VERSION_MINOR
    &&& or_zero(v.patch) <= VERSION_MINOR
}

/// The handshake this program opens its connections with.
pub open spec fn spec_identity() -> IdentityModel {
    IdentityModel {
        name: Some(spec_name()),
        version: Some(
            VersionModel {
                major: Some(VERSION_MAJOR),
                minor: Some(VERSION_MINOR),
                patch: Some(VERSION_PATCH),
                unknown: Seq::empty(),
            },
        ),
        unknown: Seq::empty(),
    }
}

/// Checks a peer's handshake; see [`spec_verify`].
pub fn verify(msg: &Identity) -> (r: bool)
    ensures
        r == spec_verify(msg@),
{
    let name = msg.get_name();
    let expected = String::from_str("clipboard");
    proof {
        reveal_strlit("clipboard");
    }
    assert(expected@ =~= spec_name());
    if !(name == expected) {
        return false;
    }
    let (major, minor, patch) = match &msg.version {
        Some(v) => (v.get_major(), v.get_minor(), v.get_patch()),
        None => (0, 0, 0),
    };
    if major != VERSION_MAJOR {
        return false;
    }
    if minor != VERSION_MINOR {
        return false;
    }
    if patch > VERSION_MINOR {
        return false;
    }
    true
}

/// The handshake this program opens its connections with.
pub fn identity() -> (r: Identity)
    ensures
        r@ == spec_identity(),
{
    let mut msg = Identity::new();
    let name = String::from_str("clipboard");
    proof {
        reveal_strlit("clipboard");
    }
    assert(name@ =~= spec_name());
    msg.set_name(name);
    let mut version = Version::new();
    version.set_major(VERSION_MAJOR);
    version.set_minor(VERSION_MINOR);
    version.set_patch(VERSION_PATCH);
    msg.set_version(version);
    msg
}

impl Identity {
    /// Appends the encoding of this message.
    pub fn write_to(&self, out: &mut Vec<u8>)
        ensures
            final(out)@ == old(out)@ + identity_bytes(self@),
    {
        let ghost c = self@;
        let ghost a: Seq<(u32, WireModel)> = match c.name {
            Some(s) => seq![(1u32, WireModel::LengthDelimited(encode_utf8(s)))],
            None => Seq::empty(),
        };
        let ghost b: Seq<(u32, WireModel)> = match c.version {
            Some(v) => seq![(2u32, WireModel::LengthDelimited(version_bytes(v)))],
            None => Seq::empty(),
        };
        proof {
            lemma_fields_bytes_append(a + b, c.unknown);
            lemma_fields_bytes_append(a, b);
            assert(fields_bytes(Seq::<(u32, WireModel)>::empty()) =~= Seq::<u8>::empty());
        }
        let ghost start = out@;
        if let Some(name) = &self.name {
            write_delimited_field(out, 1, name.as_str().as_bytes());
        }
        assert(out@ =~= start + fields_bytes(a));
        let ghost m1 = out@;
        if let Some(v) = &self.version {
            let mut inner: Vec<u8> = Vec::new();
            v.write_to(&mut inner);
            assert(inner@ =~= version_bytes(v@));
            write_delimited_field(out, 2, inner.as_slice());
        }
        assert(out@ =~= m1 + fields_bytes(b));
        write_unknown(out, &self.unknown_fields);
        assert(out@ =~= start + identity_bytes(c));
    }

    /// Decodes the fields of `buf` into the empty message, without asking for
    /// the required fields.
    #[verifier::rlimit(40)]
    pub fn merge_from(buf: &[u8]) -> (r: Result<Identity, DecodeError>)
        ensures
            match identity_merge(buf@) {
                Ok(m) => r matches Ok(c) && c@ == m,
                Err(e) => r == Err::<Identity, DecodeError>(e),
            },
    {
        let mut c = Identity::new();
        let mut pos: usize = 0;
        let len = buf.len();
        assert(buf@.skip(0) =~= buf@);
        while pos < len
            invariant
                len == buf@.len(),
                pos <= len,
                identity_merge(buf@) == message_merge(
                    identity_applier(),
                    identity_wire_rule(),
                    c@,
                    buf@.skip(pos as int),
                ),
            decreases len - pos,
        {
            let ghost s = buf@.skip(pos as int);
            let (number, wt, n) = match read_tag(buf, pos) {
                Ok(t) => t,
                Err(e) => return Err(e),
            };
            if (number == 1 || number == 2) && wt != 2 {
                assert(message_merge(identity_applier(), identity_wire_rule(), c@, s) == Err::<
                    IdentityModel,
                    DecodeError,
                >(DecodeError::UnexpectedWireType));
                return Err(DecodeError::UnexpectedWireType);
            }
            assert(buf@.skip(pos + n) =~= s.skip(n as int));
            let (w, m) = match read_payload(buf, pos + n, wt) {
                Ok(p) => p,
                Err(e) => return Err(e),
            };
            let ghost cm = c@;
            if number == 1 {
                match w {
                    WireValue::LengthDelimited(b) => {
                        match string_from_utf8(b) {
                            Some(f) => {
                                c.name = Some(f);
                            },
                            None => return Err(DecodeError::InvalidUtf8),
                        }
                    },
                    _ => return Err(DecodeError::UnexpectedWireType),
                }
            } else if number == 2 {
                match w {
                    WireValue::LengthDelimited(b) => {
                        match Version::merge_from(b.as_slice()) {
                            Ok(v) => {
                                c.version = Some(v);
                            },
                            Err(e) => return Err(e),
                        }
                    },
                    _ => return Err(DecodeError::UnexpectedWireType),
                }
            } else {
                let ghost wv = w@;
                c.unknown_fields.push(UnknownField { number, value: w });
                assert(c@.unknown =~= cm.unknown.push((number, wv)));
            }
            assert(buf@.skip(pos + n + m) =~= s.skip(n + m));
            pos = pos + n + m;
        }
        assert(buf@.skip(pos as int).len() == 0);
        Ok(c)
    }

    /// Parses a whole message: every field of `buf`, then a check that the
    /// name and a complete version are present.
    pub fn parse_from_bytes(buf: &[u8]) -> (r: Result<Identity, DecodeError>)
        ensures
            match spec_parse_identity(buf@) {
                Ok(m) => r matches Ok(c) && c@ == m,
                Err(e) => r == Err::<Identity, DecodeError>(e),
            },
    {
        match Identity::merge_from(buf) {
            Ok(c) => {
                if c.is_initialized() {
                    Ok(c)
                } else {
                    Err(DecodeError::MissingRequiredField)
                }
            },
            Err(e) => Err(e),
        }
    }
}

/// Parsing a length-delimited `Identity` from the start of `s`: the message
/// and the number of bytes its frame takes.
pub open spec fn spec_parse_delimited_identity(s: Seq<u8>) -> Result<(IdentityModel, nat), DecodeError> {
    match spec_read_frame(s) {
        Ok((n, l)) => match spec_parse_identity(s.subrange(n as int, (n + l) as int)) {
            Ok(m) => Ok((m, n + l)),
            Err(e) => Err(e),
        },
        Err(e) => Err(e),
    }
}

impl Identity {
    /// The encoding of this message preceded by its length, as it goes on a
    /// stream.
    pub fn write_length_delimited_to_bytes(&self) -> (r: Vec<u8>)
        ensures
            r@ == frame_bytes(identity_bytes(self@)),
    {
        let mut body: Vec<u8> = Vec::new();
        self.write_to(&mut body);
        let mut out: Vec<u8> = Vec::new();
        write_bytes(&mut out, body.as_slice());
        assert(out@ =~= frame_bytes(identity_bytes(self@)));
        out
    }

    /// Parses a length-delimited message at the start of `buf`: the message
    /// and the number of bytes its frame takes.
    #[verifier::rlimit(40)]
    pub fn parse_length_delimited_from(buf: &[u8]) -> (r: Result<(Identity, usize), DecodeError>)
        ensures
            match spec_parse_delimited_identity(buf@) {
                Ok((m, k)) => r matches Ok((c, j)) && c@ == m && j == k,
                Err(e) => r == Err::<(Identity, usize), DecodeError>(e),
            },
    {
        let total = buf.len();
        match read_frame(buf) {
            Ok((n, l)) => {
                let body = slice_copy(buf, n, l);
                match Identity::parse_from_bytes(body.as_slice()) {
                    Ok(c) => Ok((c, n + l)),
                    Err(e) => Err(e),
                }
            },
            Err(e) => Err(e),
        }
    }
}

proof fn lemma_own_version_short()
    ensures
        version_bytes(spec_identity().version->0).len() == 6,
{
    let v = spec_identity().version->0;
    let fs = version_fields(v);
    assert(fs =~= seq![
        (1u32, WireModel::Varint(VERSION_MAJOR as u64)),
        (2u32, WireModel::Varint(VERSION_MINOR as u64)),
        (3u32, WireModel::Varint(VERSION_PATCH as u64)),
    ]);
    reveal_with_fuel(fields_bytes, 4);
    assert(fs.drop_first().drop_first().drop_first() =~= Seq::<(u32, WireModel)>::empty());
}

proof fn lemma_own_identity_short()
    ensures
        identity_bytes(spec_identity()).len() < 100,
{
    let c = spec_identity();
    let v = c.version->0;
    lemma_own_version_short();
    lemma_encode_utf8_len(spec_name());
    let fs = identity_fields(c);
    assert(fs =~= seq![
        (1u32, WireModel::LengthDelimited(encode_utf8(spec_name()))),
        (2u32, WireModel::LengthDelimited(version_bytes(v))),
    ]);
    reveal_with_fuel(fields_bytes, 3);
    assert(fs.drop_first().drop_first() =~= Seq::<(u32, WireModel)>::empty());
}

/// UTF-8 takes at most four bytes per character.
pub proof fn lemma_encode_utf8_len(cs: Seq<char>)
    ensures
        encode_utf8(cs).len() <= 4 * cs.len(),
    decreases cs.len(),
{
    if cs.len() > 0 {
        lemma_encode_utf8_len(cs.drop_first());
    }
}

/// A peer accepts the handshake this program sends: the length-delimited
/// encoding of [`identity`] parses back, whatever follows it on the stream,
/// and [`verify`] accepts what it parses to.
pub proof fn lemma_own_handshake_accepted(rest: Seq<u8>)
    ensures
        spec_parse_delimited_identity(frame_bytes(identity_bytes(spec_identity())) + rest) == Ok::<
            (IdentityModel, nat),
            DecodeError,
        >((spec_identity(), frame_bytes(identity_bytes(spec_identity())).len())),
        spec_verify(spec_identity()),
{
    let c = spec_identity();
    let v = c.version->0;
    assert(spec_name().len() == 9);
    reveal_with_fuel(pow256, 9);
    // the encodings are short: a name of nine ASCII characters, three small varints
    lemma_encode_utf8_len(spec_name());
    assert(version_wf(v));
    lemma_own_version_short();
    lemma_identity_roundtrip(c);
    lemma_own_identity_short();
    lemma_frame_roundtrip(identity_bytes(c), rest);
}

} // verus!
