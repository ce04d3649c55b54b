//! The Windows back end: which clipboard format a MIME type is put in, the
//! bytes that go into the clipboard's memory for each kind of data, and what
//! each clipboard format reads back as.
//!
//! The clipboard itself (opening it, allocating global memory, the format
//! numbers that Windows registers) is reached through the operating system
//! and stays outside this library; what these functions decide is handed to
//! it as plain values.

use std::sync::Arc;

use vstd::prelude::*;
use vstd::utf8::*;

use crate::clipboard::Change;
use crate::entries::str_eq;
use crate::platform::mime::is_mime_type;
use crate::protocol::clipboard::string_from_utf8;
use crate::protocol::wire::{le_bytes, le_value, lemma_le_bytes_len, lemma_le_roundtrip, lemma_pow_facts, read_le, write_le};
use crate::routing::spec_mime_like;

verus! {

broadcast use {encode_utf8_valid_utf8, encode_utf8_decode_utf8};

pub const CF_TEXT: u32 = 1;
pub const CF_BITMAP: u32 = 2;
pub const CF_METAFILEPICT: u32 = 3;
pub const CF_SYLK: u32 = 4;
pub const CF_DIF: u32 = 5;
pub const CF_TIFF: u32 = 6;
pub const CF_OEMTEXT: u32 = 7;
pub const CF_DIB: u32 = 8;
pub const CF_PALETTE: u32 = 9;
pub const CF_PENDATA: u32 = 10;
pub const CF_RIFF: u32 = 11;
pub const CF_WAVE: u32 = 12;
pub const CF_UNICODETEXT: u32 = 13;
pub const CF_ENHMETAFILE: u32 = 14;
pub const CF_HDROP: u32 = 15;
pub const CF_LOCALE: u32 = 16;
pub const CF_DIBV5: u32 = 17;
pub const CF_OWNERDISPLAY: u32 = 0x0080;
pub const CF_DSPTEXT: u32 = 0x0081;
pub const CF_DSPBITMAP: u32 = 0x0082;
pub const CF_DSPMETAFILEPICT: u32 = 0x0083;
pub const CF_DSPENHMETAFILE: u32 = 0x008E;
pub const CF_PRIVATELAST: u32 = 0x02FF;
pub const CF_GDIOBJFIRST: u32 = 0x0300;
pub const CF_GDIOBJLAST: u32 = 0x03FF;

/// The name of each format that Windows predefines.
pub open spec fn standard_format_name(format: u32) -> Option<Seq<char>> {
    if format == CF_BITMAP {
        Some("CF_BITMAP"@)
    } else if format == CF_DIB {
        Some("CF_DIB"@)
    } else if format == CF_DIBV5 {
        Some("CF_DIBV5"@)
    } else if format == CF_DIF {
        Some("CF_DIF"@)
    } else if format == CF_DSPBITMAP {
        Some("CF_DSPBITMAP"@)
    } else if format == CF_DSPENHMETAFILE {
        Some("CF_DSPENHMETAFILE"@)
    } else if format == CF_DSPMETAFILEPICT {
        Some("CF_DSPMETAFILEPICT"@)
    } else if format == CF_DSPTEXT {
        Some("CF_DSPTEXT"@)
    } else if format == CF_ENHMETAFILE {
        Some("CF_ENHMETAFILE"@)
    } else if format == CF_GDIOBJFIRST {
        Some("CF_GDIOBJFIRST"@)
    } else if format == CF_GDIOBJLAST {
        Some("CF_GDIOBJLAST"@)
    } else if format == CF_HDROP {
        Some("CF_HDROP"@)
    } else if format == CF_LOCALE {
        Some("CF_LOCALE"@)
    } else if format == CF_METAFILEPICT {
        Some("CF_METAFILEPICT"@)
    } else if format == CF_OEMTEXT {
        Some("CF_OEMTEXT"@)
    } else if format == CF_OWNERDISPLAY {
        Some("CF_OWNERDISPLAY"@)
    } else if format == CF_PALETTE {
        Some("CF_PALETTE"@)
    } else if format == CF_PENDATA {
        Some("CF_PENDATA"@)
    } else if format == CF_PRIVATELAST {
        Some("CF_PRIVATELAST"@)
    } else if format == CF_RIFF {
        Some("CF_RIFF"@)
    } else if format == CF_SYLK {
        Some("CF_SYLK"@)
    } else if format == CF_TEXT {
        Some("CF_TEXT"@)
    } else if format == CF_TIFF {
        Some("CF_TIFF"@)
    } else if format == CF_UNICODETEXT {
        Some("CF_UNICODETEXT"@)
    } else if format == CF_WAVE {
        Some("CF_WAVE"@)
    } else {
        None
    }
}

/// The Windows clipboard, while it is open.
pub struct Clipboard;

/// The clipboard format that data of a MIME type is put in.
pub enum Format {
    /// A format that Windows predefines.
    Standard(u32),
    /// A format registered under the MIME type's own name.
    Registered(String),
}

/// `name` starts with `prefix`.
pub open spec fn has_prefix(name: Seq<char>, prefix: Seq<char>) -> bool {
    prefix.len() <= name.len() && name.subrange(0, prefix.len() as int) == prefix
}

/// Whether `name` starts with `prefix`.
pub fn starts_with(name: &str, prefix: &str) -> (r: bool)
    ensures
        r == has_prefix(name@, prefix@),
{
    let n = prefix.unicode_len();
    let m = name.unicode_len();
    if n > m {
        return false;
    }
    let mut i: usize = 0;
    while i < n
        invariant
            n == prefix@.len(),
            m == name@.len(),
            n <= m,
            i <= n,
            forall|j: int| 0 <= j < i ==> name@[j] == prefix@[j],
        decreases n - i,
    {
        if name.get_char(i) != prefix.get_char(i) {
            assert(name@.subrange(0, n as int)[i as int] != prefix@[i as int]);
            return false;
        }
        i = i + 1;
    }
    assert(name@.subrange(0, n as int) =~= prefix@);
    true
}

impl Clipboard {
    /// The name of a format that Windows predefines; `None` for the formats
    /// that programs register, whose names only Windows knows.
    pub fn name(&self, format: u32) -> (r: Option<String>)
        ensures
            match r {
                Some(s) => standard_format_name(format) == Some(s@),
                None => standard_format_name(format) is None,
            },
    {
        let name = if format == CF_BITMAP {
            "CF_BITMAP"
        } else if format == CF_DIB {
            "CF_DIB"
        } else if format == CF_DIBV5 {
            "CF_DIBV5"
        } else if format == CF_DIF {
            "CF_DIF"
        } else if format == CF_DSPBITMAP {
            "CF_DSPBITMAP"
        } else if format == CF_DSPENHMETAFILE {
            "CF_DSPENHMETAFILE"
        } else if format == CF_DSPMETAFILEPICT {
            "CF_DSPMETAFILEPICT"
        } else if format == CF_DSPTEXT {
            "CF_DSPTEXT"
        } else if format == CF_ENHMETAFILE {
            "CF_ENHMETAFILE"
        } else if format == CF_GDIOBJFIRST {
            "CF_GDIOBJFIRST"
        } else if format == CF_GDIOBJLAST {
            "CF_GDIOBJLAST"
        } else if format == CF_HDROP {
            "CF_HDROP"
        } else if format == CF_LOCALE {
            "CF_LOCALE"
        } else if format == CF_METAFILEPICT {
            "CF_METAFILEPICT"
        } else if format == CF_OEMTEXT {
            "CF_OEMTEXT"
        } else if format == CF_OWNERDISPLAY {
            "CF_OWNERDISPLAY"
        } else if format == CF_PALETTE {
            "CF_PALETTE"
        } else if format == CF_PENDATA {
            "CF_PENDATA"
        } else if format == CF_PRIVATELAST {
            "CF_PRIVATELAST"
        } else if format == CF_RIFF {
            "CF_RIFF"
        } else if format == CF_SYLK {
            "CF_SYLK"
        } else if format == CF_TEXT {
            "CF_TEXT"
        } else if format == CF_TIFF {
            "CF_TIFF"
        } else if format == CF_UNICODETEXT {
            "CF_UNICODETEXT"
        } else if format == CF_WAVE {
            "CF_WAVE"
        } else {
            return None;
        };
        Some(String::from_str(name))
    }

    /// The format that data of MIME type `name` is put in: Unicode text for
    /// `text/plain`, a device-independent bitmap for images, and otherwise a
    /// format registered under the name itself.
    pub fn format(&self, name: &str) -> (r: Format)
        ensures
            name@ == "text/plain"@ ==> r == Format::Standard(CF_UNICODETEXT),
            name@ != "text/plain"@ && has_prefix(name@, "image/"@) ==> r == Format::Standard(CF_DIB),
            name@ != "text/plain"@ && !has_prefix(name@, "image/"@) ==> (r matches Format::Registered(n) && n@ == name@),
    {
        if str_eq(name, "text/plain") {
            Format::Standard(CF_UNICODETEXT)
        } else if starts_with(name, "image/") {
            Format::Standard(CF_DIB)
        } else {
            Format::Registered(String::from_str(name))
        }
    }
}

// ---------------------------------------------------------------- UTF-16

/// The 16-bit units of `data` read in pairs of bytes, low byte first; an odd
/// last byte is left out.
pub open spec fn le_units(data: Seq<u8>) -> Seq<u16> {
    Seq::new(data.len() / 2, |i: int| (data[2 * i] + 256 * data[2 * i + 1]) as u16)
}

/// A unit that opens a surrogate pair.
pub open spec fn is_high_surrogate(u: u16) -> bool {
    0xD800 <= u < 0xDC00
}

/// A unit that closes a surrogate pair.
pub open spec fn is_low_surrogate(u: u16) -> bool {
    0xDC00 <= u < 0xE000
}

/// Well-formed UTF-16: every high surrogate is followed by a low one, and no
/// low surrogate stands alone.
pub open spec fn well_formed_utf16(u: Seq<u16>) -> bool
    decreases u.len(),
{
    if u.len() == 0 {
        true
    } else if is_high_surrogate(u[0]) {
        u.len() >= 2 && is_low_surrogate(u[1]) && well_formed_utf16(u.skip(2))
    } else if is_low_surrogate(u[0]) {
        false
    } else {
        well_formed_utf16(u.skip(1))
    }
}

/// The characters that well-formed UTF-16 encodes.
pub open spec fn decode_utf16(u: Seq<u16>) -> Seq<char>
    decreases u.len(),
{
    if u.len() == 0 {
        Seq::empty()
    } else if is_high_surrogate(u[0]) && u.len() >= 2 {
        seq![(0x10000 + (u[0] - 0xD800) * 0x400 + (u[1] - 0xDC00)) as char] + decode_utf16(u.skip(2))
    } else {
        seq![u[0] as char] + decode_utf16(u.skip(1))
    }
}

/// The UTF-16 encoding of one character: one unit below `0x10000`, else a
/// surrogate pair.
pub open spec fn char_utf16(c: char) -> Seq<u16> {
    let v = c as int;
    if v < 0x10000 {
        seq![v as u16]
    } else {
        seq![(0xD800 + (v - 0x10000) / 0x400) as u16, (0xDC00 + (v - 0x10000) % 0x400) as u16]
    }
}

/// The UTF-16 encoding of a text.
pub open spec fn utf16_of(cs: Seq<char>) -> Seq<u16>
    decreases cs.len(),
{
    if cs.len() == 0 {
        Seq::empty()
    } else {
        utf16_of(cs.drop_last()) + char_utf16(cs.last())
    }
}

/// Units written as bytes, low byte first.
pub open spec fn units_le_bytes(u: Seq<u16>) -> Seq<u8>
    decreases u.len(),
{
    if u.len() == 0 {
        Seq::empty()
    } else {
        units_le_bytes(u.drop_last()) + seq![(u.last() % 256) as u8, (u.last() / 256) as u8]
    }
}

/// `n` zero bytes.
pub open spec fn zeros(n: nat) -> Seq<u8> {
    Seq::new(n, |i: int| 0u8)
}

/// The UTF-16 units of a text, in order.
fn encode_utf16(s: &str) -> (r: Vec<u16>)
    ensures
        r@ == utf16_of(s@),
{
    let n = s.unicode_len();
    let mut out: Vec<u16> = Vec::new();
    let mut i: usize = 0;
    assert(s@.take(0) =~= Seq::<char>::empty());
    while i < n
        invariant
            n == s@.len(),
            i <= n,
            out@ == utf16_of(s@.take(i as int)),
        decreases n - i,
    {
        let c = s.get_char(i);
        let v: u32 = c as u32;
        let ghost before = out@;
        if v < 0x10000 {
            out.push(v as u16);
        } else {
            out.push((0xD800 + (v - 0x10000) / 0x400) as u16);
            out.push((0xDC00 + (v - 0x10000) % 0x400) as u16);
        }
        proof {
            let t = s@.take(i + 1);
            assert(t.drop_last() =~= s@.take(i as int));
            assert(t.last() == c);
            assert(out@ =~= before + char_utf16(c));
        }
        i = i + 1;
    }
    assert(s@.take(n as int) =~= s@);
    out
}

/// `String::from_utf16`: the text that the units encode, or `None` when they
/// are not well-formed UTF-16, as the standard library documents it.
#[verifier::external_body]
fn string_from_utf16(units: &[u16]) -> (r: Option<String>)
    ensures
        r is Some <==> well_formed_utf16(units@),
        r matches Some(s) ==> s@ == decode_utf16(units@),
{
    String::from_utf16(units).ok()
}

/// The 16-bit units of `data`; see [`le_units`].
pub fn units_of(data: &[u8]) -> (r: Vec<u16>)
    ensures
        r@ == le_units(data@),
{
    let len = data.len();
    let n = len / 2;
    let mut out: Vec<u16> = Vec::new();
    let mut i: usize = 0;
    while i < n
        invariant
            len == data@.len(),
            n == data@.len() / 2,
            i <= n,
            out@ == le_units(data@).take(i as int),
        decreases n - i,
    {
        assert(2 * i + 1 < data@.len()) by (nonlinear_arith)
            requires
                i < n,
                n == data@.len() / 2,
        ;
        let j: usize = i + i;
        let u: u16 = data[j] as u16 + 256 * (data[j + 1] as u16);
        out.push(u);
        assert(out@ =~= le_units(data@).take(i + 1));
        i = i + 1;
    }
    assert(le_units(data@).take(n as int) =~= le_units(data@));
    out
}

/// Whether `units` is well-formed UTF-16; see [`well_formed_utf16`].
pub fn is_utf16(units: &[u16]) -> (r: bool)
    ensures
        r == well_formed_utf16(units@),
{
    let n = units.len();
    let mut i: usize = 0;
    assert(units@.skip(0) =~= units@);
    while i < n
        invariant
            n == units@.len(),
            i <= n,
            well_formed_utf16(units@) == well_formed_utf16(units@.skip(i as int)),
        decreases n - i,
    {
        let u = units[i];
        let ghost rest = units@.skip(i as int);
        assert(rest[0] == u);
        if 0xD800 <= u && u < 0xDC00 {
            if i + 1 >= n {
                return false;
            }
            let v = units[i + 1];
            assert(rest[1] == v);
            if !(0xDC00 <= v && v < 0xE000) {
                return false;
            }
            assert(rest.skip(2) =~= units@.skip(i + 2));
            i = i + 2;
        } else if 0xDC00 <= u && u < 0xE000 {
            return false;
        } else {
            assert(rest.skip(1) =~= units@.skip(i + 1));
            i = i + 1;
        }
    }
    true
}

/// Appends `units` to `out` as bytes, low byte first.
fn push_units(out: &mut Vec<u8>, units: &[u16])
    ensures
        final(out)@ == old(out)@ + units_le_bytes(units@),
{
    let ghost start = out@;
    let mut i: usize = 0;
    while i < units.len()
        invariant
            i <= units@.len(),
            out@ == start + units_le_bytes(units@.take(i as int)),
        decreases units.len() - i,
    {
        let u = units[i];
        out.push((u % 256) as u8);
        out.push((u / 256) as u8);
        assert(units@.take(i + 1).drop_last() =~= units@.take(i as int));
        assert(out@ =~= start + units_le_bytes(units@.take(i + 1)));
        i = i + 1;
    }
    assert(units@.take(units@.len() as int) =~= units@);
}

/// Appends `n` zero bytes to `out`.
fn push_zeros(out: &mut Vec<u8>, n: usize)
    ensures
        final(out)@ == old(out)@ + zeros(n as nat),
{
    let ghost start = out@;
    let mut i: usize = 0;
    while i < n
        invariant
            i <= n,
            out@ == start + zeros(i as nat),
        decreases n - i,
    {
        out.push(0);
        assert(out@ =~= start + zeros((i + 1) as nat));
        i = i + 1;
    }
}

/// Whether `data` holds a zero byte.
fn has_zero(data: &[u8]) -> (r: bool)
    ensures
        r == data@.contains(0u8),
{
    let mut i: usize = 0;
    while i < data.len()
        invariant
            i <= data@.len(),
            forall|j: int| 0 <= j < i ==> data@[j] != 0u8,
        decreases data.len() - i,
    {
        if data[i] == 0 {
            assert(data@[i as int] == 0u8);
            return true;
        }
        i = i + 1;
    }
    false
}

/// What text of a MIME type `text/*` becomes in the clipboard's memory, which
/// Windows fills with zeros: data with a zero byte is taken for UTF-16 and
/// kept, followed by a zero unit when it is well-formed UTF-16 and by four
/// zero bytes when it is not; UTF-8 is converted to UTF-16 followed by a zero
/// unit; anything else is kept, followed by a zero byte.
pub open spec fn text_memory(data: Seq<u8>) -> Seq<u8> {
    if data.contains(0u8) {
        if well_formed_utf16(le_units(data)) {
            data + zeros(2)
        } else {
            data + zeros(4)
        }
    } else if valid_utf8(data) {
        units_le_bytes(utf16_of(decode_utf8(data))) + zeros(2)
    } else {
        data + zeros(1)
    }
}

/// The memory for text; see [`text_memory`].
pub fn text_bytes(data: &[u8]) -> (r: Vec<u8>)
    ensures
        r@ == text_memory(data@),
{
    if has_zero(data) {
        let units = units_of(data);
        let mut out = vstd::slice::slice_to_vec(data);
        if is_utf16(units.as_slice()) {
            push_zeros(&mut out, 2);
        } else {
            push_zeros(&mut out, 4);
        }
        out
    } else {
        match string_from_utf8(vstd::slice::slice_to_vec(data)) {
            Some(s) => {
                let units = encode_utf16(s.as_str());
                let mut out: Vec<u8> = Vec::new();
                push_units(&mut out, units.as_slice());
                push_zeros(&mut out, 2);
                assert(out@ =~= units_le_bytes(units@) + zeros(2));
                out
            },
            None => {
                let mut out = vstd::slice::slice_to_vec(data);
                push_zeros(&mut out, 1);
                out
            },
        }
    }
}

// ---------------------------------------------------------------- images

/// The image formats that the clipboard takes, by MIME type.
#[derive(Clone, Copy, Debug, PartialEq, Eq, Structural)]
pub enum ImageType {
    Png,
    Jpeg,
    Gif,
    Tiff,
    Tga,
    Webp,
}

/// The image format of a MIME type, for the types that can be decoded.
pub open spec fn image_type_of(name: Seq<char>) -> Option<ImageType> {
    if name == "image/png"@ {
        Some(ImageType::Png)
    } else if name == "image/jpeg"@ {
        Some(ImageType::Jpeg)
    } else if name == "image/gif"@ {
        Some(ImageType::Gif)
    } else if name == "image/tiff"@ {
        Some(ImageType::Tiff)
    } else if name == "image/x-tga"@ {
        Some(ImageType::Tga)
    } else if name == "image/webp"@ {
        Some(ImageType::Webp)
    } else {
        None
    }
}

/// The image format of a MIME type; see [`image_type_of`].
pub fn image_type(name: &str) -> (r: Option<ImageType>)
    ensures
        r == image_type_of(name@),
{
    if str_eq(name, "image/png") {
        Some(ImageType::Png)
    } else if str_eq(name, "image/jpeg") {
        Some(ImageType::Jpeg)
    } else if str_eq(name, "image/gif") {
        Some(ImageType::Gif)
    } else if str_eq(name, "image/tiff") {
        Some(ImageType::Tiff)
    } else if str_eq(name, "image/x-tga") {
        Some(ImageType::Tga)
    } else if str_eq(name, "image/webp") {
        Some(ImageType::Webp)
    } else {
        None
    }
}

/// What `image::load_from_memory_with_format` makes of `data` in the given
/// format: its width, its height, whether its colour type has an alpha
/// channel, and its pixels as RGBA bytes, row by row from the top; `None`
/// where the data does not decode.
pub uninterp spec fn decoded_image(data: Seq<u8>, kind: ImageType) -> Option<(u32, u32, bool, Seq<u8>)>;

/// Decodes `data` with `image::load_from_memory_with_format` and converts the
/// image to RGBA bytes with `to_rgba8`. The result is named, not stated;
/// stated is only that the RGBA buffer holds four bytes for each pixel, as
/// `ImageBuffer` documents.
#[verifier::external_body]
fn decode_image(data: &[u8], kind: ImageType) -> (r: Option<(u32, u32, bool, Vec<u8>)>)
    ensures
        match r {
            None => decoded_image(data@, kind) is None,
            Some((w, h, a, px)) => decoded_image(data@, kind) == Some((w, h, a, px@)) && px@.len()
                == w * h * 4,
        },
{
    let format = match kind {
        ImageType::Png => image::ImageFormat::Png,
        ImageType::Jpeg => image::ImageFormat::Jpeg,
        ImageType::Gif => image::ImageFormat::Gif,
        ImageType::Tiff => image::ImageFormat::Tiff,
        ImageType::Tga => image::ImageFormat::Tga,
        ImageType::Webp => image::ImageFormat::WebP,
    };
    let img = image::load_from_memory_with_format(data, format).ok()?;
    Some((img.width(), img.height(), img.color().has_alpha(), img.to_rgba8().into_raw()))
}

/// The PNG file that `image::write_buffer_with_format` writes for an RGBA
/// image of the given size; `None` where the encoder fails.
pub uninterp spec fn png_encoding(width: u32, height: u32, rgba: Seq<u8>) -> Option<Seq<u8>>;

/// Encodes an RGBA image as PNG with `image::write_buffer_with_format`. The
/// file is named, not stated. The encoder panics on a buffer whose length is
/// not four bytes for each pixel, which `requires` leaves out.
#[verifier::external_body]
fn encode_png(width: u32, height: u32, rgba: &[u8]) -> (r: Option<Vec<u8>>)
    requires
        rgba@.len() == width * height * 4,
    ensures
        match r {
            None => png_encoding(width, height, rgba@) is None,
            Some(png) => png_encoding(width, height, rgba@) == Some(png@),
        },
{
    let mut out = std::io::Cursor::new(Vec::new());
    let color = image::ExtendedColorType::Rgba8;
    image::write_buffer_with_format(&mut out, rgba, width, height, color, image::ImageFormat::Png).ok()?;
    Some(out.into_inner())
}

/// One pixel of four bytes at `s` with its first and third bytes swapped,
/// which turns RGBA into BGRA and back; the fourth byte is kept, or is 255
/// when `opaque`.
pub open spec fn swapped(src: Seq<u8>, s: int, opaque: bool) -> Seq<u8> {
    seq![src[s + 2], src[s + 1], src[s], if opaque { 255u8 } else { src[s + 3] }]
}

/// The first `k` pixels from `start`, each swapped.
pub open spec fn row_pixels(src: Seq<u8>, start: int, opaque: bool, k: nat) -> Seq<u8>
    decreases k,
{
    if k == 0 {
        Seq::empty()
    } else {
        row_pixels(src, start, opaque, (k - 1) as nat) + swapped(src, start + (k - 1) * 4, opaque)
    }
}

/// The first `n` rows of an image of `w` by `h` pixels stored from `off`,
/// upside down: row `i` of the result is row `h - 1 - i` of the source. Both
/// bitmaps and RGBA buffers keep four bytes for each pixel, but a bitmap
/// starts with its bottom row.
pub open spec fn flipped(src: Seq<u8>, off: int, w: nat, h: nat, opaque: bool, n: nat) -> Seq<u8>
    decreases n,
{
    if n == 0 {
        Seq::empty()
    } else {
        flipped(src, off, w, h, opaque, (n - 1) as nat) + row_pixels(src, off + (h - n) * (w * 4), opaque, w)
    }
}

proof fn lemma_row_pixels_len(src: Seq<u8>, start: int, opaque: bool, k: nat)
    ensures
        row_pixels(src, start, opaque, k).len() == k * 4,
    decreases k,
{
    if k > 0 {
        lemma_row_pixels_len(src, start, opaque, (k - 1) as nat);
    }
}

proof fn lemma_flipped_len(src: Seq<u8>, off: int, w: nat, h: nat, opaque: bool, n: nat)
    ensures
        flipped(src, off, w, h, opaque, n).len() == n * (w * 4),
    decreases n,
{
    if n > 0 {
        lemma_flipped_len(src, off, w, h, opaque, (n - 1) as nat);
        let r = row_pixels(src, off + (h - n) * (w * 4), opaque, w);
        lemma_row_pixels_len(src, off + (h - n) * (w * 4), opaque, w);
        assert(flipped(src, off, w, h, opaque, n) == flipped(src, off, w, h, opaque, (n - 1) as nat) + r);
        assert(((n - 1) as nat) * (w * 4) + w * 4 == n * (w * 4)) by (nonlinear_arith)
            requires
                n > 0,
        ;
    } else {
        assert(n * (w * 4) == 0) by (nonlinear_arith)
            requires
                n == 0,
        ;
    }
}

/// Appends the image of `w` by `h` pixels stored in `src` from `off`, upside
/// down and with each pixel swapped; see [`flipped`].
fn push_flipped(out: &mut Vec<u8>, src: &[u8], off: usize, w: usize, h: usize, opaque: bool)
    requires
        off + h * (w * 4) <= src@.len(),
    ensures
        final(out)@ == old(out)@ + flipped(src@, off as int, w as nat, h as nat, opaque, h as nat),
{
    let ghost start = out@;
    let len = src.len();
    assert(h * (w * 4) <= len);
    let row: usize = if h == 0 {
        0
    } else {
        assert(w * 4 <= h * (w * 4)) by (nonlinear_arith)
            requires
                h >= 1,
        ;
        w * 4
    };
    let mut n: usize = 0;
    while n < h
        invariant
            len == src@.len(),
            off + h * (w * 4) <= len,
            h > 0 ==> row == w * 4,
            n <= h,
            out@ == start + flipped(src@, off as int, w as nat, h as nat, opaque, n as nat),
        decreases h - n,
    {
        assert((h - (n + 1)) * (w * 4) + w * 4 <= h * (w * 4)) by (nonlinear_arith)
            requires
                n < h,
        ;
        assert((h - (n + 1)) * row <= h * (w * 4)) by (nonlinear_arith)
            requires
                n < h,
                row == w * 4,
        ;
        let base: usize = off + (h - (n + 1)) * row;
        let ghost before = out@;
        let mut x: usize = 0;
        while x < w
            invariant
                len == src@.len(),
                row == w * 4,
                base + row <= len,
                x <= w,
                out@ == before + row_pixels(src@, base as int, opaque, x as nat),
            decreases w - x,
        {
            let p = base + 4 * x;
            out.push(src[p + 2]);
            out.push(src[p + 1]);
            out.push(src[p]);
            if opaque {
                out.push(255u8);
            } else {
                out.push(src[p + 3]);
            }
            assert(out@ =~= before + row_pixels(src@, base as int, opaque, (x + 1) as nat));
            x = x + 1;
        }
        assert(base as int == off + (h - (n + 1)) * (w * 4));
        n = n + 1;
    }
}

/// A bitmap header (`BITMAPINFOHEADER`) for an image of `w` by `h` pixels with
/// `bits` bits for each pixel, uncompressed, fields written low byte first.
pub open spec fn dib_header(w: u32, h: u32, bits: u16) -> Seq<u8> {
    le_bytes(40, 4) + le_bytes(w as nat, 4) + le_bytes(h as nat, 4) + le_bytes(1, 2) + le_bytes(
        bits as nat,
        2,
    ) + zeros(24)
}

/// The device-independent bitmap made of an RGBA image: the header, with 32
/// bits for each pixel where the image has an alpha channel and 24 where it
/// has not, then the pixels from the bottom row up in blue, green, red, alpha
/// order, and four zero bytes left over from the one colour entry that the
/// header structure holds.
pub open spec fn dib_of(w: u32, h: u32, alpha: bool, rgba: Seq<u8>) -> Seq<u8> {
    dib_header(w, h, if alpha { 32 } else { 24 }) + flipped(rgba, 0, w as nat, h as nat, false, h as nat)
        + zeros(4)
}

/// Builds the bitmap of an RGBA image; see [`dib_of`].
pub fn dib_from_rgba(w: u32, h: u32, alpha: bool, rgba: &[u8]) -> (r: Vec<u8>)
    requires
        rgba@.len() == w * h * 4,
    ensures
        r@ == dib_of(w, h, alpha, rgba@),
{
    let mut out: Vec<u8> = Vec::new();
    write_le(&mut out, 40, 4);
    write_le(&mut out, w as u64, 4);
    write_le(&mut out, h as u64, 4);
    write_le(&mut out, 1, 2);
    let bits: u16 = if alpha { 32 } else { 24 };
    write_le(&mut out, bits as u64, 2);
    push_zeros(&mut out, 24);
    let ghost header = out@;
    assert(header =~= dib_header(w, h, bits));
    let wu = w as usize;
    let hu = h as usize;
    assert(hu * (wu * 4) == w * h * 4) by (nonlinear_arith)
        requires
            hu == h,
            wu == w,
    ;
    push_flipped(&mut out, rgba, 0, wu, hu, false);
    push_zeros(&mut out, 4);
    out
}

// ---------------------------------------------------------------- set

/// The memory that `set` fills for data of MIME type `name`: text as
/// [`text_memory`] says; an image of a type that decodes, as a bitmap; other
/// data as it is. `None` where an image cannot be decoded, and nothing is put
/// on the clipboard.
pub open spec fn memory_for(name: Seq<char>, data: Seq<u8>) -> Option<Seq<u8>> {
    if has_prefix(name, "text/"@) {
        Some(text_memory(data))
    } else if has_prefix(name, "image/"@) {
        match image_type_of(name) {
            None => None,
            Some(kind) => match decoded_image(data, kind) {
                None => None,
                Some((w, h, alpha, px)) => Some(dib_of(w, h, alpha, px)),
            },
        }
    } else {
        Some(data)
    }
}

/// Every MIME type under `text/`, not only `text/plain`, is stored as
/// text: its memory is that of [`text_memory`], and UTF-8 text without a
/// zero byte becomes its UTF-16 units, low byte first, followed by a zero
/// unit.
pub proof fn lemma_text_types_store_text(name: Seq<char>, data: Seq<u8>)
    requires
        has_prefix(name, "text/"@),
    ensures
        memory_for(name, data) == Some(text_memory(data)),
        !data.contains(0u8) && valid_utf8(data) ==> memory_for(name, data) == Some(
            units_le_bytes(utf16_of(decode_utf8(data))) + seq![0u8, 0u8],
        ),
{
    assert(zeros(2) =~= seq![0u8, 0u8]);
}

/// What `set` puts on the clipboard: a format and the bytes of its memory.
pub struct Placement {
    pub format: Format,
    pub bytes: Vec<u8>,
}

impl Clipboard {
    /// The memory for data of MIME type `name`; see [`memory_for`].
    pub fn memory(&self, name: &str, data: &[u8]) -> (r: Option<Vec<u8>>)
        ensures
            match r {
                Some(b) => memory_for(name@, data@) == Some(b@),
                None => memory_for(name@, data@) is None,
            },
    {
        if starts_with(name, "text/") {
            Some(text_bytes(data))
        } else if starts_with(name, "image/") {
            match image_type(name) {
                None => None,
                Some(kind) => match decode_image(data, kind) {
                    None => None,
                    Some((w, h, alpha, px)) => Some(dib_from_rgba(w, h, alpha, px.as_slice())),
                },
            }
        } else {
            Some(vstd::slice::slice_to_vec(data))
        }
    }

    /// What setting data of MIME type `name` puts on the clipboard: the
    /// format of [`Clipboard::format`] and the memory of [`Clipboard::memory`];
    /// `None` where nothing is put.
    pub fn placement(&self, name: &str, data: &[u8]) -> (r: Option<Placement>)
        ensures
            match r {
                Some(p) => memory_for(name@, data@) == Some(p.bytes@) && (name@ == "text/plain"@
                    ==> p.format == Format::Standard(CF_UNICODETEXT)) && (name@ != "text/plain"@
                    && has_prefix(name@, "image/"@) ==> p.format == Format::Standard(CF_DIB)) && (
                name@ != "text/plain"@ && !has_prefix(name@, "image/"@) ==> (p.format matches Format::Registered(
                    n,
                ) && n@ == name@)),
                None => memory_for(name@, data@) is None,
            },
    {
        match self.memory(name, data) {
            None => None,
            Some(bytes) => Some(Placement { format: self.format(name), bytes }),
        }
    }
}

// ---------------------------------------------------------------- get

/// The units up to the first zero unit, or all of them.
pub open spec fn until_nul(u: Seq<u16>) -> Seq<u16>
    decreases u.len(),
{
    if u.len() == 0 {
        u
    } else if u[0] == 0 {
        Seq::empty()
    } else {
        seq![u[0]] + until_nul(u.drop_first())
    }
}

/// The text units of clipboard memory: its 16-bit units up to the
/// terminating zero unit.
pub fn text_units(data: &[u8]) -> (r: Vec<u16>)
    ensures
        r@ == until_nul(le_units(data@)),
{
    let units = units_of(data);
    let ghost u = units@;
    let mut out: Vec<u16> = Vec::new();
    let mut i: usize = 0;
    assert(u.skip(0) =~= u);
    while i < units.len()
        invariant
            u == units@,
            u == le_units(data@),
            i <= u.len(),
            until_nul(u) == out@ + until_nul(u.skip(i as int)),
        decreases units.len() - i,
    {
        let ghost rest = u.skip(i as int);
        assert(rest[0] == u[i as int]);
        if units[i] == 0 {
            assert(until_nul(rest) =~= Seq::<u16>::empty());
            assert(out@ + until_nul(rest) =~= out@);
            assert(until_nul(u) == out@);
            return out;
        }
        assert(rest.drop_first() =~= u.skip(i + 1));
        out.push(units[i]);
        assert(until_nul(u) =~= out@ + until_nul(u.skip(i + 1)));
        i = i + 1;
    }
    assert(u.skip(i as int) =~= Seq::<u16>::empty());
    assert(out@ + until_nul(u.skip(i as int)) =~= out@);
    out
}

/// The image in a bitmap read from the clipboard, as RGBA bytes from the top
/// row: its width, height and pixels. A bitmap of 32 bits for each pixel keeps
/// its alpha byte; one of 24 bits is read with four bytes for each pixel all
/// the same, the fourth taken for padding and the pixel made opaque. `None`
/// for other pixel sizes, for a negative width or height (a top-down bitmap),
/// and where the memory is shorter than its pixels.
pub open spec fn dib_image(data: Seq<u8>) -> Option<(u32, u32, Seq<u8>)> {
    if data.len() < 40 {
        None
    } else {
        let w = le_value(data.subrange(4, 8));
        let h = le_value(data.subrange(8, 12));
        let bits = le_value(data.subrange(14, 16));
        if bits != 32 && bits != 24 {
            None
        } else if w >= 0x8000_0000 || h >= 0x8000_0000 {
            None
        } else if data.len() < 40 + w * h * 4 {
            None
        } else {
            Some((w as u32, h as u32, flipped(data, 40, w, h, bits == 24, h)))
        }
    }
}

/// Reads the image in a bitmap; see [`dib_image`].
pub fn read_dib(data: &[u8]) -> (r: Option<(u32, u32, Vec<u8>)>)
    ensures
        match r {
            Some((w, h, px)) => dib_image(data@) == Some((w, h, px@)) && px@.len() == w * h * 4,
            None => dib_image(data@) is None,
        },
{
    let len = data.len();
    if len < 40 {
        return None;
    }
    let w = read_le(data, 4, 4);
    let h = read_le(data, 8, 4);
    let bits = read_le(data, 14, 2);
    if bits != 32 && bits != 24 {
        return None;
    }
    if w >= 0x8000_0000 || h >= 0x8000_0000 {
        return None;
    }
    assert(w * h * 4 < 0x1_0000_0000_0000_0000) by (nonlinear_arith)
        requires
            w < 0x8000_0000,
            h < 0x8000_0000,
    ;
    let size: u64 = w * h * 4;
    if ((len - 40) as u64) < size {
        return None;
    }
    let wu = w as usize;
    let hu = h as usize;
    assert(hu * (wu * 4) == w * h * 4) by (nonlinear_arith)
        requires
            hu == h,
            wu == w,
    ;
    let mut px: Vec<u8> = Vec::new();
    push_flipped(&mut px, data, 40, wu, hu, bits == 24);
    proof {
        lemma_flipped_len(data@, 40, wu as nat, hu as nat, bits == 24, hu as nat);
    }
    Some((w as u32, h as u32, px))
}

/// What a clipboard format reads back as, by the format's name: Unicode text
/// as `text/plain` in UTF-8; a bitmap as a PNG image; a format with a `text/`
/// MIME type as its units up to the terminating zero, two bytes each; one with
/// another MIME type as its whole memory; `None` for the rest, and for a
/// bitmap that cannot be read or encoded.
pub open spec fn entry_of(name: Seq<char>, data: Seq<u8>) -> Option<(Seq<char>, Seq<u8>)> {
    if name == "CF_UNICODETEXT"@ {
        Some(("text/plain"@, encode_utf8(decode_utf16(until_nul(le_units(data))))))
    } else if name == "CF_DIB"@ {
        match dib_image(data) {
            None => None,
            Some((w, h, px)) => match png_encoding(w, h, px) {
                None => None,
                Some(png) => Some(("image/png"@, png)),
            },
        }
    } else if has_prefix(name, "text/"@) {
        Some((name, data.take((2 * until_nul(le_units(data)).len()) as int)))
    } else if spec_mime_like(name) {
        Some((name, data))
    } else {
        None
    }
}

proof fn lemma_until_nul_len(u: Seq<u16>)
    ensures
        until_nul(u).len() <= u.len(),
    decreases u.len(),
{
    if u.len() > 0 && u[0] != 0 {
        lemma_until_nul_len(u.drop_first());
    }
}

impl Clipboard {
    /// What the format named `name`, whose memory is `data`, reads back as;
    /// see [`entry_of`]. Unicode text that is not well-formed UTF-16 cannot be
    /// read, which `requires` leaves out.
    pub fn entry(&self, name: &str, data: &[u8]) -> (r: Option<(String, Vec<u8>)>)
        requires
            name@ == "CF_UNICODETEXT"@ ==> well_formed_utf16(until_nul(le_units(data@))),
        ensures
            match r {
                Some((n, d)) => entry_of(name@, data@) == Some((n@, d@)),
                None => entry_of(name@, data@) is None,
            },
    {
        if str_eq(name, "CF_UNICODETEXT") {
            let units = text_units(data);
            match string_from_utf16(units.as_slice()) {
                Some(text) => {
                    let bytes = vstd::slice::slice_to_vec(text.as_str().as_bytes());
                    Some((String::from_str("text/plain"), bytes))
                },
                None => None,
            }
        } else if str_eq(name, "CF_DIB") {
            match read_dib(data) {
                None => None,
                Some((w, h, px)) => match encode_png(w, h, px.as_slice()) {
                    None => None,
                    Some(png) => Some((String::from_str("image/png"), png)),
                },
            }
        } else if starts_with(name, "text/") {
            let units = text_units(data);
            proof {
                lemma_until_nul_len(le_units(data@));
            }
            let dl = data.len();
            assert(units@.len() <= dl / 2);
            let n = 2 * units.len();
            let bytes = vstd::slice::slice_to_vec(vstd::slice::slice_subrange(data, 0, n));
            assert(bytes@ =~= data@.take(n as int));
            Some((String::from_str(name), bytes))
        } else if is_mime_type(name) {
            Some((String::from_str(name), vstd::slice::slice_to_vec(data)))
        } else {
            None
        }
    }
}

// ---------------------------------------------------------------- watching

/// What the back end does after reading the clipboard's sequence number.
pub enum Watch {
    /// Nothing changed: wait and read it again.
    Wait,
    /// The clipboard changed: read it and report it under this number.
    Changed(u32),
}

/// Compares the sequence number read now with the one of the last change
/// seen or made.
pub fn watch(previous: u32, current: u32) -> (r: Watch)
    ensures
        previous == current ==> r is Wait,
        previous != current ==> r == Watch::Changed(current),
{
    if current == previous {
        Watch::Wait
    } else {
        Watch::Changed(current)
    }
}

/// The change that the back end reports: the clipboard's content under its
/// sequence number.
pub fn outgoing(sequence: u32, entries: Vec<(String, Vec<u8>)>) -> (r: Change)
    ensures
        r.0 == sequence as u64,
        r.1@ == entries@,
{
    Arc::new((sequence as u64, entries))
}

// ---------------------------------------------------------------- text round trip

proof fn lemma_utf16_of_append(a: Seq<char>, b: Seq<char>)
    ensures
        utf16_of(a + b) == utf16_of(a) + utf16_of(b),
    decreases b.len(),
{
    if b.len() == 0 {
        assert(a + b =~= a);
        assert(utf16_of(a) + utf16_of(b) =~= utf16_of(a));
    } else {
        lemma_utf16_of_append(a, b.drop_last());
        assert((a + b).drop_last() =~= a + b.drop_last());
        assert((a + b).last() == b.last());
        assert(utf16_of(a) + utf16_of(b) =~= utf16_of(a) + utf16_of(b.drop_last()) + char_utf16(b.last()));
    }
}

/// One character's units are decoded back to it, and leave the rest as
/// well-formed as it was.
proof fn lemma_char_utf16(c: char, rest: Seq<u16>)
    ensures
        well_formed_utf16(char_utf16(c) + rest) == well_formed_utf16(rest),
        decode_utf16(char_utf16(c) + rest) == seq![c] + decode_utf16(rest),
        c != '\0' ==> !char_utf16(c).contains(0u16),
{
    let v = c as int;
    let s = char_utf16(c) + rest;
    if v < 0x10000 {
        assert(s[0] == v as u16);
        assert(s.skip(1) =~= rest);
        assert((s[0] as char) == c);
        if c != '\0' {
            assert(char_utf16(c)[0] != 0u16);
        }
    } else {
        let q = (v - 0x10000) / 0x400;
        let r = (v - 0x10000) % 0x400;
        assert(0 <= q < 0x400 && 0 <= r < 0x400 && q * 0x400 + r == v - 0x10000) by (nonlinear_arith)
            requires
                0x10000 <= v <= 0x10FFFF,
                q == (v - 0x10000) / 0x400,
                r == (v - 0x10000) % 0x400,
        ;
        assert(s[0] == (0xD800 + q) as u16);
        assert(s[1] == (0xDC00 + r) as u16);
        assert(s.skip(2) =~= rest);
        assert(0x10000 + (s[0] - 0xD800) * 0x400 + (s[1] - 0xDC00) == v);
        assert(((0x10000 + (s[0] - 0xD800) * 0x400 + (s[1] - 0xDC00)) as char) == c);
        assert(char_utf16(c)[0] != 0u16 && char_utf16(c)[1] != 0u16);
    }
}

/// UTF-16 encoding, decoded, gives back the text, and is well-formed.
proof fn lemma_utf16_roundtrip(cs: Seq<char>)
    ensures
        well_formed_utf16(utf16_of(cs)),
        decode_utf16(utf16_of(cs)) == cs,
    decreases cs.len(),
{
    if cs.len() > 0 {
        let tail = cs.drop_first();
        lemma_utf16_of_append(seq![cs[0]], tail);
        assert(seq![cs[0]] + tail =~= cs);
        let one = seq![cs[0]];
        assert(one.drop_last() =~= Seq::<char>::empty());
        assert(one.drop_last().len() == 0);
        assert(utf16_of(one.drop_last()) =~= Seq::<u16>::empty());
        assert(one.last() == cs[0]);
        assert(utf16_of(one) =~= char_utf16(cs[0]));
        lemma_char_utf16(cs[0], utf16_of(tail));
        lemma_utf16_roundtrip(tail);
        assert(seq![cs[0]] + decode_utf16(utf16_of(tail)) =~= cs);
    }
}

/// A text without a NUL character encodes to units without a zero unit.
proof fn lemma_utf16_no_zero(cs: Seq<char>)
    requires
        !cs.contains('\0'),
    ensures
        !utf16_of(cs).contains(0u16),
    decreases cs.len(),
{
    if cs.len() > 0 {
        let init = cs.drop_last();
        assert forall|i: int| 0 <= i < init.len() implies init[i] != '\0' by {
            assert(cs[i] == init[i]);
        }
        lemma_utf16_no_zero(init);
        lemma_char_utf16(cs.last(), Seq::empty());
        assert(cs[cs.len() - 1] == cs.last());
        let u = utf16_of(cs);
        assert(u =~= utf16_of(init) + char_utf16(cs.last()));
        assert forall|i: int| 0 <= i < u.len() implies u[i] != 0u16 by {
            if i < utf16_of(init).len() {
                assert(u[i] == utf16_of(init)[i]);
            } else {
                assert(u[i] == char_utf16(cs.last())[i - utf16_of(init).len()]);
            }
        }
    }
}

/// A NUL character shows in UTF-8 as a zero byte.
proof fn lemma_nul_encodes_to_zero(cs: Seq<char>)
    requires
        cs.contains('\0'),
    ensures
        encode_utf8(cs).contains(0u8),
    decreases cs.len(),
{
    let rest = encode_utf8(cs.drop_first());
    let first = encode_scalar(cs[0] as u32);
    assert(encode_utf8(cs) == first + rest);
    if cs[0] == '\0' {
        assert((0u32 & 0x7F) as u8 == 0u8) by (bit_vector);
        assert(first =~= seq![0u8]);
        assert((first + rest)[0] == 0u8);
    } else {
        let i = choose|i: int| 0 <= i < cs.len() && cs[i] == '\0';
        assert(cs.drop_first()[i - 1] == '\0');
        lemma_nul_encodes_to_zero(cs.drop_first());
        let j = choose|j: int| 0 <= j < rest.len() && rest[j] == 0u8;
        assert((first + rest)[first.len() + j] == 0u8);
    }
}

proof fn lemma_units_le_bytes_index(u: Seq<u16>)
    ensures
        units_le_bytes(u).len() == 2 * u.len(),
        forall|i: int|
            0 <= i < u.len() ==> #[trigger] units_le_bytes(u)[2 * i] == (u[i] % 256) as u8 && units_le_bytes(
                u,
            )[2 * i + 1] == (u[i] / 256) as u8,
    decreases u.len(),
{
    if u.len() > 0 {
        let init = u.drop_last();
        lemma_units_le_bytes_index(init);
        let b = units_le_bytes(u);
        assert(b =~= units_le_bytes(init) + seq![(u.last() % 256) as u8, (u.last() / 256) as u8]);
        assert forall|i: int| 0 <= i < u.len() implies #[trigger] units_le_bytes(u)[2 * i] == (u[i] % 256) as u8
            && units_le_bytes(u)[2 * i + 1] == (u[i] / 256) as u8 by {
            if i < init.len() {
                assert(init[i] == u[i]);
                assert(units_le_bytes(init)[2 * i] == (u[i] % 256) as u8);
                assert(b[2 * i] == units_le_bytes(init)[2 * i]);
                assert(b[2 * i + 1] == units_le_bytes(init)[2 * i + 1]);
            } else {
                assert(u[i] == u.last());
            }
        }
    }
}

/// The memory written for units, followed by a zero unit, reads back as the
/// units and the zero unit.
proof fn lemma_le_units_of_bytes(u: Seq<u16>)
    ensures
        le_units(units_le_bytes(u) + zeros(2)) == u.push(0u16),
{
    lemma_units_le_bytes_index(u);
    let b = units_le_bytes(u) + zeros(2);
    let r = le_units(b);
    assert(r.len() == u.len() + 1);
    assert forall|i: int| 0 <= i < r.len() implies r[i] == u.push(0u16)[i] by {
        if i < u.len() {
            assert(b[2 * i] == units_le_bytes(u)[2 * i]);
            assert(b[2 * i + 1] == units_le_bytes(u)[2 * i + 1]);
            let x = u[i];
            assert((x % 256) as u8 + 256 * ((x / 256) as u8) == x) by (nonlinear_arith)
                requires
                    0 <= x < 0x10000,
            ;
        } else {
            assert(b[2 * i] == 0u8);
            assert(b[2 * i + 1] == 0u8);
        }
    }
    assert(r =~= u.push(0u16));
}

proof fn lemma_until_nul_push(u: Seq<u16>)
    requires
        !u.contains(0u16),
    ensures
        until_nul(u.push(0u16)) == u,
    decreases u.len(),
{
    let p = u.push(0u16);
    if u.len() == 0 {
        assert(p[0] == 0u16);
    } else {
        assert(p[0] == u[0]);
        assert(u[0] != 0u16);
        assert(p.drop_first() =~= u.drop_first().push(0u16));
        assert forall|i: int| 0 <= i < u.drop_first().len() implies u.drop_first()[i] != 0u16 by {
            assert(u.drop_first()[i] == u[i + 1]);
        }
        lemma_until_nul_push(u.drop_first());
        assert(seq![u[0]] + u.drop_first() =~= u);
    }
}

/// Text put on the clipboard as `text/plain` reads back as the same text: the
/// memory written for UTF-8 without a zero byte is Unicode text, well-formed
/// up to its terminating zero, and the format it is put in reads back as
/// `text/plain` with the same bytes.
pub proof fn lemma_text_roundtrip(data: Seq<u8>)
    requires
        valid_utf8(data),
        !data.contains(0u8),
    ensures
        memory_for("text/plain"@, data) == Some(text_memory(data)),
        standard_format_name(CF_UNICODETEXT) == Some("CF_UNICODETEXT"@),
        well_formed_utf16(until_nul(le_units(text_memory(data)))),
        entry_of("CF_UNICODETEXT"@, text_memory(data)) == Some(("text/plain"@, data)),
{
    reveal_strlit("text/plain");
    reveal_strlit("text/");
    assert("text/plain"@.subrange(0, 5) =~= "text/"@);
    let cs = decode_utf8(data);
    assert(encode_utf8(cs) == data) by {
        decode_utf8_encode_utf8(data);
    }
    if cs.contains('\0') {
        lemma_nul_encodes_to_zero(cs);
    }
    let u = utf16_of(cs);
    lemma_utf16_no_zero(cs);
    lemma_utf16_roundtrip(cs);
    lemma_le_units_of_bytes(u);
    lemma_until_nul_push(u);
    assert(text_memory(data) == units_le_bytes(u) + zeros(2));
}

// ---------------------------------------------------------------- image round trip

/// The pixels of an RGBA buffer with every alpha byte set to 255.
pub open spec fn made_opaque(px: Seq<u8>) -> Seq<u8> {
    Seq::new(px.len(), |j: int| if j % 4 == 3 { 255u8 } else { px[j] })
}

proof fn lemma_row_pixels_index(src: Seq<u8>, start: int, opaque: bool, k: nat, x: int, c: int)
    requires
        0 <= x < k,
        0 <= c < 4,
    ensures
        row_pixels(src, start, opaque, k)[x * 4 + c] == swapped(src, start + x * 4, opaque)[c],
    decreases k,
{
    let prev = row_pixels(src, start, opaque, (k - 1) as nat);
    lemma_row_pixels_len(src, start, opaque, (k - 1) as nat);
    if x == k - 1 {
        assert(row_pixels(src, start, opaque, k)[x * 4 + c] == swapped(src, start + (k - 1) * 4, opaque)[c]);
    } else {
        lemma_row_pixels_index(src, start, opaque, (k - 1) as nat, x, c);
        assert(x * 4 + c < (k - 1) * 4);
        assert(row_pixels(src, start, opaque, k)[x * 4 + c] == prev[x * 4 + c]);
    }
}

proof fn lemma_flipped_index(src: Seq<u8>, off: int, w: nat, h: nat, opaque: bool, n: nat, y: int, x: int, c: int)
    requires
        n <= h,
        0 <= y < n,
        0 <= x < w,
        0 <= c < 4,
    ensures
        flipped(src, off, w, h, opaque, n)[(y * w + x) * 4 + c] == swapped(
            src,
            off + (h - 1 - y) * (w * 4) + x * 4,
            opaque,
        )[c],
    decreases n,
{
    let prev = flipped(src, off, w, h, opaque, (n - 1) as nat);
    lemma_flipped_len(src, off, w, h, opaque, (n - 1) as nat);
    let start = off + (h - n) * (w * 4);
    lemma_flipped_len(src, off, w, h, opaque, n);
    lemma_row_pixels_len(src, start, opaque, w);
    if y == n - 1 {
        lemma_row_pixels_index(src, start, opaque, w, x, c);
        assert((y * w + x) * 4 + c == (n - 1) * (w * 4) + (x * 4 + c)) by (nonlinear_arith)
            requires
                y == n - 1,
        ;
        assert(h - n == h - 1 - y);
    } else {
        lemma_flipped_index(src, off, w, h, opaque, (n - 1) as nat, y, x, c);
        assert((y * w + x) * 4 + c < (n - 1) * (w * 4)) by (nonlinear_arith)
            requires
                y < n - 1,
                x < w,
                c < 4,
        ;
    }
}

/// A bitmap read back gives the pixels it was written with: flipping the rows
/// and swapping the colours twice comes back to the start, the alpha bytes
/// set to 255 where the second reading makes the pixels opaque.
proof fn lemma_flip_twice(pre: Seq<u8>, px: Seq<u8>, post: Seq<u8>, w: nat, h: nat, opaque: bool)
    requires
        px.len() == w * h * 4,
    ensures
        ({
            let once = flipped(px, 0, w, h, false, h);
            let data = pre + once + post;
            flipped(data, pre.len() as int, w, h, opaque, h) == if opaque {
                made_opaque(px)
            } else {
                px
            }
        }),
{
    let once = flipped(px, 0, w, h, false, h);
    let data = pre + once + post;
    let off = pre.len() as int;
    let twice = flipped(data, off, w, h, opaque, h);
    let expected = if opaque {
        made_opaque(px)
    } else {
        px
    };
    lemma_flipped_len(px, 0, w, h, false, h);
    lemma_flipped_len(data, off, w, h, opaque, h);
    assert(h * (w * 4) == w * h * 4) by (nonlinear_arith);
    assert forall|j: int| 0 <= j < twice.len() implies twice[j] == expected[j] by {
        let i = j / 4;
        let c = j % 4;
        assert(j == i * 4 + c && 0 <= c < 4 && i >= 0) by (nonlinear_arith)
            requires
                j >= 0,
                i == j / 4,
                c == j % 4,
        ;
        assert(i < w * h) by (nonlinear_arith)
            requires
                j == i * 4 + c,
                0 <= c < 4,
                j < w * h * 4,
        ;
        assert(w > 0) by (nonlinear_arith)
            requires
                i < w * h,
                i >= 0,
        ;
        let y = i / (w as int);
        let x = i % (w as int);
        assert(i == y * w + x && 0 <= x < w && 0 <= y < h) by (nonlinear_arith)
            requires
                w > 0,
                i >= 0,
                i < w * h,
                y == i / (w as int),
                x == i % (w as int),
        ;
        let ry = h - 1 - y;
        lemma_flipped_index(data, off, w, h, opaque, h, y, x, c);
        let s = off + ry * (w * 4) + x * 4;
        let k = ry * (w * 4) + x * 4;
        assert(k == (ry * w + x) * 4) by (nonlinear_arith)
            requires
                k == ry * (w * 4) + x * 4,
        ;
        assert(0 <= ry < h);
        assert(k + 4 <= w * h * 4) by (nonlinear_arith)
            requires
                k == (ry * w + x) * 4,
                0 <= ry < h,
                0 <= x < w,
        ;
        let p = y * (w * 4) + x * 4;
        lemma_flipped_index(px, 0, w, h, false, h, ry, x, 0);
        lemma_flipped_index(px, 0, w, h, false, h, ry, x, 1);
        lemma_flipped_index(px, 0, w, h, false, h, ry, x, 2);
        lemma_flipped_index(px, 0, w, h, false, h, ry, x, 3);
        assert((ry * w + x) * 4 == k);
        assert(h - 1 - ry == y);
        assert(0 + (h - 1 - ry) * (w * 4) + x * 4 == p);
        assert(data[s + 0] == once[k + 0]);
        assert(data[s + 1] == once[k + 1]);
        assert(data[s + 2] == once[k + 2]);
        assert(data[s + 3] == once[k + 3]);
        assert(p + c == j) by (nonlinear_arith)
            requires
                p == y * (w * 4) + x * 4,
                i == y * w + x,
                j == i * 4 + c,
        ;
        assert(once[k + 0] == px[p + 2]);
        assert(once[k + 1] == px[p + 1]);
        assert(once[k + 2] == px[p + 0]);
        assert(once[k + 3] == px[p + 3]);
        assert(j % 4 == c);
    }
    assert(twice =~= expected);
}

/// An image put on the clipboard reads back with the same pixels: the bitmap
/// written for an RGBA image of `w` by `h` pixels reads back as an image of
/// the same size and pixels, made opaque where the bitmap has 24 bits for each
/// pixel. Sizes of 2^31 pixels and more, which a bitmap takes for negative,
/// are left out.
pub proof fn lemma_bitmap_roundtrip(w: u32, h: u32, alpha: bool, px: Seq<u8>)
    requires
        px.len() == w * h * 4,
        w < 0x8000_0000,
        h < 0x8000_0000,
    ensures
        dib_image(dib_of(w, h, alpha, px)) == Some(
            (
                w,
                h,
                if alpha {
                    px
                } else {
                    made_opaque(px)
                },
            ),
        ),
{
    let bits: u16 = if alpha {
        32
    } else {
        24
    };
    let header = dib_header(w, h, bits);
    let once = flipped(px, 0, w as nat, h as nat, false, h as nat);
    let data = dib_of(w, h, alpha, px);
    lemma_le_bytes_len(40, 4);
    lemma_le_bytes_len(w as nat, 4);
    lemma_le_bytes_len(h as nat, 4);
    lemma_le_bytes_len(1, 2);
    lemma_le_bytes_len(bits as nat, 2);
    assert(header.len() == 40);
    lemma_pow_facts();
    lemma_le_roundtrip(w as nat, 4);
    lemma_le_roundtrip(h as nat, 4);
    lemma_le_roundtrip(bits as nat, 2);
    assert(data =~= header + once + zeros(4));
    assert(data.subrange(4, 8) =~= le_bytes(w as nat, 4));
    assert(data.subrange(8, 12) =~= le_bytes(h as nat, 4));
    assert(data.subrange(14, 16) =~= le_bytes(bits as nat, 2));
    lemma_flipped_len(px, 0, w as nat, h as nat, false, h as nat);
    assert((h as nat) * ((w as nat) * 4) == w * h * 4) by (nonlinear_arith);
    lemma_flip_twice(header, px, zeros(4), w as nat, h as nat, bits == 24);
}

} // verus!
