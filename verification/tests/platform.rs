#![allow(deprecated)]

use std::hash::{Hash, Hasher, SipHasher};
use std::sync::mpsc::channel;

use symbiotic::clipboard::Direction;
use symbiotic::platform::linux::{self, Action, AtomCache, Phase, Source};
use symbiotic::platform::mime::is_mime_type;
use symbiotic::platform::windows::{
    self, dib_from_rgba, image_type, is_utf16, read_dib, text_bytes, text_units, units_of, watch, Format,
    ImageType, Watch, CF_DIB, CF_UNICODETEXT,
};
use symbiotic::platform::x11::{
    self, content_hash, fetch_for, mode_from_name, on_selection_clear, owned_selections, property_format,
    reply, reply_type, text_targets, AtomSource, Clear, Display, Event, Fetch, Interned, Manager, Mode, Named, Property,
    Reply, SelectionNotify, SelectionRequest, State, XmuAtom,
};
use symbiotic::util::{flush, hash, latest};

fn pairs(v: &[(&str, &[u8])]) -> Vec<(String, Vec<u8>)> {
    v.iter().map(|(k, d)| (k.to_string(), d.to_vec())).collect()
}

// ------------------------------------------------------------ MIME types

#[test]
fn mime_types() {
    assert!(is_mime_type("text/plain"));
    assert!(is_mime_type("/"));
    assert!(is_mime_type("a/b/c"));
    assert!(!is_mime_type("TARGETS"));
    assert!(!is_mime_type("text/plain\n"));
    assert!(!is_mime_type(""));
}

// ------------------------------------------------------------ Windows

#[test]
fn windows_format_names() {
    let c = windows::Clipboard;
    assert_eq!(c.name(CF_UNICODETEXT), Some("CF_UNICODETEXT".to_string()));
    assert_eq!(c.name(CF_DIB), Some("CF_DIB".to_string()));
    assert_eq!(c.name(1), Some("CF_TEXT".to_string()));
    assert_eq!(c.name(0x8E), Some("CF_DSPENHMETAFILE".to_string()));
    assert_eq!(c.name(0x3FF), Some("CF_GDIOBJLAST".to_string()));
    assert_eq!(c.name(0xC000), None);
    assert_eq!(c.name(0), None);
}

#[test]
fn windows_formats() {
    let c = windows::Clipboard;
    assert!(matches!(c.format("text/plain"), Format::Standard(13)));
    assert!(matches!(c.format("image/png"), Format::Standard(8)));
    assert!(matches!(c.format("image/whatever"), Format::Standard(8)));
    match c.format("text/html") {
        Format::Registered(n) => assert_eq!(n, "text/html"),
        _ => panic!("text/html is registered"),
    }
}

#[test]
fn utf16_checks() {
    assert_eq!(units_of(&[0x41, 0x00, 0x3d, 0xd8, 0x00]), vec![0x0041, 0xd83d]);
    assert!(is_utf16(&[0x41, 0xd83d, 0xde00]));
    assert!(!is_utf16(&[0xd83d]));
    assert!(!is_utf16(&[0xde00, 0x41]));
    assert!(!is_utf16(&[0xd83d, 0x41]));
    assert!(is_utf16(&[]));
}

#[test]
fn text_memory_from_utf8() {
    assert_eq!(text_bytes(b"hi"), vec![b'h', 0, b'i', 0, 0, 0]);
    let smile = "\u{1F600}".as_bytes();
    assert_eq!(text_bytes(smile), vec![0x3d, 0xd8, 0x00, 0xde, 0, 0]);
    assert_eq!(text_bytes(b""), vec![0, 0]);
}

#[test]
fn text_memory_from_utf16() {
    assert_eq!(text_bytes(&[b'h', 0, b'i', 0]), vec![b'h', 0, b'i', 0, 0, 0]);
    assert_eq!(text_bytes(&[0x00, 0xdc]), vec![0x00, 0xdc, 0, 0, 0, 0]);
}

#[test]
fn text_memory_from_other_bytes() {
    assert_eq!(text_bytes(&[0xff, 0xfe, 0x41]), vec![0xff, 0xfe, 0x41, 0]);
}

#[test]
fn text_units_stop_at_nul() {
    assert_eq!(text_units(&[b'a', 0, b'b', 0, 0, 0, b'c', 0]), vec![0x61, 0x62]);
    assert_eq!(text_units(&[b'a', 0, b'b']), vec![0x61]);
}

#[test]
fn image_types() {
    assert_eq!(image_type("image/png"), Some(ImageType::Png));
    assert_eq!(image_type("image/jpeg"), Some(ImageType::Jpeg));
    assert_eq!(image_type("image/gif"), Some(ImageType::Gif));
    assert_eq!(image_type("image/tiff"), Some(ImageType::Tiff));
    assert_eq!(image_type("image/x-tga"), Some(ImageType::Tga));
    assert_eq!(image_type("image/webp"), Some(ImageType::Webp));
    assert_eq!(image_type("image/bmp"), None);
}

fn header(w: u32, h: u32, bits: u16) -> Vec<u8> {
    let mut v = Vec::new();
    v.extend_from_slice(&40u32.to_le_bytes());
    v.extend_from_slice(&w.to_le_bytes());
    v.extend_from_slice(&h.to_le_bytes());
    v.extend_from_slice(&1u16.to_le_bytes());
    v.extend_from_slice(&bits.to_le_bytes());
    v.extend_from_slice(&[0; 24]);
    v
}

#[test]
fn bitmaps_from_rgba() {
    // Two rows of one pixel: red on top, green below.
    let rgba = [255, 0, 0, 200, 0, 255, 0, 100];
    let dib = dib_from_rgba(1, 2, true, &rgba);
    let mut expected = header(1, 2, 32);
    expected.extend_from_slice(&[0, 255, 0, 100, 0, 0, 255, 200, 0, 0, 0, 0]);
    assert_eq!(dib, expected);
    let opaque = dib_from_rgba(1, 1, false, &[1, 2, 3, 255]);
    let mut expected = header(1, 1, 24);
    expected.extend_from_slice(&[3, 2, 1, 255, 0, 0, 0, 0]);
    assert_eq!(opaque, expected);
}

#[test]
fn bitmaps_to_rgba() {
    let mut dib = header(2, 1, 32);
    dib.extend_from_slice(&[10, 20, 30, 40, 50, 60, 70, 80]);
    assert_eq!(read_dib(&dib), Some((2, 1, vec![30, 20, 10, 40, 70, 60, 50, 80])));
    let mut dib24 = header(1, 2, 24);
    dib24.extend_from_slice(&[1, 2, 3, 0, 4, 5, 6, 0]);
    assert_eq!(read_dib(&dib24), Some((1, 2, vec![6, 5, 4, 255, 3, 2, 1, 255])));
    let mut bad_bits = header(1, 1, 8);
    bad_bits.extend_from_slice(&[0; 4]);
    assert_eq!(read_dib(&bad_bits), None);
    let short = header(2, 2, 32);
    assert_eq!(read_dib(&short), None);
    let mut top_down = header(1, 0xffff_ffff, 32);
    top_down.extend_from_slice(&[0; 4]);
    assert_eq!(read_dib(&top_down), None);
    assert_eq!(read_dib(&[0; 10]), None);
}

#[test]
fn clipboard_entries() {
    let c = windows::Clipboard;
    let text = [b'h', 0, 0xe9, 0, 0, 0, b'x', 0];
    assert_eq!(c.entry("CF_UNICODETEXT", &text), Some(("text/plain".to_string(), "hé".as_bytes().to_vec())));
    assert_eq!(c.entry("text/html", &text), Some(("text/html".to_string(), vec![b'h', 0, 0xe9, 0])));
    assert_eq!(c.entry("application/json", b"{}"), Some(("application/json".to_string(), b"{}".to_vec())));
    assert_eq!(c.entry("CF_LOCALE", b"\x09\x04"), None);
    let mut bad = header(1, 1, 1);
    bad.extend_from_slice(&[0; 4]);
    assert_eq!(c.entry("CF_DIB", &bad), None);
}

#[test]
fn bitmap_to_png_and_back() {
    let c = windows::Clipboard;
    let mut dib = header(2, 2, 32);
    let pixels = [1, 2, 3, 4, 5, 6, 7, 8, 9, 10, 11, 12, 13, 14, 15, 16];
    dib.extend_from_slice(&pixels);
    let (name, png) = c.entry("CF_DIB", &dib).unwrap();
    assert_eq!(name, "image/png");
    assert_eq!(&png[..8], &[0x89, b'P', b'N', b'G', 0x0d, 0x0a, 0x1a, 0x0a]);
    assert_ne!(png, dib);
    let back = c.memory("image/png", &png).unwrap();
    assert_eq!(&back[..40 + 16], &dib[..]);
    assert_eq!(back.len(), 40 + 16 + 4);
    let placed = c.placement("image/png", &png).unwrap();
    assert!(matches!(placed.format, Format::Standard(8)));
    assert_eq!(placed.bytes, back);
}

#[test]
fn memory_for_other_types() {
    let c = windows::Clipboard;
    assert_eq!(c.memory("image/png", b"not a png"), None);
    assert_eq!(c.memory("image/bmp", b"BM"), None);
    assert_eq!(c.memory("application/octet-stream", &[1, 2, 3]), Some(vec![1, 2, 3]));
    assert_eq!(c.memory("text/plain", b"A"), Some(vec![b'A', 0, 0, 0]));
    let placed = c.placement("text/plain", b"A").unwrap();
    assert!(matches!(placed.format, Format::Standard(13)));
    assert!(c.placement("image/png", b"").is_none());
}

#[test]
fn sequence_numbers() {
    assert!(matches!(watch(5, 5), Watch::Wait));
    assert!(matches!(watch(5, 6), Watch::Changed(6)));
    let change = windows::outgoing(6, pairs(&[("text/plain", b"x")]));
    assert_eq!(change.0, 6);
    assert_eq!(change.1, pairs(&[("text/plain", b"x")]));
}

// ------------------------------------------------------------ X11

#[test]
fn x11_modes() {
    assert_eq!(mode_from_name("selection"), Some(Mode::Selection));
    assert_eq!(mode_from_name("clipboard"), Some(Mode::Clipboard));
    assert_eq!(mode_from_name("primary"), None);
    assert_eq!(owned_selections(Mode::Selection), vec!["PRIMARY", "CLIPBOARD"]);
    assert_eq!(owned_selections(Mode::Clipboard), vec!["CLIPBOARD"]);
}

#[test]
fn atom_sources() {
    assert_eq!(x11::atom_source("PRIMARY"), AtomSource::Predefined(1));
    assert_eq!(x11::atom_source("SECONDARY"), AtomSource::Predefined(2));
    assert_eq!(x11::atom_source("ATOM"), AtomSource::Predefined(4));
    assert_eq!(x11::atom_source("STRING"), AtomSource::Predefined(31));
    assert_eq!(x11::atom_source("UTF8_STRING"), AtomSource::Xmu(XmuAtom::Utf8String));
    assert_eq!(x11::atom_source("CLIPBOARD"), AtomSource::Xmu(XmuAtom::Clipboard));
    assert_eq!(x11::atom_source("TIMESTAMP"), AtomSource::Xmu(XmuAtom::Timestamp));
    assert_eq!(x11::atom_source("TARGETS"), AtomSource::Xmu(XmuAtom::Targets));
    assert_eq!(x11::atom_source("text/plain"), AtomSource::Server);
}

#[test]
fn atom_cache_gives_back_what_it_was_told() {
    let mut d = Display::new();
    assert_eq!(d.intern("PRIMARY"), Interned::Known(1));
    assert_eq!(d.intern("TARGETS"), Interned::Ask(AtomSource::Xmu(XmuAtom::Targets)));
    d.remember("TARGETS", 377);
    assert_eq!(d.intern("TARGETS"), Interned::Known(377));
    assert_eq!(d.intern("TARGETS"), Interned::Known(377));
    assert_eq!(d.intern("text/plain"), Interned::Ask(AtomSource::Server));
    d.remember("PRIMARY", 9);
    assert_eq!(d.intern("PRIMARY"), Interned::Known(9));
}

#[test]
fn atom_names() {
    let mut d = Display::new();
    assert!(matches!(d.atom(0), Named::Known(n) if n == "None"));
    assert!(matches!(d.atom(0), Named::Known(n) if n == "None"));
    assert!(matches!(d.atom(400), Named::Ask));
    d.remember_name(400, "text/uri-list".to_string());
    assert!(matches!(d.atom(400), Named::Known(n) if n == "text/uri-list"));
}

#[test]
fn events() {
    let notify = Event { kind: 31, data: vec![1, 2, 3, 4, 5, 6] };
    assert_eq!(
        notify.selection_notify(),
        Some(SelectionNotify { requestor: 1, selection: 2, target: 3, property: 4, time: 5 })
    );
    assert_eq!(notify.selection_request(), None);
    let request = Event { kind: 30, data: vec![1, 2, 3, 4, 5, 6] };
    let q = request.selection_request().unwrap();
    assert_eq!(q, SelectionRequest { owner: 1, requestor: 2, selection: 3, target: 4, property: 5, time: 6 });
    let clear = Event { kind: 29, data: vec![7, 8, 9] };
    assert_eq!(clear.selection_clear().unwrap().selection, 8);
    assert_eq!(Event { kind: 29, data: vec![7] }.selection_clear(), None);
    let answer = SelectionNotify::answering(&q);
    assert_eq!(answer, SelectionNotify { requestor: 2, selection: 3, target: 4, property: 5, time: 6 });
    assert_eq!(SelectionNotify::refusing(&q).property, 0);
    let e = Event::notification(answer);
    assert_eq!(e.kind, 31);
    assert_eq!(e.selection_notify(), Some(answer));
}

#[test]
fn losing_a_selection() {
    assert_eq!(on_selection_clear(Mode::Selection, 1, 300), Clear::Stop { disown_clipboard: true });
    assert_eq!(on_selection_clear(Mode::Selection, 300, 300), Clear::Keep);
    assert_eq!(on_selection_clear(Mode::Clipboard, 300, 300), Clear::Stop { disown_clipboard: false });
}

#[test]
fn replies() {
    let change = (77u64, pairs(&[("text/plain", b"old"), ("image/png", b"P"), ("text/plain", b"new")]));
    match reply("TARGETS", &change) {
        Reply::Atoms(names) => assert_eq!(names, vec!["image/png", "text/plain", "UTF8_STRING", "TARGETS", "TIMESTAMP"]),
        _ => panic!("the targets are atoms"),
    }
    assert!(matches!(reply("TIMESTAMP", &change), Reply::Timestamp(77)));
    assert!(matches!(reply("UTF8_STRING", &change), Reply::Data(d) if d == b"new"));
    assert!(matches!(reply("STRING", &change), Reply::Data(d) if d == b"new"));
    assert!(matches!(reply("image/png", &change), Reply::Data(d) if d == b"P"));
    assert!(matches!(reply("image/gif", &change), Reply::Refuse));
    assert!(matches!(reply("MULTIPLE", &change), Reply::Refuse));
    let no_text = (1u64, pairs(&[("image/png", b"P")]));
    match reply("TARGETS", &no_text) {
        Reply::Atoms(names) => assert_eq!(names, vec!["image/png", "TARGETS", "TIMESTAMP"]),
        _ => panic!("the targets are atoms"),
    }
    assert!(matches!(reply("UTF8_STRING", &no_text), Reply::Refuse));
    assert_eq!(reply_type("TARGETS"), "ATOM");
    assert_eq!(reply_type("image/png"), "image/png");
}

#[test]
fn properties() {
    let p = Property { id: 1, kind: 4, format: 32, items: 4, data: vec![1, 0, 0, 0, 2, 0, 0, 0, 3, 0, 0, 0, 4, 0, 0, 0] };
    assert_eq!(p.items(4), Some(vec![1, 2, 3, 4]));
    assert_eq!(p.items(8), Some(vec![0x2_0000_0001, 0x4_0000_0003]));
    assert_eq!(p.items(1), None);
    let b = Property { id: 1, kind: 31, format: 8, items: 3, data: b"abc".to_vec() };
    assert_eq!(b.items(1), Some(vec![97, 98, 99]));
    let short = Property { id: 1, kind: 31, format: 8, items: 5, data: b"abc".to_vec() };
    assert_eq!(short.items(1), None);
    assert_eq!(property_format(8, 10), (8, 10));
    assert_eq!(property_format(32, 10), (32, 10));
    assert_eq!(property_format(64, 10), (32, 20));
}

#[test]
fn fetching() {
    assert_eq!(fetch_for("text/html"), Fetch::Content);
    assert_eq!(fetch_for("TIMESTAMP"), Fetch::Timestamp);
    assert_eq!(fetch_for("TARGETS"), Fetch::Skip);
}

#[test]
fn states_report_each_content_once() {
    let mut s = State::default();
    assert_eq!(s, State { hash: 0, timestamp: 0 });
    assert!(s.observe_hashed(5, vec![], 11).is_none());
    assert_eq!(s, State { hash: 0, timestamp: 0 });
    let c = s.observe_hashed(5, pairs(&[("text/plain", b"a")]), 11).unwrap();
    assert_eq!(c.0, 5);
    assert_eq!(s, State { hash: 11, timestamp: 5 });
    assert!(s.observe_hashed(5, pairs(&[("text/plain", b"b")]), 12).is_none());
    assert!(s.observe_hashed(6, pairs(&[("text/plain", b"a")]), 11).is_none());
    assert_eq!(s, State { hash: 11, timestamp: 6 });
    assert!(s.observe_hashed(0, pairs(&[("text/plain", b"b")]), 12).is_some());
    assert_eq!(s, State { hash: 12, timestamp: 6 });
}

#[test]
fn observing_and_polling() {
    let mut s = State::default();
    let c = s.observe(0, pairs(&[("text/plain", b"b"), ("text/html", b"x"), ("text/plain", b"c")])).unwrap();
    assert_eq!(c.1, pairs(&[("text/html", b"x"), ("text/plain", b"c")]));
    assert!(s.observe(0, pairs(&[("text/html", b"x"), ("text/plain", b"c")])).is_none());
    let (tx, rx) = channel();
    let mut m = Manager::new(tx, Mode::Selection);
    let first = m.poll((3, pairs(&[("text/plain", b"p")])), (4, pairs(&[("text/plain", b"c")]))).unwrap();
    assert_eq!(first.0, 3);
    assert_eq!(m.primary.timestamp, 3);
    assert_eq!(m.clipboard.timestamp, 4);
    let second = m.poll((3, pairs(&[("text/plain", b"p")])), (5, pairs(&[("text/plain", b"d")]))).unwrap();
    assert_eq!(second.0, 5);
    assert!(m.poll((3, vec![]), (5, vec![])).is_none());
    assert!(m.send(second.clone()).is_ok());
    match rx.recv().unwrap() {
        Direction::Outgoing(c) => assert_eq!(c.0, 5),
        Direction::Incoming(_) => panic!("a local change is outgoing"),
    }
    let (tx, _rx) = channel();
    let mut only = Manager::new(tx, Mode::Clipboard);
    let c = only.poll((3, pairs(&[("text/plain", b"p")])), (4, pairs(&[("text/plain", b"c")]))).unwrap();
    assert_eq!(c.0, 4);
    assert_eq!(only.primary, State::default());
    assert_eq!(only.intern("PRIMARY"), Interned::Known(1));
}

#[test]
fn hashes() {
    let a = pairs(&[("text/plain", b"a")]);
    let b = pairs(&[("text/plain", b"b")]);
    assert_eq!(content_hash(&a), content_hash(&a));
    assert_ne!(content_hash(&a), content_hash(&b));
    assert_eq!(content_hash(&vec![]), 0);
    assert_eq!(hash(&a), hash(&a));
    assert_ne!(hash(&a), hash(&b));
    assert_eq!(hash(&vec![]), 0);
}

#[test]
fn flushing_keeps_the_latest() {
    let (tx, rx) = channel();
    assert_eq!(flush(&rx), None);
    tx.send(1).unwrap();
    tx.send(2).unwrap();
    tx.send(3).unwrap();
    assert_eq!(flush(&rx), Some(3));
    assert_eq!(flush(&rx), None);
}

// ------------------------------------------------------------ Linux

#[test]
fn linux_atoms() {
    let mut cache = AtomCache::new();
    assert_eq!(cache.intern("STRING"), Interned::Known(31));
    assert_eq!(cache.intern("ATOM"), Interned::Ask(AtomSource::Server));
    assert_eq!(cache.intern("CLIPBOARD"), Interned::Ask(AtomSource::Xmu(XmuAtom::Clipboard)));
    cache.hint("CLIPBOARD", 250);
    assert_eq!(cache.intern("CLIPBOARD"), Interned::Known(250));
    assert!(matches!(cache.name(0), Named::Known(n) if n == "None"));
    assert!(matches!(cache.name(3), Named::Ask));
    let names = cache.learn(vec![(500, "text/plain".to_string()), (501, "TARGETS".to_string())]);
    assert_eq!(names, vec!["text/plain", "TARGETS"]);
    assert_eq!(cache.intern("text/plain"), Interned::Known(500));
    assert_eq!(cache.intern("TARGETS"), Interned::Known(501));
}

#[test]
fn linux_configuration() {
    assert_eq!(Source::from_name("selection"), Some(Source::Selection));
    assert_eq!(Source::from_name("clipboard"), Some(Source::Clipboard));
    assert_eq!(Source::from_name("both"), None);
    let c = linux::Clipboard::new(Some(":1".to_string()), None);
    assert_eq!(c.display, Some(":1".to_string()));
    assert_eq!(c.source, Source::Selection);
    let d = linux::Clipboard::new(None, Some(Source::Clipboard));
    assert_eq!(d.source.selection(), "CLIPBOARD");
    assert_eq!(Source::Selection.selection(), "PRIMARY");
}

#[test]
fn linux_phases() {
    let mut p = Phase::Start;
    assert_eq!(p.action(), Action::RequestTargets);
    p = p.next(false);
    assert_eq!(p, Phase::Formats);
    assert_eq!(p.action(), Action::WaitForEvent);
    assert_eq!(p.next(false), Phase::Formats);
    p = p.next(true);
    assert_eq!(p, Phase::Done);
    assert_eq!(p.action(), Action::Rest);
    assert_eq!(p.next(false), Phase::Start);
    assert_eq!(Phase::Fetch.next(true), Phase::Fetch);
    assert_eq!(Phase::Timestamp.action(), Action::Nothing);
    assert!(linux::answer_has_targets(5));
    assert!(!linux::answer_has_targets(0));
}

#[test]
fn text_comes_back_from_the_windows_clipboard() {
    let c = windows::Clipboard;
    for text in ["hello", "héllo € \u{1F600}", ""] {
        let memory = c.memory("text/plain", text.as_bytes()).unwrap();
        assert!(is_utf16(&text_units(&memory)));
        assert_eq!(c.entry("CF_UNICODETEXT", &memory), Some(("text/plain".to_string(), text.as_bytes().to_vec())));
    }
}

#[test]
fn images_come_back_from_bitmaps() {
    let rgba: Vec<u8> = (0u8..24).collect();
    let dib = dib_from_rgba(3, 2, true, &rgba);
    assert_eq!(read_dib(&dib), Some((3, 2, rgba.clone())));
    let dib24 = dib_from_rgba(3, 2, false, &rgba);
    let opaque: Vec<u8> = rgba.iter().enumerate().map(|(i, b)| if i % 4 == 3 { 255 } else { *b }).collect();
    assert_eq!(read_dib(&dib24), Some((3, 2, opaque)));
}

#[test]
fn learnt_formats_keep_the_last_atom() {
    let mut cache = AtomCache::new();
    cache.hint("text/plain", 1);
    let names = cache.learn(vec![(600, "text/plain".to_string()), (601, "text/plain".to_string())]);
    assert_eq!(names, vec!["text/plain", "text/plain"]);
    assert_eq!(cache.intern("text/plain"), Interned::Known(601));
}

#[test]
fn windows_and_empty_events() {
    let d = Display::new();
    assert_eq!(d.window(42).id, 42);
    let e = d.event();
    assert_eq!(e.kind, 0);
    assert_eq!(e.data, vec![0u64; 20]);
    assert_eq!(e.selection_notify(), None);
}

#[test]
fn sending_to_a_closed_channel_gives_the_message_back() {
    let (tx, rx) = channel();
    let m = Manager::new(tx, Mode::Clipboard);
    drop(rx);
    let change = windows::outgoing(3, pairs(&[("text/plain", b"z")]));
    match m.send(change.clone()) {
        Err(Direction::Outgoing(c)) => assert_eq!(*c, *change),
        _ => panic!("the message comes back"),
    }
}

#[test]
#[allow(deprecated)]
fn content_hashes_match_hashing_the_tuples() {
    let content = pairs(&[("text/html", b"<b>x</b>"), ("text/plain", b"x")]);
    let mut expected: u64 = 0;
    for (k, v) in &content {
        let mut h = SipHasher::new();
        (expected, k.as_str(), v.as_slice()).hash(&mut h);
        expected = h.finish();
    }
    assert_eq!(content_hash(&content), expected);
    let mut one = SipHasher::new();
    let mut streamed: u64 = 0;
    for (k, v) in &content {
        (streamed, k.as_str(), v.as_slice()).hash(&mut one);
        streamed = one.finish();
    }
    assert_eq!(hash(&content), streamed);
}

#[test]
fn text_and_timestamps() {
    assert_eq!(text_targets(), vec!["UTF8_STRING", "STRING"]);
    let p = Property { id: 1, kind: 1, format: 32, items: 2, data: vec![7, 0, 0, 0, 9, 0, 0, 0] };
    assert_eq!(p.timestamp(), Some(7));
    let empty = Property { id: 1, kind: 1, format: 32, items: 0, data: vec![] };
    assert_eq!(empty.timestamp(), None);
    let bytes = Property { id: 1, kind: 1, format: 8, items: 1, data: vec![7] };
    assert_eq!(bytes.timestamp(), None);
}

#[test]
fn the_same_selection_is_reported_once() {
    let (tx, _rx) = channel();
    let mut m = Manager::new(tx, Mode::Clipboard);
    let content = pairs(&[("text/plain", b"same")]);
    assert!(m.selection(Mode::Clipboard, 0, content.clone()).is_some());
    assert!(m.selection(Mode::Clipboard, 0, content.clone()).is_none());
    let reordered = pairs(&[("text/html", b"h"), ("text/plain", b"same")]);
    assert!(m.selection(Mode::Clipboard, 0, reordered.clone()).is_some());
    let shuffled = pairs(&[("text/plain", b"same"), ("text/html", b"h")]);
    assert!(m.selection(Mode::Clipboard, 0, shuffled).is_none());
}

#[test]
fn the_latest_value() {
    assert_eq!(latest(Vec::<i32>::new()), None);
    assert_eq!(latest(vec![1, 2, 3]), Some(3));
}
