use protobuf::CodedOutputStream;
use symbiotic::protocol::clipboard::{Change, Content};
use symbiotic::protocol::handshake::{identity, verify, Identity, Version, VERSION_MAJOR, VERSION_MINOR};
use symbiotic::protocol::wire::DecodeError;

fn content(format: &str, data: &[u8]) -> Content {
    let mut c = Content::new();
    c.set_format(format.to_string());
    c.set_data(data.to_vec());
    c
}

fn reference_content(format: &str, data: &[u8]) -> Vec<u8> {
    let mut out = Vec::new();
    {
        let mut os = CodedOutputStream::vec(&mut out);
        os.write_string(1, format).unwrap();
        os.write_bytes(2, data).unwrap();
        os.flush().unwrap();
    }
    out
}

fn reference_change(at: u64, contents: &[Vec<u8>]) -> Vec<u8> {
    let mut out = Vec::new();
    {
        let mut os = CodedOutputStream::vec(&mut out);
        os.write_uint64(1, at).unwrap();
        for c in contents {
            os.write_bytes(2, c).unwrap();
        }
        os.flush().unwrap();
    }
    out
}

#[test]
fn content_accessors() {
    let mut c = Content::new();
    assert!(!c.has_format());
    assert!(!c.has_data());
    assert!(!c.is_initialized());
    assert_eq!(c.get_format(), "");
    assert_eq!(c.get_data(), &[] as &[u8]);
    c.set_format("text/plain".to_string());
    assert!(c.has_format());
    assert_eq!(c.get_format(), "text/plain");
    assert!(!c.is_initialized());
    c.set_data(b"hi".to_vec());
    assert!(c.is_initialized());
    assert_eq!(c.get_data(), b"hi");
    c.mut_data().push(b'!');
    assert_eq!(c.get_data(), b"hi!");
    c.mut_format().push_str("+x");
    assert_eq!(c.get_format(), "text/plain+x");
    assert_eq!(c.take_format(), "text/plain+x");
    assert!(!c.has_format());
    assert_eq!(c.take_data(), b"hi!".to_vec());
    assert!(!c.has_data());
    c.set_data(vec![1]);
    c.clear_data();
    assert!(!c.has_data());
    c.set_format("a".to_string());
    c.clear_format();
    assert!(!c.has_format());
    c.set_format("a".to_string());
    c.clear();
    assert!(!c.has_format());
}

#[test]
fn content_bytes_match_the_protobuf_encoder() {
    let c = content("text/plain", b"hello");
    let bytes = c.write_to_bytes();
    assert_eq!(bytes, reference_content("text/plain", b"hello"));
    assert_eq!(
        bytes,
        vec![0x0a, 10, b't', b'e', b'x', b't', b'/', b'p', b'l', b'a', b'i', b'n', 0x12, 5, b'h', b'e', b'l', b'l', b'o']
    );
    assert_eq!(c.compute_size(), bytes.len());
}

#[test]
fn content_roundtrip() {
    let c = content("image/png", &[0, 1, 2, 255]);
    let parsed = Content::parse_from_bytes(&c.write_to_bytes()).unwrap();
    assert_eq!(parsed.get_format(), "image/png");
    assert_eq!(parsed.get_data(), &[0, 1, 2, 255]);
}

#[test]
fn content_missing_required_field() {
    let mut c = Content::new();
    c.set_format("text/plain".to_string());
    let bytes = c.write_to_bytes();
    assert!(matches!(Content::parse_from_bytes(&bytes), Err(DecodeError::MissingRequiredField)));
    assert!(Content::merge_from(&bytes).is_ok());
}

#[test]
fn content_decode_errors() {
    assert!(matches!(Content::merge_from(&[0x0a, 5, b'a']), Err(DecodeError::Truncated)));
    assert!(matches!(Content::merge_from(&[0x0a]), Err(DecodeError::Truncated)));
    assert!(matches!(Content::merge_from(&[0x08, 1]), Err(DecodeError::UnexpectedWireType)));
    assert!(matches!(Content::merge_from(&[0x0a, 2, 0xff, 0xfe]), Err(DecodeError::InvalidUtf8)));
    assert!(matches!(Content::merge_from(&[0x00, 1]), Err(DecodeError::IncorrectTag)));
    assert!(matches!(Content::merge_from(&[0x1b]), Err(DecodeError::UnsupportedWireType)));
    let too_long = [0x18, 0xff, 0xff, 0xff, 0xff, 0xff, 0xff, 0xff, 0xff, 0xff, 0xff, 0x01];
    assert!(matches!(Content::merge_from(&too_long), Err(DecodeError::IncorrectVarint)));
}

#[test]
fn content_keeps_unknown_fields() {
    let mut bytes = reference_content("text/plain", b"x");
    bytes.extend_from_slice(&[0x18, 0x07]);
    let c = Content::parse_from_bytes(&bytes).unwrap();
    assert_eq!(c.write_to_bytes(), bytes);
}

#[test]
fn change_accessors() {
    let mut ch = Change::new();
    assert!(!ch.has_at());
    assert_eq!(ch.get_at(), 0);
    ch.set_at(42);
    assert!(ch.has_at());
    assert_eq!(ch.get_at(), 42);
    ch.clear_at();
    assert!(!ch.has_at());
    ch.set_content(vec![content("a/b", b"1")]);
    assert_eq!(ch.get_content().len(), 1);
    ch.mut_content().push(content("c/d", b"2"));
    assert_eq!(ch.get_content()[1].get_format(), "c/d");
    let taken = ch.take_content();
    assert_eq!(taken.len(), 2);
    assert_eq!(ch.get_content().len(), 0);
    ch.set_content(taken);
    ch.clear_content();
    assert_eq!(ch.get_content().len(), 0);
    ch.set_at(1);
    ch.clear();
    assert!(!ch.has_at());
    assert!(ch.is_initialized());
}

#[test]
fn change_bytes_match_the_protobuf_encoder() {
    let mut ch = Change::new();
    ch.set_at(1234567);
    ch.set_content(vec![content("text/plain", b"abc"), content("text/html", b"<b>abc</b>")]);
    let expected = reference_change(
        1234567,
        &[reference_content("text/plain", b"abc"), reference_content("text/html", b"<b>abc</b>")],
    );
    let bytes = ch.write_to_bytes();
    assert_eq!(bytes, expected);
    assert_eq!(ch.compute_size(), expected.len());
    let back = Change::parse_from_bytes(&bytes).unwrap();
    assert_eq!(back.get_at(), 1234567);
    assert_eq!(back.get_content().len(), 2);
    assert_eq!(back.get_content()[1].get_format(), "text/html");
    assert_eq!(back.get_content()[1].get_data(), b"<b>abc</b>");
}

#[test]
fn change_frame_roundtrip() {
    let mut ch = Change::new();
    ch.set_at(300);
    ch.set_content(vec![content("text/plain", b"x")]);
    let mut framed = ch.write_length_delimited_to_bytes();
    let body = ch.write_to_bytes();
    assert_eq!(framed[0] as usize, body.len());
    assert_eq!(&framed[1..], &body[..]);
    framed.extend_from_slice(&[9, 9, 9]);
    let (back, used) = Change::parse_length_delimited_from(&framed).unwrap();
    assert_eq!(used, body.len() + 1);
    assert_eq!(back.get_at(), 300);
    assert!(matches!(Change::parse_length_delimited_from(&framed[..3]), Err(DecodeError::Truncated)));
}

#[test]
fn handshake_identity_is_accepted() {
    let id = identity();
    assert_eq!(id.get_name(), "clipboard");
    assert!(verify(&id));
    let framed = id.write_length_delimited_to_bytes();
    let (back, used) = Identity::parse_length_delimited_from(&framed).unwrap();
    assert_eq!(used, framed.len());
    assert!(verify(&back));
}

#[test]
fn handshake_versions() {
    let make = |name: &str, major: u32, minor: u32, patch: u32| {
        let mut v = Version::new();
        v.set_major(major);
        v.set_minor(minor);
        v.set_patch(patch);
        let mut id = Identity::new();
        id.set_name(name.to_string());
        id.set_version(v);
        id
    };
    assert!(verify(&make("clipboard", VERSION_MAJOR, VERSION_MINOR, 0)));
    assert!(verify(&make("clipboard", VERSION_MAJOR, VERSION_MINOR, 1)));
    assert!(!verify(&make("clipboard", VERSION_MAJOR, VERSION_MINOR, 2)));
    assert!(!verify(&make("clipboard", VERSION_MAJOR + 1, VERSION_MINOR, 0)));
    assert!(!verify(&make("clipboard", VERSION_MAJOR, VERSION_MINOR + 1, 0)));
    assert!(!verify(&make("clipboards", VERSION_MAJOR, VERSION_MINOR, 0)));
    let mut bare = Identity::new();
    bare.set_name("clipboard".to_string());
    assert!(!verify(&bare));
}

#[test]
fn version_bytes_match_the_protobuf_encoder() {
    let mut v = Version::new();
    v.set_major(3);
    v.set_minor(200);
    v.set_patch(1);
    let mut out = Vec::new();
    v.write_to(&mut out);
    let mut expected = Vec::new();
    {
        let mut os = CodedOutputStream::vec(&mut expected);
        os.write_uint32(1, 3).unwrap();
        os.write_uint32(2, 200).unwrap();
        os.write_uint32(3, 1).unwrap();
        os.flush().unwrap();
    }
    assert_eq!(out, expected);
    let back = Version::merge_from(&out).unwrap();
    assert_eq!((back.get_major(), back.get_minor(), back.get_patch()), (3, 200, 1));
}

#[test]
fn content_merge_into_existing() {
    let mut c = content("text/plain", b"old");
    c.merge(&[0x12, 2, b'h', b'i']).unwrap();
    assert_eq!(c.get_format(), "text/plain");
    assert_eq!(c.get_data(), b"hi");
    c.merge(&reference_content("image/png", b"p")).unwrap();
    assert_eq!(c.get_format(), "image/png");
    assert_eq!(c.get_data(), b"p");
    c.merge(&[0x18, 0x07]).unwrap();
    let mut expected = reference_content("image/png", b"p");
    expected.extend_from_slice(&[0x18, 0x07]);
    assert_eq!(c.write_to_bytes(), expected);
}

#[test]
fn content_merge_error_keeps_message() {
    let mut c = content("text/plain", b"old");
    let before = c.clone();
    assert!(matches!(c.merge(&[0x12, 1, b'x', 0x0a, 5, b'a']), Err(DecodeError::Truncated)));
    assert_eq!(c, before);
}

#[test]
fn change_merge_into_existing() {
    let mut ch = Change::new();
    ch.set_at(1);
    ch.set_content(vec![content("a/b", b"1")]);
    ch.merge(&reference_change(9, &[reference_content("c/d", b"2")])).unwrap();
    assert_eq!(ch.get_at(), 9);
    assert_eq!(ch.get_content().len(), 2);
    assert_eq!(ch.get_content()[0].get_format(), "a/b");
    assert_eq!(ch.get_content()[1].get_format(), "c/d");
    assert_eq!(ch.get_content()[1].get_data(), b"2");
    ch.merge(&[]).unwrap();
    assert_eq!(ch.get_at(), 9);
    assert_eq!(ch.get_content().len(), 2);
}

#[test]
fn change_merge_error_keeps_message() {
    let mut ch = Change::new();
    ch.set_at(5);
    let before = ch.clone();
    assert!(matches!(ch.merge(&[0x08, 3, 0x12]), Err(DecodeError::Truncated)));
    assert_eq!(ch, before);
    assert!(matches!(ch.merge(&[0x0a, 0]), Err(DecodeError::UnexpectedWireType)));
    assert_eq!(ch, before);
}
