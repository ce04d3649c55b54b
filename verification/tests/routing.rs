use std::sync::Arc;

use symbiotic::clipboard::Direction;
use symbiotic::routing::{filter_content, matches_any, pattern_is_valid, route, wildcard, Route};
use symbiotic::settings::Mode;

fn pairs(v: &[(&str, &[u8])]) -> Vec<(String, Vec<u8>)> {
    v.iter().map(|(k, d)| (k.to_string(), d.to_vec())).collect()
}

#[test]
fn wildcards() {
    assert_eq!(wildcard("image/*"), "^image/.*?$");
    assert_eq!(wildcard("text/?tml"), "^text/.tml$");
    assert_eq!(wildcard("application/x.y+z"), "^application/x.y\\+z$");
    assert_eq!(wildcard(""), "^$");
    assert_eq!(wildcard("*/*"), "^.*?/*$");
    assert_eq!(wildcard("a.b"), "^a.b$");
    assert_eq!(wildcard("x-y/*"), "^x\\-y/*$");
    assert_eq!(wildcard("text/plain"), "^text/plain$");
}

#[test]
fn patterns_compile() {
    assert!(pattern_is_valid(&wildcard("image/*")));
    assert!(pattern_is_valid(&"^a(b|c)$".to_string()));
    assert!(!pattern_is_valid(&"(".to_string()));
}

#[test]
fn matching() {
    let filter = vec![wildcard("image/*"), wildcard("text/html")];
    assert!(matches_any(&filter, &"image/png".to_string()));
    assert!(matches_any(&filter, &"text/html".to_string()));
    assert!(!matches_any(&filter, &"text/plain".to_string()));
    assert!(!matches_any(&filter, &"ximage/png".to_string()));
    assert!(!matches_any(&vec![], &"text/plain".to_string()));
}

#[test]
fn filtering_keeps_order() {
    let content = pairs(&[("text/plain", b"abc"), ("image/png", b"\x89PNG"), ("text/html", b"<p>abc</p>")]);
    let kept = filter_content(&content, &vec![wildcard("image/*")], 0);
    assert_eq!(kept, pairs(&[("text/plain", b"abc"), ("text/html", b"<p>abc</p>")]));
    let small = filter_content(&content, &vec![], 4);
    assert_eq!(small, pairs(&[("text/plain", b"abc")]));
    let all = filter_content(&content, &vec![], 0);
    assert_eq!(all, content);
}

#[test]
fn routes() {
    let change = Arc::new((7u64, pairs(&[("text/plain", b"a"), ("image/png", b"bb")])));
    let filter = vec![wildcard("image/*")];
    match route(Mode::Both, Direction::Incoming(change.clone()), &filter, 0) {
        Route::Clipboard(c) => assert_eq!(*c, *change),
        _ => panic!("an incoming change goes to the clipboard"),
    }
    assert!(matches!(route(Mode::Outgoing, Direction::Incoming(change.clone()), &filter, 0), Route::Dropped));
    match route(Mode::Outgoing, Direction::Outgoing(change.clone()), &filter, 0) {
        Route::Peers(c) => {
            assert_eq!(c.0, 7);
            assert_eq!(c.1, pairs(&[("text/plain", b"a")]));
        },
        _ => panic!("an outgoing change goes to the peers"),
    }
    assert!(matches!(route(Mode::Incoming, Direction::Outgoing(change.clone()), &filter, 0), Route::Dropped));
    match route(Mode::Incoming, Direction::Incoming(change.clone()), &vec![], 0) {
        Route::Clipboard(c) => assert_eq!(c.1.len(), 2),
        _ => panic!("an incoming change goes to the clipboard"),
    }
}

#[test]
fn filtering_twice_changes_nothing() {
    let content = pairs(&[("text/plain", b"abc"), ("image/png", b"\x89PNG"), ("text/html", b"<p>abcdef</p>")]);
    let filter = vec![wildcard("image/*")];
    let once = filter_content(&content, &filter, 8);
    assert_eq!(once, pairs(&[("text/plain", b"abc")]));
    assert_eq!(filter_content(&once, &filter, 8), once);
}
