use symbiotic::connection::Peer;
use symbiotic::settings::{
    argument_peer, connection_peer, parse_mode, port_from_integer, settings_from_arguments, settings_from_config,
    Arguments, ConfigFile, ConnectionConfig, Mode, SettingsError,
};
use symbiotic::config::settings_from_text;
use symbiotic::platform::x11::{platform_settings, Mode as X11Mode};
use symbiotic::text::{human, parse_unsigned, split};

fn empty_config() -> ConfigFile {
    ConfigFile {
        mode: None,
        ip: None,
        port: None,
        cert: None,
        key: None,
        limit: None,
        filter: None,
        connections: vec![],
    }
}

fn empty_arguments() -> Arguments {
    Arguments {
        peers: vec![],
        bind: None,
        port: None,
        limit: None,
        filter: None,
        incoming: false,
        outgoing: false,
    }
}

#[test]
fn peer_default() {
    let p = Peer::default();
    assert_eq!(p.ip, "0.0.0.0");
    assert_eq!(p.port, 23421);
    assert_eq!(p.cert, None);
    assert_eq!(p.key, None);
}

#[test]
fn modes() {
    assert_eq!(parse_mode(&"both".to_string()), Some(Mode::Both));
    assert_eq!(parse_mode(&"incoming".to_string()), Some(Mode::Incoming));
    assert_eq!(parse_mode(&"outgoing".to_string()), Some(Mode::Outgoing));
    assert_eq!(parse_mode(&"Both".to_string()), None);
    assert_eq!(parse_mode(&"".to_string()), None);
}

#[test]
fn sizes() {
    assert_eq!(human("0"), Some(0));
    assert_eq!(human("123"), Some(123));
    assert_eq!(human("2K"), Some(2048));
    assert_eq!(human("3M"), Some(3 * 1024 * 1024));
    assert_eq!(human("1G"), Some(1024 * 1024 * 1024));
    assert_eq!(human("1T"), Some(1024usize.pow(4)));
    assert_eq!(human(""), None);
    assert_eq!(human("K"), None);
    assert_eq!(human("12KB"), None);
    assert_eq!(human("1.5K"), None);
    assert_eq!(human("-1"), None);
    assert_eq!(human("99999999999999999999999"), None);
}

#[test]
fn numbers() {
    assert_eq!(parse_unsigned("65535", 65535), Some(65535));
    assert_eq!(parse_unsigned("65536", 65535), None);
    assert_eq!(parse_unsigned("+7", 65535), Some(7));
    assert_eq!(parse_unsigned("", 65535), None);
    assert_eq!(parse_unsigned("1a", 65535), None);
}

#[test]
fn splitting() {
    assert_eq!(split("a:b:c", ':'), vec!["a", "b", "c"]);
    assert_eq!(split("", ':'), vec![""]);
    assert_eq!(split("a::b", ':'), vec!["a", "", "b"]);
    assert_eq!(split(":", ':'), vec!["", ""]);
    assert_eq!(split("text/*", ':'), vec!["text/*"]);
}

#[test]
fn ports_from_the_configuration_wrap() {
    assert_eq!(port_from_integer(80), 80);
    assert_eq!(port_from_integer(65536 + 22), 22);
    assert_eq!(port_from_integer(-1), 65535);
}

#[test]
fn connection_tables() {
    let p = connection_peer(&ConnectionConfig { ip: Some("10.0.0.2".to_string()), port: Some(4000), cert: None });
    assert_eq!(p.ip, "10.0.0.2");
    assert_eq!(p.port, 4000);
    let q = connection_peer(&ConnectionConfig { ip: None, port: None, cert: Some("peer.pem".to_string()) });
    assert_eq!(q.ip, "0.0.0.0");
    assert_eq!(q.port, 23421);
    assert_eq!(q.cert, Some("peer.pem".to_string()));
}

#[test]
fn configuration_defaults() {
    let s = settings_from_config(empty_config()).unwrap();
    assert_eq!(s.mode, Mode::Both);
    assert_eq!(s.limit, 0);
    assert!(s.filter.is_empty());
    assert!(s.peers.is_empty());
    assert_eq!(s.host.ip, "0.0.0.0");
    assert_eq!(s.host.port, 23421);
}

#[test]
fn configuration_values() {
    let mut c = empty_config();
    c.mode = Some("incoming".to_string());
    c.ip = Some("127.0.0.1".to_string());
    c.port = Some(9999);
    c.cert = Some("cert.pem".to_string());
    c.key = Some("key.pem".to_string());
    c.limit = Some("1K".to_string());
    c.filter = Some("image/*:text/html".to_string());
    c.connections = vec![ConnectionConfig { ip: Some("10.0.0.9".to_string()), port: None, cert: None }];
    let s = settings_from_config(c).unwrap();
    assert_eq!(s.mode, Mode::Incoming);
    assert_eq!(s.host.ip, "127.0.0.1");
    assert_eq!(s.host.port, 9999);
    assert_eq!(s.host.cert, Some("cert.pem".to_string()));
    assert_eq!(s.host.key, Some("key.pem".to_string()));
    assert_eq!(s.limit, 1024);
    assert_eq!(s.filter, vec!["image/*", "text/html"]);
    assert_eq!(s.peers.len(), 1);
    assert_eq!(s.peers[0].ip, "10.0.0.9");
    assert_eq!(s.peers[0].port, 23421);
}

#[test]
fn configuration_errors() {
    let mut c = empty_config();
    c.mode = Some("sideways".to_string());
    c.limit = Some("lots".to_string());
    assert!(matches!(settings_from_config(c), Err(SettingsError::UnknownMode)));
    let mut c = empty_config();
    c.limit = Some("lots".to_string());
    assert!(matches!(settings_from_config(c), Err(SettingsError::InvalidLimit)));
}

#[test]
fn argument_peers() {
    let p = argument_peer(&"192.168.1.4:5000".to_string()).unwrap();
    assert_eq!(p.ip, "192.168.1.4");
    assert_eq!(p.port, 5000);
    let q = argument_peer(&"192.168.1.5".to_string()).unwrap();
    assert_eq!(q.port, 23421);
    assert!(argument_peer(&"host:port".to_string()).is_none());
    assert!(argument_peer(&"host:70000".to_string()).is_none());
}

#[test]
fn command_line() {
    let mut a = empty_arguments();
    a.peers = vec!["10.0.0.1".to_string(), "10.0.0.2:1234".to_string()];
    a.bind = Some("127.0.0.1".to_string());
    a.port = Some("4242".to_string());
    a.limit = Some("10M".to_string());
    a.filter = Some("text/*".to_string());
    a.incoming = true;
    a.outgoing = true;
    let s = settings_from_arguments(a).unwrap();
    assert_eq!(s.mode, Mode::Outgoing);
    assert_eq!(s.host.ip, "127.0.0.1");
    assert_eq!(s.host.port, 4242);
    assert_eq!(s.limit, 10 * 1024 * 1024);
    assert_eq!(s.filter, vec!["text/*"]);
    assert_eq!(s.peers.len(), 2);
    assert_eq!(s.peers[1].port, 1234);
    let mut b = empty_arguments();
    b.incoming = true;
    assert_eq!(settings_from_arguments(b).unwrap().mode, Mode::Incoming);
    assert_eq!(settings_from_arguments(empty_arguments()).unwrap().mode, Mode::Both);
}

#[test]
fn command_line_errors() {
    let mut a = empty_arguments();
    a.port = Some("http".to_string());
    a.limit = Some("big".to_string());
    assert!(matches!(settings_from_arguments(a), Err(SettingsError::InvalidPort)));
    let mut a = empty_arguments();
    a.limit = Some("big".to_string());
    assert!(matches!(settings_from_arguments(a), Err(SettingsError::InvalidLimit)));
    let mut a = empty_arguments();
    a.peers = vec!["10.0.0.1:x".to_string()];
    assert!(matches!(settings_from_arguments(a), Err(SettingsError::InvalidPort)));
}

#[test]
fn config_text_is_read() {
    let text = "mode = \"incoming\"\nip = \"127.0.0.1\"\nport = 4000\nlimit = \"2K\"\nfilter = \"image/*:text/html\"\n\n[connection.b]\nip = \"10.0.0.2\"\n\n[connection.a]\nip = \"10.0.0.1\"\nport = 5000\ncert = \"a.pem\"\n\n[platform]\ndisplay = \":1\"\nmode = \"clipboard\"\n";
    let (s, platform) = settings_from_text(text).unwrap();
    assert_eq!(s.mode, Mode::Incoming);
    assert_eq!(s.host.ip, "127.0.0.1");
    assert_eq!(s.host.port, 4000);
    assert_eq!(s.limit, 2048);
    assert_eq!(s.filter, vec!["image/*".to_string(), "text/html".to_string()]);
    assert_eq!(s.peers.len(), 2);
    assert_eq!(s.peers[0].ip, "10.0.0.1");
    assert_eq!(s.peers[0].port, 5000);
    assert_eq!(s.peers[0].cert, Some("a.pem".to_string()));
    assert_eq!(s.peers[1].ip, "10.0.0.2");
    assert_eq!(s.peers[1].port, 23421);
    assert_eq!(platform_settings(&platform), Some((Some(":1".to_string()), X11Mode::Clipboard)));
}

#[test]
fn config_text_defaults() {
    let (s, platform) = settings_from_text("").unwrap();
    assert_eq!(s.mode, Mode::Both);
    assert_eq!(s.host.ip, "0.0.0.0");
    assert_eq!(s.host.port, 23421);
    assert_eq!(s.limit, 0);
    assert!(s.peers.is_empty());
    assert!(s.filter.is_empty());
    assert!(platform.is_none());
    assert_eq!(platform_settings(&platform), Some((None, X11Mode::Selection)));
}

#[test]
fn config_text_errors() {
    assert!(matches!(settings_from_text("mode = "), Err(SettingsError::ParseFailed)));
    assert!(matches!(settings_from_text("[[x"), Err(SettingsError::ParseFailed)));
    assert!(matches!(settings_from_text("port = \"80\""), Err(SettingsError::WrongType)));
    assert!(matches!(settings_from_text("ip = 1"), Err(SettingsError::WrongType)));
    assert!(matches!(settings_from_text("connection = 1"), Err(SettingsError::WrongType)));
    assert!(matches!(settings_from_text("[connection]\na = 1"), Err(SettingsError::WrongType)));
    assert!(matches!(settings_from_text("mode = \"sideways\""), Err(SettingsError::UnknownMode)));
    assert!(matches!(settings_from_text("limit = \"lots\""), Err(SettingsError::InvalidLimit)));
}

#[test]
fn platform_table_errors() {
    let (_, platform) = settings_from_text("[platform]\nmode = \"sideways\"").unwrap();
    assert_eq!(platform_settings(&platform), None);
    let (_, platform) = settings_from_text("[platform]\ndisplay = 3").unwrap();
    assert_eq!(platform_settings(&platform), None);
    let (_, platform) = settings_from_text("[platform]\nother = 3").unwrap();
    assert_eq!(platform_settings(&platform), Some((None, X11Mode::Selection)));
}
