//! What the program is told to do, from its command line or its
//! configuration file.

use vstd::prelude::*;

use crate::connection::{DEFAULT_PORT, Peer, PeerModel, default_ip, opt_view, peers_view};
use crate::text::{human, parse_unsigned, spec_human, spec_parse_unsigned, split, split_spec, strings_view};

verus! {

/// Which changes are shared.
#[derive(Clone, Copy, Debug, PartialEq, Eq, Structural)]
pub enum Mode {
    /// Changes go both ways.
    Both,
    /// Only changes from peers are applied; local ones are not sent.
    Incoming,
    /// Only local changes are sent; changes from peers are not applied.
    Outgoing,
}

/// The mode a configuration word names.
pub open spec fn spec_mode(s: Seq<char>) -> Option<Mode> {
    if s == seq!['b', 'o', 't', 'h'] {
        Some(Mode::Both)
    } else if s == seq!['i', 'n', 'c', 'o', 'm', 'i', 'n', 'g'] {
        Some(Mode::Incoming)
    } else if s == seq!['o', 'u', 't', 'g', 'o', 'i', 'n', 'g'] {
        Some(Mode::Outgoing)
    } else {
        None
    }
}

/// Reads a mode: `both`, `incoming` or `outgoing`.
pub fn parse_mode(s: &String) -> (r: Option<Mode>)
    ensures
        r == spec_mode(s@),
{
    let both = String::from_str("both");
    let incoming = String::from_str("incoming");
    let outgoing = String::from_str("outgoing");
    proof {
        reveal_strlit("both");
        reveal_strlit("incoming");
        reveal_strlit("outgoing");
    }
    assert(both@ =~= seq!['b', 'o', 't', 'h']);
    assert(incoming@ =~= seq!['i', 'n', 'c', 'o', 'm', 'i', 'n', 'g']);
    assert(outgoing@ =~= seq!['o', 'u', 't', 'g', 'o', 'i', 'n', 'g']);
    if *s == both {
        Some(Mode::Both)
    } else if *s == incoming {
        Some(Mode::Incoming)
    } else if *s == outgoing {
        Some(Mode::Outgoing)
    } else {
        None
    }
}

/// Why the command line or the configuration cannot be used.
#[derive(Clone, Copy, Debug, PartialEq, Eq, Structural)]
pub enum SettingsError {
    /// The mode is none of `both`, `incoming`, `outgoing`.
    UnknownMode,
    /// The size limit is not a size.
    InvalidLimit,
    /// A port is not a number from 0 to 65535.
    InvalidPort,
    /// The configuration file is not TOML.
    ParseFailed,
    /// A value of the configuration file has the wrong type: a string where
    /// a number is wanted, or the other way round, or a table where neither.
    WrongType,
}

/// Everything the program runs with.
pub struct Settings {
    /// Where to listen, with this computer's certificate and key.
    pub host: Peer,
    /// The computers to share the clipboard with.
    pub peers: Vec<Peer>,
    pub mode: Mode,
    /// The largest data sent for one format, exclusive; zero for no limit.
    pub limit: usize,
    /// Patterns of the MIME types not to send.
    pub filter: Vec<String>,
}

/// A `[connection.*]` table of the configuration file.
pub struct ConnectionConfig {
    pub ip: Option<String>,
    pub port: Option<i64>,
    pub cert: Option<String>,
}

/// The mathematical content of a [`ConnectionConfig`].
pub struct ConnectionModel {
    pub ip: Option<Seq<char>>,
    pub port: Option<i64>,
    pub cert: Option<Seq<char>>,
}

impl View for ConnectionConfig {
    type V = ConnectionModel;

    open spec fn view(&self) -> ConnectionModel {
        ConnectionModel { ip: opt_view(self.ip), port: self.port, cert: opt_view(self.cert) }
    }
}

/// The views of a sequence of `[connection.*]` tables.
pub open spec fn connections_view(cs: Seq<ConnectionConfig>) -> Seq<ConnectionModel> {
    cs.map_values(|c: ConnectionConfig| c@)
}

/// The mathematical content of a [`ConfigFile`].
pub struct ConfigFileModel {
    pub mode: Option<Seq<char>>,
    pub ip: Option<Seq<char>>,
    pub port: Option<i64>,
    pub cert: Option<Seq<char>>,
    pub key: Option<Seq<char>>,
    pub limit: Option<Seq<char>>,
    pub filter: Option<Seq<char>>,
    pub connections: Seq<ConnectionModel>,
}

impl View for ConfigFile {
    type V = ConfigFileModel;

    open spec fn view(&self) -> ConfigFileModel {
        ConfigFileModel {
            mode: opt_view(self.mode),
            ip: opt_view(self.ip),
            port: self.port,
            cert: opt_view(self.cert),
            key: opt_view(self.key),
            limit: opt_view(self.limit),
            filter: opt_view(self.filter),
            connections: connections_view(self.connections@),
        }
    }
}

/// The values of the configuration file that the program reads.
pub struct ConfigFile {
    pub mode: Option<String>,
    pub ip: Option<String>,
    pub port: Option<i64>,
    pub cert: Option<String>,
    pub key: Option<String>,
    pub limit: Option<String>,
    pub filter: Option<String>,
    pub connections: Vec<ConnectionConfig>,
}

/// A configured port: the integer taken modulo 65536, as a cast to `u16`
/// does.
pub open spec fn config_port(p: i64) -> u16 {
    (p as int % 65536) as u16
}

/// Takes a configured integer to a port; see [`config_port`].
pub fn port_from_integer(p: i64) -> (r: u16)
    ensures
        r == config_port(p),
{
    let m: i64 = p % 65536;
    let m: i64 = if m < 0 {
        m + 65536
    } else {
        m
    };
    m as u16
}

/// The peer a `[connection.*]` table describes; what it leaves out is the
/// default.
pub open spec fn spec_connection_peer(c: ConnectionModel) -> PeerModel {
    PeerModel {
        ip: match c.ip {
            Some(s) => s,
            None => default_ip(),
        },
        port: match c.port {
            Some(p) => config_port(p),
            None => DEFAULT_PORT,
        },
        cert: c.cert,
        key: None,
    }
}

/// A copy of an optional string.
pub fn copy_opt(s: &Option<String>) -> (r: Option<String>)
    ensures
        opt_view(r) == opt_view(*s),
{
    match s {
        Some(x) => Some(x.clone()),
        None => None,
    }
}

/// Builds the peer a `[connection.*]` table describes.
pub fn connection_peer(c: &ConnectionConfig) -> (r: Peer)
    ensures
        r@ == spec_connection_peer(c@),
{
    let mut peer = Peer::default();
    if let Some(ip) = &c.ip {
        peer.ip = ip.clone();
    }
    if let Some(p) = c.port {
        peer.port = port_from_integer(p);
    }
    peer.cert = copy_opt(&c.cert);
    peer
}

/// The views of the patterns of a filter list.
pub open spec fn filter_from(f: Option<Seq<char>>) -> Seq<Seq<char>> {
    match f {
        Some(s) => split_spec(s, ':'),
        None => Seq::empty(),
    }
}

/// What reading the configuration `m` gives: an unknown mode is refused, then
/// a bad limit; otherwise the settings are `mode` (default `both`), `ip`,
/// `port` (an integer taken modulo 65536), `cert`, `key`, `limit` (a size,
/// default none), `filter` (`:`-separated patterns) and the peers of the
/// `[connection.*]` tables, in order.
pub open spec fn config_outcome(m: ConfigFileModel, r: Result<Settings, SettingsError>) -> bool {
    &&& (m.mode matches Some(x) && spec_mode(x) is None ==> r == Err::<Settings, SettingsError>(
        SettingsError::UnknownMode,
    ))
    &&& ((m.mode matches Some(x) ==> spec_mode(x) is Some) && (m.limit matches Some(l) && spec_human(l) is None)
        ==> r == Err::<Settings, SettingsError>(SettingsError::InvalidLimit))
    &&& ((m.mode matches Some(x) ==> spec_mode(x) is Some) && (m.limit matches Some(l) ==> spec_human(l) is Some)
        ==> r is Ok)
    &&& (r matches Ok(st) ==> {
        &&& st.mode == (match m.mode {
            Some(x) => spec_mode(x)->0,
            None => Mode::Both,
        })
        &&& st.host@.ip == (match m.ip {
            Some(s) => s,
            None => default_ip(),
        })
        &&& st.host@.port == (match m.port {
            Some(p) => config_port(p),
            None => DEFAULT_PORT,
        })
        &&& st.host@.cert == m.cert
        &&& st.host@.key == m.key
        &&& st.limit == (match m.limit {
            Some(l) => spec_human(l)->0 as usize,
            None => 0usize,
        })
        &&& strings_view(st.filter@) == filter_from(m.filter)
        &&& peers_view(st.peers@) == m.connections.map_values(|c: ConnectionModel| spec_connection_peer(c))
    })
}

/// Reads the settings of a configuration file; see [`config_outcome`].
pub fn settings_from_config(cfg: ConfigFile) -> (r: Result<Settings, SettingsError>)
    ensures
        config_outcome(cfg@, r),
{
    let mut mode = Mode::Both;
    if let Some(m) = &cfg.mode {
        match parse_mode(m) {
            Some(x) => {
                mode = x;
            },
            None => return Err(SettingsError::UnknownMode),
        }
    }
    let mut host = Peer::default();
    if let Some(ip) = cfg.ip {
        host.ip = ip;
    }
    if let Some(p) = cfg.port {
        host.port = port_from_integer(p);
    }
    host.cert = cfg.cert;
    host.key = cfg.key;
    let mut limit: usize = 0;
    if let Some(l) = &cfg.limit {
        match human(l.as_str()) {
            Some(v) => {
                limit = v;
            },
            None => return Err(SettingsError::InvalidLimit),
        }
    }
    let filter = match &cfg.filter {
        Some(f) => split(f.as_str(), ':'),
        None => Vec::new(),
    };
    assert(cfg.filter is None ==> strings_view(filter@) =~= Seq::<Seq<char>>::empty());
    let ghost m = cfg@;
    let ghost conns = cfg.connections@;
    let ghost target = connections_view(conns).map_values(|c: ConnectionModel| spec_connection_peer(c));
    let mut peers: Vec<Peer> = Vec::new();
    let mut i: usize = 0;
    while i < cfg.connections.len()
        invariant
            conns == cfg.connections@,
            target == connections_view(conns).map_values(|c: ConnectionModel| spec_connection_peer(c)),
            i <= conns.len(),
            peers_view(peers@) =~= target.take(i as int),
        decreases cfg.connections.len() - i,
    {
        let p = connection_peer(&cfg.connections[i]);
        assert(connections_view(conns)[i as int] == cfg.connections@[i as int]@);
        let ghost before = peers@;
        peers.push(p);
        assert(peers_view(peers@) =~= peers_view(before).push(p@));
        assert(target.take(i + 1) =~= target.take(i as int).push(p@));
        i = i + 1;
    }
    assert(target.take(conns.len() as int) =~= target);
    let r = Ok(Settings { host, peers, mode, limit, filter });
    assert(config_outcome(m, r));
    r
}

/// The values of the command line that the program reads.
pub struct Arguments {
    /// `ip` or `ip:port` of each peer.
    pub peers: Vec<String>,
    pub bind: Option<String>,
    pub port: Option<String>,
    pub limit: Option<String>,
    pub filter: Option<String>,
    pub incoming: bool,
    pub outgoing: bool,
}

/// The peer an `ip` or `ip:port` argument names: the text before the first
/// `:` is the address, the text after it, up to a second `:`, the port.
pub open spec fn spec_argument_peer(s: Seq<char>) -> Option<PeerModel> {
    let parts = split_spec(s, ':');
    if parts.len() > 1 {
        match spec_parse_unsigned(parts[1], 65535) {
            Some(p) => Some(PeerModel { ip: parts[0], port: p as u16, cert: None, key: None }),
            None => None,
        }
    } else {
        Some(PeerModel { ip: parts[0], port: DEFAULT_PORT, cert: None, key: None })
    }
}

/// Reads an `ip` or `ip:port` argument; see [`spec_argument_peer`].
pub fn argument_peer(s: &String) -> (r: Option<Peer>)
    ensures
        match spec_argument_peer(s@) {
            Some(m) => r matches Some(p) && p@ == m,
            None => r is None,
        },
{
    let parts = split(s.as_str(), ':');
    proof {
        crate::text::lemma_split_len(s@, ':');
    }
    let mut peer = Peer::default();
    assert(strings_view(parts@)[0] == parts@[0]@);
    peer.ip = parts[0].clone();
    if parts.len() > 1 {
        assert(strings_view(parts@)[1] == parts@[1]@);
        match parse_unsigned(parts[1].as_str(), 65535) {
            Some(p) => {
                peer.port = p as u16;
            },
            None => return None,
        }
    }
    Some(peer)
}

/// Whether every peer argument can be read.
pub open spec fn arguments_peers_ok(ps: Seq<String>) -> bool {
    forall|i: int| 0 <= i < ps.len() ==> spec_argument_peer((#[trigger] ps[i])@) is Some
}

/// Reads the settings of the command line: `--port` (a number from 0 to
/// 65535), `--bind`, `--limit` (a size), `--filter` (`:`-separated
/// patterns), `--incoming` and `--outgoing` (the latter wins when both are
/// given) and the peers. A bad port is reported before a bad limit, and a bad
/// limit before a bad peer.
pub fn settings_from_arguments(args: Arguments) -> (r: Result<Settings, SettingsError>)
    ensures
        args.port matches Some(p) && spec_parse_unsigned(p@, 65535) is None ==> r == Err::<
            Settings,
            SettingsError,
        >(SettingsError::InvalidPort),
        (args.port matches Some(p) ==> spec_parse_unsigned(p@, 65535) is Some) && (
        args.limit matches Some(l) && spec_human(l@) is None) ==> r == Err::<Settings, SettingsError>(
            SettingsError::InvalidLimit,
        ),
        (args.port matches Some(p) ==> spec_parse_unsigned(p@, 65535) is Some) && (
        args.limit matches Some(l) ==> spec_human(l@) is Some) && !arguments_peers_ok(args.peers@)
            ==> r == Err::<Settings, SettingsError>(SettingsError::InvalidPort),
        (args.port matches Some(p) ==> spec_parse_unsigned(p@, 65535) is Some) && (
        args.limit matches Some(l) ==> spec_human(l@) is Some) && arguments_peers_ok(args.peers@)
            ==> r is Ok,
        r matches Ok(st) ==> {
            &&& st.mode == (if args.outgoing {
                Mode::Outgoing
            } else if args.incoming {
                Mode::Incoming
            } else {
                Mode::Both
            })
            &&& st.host@.ip == (match args.bind {
                Some(s) => s@,
                None => default_ip(),
            })
            &&& st.host@.port == (match args.port {
                Some(p) => spec_parse_unsigned(p@, 65535)->0 as u16,
                None => DEFAULT_PORT,
            })
            &&& st.host@.cert is None
            &&& st.host@.key is None
            &&& st.limit == (match args.limit {
                Some(l) => spec_human(l@)->0 as usize,
                None => 0usize,
            })
            &&& strings_view(st.filter@) == filter_from(opt_view(args.filter))
            &&& peers_view(st.peers@) == args.peers@.map_values(
                |s: String| spec_argument_peer(s@)->0,
            )
        },
{
    let mut host = Peer::default();
    if let Some(p) = &args.port {
        match parse_unsigned(p.as_str(), 65535) {
            Some(v) => {
                host.port = v as u16;
            },
            None => return Err(SettingsError::InvalidPort),
        }
    }
    if let Some(b) = args.bind {
        host.ip = b;
    }
    let mut limit: usize = 0;
    if let Some(l) = &args.limit {
        match human(l.as_str()) {
            Some(v) => {
                limit = v;
            },
            None => return Err(SettingsError::InvalidLimit),
        }
    }
    let filter = match &args.filter {
        Some(f) => split(f.as_str(), ':'),
        None => Vec::new(),
    };
    assert(args.filter is None ==> strings_view(filter@) =~= Seq::<Seq<char>>::empty());
    let mut mode = Mode::Both;
    if args.incoming {
        mode = Mode::Incoming;
    }
    if args.outgoing {
        mode = Mode::Outgoing;
    }
    let ghost ps = args.peers@;
    let ghost target = ps.map_values(|s: String| spec_argument_peer(s@)->0);
    let mut peers: Vec<Peer> = Vec::new();
    let mut i: usize = 0;
    while i < args.peers.len()
        invariant
            ps == args.peers@,
            target == ps.map_values(|s: String| spec_argument_peer(s@)->0),
            args.limit matches Some(l) ==> spec_human(l@) is Some,
            args.port matches Some(p) ==> spec_parse_unsigned(p@, 65535) is Some,
            i <= ps.len(),
            forall|j: int| 0 <= j < i ==> spec_argument_peer((#[trigger] ps[j])@) is Some,
            peers_view(peers@) =~= target.take(i as int),
        decreases args.peers.len() - i,
    {
        match argument_peer(&args.peers[i]) {
            Some(p) => {
                let ghost before = peers@;
                peers.push(p);
                assert(peers_view(peers@) =~= peers_view(before).push(p@));
                assert(target.take(i + 1) =~= target.take(i as int).push(p@));
            },
            None => return Err(SettingsError::InvalidPort),
        }
        i = i + 1;
    }
    assert(target.take(ps.len() as int) =~= target);
    Ok(Settings { host, peers, mode, limit, filter })
}

} // verus!
