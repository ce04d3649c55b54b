//! The configuration file: its TOML text, parsed by the `toml` crate into
//! plain values, and the settings read from them.

use toml::Table;
use toml::Value::{Integer, String as Text, Table as Nested};
use vstd::prelude::*;

use crate::connection::opt_view;
use crate::settings::{
    config_outcome, settings_from_config, ConfigFile, ConfigFileModel, ConnectionConfig, ConnectionModel,
    Settings, SettingsError, connections_view,
};

verus! {

/// A value that is not a table: a string, an integer, or anything else
/// (a float, a boolean, a date, an array).
pub enum ConfigScalar {
    Str(String),
    Int(i64),
    Other,
}

/// The mathematical content of a [`ConfigScalar`].
pub enum ScalarModel {
    Str(Seq<char>),
    Int(i64),
    Other,
}

impl View for ConfigScalar {
    type V = ScalarModel;

    open spec fn view(&self) -> ScalarModel {
        match self {
            ConfigScalar::Str(s) => ScalarModel::Str(s@),
            ConfigScalar::Int(i) => ScalarModel::Int(*i),
            ConfigScalar::Other => ScalarModel::Other,
        }
    }
}

/// A value inside a top-level table: a scalar, or a table of scalars (a
/// table deeper down shows as [`ConfigScalar::Other`]).
pub enum ConfigInner {
    Scalar(ConfigScalar),
    Table(Vec<(String, ConfigScalar)>),
}

/// The mathematical content of a [`ConfigInner`].
pub enum InnerModel {
    Scalar(ScalarModel),
    Table(Seq<(Seq<char>, ScalarModel)>),
}

/// The views of the entries of a table of scalars.
pub open spec fn scalars_view(t: Seq<(String, ConfigScalar)>) -> Seq<(Seq<char>, ScalarModel)> {
    t.map_values(|e: (String, ConfigScalar)| (e.0@, e.1@))
}

impl View for ConfigInner {
    type V = InnerModel;

    open spec fn view(&self) -> InnerModel {
        match self {
            ConfigInner::Scalar(s) => InnerModel::Scalar(s@),
            ConfigInner::Table(t) => InnerModel::Table(scalars_view(t@)),
        }
    }
}

/// A top-level value of the configuration file: a scalar or a table.
pub enum ConfigValue {
    Scalar(ConfigScalar),
    Table(Vec<(String, ConfigInner)>),
}

/// The mathematical content of a [`ConfigValue`].
pub enum ValueModel {
    Scalar(ScalarModel),
    Table(Seq<(Seq<char>, InnerModel)>),
}

/// The views of the entries of a table of inner values.
pub open spec fn inners_view(t: Seq<(String, ConfigInner)>) -> Seq<(Seq<char>, InnerModel)> {
    t.map_values(|e: (String, ConfigInner)| (e.0@, e.1@))
}

impl View for ConfigValue {
    type V = ValueModel;

    open spec fn view(&self) -> ValueModel {
        match self {
            ConfigValue::Scalar(s) => ValueModel::Scalar(s@),
            ConfigValue::Table(t) => ValueModel::Table(inners_view(t@)),
        }
    }
}

/// The views of the entries of the top-level table.
pub open spec fn table_view(t: Seq<(String, ConfigValue)>) -> Seq<(Seq<char>, ValueModel)> {
    t.map_values(|e: (String, ConfigValue)| (e.0@, e.1@))
}

/// The top-level table that the `toml` crate parses from `text`, as
/// (key, value) entries; `None` where the text is not TOML.
pub uninterp spec fn toml_table(text: Seq<char>) -> Option<Seq<(Seq<char>, ValueModel)>>;

/// Parses `text` as a TOML table with `str::parse::<toml::Table>` and
/// converts each value one for one: strings, integers and tables to their
/// variants, every other kind to `Other`. What the parser accepts and
/// produces is named, not stated.
#[verifier::external_body]
pub(crate) fn parse_config_text(text: &str) -> (r: Option<Vec<(String, ConfigValue)>>)
    ensures
        match r {
            Some(t) => toml_table(text@) == Some(table_view(t@)),
            None => toml_table(text@) is None,
        },
{
    let s = |v| match v { Text(x) => ConfigScalar::Str(x), Integer(i) => ConfigScalar::Int(i), _ => ConfigScalar::Other };
    let inner = |v| match v { Nested(t) => ConfigInner::Table(t.into_iter().map(|(k, v)| (k, s(v))).collect()), v => ConfigInner::Scalar(s(v)) };
    let t: Table = text.parse().ok()?;
    Some(t.into_iter().map(|(k, v)| (k, match v { Nested(t) => ConfigValue::Table(t.into_iter().map(|(k, v)| (k, inner(v))).collect()), v => ConfigValue::Scalar(s(v)) })).collect())
}

// ---------------------------------------------------------------- lookups

/// The keys of a table's entries, in order.
pub open spec fn keys_of<V>(t: Seq<(Seq<char>, V)>) -> Seq<Seq<char>> {
    t.map_values(|e: (Seq<char>, V)| e.0)
}

/// The index of the first key `k`, if any.
pub open spec fn first_index(keys: Seq<Seq<char>>, k: Seq<char>) -> Option<int>
    decreases keys.len(),
{
    if keys.len() == 0 {
        None
    } else if keys[0] == k {
        Some(0)
    } else {
        match first_index(keys.drop_first(), k) {
            Some(i) => Some(i + 1),
            None => None,
        }
    }
}

/// The value of the first entry with key `k`, if any.
pub open spec fn entry_of<V>(t: Seq<(Seq<char>, V)>, k: Seq<char>) -> Option<V> {
    match first_index(keys_of(t), k) {
        Some(i) => Some(t[i].1),
        None => None,
    }
}

proof fn lemma_first_index(keys: Seq<Seq<char>>, k: Seq<char>, i: int)
    requires
        0 <= i <= keys.len(),
        forall|j: int| 0 <= j < i ==> keys[j] != k,
    ensures
        i < keys.len() && keys[i] == k ==> first_index(keys, k) == Some(i),
        i == keys.len() ==> first_index(keys, k) is None,
    decreases i,
{
    if i > 0 {
        let rest = keys.drop_first();
        assert forall|j: int| 0 <= j < i - 1 implies rest[j] != k by {
            assert(rest[j] == keys[j + 1]);
        }
        lemma_first_index(rest, k, i - 1);
    } else if keys.len() > 0 && i < keys.len() && keys[i] != k {
    }
}

/// The keys of a table's entries as strings, in order.
pub open spec fn string_keys<V>(t: Seq<(String, V)>) -> Seq<Seq<char>> {
    t.map_values(|e: (String, V)| e.0@)
}

proof fn lemma_first_index_range(keys: Seq<Seq<char>>, k: Seq<char>)
    ensures
        first_index(keys, k) matches Some(i) ==> 0 <= i < keys.len() && keys[i] == k,
    decreases keys.len(),
{
    if keys.len() > 0 && keys[0] != k {
        lemma_first_index_range(keys.drop_first(), k);
    }
}

/// The index of the first entry with key `k`; see [`first_index`].
pub(crate) fn find_key<V>(t: &Vec<(String, V)>, k: &str) -> (r: Option<usize>)
    ensures
        r matches Some(j) ==> first_index(string_keys(t@), k@) == Some(j as int) && j < t@.len(),
        r is None ==> first_index(string_keys(t@), k@) is None,
{
    let ghost keys = string_keys(t@);
    proof {
        lemma_first_index_range(keys, k@);
    }
    let mut i: usize = 0;
    while i < t.len()
        invariant
            keys == string_keys(t@),
            i <= t@.len(),
            forall|j: int| 0 <= j < i ==> keys[j] != k@,
        decreases t.len() - i,
    {
        if crate::entries::str_eq(t[i].0.as_str(), k) {
            proof {
                lemma_first_index(keys, k@, i as int);
            }
            return Some(i);
        }
        i = i + 1;
    }
    proof {
        lemma_first_index(keys, k@, i as int);
    }
    None
}

// ---------------------------------------------------------------- fields

/// A string field: absent, a string, or of the wrong type.
pub open spec fn str_field(v: Option<ScalarModel>) -> Result<Option<Seq<char>>, SettingsError> {
    match v {
        None => Ok(None),
        Some(ScalarModel::Str(s)) => Ok(Some(s)),
        Some(_) => Err(SettingsError::WrongType),
    }
}

/// An integer field: absent, an integer, or of the wrong type.
pub open spec fn int_field(v: Option<ScalarModel>) -> Result<Option<i64>, SettingsError> {
    match v {
        None => Ok(None),
        Some(ScalarModel::Int(i)) => Ok(Some(i)),
        Some(_) => Err(SettingsError::WrongType),
    }
}

/// A top-level value as a scalar field: a table is of the wrong type.
pub open spec fn top_scalar(v: Option<ValueModel>) -> Option<ScalarModel> {
    match v {
        None => None,
        Some(ValueModel::Scalar(s)) => Some(s),
        Some(ValueModel::Table(_)) => Some(ScalarModel::Other),
    }
}

/// A `[connection.*]` table: its `ip`, `port` and `cert`.
pub open spec fn connection_of(v: InnerModel) -> Result<ConnectionModel, SettingsError> {
    match v {
        InnerModel::Table(fs) => {
            let ip = str_field(entry_of(fs, "ip"@));
            let port = int_field(entry_of(fs, "port"@));
            let cert = str_field(entry_of(fs, "cert"@));
            if ip is Ok && port is Ok && cert is Ok {
                Ok(ConnectionModel { ip: ip->Ok_0, port: port->Ok_0, cert: cert->Ok_0 })
            } else {
                Err(SettingsError::WrongType)
            }
        },
        InnerModel::Scalar(_) => Err(SettingsError::WrongType),
    }
}

/// The `[connection.*]` tables, in key order.
pub open spec fn connections_of(es: Seq<(Seq<char>, InnerModel)>) -> Result<Seq<ConnectionModel>, SettingsError>
    decreases es.len(),
{
    if es.len() == 0 {
        Ok(Seq::empty())
    } else {
        match (connections_of(es.drop_last()), connection_of(es.last().1)) {
            (Ok(cs), Ok(c)) => Ok(cs.push(c)),
            _ => Err(SettingsError::WrongType),
        }
    }
}

/// The `connection` value: absent, a table of tables, or of the wrong type.
pub open spec fn connections_field(v: Option<ValueModel>) -> Result<Seq<ConnectionModel>, SettingsError> {
    match v {
        None => Ok(Seq::empty()),
        Some(ValueModel::Table(es)) => connections_of(es),
        Some(ValueModel::Scalar(_)) => Err(SettingsError::WrongType),
    }
}

/// The values the program reads from the configuration's table: `mode`,
/// `ip`, `cert`, `key`, `limit` and `filter` as strings, `port` as an
/// integer, and the `[connection.*]` tables; a value of the wrong type is
/// refused.
pub open spec fn config_of(t: Seq<(Seq<char>, ValueModel)>) -> Result<ConfigFileModel, SettingsError> {
    let mode = str_field(top_scalar(entry_of(t, "mode"@)));
    let ip = str_field(top_scalar(entry_of(t, "ip"@)));
    let port = int_field(top_scalar(entry_of(t, "port"@)));
    let cert = str_field(top_scalar(entry_of(t, "cert"@)));
    let key = str_field(top_scalar(entry_of(t, "key"@)));
    let limit = str_field(top_scalar(entry_of(t, "limit"@)));
    let filter = str_field(top_scalar(entry_of(t, "filter"@)));
    let connections = connections_field(entry_of(t, "connection"@));
    if mode is Ok && ip is Ok && port is Ok && cert is Ok && key is Ok && limit is Ok && filter is Ok
        && connections is Ok {
        Ok(
            ConfigFileModel {
                mode: mode->Ok_0,
                ip: ip->Ok_0,
                port: port->Ok_0,
                cert: cert->Ok_0,
                key: key->Ok_0,
                limit: limit->Ok_0,
                filter: filter->Ok_0,
                connections: connections->Ok_0,
            },
        )
    } else {
        Err(SettingsError::WrongType)
    }
}

/// Each value is read from the entry of its own name: where the table's
/// first `key` entry is the string `k`, the key read is `Some(k)`, whatever
/// `cert` holds, and likewise for `mode`, `ip`, `cert`, `limit`, `filter` and
/// the integer `port`; an absent entry reads as none.
pub proof fn lemma_config_reads_own_keys(t: Seq<(Seq<char>, ValueModel)>)
    requires
        config_of(t) is Ok,
    ensures
        ({
            let m = config_of(t)->Ok_0;
            &&& entry_of(t, "key"@) matches Some(ValueModel::Scalar(ScalarModel::Str(k))) ==> m.key
                == Some(k)
            &&& entry_of(t, "key"@) is None ==> m.key is None
            &&& entry_of(t, "cert"@) matches Some(ValueModel::Scalar(ScalarModel::Str(c))) ==> m.cert
                == Some(c)
            &&& entry_of(t, "cert"@) is None ==> m.cert is None
            &&& entry_of(t, "ip"@) matches Some(ValueModel::Scalar(ScalarModel::Str(a))) ==> m.ip
                == Some(a)
            &&& entry_of(t, "ip"@) is None ==> m.ip is None
            &&& entry_of(t, "mode"@) matches Some(ValueModel::Scalar(ScalarModel::Str(x))) ==> m.mode
                == Some(x)
            &&& entry_of(t, "mode"@) is None ==> m.mode is None
            &&& entry_of(t, "limit"@) matches Some(ValueModel::Scalar(ScalarModel::Str(l))) ==> m.limit
                == Some(l)
            &&& entry_of(t, "limit"@) is None ==> m.limit is None
            &&& entry_of(t, "filter"@) matches Some(ValueModel::Scalar(ScalarModel::Str(f)))
                ==> m.filter == Some(f)
            &&& entry_of(t, "filter"@) is None ==> m.filter is None
            &&& entry_of(t, "port"@) matches Some(ValueModel::Scalar(ScalarModel::Int(p))) ==> m.port
                == Some(p)
            &&& entry_of(t, "port"@) is None ==> m.port is None
            &&& entry_of(t, "connection"@) is None ==> m.connections.len() == 0
        }),
{
}

/// The host of the settings read from a table is named by that table's own
/// entries: its address is the `ip` string, its certificate the `cert`
/// string and its private key the `key` string, each where there is one.
pub proof fn lemma_host_from_own_keys(t: Seq<(Seq<char>, ValueModel)>, st: Settings)
    requires
        config_of(t) is Ok,
        config_outcome(config_of(t)->Ok_0, Ok(st)),
    ensures
        entry_of(t, "key"@) matches Some(ValueModel::Scalar(ScalarModel::Str(k))) ==> st.host@.key
            == Some(k),
        entry_of(t, "key"@) is None ==> st.host@.key is None,
        entry_of(t, "cert"@) matches Some(ValueModel::Scalar(ScalarModel::Str(c))) ==> st.host@.cert
            == Some(c),
        entry_of(t, "cert"@) is None ==> st.host@.cert is None,
        entry_of(t, "ip"@) matches Some(ValueModel::Scalar(ScalarModel::Str(a))) ==> st.host@.ip
            == a,
{
    lemma_config_reads_own_keys(t);
}

/// Each `[connection.*]` table is read from its own entries: its `ip`,
/// `port` and `cert` where it has them, none where it has not.
pub proof fn lemma_connection_reads_own_keys(fs: Seq<(Seq<char>, ScalarModel)>)
    requires
        connection_of(InnerModel::Table(fs)) is Ok,
    ensures
        ({
            let c = connection_of(InnerModel::Table(fs))->Ok_0;
            &&& entry_of(fs, "ip"@) matches Some(ScalarModel::Str(a)) ==> c.ip
                == Some(a)
            &&& entry_of(fs, "ip"@) is None ==> c.ip is None
            &&& entry_of(fs, "port"@) matches Some(ScalarModel::Int(p)) ==> c.port
                == Some(p)
            &&& entry_of(fs, "port"@) is None ==> c.port is None
            &&& entry_of(fs, "cert"@) matches Some(ScalarModel::Str(x)) ==> c.cert
                == Some(x)
            &&& entry_of(fs, "cert"@) is None ==> c.cert is None
        }),
{
}

/// The `[connection.*]` tables are read one for one, in the table's order.
pub proof fn lemma_connections_in_order(es: Seq<(Seq<char>, InnerModel)>)
    requires
        connections_of(es) is Ok,
    ensures
        connections_of(es)->Ok_0.len() == es.len(),
        forall|i: int|
            0 <= i < es.len() ==> connection_of(#[trigger] es[i].1) == Ok::<ConnectionModel, SettingsError>(
                connections_of(es)->Ok_0[i],
            ),
    decreases es.len(),
{
    if es.len() > 0 {
        lemma_connections_in_order(es.drop_last());
        let cs = connections_of(es.drop_last())->Ok_0;
        assert forall|i: int| 0 <= i < es.len() implies connection_of(#[trigger] es[i].1)
            == Ok::<ConnectionModel, SettingsError>(connections_of(es)->Ok_0[i]) by {
            if i < es.len() - 1 {
                assert(es.drop_last()[i] == es[i]);
            }
        }
    }
}

/// The platform table, for the clipboard back end: `None` where there is
/// none, or where `platform` is not a table.
pub open spec fn platform_of(t: Seq<(Seq<char>, ValueModel)>) -> Option<Seq<(Seq<char>, InnerModel)>> {
    match entry_of(t, "platform"@) {
        Some(ValueModel::Table(es)) => Some(es),
        _ => None,
    }
}

/// A copy of a string field of a scalar.
fn scalar_str(v: &ConfigScalar) -> (r: Result<String, SettingsError>)
    ensures
        match v@ {
            ScalarModel::Str(s) => r matches Ok(x) && x@ == s,
            _ => r == Err::<String, SettingsError>(SettingsError::WrongType),
        },
{
    match v {
        ConfigScalar::Str(s) => Ok(s.clone()),
        _ => Err(SettingsError::WrongType),
    }
}

/// A string field of a table of scalars.
fn inner_str(t: &Vec<(String, ConfigScalar)>, k: &str) -> (r: Result<Option<String>, SettingsError>)
    ensures
        match str_field(entry_of(scalars_view(t@), k@)) {
            Ok(o) => r matches Ok(x) && opt_view(x) == o,
            Err(e) => r == Err::<Option<String>, SettingsError>(e),
        },
{
    assert(keys_of(scalars_view(t@)) =~= string_keys(t@));
    match find_key(t, k) {
        None => {
            assert(entry_of(scalars_view(t@), k@) is None);
            Ok(None)
        },
        Some(i) => {
            assert(first_index(string_keys(t@), k@) == Some(i as int));
            assert(first_index(keys_of(scalars_view(t@)), k@) == Some(i as int));
            assert(entry_of(scalars_view(t@), k@) == Some(scalars_view(t@)[i as int].1));
            assert(scalars_view(t@)[i as int].1 == t@[i as int].1@);
            match scalar_str(&t[i].1) {
                Ok(s) => Ok(Some(s)),
                Err(e) => Err(e),
            }
        },
    }
}

/// An integer field of a table of scalars.
fn inner_int(t: &Vec<(String, ConfigScalar)>, k: &str) -> (r: Result<Option<i64>, SettingsError>)
    ensures
        match int_field(entry_of(scalars_view(t@), k@)) {
            Ok(o) => r == Ok::<Option<i64>, SettingsError>(o),
            Err(e) => r == Err::<Option<i64>, SettingsError>(e),
        },
{
    assert(keys_of(scalars_view(t@)) =~= string_keys(t@));
    match find_key(t, k) {
        None => {
            assert(entry_of(scalars_view(t@), k@) is None);
            Ok(None)
        },
        Some(i) => {
            assert(first_index(string_keys(t@), k@) == Some(i as int));
            assert(first_index(keys_of(scalars_view(t@)), k@) == Some(i as int));
            assert(entry_of(scalars_view(t@), k@) == Some(scalars_view(t@)[i as int].1));
            assert(scalars_view(t@)[i as int].1 == t@[i as int].1@);
            match &t[i].1 {
                ConfigScalar::Int(n) => Ok(Some(*n)),
                _ => Err(SettingsError::WrongType),
            }
        },
    }
}

/// The scalar of a top-level value, where it is one.
fn top_value_str(t: &Vec<(String, ConfigValue)>, k: &str) -> (r: Result<Option<String>, SettingsError>)
    ensures
        match str_field(top_scalar(entry_of(table_view(t@), k@))) {
            Ok(o) => r matches Ok(x) && opt_view(x) == o,
            Err(e) => r == Err::<Option<String>, SettingsError>(e),
        },
{
    assert(keys_of(table_view(t@)) =~= string_keys(t@));
    match find_key(t, k) {
        None => {
            assert(entry_of(table_view(t@), k@) is None);
            Ok(None)
        },
        Some(i) => {
            assert(first_index(string_keys(t@), k@) == Some(i as int));
            assert(first_index(keys_of(table_view(t@)), k@) == Some(i as int));
            assert(entry_of(table_view(t@), k@) == Some(table_view(t@)[i as int].1));
            assert(table_view(t@)[i as int].1 == t@[i as int].1@);
            match &t[i].1 {
                ConfigValue::Scalar(v) => match scalar_str(v) {
                    Ok(s) => Ok(Some(s)),
                    Err(e) => Err(e),
                },
                ConfigValue::Table(_) => Err(SettingsError::WrongType),
            }
        },
    }
}

/// An integer top-level value.
fn top_value_int(t: &Vec<(String, ConfigValue)>, k: &str) -> (r: Result<Option<i64>, SettingsError>)
    ensures
        match int_field(top_scalar(entry_of(table_view(t@), k@))) {
            Ok(o) => r == Ok::<Option<i64>, SettingsError>(o),
            Err(e) => r == Err::<Option<i64>, SettingsError>(e),
        },
{
    assert(keys_of(table_view(t@)) =~= string_keys(t@));
    match find_key(t, k) {
        None => {
            assert(entry_of(table_view(t@), k@) is None);
            Ok(None)
        },
        Some(i) => {
            assert(first_index(string_keys(t@), k@) == Some(i as int));
            assert(first_index(keys_of(table_view(t@)), k@) == Some(i as int));
            assert(entry_of(table_view(t@), k@) == Some(table_view(t@)[i as int].1));
            assert(table_view(t@)[i as int].1 == t@[i as int].1@);
            match &t[i].1 {
                ConfigValue::Scalar(ConfigScalar::Int(n)) => Ok(Some(*n)),
                _ => Err(SettingsError::WrongType),
            }
        },
    }
}

/// A `[connection.*]` table; see [`connection_of`].
fn connection_from(v: &ConfigInner) -> (r: Result<ConnectionConfig, SettingsError>)
    ensures
        match connection_of(v@) {
            Ok(m) => r matches Ok(c) && c@ == m,
            Err(e) => r == Err::<ConnectionConfig, SettingsError>(e),
        },
{
    match v {
        ConfigInner::Table(fs) => {
            let ip = inner_str(fs, "ip");
            let port = inner_int(fs, "port");
            let cert = inner_str(fs, "cert");
            match (ip, port, cert) {
                (Ok(ip), Ok(port), Ok(cert)) => Ok(ConnectionConfig { ip, port, cert }),
                _ => Err(SettingsError::WrongType),
            }
        },
        ConfigInner::Scalar(_) => Err(SettingsError::WrongType),
    }
}

/// The `connection` value; see [`connections_field`].
fn connections_from(t: &Vec<(String, ConfigValue)>) -> (r: Result<Vec<ConnectionConfig>, SettingsError>)
    ensures
        match connections_field(entry_of(table_view(t@), "connection"@)) {
            Ok(m) => r matches Ok(cs) && connections_view(cs@) == m,
            Err(e) => r == Err::<Vec<ConnectionConfig>, SettingsError>(e),
        },
{
    assert(keys_of(table_view(t@)) =~= string_keys(t@));
    let i = match find_key(t, "connection") {
        None => {
            assert(connections_view(Seq::<ConnectionConfig>::empty()) =~= Seq::<ConnectionModel>::empty());
            return Ok(Vec::new());
        },
        Some(i) => i,
    };
    let es = match &t[i].1 {
        ConfigValue::Table(es) => es,
        ConfigValue::Scalar(_) => return Err(SettingsError::WrongType),
    };
    let ghost ev = inners_view(es@);
    assert(first_index(keys_of(table_view(t@)), "connection"@) == Some(i as int));
    assert(entry_of(table_view(t@), "connection"@) == Some(ValueModel::Table(ev)));
    let mut out: Vec<ConnectionConfig> = Vec::new();
    let mut j: usize = 0;
    assert(ev.take(0) =~= Seq::<(Seq<char>, InnerModel)>::empty());
    assert(connections_view(out@) =~= Seq::<ConnectionModel>::empty());
    while j < es.len()
        invariant
            ev == inners_view(es@),
            connections_field(entry_of(table_view(t@), "connection"@)) == connections_of(ev),
            j <= es@.len(),
            connections_of(ev.take(j as int)) == Ok::<Seq<ConnectionModel>, SettingsError>(connections_view(out@)),
        decreases es.len() - j,
    {
        assert(ev.take(j + 1).drop_last() =~= ev.take(j as int));
        assert(ev.take(j + 1).last() == ev[j as int]);
        match connection_from(&es[j].1) {
            Ok(c) => {
                let ghost before = out@;
                out.push(c);
                assert(connections_view(out@) =~= connections_view(before).push(c@));
            },
            Err(e) => {
                proof {
                    lemma_connections_err(ev, j as int);
                }
                return Err(e);
            },
        }
        j = j + 1;
    }
    assert(ev.take(ev.len() as int) =~= ev);
    Ok(out)
}

/// Once a table of the list is refused, the list is refused.
proof fn lemma_connections_err(ev: Seq<(Seq<char>, InnerModel)>, j: int)
    requires
        0 <= j < ev.len(),
        connection_of(ev[j].1) is Err,
    ensures
        connections_of(ev) == Err::<Seq<ConnectionModel>, SettingsError>(SettingsError::WrongType),
    decreases ev.len(),
{
    if j < ev.len() - 1 {
        lemma_connections_err(ev.drop_last(), j);
    }
}

/// The values the program reads from the parsed configuration; see
/// [`config_of`].
fn config_file_from(t: &Vec<(String, ConfigValue)>) -> (r: Result<ConfigFile, SettingsError>)
    ensures
        match config_of(table_view(t@)) {
            Ok(m) => r matches Ok(c) && c@ == m,
            Err(e) => r == Err::<ConfigFile, SettingsError>(e),
        },
{
    let mode = top_value_str(t, "mode");
    let ip = top_value_str(t, "ip");
    let port = top_value_int(t, "port");
    let cert = top_value_str(t, "cert");
    let key = top_value_str(t, "key");
    let limit = top_value_str(t, "limit");
    let filter = top_value_str(t, "filter");
    let connections = connections_from(t);
    match (mode, ip, port, cert, key, limit, filter, connections) {
        (Ok(mode), Ok(ip), Ok(port), Ok(cert), Ok(key), Ok(limit), Ok(filter), Ok(connections)) => Ok(
            ConfigFile { mode, ip, port, cert, key, limit, filter, connections },
        ),
        _ => Err(SettingsError::WrongType),
    }
}

/// The settings of a configuration file's text, with its platform table:
/// text that is not TOML is refused, then values of the wrong type, then what
/// [`config_outcome`] refuses; otherwise the settings are those of
/// [`config_outcome`] for the values read, with the `platform` table if it is
/// one.
pub fn settings_from_text(text: &str) -> (r: Result<(Settings, Option<Vec<(String, ConfigInner)>>), SettingsError>)
    ensures
        match toml_table(text@) {
            None => r == Err::<(Settings, Option<Vec<(String, ConfigInner)>>), SettingsError>(
                SettingsError::ParseFailed,
            ),
            Some(t) => match config_of(t) {
                Err(e) => r == Err::<(Settings, Option<Vec<(String, ConfigInner)>>), SettingsError>(e),
                Ok(m) => config_outcome(
                    m,
                    match r {
                        Ok(x) => Ok::<Settings, SettingsError>(x.0),
                        Err(e) => Err::<Settings, SettingsError>(e),
                    },
                ) && (r matches Ok(x) ==> match x.1 {
                    Some(p) => platform_of(t) == Some(inners_view(p@)),
                    None => platform_of(t) is None,
                }),
            },
        },
{
    let mut table = match parse_config_text(text) {
        Some(t) => t,
        None => return Err(SettingsError::ParseFailed),
    };
    let ghost tv = table_view(table@);
    let cfg = match config_file_from(&table) {
        Ok(c) => c,
        Err(e) => return Err(e),
    };
    assert(keys_of(tv) =~= string_keys(table@));
    let platform = match find_key(&table, "platform") {
        None => None,
        Some(i) => {
            let (_, v) = table.remove(i);
            match v {
                ConfigValue::Table(es) => Some(es),
                ConfigValue::Scalar(_) => None,
            }
        },
    };
    match settings_from_config(cfg) {
        Ok(s) => Ok((s, platform)),
        Err(e) => Err(e),
    }
}

} // verus!
