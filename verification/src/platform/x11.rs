//! The X11 back end: how it names atoms, which selections it owns and how it
//! answers the programs that ask for their content, and how it tells a new
//! clipboard content from one it has already reported.
//!
//! The connection to the X server (events, window properties, interning on
//! the server) is reached through Xlib and stays outside this library; what
//! these functions decide is handed to it as plain values.

use std::sync::mpsc::Sender;
use std::sync::Arc;

use vstd::prelude::*;
use vstd::hash_map::{HashMapWithView, StringHashMap};

use crate::clipboard::{Change, Direction, Message, entries_view, send_value};
use crate::config::{entry_of, find_key, first_index, keys_of, string_keys, inners_view, ConfigInner, ConfigScalar, InnerModel, ScalarModel};
use crate::connection::opt_view;
use crate::entries::{collect_map, get_value, last_value, lemma_map_empty, lemma_same_last_values, lookup, map_of, str_eq};
use crate::platform::mime::is_mime_type;
use crate::protocol::wire::{le_value, read_le};
use crate::routing::spec_mime_like;
use crate::text::strings_view;
use crate::util::{entry_bytes, push_entry_bytes, sip_digest, sip_fed, sip_finish, sip_new, sip_write};

verus! {

broadcast use vstd::std_specs::hash::group_hash_axioms;

/// Which selection the back end shares.
#[derive(Clone, Copy, Debug, PartialEq, Eq, Structural)]
pub enum Mode {
    /// The primary selection, with the clipboard selection kept in step.
    Selection,
    /// The clipboard selection alone.
    Clipboard,
}

/// The mode named in the configuration.
pub open spec fn mode_named(name: Seq<char>) -> Option<Mode> {
    if name == "selection"@ {
        Some(Mode::Selection)
    } else if name == "clipboard"@ {
        Some(Mode::Clipboard)
    } else {
        None
    }
}

/// The mode named `name`; `None` for an unknown name, which the back end
/// refuses to start with.
pub fn mode_from_name(name: &str) -> (r: Option<Mode>)
    ensures
        r == mode_named(name@),
{
    if str_eq(name, "selection") {
        Some(Mode::Selection)
    } else if str_eq(name, "clipboard") {
        Some(Mode::Clipboard)
    } else {
        None
    }
}

/// A string of the platform table: absent, a string, or of the wrong type.
pub open spec fn platform_str(v: Option<InnerModel>) -> Result<Option<Seq<char>>, ()> {
    match v {
        None => Ok(None),
        Some(InnerModel::Scalar(ScalarModel::Str(s))) => Ok(Some(s)),
        Some(_) => Err(()),
    }
}

/// The display and the mode that the platform table names: the default
/// display and the selection mode where it names none; `None` where
/// `display` or `mode` is not a string or the mode is unknown, and the back
/// end refuses to start.
pub open spec fn platform_settings_of(p: Option<Seq<(Seq<char>, InnerModel)>>) -> Option<(Option<Seq<char>>, Mode)> {
    match p {
        None => Some((None, Mode::Selection)),
        Some(es) => match (platform_str(entry_of(es, "display"@)), platform_str(entry_of(es, "mode"@))) {
            (Ok(d), Ok(None)) => Some((d, Mode::Selection)),
            (Ok(d), Ok(Some(name))) => match mode_named(name) {
                Some(m) => Some((d, m)),
                None => None,
            },
            _ => None,
        },
    }
}

/// The display that the platform table names is the one used: where its
/// `display` is a string `d`, or absent, and its `mode` is absent,
/// `selection` or `clipboard`, the result holds that display (`Some(d)`, or
/// `None` for the default) with the mode named, the selection mode where none
/// is; and any result holds the table's display string, if it has one.
pub proof fn lemma_platform_display_kept(es: Seq<(Seq<char>, InnerModel)>)
    ensures
        ({
            let display = entry_of(es, "display"@);
            let mode = entry_of(es, "mode"@);
            let d: Option<Seq<char>> = match display {
                Some(InnerModel::Scalar(ScalarModel::Str(s))) => Some(s),
                _ => None,
            };
            let display_ok = display is None || display matches Some(
                InnerModel::Scalar(ScalarModel::Str(_)),
            );
            &&& display_ok && mode is None ==> platform_settings_of(Some(es)) == Some(
                (d, Mode::Selection),
            )
            &&& display_ok && mode == Some(InnerModel::Scalar(ScalarModel::Str("selection"@)))
                ==> platform_settings_of(Some(es)) == Some((d, Mode::Selection))
            &&& display_ok && mode == Some(InnerModel::Scalar(ScalarModel::Str("clipboard"@)))
                ==> platform_settings_of(Some(es)) == Some((d, Mode::Clipboard))
            &&& platform_settings_of(Some(es)) matches Some((x, _)) ==> x == d
        }),
{
    reveal_strlit("selection");
    reveal_strlit("clipboard");
    assert("clipboard"@[0] != "selection"@[0]);
}

/// A string of the platform table; see [`platform_str`].
fn platform_string(es: &Vec<(String, ConfigInner)>, k: &str) -> (r: Result<Option<String>, ()>)
    ensures
        match platform_str(entry_of(inners_view(es@), k@)) {
            Ok(o) => r matches Ok(x) && opt_view(x) == o,
            Err(_) => r is Err,
        },
{
    assert(keys_of(inners_view(es@)) =~= string_keys(es@));
    match find_key(es, k) {
        None => Ok(None),
        Some(i) => {
            assert(first_index(keys_of(inners_view(es@)), k@) == Some(i as int));
            assert(entry_of(inners_view(es@), k@) == Some(es@[i as int].1@));
            match &es[i].1 {
                ConfigInner::Scalar(ConfigScalar::Str(s)) => Ok(Some(s.clone())),
                _ => Err(()),
            }
        },
    }
}

/// The display and the mode of the platform table; see
/// [`platform_settings_of`].
pub fn platform_settings(platform: &Option<Vec<(String, ConfigInner)>>) -> (r: Option<(Option<String>, Mode)>)
    ensures
        match platform_settings_of(match platform {
            Some(es) => Some(inners_view(es@)),
            None => None,
        }) {
            Some((d, m)) => r matches Some((x, y)) && opt_view(x) == d && y == m,
            None => r is None,
        },
{
    match platform {
        None => Some((None, Mode::Selection)),
        Some(es) => match (platform_string(es, "display"), platform_string(es, "mode")) {
            (Ok(d), Ok(None)) => Some((d, Mode::Selection)),
            (Ok(d), Ok(Some(name))) => match mode_from_name(name.as_str()) {
                Some(m) => Some((d, m)),
                None => None,
            },
            _ => None,
        },
    }
}

// ---------------------------------------------------------------- atoms

/// The atoms that the X protocol predefines, by name.
pub open spec fn predefined_atom(name: Seq<char>) -> Option<u64> {
    if name == "PRIMARY"@ {
        Some(1)
    } else if name == "SECONDARY"@ {
        Some(2)
    } else if name == "ATOM"@ {
        Some(4)
    } else if name == "STRING"@ {
        Some(31)
    } else {
        None
    }
}

/// The atoms that the Xmu library keeps for each display.
#[derive(Clone, Copy, Debug, PartialEq, Eq, Structural)]
pub enum XmuAtom {
    Utf8String,
    Clipboard,
    Timestamp,
    Targets,
}

/// Where the atom of a name comes from.
#[derive(Clone, Copy, Debug, PartialEq, Eq, Structural)]
pub enum AtomSource {
    /// The protocol fixes it.
    Predefined(u64),
    /// Xmu interns it for the display.
    Xmu(XmuAtom),
    /// The server interns it.
    Server,
}

/// Where the atom of `name` comes from.
pub open spec fn atom_source_of(name: Seq<char>) -> AtomSource {
    if let Some(a) = predefined_atom(name) {
        AtomSource::Predefined(a)
    } else if name == "UTF8_STRING"@ {
        AtomSource::Xmu(XmuAtom::Utf8String)
    } else if name == "CLIPBOARD"@ {
        AtomSource::Xmu(XmuAtom::Clipboard)
    } else if name == "TIMESTAMP"@ {
        AtomSource::Xmu(XmuAtom::Timestamp)
    } else if name == "TARGETS"@ {
        AtomSource::Xmu(XmuAtom::Targets)
    } else {
        AtomSource::Server
    }
}

/// Where the atom of `name` comes from; see [`atom_source_of`].
pub fn atom_source(name: &str) -> (r: AtomSource)
    ensures
        r == atom_source_of(name@),
{
    if str_eq(name, "PRIMARY") {
        AtomSource::Predefined(1)
    } else if str_eq(name, "SECONDARY") {
        AtomSource::Predefined(2)
    } else if str_eq(name, "ATOM") {
        AtomSource::Predefined(4)
    } else if str_eq(name, "STRING") {
        AtomSource::Predefined(31)
    } else if str_eq(name, "UTF8_STRING") {
        AtomSource::Xmu(XmuAtom::Utf8String)
    } else if str_eq(name, "CLIPBOARD") {
        AtomSource::Xmu(XmuAtom::Clipboard)
    } else if str_eq(name, "TIMESTAMP") {
        AtomSource::Xmu(XmuAtom::Timestamp)
    } else if str_eq(name, "TARGETS") {
        AtomSource::Xmu(XmuAtom::Targets)
    } else {
        AtomSource::Server
    }
}

/// The answer to interning a name.
#[derive(Clone, Copy, Debug, PartialEq, Eq, Structural)]
pub enum Interned {
    /// The atom, from the cache or fixed by the protocol.
    Known(u64),
    /// Only Xmu or the server knows it: ask there, then remember the answer.
    Ask(AtomSource),
}

/// The answer to naming an atom.
pub enum Named {
    /// The name, from the cache.
    Known(String),
    /// Only the server knows it: ask, then remember the answer.
    Ask,
}

/// The atom of `name` as the caches give it: the cached one, else the one the
/// protocol fixes.
pub open spec fn cached_atom(atoms: Map<Seq<char>, u64>, name: Seq<char>) -> Option<u64> {
    if atoms.contains_key(name) {
        Some(atoms[name])
    } else {
        predefined_atom(name)
    }
}

/// The caches of a display: the atoms interned so far by name, and the names
/// of atoms looked up so far.
pub struct Display {
    atoms: StringHashMap<u64>,
    names: HashMapWithView<u64, String>,
}

impl Display {
    /// The atoms interned so far, by name.
    pub closed spec fn atoms(&self) -> Map<Seq<char>, u64> {
        self.atoms@
    }

    /// The names of the atoms looked up so far.
    pub closed spec fn names(&self) -> Map<u64, String> {
        self.names@
    }

    /// Empty caches.
    pub fn new() -> (r: Display)
        ensures
            r.atoms() == Map::<Seq<char>, u64>::empty(),
            r.names() == Map::<u64, String>::empty(),
    {
        Display { atoms: StringHashMap::new(), names: HashMapWithView::new() }
    }

    /// Interns `name`: the cached atom; else the atom the protocol fixes,
    /// which is cached; else where to ask for it.
    pub fn intern(&mut self, name: &str) -> (r: Interned)
        ensures
            final(self).names() == old(self).names(),
            match cached_atom(old(self).atoms(), name@) {
                Some(a) => r == Interned::Known(a) && final(self).atoms() == old(self).atoms().insert(name@, a),
                None => r == Interned::Ask(atom_source_of(name@)) && final(self).atoms() == old(self).atoms(),
            },
    {
        if let Some(a) = self.atoms.get(name) {
            let a = *a;
            proof {
                assert(old(self).atoms().insert(name@, a) =~= old(self).atoms());
            }
            return Interned::Known(a);
        }
        match atom_source(name) {
            AtomSource::Predefined(a) => {
                self.atoms.insert(String::from_str(name), a);
                Interned::Known(a)
            },
            source => Interned::Ask(source),
        }
    }

    /// Caches the atom that Xmu or the server gave for `name`.
    pub fn remember(&mut self, name: &str, atom: u64)
        ensures
            final(self).atoms() == old(self).atoms().insert(name@, atom),
            final(self).names() == old(self).names(),
    {
        self.atoms.insert(String::from_str(name), atom);
    }

    /// Names `atom`: the cached name; `None` for the atom 0, which is cached;
    /// else ask the server.
    pub fn atom(&mut self, atom: u64) -> (r: Named)
        ensures
            final(self).atoms() == old(self).atoms(),
            old(self).names().contains_key(atom) ==> (r matches Named::Known(n) && n == old(self).names()[atom]
                && final(self).names() == old(self).names()),
            !old(self).names().contains_key(atom) && atom == 0 ==> (r matches Named::Known(n) && n@ == "None"@
                && final(self).names() == old(self).names().insert(0, n)),
            !old(self).names().contains_key(atom) && atom != 0 ==> (r is Ask && final(self).names()
                == old(self).names()),
    {
        if let Some(n) = self.names.get(&atom) {
            return Named::Known(n.clone());
        }
        if atom == 0 {
            let n = String::from_str("None");
            self.names.insert(0, n.clone());
            return Named::Known(n);
        }
        Named::Ask
    }

    /// The window `id` of this display.
    pub fn window(&self, id: u64) -> (r: Window)
        ensures
            r.id == id,
    {
        Window { id }
    }

    /// An empty event to fill in: no type, all words zero.
    pub fn event(&self) -> (r: Event)
        ensures
            r.kind == 0,
            r.data@ == Seq::new(EVENT_WORDS as nat, |i: int| 0u64),
    {
        let mut data: Vec<u64> = Vec::new();
        let mut i: usize = 0;
        while i < EVENT_WORDS
            invariant
                i <= EVENT_WORDS,
                data@ == Seq::new(i as nat, |j: int| 0u64),
            decreases EVENT_WORDS - i,
        {
            data.push(0);
            assert(data@ =~= Seq::new((i + 1) as nat, |j: int| 0u64));
            i = i + 1;
        }
        Event { kind: 0, data }
    }

    /// Caches the name that the server gave for `atom`.
    pub fn remember_name(&mut self, atom: u64, name: String)
        ensures
            final(self).names() == old(self).names().insert(atom, name),
            final(self).atoms() == old(self).atoms(),
    {
        self.names.insert(atom, name);
    }
}

/// Interning a name that was remembered gives back the atom remembered for
/// it, and caches nothing new.
pub proof fn lemma_intern_after_remember(atoms: Map<Seq<char>, u64>, name: Seq<char>, atom: u64)
    ensures
        cached_atom(atoms.insert(name, atom), name) == Some(atom),
        atoms.insert(name, atom).insert(name, atom) == atoms.insert(name, atom),
{
    assert(atoms.insert(name, atom).insert(name, atom) =~= atoms.insert(name, atom));
}

/// Once interning a name has given an atom, interning it again gives the
/// same atom and leaves the cache as it is.
pub proof fn lemma_intern_stable(atoms: Map<Seq<char>, u64>, name: Seq<char>)
    requires
        cached_atom(atoms, name) is Some,
    ensures
        ({
            let a = cached_atom(atoms, name)->0;
            let after = atoms.insert(name, a);
            &&& cached_atom(after, name) == Some(a)
            &&& after.insert(name, a) == after
        }),
{
    let a = cached_atom(atoms, name)->0;
    assert(atoms.insert(name, a).insert(name, a) =~= atoms.insert(name, a));
}

// ---------------------------------------------------------------- events

/// The type of a `SelectionClear` event.
pub const SELECTION_CLEAR: i32 = 29;

/// The type of a `SelectionRequest` event.
pub const SELECTION_REQUEST: i32 = 30;

/// The type of a `SelectionNotify` event.
pub const SELECTION_NOTIFY: i32 = 31;

/// The number of words of an event after the header that all events share.
pub const EVENT_WORDS: usize = 20;

/// A window, by its id.
#[derive(Clone, Copy, Debug, PartialEq, Eq, Structural)]
pub struct Window {
    pub id: u64,
}

/// An X event: its type, and the words that follow the header that all events
/// share (serial number, origin, display).
pub struct Event {
    pub kind: i32,
    pub data: Vec<u64>,
}

/// The answer to a selection request, or the news that a conversion is done.
#[derive(Clone, Copy, Debug, PartialEq, Eq, Structural)]
pub struct SelectionNotify {
    pub requestor: u64,
    pub selection: u64,
    pub target: u64,
    pub property: u64,
    pub time: u64,
}

/// Another program took a selection that this one owned.
#[derive(Clone, Copy, Debug, PartialEq, Eq, Structural)]
pub struct SelectionClear {
    pub window: u64,
    pub selection: u64,
    pub time: u64,
}

/// Another program asks for the content of an owned selection.
#[derive(Clone, Copy, Debug, PartialEq, Eq, Structural)]
pub struct SelectionRequest {
    pub owner: u64,
    pub requestor: u64,
    pub selection: u64,
    pub target: u64,
    pub property: u64,
    pub time: u64,
}

impl Event {
    /// The details of a `SelectionNotify` event; `None` for other events.
    pub fn selection_notify(&self) -> (r: Option<SelectionNotify>)
        ensures
            r is Some <==> self.kind == SELECTION_NOTIFY && self.data@.len() >= 5,
            r matches Some(n) ==> n == (SelectionNotify {
                requestor: self.data@[0],
                selection: self.data@[1],
                target: self.data@[2],
                property: self.data@[3],
                time: self.data@[4],
            }),
    {
        if self.kind == SELECTION_NOTIFY && self.data.len() >= 5 {
            Some(
                SelectionNotify {
                    requestor: self.data[0],
                    selection: self.data[1],
                    target: self.data[2],
                    property: self.data[3],
                    time: self.data[4],
                },
            )
        } else {
            None
        }
    }

    /// The details of a `SelectionRequest` event; `None` for other events.
    pub fn selection_request(&self) -> (r: Option<SelectionRequest>)
        ensures
            r is Some <==> self.kind == SELECTION_REQUEST && self.data@.len() >= 6,
            r matches Some(q) ==> q == (SelectionRequest {
                owner: self.data@[0],
                requestor: self.data@[1],
                selection: self.data@[2],
                target: self.data@[3],
                property: self.data@[4],
                time: self.data@[5],
            }),
    {
        if self.kind == SELECTION_REQUEST && self.data.len() >= 6 {
            Some(
                SelectionRequest {
                    owner: self.data[0],
                    requestor: self.data[1],
                    selection: self.data[2],
                    target: self.data[3],
                    property: self.data[4],
                    time: self.data[5],
                },
            )
        } else {
            None
        }
    }

    /// The details of a `SelectionClear` event; `None` for other events.
    pub fn selection_clear(&self) -> (r: Option<SelectionClear>)
        ensures
            r is Some <==> self.kind == SELECTION_CLEAR && self.data@.len() >= 3,
            r matches Some(c) ==> c == (SelectionClear {
                window: self.data@[0],
                selection: self.data@[1],
                time: self.data@[2],
            }),
    {
        if self.kind == SELECTION_CLEAR && self.data.len() >= 3 {
            Some(SelectionClear { window: self.data[0], selection: self.data[1], time: self.data[2] })
        } else {
            None
        }
    }

    /// The `SelectionNotify` event that carries `n`.
    pub fn notification(n: SelectionNotify) -> (r: Event)
        ensures
            r.kind == SELECTION_NOTIFY,
            r.data@ == seq![n.requestor, n.selection, n.target, n.property, n.time],
    {
        let mut data: Vec<u64> = Vec::new();
        data.push(n.requestor);
        data.push(n.selection);
        data.push(n.target);
        data.push(n.property);
        data.push(n.time);
        Event { kind: SELECTION_NOTIFY, data }
    }
}

impl SelectionNotify {
    /// The answer to `request` once its property holds the content.
    pub fn answering(request: &SelectionRequest) -> (r: SelectionNotify)
        ensures
            r == (SelectionNotify {
                requestor: request.requestor,
                selection: request.selection,
                target: request.target,
                property: request.property,
                time: request.time,
            }),
    {
        SelectionNotify {
            requestor: request.requestor,
            selection: request.selection,
            target: request.target,
            property: request.property,
            time: request.time,
        }
    }

    /// The refusal of `request`: the same answer with no property.
    pub fn refusing(request: &SelectionRequest) -> (r: SelectionNotify)
        ensures
            r == (SelectionNotify {
                requestor: request.requestor,
                selection: request.selection,
                target: request.target,
                property: 0,
                time: request.time,
            }),
    {
        SelectionNotify {
            requestor: request.requestor,
            selection: request.selection,
            target: request.target,
            property: 0,
            time: request.time,
        }
    }
}

// ---------------------------------------------------------------- serving

/// The selections the back end takes when it serves a change: the primary
/// selection and the clipboard in selection mode, the clipboard alone in
/// clipboard mode.
pub open spec fn owned_in(mode: Mode) -> Seq<Seq<char>> {
    match mode {
        Mode::Selection => seq!["PRIMARY"@, "CLIPBOARD"@],
        Mode::Clipboard => seq!["CLIPBOARD"@],
    }
}

/// The names of the selections to own; see [`owned_in`].
pub fn owned_selections(mode: Mode) -> (r: Vec<String>)
    ensures
        strings_view(r@) == owned_in(mode),
{
    let mut r: Vec<String> = Vec::new();
    match mode {
        Mode::Selection => {
            r.push(String::from_str("PRIMARY"));
            r.push(String::from_str("CLIPBOARD"));
        },
        Mode::Clipboard => {
            r.push(String::from_str("CLIPBOARD"));
        },
    }
    assert(strings_view(r@) =~= owned_in(mode));
    r
}

/// What to do when another program takes a selection.
#[derive(Clone, Copy, Debug, PartialEq, Eq, Structural)]
pub enum Clear {
    /// Go on serving.
    Keep,
    /// Stop serving, first giving up the clipboard selection if asked to.
    Stop { disown_clipboard: bool },
}

/// What losing `selection` means: in selection mode, losing the primary
/// selection ends serving and the clipboard is given up with it, while losing
/// the clipboard alone changes nothing; in clipboard mode losing it ends
/// serving.
pub fn on_selection_clear(mode: Mode, selection: u64, clipboard: u64) -> (r: Clear)
    ensures
        mode == Mode::Selection && selection != clipboard ==> r == (Clear::Stop { disown_clipboard: true }),
        mode == Mode::Selection && selection == clipboard ==> r == Clear::Keep,
        mode == Mode::Clipboard ==> r == (Clear::Stop { disown_clipboard: false }),
{
    match mode {
        Mode::Selection => {
            if selection != clipboard {
                Clear::Stop { disown_clipboard: true }
            } else {
                Clear::Keep
            }
        },
        Mode::Clipboard => Clear::Stop { disown_clipboard: false },
    }
}

/// The answer to a selection request.
pub enum Reply {
    /// The names of atoms, whose atoms go into the property as type `ATOM`.
    Atoms(Vec<String>),
    /// A timestamp, as a 64-bit item.
    Timestamp(u64),
    /// Bytes.
    Data(Vec<u8>),
    /// No answer: the request is refused.
    Refuse,
}

/// The mathematical content of a [`Reply`].
pub enum ReplyModel {
    Atoms(Seq<Seq<char>>),
    Timestamp(u64),
    Data(Seq<u8>),
    Refuse,
}

impl View for Reply {
    type V = ReplyModel;

    open spec fn view(&self) -> ReplyModel {
        match self {
            Reply::Atoms(names) => ReplyModel::Atoms(strings_view(names@)),
            Reply::Timestamp(t) => ReplyModel::Timestamp(*t),
            Reply::Data(d) => ReplyModel::Data(d@),
            Reply::Refuse => ReplyModel::Refuse,
        }
    }
}

/// The targets the content can be converted to: its MIME types in order,
/// `UTF8_STRING` where it holds `text/plain`, then `TARGETS` and `TIMESTAMP`.
pub open spec fn targets_of(m: Seq<(Seq<char>, Seq<u8>)>) -> Seq<Seq<char>> {
    m.map_values(|e: (Seq<char>, Seq<u8>)| e.0) + (if lookup(m, "text/plain"@) is Some {
        seq!["UTF8_STRING"@]
    } else {
        Seq::empty()
    }) + seq!["TARGETS"@, "TIMESTAMP"@]
}

/// The answer to a request for `target` when the content, as a map from MIME
/// type to data, is `m` and it changed at `timestamp`: the targets; the
/// timestamp; the plain text for `UTF8_STRING` and `STRING`; the data of a
/// MIME type; and a refusal for a type the content lacks and for any other
/// target.
pub open spec fn reply_for(target: Seq<char>, timestamp: u64, m: Seq<(Seq<char>, Seq<u8>)>) -> ReplyModel {
    if target == "TARGETS"@ {
        ReplyModel::Atoms(targets_of(m))
    } else if target == "TIMESTAMP"@ {
        ReplyModel::Timestamp(timestamp)
    } else if target == "UTF8_STRING"@ || target == "STRING"@ {
        match lookup(m, "text/plain"@) {
            Some(v) => ReplyModel::Data(v),
            None => ReplyModel::Refuse,
        }
    } else if spec_mime_like(target) {
        match lookup(m, target) {
            Some(v) => ReplyModel::Data(v),
            None => ReplyModel::Refuse,
        }
    } else {
        ReplyModel::Refuse
    }
}

/// Answers a request for `target` while serving `change`; see [`reply_for`].
/// The content is the map of the change's pairs, the last pair of a MIME type
/// winning.
pub fn reply(target: &str, change: &(u64, Vec<(String, Vec<u8>)>)) -> (r: Reply)
    ensures
        r@ == reply_for(target@, change.0, map_of(entries_view(change.1@))),
{
    let content = collect_map(&change.1);
    let ghost m = entries_view(content@);
    if str_eq(target, "TARGETS") {
        let mut names: Vec<String> = Vec::new();
        let mut i: usize = 0;
        while i < content.len()
            invariant
                m == entries_view(content@),
                i <= content@.len(),
                strings_view(names@) == m.map_values(|e: (Seq<char>, Seq<u8>)| e.0).take(i as int),
            decreases content.len() - i,
        {
            let name = content[i].0.clone();
            assert(m[i as int].0 == name@);
            let ghost before = strings_view(names@);
            names.push(name);
            assert(strings_view(names@) =~= before.push(name@));
            assert(strings_view(names@) =~= m.map_values(|e: (Seq<char>, Seq<u8>)| e.0).take(i + 1));
            i = i + 1;
        }
        let ghost keys = strings_view(names@);
        assert(keys =~= m.map_values(|e: (Seq<char>, Seq<u8>)| e.0));
        if get_value(&content, "text/plain").is_some() {
            names.push(String::from_str("UTF8_STRING"));
        }
        let ghost with_text = strings_view(names@);
        names.push(String::from_str("TARGETS"));
        names.push(String::from_str("TIMESTAMP"));
        assert(strings_view(names@) =~= with_text + seq!["TARGETS"@, "TIMESTAMP"@]);
        assert(strings_view(names@) =~= targets_of(m));
        Reply::Atoms(names)
    } else if str_eq(target, "TIMESTAMP") {
        Reply::Timestamp(change.0)
    } else if str_eq(target, "UTF8_STRING") || str_eq(target, "STRING") {
        match get_value(&content, "text/plain") {
            Some(v) => Reply::Data(v.clone()),
            None => Reply::Refuse,
        }
    } else if is_mime_type(target) {
        match get_value(&content, target) {
            Some(v) => Reply::Data(v.clone()),
            None => Reply::Refuse,
        }
    } else {
        Reply::Refuse
    }
}

/// The type of the property that answers a request for `target`: `ATOM` for
/// the targets, else the target itself.
pub fn reply_type(target: &str) -> (r: String)
    ensures
        r@ == (if target@ == "TARGETS"@ {
            "ATOM"@
        } else {
            target@
        }),
{
    if str_eq(target, "TARGETS") {
        String::from_str("ATOM")
    } else {
        String::from_str(target)
    }
}

// ---------------------------------------------------------------- properties

/// A window property as the server returns it: its atom, its type, the size
/// of its items in bits, how many items the server reported, and its bytes.
pub struct Property {
    pub id: u64,
    pub kind: u64,
    pub format: i32,
    pub items: u64,
    pub data: Vec<u8>,
}

/// How many items of `size` bytes a property holds: all of them where the
/// property's format is that size, half of them where 32-bit items are read
/// as 64-bit ones, and none otherwise.
pub open spec fn item_count(format: i32, size: nat, items: u64) -> Option<nat> {
    if format == size * 8 {
        Some(items as nat)
    } else if format == 32 && size == 8 {
        Some((items / 2) as nat)
    } else {
        None
    }
}

/// `n` items of `size` bytes from the start of `data`, each read low byte
/// first.
pub open spec fn le_items(data: Seq<u8>, size: nat, n: nat) -> Seq<u64> {
    Seq::new(n, |i: int| le_value(data.subrange(i * size, i * size + size)) as u64)
}

impl Property {
    /// The items of the property read as `size`-byte integers (1, 2, 4 or 8
    /// bytes); `None` where the format does not allow that size or the data is
    /// shorter than the items.
    pub fn items(&self, size: usize) -> (r: Option<Vec<u64>>)
        requires
            size == 1 || size == 2 || size == 4 || size == 8,
        ensures
            match item_count(self.format, size as nat, self.items) {
                None => r is None,
                Some(n) => if n * size <= self.data@.len() {
                    r matches Some(v) && v@ == le_items(self.data@, size as nat, n)
                } else {
                    r is None
                },
            },
    {
        let bits: i32 = if size == 1 {
            8
        } else if size == 2 {
            16
        } else if size == 4 {
            32
        } else {
            64
        };
        let count: u64 = if self.format == bits {
            self.items
        } else if self.format == 32 && size == 8 {
            self.items / 2
        } else {
            return None;
        };
        let len = self.data.len();
        assert((count as u128) * (size as u128) <= 0xffff_ffff_ffff_ffff * 8) by (nonlinear_arith)
            requires
                count <= 0xffff_ffff_ffff_ffff,
                size <= 8,
        ;
        if (count as u128) * (size as u128) > len as u128 {
            return None;
        }
        assert(count <= count * size) by (nonlinear_arith)
            requires
                size >= 1,
        ;
        let n = count as usize;
        let mut out: Vec<u64> = Vec::new();
        let mut i: usize = 0;
        while i < n
            invariant
                len == self.data@.len(),
                n * size <= len,
                size == 1 || size == 2 || size == 4 || size == 8,
                i <= n,
                out@ == le_items(self.data@, size as nat, n as nat).take(i as int),
            decreases n - i,
        {
            assert(i * size + size <= n * size) by (nonlinear_arith)
                requires
                    i < n,
            ;
            let pos = i * size;
            let v = read_le(self.data.as_slice(), pos, size);
            out.push(v);
            assert(out@ =~= le_items(self.data@, size as nat, n as nat).take(i + 1));
            i = i + 1;
        }
        assert(out@ =~= le_items(self.data@, size as nat, n as nat));
        Some(out)
    }
}

/// The format and the item count with which a property of `count` items of
/// `item_bits` bits is written: 64-bit items are written as twice as many
/// 32-bit ones.
pub fn property_format(item_bits: usize, count: usize) -> (r: (i32, usize))
    requires
        item_bits == 8 || item_bits == 16 || item_bits == 32 || item_bits == 64,
        item_bits == 64 ==> count * 2 <= usize::MAX,
    ensures
        item_bits == 64 ==> r == (32i32, (count * 2) as usize),
        item_bits != 64 ==> r == (item_bits as i32, count),
{
    if item_bits == 8 {
        (8, count)
    } else if item_bits == 16 {
        (16, count)
    } else if item_bits == 32 {
        (32, count)
    } else {
        (32, count * 2)
    }
}

// ---------------------------------------------------------------- polling

/// What to fetch for one of the targets a selection offers.
#[derive(Clone, Copy, Debug, PartialEq, Eq, Structural)]
pub enum Fetch {
    /// Its content, under its MIME type.
    Content,
    /// The time the selection was taken.
    Timestamp,
    /// Nothing.
    Skip,
}

/// What to fetch for the target named `name`: the content of a MIME type, the
/// timestamp for `TIMESTAMP`, and nothing for any other target.
pub fn fetch_for(name: &str) -> (r: Fetch)
    ensures
        spec_mime_like(name@) ==> r == Fetch::Content,
        !spec_mime_like(name@) && name@ == "TIMESTAMP"@ ==> r == Fetch::Timestamp,
        !spec_mime_like(name@) && name@ != "TIMESTAMP"@ ==> r == Fetch::Skip,
{
    if is_mime_type(name) {
        Fetch::Content
    } else if str_eq(name, "TIMESTAMP") {
        Fetch::Timestamp
    } else {
        Fetch::Skip
    }
}

/// The targets asked for the plain text of a selection, in order: the first
/// that the owner answers gives the text.
pub fn text_targets() -> (r: Vec<String>)
    ensures
        strings_view(r@) == seq!["UTF8_STRING"@, "STRING"@],
{
    let mut r: Vec<String> = Vec::new();
    r.push(String::from_str("UTF8_STRING"));
    r.push(String::from_str("STRING"));
    assert(strings_view(r@) =~= seq!["UTF8_STRING"@, "STRING"@]);
    r
}

impl Property {
    /// The time a selection was taken, from its answer to `TIMESTAMP`: the
    /// first 32-bit item; `None` where the property holds none.
    pub fn timestamp(&self) -> (r: Option<u64>)
        ensures
            match item_count(self.format, 4, self.items) {
                Some(n) if n > 0 && n * 4 <= self.data@.len() => r == Some(
                    le_items(self.data@, 4, n)[0],
                ),
                _ => r is None,
            },
    {
        match self.items(4) {
            Some(v) => {
                if v.len() > 0 {
                    Some(v[0])
                } else {
                    None
                }
            },
            None => None,
        }
    }
}

/// What the back end last reported of one selection: a hash of its content
/// and the time it was taken.
#[derive(Clone, Copy, Debug, PartialEq, Eq, Structural)]
pub struct State {
    pub hash: u64,
    pub timestamp: u64,
}

impl Default for State {
    fn default() -> (r: State)
        ensures
            r == (State { hash: 0, timestamp: 0 }),
    {
        State { hash: 0, timestamp: 0 }
    }
}

/// What reading a selection of `size` pairs does to its state, and whether
/// it is reported: an empty content is not; a timestamp other than 0 that was seen last is not;
/// a new timestamp is kept; then the content is reported, and its hash kept,
/// when the hash differs from the last one.
pub open spec fn observed(state: State, timestamp: u64, size: nat, hash: u64) -> (State, bool) {
    if size == 0 {
        (state, false)
    } else if timestamp != 0 && timestamp == state.timestamp {
        (state, false)
    } else {
        let stamped = if timestamp != 0 {
            State { hash: state.hash, timestamp }
        } else {
            state
        };
        if hash == stamped.hash {
            (stamped, false)
        } else {
            (State { hash, timestamp: stamped.timestamp }, true)
        }
    }
}

/// A content is reported once: right after a selection was reported with a
/// content of hash `hash`, reading it again with a content of the same hash
/// reports nothing, whatever its timestamp and size.
pub proof fn lemma_reported_once(state: State, t1: u64, n1: nat, t2: u64, n2: nat, hash: u64)
    requires
        observed(state, t1, n1, hash).1,
    ensures
        !observed(observed(state, t1, n1, hash).0, t2, n2, hash).1,
        observed(state, t1, n1, hash).0.hash == hash,
{
}

/// The hash of a content, the (MIME type, data) pairs in key order: each pair
/// is hashed by a fresh hasher after the hash of the pairs before it, starting
/// from 0.
pub open spec fn chain_hash(es: Seq<(Seq<char>, Seq<u8>)>) -> u64
    decreases es.len(),
{
    if es.len() == 0 {
        0
    } else {
        sip_digest(entry_bytes(chain_hash(es.drop_last()), es.last().0, es.last().1))
    }
}

/// The hash of a content; see [`chain_hash`].
pub fn content_hash(content: &Vec<(String, Vec<u8>)>) -> (r: u64)
    ensures
        r == chain_hash(entries_view(content@)),
{
    let ghost es = entries_view(content@);
    let mut h: u64 = 0;
    let mut i: usize = 0;
    while i < content.len()
        invariant
            es == entries_view(content@),
            i <= content@.len(),
            h == chain_hash(es.take(i as int)),
        decreases content.len() - i,
    {
        let mut buf: Vec<u8> = Vec::new();
        push_entry_bytes(&mut buf, h, content[i].0.as_str(), content[i].1.as_slice());
        let mut hasher = sip_new();
        sip_write(&mut hasher, buf.as_slice());
        assert(sip_fed(hasher) =~= buf@);
        h = sip_finish(&hasher);
        assert(es.take(i + 1).drop_last() =~= es.take(i as int));
        assert(es.take(i + 1).last() == es[i as int]);
        i = i + 1;
    }
    assert(es.take(es.len() as int) =~= es);
    h
}

impl State {
    /// Reads a selection whose content, as a map, is `content`, taken at
    /// `timestamp`, with hash `hash`; see [`observed`]. The change reported
    /// is the timestamp with the content.
    pub fn observe_hashed(&mut self, timestamp: u64, content: Vec<(String, Vec<u8>)>, hash: u64) -> (r: Option<Change>)
        ensures
            (*final(self), r is Some) == observed(*old(self), timestamp, content@.len(), hash),
            r matches Some(c) ==> c.0 == timestamp && c.1@ == content@,
    {
        if content.len() == 0 {
            return None;
        }
        if timestamp != 0 {
            if timestamp == self.timestamp {
                return None;
            }
            self.timestamp = timestamp;
        }
        if hash == self.hash {
            return None;
        }
        self.hash = hash;
        Some(Arc::new((timestamp, content)))
    }

    /// Reads a selection whose (MIME type, data) pairs are `entries`, taken
    /// at `timestamp`: their map is hashed with [`content_hash`] and
    /// observed, as [`observed`] says for that hash; a change reported holds
    /// the timestamp and the map of the pairs.
    pub fn observe(&mut self, timestamp: u64, entries: Vec<(String, Vec<u8>)>) -> (r: Option<Change>)
        ensures
            (*final(self), r is Some) == observed(
                *old(self),
                timestamp,
                entries@.len(),
                chain_hash(map_of(entries_view(entries@))),
            ),
            r matches Some(c) ==> c.0 == timestamp && entries_view(c.1@) == map_of(entries_view(entries@)),
    {
        let ghost before = *self;
        let content = collect_map(&entries);
        proof {
            lemma_map_empty(entries_view(content@), entries_view(entries@));
        }
        let h = content_hash(&content);
        let ghost size = content@.len();
        let r = self.observe_hashed(timestamp, content, h);
        assert(observed(before, timestamp, entries@.len(), h) == observed(before, timestamp, size, h));
        r
    }
}

/// What polling one selection does: the state after it, and the change
/// reported, if any, when the selection offered the (MIME type, data) pairs
/// `fetched.1` taken at `fetched.0`.
pub open spec fn polled(
    state: State,
    fetched: (u64, Seq<(Seq<char>, Seq<u8>)>),
) -> (State, Option<(u64, Seq<(Seq<char>, Seq<u8>)>)>) {
    let (s, report) = observed(state, fetched.0, fetched.1.len(), chain_hash(map_of(fetched.1)));
    (s, if report {
        Some((fetched.0, map_of(fetched.1)))
    } else {
        None
    })
}

/// A selection that was just reported is not reported again while what it
/// offers stays the same: the same content is never reported twice in a
/// row.
pub proof fn lemma_polled_once(state: State, fetched: (u64, Seq<(Seq<char>, Seq<u8>)>))
    requires
        polled(state, fetched).1 is Some,
    ensures
        polled(polled(state, fetched).0, fetched).1 is None,
{
    let h = chain_hash(map_of(fetched.1));
    lemma_reported_once(state, fetched.0, fetched.1.len(), fetched.0, fetched.1.len(), h);
}

/// Two readings whose pairs give the same value for every MIME type have
/// the same map, so the same hash, whatever order the pairs came in.
pub proof fn lemma_same_map_same_hash(a: Seq<(Seq<char>, Seq<u8>)>, b: Seq<(Seq<char>, Seq<u8>)>)
    requires
        forall|k: Seq<char>| #[trigger] last_value(a, k) == last_value(b, k),
    ensures
        map_of(a) == map_of(b),
        chain_hash(map_of(a)) == chain_hash(map_of(b)),
{
    lemma_same_last_values(a, b);
}

/// The content of a reported change.
pub open spec fn change_view(c: Option<Change>) -> Option<(u64, Seq<(Seq<char>, Seq<u8>)>)> {
    match c {
        Some(c) => Some((c.0, entries_view(c.1@))),
        None => None,
    }
}

/// The X11 back end's memory: its mode, the states of the two selections, and
/// the caches of its display, with the channel it reports changes on.
pub struct Manager {
    pub mode: Mode,
    pub primary: State,
    pub clipboard: State,
    pub display: Display,
    pub channel: Sender<Message>,
}

impl Manager {
    /// A back end in `mode` that reports on `channel`, having reported
    /// nothing yet.
    pub fn new(channel: Sender<Message>, mode: Mode) -> (r: Manager)
        ensures
            r.mode == mode,
            r.primary == (State { hash: 0, timestamp: 0 }),
            r.clipboard == (State { hash: 0, timestamp: 0 }),
            r.display.atoms() == Map::<Seq<char>, u64>::empty(),
            r.display.names() == Map::<u64, String>::empty(),
    {
        Manager {
            mode,
            primary: State::default(),
            clipboard: State::default(),
            display: Display::new(),
            channel,
        }
    }

    /// Interns `name` in the display's cache; see [`Display::intern`].
    pub fn intern(&mut self, name: &str) -> (r: Interned)
        ensures
            final(self).mode == old(self).mode,
            final(self).primary == old(self).primary,
            final(self).clipboard == old(self).clipboard,
            final(self).display.names() == old(self).display.names(),
            match cached_atom(old(self).display.atoms(), name@) {
                Some(a) => r == Interned::Known(a) && final(self).display.atoms() == old(self).display.atoms().insert(
                    name@,
                    a,
                ),
                None => r == Interned::Ask(atom_source_of(name@)) && final(self).display.atoms() == old(self).display.atoms(),
            },
    {
        self.display.intern(name)
    }

    /// Names `atom` from the display's cache; see [`Display::atom`].
    pub fn atom(&mut self, atom: u64) -> (r: Named)
        ensures
            final(self).mode == old(self).mode,
            final(self).primary == old(self).primary,
            final(self).clipboard == old(self).clipboard,
            final(self).display.atoms() == old(self).display.atoms(),
            old(self).display.names().contains_key(atom) ==> (r matches Named::Known(n) && n == old(self).display.names()[atom] && final(self).display.names() == old(self).display.names()),
            !old(self).display.names().contains_key(atom) && atom == 0 ==> (r matches Named::Known(n) && n@
                == "None"@ && final(self).display.names() == old(self).display.names().insert(0, n)),
            !old(self).display.names().contains_key(atom) && atom != 0 ==> (r is Ask && final(self).display.names() == old(self).display.names()),
    {
        self.display.atom(atom)
    }

    /// Reads the selection `which` from what it offered: the time it was
    /// taken and its (MIME type, data) pairs. Only that selection's state
    /// changes, as [`polled`] says.
    pub fn selection(&mut self, which: Mode, timestamp: u64, entries: Vec<(String, Vec<u8>)>) -> (r: Option<Change>)
        ensures
            final(self).mode == old(self).mode,
            final(self).display == old(self).display,
            which == Mode::Selection ==> final(self).clipboard == old(self).clipboard,
            which == Mode::Clipboard ==> final(self).primary == old(self).primary,
            ({
                let (s, c) = polled(
                    if which == Mode::Selection {
                        old(self).primary
                    } else {
                        old(self).clipboard
                    },
                    (timestamp, entries_view(entries@)),
                );
                &&& c == change_view(r)
                &&& s == (if which == Mode::Selection {
                    final(self).primary
                } else {
                    final(self).clipboard
                })
            }),
    {
        match which {
            Mode::Selection => self.primary.observe(timestamp, entries),
            Mode::Clipboard => self.clipboard.observe(timestamp, entries),
        }
    }

    /// Polls the selections the mode shares, each from what it offered: in
    /// selection mode both are read, the primary selection first, and the
    /// first change found is reported; in clipboard mode only the clipboard is
    /// read.
    pub fn poll(
        &mut self,
        primary: (u64, Vec<(String, Vec<u8>)>),
        clipboard: (u64, Vec<(String, Vec<u8>)>),
    ) -> (r: Option<Change>)
        ensures
            final(self).mode == old(self).mode,
            final(self).display == old(self).display,
            old(self).mode == Mode::Clipboard ==> final(self).primary == old(self).primary,
            old(self).mode == Mode::Clipboard ==> ({
                let (s, c) = polled(old(self).clipboard, (clipboard.0, entries_view(clipboard.1@)));
                c == change_view(r) && s == final(self).clipboard
            }),
            old(self).mode == Mode::Selection ==> ({
                let (s1, c1) = polled(old(self).primary, (primary.0, entries_view(primary.1@)));
                let (s2, c2) = polled(old(self).clipboard, (clipboard.0, entries_view(clipboard.1@)));
                &&& s1 == final(self).primary
                &&& s2 == final(self).clipboard
                &&& change_view(r) == (if c1 is Some {
                    c1
                } else {
                    c2
                })
            }),
    {
        match self.mode {
            Mode::Selection => {
                let a = self.selection(Mode::Selection, primary.0, primary.1);
                let b = self.selection(Mode::Clipboard, clipboard.0, clipboard.1);
                match a {
                    Some(c) => Some(c),
                    None => b,
                }
            },
            Mode::Clipboard => self.selection(Mode::Clipboard, clipboard.0, clipboard.1),
        }
    }

    /// Reports `change` as a change of this computer's clipboard: the
    /// message `Outgoing(change)` goes on the channel, and comes back when
    /// the receiving end is gone.
    pub fn send(&self, change: Change) -> (r: Result<(), Message>)
        ensures
            r matches Err(m) ==> m == Direction::Outgoing(change),
    {
        send_value(&self.channel, Direction::Outgoing(change))
    }
}

} // verus!
