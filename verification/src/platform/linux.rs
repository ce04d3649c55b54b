//! A lighter X11 back end, which only watches a selection: an atom cache that learns the names
//! of the formats a selection offers, the back end's configuration, and the
//! phases of its watch over the selection.

use vstd::prelude::*;
use vstd::hash_map::StringHashMap;

use crate::entries::str_eq;
use crate::platform::x11::{AtomSource, Interned, Named, XmuAtom};
use crate::text::strings_view;

verus! {

/// The atoms that this back end takes as fixed by the protocol.
pub open spec fn fixed_atom(name: Seq<char>) -> Option<u64> {
    if name == "PRIMARY"@ {
        Some(1)
    } else if name == "SECONDARY"@ {
        Some(2)
    } else if name == "STRING"@ {
        Some(31)
    } else {
        None
    }
}

/// Where this back end takes the atom of `name` from.
pub open spec fn source_of(name: Seq<char>) -> AtomSource {
    if let Some(a) = fixed_atom(name) {
        AtomSource::Predefined(a)
    } else if name == "UTF8_STRING"@ {
        AtomSource::Xmu(XmuAtom::Utf8String)
    } else if name == "CLIPBOARD"@ {
        AtomSource::Xmu(XmuAtom::Clipboard)
    } else if name == "TIMESTAMP"@ {
        AtomSource::Xmu(XmuAtom::Timestamp)
    } else if name == "TARGETS"@ {
        AtomSource::Xmu(XmuAtom::Targets)
    } else {
        AtomSource::Server
    }
}

/// Where this back end takes the atom of `name` from; see [`source_of`].
fn atom_source(name: &str) -> (r: AtomSource)
    ensures
        r == source_of(name@),
{
    if str_eq(name, "PRIMARY") {
        AtomSource::Predefined(1)
    } else if str_eq(name, "SECONDARY") {
        AtomSource::Predefined(2)
    } else if str_eq(name, "STRING") {
        AtomSource::Predefined(31)
    } else if str_eq(name, "UTF8_STRING") {
        AtomSource::Xmu(XmuAtom::Utf8String)
    } else if str_eq(name, "CLIPBOARD") {
        AtomSource::Xmu(XmuAtom::Clipboard)
    } else if str_eq(name, "TIMESTAMP") {
        AtomSource::Xmu(XmuAtom::Timestamp)
    } else if str_eq(name, "TARGETS") {
        AtomSource::Xmu(XmuAtom::Targets)
    } else {
        AtomSource::Server
    }
}

/// The atoms interned or learnt so far, by name.
pub struct AtomCache {
    map: StringHashMap<u64>,
}

impl AtomCache {
    /// The atoms known so far, by name.
    pub closed spec fn known(&self) -> Map<Seq<char>, u64> {
        self.map@
    }

    /// An empty cache.
    pub fn new() -> (r: AtomCache)
        ensures
            r.known() == Map::<Seq<char>, u64>::empty(),
    {
        AtomCache { map: StringHashMap::new() }
    }

    /// Interns `name`: the known atom; else the fixed one, which is learnt;
    /// else where to ask for it, after which [`AtomCache::hint`] learns it.
    pub fn intern(&mut self, name: &str) -> (r: Interned)
        ensures
            old(self).known().contains_key(name@) ==> r == Interned::Known(old(self).known()[name@])
                && final(self).known() == old(self).known(),
            !old(self).known().contains_key(name@) ==> match fixed_atom(name@) {
                Some(a) => r == Interned::Known(a) && final(self).known() == old(self).known().insert(name@, a),
                None => r == Interned::Ask(source_of(name@)) && final(self).known() == old(self).known(),
            },
    {
        if let Some(a) = self.map.get(name) {
            return Interned::Known(*a);
        }
        match atom_source(name) {
            AtomSource::Predefined(a) => {
                self.map.insert(String::from_str(name), a);
                Interned::Known(a)
            },
            source => Interned::Ask(source),
        }
    }

    /// The name of the atom `id`: `None` for the atom 0; any other the server
    /// names.
    pub fn name(&self, id: u64) -> (r: Named)
        ensures
            id == 0 ==> (r matches Named::Known(n) && n@ == "None"@),
            id != 0 ==> r is Ask,
    {
        if id == 0 {
            Named::Known(String::from_str("None"))
        } else {
            Named::Ask
        }
    }

    /// Learns that `name` is the atom `id`.
    pub fn hint(&mut self, name: &str, id: u64)
        ensures
            final(self).known() == old(self).known().insert(name@, id),
    {
        self.map.insert(String::from_str(name), id);
    }

    /// Learns the (atom, name) pairs of the formats a selection offers, and
    /// returns their names in order.
    pub fn learn(&mut self, formats: Vec<(u64, String)>) -> (r: Vec<String>)
        ensures
            strings_view(r@) == formats@.map_values(|f: (u64, String)| f.1@),
            final(self).known() == learnt(old(self).known(), formats_view(formats@)),
    {
        let ghost fv = formats_view(formats@);
        let mut names: Vec<String> = Vec::new();
        let mut i: usize = 0;
        while i < formats.len()
            invariant
                fv == formats_view(formats@),
                i <= formats@.len(),
                strings_view(names@) == formats@.take(i as int).map_values(|f: (u64, String)| f.1@),
                self.known() == learnt(old(self).known(), fv.take(i as int)),
            decreases formats.len() - i,
        {
            let id = formats[i].0;
            let name = formats[i].1.clone();
            self.hint(name.as_str(), id);
            let ghost before = strings_view(names@);
            assert(formats@[i as int].1@ == name@);
            names.push(name);
            assert(strings_view(names@) =~= before.push(name@));
            assert(formats@.take(i + 1).map_values(|f: (u64, String)| f.1@) =~= formats@.take(
                i as int,
            ).map_values(|f: (u64, String)| f.1@).push(name@));
            assert(strings_view(names@) =~= formats@.take(i + 1).map_values(|f: (u64, String)| f.1@));
            assert(fv.take(i + 1).drop_last() =~= fv.take(i as int));
            assert(fv.take(i + 1).last() == (id, name@));
            i = i + 1;
        }
        assert(formats@.take(formats@.len() as int) =~= formats@);
        assert(fv.take(fv.len() as int) =~= fv);
        names
    }
}

/// The (atom, name) pairs of formats, by their views.
pub open spec fn formats_view(formats: Seq<(u64, String)>) -> Seq<(u64, Seq<char>)> {
    formats.map_values(|f: (u64, String)| (f.0, f.1@))
}

/// What the cache knows after learning `formats` in order: each name the
/// atom of its last pair.
pub open spec fn learnt(known: Map<Seq<char>, u64>, formats: Seq<(u64, Seq<char>)>) -> Map<Seq<char>, u64>
    decreases formats.len(),
{
    if formats.len() == 0 {
        known
    } else {
        learnt(known, formats.drop_last()).insert(formats.last().1, formats.last().0)
    }
}

/// A format learnt from a selection's targets is interned as the atom the
/// selection gave for it, the last one where a name comes twice.
pub proof fn lemma_learnt_atom(known: Map<Seq<char>, u64>, formats: Seq<(u64, Seq<char>)>, i: int)
    requires
        0 <= i < formats.len(),
        forall|j: int| i < j < formats.len() ==> formats[j].1 != formats[i].1,
    ensures
        learnt(known, formats).contains_key(formats[i].1),
        learnt(known, formats)[formats[i].1] == formats[i].0,
    decreases formats.len(),
{
    if i < formats.len() - 1 {
        lemma_learnt_atom(known, formats.drop_last(), i);
        assert(formats.last().1 != formats[i].1);
    }
}

/// The source named in the configuration.
pub open spec fn source_named(name: Seq<char>) -> Option<Source> {
    if name == "selection"@ {
        Some(Source::Selection)
    } else if name == "clipboard"@ {
        Some(Source::Clipboard)
    } else {
        None
    }
}

/// Which selection the back end watches.
#[derive(Clone, Copy, Debug, PartialEq, Eq, Structural)]
pub enum Source {
    Selection,
    Clipboard,
}

impl Source {
    /// The source named in the configuration: `selection` or `clipboard`.
    pub fn from_name(name: &str) -> (r: Option<Source>)
        ensures
            r == source_named(name@),
    {
        if str_eq(name, "selection") {
            Some(Source::Selection)
        } else if str_eq(name, "clipboard") {
            Some(Source::Clipboard)
        } else {
            None
        }
    }

    /// The name of the selection's atom.
    pub fn selection(&self) -> (r: String)
        ensures
            *self == Source::Selection ==> r@ == "PRIMARY"@,
            *self == Source::Clipboard ==> r@ == "CLIPBOARD"@,
    {
        match self {
            Source::Selection => String::from_str("PRIMARY"),
            Source::Clipboard => String::from_str("CLIPBOARD"),
        }
    }
}

/// The back end's configuration: the display to open, if not the default
/// one, and the selection to watch.
pub struct Clipboard {
    pub display: Option<String>,
    pub source: Source,
}

impl Clipboard {
    /// The configuration from the platform table's `display` and `source`;
    /// the primary selection unless another source is given.
    pub fn new(display: Option<String>, source: Option<Source>) -> (r: Clipboard)
        ensures
            r.display == display,
            r.source == (match source {
                Some(s) => s,
                None => Source::Selection,
            }),
    {
        let source = match source {
            Some(s) => s,
            None => Source::Selection,
        };
        Clipboard { display, source }
    }
}

/// The phases of the watch over the selection.
#[derive(Clone, Copy, Debug, PartialEq, Eq, Structural)]
pub enum Phase {
    /// About to ask the selection for its targets.
    Start,
    /// Waiting for the targets.
    Formats,
    /// Reserved for reading the timestamp; nothing happens in it.
    Timestamp,
    /// Reserved for reading the content; nothing happens in it.
    Fetch,
    /// Done with one round: forget what was read and rest.
    Done,
}

/// What the watch does in a phase.
#[derive(Clone, Copy, Debug, PartialEq, Eq, Structural)]
pub enum Action {
    /// Ask the selection to convert itself to its targets.
    RequestTargets,
    /// Wait for the next event.
    WaitForEvent,
    /// Nothing.
    Nothing,
    /// Forget the formats and the timestamp, and rest a second.
    Rest,
}

impl Phase {
    /// What the watch does in this phase.
    pub fn action(&self) -> (r: Action)
        ensures
            *self == Phase::Start ==> r == Action::RequestTargets,
            *self == Phase::Formats ==> r == Action::WaitForEvent,
            *self == Phase::Timestamp || *self == Phase::Fetch ==> r == Action::Nothing,
            *self == Phase::Done ==> r == Action::Rest,
    {
        match self {
            Phase::Start => Action::RequestTargets,
            Phase::Formats => Action::WaitForEvent,
            Phase::Timestamp => Action::Nothing,
            Phase::Fetch => Action::Nothing,
            Phase::Done => Action::Rest,
        }
    }

    /// The phase after this one's action, where `notified` says whether the
    /// event waited for was the selection's answer: the targets are asked
    /// for, awaited until the answer comes, and after a rest asked for again.
    pub fn next(&self, notified: bool) -> (r: Phase)
        ensures
            *self == Phase::Start ==> r == Phase::Formats,
            *self == Phase::Formats && notified ==> r == Phase::Done,
            *self == Phase::Formats && !notified ==> r == Phase::Formats,
            *self == Phase::Timestamp ==> r == Phase::Timestamp,
            *self == Phase::Fetch ==> r == Phase::Fetch,
            *self == Phase::Done ==> r == Phase::Start,
    {
        match self {
            Phase::Start => Phase::Formats,
            Phase::Formats => if notified {
                Phase::Done
            } else {
                Phase::Formats
            },
            Phase::Timestamp => Phase::Timestamp,
            Phase::Fetch => Phase::Fetch,
            Phase::Done => Phase::Start,
        }
    }
}

/// Whether the selection's answer carries its targets: it names a property.
pub fn answer_has_targets(property: u64) -> (r: bool)
    ensures
        r == (property != 0),
{
    property != 0
}

} // verus!
