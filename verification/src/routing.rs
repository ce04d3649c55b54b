//! Where each change goes: local changes to the peers, changes from peers to
//! the clipboard, as the mode allows, with the formats the filter and the size
//! limit leave out removed from what is sent.

use std::sync::Arc;

use vstd::prelude::*;

use crate::clipboard::{Change, Direction, Message, entries_view};
use crate::settings::Mode;

verus! {

/// Whether `regex::Regex::new` accepts `pattern`.
pub uninterp spec fn regex_valid(pattern: Seq<char>) -> bool;

/// Whether the regular expression `pattern` matches somewhere in `text`, as
/// `regex::Regex::is_match` decides it.
pub uninterp spec fn regex_matches(pattern: Seq<char>, text: Seq<char>) -> bool;

/// Whether `regex::Regex::new` accepts `pattern`; the result is named, not
/// stated: what the crate accepts is its regular expression syntax.
#[verifier::external_body]
fn regex_compiles(pattern: &str) -> (r: bool)
    ensures
        r == regex_valid(pattern@),
{
    regex::Regex::new(pattern).is_ok()
}

/// The pattern `^(.*?)/(.*?)$`, which the clipboard back ends use to tell a
/// MIME type from the other names of a format.
pub open spec fn mime_pattern() -> Seq<char> {
    seq!['^', '(', '.', '*', '?', ')', '/', '(', '.', '*', '?', ')', '$']
}

/// A text that `^(.*?)/(.*?)$` matches: `.` is any character but a line feed
/// and the anchors hold the match to the whole text, so the text holds a `/`
/// and no line feed.
pub open spec fn spec_mime_like(t: Seq<char>) -> bool {
    t.contains('/') && !t.contains('\n')
}

/// Compiles `pattern` with `regex::Regex::new` and, when it compiles, asks
/// `regex::Regex::is_match` about `text`. In general the answer is named, not
/// stated; for the fixed pattern [`mime_pattern`] it is stated as the crate's
/// syntax documentation defines `^`, `$`, `.` and `*?`.
#[verifier::external_body]
pub(crate) fn regex_match(pattern: &str, text: &str) -> (r: Option<bool>)
    ensures
        r == (if regex_valid(pattern@) {
            Some(regex_matches(pattern@, text@))
        } else {
            None
        }),
        pattern@ == mime_pattern() ==> r == Some(spec_mime_like(text@)),
{
    regex::Regex::new(pattern).ok().map(|re| re.is_match(text))
}

/// The characters that the first step of [`wildcard`] escapes: the
/// backslash and `+ * ? [ ^ ] $ ( ) { } = ! < > | : -` (not the dot).
pub open spec fn is_special(c: char) -> bool {
    c == '\\' || c == '+' || c == '*' || c == '?' || c == '[' || c == '^' || c == ']' || c == '$'
        || c == '(' || c == ')' || c == '{' || c == '}' || c == '=' || c == '!' || c == '<' || c
        == '>' || c == '|' || c == ':' || c == '-'
}

/// `s` with a backslash put before its first special character only.
pub open spec fn escape_first(s: Seq<char>) -> Seq<char>
    decreases s.len(),
{
    if s.len() == 0 {
        s
    } else if is_special(s[0]) {
        seq!['\\'] + s
    } else {
        seq![s[0]] + escape_first(s.drop_first())
    }
}

/// `s` with its first occurrence of the two characters `a b` replaced by
/// `rep`, and unchanged where they do not occur.
pub open spec fn replace_first(s: Seq<char>, a: char, b: char, rep: Seq<char>) -> Seq<char>
    decreases s.len(),
{
    if s.len() < 2 {
        s
    } else if s[0] == a && s[1] == b {
        rep + s.skip(2)
    } else {
        seq![s[0]] + replace_first(s.drop_first(), a, b, rep)
    }
}

/// The regular expression of a MIME-type pattern: its first special
/// character escaped, then the first escaped `*` made a lazy run of any
/// characters and the first escaped `?` any one character, anchored at both
/// ends.
pub open spec fn spec_wildcard(g: Seq<char>) -> Seq<char> {
    let e = escape_first(g);
    let s = replace_first(e, '\\', '*', seq!['.', '*', '?']);
    let q = replace_first(s, '\\', '?', seq!['.']);
    seq!['^'] + q + seq!['$']
}

fn escape_special(s: &str) -> (r: String)
    ensures
        r@ == escape_first(s@),
{
    let n = s.unicode_len();
    let mut out = String::new();
    let mut i: usize = 0;
    assert(s@.skip(0) =~= s@);
    while i < n
        invariant
            n == s@.len(),
            i <= n,
            escape_first(s@) == out@ + escape_first(s@.skip(i as int)),
        decreases n - i,
    {
        let c = s.get_char(i);
        let ghost t = s@.skip(i as int);
        assert(t[0] == c);
        if c == '\\' || c == '+' || c == '*' || c == '?' || c == '[' || c == '^' || c == ']' || c
            == '$' || c == '(' || c == ')' || c == '{' || c == '}' || c == '=' || c == '!' || c
            == '<' || c == '>' || c == '|' || c == ':' || c == '-' {
            proof {
                reveal_strlit("\\");
            }
            assert("\\"@ =~= seq!['\\']);
            out.append("\\");
            out.append(s.substring_char(i, n));
            assert(s@.subrange(i as int, n as int) =~= t);
            assert(out@ =~= escape_first(s@));
            return out;
        }
        out.append(s.substring_char(i, i + 1));
        assert(s@.subrange(i as int, i + 1) =~= seq![c]);
        assert(t.drop_first() =~= s@.skip(i + 1));
        assert(out@ + escape_first(s@.skip(i + 1)) =~= escape_first(s@));
        i = i + 1;
    }
    assert(s@.skip(n as int) =~= Seq::<char>::empty());
    assert(out@ =~= escape_first(s@));
    out
}

fn replace_pair(s: &str, a: char, b: char, rep: &str) -> (r: String)
    ensures
        r@ == replace_first(s@, a, b, rep@),
{
    let n = s.unicode_len();
    let mut out = String::new();
    let mut i: usize = 0;
    assert(s@.skip(0) =~= s@);
    while i < n && i + 1 < n
        invariant
            n == s@.len(),
            i <= n,
            replace_first(s@, a, b, rep@) == out@ + replace_first(s@.skip(i as int), a, b, rep@),
        decreases n - i,
    {
        let ghost t = s@.skip(i as int);
        if s.get_char(i) == a && s.get_char(i + 1) == b {
            out.append(rep);
            out.append(s.substring_char(i + 2, n));
            assert(s@.subrange(i + 2, n as int) =~= t.skip(2));
            assert(out@ =~= replace_first(s@, a, b, rep@));
            return out;
        }
        let c = s.get_char(i);
        out.append(s.substring_char(i, i + 1));
        assert(s@.subrange(i as int, i + 1) =~= seq![c]);
        assert(t.drop_first() =~= s@.skip(i + 1));
        assert(out@ + replace_first(s@.skip(i + 1), a, b, rep@) =~= replace_first(s@, a, b, rep@));
        i = i + 1;
    }
    out.append(s.substring_char(i, n));
    assert(s@.subrange(i as int, n as int) =~= s@.skip(i as int));
    assert(out@ =~= replace_first(s@, a, b, rep@));
    out
}

/// Turns a MIME-type pattern such as `image/*` into a regular expression;
/// see [`spec_wildcard`].
pub fn wildcard(pattern: &str) -> (r: String)
    ensures
        r@ == spec_wildcard(pattern@),
{
    proof {
        reveal_strlit(".*?");
        reveal_strlit(".");
        reveal_strlit("^");
        reveal_strlit("$");
    }
    assert(".*?"@ =~= seq!['.', '*', '?']);
    assert("."@ =~= seq!['.']);
    let e = escape_special(pattern);
    let s = replace_pair(e.as_str(), '\\', '*', ".*?");
    let q = replace_pair(s.as_str(), '\\', '?', ".");
    let mut out = String::from_str("^");
    out.append(q.as_str());
    out.append("$");
    assert(out@ =~= spec_wildcard(pattern@));
    out
}

/// Whether a pattern compiles; the program refuses to start with one that
/// does not.
pub fn pattern_is_valid(pattern: &String) -> (r: bool)
    ensures
        r == regex_valid(pattern@),
{
    regex_compiles(pattern.as_str())
}

/// Whether some pattern of `filter` matches the MIME type `mime`; a pattern
/// that does not compile matches nothing.
pub open spec fn filtered_out(filter: Seq<Seq<char>>, mime: Seq<char>) -> bool {
    exists|i: int| 0 <= i < filter.len() && regex_valid(#[trigger] filter[i]) && regex_matches(filter[i], mime)
}

/// Whether a (format, data) pair is sent: no pattern matches its format, and
/// its data is below the limit when there is one.
pub open spec fn kept(filter: Seq<Seq<char>>, limit: usize, e: (Seq<char>, Seq<u8>)) -> bool {
    &&& !filtered_out(filter, e.0)
    &&& (limit == 0 || e.1.len() < limit)
}

/// The pairs of `es` that are sent, in their order.
pub open spec fn spec_filter(filter: Seq<Seq<char>>, limit: usize, es: Seq<(Seq<char>, Seq<u8>)>) -> Seq<
    (Seq<char>, Seq<u8>),
>
    decreases es.len(),
{
    if es.len() == 0 {
        Seq::empty()
    } else {
        let rest = spec_filter(filter, limit, es.drop_last());
        if kept(filter, limit, es.last()) {
            rest.push(es.last())
        } else {
            rest
        }
    }
}

/// Whether some pattern of `filter` matches `mime`.
pub fn matches_any(filter: &Vec<String>, mime: &String) -> (r: bool)
    ensures
        r == filtered_out(crate::text::strings_view(filter@), mime@),
{
    let ghost fv = crate::text::strings_view(filter@);
    let mut i: usize = 0;
    while i < filter.len()
        invariant
            fv == crate::text::strings_view(filter@),
            i <= filter@.len(),
            forall|j: int| 0 <= j < i ==> !(regex_valid(#[trigger] fv[j]) && regex_matches(fv[j], mime@)),
        decreases filter.len() - i,
    {
        assert(fv[i as int] == filter@[i as int]@);
        match regex_match(filter[i].as_str(), mime.as_str()) {
            Some(true) => {
                return true;
            },
            _ => {},
        }
        i = i + 1;
    }
    false
}

/// The pairs of a change that are sent: those whose format no pattern of
/// `filter` matches and, when `limit` is not zero, whose data is shorter than
/// `limit`, in their order.
pub fn filter_content(content: &Vec<(String, Vec<u8>)>, filter: &Vec<String>, limit: usize) -> (r: Vec<
    (String, Vec<u8>),
>)
    ensures
        entries_view(r@) == spec_filter(crate::text::strings_view(filter@), limit, entries_view(content@)),
{
    let ghost fv = crate::text::strings_view(filter@);
    let ghost es = entries_view(content@);
    let mut out: Vec<(String, Vec<u8>)> = Vec::new();
    let mut i: usize = 0;
    assert(es.take(0) =~= Seq::<(Seq<char>, Seq<u8>)>::empty());
    while i < content.len()
        invariant
            fv == crate::text::strings_view(filter@),
            es == entries_view(content@),
            i <= content@.len(),
            entries_view(out@) == spec_filter(fv, limit, es.take(i as int)),
        decreases content.len() - i,
    {
        let (format, data) = &content[i];
        let ghost e = (format@, data@);
        proof {
            assert(es[i as int] == e);
            let t = es.take(i + 1);
            assert(t.drop_last() =~= es.take(i as int));
            assert(t.last() == e);
        }
        let out_filter = matches_any(filter, format);
        if !out_filter && (limit == 0 || data.len() < limit) {
            let ghost before = out@;
            out.push((String::from_str(format.as_str()), vstd::slice::slice_to_vec(data.as_slice())));
            assert(entries_view(out@) =~= entries_view(before).push(e));
        }
        i = i + 1;
    }
    assert(es.take(content@.len() as int) =~= es);
    out
}

/// What becomes of a message: it goes to the local clipboard, to the peers,
/// or nowhere.
pub enum Route {
    Clipboard(Change),
    Peers(Change),
    Dropped,
}

/// Decides where a message goes. A change from a peer is applied to the
/// clipboard unless the mode is `Outgoing`; a local change goes to the peers,
/// with the filtered formats removed, unless the mode is `Incoming`.
pub fn route(mode: Mode, message: Message, filter: &Vec<String>, limit: usize) -> (r: Route)
    ensures
        match message {
            Direction::Incoming(change) => if mode == Mode::Outgoing {
                r is Dropped
            } else {
                r matches Route::Clipboard(c) && c == change
            },
            Direction::Outgoing(change) => if mode == Mode::Incoming {
                r is Dropped
            } else {
                r matches Route::Peers(c) && c.0 == change.0 && entries_view(c.1@) == spec_filter(
                    crate::text::strings_view(filter@),
                    limit,
                    entries_view(change.1@),
                )
            },
        },
{
    match message {
        Direction::Incoming(change) => {
            if mode == Mode::Outgoing {
                Route::Dropped
            } else {
                Route::Clipboard(change)
            }
        },
        Direction::Outgoing(change) => {
            if mode == Mode::Incoming {
                Route::Dropped
            } else {
                let inner: &(u64, Vec<(String, Vec<u8>)>) = &*change;
                let kept = filter_content(&inner.1, filter, limit);
                Route::Peers(Arc::new((inner.0, kept)))
            }
        },
    }
}

/// What is sent of a change is exactly what the filter and the size limit
/// keep: every pair sent is kept and comes from the change, and every pair of
/// the change that is kept is sent.
pub proof fn lemma_sent_pairs_are_kept(
    filter: Seq<Seq<char>>,
    limit: usize,
    es: Seq<(Seq<char>, Seq<u8>)>,
)
    ensures
        forall|i: int|
            0 <= i < spec_filter(filter, limit, es).len() ==> kept(filter, limit, #[trigger] spec_filter(
                filter,
                limit,
                es,
            )[i]),
        forall|e: (Seq<char>, Seq<u8>)| #[trigger]
            spec_filter(filter, limit, es).contains(e) ==> es.contains(e),
        forall|e: (Seq<char>, Seq<u8>)|
            es.contains(e) && kept(filter, limit, e) ==> #[trigger] spec_filter(filter, limit, es).contains(e),
    decreases es.len(),
{
    if es.len() > 0 {
        let init = es.drop_last();
        lemma_sent_pairs_are_kept(filter, limit, init);
        let rest = spec_filter(filter, limit, init);
        let out = spec_filter(filter, limit, es);
        assert forall|e: (Seq<char>, Seq<u8>)| #[trigger] out.contains(e) implies es.contains(e) by {
            let j = choose|j: int| 0 <= j < out.len() && out[j] == e;
            if j < rest.len() {
                assert(rest[j] == e);
                assert(rest.contains(e));
                let k = choose|k: int| 0 <= k < init.len() && init[k] == e;
                assert(es[k] == e);
            } else {
                assert(es[es.len() - 1] == e);
            }
        }
        assert forall|e: (Seq<char>, Seq<u8>)| es.contains(e) && kept(filter, limit, e) implies #[trigger] out.contains(
            e,
        ) by {
            let k = choose|k: int| 0 <= k < es.len() && es[k] == e;
            if k < es.len() - 1 {
                assert(init[k] == e);
                assert(init.contains(e));
                assert(rest.contains(e));
                let j = choose|j: int| 0 <= j < rest.len() && rest[j] == e;
                assert(out[j] == e);
            } else {
                assert(out[out.len() - 1] == e);
            }
        }
    }
}

/// Filtering what was already filtered changes nothing: a change that went
/// through one filter goes through the same filter again unchanged.
pub proof fn lemma_filter_idempotent(filter: Seq<Seq<char>>, limit: usize, es: Seq<(Seq<char>, Seq<u8>)>)
    ensures
        spec_filter(filter, limit, spec_filter(filter, limit, es)) == spec_filter(filter, limit, es),
    decreases es.len(),
{
    if es.len() > 0 {
        let init = es.drop_last();
        lemma_filter_idempotent(filter, limit, init);
        let rest = spec_filter(filter, limit, init);
        if kept(filter, limit, es.last()) {
            let out = rest.push(es.last());
            assert(out.drop_last() =~= rest);
        }
    }
}

} // verus!
