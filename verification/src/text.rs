//! Reading the small textual values of the command line and the configuration
//! file: separated lists, decimal numbers and sizes.

use vstd::prelude::*;

verus! {

/// The pieces of `s` between the occurrences of `sep`, in order; the empty
/// string gives one empty piece, and two adjacent separators an empty piece
/// between them.
pub open spec fn split_spec(s: Seq<char>, sep: char) -> Seq<Seq<char>>
    decreases s.len(),
{
    if s.len() == 0 {
        seq![Seq::empty()]
    } else {
        let rest = split_spec(s.drop_last(), sep);
        if s.last() == sep {
            rest.push(Seq::empty())
        } else {
            rest.update(rest.len() - 1, rest.last().push(s.last()))
        }
    }
}

/// Splitting always gives at least one piece.
pub proof fn lemma_split_len(s: Seq<char>, sep: char)
    ensures
        split_spec(s, sep).len() >= 1,
    decreases s.len(),
{
    if s.len() > 0 {
        lemma_split_len(s.drop_last(), sep);
    }
}

/// The views of a sequence of strings.
pub open spec fn strings_view(v: Seq<String>) -> Seq<Seq<char>> {
    v.map_values(|s: String| s@)
}

/// Splits `s` at every `sep`, as `str::split` does.
pub fn split(s: &str, sep: char) -> (r: Vec<String>)
    ensures
        strings_view(r@) == split_spec(s@, sep),
{
    let n = s.unicode_len();
    let mut parts: Vec<String> = Vec::new();
    let mut start: usize = 0;
    let mut i: usize = 0;
    assert(s@.take(0) =~= Seq::<char>::empty());
    while i < n
        invariant
            n == s@.len(),
            start <= i <= n,
            split_spec(s@.take(i as int), sep) =~= strings_view(parts@).push(
                s@.subrange(start as int, i as int),
            ),
        decreases n - i,
    {
        let c = s.get_char(i);
        proof {
            let t = s@.take(i + 1);
            assert(t.drop_last() =~= s@.take(i as int));
            assert(t.last() == c);
            lemma_split_len(s@.take(i as int), sep);
        }
        let ghost rest = split_spec(s@.take(i as int), sep);
        if c == sep {
            let piece = String::from_str(s.substring_char(start, i));
            let ghost before = parts@;
            parts.push(piece);
            assert(strings_view(parts@) =~= strings_view(before).push(s@.subrange(start as int, i as int)));
            assert(s@.subrange(i + 1, i + 1) =~= Seq::<char>::empty());
            assert(split_spec(s@.take(i + 1), sep) == rest.push(Seq::empty()));
            start = i + 1;
        } else {
            assert(s@.subrange(start as int, i + 1) =~= s@.subrange(start as int, i as int).push(c));
            assert(split_spec(s@.take(i + 1), sep) == rest.update(rest.len() - 1, rest.last().push(c)));
            assert(rest.update(rest.len() - 1, rest.last().push(c)) =~= strings_view(parts@).push(
                s@.subrange(start as int, i + 1),
            ));
        }
        i = i + 1;
    }
    let piece = String::from_str(s.substring_char(start, n));
    let ghost before = parts@;
    parts.push(piece);
    assert(s@.take(n as int) =~= s@);
    assert(strings_view(parts@) =~= strings_view(before).push(s@.subrange(start as int, n as int)));
    parts
}

/// Whether `c` is an ASCII decimal digit.
pub open spec fn is_digit(c: char) -> bool {
    '0' <= c <= '9'
}

/// The value of the decimal digits `ds`.
pub open spec fn decimal_value(ds: Seq<char>) -> nat
    decreases ds.len(),
{
    if ds.len() == 0 {
        0
    } else {
        (decimal_value(ds.drop_last()) * 10 + (ds.last() as int - '0' as int)) as nat
    }
}

/// Whether `ds` is a non-empty run of ASCII decimal digits.
pub open spec fn all_digits(ds: Seq<char>) -> bool {
    ds.len() > 0 && forall|i: int| 0 <= i < ds.len() ==> is_digit(#[trigger] ds[i])
}

/// The value of the ASCII decimal digits of `s[from..to]`, when they are all
/// digits, there is at least one, and the value is at most `max`.
pub fn parse_digits(s: &str, from: usize, to: usize, max: u64) -> (r: Option<u64>)
    requires
        from <= to <= s@.len(),
    ensures
        ({
            let ds = s@.subrange(from as int, to as int);
            &&& r is Some <==> all_digits(ds) && decimal_value(ds) <= max
            &&& r matches Some(v) ==> v == decimal_value(ds)
        }),
{
    if from == to {
        return None;
    }
    let mut v: u64 = 0;
    let mut i: usize = from;
    assert(s@.subrange(from as int, from as int) =~= Seq::<char>::empty());
    while i < to
        invariant
            from <= i <= to <= s@.len(),
            forall|j: int| from <= j < i ==> is_digit(#[trigger] s@[j]),
            v == decimal_value(s@.subrange(from as int, i as int)),
            v <= max,
        decreases to - i,
    {
        let c = s.get_char(i);
        if !('0' <= c && c <= '9') {
            assert(!is_digit(s@.subrange(from as int, to as int)[i - from]));
            return None;
        }
        let d = (c as u32 - '0' as u32) as u64;
        proof {
            let t = s@.subrange(from as int, i + 1);
            assert(t.drop_last() =~= s@.subrange(from as int, i as int));
            assert(t.last() == c);
        }
        if v > max / 10 || d > max - v * 10 {
            proof {
                let full = s@.subrange(from as int, to as int);
                assert(decimal_value(s@.subrange(from as int, i + 1)) == v * 10 + d);
                assert(decimal_value(s@.subrange(from as int, i + 1)) > max);
                if all_digits(full) {
                    lemma_decimal_prefix_bound(full, (i + 1 - from) as nat);
                    assert(full.take(i + 1 - from) =~= s@.subrange(from as int, i + 1));
                }
            }
            return None;
        }
        v = v * 10 + d;
        i = i + 1;
    }
    Some(v)
}

/// A run of digits is worth at least each of its prefixes.
proof fn lemma_decimal_prefix_bound(ds: Seq<char>, k: nat)
    requires
        k <= ds.len(),
        forall|i: int| 0 <= i < ds.len() ==> is_digit(#[trigger] ds[i]),
    ensures
        decimal_value(ds.take(k as int)) <= decimal_value(ds),
    decreases ds.len(),
{
    if k < ds.len() {
        assert(ds.drop_last().take(k as int) =~= ds.take(k as int));
        assert forall|i: int| 0 <= i < ds.drop_last().len() implies is_digit(
            #[trigger] ds.drop_last()[i],
        ) by {
            assert(ds.drop_last()[i] == ds[i]);
        }
        lemma_decimal_prefix_bound(ds.drop_last(), k);
    } else {
        assert(ds.take(k as int) =~= ds);
    }
}

/// What `str::parse` gives for an unsigned integer type whose largest value is
/// `max`: an optional `+`, then one or more ASCII digits whose value is at
/// most `max`.
pub open spec fn spec_parse_unsigned(s: Seq<char>, max: nat) -> Option<nat> {
    let ds = if s.len() > 0 && s[0] == '+' {
        s.drop_first()
    } else {
        s
    };
    if all_digits(ds) && decimal_value(ds) <= max {
        Some(decimal_value(ds))
    } else {
        None
    }
}

/// Parses an unsigned decimal number no larger than `max`, as `str::parse` does
/// for the unsigned integer types.
pub fn parse_unsigned(s: &str, max: u64) -> (r: Option<u64>)
    ensures
        match spec_parse_unsigned(s@, max as nat) {
            Some(v) => r == Some(v as u64),
            None => r is None,
        },
{
    let n = s.unicode_len();
    let from: usize = if n > 0 && s.get_char(0) == '+' {
        1
    } else {
        0
    };
    assert(s@.subrange(from as int, n as int) =~= (if s@.len() > 0 && s@[0] == '+' {
        s@.drop_first()
    } else {
        s@
    }));
    parse_digits(s, from, n, max)
}

/// The multiplier of a size suffix: 1024 to the power of its position in
/// `K`, `M`, `G`, `T`.
pub open spec fn suffix_multiplier(c: char) -> Option<nat> {
    if c == 'K' {
        Some(1024)
    } else if c == 'M' {
        Some(1024 * 1024)
    } else if c == 'G' {
        Some(1024 * 1024 * 1024)
    } else if c == 'T' {
        Some(1024 * 1024 * 1024 * 1024)
    } else {
        None
    }
}

/// A size as the command line and the configuration file give it: decimal
/// digits, optionally followed by one of `K`, `M`, `G`, `T` (binary
/// multiples); `None` for anything else, or for a size that does not fit.
pub open spec fn spec_human(s: Seq<char>) -> Option<nat> {
    if s.len() > 0 && suffix_multiplier(s.last()) is Some {
        let ds = s.drop_last();
        let v = decimal_value(ds) * suffix_multiplier(s.last())->0;
        if all_digits(ds) && v <= usize::MAX {
            Some(v)
        } else {
            None
        }
    } else if all_digits(s) && decimal_value(s) <= usize::MAX {
        Some(decimal_value(s))
    } else {
        None
    }
}

/// Reads a size; see [`spec_human`].
pub fn human(s: &str) -> (r: Option<usize>)
    ensures
        match spec_human(s@) {
            Some(v) => r == Some(v as usize),
            None => r is None,
        },
{
    let n = s.unicode_len();
    assert(s@.subrange(0, n as int) =~= s@);
    let mult: u64 = if n == 0 {
        1
    } else {
        let c = s.get_char(n - 1);
        if c == 'K' {
            1024
        } else if c == 'M' {
            1024 * 1024
        } else if c == 'G' {
            1024 * 1024 * 1024
        } else if c == 'T' {
            1024 * 1024 * 1024 * 1024
        } else {
            1
        }
    };
    assert(n > 0 && suffix_multiplier(s@.last()) is Some ==> mult as nat == suffix_multiplier(
        s@.last(),
    )->0);
    assert(mult == 1 ==> !(n > 0 && suffix_multiplier(s@.last()) is Some));
    if mult == 1 {
        match parse_digits(s, 0, n, usize::MAX as u64) {
            Some(v) => Some(v as usize),
            None => None,
        }
    } else {
        assert(s@.subrange(0, n - 1) =~= s@.drop_last());
        let ghost dv = decimal_value(s@.drop_last());
        assert(dv * mult >= dv) by (nonlinear_arith)
            requires
                mult >= 1,
        ;
        match parse_digits(s, 0, n - 1, u64::MAX) {
            Some(v) => match v.checked_mul(mult) {
                Some(total) => {
                    if total <= usize::MAX as u64 {
                        Some(total as usize)
                    } else {
                        None
                    }
                },
                None => None,
            },
            None => None,
        }
    }
}

} // verus!
