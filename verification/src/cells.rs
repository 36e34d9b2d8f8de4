//! Serving-cell reports of `mtb 9 <opt> <slot>`: the `ASDIV DATA:` line read
//! as key/value fields, and the transmit power of a `TX INFO:` line.
use vstd::prelude::*;
use crate::text::{chars_of, find, find_exec, lemma_char_vec_deep_view, lines, parse_i32, parse_i32_exec,
    slice_range, split_lines, split_str, split_str_exec, starts_with, starts_with_exec, string_from_chars,
    trim, trim_exec, trim_start, trim_start_exec};

verus! {

// ---------------------------------------------------------------------------
// Sections and key/value pairs
// ---------------------------------------------------------------------------

/// The first line at or after `i` that, leading whitespace aside, starts
/// with `marker`.
pub open spec fn marked_line_from(ls: Seq<Seq<char>>, marker: Seq<char>, i: int) -> Option<int>
    decreases ls.len() - i,
{
    if i < 0 || i >= ls.len() {
        None
    } else if starts_with(trim_start(ls[i]), marker) {
        Some(i)
    } else {
        marked_line_from(ls, marker, i + 1)
    }
}

proof fn lemma_marked_line(ls: Seq<Seq<char>>, marker: Seq<char>, i: int)
    requires
        marked_line_from(ls, marker, i) is Some,
    ensures
        0 <= i <= marked_line_from(ls, marker, i)->0 < ls.len(),
        starts_with(trim_start(ls[marked_line_from(ls, marker, i)->0]), marker),
    decreases ls.len() - i,
{
    if !starts_with(trim_start(ls[i]), marker) {
        lemma_marked_line(ls, marker, i + 1);
    }
}

/// What follows `marker` on its line, trimmed.
pub open spec fn section_content(line: Seq<char>, marker: Seq<char>) -> Seq<char> {
    trim(trim_start(line).skip(marker.len() as int))
}

/// A piece `key<sep>value` split at the first `sep`, both sides trimmed.
pub open spec fn key_value(piece: Seq<char>, sep: Seq<char>) -> Option<(Seq<char>, Seq<char>)> {
    match find(piece, sep) {
        Some(i) => Some((trim(piece.take(i)), trim(piece.skip(i + sep.len())))),
        None => None,
    }
}

/// The key/value pairs of the pieces that have a separator, in order.
pub open spec fn key_values(ps: Seq<Seq<char>>, sep: Seq<char>) -> Seq<(Seq<char>, Seq<char>)>
    decreases ps.len(),
{
    if ps.len() == 0 {
        Seq::empty()
    } else {
        let rest = key_values(ps.drop_last(), sep);
        match key_value(ps.last(), sep) {
            Some(kv) => rest.push(kv),
            None => rest,
        }
    }
}

pub open spec fn pairs_view(v: Seq<(String, String)>) -> Seq<(Seq<char>, Seq<char>)> {
    Seq::new(v.len(), |i: int| (v[i].0@, v[i].1@))
}

fn marked_line(ls: &Vec<Vec<char>>, marker: &[char]) -> (r: Option<usize>)
    ensures
        match marked_line_from(ls.deep_view(), marker@, 0) {
            None => r is None,
            Some(i) => r == Some(i as usize),
        },
{
    let ghost lv = ls.deep_view();
    let mut i: usize = 0;
    while i < ls.len()
        invariant
            i <= ls@.len(),
            lv == ls.deep_view(),
            marked_line_from(lv, marker@, 0) == marked_line_from(lv, marker@, i as int),
        decreases ls@.len() - i,
    {
        proof {
            lemma_char_vec_deep_view(ls@[i as int]);
        }
        assert(lv[i as int] == ls@[i as int]@);
        let t = trim_start_exec(ls[i].as_slice());
        if starts_with_exec(t.as_slice(), marker) {
            return Some(i);
        }
        i = i + 1;
    }
    None
}

fn key_value_exec(piece: &[char], sep: &[char]) -> (r: Option<(String, String)>)
    ensures
        match key_value(piece@, sep@) {
            None => r is None,
            Some((k, v)) => r matches Some(p) && p.0@ == k && p.1@ == v,
        },
{
    match find_exec(piece, sep) {
        Some(i) => {
            proof {
                crate::text::lemma_find_from_some(piece@, sep@, 0);
            }
            assert(crate::text::occurs_at(piece@, sep@, i as int));
            let n = piece.len();
            let end: usize = i + sep.len();
            let k = slice_range(piece, 0, i);
            let v = slice_range(piece, end, n);
            assert(k@ == piece@.take(i as int));
            assert(v@ == piece@.skip(end as int));
            let kt = trim_exec(k.as_slice());
            let vt = trim_exec(v.as_slice());
            Some((string_from_chars(kt.as_slice()), string_from_chars(vt.as_slice())))
        },
        None => None,
    }
}

fn key_values_exec(ps: &Vec<Vec<char>>, sep: &[char]) -> (r: Vec<(String, String)>)
    ensures
        pairs_view(r@) == key_values(ps.deep_view(), sep@),
{
    let ghost pv = ps.deep_view();
    let mut out: Vec<(String, String)> = Vec::new();
    let mut i: usize = 0;
    while i < ps.len()
        invariant
            i <= ps@.len(),
            pv == ps.deep_view(),
            pairs_view(out@) == key_values(pv.take(i as int), sep@),
        decreases ps@.len() - i,
    {
        proof {
            lemma_char_vec_deep_view(ps@[i as int]);
        }
        assert(pv.take(i + 1).drop_last() == pv.take(i as int));
        assert(pv.take(i + 1).last() == ps@[i as int]@);
        match key_value_exec(ps[i].as_slice(), sep) {
            Some(kv) => {
                let ghost before = pairs_view(out@);
                out.push(kv);
                assert(pairs_view(out@) =~= before.push((kv.0@, kv.1@)));
            },
            None => {},
        }
        i = i + 1;
    }
    assert(pv.take(ps@.len() as int) == pv);
    out
}

// ---------------------------------------------------------------------------
// ASDIV fields
// ---------------------------------------------------------------------------

/// The fields of an `ASDIV DATA:` line, in the order they were read. A key
/// read twice keeps its last value.
pub struct AsdivFields {
    pub pairs: Vec<(String, String)>,
}

/// The value a key has: the last pair with that key.
pub open spec fn field_value(log: Seq<(Seq<char>, Seq<char>)>, key: Seq<char>) -> Option<Seq<char>>
    decreases log.len(),
{
    if log.len() == 0 {
        None
    } else if log.last().0 == key {
        Some(log.last().1)
    } else {
        field_value(log.drop_last(), key)
    }
}

pub open spec fn asdiv_marker() -> Seq<char> {
    "ASDIV DATA:"@
}

/// The fields of the first `ASDIV DATA:` line of `raw`: its content split
/// at `", "`, each piece split at its first `": "`.
pub open spec fn asdiv_fields(raw: Seq<char>) -> Seq<(Seq<char>, Seq<char>)> {
    let ls = lines(raw);
    match marked_line_from(ls, asdiv_marker(), 0) {
        Some(i) => key_values(split_str(section_content(ls[i], asdiv_marker()), ", "@), ": "@),
        None => Seq::empty(),
    }
}

impl AsdivFields {
    /// The value of `key` (its last value, when it was read more than once).
    pub fn get(&self, key: &str) -> (r: Option<&String>)
        ensures
            match field_value(pairs_view(self.pairs@), key@) {
                None => r is None,
                Some(v) => r matches Some(s) && s@ == v,
            },
    {
        let ghost lv = pairs_view(self.pairs@);
        let mut i: usize = self.pairs.len();
        assert(lv.take(i as int) == lv);
        while i > 0
            invariant
                i <= self.pairs@.len(),
                lv == pairs_view(self.pairs@),
                field_value(lv, key@) == field_value(lv.take(i as int), key@),
            decreases i,
        {
            let ghost t = lv.take(i as int);
            assert(t.drop_last() == lv.take(i - 1));
            assert(t.last() == (self.pairs@[i - 1].0@, self.pairs@[i - 1].1@));
            if crate::text::str_eq(self.pairs[i - 1].0.as_str(), key) {
                return Some(&self.pairs[i - 1].1);
            }
            i = i - 1;
        }
        None
    }

    /// No field was read.
    pub fn is_empty(&self) -> (r: bool)
        ensures
            r == (self.pairs@.len() == 0),
    {
        self.pairs.len() == 0
    }
}

/// The fields of the first `ASDIV DATA:` line of `raw` (none when there is
/// no such line).
pub fn parse_asdiv_line(raw: &str) -> (r: AsdivFields)
    ensures
        pairs_view(r.pairs@) == asdiv_fields(raw@),
{
    let cs = chars_of(raw);
    let ls = split_lines(cs.as_slice());
    let marker = chars_of("ASDIV DATA:");
    match marked_line(&ls, marker.as_slice()) {
        None => AsdivFields { pairs: Vec::new() },
        Some(i) => {
            proof {
                lemma_marked_line(ls.deep_view(), marker@, 0);
                lemma_char_vec_deep_view(ls@[i as int]);
            }
            assert(ls.deep_view()[i as int] == ls@[i as int]@);
            let t = trim_start_exec(ls[i].as_slice());
            proof {
                reveal_strlit("ASDIV DATA:");
            }
            let rest = slice_range(t.as_slice(), marker.len(), t.len());
            let content = trim_exec(rest.as_slice());
            let sep = chars_of(", ");
            proof {
                reveal_strlit(", ");
            }
            let pieces = split_str_exec(content.as_slice(), sep.as_slice());
            let kvsep = chars_of(": ");
            AsdivFields { pairs: key_values_exec(&pieces, kvsep.as_slice()) }
        },
    }
}

// ---------------------------------------------------------------------------
// Transmit power
// ---------------------------------------------------------------------------

pub open spec fn tx_marker() -> Seq<char> {
    "TX INFO:"@
}

/// The first `tx_power = <i32>` among the pieces from `i` on.
pub open spec fn tx_value_from(ps: Seq<Seq<char>>, i: int) -> Option<int>
    decreases ps.len() - i,
{
    if i < 0 || i >= ps.len() {
        None
    } else {
        match key_value(ps[i], " = "@) {
            Some((k, v)) => if k == "tx_power"@ && parse_i32(v) is Some {
                parse_i32(v)
            } else {
                tx_value_from(ps, i + 1)
            },
            None => tx_value_from(ps, i + 1),
        }
    }
}

/// The first `tx_power` value on a `TX INFO:` line, searching the lines from
/// `i` on.
pub open spec fn tx_power_from(ls: Seq<Seq<char>>, i: int) -> Option<int>
    decreases ls.len() - i,
{
    if i < 0 || i >= ls.len() {
        None
    } else if starts_with(trim_start(ls[i]), tx_marker()) && tx_value_from(
        split_str(section_content(ls[i], tx_marker()), ", "@),
        0,
    ) is Some {
        tx_value_from(split_str(section_content(ls[i], tx_marker()), ", "@), 0)
    } else {
        tx_power_from(ls, i + 1)
    }
}

/// The transmit power a report gives: the first `tx_power` value found,
/// unless it is the sentinel 65535.
pub open spec fn tx_power(raw: Seq<char>) -> Option<int> {
    match tx_power_from(lines(raw), 0) {
        Some(v) => if v == 65535 {
            None
        } else {
            Some(v)
        },
        None => None,
    }
}

fn tx_value_exec(ps: &Vec<Vec<char>>) -> (r: Option<i32>)
    ensures
        match tx_value_from(ps.deep_view(), 0) {
            None => r is None,
            Some(v) => r matches Some(x) && x as int == v,
        },
{
    let ghost pv = ps.deep_view();
    let sep = chars_of(" = ");
    let key = chars_of("tx_power");
    let mut i: usize = 0;
    while i < ps.len()
        invariant
            i <= ps@.len(),
            pv == ps.deep_view(),
            sep@ == " = "@,
            key@ == "tx_power"@,
            tx_value_from(pv, 0) == tx_value_from(pv, i as int),
        decreases ps@.len() - i,
    {
        proof {
            lemma_char_vec_deep_view(ps@[i as int]);
        }
        assert(pv[i as int] == ps@[i as int]@);
        match key_value_exec(ps[i].as_slice(), sep.as_slice()) {
            Some((k, v)) => {
                let kc = chars_of(k.as_str());
                if crate::text::chars_eq(kc.as_slice(), key.as_slice()) {
                    let vc = chars_of(v.as_str());
                    match parse_i32_exec(vc.as_slice()) {
                        Some(x) => {
                            return Some(x);
                        },
                        None => {},
                    }
                }
            },
            None => {},
        }
        i = i + 1;
    }
    None
}

/// The transmit power in a `mtb 9 31` report, or `None` when it is missing
/// or reported as 65535.
pub fn parse_tx_power(raw: &str) -> (r: Option<i32>)
    ensures
        match tx_power(raw@) {
            None => r is None,
            Some(v) => r matches Some(x) && x as int == v,
        },
{
    let cs = chars_of(raw);
    let ls = split_lines(cs.as_slice());
    let ghost lv = ls.deep_view();
    let marker = chars_of("TX INFO:");
    let sep = chars_of(", ");
    proof {
        reveal_strlit(", ");
    }
    let mut i: usize = 0;
    while i < ls.len()
        invariant
            i <= ls@.len(),
            lv == ls.deep_view(),
            lv == lines(raw@),
            marker@ == tx_marker(),
            sep@ == ", "@,
            sep@.len() == 2,
            tx_power_from(lv, 0) == tx_power_from(lv, i as int),
        decreases ls@.len() - i,
    {
        proof {
            lemma_char_vec_deep_view(ls@[i as int]);
        }
        assert(lv[i as int] == ls@[i as int]@);
        let t = trim_start_exec(ls[i].as_slice());
        if starts_with_exec(t.as_slice(), marker.as_slice()) {
            let rest = slice_range(t.as_slice(), marker.len(), t.len());
            let content = trim_exec(rest.as_slice());
            let pieces = split_str_exec(content.as_slice(), sep.as_slice());
            match tx_value_exec(&pieces) {
                Some(v) => {
                    if v == 65535 {
                        return None;
                    }
                    return Some(v);
                },
                None => {},
            }
        }
        i = i + 1;
    }
    None
}

} // verus!
