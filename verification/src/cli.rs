//! Command-line options: `--slot N` taken out of an argument list, and the
//! values of named flags.
use vstd::prelude::*;
use crate::text::{chars_of, parse_i32, parse_i32_exec, str_eq, string_from_str};

verus! {

pub open spec fn strings_view(v: Seq<String>) -> Seq<Seq<char>> {
    Seq::new(v.len(), |i: int| v[i]@)
}

/// `--slot N` options removed from `a`, the last one that parses as an
/// `i32` giving the slot (`slot` when none does); every other argument kept
/// in order.
pub open spec fn slot_scan(a: Seq<Seq<char>>, slot: int) -> (int, Seq<Seq<char>>)
    decreases a.len(),
{
    if a.len() == 0 {
        (slot, Seq::empty())
    } else if a[0] == "--slot"@ && a.len() >= 2 {
        slot_scan(
            a.skip(2),
            match parse_i32(a[1]) {
                Some(s) => s,
                None => slot,
            },
        )
    } else {
        let (s, rest) = slot_scan(a.skip(1), slot);
        (s, seq![a[0]] + rest)
    }
}

/// The SIM slot given by `--slot N` (0 when none), and the other arguments.
pub fn parse_slot(args: &[String]) -> (r: (i32, Vec<String>))
    ensures
        (r.0 as int, strings_view(r.1@)) == slot_scan(strings_view(args@), 0),
{
    let ghost av = strings_view(args@);
    let mut slot: i32 = 0;
    let mut remaining: Vec<String> = Vec::new();
    let mut i: usize = 0;
    assert(av.skip(0) == av);
    assert(strings_view(remaining@) + slot_scan(av, 0).1 =~= slot_scan(av, 0).1);
    while i < args.len()
        invariant
            i <= args@.len(),
            av == strings_view(args@),
            slot_scan(av, 0) == (slot_scan(av.skip(i as int), slot as int).0, strings_view(remaining@)
                + slot_scan(av.skip(i as int), slot as int).1),
        decreases args@.len() - i,
    {
        let ghost rest = av.skip(i as int);
        assert(rest[0] == args@[i as int]@);
        if str_eq(args[i].as_str(), "--slot") && i + 1 < args.len() {
            assert(rest[1] == args@[i + 1]@);
            assert(rest.skip(2) == av.skip(i + 2));
            let cs = chars_of(args[i + 1].as_str());
            match parse_i32_exec(cs.as_slice()) {
                Some(s) => {
                    slot = s;
                },
                None => {},
            }
            i = i + 2;
        } else {
            assert(rest.skip(1) == av.skip(i + 1));
            let ghost before = strings_view(remaining@);
            let ghost tail = slot_scan(av.skip(i + 1), slot as int).1;
            remaining.push(args[i].clone());
            assert(strings_view(remaining@) =~= before.push(args@[i as int]@));
            assert(before + (seq![rest[0]] + tail) =~= strings_view(remaining@) + tail);
            i = i + 1;
        }
    }
    (slot, remaining)
}

/// Flag values from `a`: where an argument equals one of `flags` and
/// another argument follows, that argument is the flag's value (the last
/// one wins) and both are passed over; any other argument is passed over
/// alone.
pub open spec fn flag_scan(a: Seq<Seq<char>>, flags: Seq<Seq<char>>, vals: Seq<Option<Seq<char>>>) -> Seq<Option<Seq<char>>>
    decreases a.len(),
{
    if a.len() == 0 {
        vals
    } else if a.len() >= 2 && flags.contains(a[0]) {
        flag_scan(a.skip(2), flags, vals.update(flags.index_of(a[0]), Some(a[1])))
    } else {
        flag_scan(a.skip(1), flags, vals)
    }
}

pub open spec fn opt_strings_view(v: Seq<Option<String>>) -> Seq<Option<Seq<char>>> {
    Seq::new(
        v.len(),
        |i: int|
            match v[i] {
                Some(s) => Some(s@),
                None => None,
            },
    )
}

fn flag_index(flags: &[&str], arg: &str) -> (r: Option<usize>)
    ensures
        match r {
            Some(k) => k < flags@.len() && flags@[k as int]@ == arg@ && forall|j: int|
                0 <= j < k ==> (#[trigger] flags@[j])@ != arg@,
            None => forall|j: int| 0 <= j < flags@.len() ==> (#[trigger] flags@[j])@ != arg@,
        },
{
    let mut k: usize = 0;
    while k < flags.len()
        invariant
            k <= flags@.len(),
            forall|j: int| 0 <= j < k ==> (#[trigger] flags@[j])@ != arg@,
        decreases flags@.len() - k,
    {
        if str_eq(flags[k], arg) {
            return Some(k);
        }
        k = k + 1;
    }
    None
}

/// The value of each of `flags` in `args` (see `flag_scan`), `None` for a
/// flag that is not given.
pub fn flag_values(args: &[String], flags: &[&str]) -> (r: Vec<Option<String>>)
    requires
        forall|a: int, b: int| 0 <= a < b < flags@.len() ==> flags@[a]@ != flags@[b]@,
    ensures
        opt_strings_view(r@) == flag_scan(
            strings_view(args@),
            Seq::new(flags@.len(), |j: int| flags@[j]@),
            Seq::new(flags@.len(), |j: int| None),
        ),
{
    let ghost av = strings_view(args@);
    let ghost fv = Seq::new(flags@.len(), |j: int| flags@[j]@);
    let mut vals: Vec<Option<String>> = Vec::new();
    let mut k: usize = 0;
    assert(opt_strings_view(vals@) =~= Seq::new(0 as nat, |j: int| None::<Seq<char>>));
    while k < flags.len()
        invariant
            k <= flags@.len(),
            vals@.len() == k,
            opt_strings_view(vals@) == Seq::new(k as nat, |j: int| None::<Seq<char>>),
        decreases flags@.len() - k,
    {
        let ghost before = vals@;
        vals.push(None);
        k = k + 1;
        assert forall|j: int| 0 <= j < k implies #[trigger] opt_strings_view(vals@)[j] == None::<Seq<char>> by {
            if j < k - 1 {
                assert(opt_strings_view(before)[j] == None::<Seq<char>>);
            }
        }
        assert(opt_strings_view(vals@) =~= Seq::new(k as nat, |j: int| None::<Seq<char>>));
    }
    assert(opt_strings_view(vals@) =~= Seq::new(flags@.len(), |j: int| None::<Seq<char>>));
    assert(av.skip(0) == av);
    let mut i: usize = 0;
    while i < args.len()
        invariant
            i <= args@.len(),
            av == strings_view(args@),
            fv == Seq::new(flags@.len(), |j: int| flags@[j]@),
            vals@.len() == flags@.len(),
            forall|a: int, b: int| 0 <= a < b < flags@.len() ==> flags@[a]@ != flags@[b]@,
            flag_scan(av, fv, Seq::new(flags@.len(), |j: int| None)) == flag_scan(
                av.skip(i as int),
                fv,
                opt_strings_view(vals@),
            ),
        decreases args@.len() - i,
    {
        let ghost rest = av.skip(i as int);
        assert(rest[0] == args@[i as int]@);
        let found = flag_index(flags, args[i].as_str());
        match found {
            Some(k) if i + 1 < args.len() => {
                proof {
                    assert(fv[k as int] == rest[0]);
                    assert(fv.contains(rest[0]));
                    assert(fv.index_of(rest[0]) == k as int) by {
                        let f = fv.index_of(rest[0]);
                        assert(fv[f] == rest[0]);
                        if f != k as int {
                            if f < k as int {
                                assert(flags@[f]@ == args@[i as int]@);
                            } else {
                                assert(flags@[k as int]@ == flags@[f]@);
                            }
                        }
                    }
                    assert(rest[1] == args@[i + 1]@);
                    assert(rest.skip(2) == av.skip(i + 2));
                }
                let ghost before = opt_strings_view(vals@);
                vals.set(k, Some(args[i + 1].clone()));
                assert(opt_strings_view(vals@) =~= before.update(k as int, Some(args@[i + 1]@)));
                i = i + 2;
            },
            _ => {
                proof {
                    if found is None {
                        assert(!fv.contains(rest[0])) by {
                            if fv.contains(rest[0]) {
                                let j = choose|j: int| 0 <= j < fv.len() && fv[j] == rest[0];
                                assert(flags@[j]@ == args@[i as int]@);
                            }
                        }
                    }
                    assert(rest.skip(1) == av.skip(i + 1));
                }
                i = i + 1;
            },
        }
    }
    vals
}

} // verus!
