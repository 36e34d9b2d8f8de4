//! NV item operations as `mtb` sees them: the argument lists of a read, a
//! write and a delete, the checks a write must pass before anything is
//! touched, and how a read-back decides whether an operation landed.
use vstd::prelude::*;
use crate::importer::ascii_lower_exec;
use crate::text::{dec_digits, int_text, push_decimal, push_int, string_from_str, string_push_str};
use crate::util::{ascii_lower, bytes_to_hex, hex_decode, hex_encode, hex_text_error, invalid_slot_message, nv_path_allowed,
    nv_path_clean, parse_hex, slot_valid, unclean_path_message, unprefixed_path_message, validate_nv_path,
    validate_slot, EfsRead, EfsReadModel};

verus! {

// ---------------------------------------------------------------------------
// `mtb` argument lists
// ---------------------------------------------------------------------------

pub open spec fn args_view(v: Seq<String>) -> Seq<Seq<char>> {
    Seq::new(v.len(), |i: int| v[i]@)
}

fn text_of_int(x: i32) -> (r: String)
    ensures
        r@ == int_text(x as int),
{
    let mut s = String::new();
    push_int(&mut s, x as i64);
    s
}

fn efs_args(op: &str, slot: i32, path: &str) -> (r: Vec<String>)
    ensures
        args_view(r@) == seq!["4"@, op@, int_text(slot as int), path@],
{
    let mut r: Vec<String> = Vec::new();
    r.push(string_from_str("4"));
    r.push(string_from_str(op));
    r.push(text_of_int(slot));
    r.push(string_from_str(path));
    assert(args_view(r@) =~= seq!["4"@, op@, int_text(slot as int), path@]);
    r
}

/// `4 4 <slot> <path>`: read an NV item.
pub fn efs_read_args(slot: i32, path: &str) -> (r: Vec<String>)
    ensures
        args_view(r@) == seq!["4"@, "4"@, int_text(slot as int), path@],
{
    efs_args("4", slot, path)
}

/// `4 6 <slot> <path>`: delete an NV item.
pub fn efs_delete_args(slot: i32, path: &str) -> (r: Vec<String>)
    ensures
        args_view(r@) == seq!["4"@, "6"@, int_text(slot as int), path@],
{
    efs_args("6", slot, path)
}

/// The decimal text of each byte, one argument per byte.
pub open spec fn byte_args(bytes: Seq<u8>) -> Seq<Seq<char>> {
    Seq::new(bytes.len(), |i: int| dec_digits(bytes[i] as nat))
}

/// `4 5 <slot> <path> <byte>...`: write an NV item, one decimal byte per
/// argument.
pub fn efs_write_args(slot: i32, path: &str, bytes: &[u8]) -> (r: Vec<String>)
    ensures
        args_view(r@) == seq!["4"@, "5"@, int_text(slot as int), path@] + byte_args(bytes@),
{
    let mut r = efs_args("5", slot, path);
    let mut i: usize = 0;
    while i < bytes.len()
        invariant
            i <= bytes@.len(),
            args_view(r@) == seq!["4"@, "5"@, int_text(slot as int), path@] + byte_args(bytes@.take(i as int)),
        decreases bytes@.len() - i,
    {
        let mut t = String::new();
        push_decimal(&mut t, bytes[i] as u64);
        let ghost prev = args_view(r@);
        r.push(t);
        assert(args_view(r@) =~= prev.push(dec_digits(bytes@[i as int] as nat)));
        assert(byte_args(bytes@.take(i + 1)) =~= byte_args(bytes@.take(i as int)).push(
            dec_digits(bytes@[i as int] as nat),
        ));
        i = i + 1;
    }
    assert(bytes@.take(bytes@.len() as int) == bytes@);
    r
}

// ---------------------------------------------------------------------------
// Read-back
// ---------------------------------------------------------------------------

/// A read shows the state an operation meant to leave: these bytes, or the
/// item absent.
pub open spec fn read_shows(expected: Option<Seq<u8>>, read: EfsReadModel) -> bool {
    match expected {
        Some(b) => read == EfsReadModel::Present(b),
        None => read is Absent,
    }
}

pub fn read_back_matches(expected: Option<&[u8]>, read: &EfsRead) -> (r: bool)
    ensures
        r == read_shows(
            match expected {
                Some(b) => Some(b@),
                None => None,
            },
            read@,
        ),
{
    match (expected, read) {
        (Some(b), EfsRead::Present(got)) => {
            if got.len() != b.len() {
                assert(got@.len() != b@.len());
                return false;
            }
            let mut i: usize = 0;
            while i < b.len()
                invariant
                    read@ == EfsReadModel::Present(got@),
                    expected == Some(b),
                    got@.len() == b@.len(),
                    i <= b@.len(),
                    forall|j: int| 0 <= j < i ==> got@[j] == b@[j],
                decreases b@.len() - i,
            {
                if got[i] != b[i] {
                    assert(got@[i as int] != b@[i as int]);
                    return false;
                }
                i = i + 1;
            }
            assert(got@ =~= b@);
            true
        },
        (Some(_), _) => false,
        (None, EfsRead::Absent) => true,
        (None, _) => false,
    }
}

/// A read shows an item present whose bytes, as lowercase hex, are exactly
/// `hex`.
pub open spec fn read_shows_hex(hex: Seq<char>, read: EfsReadModel) -> bool {
    match read {
        EfsReadModel::Present(b) => hex_encode(b) == hex,
        _ => false,
    }
}

pub fn read_back_hex_matches(hex: &str, read: &EfsRead) -> (r: bool)
    ensures
        r == read_shows_hex(hex@, read@),
{
    match read {
        EfsRead::Present(b) => {
            let h = bytes_to_hex(b.as_slice());
            crate::text::str_eq(h.as_str(), hex)
        },
        _ => false,
    }
}

// ---------------------------------------------------------------------------
// Reads, writes and deletes of one item
// ---------------------------------------------------------------------------

pub open spec fn path_message(path: Seq<char>) -> Seq<char> {
    if !nv_path_clean(path) {
        unclean_path_message()
    } else {
        unprefixed_path_message(path)
    }
}

/// Why an item may not be read or deleted: its path, then its slot.
pub open spec fn nv_target_error(path: Seq<char>, slot: int) -> Option<Seq<char>> {
    if !nv_path_allowed(path) {
        Some(path_message(path))
    } else if !slot_valid(slot) {
        Some(invalid_slot_message(slot))
    } else {
        None
    }
}

pub fn check_nv_target(path: &str, slot: i32) -> (res: Result<(), String>)
    ensures
        match nv_target_error(path@, slot as int) {
            None => res is Ok,
            Some(m) => res matches Err(e) && e@ == m,
        },
{
    validate_nv_path(path)?;
    validate_slot(slot)?;
    Ok(())
}

pub open spec fn payload_too_large_message() -> Seq<char> {
    "Write payload exceeds 512 bytes"@
}

/// Why a write of `hex` to an item may not go ahead: its path, its slot,
/// the hex text, then the payload size.
pub open spec fn nv_write_error(path: Seq<char>, hex: Seq<char>, slot: int) -> Option<Seq<char>> {
    if nv_target_error(path, slot) is Some {
        nv_target_error(path, slot)
    } else if hex_text_error(hex) is Some {
        hex_text_error(hex)
    } else if hex_decode(hex).len() > 512 {
        Some(payload_too_large_message())
    } else {
        None
    }
}

/// The checks a write passes before anything is read, backed up or
/// written; the payload's bytes when it passes them.
pub fn check_nv_write(path: &str, hex_str: &str, slot: i32) -> (res: Result<Vec<u8>, String>)
    ensures
        match nv_write_error(path@, hex_str@, slot as int) {
            None => res matches Ok(b) && b@ == hex_decode(hex_str@),
            Some(m) => res matches Err(e) && e@ == m,
        },
{
    check_nv_target(path, slot)?;
    let raw = parse_hex(hex_str)?;
    if raw.len() > 512 {
        return Err(string_from_str("Write payload exceeds 512 bytes"));
    }
    Ok(raw)
}

/// A write landed: `mtb` exited 0 and the item reads back as the payload
/// (compared as lowercase hex).
pub open spec fn write_landed(write_exit: int, hex: Seq<char>, after: EfsReadModel) -> bool {
    write_exit == 0 && read_shows_hex(ascii_lower(hex), after)
}

pub fn write_verified(write_exit: i32, hex_str: &str, after: &EfsRead) -> (r: bool)
    ensures
        r == write_landed(write_exit as int, hex_str@, after@),
{
    let expected = ascii_lower_exec(hex_str);
    write_exit == 0 && read_back_hex_matches(expected.as_str(), after)
}

/// A delete landed: `mtb` exited 0 and the item reads back absent.
pub open spec fn delete_landed(delete_exit: int, after: EfsReadModel) -> bool {
    delete_exit == 0 && after is Absent
}

pub fn delete_verified(delete_exit: i32, after: &EfsRead) -> (r: bool)
    ensures
        r == delete_landed(delete_exit as int, after@),
{
    delete_exit == 0 && matches!(after, EfsRead::Absent)
}

/// What a write or a delete of one item leads to once the item is read back.
#[derive(Debug, Clone, Copy, PartialEq, Eq)]
pub enum ChangeOutcome {
    /// It landed.
    Landed,
    /// `mtb` reported a failure; the item is left as it is.
    Failed,
    /// `mtb` exited 0 but the item does not read back as asked: it is put
    /// back from the state read before.
    RollBack,
}

pub open spec fn change_outcome(exit: int, landed: bool) -> ChangeOutcome {
    if landed {
        ChangeOutcome::Landed
    } else if exit == 0 {
        ChangeOutcome::RollBack
    } else {
        ChangeOutcome::Failed
    }
}

/// The outcome of writing `hex_str` once the item reads back as `after`.
pub fn after_write(write_exit: i32, hex_str: &str, after: &EfsRead) -> (r: ChangeOutcome)
    ensures
        r == change_outcome(write_exit as int, write_landed(write_exit as int, hex_str@, after@)),
{
    if write_verified(write_exit, hex_str, after) {
        ChangeOutcome::Landed
    } else if write_exit == 0 {
        ChangeOutcome::RollBack
    } else {
        ChangeOutcome::Failed
    }
}

/// The outcome of a delete once the item reads back as `after`.
pub fn after_delete(delete_exit: i32, after: &EfsRead) -> (r: ChangeOutcome)
    ensures
        r == change_outcome(delete_exit as int, delete_landed(delete_exit as int, after@)),
{
    if delete_verified(delete_exit, after) {
        ChangeOutcome::Landed
    } else if delete_exit == 0 {
        ChangeOutcome::RollBack
    } else {
        ChangeOutcome::Failed
    }
}

impl ChangeOutcome {
    /// The stage a write's report names: `"rollback"` when the item is put
    /// back, else `"verify"`.
    pub fn stage(&self) -> (r: &'static str)
        ensures
            r@ == (if *self == ChangeOutcome::RollBack {
                "rollback"@
            } else {
                "verify"@
            }),
    {
        match self {
            ChangeOutcome::RollBack => "rollback",
            _ => "verify",
        }
    }
}

/// How an item is put back: the bytes it held are written again, or it is
/// deleted when it was absent.
pub fn rollback_action(before: &Option<Vec<u8>>) -> (r: &'static str)
    ensures
        r@ == (if before is Some {
            "write"@
        } else {
            "delete"@
        }),
{
    match before {
        Some(_) => "write",
        None => "delete",
    }
}

pub open spec fn state_view(b: Option<Vec<u8>>) -> Option<Seq<u8>> {
    match b {
        Some(v) => Some(v@),
        None => None,
    }
}

/// The checks of a rollback: for each item put back, whether it reads as it
/// was before (`afters[i]` is the read-back of the item that held
/// `befores[i]`); and whether every item does.
pub fn rollback_checks(befores: &Vec<Option<Vec<u8>>>, afters: &Vec<EfsRead>) -> (r: (Vec<bool>, bool))
    requires
        befores@.len() == afters@.len(),
    ensures
        r.0@.len() == befores@.len(),
        forall|i: int| 0 <= i < befores@.len() ==> #[trigger] r.0@[i] == read_shows(state_view(befores@[i]), afters@[i]@),
        r.1 == (forall|i: int| 0 <= i < befores@.len() ==> #[trigger] r.0@[i]),
{
    let mut each: Vec<bool> = Vec::new();
    let mut all = true;
    let mut i: usize = 0;
    while i < befores.len()
        invariant
            i <= befores@.len(),
            befores@.len() == afters@.len(),
            each@.len() == i,
            forall|j: int| 0 <= j < i ==> #[trigger] each@[j] == read_shows(state_view(befores@[j]), afters@[j]@),
            all == (forall|j: int| 0 <= j < i ==> #[trigger] each@[j]),
        decreases befores@.len() - i,
    {
        let ok = match &befores[i] {
            Some(b) => read_back_matches(Some(b.as_slice()), &afters[i]),
            None => read_back_matches(None, &afters[i]),
        };
        let ghost prev = each@;
        each.push(ok);
        assert(forall|j: int| 0 <= j < i ==> each@[j] == prev[j]);
        if !ok {
            assert(!each@[i as int]);
        }
        all = all && ok;
        i = i + 1;
    }
    (each, all)
}

// ---------------------------------------------------------------------------
// Laws
// ---------------------------------------------------------------------------

proof fn lemma_lower_hex_decode(hex: Seq<char>)
    requires
        crate::util::all_hex(hex),
    ensures
        hex_decode(ascii_lower(hex)) == hex_decode(hex),
{
    let l = ascii_lower(hex);
    assert forall|i: int| 0 <= i < l.len() implies #[trigger] crate::util::hex_val(l[i]) == crate::util::hex_val(hex[i]) by {
        if 'A' <= hex[i] && hex[i] <= 'F' {
            assert((((hex[i] as u32) + 32) as char) as int == hex[i] as int + 32);
        }
    }
    assert(hex_decode(l) =~= hex_decode(hex));
}

/// A write that is reported as landed left exactly the payload in the item:
/// the read-back holds the bytes the hex text denotes.
pub proof fn law_landed_write_holds_payload(write_exit: int, hex: Seq<char>, after: EfsReadModel)
    requires
        hex_text_error(hex) is None,
        write_landed(write_exit, hex, after),
    ensures
        after == EfsReadModel::Present(hex_decode(hex)),
{
    if let EfsReadModel::Present(b) = after {
        crate::util::lemma_hex_encode(b);
        lemma_lower_hex_decode(hex);
    }
}

/// A read-back that matches a payload's hex text holds the payload's bytes.
pub proof fn law_hex_read_back_holds_payload(hex: Seq<char>, read: EfsReadModel)
    requires
        read_shows_hex(hex, read),
    ensures
        read == EfsReadModel::Present(hex_decode(hex)),
{
    if let EfsReadModel::Present(b) = read {
        crate::util::lemma_hex_encode(b);
    }
}

} // verus!
