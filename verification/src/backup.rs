//! Backup manifests (version 2): entries with a byte count and a SHA-256
//! checksum, their integrity check, the order of backups, and what a restore
//! verifies before it writes anything.
use vstd::prelude::*;
use crate::text::{chars_of, char_is_alphanumeric, dec_digits, lemma_dec_digits, lemma_pieces_concat,
    lemma_piece_scan_plain, parse_unsigned, parse_unsigned_exec, pieces, push_decimal, split_pieces,
    string_from_str, string_push, string_push_str, unicode_alphanumeric};
use crate::text::{contains, is_ascii_alphanumeric, is_ascii_digit};
use crate::util::{backup_id_ok, bytes_to_hex, hex_decode, hex_encode, hex_text_error, is_valid_sha256,
    nv_path_allowed, nv_path_clean, parse_hex, sha256_text_ok, unclean_path_message,
    unprefixed_path_message, validate_nv_path, validate_slot, slot_valid, invalid_slot_message};

verus! {

pub const BACKUP_VERSION: u32 = 2;

// ---------------------------------------------------------------------------
// SHA-256
// ---------------------------------------------------------------------------

/// The SHA-256 digest of `data`.
pub uninterp spec fn sha256_digest(data: Seq<u8>) -> Seq<u8>;

/// `<sha2::Sha256 as sha2::Digest>::digest`. Trusted: the result is
/// `sha256_digest(data)` and is 32 bytes long (the output size of `Sha256`).
#[verifier::external_body]
fn sha256(data: &[u8]) -> (r: Vec<u8>)
    ensures
        r@ == sha256_digest(data@),
        r@.len() == 32,
{
    <sha2::Sha256 as sha2::Digest>::digest(data).to_vec()
}

/// Lowercase hex text of the SHA-256 digest of `raw`.
pub fn hex_sha256(raw: &[u8]) -> (r: String)
    ensures
        r@ == hex_encode(sha256_digest(raw@)),
        sha256_digest(raw@).len() == 32,
{
    let d = sha256(raw);
    bytes_to_hex(d.as_slice())
}

// ---------------------------------------------------------------------------
// Entries
// ---------------------------------------------------------------------------

#[derive(Debug, Clone, PartialEq)]
pub struct BackupEntry {
    pub slot: i32,
    pub path: String,
    /// Raw bytes as hex; `None` means the item was absent (delete-restore).
    pub bytes: Option<String>,
    /// Byte count of the payload (0 when absent).
    pub size: u64,
    /// SHA-256 of the raw payload bytes, lowercase hex ("" when absent).
    pub sha256: String,
}

pub open spec fn opt_string_view(o: Option<String>) -> Option<Seq<char>> {
    match o {
        Some(s) => Some(s@),
        None => None,
    }
}

/// The bytes a hex payload stands for; empty when it is not valid hex.
pub open spec fn payload_bytes(hex: Seq<char>) -> Seq<u8> {
    if hex_text_error(hex) is None {
        hex_decode(hex)
    } else {
        Seq::empty()
    }
}

/// `e` is the entry made for `slot`, `path` and `bytes`: the size and
/// checksum of the payload it records.
pub open spec fn entry_made(e: BackupEntry, slot: i32, path: Seq<char>, bytes: Option<Seq<char>>) -> bool {
    &&& e.slot == slot
    &&& e.path@ == path
    &&& opt_string_view(e.bytes) == bytes
    &&& match bytes {
        None => e.size == 0 && e.sha256@ == Seq::<char>::empty(),
        Some(h) => {
            &&& e.size == payload_bytes(h).len()
            &&& e.sha256@ == hex_encode(sha256_digest(payload_bytes(h)))
            &&& sha256_digest(payload_bytes(h)).len() == 32
        },
    }
}

pub open spec fn size_mismatch_message(path: Seq<char>, got: nat, size: nat) -> Seq<char> {
    "Backup entry size mismatch for "@ + path + ": "@ + dec_digits(got) + " != "@ + dec_digits(size)
}

/// What is wrong with an entry, if anything: a path off the allowlist, a
/// missing or malformed checksum, bad hex, a size or checksum that does not
/// match the payload, or a size on an absent item.
pub open spec fn integrity_error(e: BackupEntry) -> Option<Seq<char>> {
    let path = e.path@;
    if !nv_path_allowed(path) {
        Some(if !nv_path_clean(path) { unclean_path_message() } else { unprefixed_path_message(path) })
    } else {
        match e.bytes {
            Some(hex) => if !sha256_text_ok(e.sha256@) {
                Some("missing/invalid checksum for "@ + path)
            } else if hex_text_error(hex@) is Some {
                Some("Backup entry has invalid hex for "@ + path)
            } else if hex_decode(hex@).len() != e.size {
                Some(size_mismatch_message(path, hex_decode(hex@).len(), e.size as nat))
            } else if hex_encode(sha256_digest(hex_decode(hex@))) != e.sha256@ {
                Some("Backup entry checksum mismatch for "@ + path)
            } else {
                None
            },
            None => if e.size != 0 {
                Some("Backup entry size mismatch (absent item) for "@ + path)
            } else {
                None
            },
        }
    }
}

impl BackupEntry {
    /// The entry for an item's current state: `Some(hex)` for its bytes,
    /// `None` when it is absent.
    pub fn new(slot: i32, path: String, bytes: Option<String>) -> (res: Self)
        ensures
            entry_made(res, slot, path@, opt_string_view(bytes)),
    {
        match bytes {
            Some(hex) => {
                let raw = match parse_hex(hex.as_str()) {
                    Ok(b) => b,
                    Err(_) => Vec::new(),
                };
                let size = raw.len() as u64;
                let sha256 = hex_sha256(raw.as_slice());
                BackupEntry { slot, path, bytes: Some(hex), size, sha256 }
            },
            None => BackupEntry { slot, path, bytes: None, size: 0, sha256: String::new() },
        }
    }

    /// Integrity check: path allowed, hex valid, size and checksum match
    /// (when a payload is present).
    pub fn verify_integrity(&self) -> (res: Result<(), String>)
        ensures
            match integrity_error(*self) {
                None => res is Ok,
                Some(m) => res matches Err(e) && e@ == m,
            },
    {
        if let Err(e) = validate_nv_path(self.path.as_str()) {
            return Err(e);
        }
        match &self.bytes {
            Some(hex) => {
                if !is_valid_sha256(self.sha256.as_str()) {
                    let mut e = string_from_str("missing/invalid checksum for ");
                    string_push_str(&mut e, self.path.as_str());
                    return Err(e);
                }
                let raw = match parse_hex(hex.as_str()) {
                    Ok(r) => r,
                    Err(_) => {
                        let mut e = string_from_str("Backup entry has invalid hex for ");
                        string_push_str(&mut e, self.path.as_str());
                        return Err(e);
                    },
                };
                if raw.len() as u64 != self.size {
                    let mut e = string_from_str("Backup entry size mismatch for ");
                    string_push_str(&mut e, self.path.as_str());
                    string_push_str(&mut e, ": ");
                    push_decimal(&mut e, raw.len() as u64);
                    string_push_str(&mut e, " != ");
                    push_decimal(&mut e, self.size);
                    return Err(e);
                }
                let sum = hex_sha256(raw.as_slice());
                if !crate::text::str_eq(sum.as_str(), self.sha256.as_str()) {
                    let mut e = string_from_str("Backup entry checksum mismatch for ");
                    string_push_str(&mut e, self.path.as_str());
                    return Err(e);
                }
                Ok(())
            },
            None => {
                if self.size != 0 {
                    let mut e = string_from_str("Backup entry size mismatch (absent item) for ");
                    string_push_str(&mut e, self.path.as_str());
                    return Err(e);
                }
                Ok(())
            },
        }
    }
}

// ---------------------------------------------------------------------------
// Manifests
// ---------------------------------------------------------------------------

/// A backup manifest: the entries captured before a change, with where and
/// why they were taken.
#[allow(non_snake_case)]
#[derive(Debug, Clone, PartialEq)]
pub struct Backup {
    pub version: u32,
    pub id: String,
    pub time: u64,
    pub reason: String,
    pub device: String,
    pub createdAt: String,
    pub entries: Vec<BackupEntry>,
}

/// The order of backups: `(millis, nanos, counter, pid)`, compared in that
/// order.
pub type OrderKey = (u64, u64, u64, u32);

/// The order key an id `<millis>_<nanos>_<pid>_<counter>_<reason>` carries:
/// its first four `_`-separated fields as numbers. `None` when there are
/// fewer than four fields or one of them is not a number of its type.
pub open spec fn order_key(id: Seq<char>) -> Option<OrderKey> {
    let p = pieces(id, '_');
    if p.len() >= 4 {
        match (
            parse_unsigned(p[0], 10, u64::MAX as nat),
            parse_unsigned(p[1], 10, u64::MAX as nat),
            parse_unsigned(p[2], 10, u32::MAX as nat),
            parse_unsigned(p[3], 10, u64::MAX as nat),
        ) {
            (Some(millis), Some(nanos), Some(pid), Some(counter)) => Some(
                (millis as u64, nanos as u64, counter as u64, pid as u32),
            ),
            _ => None,
        }
    } else {
        None
    }
}

/// The order key of a backup id (see `order_key`).
pub fn backup_order_key(id: &str) -> (r: Option<OrderKey>)
    ensures
        r == order_key(id@),
{
    let cs = chars_of(id);
    let ps = split_pieces(cs.as_slice(), '_');
    if ps.len() < 4 {
        return None;
    }
    proof {
        assert forall|i: int| 0 <= i < 4 implies ps@[i]@ == #[trigger] pieces(id@, '_')[i] by {
            crate::text::lemma_char_vec_deep_view(ps@[i]);
            assert(ps.deep_view()[i] == ps@[i].deep_view());
        }
    }
    let millis = match parse_unsigned_exec(ps[0].as_slice(), 10, u64::MAX) {
        Some(v) => v,
        None => return None,
    };
    let nanos = match parse_unsigned_exec(ps[1].as_slice(), 10, u64::MAX) {
        Some(v) => v,
        None => return None,
    };
    let pid = match parse_unsigned_exec(ps[2].as_slice(), 10, u32::MAX as u64) {
        Some(v) => v,
        None => return None,
    };
    let counter = match parse_unsigned_exec(ps[3].as_slice(), 10, u64::MAX) {
        Some(v) => v,
        None => return None,
    };
    Some((millis, nanos, counter, pid as u32))
}

/// `a` is not newer than `b`: a missing key is older than any key, keys
/// compare field by field.
pub open spec fn key_le(a: Option<OrderKey>, b: Option<OrderKey>) -> bool {
    match (a, b) {
        (None, _) => true,
        (Some(_), None) => false,
        (Some(x), Some(y)) => x.0 < y.0 || (x.0 == y.0 && (x.1 < y.1 || (x.1 == y.1 && (x.2 < y.2
            || (x.2 == y.2 && x.3 <= y.3))))),
    }
}

fn key_le_exec(a: Option<OrderKey>, b: Option<OrderKey>) -> (r: bool)
    ensures
        r == key_le(a, b),
{
    match (a, b) {
        (None, _) => true,
        (Some(_), None) => false,
        (Some(x), Some(y)) => x.0 < y.0 || (x.0 == y.0 && (x.1 < y.1 || (x.1 == y.1 && (x.2 < y.2
            || (x.2 == y.2 && x.3 <= y.3))))),
    }
}

proof fn lemma_key_order(a: Option<OrderKey>, b: Option<OrderKey>, c: Option<OrderKey>)
    ensures
        key_le(a, a),
        key_le(a, b) || key_le(b, a),
        key_le(a, b) && key_le(b, a) ==> a == b,
        key_le(a, b) && key_le(b, c) ==> key_le(a, c),
{
}

fn order_keys(ids: &[String]) -> (keys: Vec<Option<OrderKey>>)
    ensures
        keys@.len() == ids@.len(),
        forall|k: int| 0 <= k < ids@.len() ==> keys@[k] == order_key(#[trigger] ids@[k]@),
{
    let mut keys: Vec<Option<OrderKey>> = Vec::new();
    let mut i: usize = 0;
    while i < ids.len()
        invariant
            i <= ids@.len(),
            keys@.len() == i,
            forall|k: int| 0 <= k < i ==> keys@[k] == order_key(#[trigger] ids@[k]@),
        decreases ids@.len() - i,
    {
        keys.push(backup_order_key(ids[i].as_str()));
        i = i + 1;
    }
    keys
}

/// `order` lists every index of `ids` exactly once.
pub open spec fn is_index_permutation(order: Seq<usize>, n: nat) -> bool {
    &&& order.len() == n
    &&& forall|k: int| 0 <= k < order.len() ==> order[k] < n
    &&& forall|j: usize| j < n ==> #[trigger] order.contains(j)
    &&& forall|a: int, b: int| 0 <= a < b < order.len() ==> order[a] != order[b]
}

/// `order` lists the backups newest first; backups with equal keys keep
/// their relative order.
pub open spec fn newest_first_order(ids: Seq<Seq<char>>, order: Seq<usize>) -> bool {
    &&& is_index_permutation(order, ids.len())
    &&& forall|a: int, b: int|
        0 <= a < b < order.len() ==> key_le(
            order_key(ids[order[b] as int]),
            order_key(ids[order[a] as int]),
        )
    &&& forall|a: int, b: int|
        0 <= a < b < order.len() && order_key(ids[order[a] as int]) == order_key(ids[order[b] as int])
            ==> order[a] < order[b]
}

pub open spec fn ids_view(ids: Seq<String>) -> Seq<Seq<char>> {
    Seq::new(ids.len(), |i: int| ids[i]@)
}

/// The order in which backups with these ids are listed: newest first by
/// their order key, ties in the order given.
pub fn newest_first(ids: &[String]) -> (order: Vec<usize>)
    ensures
        newest_first_order(ids_view(ids@), order@),
{
    let keys = order_keys(ids);
    let ghost iv = ids_view(ids@);
    let n = ids.len();
    let mut r: Vec<usize> = Vec::new();
    let mut i: usize = 0;
    while i < n
        invariant
            n == ids@.len(),
            iv == ids_view(ids@),
            keys@.len() == n,
            forall|k: int| 0 <= k < n ==> keys@[k] == order_key(#[trigger] iv[k]),
            i <= n,
            r@.len() == i,
            forall|k: int| 0 <= k < r@.len() ==> r@[k] < i,
            forall|j: usize| j < i ==> #[trigger] r@.contains(j),
            forall|a: int, b: int| 0 <= a < b < r@.len() ==> r@[a] != r@[b],
            forall|a: int, b: int|
                0 <= a < b < r@.len() ==> key_le(keys@[r@[b] as int], keys@[r@[a] as int]),
            forall|a: int, b: int|
                0 <= a < b < r@.len() && keys@[r@[a] as int] == keys@[r@[b] as int] ==> r@[a] < r@[b],
        decreases n - i,
    {
        let ki = keys[i];
        let mut p: usize = 0;
        loop
            invariant
                p <= r@.len(),
                r@.len() == i,
                i < n,
                keys@.len() == n,
                forall|k: int| 0 <= k < r@.len() ==> r@[k] < i,
                ki == keys@[i as int],
                forall|q: int| 0 <= q < p ==> key_le(ki, keys@[r@[q] as int]),
            ensures
                p <= r@.len(),
                forall|q: int| 0 <= q < p ==> key_le(ki, keys@[r@[q] as int]),
                p < r@.len() ==> !key_le(ki, keys@[r@[p as int] as int]),
            decreases r@.len() - p,
        {
            if p == r.len() {
                break;
            }
            if !key_le_exec(ki, keys[r[p]]) {
                break;
            }
            p = p + 1;
        }
        let ghost old_r = r@;
        r.insert(p, i);
        proof {
            old_r.insert_ensures(p as int, i);
            let nr = r@;
            assert forall|k: int| 0 <= k < nr.len() implies nr[k] < i + 1 by {
                if k > p {
                    assert(nr[k] == old_r[k - 1]);
                }
            }
            assert forall|j: usize| j < i + 1 implies #[trigger] nr.contains(j) by {
                if j == i {
                    assert(nr[p as int] == i);
                } else {
                    assert(old_r.contains(j));
                    let k = choose|k: int| 0 <= k < old_r.len() && old_r[k] == j;
                    if k < p {
                        assert(nr[k] == old_r[k]);
                    } else {
                        assert(nr[k + 1] == old_r[k]);
                    }
                }
            }
            assert forall|a: int, b: int| 0 <= a < b < nr.len() implies nr[a] != nr[b] && key_le(
                keys@[nr[b] as int],
                keys@[nr[a] as int],
            ) && (keys@[nr[a] as int] == keys@[nr[b] as int] ==> nr[a] < nr[b]) by {
                let oa = if a < p { a } else { a - 1 };
                let ob = if b < p { b } else { b - 1 };
                if a == p {
                    assert(nr[a] == i);
                    assert(nr[b] == old_r[ob]);
                    // old_r[p] is strictly older than the new one, and so is
                    // everything after it
                    lemma_key_order(ki, keys@[old_r[p as int] as int], keys@[old_r[ob] as int]);
                    if ob > p {
                        lemma_key_order(keys@[old_r[ob] as int], keys@[old_r[p as int] as int], ki);
                    }
                } else if b == p {
                    assert(nr[b] == i);
                    assert(nr[a] == old_r[oa]);
                    assert(key_le(ki, keys@[old_r[oa] as int]));
                } else {
                    assert(nr[a] == old_r[oa]);
                    assert(nr[b] == old_r[ob]);
                    assert(oa < ob);
                }
            }
        }
        i = i + 1;
    }
    r
}

/// The index of the newest backup: the first of those whose key no other
/// key exceeds. `None` when there are none.
pub fn latest_index(ids: &[String]) -> (r: Option<usize>)
    ensures
        match r {
            None => ids@.len() == 0,
            Some(m) => is_latest(ids_view(ids@), m),
        },
{
    if ids.len() == 0 {
        return None;
    }
    let keys = order_keys(ids);
    let ghost iv = ids_view(ids@);
    let mut best: usize = 0;
    let mut i: usize = 1;
    while i < ids.len()
        invariant
            1 <= i <= ids@.len(),
            keys@.len() == ids@.len(),
            forall|k: int| 0 <= k < ids@.len() ==> keys@[k] == order_key(#[trigger] ids@[k]@),
            best < i,
            forall|j: int| 0 <= j < i ==> key_le(#[trigger] keys@[j], keys@[best as int]),
            forall|j: int| 0 <= j < best ==> !key_le(keys@[best as int], #[trigger] keys@[j]),
        decreases ids@.len() - i,
    {
        if !key_le_exec(keys[i], keys[best]) {
            proof {
                assert forall|j: int| 0 <= j < i + 1 implies key_le(#[trigger] keys@[j], keys@[i as int]) by {
                    lemma_key_order(keys@[j], keys@[best as int], keys@[i as int]);
                }
                assert forall|j: int| 0 <= j < i implies !key_le(keys@[i as int], #[trigger] keys@[j]) by {
                    lemma_key_order(keys@[i as int], keys@[j], keys@[best as int]);
                }
            }
            best = i;
        }
        i = i + 1;
    }
    assert forall|j: int| 0 <= j < ids@.len() implies #[trigger] iv[j] == ids@[j]@ by {}
    Some(best)
}

// ---------------------------------------------------------------------------
// Ids
// ---------------------------------------------------------------------------

/// The reason as it is kept in an id: every character that is neither
/// alphanumeric nor `_` becomes `_`.
pub open spec fn safe_reason(reason: Seq<char>) -> Seq<char> {
    Seq::new(reason.len(), |i: int| if unicode_alphanumeric(reason[i]) || reason[i] == '_' { reason[i] } else { '_' })
}

pub fn sanitize_reason(reason: &str) -> (r: String)
    ensures
        r@ == safe_reason(reason@),
{
    let cs = chars_of(reason);
    let mut out = String::new();
    let mut i: usize = 0;
    while i < cs.len()
        invariant
            i <= cs@.len(),
            cs@ == reason@,
            out@ == safe_reason(reason@).take(i as int),
        decreases cs@.len() - i,
    {
        let c = cs[i];
        if char_is_alphanumeric(c) || c == '_' {
            string_push(&mut out, c);
        } else {
            string_push(&mut out, '_');
        }
        i = i + 1;
        assert(out@ =~= safe_reason(reason@).take(i as int));
    }
    assert(safe_reason(reason@).take(cs@.len() as int) =~= safe_reason(reason@));
    out
}

/// `<millis>_<nanos>_<pid>_<counter>_<reason>`, the reason made safe.
pub open spec fn backup_id_text(millis: u64, nanos: u64, pid: u32, counter: u64, reason: Seq<char>) -> Seq<char> {
    dec_digits(millis as nat) + "_"@ + dec_digits(nanos as nat) + "_"@ + dec_digits(pid as nat) + "_"@
        + dec_digits(counter as nat) + "_"@ + safe_reason(reason)
}

/// The id of a backup taken at `millis` (`nanos` within the second) by
/// process `pid` as its `counter`-th backup, for `reason`.
pub fn backup_id(millis: u64, nanos: u64, pid: u32, counter: u64, reason: &str) -> (r: String)
    ensures
        r@ == backup_id_text(millis, nanos, pid, counter, reason@),
{
    let mut id = String::new();
    push_decimal(&mut id, millis);
    string_push_str(&mut id, "_");
    push_decimal(&mut id, nanos);
    string_push_str(&mut id, "_");
    push_decimal(&mut id, pid as u64);
    string_push_str(&mut id, "_");
    push_decimal(&mut id, counter);
    string_push_str(&mut id, "_");
    let safe = sanitize_reason(reason);
    string_push_str(&mut id, safe.as_str());
    id
}

/// The counter that numbers a process's backups.
pub struct BackupCounter {
    pub next: u64,
}

impl BackupCounter {
    /// Takes the next number; after the largest the numbering wraps to 0.
    pub fn take(&mut self) -> (c: u64)
        ensures
            c == old(self).next,
            final(self).next == (if old(self).next == u64::MAX {
                0
            } else {
                (old(self).next + 1) as u64
            }),
    {
        let c = self.next;
        self.next = if c == u64::MAX {
            0
        } else {
            c + 1
        };
        c
    }
}

/// A backup of `entries`, taken at `millis` (`nanos` within the second,
/// `time` in seconds) by process `pid`, numbered by `counter`.
pub fn make_backup(
    counter: &mut BackupCounter,
    millis: u64,
    nanos: u64,
    time: u64,
    pid: u32,
    reason: &str,
    device: String,
    created_at: String,
    entries: Vec<BackupEntry>,
) -> (b: Backup)
    ensures
        b.version == BACKUP_VERSION,
        b.id@ == backup_id_text(millis, nanos, pid, old(counter).next, reason@),
        b.time == time,
        b.reason@ == safe_reason(reason@),
        b.device == device,
        b.createdAt == created_at,
        b.entries == entries,
        final(counter).next == (if old(counter).next == u64::MAX {
            0
        } else {
            (old(counter).next + 1) as u64
        }),
{
    let n = counter.take();
    Backup {
        version: BACKUP_VERSION,
        id: backup_id(millis, nanos, pid, n, reason),
        time,
        reason: sanitize_reason(reason),
        device,
        createdAt: created_at,
        entries,
    }
}

// ---------------------------------------------------------------------------
// Manifest files
// ---------------------------------------------------------------------------

pub open spec fn ends_with(s: Seq<char>, suffix: Seq<char>) -> bool {
    suffix.len() <= s.len() && s.skip(s.len() - suffix.len()) == suffix
}

/// The file a backup id names: the id itself when it already ends in
/// `.json`, else the id with `.json` added.
pub open spec fn manifest_file_text(id: Seq<char>) -> Seq<char> {
    if ends_with(id, ".json"@) {
        id
    } else {
        id + ".json"@
    }
}

fn ends_with_exec(s: &[char], suffix: &[char]) -> (r: bool)
    ensures
        r == ends_with(s@, suffix@),
{
    if suffix.len() > s.len() {
        return false;
    }
    let tail = crate::text::slice_range(s, s.len() - suffix.len(), s.len());
    assert(tail@ == s@.skip(s@.len() - suffix@.len()));
    crate::text::chars_eq(tail.as_slice(), suffix)
}

pub fn manifest_file_name(id: &str) -> (r: String)
    ensures
        r@ == manifest_file_text(id@),
{
    let cs = chars_of(id);
    let ext = chars_of(".json");
    let mut name = string_from_str(id);
    if !ends_with_exec(cs.as_slice(), ext.as_slice()) {
        string_push_str(&mut name, ".json");
    }
    name
}

/// A directory entry that is a manifest: its extension is `json` (the name
/// ends in `.json` after at least one other character), and it is not the
/// old `latest.json` copy.
pub open spec fn is_manifest_text(name: Seq<char>) -> bool {
    name.len() > 5 && ends_with(name, ".json"@) && name != "latest.json"@
}

pub fn is_manifest_name(name: &str) -> (r: bool)
    ensures
        r == is_manifest_text(name@),
{
    let cs = chars_of(name);
    let ext = chars_of(".json");
    proof {
        reveal_strlit(".json");
    }
    cs.len() > 5 && ends_with_exec(cs.as_slice(), ext.as_slice()) && !crate::text::str_eq(name, "latest.json")
}

// ---------------------------------------------------------------------------
// Restoring
// ---------------------------------------------------------------------------

pub open spec fn version_message(version: u32) -> Seq<char> {
    "Unsupported backup version "@ + dec_digits(version as nat) + " (expected "@ + dec_digits(BACKUP_VERSION as nat) + ")"@
}

/// The first entry that may not be restored, and why: a slot other than 0
/// or 1, or an integrity error.
pub open spec fn entries_error(es: Seq<BackupEntry>) -> Option<Seq<char>>
    decreases es.len(),
{
    if es.len() == 0 {
        None
    } else if !slot_valid(es[0].slot as int) {
        Some(invalid_slot_message(es[0].slot as int))
    } else if integrity_error(es[0]) is Some {
        integrity_error(es[0])
    } else {
        entries_error(es.drop_first())
    }
}

/// Why a backup may not be restored, if it may not: its version, then each
/// entry in order.
pub open spec fn restore_error(b: Backup) -> Option<Seq<char>> {
    if b.version != BACKUP_VERSION {
        Some(version_message(b.version))
    } else {
        entries_error(b.entries@)
    }
}

/// Everything a restore checks before it writes anything: the manifest
/// version, then the slot and integrity of every entry.
pub fn check_restorable(b: &Backup) -> (res: Result<(), String>)
    ensures
        match restore_error(*b) {
            None => res is Ok,
            Some(m) => res matches Err(e) && e@ == m,
        },
{
    if b.version != BACKUP_VERSION {
        let mut e = string_from_str("Unsupported backup version ");
        push_decimal(&mut e, b.version as u64);
        string_push_str(&mut e, " (expected ");
        push_decimal(&mut e, BACKUP_VERSION as u64);
        string_push_str(&mut e, ")");
        return Err(e);
    }
    let mut i: usize = 0;
    assert(b.entries@.skip(0) == b.entries@);
    while i < b.entries.len()
        invariant
            i <= b.entries@.len(),
            b.version == BACKUP_VERSION,
            restore_error(*b) == entries_error(b.entries@.skip(i as int)),
        decreases b.entries@.len() - i,
    {
        let ghost rest = b.entries@.skip(i as int);
        assert(rest.drop_first() == b.entries@.skip(i + 1));
        let e = &b.entries[i];
        if let Err(m) = validate_slot(e.slot) {
            return Err(m);
        }
        if let Err(m) = e.verify_integrity() {
            return Err(m);
        }
        i = i + 1;
    }
    Ok(())
}

/// The first entry of `es` for `slot` and `path`.
pub open spec fn entry_position(es: Seq<BackupEntry>, slot: i32, path: Seq<char>) -> Option<int>
    decreases es.len(),
{
    if es.len() == 0 {
        None
    } else if es.last().slot == slot && es.last().path@ == path && entry_position(es.drop_last(), slot, path) is None {
        Some(es.len() - 1)
    } else {
        entry_position(es.drop_last(), slot, path)
    }
}

/// The position of the entry for `slot` and `path` in `entries`: the first
/// such entry.
pub fn entry_index(entries: &[BackupEntry], slot: i32, path: &str) -> (r: Option<usize>)
    ensures
        match entry_position(entries@, slot, path@) {
            None => r is None,
            Some(k) => r == Some(k as usize),
        },
{
    let mut ei: usize = 0;
    while ei < entries.len()
        invariant
            ei <= entries@.len(),
            entry_position(entries@.take(ei as int), slot, path@) is None,
        decreases entries@.len() - ei,
    {
        assert(entries@.take(ei + 1).drop_last() == entries@.take(ei as int));
        if entries[ei].slot == slot && crate::text::str_eq(entries[ei].path.as_str(), path) {
            proof {
                assert(entry_position(entries@.take(ei + 1), slot, path@) == Some(ei as int));
                lemma_first_position_extends(entries@, ei as int + 1, slot, path@);
            }
            return Some(ei);
        }
        ei = ei + 1;
    }
    assert(entries@.take(entries@.len() as int) == entries@);
    None
}

/// `b` is a backup taken for `reason` that holds an entry for `slot` and
/// every one of `paths`.
pub open spec fn covers_all(b: Backup, reason: Seq<char>, slot: i32, paths: Seq<Seq<char>>) -> bool {
    &&& b.reason@ == reason
    &&& forall|j: int| 0 <= j < paths.len() ==> entry_position(b.entries@, slot, #[trigger] paths[j]) is Some
}

pub open spec fn strs_view(v: Seq<&str>) -> Seq<Seq<char>> {
    Seq::new(v.len(), |i: int| v[i]@)
}

/// The backup to restore a whole change from: the first (in the order
/// given, newest first) taken for `reason` that covers `slot` and all of
/// `paths`, so that entries of different changes are never mixed.
pub fn transaction_backup_index(backups: &[Backup], reason: &str, slot: i32, paths: &[&str]) -> (r: Option<usize>)
    ensures
        match r {
            Some(i) => i < backups@.len() && covers_all(backups@[i as int], reason@, slot, strs_view(paths@))
                && forall|j: int| 0 <= j < i ==> !covers_all(#[trigger] backups@[j], reason@, slot, strs_view(paths@)),
            None => forall|j: int| 0 <= j < backups@.len() ==> !covers_all(#[trigger] backups@[j], reason@, slot, strs_view(paths@)),
        },
{
    let ghost pv = strs_view(paths@);
    let mut bi: usize = 0;
    while bi < backups.len()
        invariant
            bi <= backups@.len(),
            pv == strs_view(paths@),
            forall|j: int| 0 <= j < bi ==> !covers_all(#[trigger] backups@[j], reason@, slot, pv),
        decreases backups@.len() - bi,
    {
        let b = &backups[bi];
        if crate::text::str_eq(b.reason.as_str(), reason) {
            let mut k: usize = 0;
            let mut all = true;
            while k < paths.len()
                invariant
                    k <= paths@.len(),
                    bi < backups@.len(),
                    b == backups@[bi as int],
                    pv == strs_view(paths@),
                    all ==> forall|j: int| 0 <= j < k ==> entry_position(b.entries@, slot, #[trigger] pv[j]) is Some,
                    !all ==> !covers_all(*b, reason@, slot, pv),
                decreases paths@.len() - k,
            {
                if all {
                    match entry_index(b.entries.as_slice(), slot, paths[k]) {
                        Some(_) => {},
                        None => {
                            assert(entry_position(b.entries@, slot, pv[k as int]) is None);
                            all = false;
                        },
                    }
                }
                k = k + 1;
            }
            if all {
                return Some(bi);
            }
        }
        bi = bi + 1;
    }
    None
}

proof fn lemma_first_position_extends(es: Seq<BackupEntry>, k: int, slot: i32, path: Seq<char>)
    requires
        0 <= k <= es.len(),
        entry_position(es.take(k), slot, path) is Some,
    ensures
        entry_position(es, slot, path) == entry_position(es.take(k), slot, path),
    decreases es.len() - k,
{
    if k < es.len() {
        assert(es.take(k + 1).drop_last() == es.take(k));
        lemma_first_position_extends(es, k + 1, slot, path);
    } else {
        assert(es.take(k) == es);
    }
}

// ---------------------------------------------------------------------------
// Laws
// ---------------------------------------------------------------------------

proof fn lemma_pieces_lead(a: Seq<char>, t: Seq<char>)
    requires
        !a.contains('_'),
    ensures
        pieces(a + seq!['_'] + t, '_') == seq![a] + pieces(t, '_'),
{
    lemma_pieces_concat(a, '_', t);
    lemma_piece_scan_plain(a, '_');
    assert(pieces(a, '_') =~= seq![a]);
}

/// The id given to a backup carries the order key it was made from:
/// `backup_order_key(backup_id(millis, nanos, pid, counter, reason))` is
/// `(millis, nanos, counter, pid)`, whatever the reason.
pub proof fn law_backup_id_order_key(millis: u64, nanos: u64, pid: u32, counter: u64, reason: Seq<char>)
    ensures
        order_key(backup_id_text(millis, nanos, pid, counter, reason)) == Some(
            (millis, nanos, counter, pid),
        ),
{
    reveal_strlit("_");
    let a = dec_digits(millis as nat);
    let b = dec_digits(nanos as nat);
    let c = dec_digits(pid as nat);
    let d = dec_digits(counter as nat);
    let r = safe_reason(reason);
    lemma_dec_digits(millis as nat);
    lemma_dec_digits(nanos as nat);
    lemma_dec_digits(pid as nat);
    lemma_dec_digits(counter as nat);
    let t3 = d + seq!['_'] + r;
    let t2 = c + seq!['_'] + t3;
    let t1 = b + seq!['_'] + t2;
    let id = a + seq!['_'] + t1;
    assert(backup_id_text(millis, nanos, pid, counter, reason) =~= id);
    lemma_pieces_lead(d, r);
    lemma_pieces_lead(c, t3);
    lemma_pieces_lead(b, t2);
    lemma_pieces_lead(a, t1);
    let p = pieces(id, '_');
    assert(p == seq![a] + (seq![b] + (seq![c] + (seq![d] + pieces(r, '_')))));
    assert(p[0] == a);
    assert(p[1] == b);
    assert(p[2] == c);
    assert(p[3] == d);
    crate::text::lemma_parse_dec_digits(millis as nat, u64::MAX as nat);
    crate::text::lemma_parse_dec_digits(nanos as nat, u64::MAX as nat);
    crate::text::lemma_parse_dec_digits(pid as nat, u32::MAX as nat);
    crate::text::lemma_parse_dec_digits(counter as nat, u64::MAX as nat);
}

/// A freshly made entry passes its own integrity check, as long as its path
/// is on the allowlist and its payload, if any, is valid hex.
pub proof fn law_new_entry_verifies(e: BackupEntry, slot: i32, path: Seq<char>, bytes: Option<Seq<char>>)
    requires
        entry_made(e, slot, path, bytes),
        nv_path_allowed(path),
        bytes matches Some(h) ==> hex_text_error(h) is None,
    ensures
        integrity_error(e) is None,
{
    if let Some(h) = bytes {
        crate::util::lemma_digest_text(sha256_digest(hex_decode(h)));
    }
}

/// An entry that passes its integrity check fails it once its recorded size
/// or checksum is changed: the check pins both to the payload.
pub proof fn law_tampered_entry_fails(e: BackupEntry, t: BackupEntry)
    requires
        integrity_error(e) is None,
        t.slot == e.slot,
        t.path@ == e.path@,
        opt_string_view(t.bytes) == opt_string_view(e.bytes),
        t.size != e.size || (e.bytes is Some && t.sha256@ != e.sha256@),
    ensures
        integrity_error(t) is Some,
{
}

/// `ids[m]` is the latest backup: no key exceeds its key, and every earlier
/// backup has a smaller key.
pub open spec fn is_latest(ids: Seq<Seq<char>>, m: usize) -> bool {
    &&& m < ids.len()
    &&& forall|j: int| 0 <= j < ids.len() ==> key_le(order_key(#[trigger] ids[j]), order_key(ids[m as int]))
    &&& forall|j: int| 0 <= j < m ==> !key_le(order_key(ids[m as int]), order_key(#[trigger] ids[j]))
}

/// The latest backup is the one listed first.
pub proof fn law_latest_is_listed_first(ids: Seq<Seq<char>>, order: Seq<usize>, m: usize)
    requires
        newest_first_order(ids, order),
        is_latest(ids, m),
    ensures
        order.len() > 0,
        order[0] == m,
{
    assert(order.contains(m));
    let k = choose|k: int| 0 <= k < order.len() && order[k] == m;
    let f = order[0] as int;
    let km = order_key(ids[m as int]);
    let kf = order_key(ids[f]);
    lemma_key_order(kf, km, km);
    if k > 0 {
        assert(order[k] as int == m as int);
        assert(key_le(order_key(ids[order[k] as int]), order_key(ids[order[0] as int])));
        assert(key_le(km, kf));
        assert(key_le(kf, km));
        assert(kf == km);
        assert(order[0] < order[k]);
        assert(f < m);
        assert(!key_le(km, kf));
    }
}

/// Backup ids made from different times, processes or counters differ: an
/// id determines `(millis, nanos, pid, counter)`.
pub proof fn law_backup_ids_distinct(
    m1: u64, n1: u64, p1: u32, c1: u64, r1: Seq<char>,
    m2: u64, n2: u64, p2: u32, c2: u64, r2: Seq<char>,
)
    requires
        backup_id_text(m1, n1, p1, c1, r1) == backup_id_text(m2, n2, p2, c2, r2),
    ensures
        m1 == m2 && n1 == n2 && p1 == p2 && c1 == c2,
{
    law_backup_id_order_key(m1, n1, p1, c1, r1);
    law_backup_id_order_key(m2, n2, p2, c2, r2);
}

/// Every character of `s` is an ASCII letter or digit, or `_`.
pub open spec fn plain_id_text(s: Seq<char>) -> bool {
    forall|i: int| 0 <= i < s.len() ==> is_ascii_alphanumeric(#[trigger] s[i]) || s[i] == '_'
}

proof fn lemma_plain_concat(a: Seq<char>, b: Seq<char>)
    requires
        plain_id_text(a),
        plain_id_text(b),
    ensures
        plain_id_text(a + b),
{
    assert forall|i: int| 0 <= i < (a + b).len() implies is_ascii_alphanumeric(#[trigger] (a + b)[i]) || (a
        + b)[i] == '_' by {
        if i < a.len() {
            assert((a + b)[i] == a[i]);
        } else {
            assert((a + b)[i] == b[i - a.len()]);
        }
    }
}

proof fn lemma_plain_digits(n: nat)
    ensures
        plain_id_text(dec_digits(n)),
        dec_digits(n).len() > 0,
        is_ascii_digit(dec_digits(n)[0]),
{
    lemma_dec_digits(n);
    assert forall|i: int| 0 <= i < dec_digits(n).len() implies is_ascii_alphanumeric(#[trigger] dec_digits(n)[i])
        || dec_digits(n)[i] == '_' by {
        assert(crate::text::digit_value(dec_digits(n)[i], 10) is Some);
    }
    assert(crate::text::digit_value(dec_digits(n)[0], 10) is Some);
}

/// A text with none of `p`'s first character does not hold `p`.
proof fn lemma_lacks_first_char(s: Seq<char>, p: Seq<char>)
    requires
        p.len() > 0,
        forall|i: int| 0 <= i < s.len() ==> #[trigger] s[i] != p[0],
    ensures
        !contains(s, p),
{
    if contains(s, p) {
        let i = choose|i: int| crate::text::occurs_at(s, p, i);
        assert(s.subrange(i, i + p.len())[0] == s[i]);
    }
}

/// A backup id names its own manifest, found again by `get_backup`: the id
/// passes the check on ids, its file is the id with `.json` added, and that
/// file is listed as a manifest. This holds when every character of the
/// reason that counts as alphanumeric is ASCII.
pub proof fn law_backup_id_names_its_manifest(millis: u64, nanos: u64, pid: u32, counter: u64, reason: Seq<char>)
    requires
        forall|i: int| 0 <= i < reason.len() ==> (unicode_alphanumeric(#[trigger] reason[i]) ==> is_ascii_alphanumeric(reason[i])),
    ensures
        backup_id_ok(backup_id_text(millis, nanos, pid, counter, reason)),
        manifest_file_text(backup_id_text(millis, nanos, pid, counter, reason)) == backup_id_text(
            millis,
            nanos,
            pid,
            counter,
            reason,
        ) + ".json"@,
        is_manifest_text(manifest_file_text(backup_id_text(millis, nanos, pid, counter, reason))),
{
    reveal_strlit("_");
    reveal_strlit("..");
    reveal_strlit("/");
    reveal_strlit("\\");
    reveal_strlit(".json");
    reveal_strlit("latest");
    reveal_strlit("latest.json");
    let id = backup_id_text(millis, nanos, pid, counter, reason);
    let r = safe_reason(reason);
    assert(plain_id_text(r));
    assert(plain_id_text("_"@));
    lemma_plain_digits(millis as nat);
    lemma_plain_digits(nanos as nat);
    lemma_plain_digits(pid as nat);
    lemma_plain_digits(counter as nat);
    let a = dec_digits(millis as nat);
    let p1 = a + "_"@;
    lemma_plain_concat(a, "_"@);
    let p2 = p1 + dec_digits(nanos as nat);
    lemma_plain_concat(p1, dec_digits(nanos as nat));
    let p3 = p2 + "_"@;
    lemma_plain_concat(p2, "_"@);
    let p4 = p3 + dec_digits(pid as nat);
    lemma_plain_concat(p3, dec_digits(pid as nat));
    let p5 = p4 + "_"@;
    lemma_plain_concat(p4, "_"@);
    let p6 = p5 + dec_digits(counter as nat);
    lemma_plain_concat(p5, dec_digits(counter as nat));
    let p7 = p6 + "_"@;
    lemma_plain_concat(p6, "_"@);
    lemma_plain_concat(p7, r);
    assert(id == p7 + r);
    assert(plain_id_text(id));
    assert(id[0] == a[0]);
    assert forall|i: int| 0 <= i < id.len() implies #[trigger] id[i] != '.' && id[i] != '/' && id[i] != '\\' by {
        assert(is_ascii_alphanumeric(id[i]) || id[i] == '_');
    }
    lemma_lacks_first_char(id, ".."@);
    lemma_lacks_first_char(id, "/"@);
    lemma_lacks_first_char(id, "\\"@);
    assert forall|i: int| 0 <= i < id.len() implies crate::util::backup_id_char(#[trigger] id[i]) by {
        assert(is_ascii_alphanumeric(id[i]) || id[i] == '_');
    }
    if ends_with(id, ".json"@) {
        assert(id.skip(id.len() - 5)[0] == id[id.len() - 5]);
    }
    let f = id + ".json"@;
    assert(f.skip(f.len() - 5) =~= ".json"@);
    if f == "latest.json"@ {
        assert(f[0] == id[0]);
    }
}

/// Successive backups of one process get different ids, whenever they are
/// taken and for whatever reasons: the counter moves on between them.
pub proof fn law_successive_backup_ids_differ(
    c: u64,
    pid: u32,
    m1: u64, n1: u64, r1: Seq<char>,
    m2: u64, n2: u64, r2: Seq<char>,
)
    requires
        c < u64::MAX,
    ensures
        backup_id_text(m1, n1, pid, c, r1) != backup_id_text(m2, n2, pid, (c + 1) as u64, r2),
{
    if backup_id_text(m1, n1, pid, c, r1) == backup_id_text(m2, n2, pid, (c + 1) as u64, r2) {
        law_backup_ids_distinct(m1, n1, pid, c, r1, m2, n2, pid, (c + 1) as u64, r2);
    }
}

/// Everything a restore checks holds of a backup that passes the check: its
/// version is 2, and every entry is on slot 0 or 1 and passes its integrity
/// check.
pub proof fn law_restorable_backup_is_sound(b: Backup)
    requires
        restore_error(b) is None,
    ensures
        b.version == BACKUP_VERSION,
        forall|i: int| 0 <= i < b.entries@.len() ==> slot_valid((#[trigger] b.entries@[i]).slot as int)
            && integrity_error(b.entries@[i]) is None,
{
    lemma_entries_sound(b.entries@);
}

proof fn lemma_entries_sound(es: Seq<BackupEntry>)
    requires
        entries_error(es) is None,
    ensures
        forall|i: int| 0 <= i < es.len() ==> slot_valid((#[trigger] es[i]).slot as int) && integrity_error(es[i]) is None,
    decreases es.len(),
{
    if es.len() > 0 {
        lemma_entries_sound(es.drop_first());
        assert forall|i: int| 0 <= i < es.len() implies slot_valid((#[trigger] es[i]).slot as int) && integrity_error(es[i]) is None by {
            if i > 0 {
                assert(es[i] == es.drop_first()[i - 1]);
            }
        }
    }
}

/// Which backup is the latest does not depend on the order the backups are
/// listed in, as long as their order keys tell them apart: two listings of
/// the same ids name the same latest id.
pub proof fn law_latest_independent_of_listing(ids1: Seq<Seq<char>>, ids2: Seq<Seq<char>>, m1: usize, m2: usize)
    requires
        forall|x: Seq<char>| ids1.contains(x) <==> ids2.contains(x),
        forall|i: int, j: int|
            0 <= i < ids1.len() && 0 <= j < ids1.len() && order_key(ids1[i]) == order_key(ids1[j]) ==> ids1[i] == ids1[j],
        is_latest(ids1, m1),
        is_latest(ids2, m2),
    ensures
        ids1[m1 as int] == ids2[m2 as int],
{
    let a = ids1[m1 as int];
    let b = ids2[m2 as int];
    assert(ids1.contains(a));
    assert(ids2.contains(b));
    let ia = choose|k: int| 0 <= k < ids2.len() && ids2[k] == a;
    let ib = choose|k: int| 0 <= k < ids1.len() && ids1[k] == b;
    assert(key_le(order_key(ids2[ia]), order_key(b)));
    assert(key_le(order_key(ids1[ib]), order_key(a)));
    lemma_key_order(order_key(a), order_key(b), order_key(a));
    assert(order_key(ids1[ib]) == order_key(ids1[m1 as int]));
}

/// Keys strictly decrease along `s`.
pub open spec fn strictly_newest_first(s: Seq<Seq<char>>) -> bool {
    forall|i: int, j: int|
        0 <= i < j < s.len() ==> key_le(order_key(#[trigger] s[j]), order_key(#[trigger] s[i])) && order_key(s[j])
            != order_key(s[i])
}

proof fn lemma_strictly_sorted_unique(a: Seq<Seq<char>>, b: Seq<Seq<char>>)
    requires
        forall|x: Seq<char>| a.contains(x) <==> b.contains(x),
        strictly_newest_first(a),
        strictly_newest_first(b),
    ensures
        a == b,
    decreases a.len(),
{
    if a.len() == 0 {
        if b.len() > 0 {
            assert(b.contains(b[0]));
        }
        assert(a =~= b);
    } else {
        assert(a.contains(a[0]));
        assert(b.len() > 0);
        assert(b.contains(b[0]));
        let ka = choose|k: int| 0 <= k < b.len() && b[k] == a[0];
        let kb = choose|k: int| 0 <= k < a.len() && a[k] == b[0];
        if kb > 0 {
            assert(key_le(order_key(a[kb]), order_key(a[0])) && order_key(a[kb]) != order_key(a[0]));
            if ka > 0 {
                assert(key_le(order_key(b[ka]), order_key(b[0])));
            }
            lemma_key_order(order_key(a[0]), order_key(b[0]), order_key(a[0]));
            assert(false);
        }
        assert(a[0] == b[0]);
        let a2 = a.drop_first();
        let b2 = b.drop_first();
        assert forall|x: Seq<char>| a2.contains(x) <==> b2.contains(x) by {
            if a2.contains(x) {
                let i = choose|i: int| 0 <= i < a2.len() && a2[i] == x;
                assert(a[i + 1] == x);
                assert(order_key(a[i + 1]) != order_key(a[0]));
                assert(a.contains(x));
                let j = choose|j: int| 0 <= j < b.len() && b[j] == x;
                assert(j != 0);
                assert(b2[j - 1] == x);
            }
            if b2.contains(x) {
                let i = choose|i: int| 0 <= i < b2.len() && b2[i] == x;
                assert(b[i + 1] == x);
                assert(order_key(b[i + 1]) != order_key(b[0]));
                assert(b.contains(x));
                let j = choose|j: int| 0 <= j < a.len() && a[j] == x;
                assert(j != 0);
                assert(a2[j - 1] == x);
            }
        }
        assert forall|i: int, j: int| 0 <= i < j < a2.len() implies key_le(order_key(#[trigger] a2[j]), order_key(#[trigger] a2[i]))
            && order_key(a2[j]) != order_key(a2[i]) by {
            assert(a2[i] == a[i + 1]);
            assert(a2[j] == a[j + 1]);
        }
        assert forall|i: int, j: int| 0 <= i < j < b2.len() implies key_le(order_key(#[trigger] b2[j]), order_key(#[trigger] b2[i]))
            && order_key(b2[j]) != order_key(b2[i]) by {
            assert(b2[i] == b[i + 1]);
            assert(b2[j] == b[j + 1]);
        }
        lemma_strictly_sorted_unique(a2, b2);
        assert(a =~= seq![a[0]] + a2);
        assert(b =~= seq![b[0]] + b2);
    }
}

/// The ids in the order `order` lists them.
pub open spec fn listed(ids: Seq<Seq<char>>, order: Seq<usize>) -> Seq<Seq<char>> {
    Seq::new(order.len(), |k: int| ids[order[k] as int])
}

proof fn lemma_listed_elements(ids: Seq<Seq<char>>, order: Seq<usize>)
    requires
        ids.len() <= usize::MAX,
        is_index_permutation(order, ids.len()),
    ensures
        forall|x: Seq<char>| ids.contains(x) <==> listed(ids, order).contains(x),
{
    let l = listed(ids, order);
    assert forall|x: Seq<char>| ids.contains(x) implies l.contains(x) by {
        let i = choose|i: int| 0 <= i < ids.len() && ids[i] == x;
        let u = i as usize;
        assert(order.contains(u));
        let k = choose|k: int| 0 <= k < order.len() && order[k] == u;
        assert(l[k] == ids[order[k] as int]);
    }
    assert forall|x: Seq<char>| l.contains(x) implies ids.contains(x) by {
        let k = choose|k: int| 0 <= k < l.len() && l[k] == x;
        assert(ids[order[k] as int] == x);
    }
}

proof fn lemma_listed_strict(ids: Seq<Seq<char>>, order: Seq<usize>)
    requires
        newest_first_order(ids, order),
        forall|i: int, j: int| 0 <= i < j < ids.len() ==> ids[i] != ids[j],
        forall|i: int, j: int|
            0 <= i < ids.len() && 0 <= j < ids.len() && order_key(ids[i]) == order_key(ids[j]) ==> ids[i] == ids[j],
    ensures
        strictly_newest_first(listed(ids, order)),
{
    let l = listed(ids, order);
    assert forall|i: int, j: int| 0 <= i < j < l.len() implies key_le(order_key(#[trigger] l[j]), order_key(#[trigger] l[i]))
        && order_key(l[j]) != order_key(l[i]) by {
        let oi = order[i] as int;
        let oj = order[j] as int;
        assert(l[i] == ids[oi]);
        assert(l[j] == ids[oj]);
        assert(oi != oj);
        if order_key(ids[oj]) == order_key(ids[oi]) {
            assert(ids[oi] == ids[oj]);
            if oi < oj {
                assert(ids[oi] != ids[oj]);
            } else {
                assert(ids[oj] != ids[oi]);
            }
        }
    }
}

/// The order backups are listed in does not depend on the order they were
/// found in, as long as their ids are distinct and their order keys tell
/// them apart: two listings of the same ids come out the same.
pub proof fn law_listing_independent_of_discovery(
    ids1: Seq<Seq<char>>,
    order1: Seq<usize>,
    ids2: Seq<Seq<char>>,
    order2: Seq<usize>,
)
    requires
        ids1.len() <= usize::MAX,
        ids2.len() <= usize::MAX,
        forall|x: Seq<char>| ids1.contains(x) <==> ids2.contains(x),
        forall|i: int, j: int| 0 <= i < j < ids1.len() ==> ids1[i] != ids1[j],
        forall|i: int, j: int| 0 <= i < j < ids2.len() ==> ids2[i] != ids2[j],
        forall|i: int, j: int|
            0 <= i < ids1.len() && 0 <= j < ids1.len() && order_key(ids1[i]) == order_key(ids1[j]) ==> ids1[i] == ids1[j],
        newest_first_order(ids1, order1),
        newest_first_order(ids2, order2),
    ensures
        listed(ids1, order1) == listed(ids2, order2),
{
    assert forall|i: int, j: int|
        0 <= i < ids2.len() && 0 <= j < ids2.len() && order_key(ids2[i]) == order_key(ids2[j]) implies ids2[i] == ids2[j] by {
        assert(ids2.contains(ids2[i]));
        assert(ids2.contains(ids2[j]));
        assert(ids1.contains(ids2[i]));
        assert(ids1.contains(ids2[j]));
        let a = choose|a: int| 0 <= a < ids1.len() && ids1[a] == ids2[i];
        let b = choose|b: int| 0 <= b < ids1.len() && ids1[b] == ids2[j];
        assert(order_key(ids1[a]) == order_key(ids1[b]));
    }
    lemma_listed_elements(ids1, order1);
    lemma_listed_elements(ids2, order2);
    lemma_listed_strict(ids1, order1);
    lemma_listed_strict(ids2, order2);
    assert forall|x: Seq<char>| listed(ids1, order1).contains(x) <==> listed(ids2, order2).contains(x) by {
        assert(listed(ids1, order1).contains(x) <==> ids1.contains(x));
        assert(listed(ids2, order2).contains(x) <==> ids2.contains(x));
    }
    lemma_strictly_sorted_unique(listed(ids1, order1), listed(ids2, order2));
}

} // verus!
