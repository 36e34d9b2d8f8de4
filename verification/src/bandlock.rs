//! Band locking: the NV bitmask layouts of the LTE and NR band preferences,
//! the band lists a user may request, and the search for band masks inside a
//! DIAG response.
use vstd::prelude::*;
use crate::text::{chars_of, dec_digits, is_sep, lemma_dec_digits, lemma_parse_dec_digits, parse_i32,
    parse_i32_exec, push_chars, split_tokens, string_from_str, string_push_str, token_scan, tokens, trim,
    trim_exec};
use crate::util::{hex_encode, bytes_to_hex, EfsRead, EfsReadModel, slot_valid, validate_slot,
    invalid_slot_message};

verus! {

pub const ALL_LTE_BANDS: [i32; 32] = [
    1, 2, 3, 4, 5, 7, 8, 12, 13, 14, 17, 18, 19, 20, 21, 25, 26, 28, 29, 30, 32, 34, 38, 39, 40,
    41, 42, 43, 46, 48, 66, 71,
];

pub const ALL_NR_BANDS: [i32; 58] = [
    1, 2, 3, 5, 7, 8, 12, 14, 18, 20, 25, 26, 28, 29, 30, 34, 38, 39, 40, 41, 46, 48, 50, 51, 53,
    65, 66, 70, 71, 74, 75, 76, 77, 78, 79, 80, 81, 82, 83, 84, 86, 89, 90, 91, 92, 93, 94, 95, 96,
    97, 100, 101, 102, 104, 257, 258, 260, 261,
];

// ---------------------------------------------------------------------------
// NV paths per SIM slot
// ---------------------------------------------------------------------------

#[derive(Debug, Clone)]
pub struct SlotPaths {
    pub lte_primary: String,
    pub lte_extension: String,
    pub nr: String,
    pub nr_nsa: String,
}

pub open spec fn lte_primary_path(slot: int) -> Seq<char> {
    if slot == 1 {
        "/nv/item_files/modem/mmode/lte_bandpref_Subscription01"@
    } else {
        "/nv/item_files/modem/mmode/lte_bandpref"@
    }
}

pub open spec fn lte_extension_path(slot: int) -> Seq<char> {
    if slot == 1 {
        "/nv/item_files/modem/mmode/lte_bandpref_extn_65_256_Subscription01"@
    } else {
        "/nv/item_files/modem/mmode/lte_bandpref_extn_65_256"@
    }
}

pub open spec fn nr_sa_path(slot: int) -> Seq<char> {
    if slot == 1 {
        "/nv/item_files/modem/mmode/nr_band_pref_Subscription01"@
    } else {
        "/nv/item_files/modem/mmode/nr_band_pref"@
    }
}

pub open spec fn nr_nsa_path(slot: int) -> Seq<char> {
    if slot == 1 {
        "/nv/item_files/modem/mmode/nr_nsa_band_pref_Subscription01"@
    } else {
        "/nv/item_files/modem/mmode/nr_nsa_band_pref"@
    }
}

/// Slot 1 uses the `_Subscription01` items; every other slot the base items.
pub fn paths_for_slot(slot: i32) -> (res: SlotPaths)
    ensures
        res.lte_primary@ == lte_primary_path(slot as int),
        res.lte_extension@ == lte_extension_path(slot as int),
        res.nr@ == nr_sa_path(slot as int),
        res.nr_nsa@ == nr_nsa_path(slot as int),
{
    if slot == 1 {
        SlotPaths {
            lte_primary: string_from_str("/nv/item_files/modem/mmode/lte_bandpref_Subscription01"),
            lte_extension: string_from_str(
                "/nv/item_files/modem/mmode/lte_bandpref_extn_65_256_Subscription01",
            ),
            nr: string_from_str("/nv/item_files/modem/mmode/nr_band_pref_Subscription01"),
            nr_nsa: string_from_str("/nv/item_files/modem/mmode/nr_nsa_band_pref_Subscription01"),
        }
    } else {
        SlotPaths {
            lte_primary: string_from_str("/nv/item_files/modem/mmode/lte_bandpref"),
            lte_extension: string_from_str("/nv/item_files/modem/mmode/lte_bandpref_extn_65_256"),
            nr: string_from_str("/nv/item_files/modem/mmode/nr_band_pref"),
            nr_nsa: string_from_str("/nv/item_files/modem/mmode/nr_nsa_band_pref"),
        }
    }
}

// ---------------------------------------------------------------------------
// Band bitmasks: band `b` is bit `b - base` (byte `(b - base) / 8`, bit
// `(b - base) % 8`, least significant first)
// ---------------------------------------------------------------------------

pub open spec fn bit_of(b: u8, k: int) -> bool {
    (b >> (k as u8)) & 1u8 == 1u8
}

/// Bit `bit` of the little-endian bitmask `bytes`; bytes past the end read
/// as zero.
pub open spec fn mask_bit(bytes: Seq<u8>, bit: int) -> bool {
    0 <= bit && bit / 8 < bytes.len() && bit_of(bytes[bit / 8], bit % 8)
}

/// The candidates whose bit (band minus `base`) is set in `bytes`, in order.
pub open spec fn bands_in_mask(bytes: Seq<u8>, cands: Seq<i32>, base: int) -> Seq<i32>
    decreases cands.len(),
{
    if cands.len() == 0 {
        Seq::empty()
    } else {
        let r = bands_in_mask(bytes, cands.drop_last(), base);
        if mask_bit(bytes, cands.last() - base) {
            r.push(cands.last())
        } else {
            r
        }
    }
}

/// LTE bands 1 through 64, the range of the primary LTE mask.
pub open spec fn lte_primary_range() -> Seq<i32> {
    Seq::new(64, |i: int| (i + 1) as i32)
}

/// The LTE extension mask covers bands 65..=256; the bands this tool knows
/// there are 66 and 71.
pub open spec fn lte_extension_known() -> Seq<i32> {
    seq![66i32, 71i32]
}

fn mask_bit_exec(bytes: &[u8], bit: u32) -> (r: bool)
    ensures
        r == mask_bit(bytes@, bit as int),
{
    let idx = (bit / 8) as usize;
    if idx < bytes.len() {
        (bytes[idx] >> ((bit % 8) as u8)) & 1u8 == 1u8
    } else {
        false
    }
}

fn bands_in_mask_exec(bytes: &[u8], cands: &[i32], base: i32) -> (res: Vec<i32>)
    requires
        forall|i: int| 0 <= i < cands@.len() ==> cands@[i] >= base,
        base >= 0,
    ensures
        res@ == bands_in_mask(bytes@, cands@, base as int),
{
    let mut res: Vec<i32> = Vec::new();
    let mut i: usize = 0;
    while i < cands.len()
        invariant
            i <= cands@.len(),
            base >= 0,
            forall|j: int| 0 <= j < cands@.len() ==> cands@[j] >= base,
            res@ == bands_in_mask(bytes@, cands@.take(i as int), base as int),
        decreases cands@.len() - i,
    {
        assert(cands@.take(i + 1).drop_last() == cands@.take(i as int));
        let band = cands[i];
        if mask_bit_exec(bytes, (band - base) as u32) {
            res.push(band);
        }
        i = i + 1;
    }
    assert(cands@.take(cands@.len() as int) == cands@);
    res
}

/// Bands 1..=64 enabled in the primary LTE mask.
pub fn parse_lte_primary(bytes: &[u8]) -> (res: Vec<i32>)
    ensures
        res@ == bands_in_mask(bytes@, lte_primary_range(), 1),
{
    let mut cands: Vec<i32> = Vec::new();
    let mut b: i32 = 1;
    while b <= 64
        invariant
            1 <= b <= 65,
            cands@ == lte_primary_range().take(b - 1),
        decreases 65 - b,
    {
        cands.push(b);
        b = b + 1;
        assert(cands@ =~= lte_primary_range().take(b - 1));
    }
    assert(lte_primary_range().take(64) == lte_primary_range());
    bands_in_mask_exec(bytes, cands.as_slice(), 1)
}

/// Bands 66 and 71 enabled in the LTE extension mask (bit = band - 65).
pub fn parse_lte_extension(bytes: &[u8]) -> (res: Vec<i32>)
    ensures
        res@ == bands_in_mask(bytes@, lte_extension_known(), 65),
{
    let cands = [66i32, 71i32];
    assert(cands@ == lte_extension_known());
    bands_in_mask_exec(bytes, &cands, 65)
}

/// The known NR bands enabled in an NR band mask.
pub fn parse_nr_bitmask(bytes: &[u8]) -> (res: Vec<i32>)
    ensures
        res@ == bands_in_mask(bytes@, ALL_NR_BANDS@, 1),
{
    let known = ALL_NR_BANDS;
    bands_in_mask_exec(bytes, &known, 1)
}

proof fn lemma_set_bit(b: u8, k: u8, k2: u8)
    requires
        k < 8,
        k2 < 8,
    ensures
        bit_of(b | (1u8 << k), k2 as int) <==> (bit_of(b, k2 as int) || k == k2),
{
    assert(((b | (1u8 << k)) >> k2) & 1u8 == 1u8 <==> ((b >> k2) & 1u8 == 1u8 || k == k2))
        by (bit_vector)
        requires
            k < 8,
            k2 < 8,
    ;
}

proof fn lemma_zero_bits(k: u8)
    requires
        k < 8,
    ensures
        !bit_of(0u8, k as int),
{
    assert((0u8 >> k) & 1u8 != 1u8) by (bit_vector);
}

/// The mask of `nbytes` bytes with exactly the bits of the enabled bands in
/// `lo..=hi` set (band `b` at bit `b - 1`).
fn build_mask(enabled: &[i32], nbytes: usize, lo: i32, hi: i32) -> (res: Vec<u8>)
    requires
        1 <= lo <= hi,
        hi <= 8 * nbytes,
        nbytes <= 64,
    ensures
        res@.len() == nbytes,
        forall|j: int, k: int|
            0 <= j < nbytes && 0 <= k < 8 ==> (#[trigger] bit_of(res@[j], k) <==> {
                let band = 8 * j + k + 1;
                lo <= band <= hi && enabled@.contains(band as i32)
            }),
{
    let mut bytes: Vec<u8> = Vec::new();
    let mut z: usize = 0;
    while z < nbytes
        invariant
            z <= nbytes,
            bytes@.len() == z,
            forall|j: int| 0 <= j < z ==> bytes@[j] == 0,
        decreases nbytes - z,
    {
        bytes.push(0);
        z = z + 1;
    }
    assert forall|j: int, k: int|
        0 <= j < nbytes && 0 <= k < 8 implies (#[trigger] bit_of(bytes@[j], k) <==> {
            let band = 8 * j + k + 1;
            lo <= band <= hi && enabled@.take(0).contains(band as i32)
        }) by {
        lemma_zero_bits(k as u8);
    }
    let mut i: usize = 0;
    while i < enabled.len()
        invariant
            i <= enabled@.len(),
            1 <= lo <= hi,
            hi <= 8 * nbytes,
            nbytes <= 64,
            bytes@.len() == nbytes,
            forall|j: int, k: int|
                0 <= j < nbytes && 0 <= k < 8 ==> (#[trigger] bit_of(bytes@[j], k) <==> {
                    let band = 8 * j + k + 1;
                    lo <= band <= hi && enabled@.take(i as int).contains(band as i32)
                }),
        decreases enabled@.len() - i,
    {
        let band = enabled[i];
        let ghost old_bytes = bytes@;
        if lo <= band && band <= hi {
            let idx = ((band - 1) / 8) as usize;
            let bit = ((band - 1) % 8) as u8;
            let nb = bytes[idx] | (1u8 << bit);
            bytes.set(idx, nb);
            assert forall|j: int, k: int|
                0 <= j < nbytes && 0 <= k < 8 implies (#[trigger] bit_of(bytes@[j], k) <==> {
                    let b2 = 8 * j + k + 1;
                    lo <= b2 <= hi && enabled@.take(i + 1).contains(b2 as i32)
                }) by {
                let b2 = 8 * j + k + 1;
                assert(enabled@.take(i + 1) == enabled@.take(i as int).push(band));
                if j == idx {
                    lemma_set_bit(old_bytes[j], bit, k as u8);
                }
                lemma_contains_push(enabled@.take(i as int), band, b2 as i32);
            }
        } else {
            assert forall|j: int, k: int|
                0 <= j < nbytes && 0 <= k < 8 implies (#[trigger] bit_of(bytes@[j], k) <==> {
                    let b2 = 8 * j + k + 1;
                    lo <= b2 <= hi && enabled@.take(i + 1).contains(b2 as i32)
                }) by {
                let b2 = 8 * j + k + 1;
                assert(enabled@.take(i + 1) == enabled@.take(i as int).push(band));
                lemma_contains_push(enabled@.take(i as int), band, b2 as i32);
            }
        }
        i = i + 1;
    }
    assert(enabled@.take(enabled@.len() as int) == enabled@);
    bytes
}

/// A mask of `n` bytes whose bit for band `b` (bit `b - 1`) is set exactly
/// when `b` is enabled.
pub open spec fn band_mask(bytes: Seq<u8>, n: int, enabled: Seq<i32>) -> bool {
    &&& bytes.len() == n
    &&& forall|j: int, k: int|
        0 <= j < n && 0 <= k < 8 ==> (#[trigger] bit_of(bytes[j], k) <==> enabled.contains(
            (8 * j + k + 1) as i32,
        ))
}

/// The 24-byte LTE extension mask: bit 1 of byte 0 for band 66, bit 6 for
/// band 71, every other bit clear.
pub open spec fn lte_extension_mask(bytes: Seq<u8>, enabled: Seq<i32>) -> bool {
    &&& bytes.len() == 24
    &&& forall|j: int, k: int|
        0 <= j < 24 && 0 <= k < 8 ==> (#[trigger] bit_of(bytes[j], k) <==> (j == 0 && ((k == 1
            && enabled.contains(66)) || (k == 6 && enabled.contains(71)))))
}

/// The 8-byte primary LTE mask with exactly the bits of the enabled bands in
/// 1..=64 set.
pub fn build_lte_primary(enabled_bands: &[i32]) -> (res: Vec<u8>)
    ensures
        band_mask(res@, 8, enabled_bands@),
{
    build_mask(enabled_bands, 8, 1, 64)
}

/// The 64-byte NR mask with exactly the bits of the enabled bands in
/// 1..=512 set.
pub fn build_nr_bitmask(enabled_bands: &[i32]) -> (res: Vec<u8>)
    ensures
        band_mask(res@, 64, enabled_bands@),
{
    build_mask(enabled_bands, 64, 1, 512)
}

/// The 24-byte LTE extension mask for the enabled bands.
pub fn build_lte_extension(enabled_bands: &[i32]) -> (res: Vec<u8>)
    ensures
        lte_extension_mask(res@, enabled_bands@),
{
    let mut bytes: Vec<u8> = Vec::new();
    let mut z: usize = 0;
    while z < 24
        invariant
            z <= 24,
            bytes@.len() == z,
            forall|j: int| 0 <= j < z ==> bytes@[j] == 0,
        decreases 24 - z,
    {
        bytes.push(0);
        z = z + 1;
    }
    let has66 = contains_band(enabled_bands, 66);
    let has71 = contains_band(enabled_bands, 71);
    let mut b0: u8 = 0;
    if has66 {
        b0 = b0 | (1u8 << 1u8);
    }
    if has71 {
        b0 = b0 | (1u8 << 6u8);
    }
    bytes.set(0, b0);
    assert forall|j: int, k: int| 0 <= j < 24 && 0 <= k < 8 implies (#[trigger] bit_of(bytes@[j], k) <==> (j == 0 && ((k == 1 && enabled_bands@.contains(66)) || (k == 6
        && enabled_bands@.contains(71))))) by {
        let kk = k as u8;
        if j == 0 {
            assert(bit_of(b0, k) <==> ((k == 1 && has66) || (k == 6 && has71))) by {
                assert(bit_of(((if has66 { 0u8 | (1u8 << 1u8) } else { 0u8 }) | (if has71 {
                    1u8 << 6u8
                } else {
                    0u8
                })), kk as int) <==> ((kk == 1 && has66) || (kk == 6 && has71))) by (bit_vector)
                    requires
                        kk < 8,
                ;
                if has66 && has71 {
                } else if has66 {
                    assert((0u8 | (1u8 << 1u8)) == ((0u8 | (1u8 << 1u8)) | 0u8)) by (bit_vector);
                } else if has71 {
                    assert((0u8 | (1u8 << 6u8)) == (0u8 | (1u8 << 6u8))) by (bit_vector);
                } else {
                    assert((0u8 | 0u8) == 0u8) by (bit_vector);
                }
            }
        } else {
            lemma_zero_bits(kk);
        }
    }
    bytes
}

pub proof fn lemma_contains_push(s: Seq<i32>, x: i32, y: i32)
    ensures
        s.push(x).contains(y) <==> (s.contains(y) || x == y),
{
    if s.push(x).contains(y) {
        let idx = choose|idx: int| 0 <= idx < s.push(x).len() && s.push(x)[idx] == y;
        if idx < s.len() {
            assert(s[idx] == y);
        }
    }
    if s.contains(y) {
        let idx = choose|idx: int| 0 <= idx < s.len() && s[idx] == y;
        assert(s.push(x)[idx] == y);
    }
    if x == y {
        assert(s.push(x)[s.len() as int] == y);
    }
}

pub fn contains_band(v: &[i32], band: i32) -> (r: bool)
    ensures
        r == v@.contains(band),
{
    let mut i: usize = 0;
    while i < v.len()
        invariant
            i <= v@.len(),
            forall|j: int| 0 <= j < i ==> v@[j] != band,
        decreases v@.len() - i,
    {
        if v[i] == band {
            assert(v@[i as int] == band);
            return true;
        }
        i = i + 1;
    }
    false
}


// ---------------------------------------------------------------------------
// Band masks inside a DIAG response
// ---------------------------------------------------------------------------

/// Band `band` of a mask of `length` bytes at `offset` in `d`; bits past the
/// window or past the payload read as clear.
pub open spec fn diag_band_set(d: Seq<u8>, offset: int, length: int, band: i32) -> bool {
    let bi = band - 1;
    let byte_index = offset + bi / 8;
    byte_index < offset + length && byte_index < d.len() && bit_of(d[byte_index], bi % 8)
}

pub open spec fn diag_bands(d: Seq<u8>, offset: int, length: int, known: Seq<i32>) -> Seq<i32>
    decreases known.len(),
{
    if known.len() == 0 {
        Seq::empty()
    } else {
        let r = diag_bands(d, offset, length, known.drop_last());
        if diag_band_set(d, offset, length, known.last()) {
            r.push(known.last())
        } else {
            r
        }
    }
}

/// The known bands set in the `length`-byte mask at `offset`.
pub fn parse_bitmask_bands(diag_bytes: &[u8], offset: usize, length: usize, known_bands: &[i32]) -> (res: Vec<i32>)
    requires
        forall|i: int| 0 <= i < known_bands@.len() ==> known_bands@[i] >= 1,
        known_bands@.len() == 0 || offset + length <= usize::MAX,
    ensures
        res@ == diag_bands(diag_bytes@, offset as int, length as int, known_bands@),
{
    let mut result: Vec<i32> = Vec::new();
    let mut i: usize = 0;
    while i < known_bands.len()
        invariant
            i <= known_bands@.len(),
            forall|j: int| 0 <= j < known_bands@.len() ==> known_bands@[j] >= 1,
            known_bands@.len() == 0 || offset + length <= usize::MAX,
            result@ == diag_bands(diag_bytes@, offset as int, length as int, known_bands@.take(i as int)),
        decreases known_bands@.len() - i,
    {
        assert(known_bands@.take(i + 1).drop_last() == known_bands@.take(i as int));
        let band = known_bands[i];
        let bit_index = band - 1;
        let q = (bit_index / 8) as usize;
        let bit_in_byte = (bit_index % 8) as u8;
        if q < length && offset + q < diag_bytes.len() {
            let byte_index = offset + q;
            if (diag_bytes[byte_index] >> bit_in_byte) & 1u8 == 1u8 {
                result.push(band);
            }
        }
        i = i + 1;
    }
    assert(known_bands@.take(known_bands@.len() as int) == known_bands@);
    result
}

/// Counts over the first `nbits` bits of the window at `off`: set bits whose
/// band (bit + 1) is known, and set bits whose band is not.
pub open spec fn window_counts(d: Seq<u8>, off: int, nbits: nat, known: Seq<i32>) -> (nat, nat)
    decreases nbits,
{
    if nbits == 0 {
        (0, 0)
    } else {
        let (found, spurious) = window_counts(d, off, (nbits - 1) as nat, known);
        let bit = nbits - 1;
        if bit_of(d[off + bit / 8], bit % 8) {
            if known.contains((bit + 1) as i32) {
                (found + 1, spurious)
            } else {
                (found, spurious + 1)
            }
        } else {
            (found, spurious)
        }
    }
}

pub open spec fn found_in(d: Seq<u8>, off: int, length: int, known: Seq<i32>) -> nat {
    window_counts(d, off, (8 * length) as nat, known).0
}

/// A window that holds only known bands, at least `min` of them.
pub open spec fn is_candidate(d: Seq<u8>, off: int, length: int, known: Seq<i32>, min: nat) -> bool {
    &&& 0 <= off
    &&& off + length <= d.len()
    &&& window_counts(d, off, (8 * length) as nat, known).1 == 0
    &&& window_counts(d, off, (8 * length) as nat, known).0 >= min
}

/// `o1` is preferred over `o2`: more known bands, or as many and earlier.
pub open spec fn ranks_above(d: Seq<u8>, length: int, known: Seq<i32>, o1: int, o2: int) -> bool {
    found_in(d, o1, length, known) > found_in(d, o2, length, known) || (found_in(
        d,
        o1,
        length,
        known,
    ) == found_in(d, o2, length, known) && o1 < o2)
}

/// At least 10 bytes away from `p`, when there is a `p`.
pub open spec fn far_from(o: int, away: Option<int>) -> bool {
    match away {
        None => true,
        Some(p) => o - p >= 10 || p - o >= 10,
    }
}

pub open spec fn has_candidate(
    d: Seq<u8>,
    length: int,
    known: Seq<i32>,
    min: nat,
    away: Option<int>,
) -> bool {
    exists|o: int| #[trigger] is_candidate(d, o, length, known, min) && far_from(o, away)
}

/// `o` is the most preferred candidate window (among those far from `away`).
pub open spec fn is_best(
    d: Seq<u8>,
    length: int,
    known: Seq<i32>,
    min: nat,
    o: int,
    away: Option<int>,
) -> bool {
    &&& is_candidate(d, o, length, known, min)
    &&& far_from(o, away)
    &&& forall|o2: int|
        #[trigger] is_candidate(d, o2, length, known, min) && far_from(o2, away) ==> !ranks_above(
            d,
            length,
            known,
            o2,
            o,
        )
}

#[derive(Debug, Clone, Copy, PartialEq, Eq)]
pub struct BandOffsets {
    pub lte: usize,
    pub nr_sa: usize,
    pub nr_nsa: usize,
}

/// The offsets detected in `d`: the best 9-byte LTE window, and the best
/// 10-byte NR window with the best one at least 10 bytes away from it (SA the
/// lower of the two, NSA the higher; both the same when there is no second).
pub open spec fn offsets_detected(d: Seq<u8>, min: nat, r: BandOffsets) -> bool {
    &&& is_best(d, 9, ALL_LTE_BANDS@, min, r.lte as int, None)
    &&& exists|p1: int| {
        &&& #[trigger] is_best(d, 10, ALL_NR_BANDS@, min, p1, None)
        &&& if has_candidate(d, 10, ALL_NR_BANDS@, min, Some(p1)) {
            exists|p2: int| {
                &&& #[trigger] is_best(d, 10, ALL_NR_BANDS@, min, p2, Some(p1))
                &&& r.nr_sa == if p1 < p2 { p1 } else { p2 }
                &&& r.nr_nsa == if p1 < p2 { p2 } else { p1 }
            }
        } else {
            r.nr_sa == p1 && r.nr_nsa == p1
        }
    }
}

fn window_counts_exec(d: &[u8], off: usize, length: usize, known: &[i32]) -> (r: (usize, usize))
    requires
        off + length <= d@.len(),
        length <= 16,
    ensures
        r.0 as nat == window_counts(d@, off as int, (8 * length) as nat, known@).0,
        r.1 as nat == window_counts(d@, off as int, (8 * length) as nat, known@).1,
{
    let dlen = d.len();
    let mut found: usize = 0;
    let mut spurious: usize = 0;
    let mut bit: usize = 0;
    while bit < length * 8
        invariant
            off + length <= d@.len(),
            dlen == d@.len(),
            length <= 16,
            bit <= length * 8,
            found + spurious <= bit,
            found as nat == window_counts(d@, off as int, bit as nat, known@).0,
            spurious as nat == window_counts(d@, off as int, bit as nat, known@).1,
        decreases length * 8 - bit,
    {
        let band = (bit + 1) as i32;
        if (d[off + bit / 8] >> ((bit % 8) as u8)) & 1u8 == 1u8 {
            if contains_band(known, band) {
                found = found + 1;
            } else {
                spurious = spurious + 1;
            }
        }
        bit = bit + 1;
    }
    (found, spurious)
}

/// The most preferred candidate window of `length` bytes (at least 10 bytes
/// away from `away`, when given).
fn best_window(d: &[u8], length: usize, known: &[i32], min: usize, away: Option<usize>) -> (r: Option<usize>)
    requires
        1 <= length <= 16,
    ensures
        r matches Some(o) ==> is_best(d@, length as int, known@, min as nat, o as int, match away {
            Some(p) => Some(p as int),
            None => None,
        }),
        r is None ==> !has_candidate(d@, length as int, known@, min as nat, match away {
            Some(p) => Some(p as int),
            None => None,
        }),
{
    let ghost aw: Option<int> = match away {
        Some(p) => Some(p as int),
        None => None,
    };
    if d.len() < length {
        assert forall|o: int| !(#[trigger] is_candidate(d@, o, length as int, known@, min as nat)) by {}
        return None;
    }
    let dlen = d.len();
    let max_offset = dlen - length;
    let mut best: Option<(usize, usize)> = None;
    let mut off: usize = 0;
    while off <= max_offset
        invariant
            1 <= length <= 16,
            max_offset + length == d@.len(),
            dlen == d@.len(),
            aw == (match away {
                Some(p) => Some(p as int),
                None => None::<int>,
            }),
            off <= max_offset + 1,
            match best {
                None => forall|o: int|
                    0 <= o < off ==> !(#[trigger] is_candidate(d@, o, length as int, known@, min as nat)
                        && far_from(o, aw)),
                Some((b, f)) => {
                    &&& b < off
                    &&& f as nat == found_in(d@, b as int, length as int, known@)
                    &&& is_candidate(d@, b as int, length as int, known@, min as nat)
                    &&& far_from(b as int, aw)
                    &&& forall|o: int|
                        0 <= o < off && #[trigger] is_candidate(d@, o, length as int, known@, min as nat) && far_from(o, aw)
                            ==> !ranks_above(d@, length as int, known@, o, b as int)
                },
            },
        decreases max_offset + 1 - off,
    {
        let (found, spurious) = window_counts_exec(d, off, length, known);
        let far = match away {
            None => true,
            Some(p) => (off >= p && off - p >= 10) || (p >= off && p - off >= 10),
        };
        if spurious == 0 && found >= min && far {
            let better = match best {
                None => true,
                Some((_, bf)) => found > bf,
            };
            if better {
                best = Some((off, found));
            }
        }
        off = off + 1;
    }
    match best {
        None => {
            assert forall|o: int| #[trigger] is_candidate(d@, o, length as int, known@, min as nat) implies !far_from(o, aw) by {
                assert(0 <= o < off);
            }
            None
        },
        Some((b, _)) => {
            assert forall|o2: int|
                #[trigger] is_candidate(d@, o2, length as int, known@, min as nat) && far_from(o2, aw) implies !ranks_above(
                    d@,
                    length as int,
                    known@,
                    o2,
                    b as int,
                ) by {
                assert(0 <= o2 < off);
            }
            Some(b)
        },
    }
}

/// Locates the LTE mask and the NR SA / NSA masks in a DIAG band-preference
/// response: windows holding only known bands, at least `min_bands` of them,
/// the one with the most bands winning (the earliest among equals).
pub fn detect_band_offsets(diag_bytes: &[u8], min_bands: usize) -> (res: Option<BandOffsets>)
    ensures
        res is Some <==> has_candidate(diag_bytes@, 9, ALL_LTE_BANDS@, min_bands as nat, None)
            && has_candidate(diag_bytes@, 10, ALL_NR_BANDS@, min_bands as nat, None),
        res matches Some(r) ==> offsets_detected(diag_bytes@, min_bands as nat, r),
{
    let lte_known = ALL_LTE_BANDS;
    let nr_known = ALL_NR_BANDS;
    let lte = match best_window(diag_bytes, 9, &lte_known, min_bands, None) {
        Some(o) => o,
        None => {
            return None;
        },
    };
    // Every band a 10-byte window can name is at most 80.
    let p1 = match best_window(diag_bytes, 10, &nr_known, min_bands, None) {
        Some(o) => o,
        None => {
            return None;
        },
    };
    let r = match best_window(diag_bytes, 10, &nr_known, min_bands, Some(p1)) {
        Some(p2) => {
            if p1 < p2 {
                BandOffsets { lte, nr_sa: p1, nr_nsa: p2 }
            } else {
                BandOffsets { lte, nr_sa: p2, nr_nsa: p1 }
            }
        },
        None => BandOffsets { lte, nr_sa: p1, nr_nsa: p1 },
    };
    assert(is_best(diag_bytes@, 10, ALL_NR_BANDS@, min_bands as nat, p1 as int, None));
    Some(r)
}


proof fn lemma_best_unique(
    d: Seq<u8>,
    length: int,
    known: Seq<i32>,
    min: nat,
    o1: int,
    o2: int,
    away: Option<int>,
)
    requires
        is_best(d, length, known, min, o1, away),
        is_best(d, length, known, min, o2, away),
    ensures
        o1 == o2,
{
    assert(!ranks_above(d, length, known, o2, o1));
    assert(!ranks_above(d, length, known, o1, o2));
}

/// There is at most one set of detected offsets.
pub proof fn lemma_offsets_unique(d: Seq<u8>, min: nat, r1: BandOffsets, r2: BandOffsets)
    requires
        offsets_detected(d, min, r1),
        offsets_detected(d, min, r2),
    ensures
        r1 == r2,
{
    lemma_best_unique(d, 9, ALL_LTE_BANDS@, min, r1.lte as int, r2.lte as int, None);
    let p1 = choose|p1: int| #[trigger] is_best(d, 10, ALL_NR_BANDS@, min, p1, None) && (if has_candidate(d, 10, ALL_NR_BANDS@, min, Some(p1)) {
        exists|p2: int| {
            &&& #[trigger] is_best(d, 10, ALL_NR_BANDS@, min, p2, Some(p1))
            &&& r1.nr_sa == if p1 < p2 { p1 } else { p2 }
            &&& r1.nr_nsa == if p1 < p2 { p2 } else { p1 }
        }
    } else {
        r1.nr_sa == p1 && r1.nr_nsa == p1
    });
    let q1 = choose|p1: int| #[trigger] is_best(d, 10, ALL_NR_BANDS@, min, p1, None) && (if has_candidate(d, 10, ALL_NR_BANDS@, min, Some(p1)) {
        exists|p2: int| {
            &&& #[trigger] is_best(d, 10, ALL_NR_BANDS@, min, p2, Some(p1))
            &&& r2.nr_sa == if p1 < p2 { p1 } else { p2 }
            &&& r2.nr_nsa == if p1 < p2 { p2 } else { p1 }
        }
    } else {
        r2.nr_sa == p1 && r2.nr_nsa == p1
    });
    lemma_best_unique(d, 10, ALL_NR_BANDS@, min, p1, q1, None);
    if has_candidate(d, 10, ALL_NR_BANDS@, min, Some(p1)) {
        let p2 = choose|p2: int| {
            &&& #[trigger] is_best(d, 10, ALL_NR_BANDS@, min, p2, Some(p1))
            &&& r1.nr_sa == if p1 < p2 { p1 } else { p2 }
            &&& r1.nr_nsa == if p1 < p2 { p2 } else { p1 }
        };
        let q2 = choose|p2: int| {
            &&& #[trigger] is_best(d, 10, ALL_NR_BANDS@, min, p2, Some(p1))
            &&& r2.nr_sa == if p1 < p2 { p1 } else { p2 }
            &&& r2.nr_nsa == if p1 < p2 { p2 } else { p1 }
        };
        lemma_best_unique(d, 10, ALL_NR_BANDS@, min, p2, q2, Some(p1));
    }
}

/// The bands found in a DIAG band-preference response.
#[allow(non_snake_case)]
#[derive(Debug, Clone)]
pub struct DiagBands {
    pub lte: Vec<i32>,
    pub nrSa: Vec<i32>,
    pub nrNsa: Vec<i32>,
}

/// The three masks lie inside the payload: 9 LTE bytes, 16 bytes per NR mask.
pub open spec fn diag_windows_fit(len: int, r: BandOffsets) -> bool {
    r.lte + 9 <= len && r.nr_sa + 16 <= len && r.nr_nsa + 16 <= len
}

pub open spec fn diag_masks_present(d: Seq<u8>) -> bool {
    has_candidate(d, 9, ALL_LTE_BANDS@, 3, None) && has_candidate(d, 10, ALL_NR_BANDS@, 3, None)
}

/// Reads the LTE, NR SA and NR NSA bands out of a DIAG band-preference
/// payload; a payload without recognisable masks, or whose masks would run
/// past its end, is unsupported rather than read at guessed offsets.
pub fn interpret_diag_response(payload: &[u8]) -> (res: Result<DiagBands, String>)
    ensures
        res is Ok ==> diag_masks_present(payload@),
        match res {
            Ok(b) => exists|r: BandOffsets| {
                &&& #[trigger] offsets_detected(payload@, 3, r)
                &&& diag_windows_fit(payload@.len() as int, r)
                &&& b.lte@ == diag_bands(payload@, r.lte as int, 9, ALL_LTE_BANDS@)
                &&& b.nrSa@ == diag_bands(payload@, r.nr_sa as int, 16, ALL_NR_BANDS@)
                &&& b.nrNsa@ == diag_bands(payload@, r.nr_nsa as int, 16, ALL_NR_BANDS@)
            },
            Err(e) => if diag_masks_present(payload@) {
                &&& e@ == "DIAG band mask out of bounds"@
                &&& forall|r: BandOffsets| #[trigger] offsets_detected(payload@, 3, r) ==> !diag_windows_fit(payload@.len() as int, r)
            } else {
                e@ == "unsupported DIAG payload: no band masks found"@
            },
        },
{
    let plen = payload.len();
    match detect_band_offsets(payload, 3) {
        None => Err(string_from_str("unsupported DIAG payload: no band masks found")),
        Some(o) => {
            if o.lte > plen || plen - o.lte < 9 || o.nr_sa > plen || plen - o.nr_sa < 16
                || o.nr_nsa > plen || plen - o.nr_nsa < 16 {
                proof {
                    assert forall|r: BandOffsets| #[trigger] offsets_detected(payload@, 3, r) implies !diag_windows_fit(payload@.len() as int, r) by {
                        lemma_offsets_unique(payload@, 3, o, r);
                    }
                }
                return Err(string_from_str("DIAG band mask out of bounds"));
            }
            let lte_known = ALL_LTE_BANDS;
            let nr_known = ALL_NR_BANDS;
            let lte = parse_bitmask_bands(payload, o.lte, 9, &lte_known);
            let sa = parse_bitmask_bands(payload, o.nr_sa, 16, &nr_known);
            let nsa = parse_bitmask_bands(payload, o.nr_nsa, 16, &nr_known);
            Ok(DiagBands { lte, nrSa: sa, nrNsa: nsa })
        },
    }
}

// ---------------------------------------------------------------------------
// Requested band lists
// ---------------------------------------------------------------------------

pub open spec fn empty_band_list_message(label: Seq<char>) -> Seq<char> {
    "empty band list for "@ + label + " requires allowEmpty"@
}

pub open spec fn invalid_band_message(tok: Seq<char>, label: Seq<char>) -> Seq<char> {
    "invalid band token '"@ + tok + "' for "@ + label
}

/// Each token read as a band that `known` lists; the first one that is not
/// is the error.
pub open spec fn band_tokens(ts: Seq<Seq<char>>, known: Seq<i32>, label: Seq<char>) -> Result<Seq<i32>, Seq<char>>
    decreases ts.len(),
{
    if ts.len() == 0 {
        Ok(Seq::empty())
    } else {
        match band_tokens(ts.drop_last(), known, label) {
            Err(e) => Err(e),
            Ok(r) => match parse_i32(ts.last()) {
                Some(v) => if known.contains(v as i32) {
                    Ok(r.push(v as i32))
                } else {
                    Err(invalid_band_message(ts.last(), label))
                },
                None => Err(invalid_band_message(ts.last(), label)),
            },
        }
    }
}

/// A requested band list: absent, or bands separated by commas and/or
/// whitespace; a list with no band in it (blank, or separators only) is
/// allowed only with `allow_empty`.
pub open spec fn band_list(s: Option<Seq<char>>, known: Seq<i32>, label: Seq<char>, allow_empty: bool) -> Result<Option<Seq<i32>>, Seq<char>> {
    match s {
        None => Ok(None),
        Some(t) => match band_tokens(tokens(trim(t), true), known, label) {
            Err(e) => Err(e),
            Ok(v) => if v.len() == 0 && !allow_empty {
                Err(empty_band_list_message(label))
            } else {
                Ok(Some(v))
            },
        },
    }
}

pub open spec fn opt_str_view(s: Option<&str>) -> Option<Seq<char>> {
    match s {
        Some(t) => Some(t@),
        None => None,
    }
}

pub open spec fn opt_vec_view(o: Option<Vec<i32>>) -> Option<Seq<i32>> {
    match o {
        Some(v) => Some(v@),
        None => None,
    }
}

pub open spec fn band_list_result_view(r: Result<Option<Vec<i32>>, String>) -> Result<Option<Seq<i32>>, Seq<char>> {
    match r {
        Ok(Some(v)) => Ok(Some(v@)),
        Ok(None) => Ok(None),
        Err(e) => Err(e@),
    }
}

// ---------------------------------------------------------------------------
// Band lists read back
// ---------------------------------------------------------------------------

/// Bands written as decimals separated by commas.
pub open spec fn band_list_text(bs: Seq<i32>) -> Seq<char>
    decreases bs.len(),
{
    if bs.len() == 0 {
        Seq::empty()
    } else if bs.len() == 1 {
        dec_digits(bs[0] as nat)
    } else {
        band_list_text(bs.drop_last()) + seq![','] + dec_digits(bs.last() as nat)
    }
}

proof fn lemma_scan_plain(s: Seq<char>, t: Seq<char>, comma: bool)
    requires
        forall|i: int| 0 <= i < t.len() ==> !is_sep(#[trigger] t[i], comma),
    ensures
        token_scan(s + t, comma) == (token_scan(s, comma).0, token_scan(s, comma).1 + t),
    decreases t.len(),
{
    if t.len() == 0 {
        assert(s + t =~= s);
        assert(token_scan(s, comma).1 + t =~= token_scan(s, comma).1);
    } else {
        let u = t.drop_last();
        lemma_scan_plain(s, u, comma);
        assert((s + t).drop_last() =~= s + u);
        assert((s + t).last() == t.last());
        assert(token_scan(s, comma).1 + u.push(t.last()) =~= token_scan(s, comma).1 + t);
    }
}

proof fn lemma_band_digits(n: nat)
    ensures
        dec_digits(n).len() > 0,
        forall|i: int| 0 <= i < dec_digits(n).len() ==> !is_sep(#[trigger] dec_digits(n)[i], true)
            && crate::text::is_ascii_digit(dec_digits(n)[i]),
        n <= 0x7fff_ffff ==> parse_i32(dec_digits(n)) == Some(n as int),
{
    lemma_dec_digits(n);
    assert forall|i: int| 0 <= i < dec_digits(n).len() implies !is_sep(#[trigger] dec_digits(n)[i], true)
        && crate::text::is_ascii_digit(dec_digits(n)[i]) by {
        assert(crate::text::digit_value(dec_digits(n)[i], 10) is Some);
    }
    if n <= 0x7fff_ffff {
        lemma_parse_dec_digits(n, 0x7fff_ffff);
    }
}

proof fn lemma_scan_band_list_text(bs: Seq<i32>)
    requires
        bs.len() > 0,
    ensures
        token_scan(band_list_text(bs), true) == (
            Seq::new((bs.len() - 1) as nat, |i: int| dec_digits(bs[i] as nat)),
            dec_digits(bs.last() as nat),
        ),
        band_list_text(bs).len() > 0,
        crate::text::is_ascii_digit(band_list_text(bs)[0]),
        crate::text::is_ascii_digit(band_list_text(bs).last()),
    decreases bs.len(),
{
    lemma_band_digits(bs.last() as nat);
    let d = dec_digits(bs.last() as nat);
    if bs.len() == 1 {
        lemma_scan_plain(Seq::empty(), d, true);
        assert(Seq::<char>::empty() + d =~= d);
        assert(Seq::new(0, |i: int| dec_digits(bs[i] as nat)) =~= Seq::<Seq<char>>::empty());
    } else {
        let p = bs.drop_last();
        lemma_scan_band_list_text(p);
        lemma_band_digits(p.last() as nat);
        let head = band_list_text(p) + seq![','];
        assert(head.drop_last() =~= band_list_text(p));
        assert(token_scan(head, true) == (
            Seq::new((p.len() - 1) as nat, |i: int| dec_digits(p[i] as nat)).push(dec_digits(p.last() as nat)),
            Seq::<char>::empty(),
        ));
        lemma_scan_plain(head, d, true);
        assert(Seq::new((p.len() - 1) as nat, |i: int| dec_digits(p[i] as nat)).push(dec_digits(p.last() as nat))
            =~= Seq::new((bs.len() - 1) as nat, |i: int| dec_digits(bs[i] as nat)));
        assert(Seq::<char>::empty() + d =~= d);
        let t = band_list_text(bs);
        assert(t == head + d);
        assert(t[0] == band_list_text(p)[0]);
        assert(t.last() == d.last());
    }
}

proof fn lemma_band_tokens_of_digits(bs: Seq<i32>, known: Seq<i32>, label: Seq<char>)
    requires
        forall|i: int| 0 <= i < bs.len() ==> 0 <= #[trigger] bs[i] && known.contains(bs[i]),
    ensures
        band_tokens(Seq::new(bs.len(), |i: int| dec_digits(bs[i] as nat)), known, label) == Ok::<Seq<i32>, Seq<char>>(bs),
    decreases bs.len(),
{
    let ts = Seq::new(bs.len(), |i: int| dec_digits(bs[i] as nat));
    if bs.len() > 0 {
        let p = bs.drop_last();
        lemma_band_tokens_of_digits(p, known, label);
        assert(ts.drop_last() =~= Seq::new(p.len(), |i: int| dec_digits(p[i] as nat)));
        lemma_band_digits(bs.last() as nat);
        assert(known.contains(bs[bs.len() - 1]));
        assert(p.push(bs.last()) =~= bs);
    } else {
        assert(bs =~= Seq::<i32>::empty());
    }
}

/// Any list of bands that `known` lists, written as decimals separated by
/// commas, reads back as exactly those bands in that order: every known
/// band is accepted, wherever it stands in the list.
pub proof fn law_known_bands_accepted(bs: Seq<i32>, known: Seq<i32>, label: Seq<char>, allow_empty: bool)
    requires
        bs.len() > 0,
        forall|i: int| 0 <= i < bs.len() ==> 0 <= #[trigger] bs[i] && known.contains(bs[i]),
    ensures
        band_list(Some(band_list_text(bs)), known, label, allow_empty) == Ok::<Option<Seq<i32>>, Seq<char>>(Some(bs)),
{
    let t = band_list_text(bs);
    lemma_scan_band_list_text(bs);
    assert(crate::text::leading_ws(t) == 0);
    assert(crate::text::trim_start(t) =~= t);
    assert(crate::text::trailing_ws(t) == 0);
    assert(trim(t) =~= t);
    assert(tokens(t, true) =~= Seq::new(bs.len(), |i: int| dec_digits(bs[i] as nat)));
    lemma_band_tokens_of_digits(bs, known, label);
}

proof fn lemma_band_tokens_err_sticks(ts: Seq<Seq<char>>, k: int, known: Seq<i32>, label: Seq<char>)
    requires
        0 <= k <= ts.len(),
        band_tokens(ts.take(k), known, label) is Err,
    ensures
        band_tokens(ts, known, label) == band_tokens(ts.take(k), known, label),
    decreases ts.len() - k,
{
    if k < ts.len() {
        assert(ts.take(k + 1).drop_last() == ts.take(k));
        lemma_band_tokens_err_sticks(ts, k + 1, known, label);
    } else {
        assert(ts.take(k) == ts);
    }
}

/// Parses a requested band list against the bands `known` lists.
pub fn parse_band_list(s: Option<&str>, known: &[i32], label: &str, allow_empty: bool) -> (res: Result<Option<Vec<i32>>, String>)
    ensures
        band_list_result_view(res) == band_list(opt_str_view(s), known@, label@, allow_empty),
{
    let text = match s {
        Some(v) => v,
        None => return Ok(None),
    };
    let cs = chars_of(text);
    let trimmed = trim_exec(cs.as_slice());
    let ts = split_tokens(trimmed.as_slice(), true);
    let mut res: Vec<i32> = Vec::new();
    let mut i: usize = 0;
    while i < ts.len()
        invariant
            i <= ts@.len(),
            ts.deep_view() == tokens(trim(text@), true),
            s == Some(text),
            band_tokens(ts.deep_view().take(i as int), known@, label@) == Ok::<Seq<i32>, Seq<char>>(res@),
        decreases ts@.len() - i,
    {
        assert(ts.deep_view().take(i + 1).drop_last() == ts.deep_view().take(i as int));
        assert(ts.deep_view().take(i + 1).last() == ts@[i as int]@);
        let tok = ts[i].as_slice();
        let ok = match parse_i32_exec(tok) {
            Some(v) => if contains_band(known, v) {
                res.push(v);
                true
            } else {
                false
            },
            None => false,
        };
        if !ok {
            assert(band_tokens(ts.deep_view().take(i + 1), known@, label@) == Err::<Seq<i32>, Seq<char>>(invalid_band_message(ts@[i as int]@, label@)));
            let mut e = string_from_str("invalid band token '");
            push_chars(&mut e, tok);
            string_push_str(&mut e, "' for ");
            string_push_str(&mut e, label);
            proof {
                lemma_band_tokens_err_sticks(ts.deep_view(), i + 1, known@, label@);
            }
            return Err(e);
        }
        i = i + 1;
    }
    assert(ts.deep_view().take(ts@.len() as int) == ts.deep_view());
    if res.len() == 0 && !allow_empty {
        let mut e = string_from_str("empty band list for ");
        string_push_str(&mut e, label);
        string_push_str(&mut e, " requires allowEmpty");
        return Err(e);
    }
    Ok(Some(res))
}


// ---------------------------------------------------------------------------
// A band lock request and the NV writes it makes
// ---------------------------------------------------------------------------

pub open spec fn zero_band_message() -> Seq<char> {
    "refusing zero-band mask: no band categories provided"@
}

pub type BandRequest = (Option<Seq<i32>>, Option<Seq<i32>>, Option<Seq<i32>>);

/// The validated request: slot, then the LTE, NR NSA and NR SA lists in that
/// order; at least one list must be given.
pub open spec fn bandlock_request(
    slot: int,
    lte: Option<Seq<char>>,
    nr_nsa: Option<Seq<char>>,
    nr_sa: Option<Seq<char>>,
    allow_empty: bool,
) -> Result<BandRequest, Seq<char>> {
    if !slot_valid(slot) {
        Err(invalid_slot_message(slot))
    } else {
        match band_list(lte, ALL_LTE_BANDS@, "lte"@, allow_empty) {
            Err(e) => Err(e),
            Ok(l) => match band_list(nr_nsa, ALL_NR_BANDS@, "nrNsa"@, allow_empty) {
                Err(e) => Err(e),
                Ok(n) => match band_list(nr_sa, ALL_NR_BANDS@, "nrSa"@, allow_empty) {
                    Err(e) => Err(e),
                    Ok(a) => if l is None && n is None && a is None {
                        Err(zero_band_message())
                    } else {
                        Ok((l, n, a))
                    },
                },
            },
        }
    }
}

#[derive(Debug, Clone, Copy, PartialEq, Eq)]
pub enum MaskKind {
    LtePrimary,
    LteExtension,
    Nr,
}

pub open spec fn mask_holds(kind: MaskKind, bytes: Seq<u8>, bands: Seq<i32>) -> bool {
    match kind {
        MaskKind::LtePrimary => band_mask(bytes, 8, bands),
        MaskKind::LteExtension => lte_extension_mask(bytes, bands),
        MaskKind::Nr => band_mask(bytes, 64, bands),
    }
}

/// The NV items a request writes, in order: the LTE primary and extension
/// masks, then the NR NSA mask, then the NR SA mask, each only when its list
/// was given.
pub open spec fn planned_targets(slot: int, req: BandRequest) -> Seq<(Seq<char>, MaskKind, Seq<i32>)> {
    let lte = match req.0 {
        Some(b) => seq![
            (lte_primary_path(slot), MaskKind::LtePrimary, b),
            (lte_extension_path(slot), MaskKind::LteExtension, b),
        ],
        None => Seq::empty(),
    };
    let nsa = match req.1 {
        Some(b) => seq![(nr_nsa_path(slot), MaskKind::Nr, b)],
        None => Seq::empty(),
    };
    let sa = match req.2 {
        Some(b) => seq![(nr_sa_path(slot), MaskKind::Nr, b)],
        None => Seq::empty(),
    };
    lte + nsa + sa
}

/// One NV write of a band lock.
#[derive(Debug, Clone)]
pub struct BandTarget {
    pub path: String,
    pub bytes: Vec<u8>,
}

pub open spec fn targets_match(ts: Seq<BandTarget>, planned: Seq<(Seq<char>, MaskKind, Seq<i32>)>) -> bool {
    &&& ts.len() == planned.len()
    &&& forall|i: int|
        0 <= i < ts.len() ==> (#[trigger] ts[i]).path@ == planned[i].0 && mask_holds(
            planned[i].1,
            ts[i].bytes@,
            planned[i].2,
        )
}

/// Validates a band lock request and computes the masks to write, before
/// anything is read or written.
pub fn plan_bandlock_set(
    slot: i32,
    lte_str: Option<&str>,
    nr_nsa_str: Option<&str>,
    nr_sa_str: Option<&str>,
    allow_empty: bool,
) -> (res: Result<Vec<BandTarget>, String>)
    ensures
        match bandlock_request(
            slot as int,
            opt_str_view(lte_str),
            opt_str_view(nr_nsa_str),
            opt_str_view(nr_sa_str),
            allow_empty,
        ) {
            Err(m) => res matches Err(e) && e@ == m,
            Ok(req) => res matches Ok(ts) && targets_match(ts@, planned_targets(slot as int, req)),
        },
{
    if let Err(e) = validate_slot(slot) {
        return Err(e);
    }
    let lte_known = ALL_LTE_BANDS;
    let nr_known = ALL_NR_BANDS;
    let lte = match parse_band_list(lte_str, &lte_known, "lte", allow_empty) {
        Ok(b) => b,
        Err(e) => return Err(e),
    };
    let nr_nsa = match parse_band_list(nr_nsa_str, &nr_known, "nrNsa", allow_empty) {
        Ok(b) => b,
        Err(e) => return Err(e),
    };
    let nr_sa = match parse_band_list(nr_sa_str, &nr_known, "nrSa", allow_empty) {
        Ok(b) => b,
        Err(e) => return Err(e),
    };
    if lte.is_none() && nr_nsa.is_none() && nr_sa.is_none() {
        return Err(string_from_str("refusing zero-band mask: no band categories provided"));
    }
    let ghost req: BandRequest = (opt_vec_view(lte), opt_vec_view(nr_nsa), opt_vec_view(nr_sa));
    let ghost planned = planned_targets(slot as int, req);
    let paths = paths_for_slot(slot);
    let mut targets: Vec<BandTarget> = Vec::new();
    if let Some(bands) = &lte {
        targets.push(BandTarget { path: paths.lte_primary.clone(), bytes: build_lte_primary(bands.as_slice()) });
        targets.push(BandTarget { path: paths.lte_extension.clone(), bytes: build_lte_extension(bands.as_slice()) });
    }
    let ghost n1 = targets@.len();
    assert(targets_match(targets@, planned.take(n1 as int)));
    if let Some(bands) = &nr_nsa {
        targets.push(BandTarget { path: paths.nr_nsa.clone(), bytes: build_nr_bitmask(bands.as_slice()) });
    }
    let ghost n2 = targets@.len();
    assert(targets_match(targets@, planned.take(n2 as int)));
    if let Some(bands) = &nr_sa {
        targets.push(BandTarget { path: paths.nr.clone(), bytes: build_nr_bitmask(bands.as_slice()) });
    }
    assert(planned.take(targets@.len() as int) == planned);
    Ok(targets)
}

// ---------------------------------------------------------------------------
// The current band lock, from the four NV reads
// ---------------------------------------------------------------------------

/// The bytes a read returned; an absent or failed read counts as empty.
pub open spec fn read_bytes(r: EfsReadModel) -> Seq<u8> {
    match r {
        EfsReadModel::Present(b) => b,
        _ => Seq::empty(),
    }
}

/// The hex text of a read; empty for an absent or failed read.
pub open spec fn read_hex(r: EfsReadModel) -> Seq<char> {
    match r {
        EfsReadModel::Present(b) => hex_encode(b),
        _ => Seq::empty(),
    }
}

#[derive(Debug, Clone)]
pub struct BandlockReading {
    pub ok: bool,
    pub lte_primary_hex: String,
    pub lte_extension_hex: String,
    pub nr_nsa_hex: String,
    pub nr_hex: String,
    pub lte: Vec<i32>,
    pub nr_nsa: Vec<i32>,
    pub nr_sa: Vec<i32>,
}

fn read_bytes_exec(r: &EfsRead) -> (b: Vec<u8>)
    ensures
        b@ == read_bytes(r@),
{
    match r {
        EfsRead::Present(b) => take_all(b.as_slice()),
        _ => Vec::new(),
    }
}

fn read_hex_exec(r: &EfsRead) -> (s: String)
    ensures
        s@ == read_hex(r@),
{
    match r {
        EfsRead::Present(b) => bytes_to_hex(b.as_slice()),
        _ => String::new(),
    }
}

fn take_all(v: &[u8]) -> (r: Vec<u8>)
    ensures
        r@ == v@,
{
    let r = crate::util::take_bytes(v, v.len());
    assert(v@.take(v@.len() as int) == v@);
    r
}

fn append_bands(a: &mut Vec<i32>, b: &Vec<i32>)
    ensures
        final(a)@ == old(a)@ + b@,
{
    let mut i: usize = 0;
    while i < b.len()
        invariant
            i <= b@.len(),
            a@ == old(a)@ + b@.take(i as int),
        decreases b@.len() - i,
    {
        a.push(b[i]);
        i = i + 1;
        assert(a@ =~= old(a)@ + b@.take(i as int));
    }
    assert(b@.take(b@.len() as int) == b@);
}

/// The band lock read back from the LTE primary, LTE extension, NR NSA and
/// NR SA items: the bands of the LTE masks (primary then extension, so in
/// ascending order) and of each NR mask; `ok` when no read failed.
pub fn summarize_bandlock(lte_primary: &EfsRead, lte_extension: &EfsRead, nr_nsa: &EfsRead, nr_sa: &EfsRead) -> (res: BandlockReading)
    ensures
        res.ok == !(lte_primary@ is Error || lte_extension@ is Error || nr_nsa@ is Error || nr_sa@ is Error),
        res.lte_primary_hex@ == read_hex(lte_primary@),
        res.lte_extension_hex@ == read_hex(lte_extension@),
        res.nr_nsa_hex@ == read_hex(nr_nsa@),
        res.nr_hex@ == read_hex(nr_sa@),
        res.lte@ == bands_in_mask(read_bytes(lte_primary@), lte_primary_range(), 1) + bands_in_mask(read_bytes(lte_extension@), lte_extension_known(), 65),
        res.nr_nsa@ == bands_in_mask(read_bytes(nr_nsa@), ALL_NR_BANDS@, 1),
        res.nr_sa@ == bands_in_mask(read_bytes(nr_sa@), ALL_NR_BANDS@, 1),
        strictly_increasing(res.lte@),
{
    proof {
        lemma_lte_bands_increasing(read_bytes(lte_primary@), read_bytes(lte_extension@));
    }
    let ok = !(matches!(lte_primary, EfsRead::Error(_)) || matches!(lte_extension, EfsRead::Error(_))
        || matches!(nr_nsa, EfsRead::Error(_)) || matches!(nr_sa, EfsRead::Error(_)));
    let pri = read_bytes_exec(lte_primary);
    let ext = read_bytes_exec(lte_extension);
    let nsa = read_bytes_exec(nr_nsa);
    let sa = read_bytes_exec(nr_sa);
    let mut lte = parse_lte_primary(pri.as_slice());
    let lte_ext = parse_lte_extension(ext.as_slice());
    append_bands(&mut lte, &lte_ext);
    BandlockReading {
        ok,
        lte_primary_hex: read_hex_exec(lte_primary),
        lte_extension_hex: read_hex_exec(lte_extension),
        nr_nsa_hex: read_hex_exec(nr_nsa),
        nr_hex: read_hex_exec(nr_sa),
        lte,
        nr_nsa: parse_nr_bitmask(nsa.as_slice()),
        nr_sa: parse_nr_bitmask(sa.as_slice()),
    }
}


// ---------------------------------------------------------------------------
// Laws: reading back a mask that was built
// ---------------------------------------------------------------------------

pub open spec fn strictly_increasing(s: Seq<i32>) -> bool {
    forall|i: int, j: int| 0 <= i < j < s.len() ==> s[i] < s[j]
}

proof fn lemma_bands_in_mask_contains(bytes: Seq<u8>, cands: Seq<i32>, base: int)
    ensures
        forall|x: i32|
            #[trigger] bands_in_mask(bytes, cands, base).contains(x) <==> (cands.contains(x)
                && mask_bit(bytes, x - base)),
    decreases cands.len(),
{
    if cands.len() > 0 {
        let c = cands.drop_last();
        lemma_bands_in_mask_contains(bytes, c, base);
        assert forall|x: i32| #[trigger] cands.contains(x) <==> (c.contains(x) || x == cands.last()) by {
            assert(cands == c.push(cands.last()));
            lemma_contains_push(c, cands.last(), x);
        }
        let r = bands_in_mask(bytes, c, base);
        if mask_bit(bytes, cands.last() - base) {
            assert forall|x: i32| #[trigger] r.push(cands.last()).contains(x) <==> (r.contains(x) || x == cands.last()) by {
                lemma_contains_push(r, cands.last(), x);
            }
        }
    }
}

/// The LTE bands read from the primary mask, then from the extension mask,
/// come in strictly increasing order (so without repeats).
proof fn lemma_lte_bands_increasing(pri: Seq<u8>, ext: Seq<u8>)
    ensures
        strictly_increasing(bands_in_mask(pri, lte_primary_range(), 1) + bands_in_mask(ext, lte_extension_known(), 65)),
{
    let a = bands_in_mask(pri, lte_primary_range(), 1);
    let b = bands_in_mask(ext, lte_extension_known(), 65);
    assert(strictly_increasing(lte_primary_range()));
    assert(strictly_increasing(lte_extension_known()));
    lemma_bands_in_mask_increasing(pri, lte_primary_range(), 1);
    lemma_bands_in_mask_increasing(ext, lte_extension_known(), 65);
    lemma_bands_in_mask_contains(pri, lte_primary_range(), 1);
    lemma_bands_in_mask_contains(ext, lte_extension_known(), 65);
    assert forall|i: int| 0 <= i < a.len() implies #[trigger] a[i] <= 64 by {
        assert(a.contains(a[i]));
        assert(lte_primary_range().contains(a[i]));
    }
    assert forall|i: int| 0 <= i < b.len() implies #[trigger] b[i] >= 66 by {
        assert(b.contains(b[i]));
        assert(lte_extension_known().contains(b[i]));
    }
    let c = a + b;
    assert forall|i: int, j: int| 0 <= i < j < c.len() implies c[i] < c[j] by {
        if j < a.len() {
        } else if i >= a.len() {
            assert(c[i] == b[i - a.len()]);
            assert(c[j] == b[j - a.len()]);
        } else {
            assert(c[i] == a[i]);
            assert(c[j] == b[j - a.len()]);
        }
    }
}

proof fn lemma_bands_in_mask_increasing(bytes: Seq<u8>, cands: Seq<i32>, base: int)
    requires
        strictly_increasing(cands),
    ensures
        strictly_increasing(bands_in_mask(bytes, cands, base)),
    decreases cands.len(),
{
    if cands.len() > 0 {
        let c = cands.drop_last();
        assert(strictly_increasing(c));
        lemma_bands_in_mask_increasing(bytes, c, base);
        lemma_bands_in_mask_contains(bytes, c, base);
        let r = bands_in_mask(bytes, c, base);
        assert forall|i: int| 0 <= i < r.len() implies r[i] < cands.last() by {
            assert(r[i] == r[i]);
            assert(r.contains(r[i]));
            assert(c.contains(r[i]));
            let k = choose|k: int| 0 <= k < c.len() && c[k] == r[i];
            assert(cands[k] == c[k]);
            assert(cands[k] < cands[cands.len() - 1]);
        }
    }
}

/// Two strictly increasing sequences with the same elements are equal.
proof fn lemma_increasing_same_elements(a: Seq<i32>, b: Seq<i32>)
    requires
        strictly_increasing(a),
        strictly_increasing(b),
        forall|x: i32| a.contains(x) <==> b.contains(x),
    ensures
        a == b,
    decreases a.len(),
{
    if a.len() == 0 {
        if b.len() > 0 {
            assert(b.contains(b[0]));
        }
    } else {
        assert(a.contains(a[0]));
        assert(b.len() > 0);
        assert(b.contains(b[0]));
        let ka = choose|k: int| 0 <= k < a.len() && a[k] == b[0];
        let kb = choose|k: int| 0 <= k < b.len() && b[k] == a[0];
        assert(a[0] <= a[ka]);
        assert(b[0] <= b[kb]);
        assert(a[0] == b[0]);
        let a1 = a.drop_first();
        let b1 = b.drop_first();
        assert forall|x: i32| a1.contains(x) <==> b1.contains(x) by {
            if a1.contains(x) {
                let k = choose|k: int| 0 <= k < a1.len() && a1[k] == x;
                assert(a[k + 1] == x);
                assert(b.contains(x));
                let m = choose|m: int| 0 <= m < b.len() && b[m] == x;
                assert(m != 0);
                assert(b1[m - 1] == x);
            }
            if b1.contains(x) {
                let k = choose|k: int| 0 <= k < b1.len() && b1[k] == x;
                assert(b[k + 1] == x);
                assert(a.contains(x));
                let m = choose|m: int| 0 <= m < a.len() && a[m] == x;
                assert(m != 0);
                assert(a1[m - 1] == x);
            }
        }
        lemma_increasing_same_elements(a1, b1);
        assert(a == seq![a[0]] + a1);
        assert(b == seq![b[0]] + b1);
    }
}

proof fn lemma_band_mask_bit(bytes: Seq<u8>, n: int, enabled: Seq<i32>, x: i32)
    requires
        band_mask(bytes, n, enabled),
        1 <= x <= 8 * n,
    ensures
        mask_bit(bytes, x - 1) <==> enabled.contains(x),
{
    let j = (x - 1) / 8;
    let k = (x - 1) % 8;
    assert(bit_of(bytes[j], k) <==> enabled.contains((8 * j + k + 1) as i32));
}

/// Law: the primary LTE mask built for some bands reads back as exactly the
/// enabled bands in 1..=64, in ascending order; for a strictly increasing list
/// of such bands, as the list itself.
pub proof fn law_lte_primary_roundtrip(enabled: Seq<i32>, bytes: Seq<u8>)
    requires
        band_mask(bytes, 8, enabled),
    ensures
        forall|x: i32|
            bands_in_mask(bytes, lte_primary_range(), 1).contains(x) <==> (1 <= x <= 64
                && enabled.contains(x)),
        strictly_increasing(bands_in_mask(bytes, lte_primary_range(), 1)),
        strictly_increasing(enabled) && (forall|i: int|
            0 <= i < enabled.len() ==> 1 <= #[trigger] enabled[i] <= 64) ==> bands_in_mask(
            bytes,
            lte_primary_range(),
            1,
        ) == enabled,
{
    let parsed = bands_in_mask(bytes, lte_primary_range(), 1);
    lemma_bands_in_mask_contains(bytes, lte_primary_range(), 1);
    lemma_bands_in_mask_increasing(bytes, lte_primary_range(), 1);
    assert forall|x: i32| parsed.contains(x) <==> (1 <= x <= 64 && enabled.contains(x)) by {
        if 1 <= x <= 64 {
            assert(lte_primary_range()[x - 1] == x);
            lemma_band_mask_bit(bytes, 8, enabled, x);
        }
        if lte_primary_range().contains(x) {
            let k = choose|k: int| 0 <= k < 64 && lte_primary_range()[k] == x;
        }
    }
    if strictly_increasing(enabled) && (forall|i: int|
        0 <= i < enabled.len() ==> 1 <= #[trigger] enabled[i] <= 64) {
        assert forall|x: i32| parsed.contains(x) <==> enabled.contains(x) by {
            if enabled.contains(x) {
                let k = choose|k: int| 0 <= k < enabled.len() && enabled[k] == x;
            }
        }
        lemma_increasing_same_elements(parsed, enabled);
    }
}

/// Law: an NR mask built for some bands reads back as the bands of the NR
/// table (in table order) that were enabled.
pub proof fn law_nr_roundtrip(enabled: Seq<i32>, bytes: Seq<u8>)
    requires
        band_mask(bytes, 64, enabled),
    ensures
        forall|x: i32|
            bands_in_mask(bytes, ALL_NR_BANDS@, 1).contains(x) <==> (ALL_NR_BANDS@.contains(x) && 1
                <= x <= 512 && enabled.contains(x)),
{
    lemma_bands_in_mask_contains(bytes, ALL_NR_BANDS@, 1);
    assert forall|x: i32|
        bands_in_mask(bytes, ALL_NR_BANDS@, 1).contains(x) <==> (ALL_NR_BANDS@.contains(x) && 1 <= x
            <= 512 && enabled.contains(x)) by {
        assert(bands_in_mask(bytes, ALL_NR_BANDS@, 1).contains(x) <==> (ALL_NR_BANDS@.contains(x)
            && mask_bit(bytes, x - 1)));
        if 1 <= x <= 512 {
            lemma_band_mask_bit(bytes, 64, enabled, x);
        } else {
            assert(!mask_bit(bytes, x - 1));
        }
    }
}

/// Law: the LTE extension mask built for some bands reads back as those of
/// bands 66 and 71 that were enabled.
pub proof fn law_lte_extension_roundtrip(enabled: Seq<i32>, bytes: Seq<u8>)
    requires
        lte_extension_mask(bytes, enabled),
    ensures
        forall|x: i32|
            bands_in_mask(bytes, lte_extension_known(), 65).contains(x) <==> ((x == 66 || x == 71)
                && enabled.contains(x)),
{
    lemma_bands_in_mask_contains(bytes, lte_extension_known(), 65);
    assert(bit_of(bytes[0], 1) <==> enabled.contains(66));
    assert(bit_of(bytes[0], 6) <==> enabled.contains(71));
    assert forall|x: i32|
        bands_in_mask(bytes, lte_extension_known(), 65).contains(x) <==> ((x == 66 || x == 71)
            && enabled.contains(x)) by {
        assert(bands_in_mask(bytes, lte_extension_known(), 65).contains(x) <==> (
        lte_extension_known().contains(x) && mask_bit(bytes, x - 65)));
        if lte_extension_known().contains(x) {
            let k = choose|k: int| 0 <= k < 2 && lte_extension_known()[k] == x;
        }
        if x == 66 {
            assert(lte_extension_known()[0] == x);
            assert(mask_bit(bytes, x - 65) == bit_of(bytes[0], 1));
        } else if x == 71 {
            assert(lte_extension_known()[1] == x);
            assert(mask_bit(bytes, x - 65) == bit_of(bytes[0], 6));
        } else {
            assert(!lte_extension_known().contains(x));
        }
    }
}

} // verus!
