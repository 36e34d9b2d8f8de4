//! Input validation (NV paths, slots, hex payloads, backup ids), hex and
//! decimal byte codecs, and the parsers for `mtb` output: EFS reads and
//! DIAG responses.
use vstd::prelude::*;
use crate::text::{
    all_digits, chars_of, is_sep, token_scan, contains, contains_exec, dec_digits, digit_value, digit_value_exec,
    hex_char, hex_char_exec, int_text, is_ascii_alphanumeric, is_control, is_control_exec,
    is_hex_digit, parse_unsigned, parse_unsigned_exec, push_chars, push_int, split_words,
    starts_with, starts_with_exec, string_from_chars, string_from_str, string_push,
    string_push_str, words, find, find_exec, lines, push_decimal, slice_range, split_lines,
    trim, trim_exec, trim_start, trim_start_exec,
};

verus! {

// ---------------------------------------------------------------------------
// UTF-8 length (what `str::len` counts)
// ---------------------------------------------------------------------------

pub open spec fn utf8_width(c: char) -> nat {
    if (c as u32) < 0x80 {
        1
    } else if (c as u32) < 0x800 {
        2
    } else if (c as u32) < 0x10000 {
        3
    } else {
        4
    }
}

/// Number of bytes in the UTF-8 encoding of `s`.
pub open spec fn utf8_len(s: Seq<char>) -> nat
    decreases s.len(),
{
    if s.len() == 0 {
        0
    } else {
        utf8_len(s.drop_last()) + utf8_width(s.last())
    }
}

pub fn utf8_len_exec(s: &[char]) -> (r: u128)
    ensures
        r == utf8_len(s@),
{
    let mut n: u128 = 0;
    let mut i: usize = 0;
    while i < s.len()
        invariant
            i <= s@.len(),
            n == utf8_len(s@.take(i as int)),
            n <= 4 * i,
        decreases s@.len() - i,
    {
        assert(s@.take(i + 1).drop_last() == s@.take(i as int));
        let c = s[i] as u32;
        n = n + if c < 0x80 {
            1
        } else if c < 0x800 {
            2
        } else if c < 0x10000 {
            3
        } else {
            4
        };
        i = i + 1;
    }
    assert(s@.take(s@.len() as int) == s@);
    n
}

// ---------------------------------------------------------------------------
// Slots
// ---------------------------------------------------------------------------

pub open spec fn slot_valid(slot: int) -> bool {
    slot == 0 || slot == 1
}

pub open spec fn invalid_slot_message(slot: int) -> Seq<char> {
    "Invalid slot: "@ + int_text(slot) + ". Must be 0 or 1"@
}

/// Accepts SIM slot 0 or 1.
pub fn validate_slot(slot: i32) -> (res: Result<(), String>)
    ensures
        res is Ok <==> slot_valid(slot as int),
        res matches Err(e) ==> e@ == invalid_slot_message(slot as int),
{
    if slot == 0 || slot == 1 {
        Ok(())
    } else {
        let mut e = string_from_str("Invalid slot: ");
        push_int(&mut e, slot as i64);
        string_push_str(&mut e, ". Must be 0 or 1");
        Err(e)
    }
}

// ---------------------------------------------------------------------------
// NV paths
// ---------------------------------------------------------------------------

pub open spec fn nv_prefix_mmode() -> Seq<char> {
    "/nv/item_files/modem/mmode/"@
}

pub open spec fn nv_prefix_lte_efs() -> Seq<char> {
    "/nv/item_files/modem/lte/rrc/efs/"@
}

pub open spec fn nv_prefix_nr_rrc() -> Seq<char> {
    "/nv/item_files/modem/nr5g/RRC/"@
}

pub open spec fn nv_prefix_lte_rrc() -> Seq<char> {
    "/nv/item_files/modem/lte/RRC/"@
}

pub open spec fn has_control_char(s: Seq<char>) -> bool {
    exists|i: int| 0 <= i < s.len() && is_control(#[trigger] s[i])
}

/// A path that may be traversed: no `..`, no control character.
pub open spec fn nv_path_clean(p: Seq<char>) -> bool {
    !contains(p, ".."@) && !has_control_char(p)
}

pub open spec fn nv_path_prefixed(p: Seq<char>) -> bool {
    ||| starts_with(p, nv_prefix_mmode())
    ||| starts_with(p, nv_prefix_lte_efs())
    ||| starts_with(p, nv_prefix_nr_rrc())
    ||| starts_with(p, nv_prefix_lte_rrc())
}

/// The NV path allowlist: a clean path under one of the modem prefixes.
pub open spec fn nv_path_allowed(p: Seq<char>) -> bool {
    nv_path_clean(p) && nv_path_prefixed(p)
}

pub open spec fn unclean_path_message() -> Seq<char> {
    "Invalid path: contains '..' or control characters"@
}

pub open spec fn unprefixed_path_message(p: Seq<char>) -> Seq<char> {
    "Path '"@ + p + "' does not match allowed NV prefixes"@
}

pub fn has_control_char_exec(s: &[char]) -> (r: bool)
    ensures
        r == has_control_char(s@),
{
    let mut i: usize = 0;
    while i < s.len()
        invariant
            i <= s@.len(),
            forall|j: int| 0 <= j < i ==> !is_control(#[trigger] s@[j]),
        decreases s@.len() - i,
    {
        if is_control_exec(s[i]) {
            return true;
        }
        i = i + 1;
    }
    false
}

/// Accepts only NV paths on the allowlist.
pub fn validate_nv_path(path: &str) -> (res: Result<(), String>)
    ensures
        res is Ok <==> nv_path_allowed(path@),
        res matches Err(e) ==> e@ == (if !nv_path_clean(path@) {
            unclean_path_message()
        } else {
            unprefixed_path_message(path@)
        }),
{
    let p = chars_of(path);
    let dots = chars_of("..");
    if contains_exec(p.as_slice(), dots.as_slice()) || has_control_char_exec(p.as_slice()) {
        return Err(string_from_str("Invalid path: contains '..' or control characters"));
    }
    let prefixes = [
        "/nv/item_files/modem/mmode/",
        "/nv/item_files/modem/lte/rrc/efs/",
        "/nv/item_files/modem/nr5g/RRC/",
        "/nv/item_files/modem/lte/RRC/",
    ];
    let mut k: usize = 0;
    while k < 4
        invariant
            k <= 4,
            p@ == path@,
            nv_path_clean(path@),
            prefixes@ == seq![
                "/nv/item_files/modem/mmode/",
                "/nv/item_files/modem/lte/rrc/efs/",
                "/nv/item_files/modem/nr5g/RRC/",
                "/nv/item_files/modem/lte/RRC/",
            ],
            forall|j: int| 0 <= j < k ==> !starts_with(path@, (#[trigger] prefixes@[j])@),
        decreases 4 - k,
    {
        let pre = chars_of(prefixes[k]);
        if starts_with_exec(p.as_slice(), pre.as_slice()) {
            return Ok(());
        }
        k = k + 1;
    }
    assert(!starts_with(path@, prefixes@[0]@));
    assert(!starts_with(path@, prefixes@[1]@));
    assert(!starts_with(path@, prefixes@[2]@));
    assert(!starts_with(path@, prefixes@[3]@));
    let mut e = string_from_str("Path '");
    string_push_str(&mut e, path);
    string_push_str(&mut e, "' does not match allowed NV prefixes");
    Err(e)
}


// ---------------------------------------------------------------------------
// Hex payloads
// ---------------------------------------------------------------------------

pub open spec fn all_hex(s: Seq<char>) -> bool {
    forall|i: int| 0 <= i < s.len() ==> is_hex_digit(#[trigger] s[i])
}

/// Why `s` is not an acceptable hex payload, if it is not one: the checks in
/// order, on the byte length of `s`.
pub open spec fn hex_text_error(s: Seq<char>) -> Option<Seq<char>> {
    if utf8_len(s) % 2 != 0 {
        Some("Hex string must have an even length"@)
    } else if utf8_len(s) > 1024 {
        Some("Hex string length exceeds maximum of 1024 characters"@)
    } else if !all_hex(s) {
        Some("Hex string contains non-hex characters"@)
    } else {
        None
    }
}

pub open spec fn hex_val(c: char) -> nat {
    match digit_value(c, 16) {
        Some(v) => v,
        None => 0,
    }
}

/// The bytes that the hex digit pairs of `s` denote.
pub open spec fn hex_decode(s: Seq<char>) -> Seq<u8> {
    Seq::new(s.len() / 2, |i: int| (hex_val(s[2 * i]) * 16 + hex_val(s[2 * i + 1])) as u8)
}

/// Lowercase hex text of `b`, two digits per byte.
pub open spec fn hex_encode(b: Seq<u8>) -> Seq<char> {
    Seq::new(
        2 * b.len(),
        |i: int|
            if i % 2 == 0 {
                hex_char((b[i / 2] / 16) as nat)
            } else {
                hex_char((b[i / 2] % 16) as nat)
            },
    )
}

pub fn all_hex_exec(s: &[char]) -> (r: bool)
    ensures
        r == all_hex(s@),
{
    let mut i: usize = 0;
    while i < s.len()
        invariant
            i <= s@.len(),
            forall|j: int| 0 <= j < i ==> is_hex_digit(#[trigger] s@[j]),
        decreases s@.len() - i,
    {
        if digit_value_exec(s[i], 16).is_none() {
            return false;
        }
        i = i + 1;
    }
    true
}

fn hex_text_check(s: &[char]) -> (res: Result<(), String>)
    ensures
        match hex_text_error(s@) {
            None => res is Ok,
            Some(m) => res matches Err(e) && e@ == m,
        },
{
    let n = utf8_len_exec(s);
    if n % 2 != 0 {
        return Err(string_from_str("Hex string must have an even length"));
    }
    if n > 1024 {
        return Err(string_from_str("Hex string length exceeds maximum of 1024 characters"));
    }
    if !all_hex_exec(s) {
        return Err(string_from_str("Hex string contains non-hex characters"));
    }
    Ok(())
}

/// Accepts an even-length hex payload of at most 1024 characters.
pub fn validate_hex(hex_str: &str) -> (res: Result<(), String>)
    ensures
        match hex_text_error(hex_str@) {
            None => res is Ok,
            Some(m) => res matches Err(e) && e@ == m,
        },
{
    let s = chars_of(hex_str);
    hex_text_check(s.as_slice())
}

pub proof fn lemma_all_hex_utf8_len(s: Seq<char>)
    requires
        all_hex(s),
    ensures
        utf8_len(s) == s.len(),
    decreases s.len(),
{
    if s.len() > 0 {
        assert(all_hex(s.drop_last())) by {
            assert forall|i: int| 0 <= i < s.drop_last().len() implies is_hex_digit(
                #[trigger] s.drop_last()[i],
            ) by {
                assert(s.drop_last()[i] == s[i]);
            }
        }
        assert(is_hex_digit(s[s.len() - 1]));
        lemma_all_hex_utf8_len(s.drop_last());
    }
}

/// Decodes a validated hex payload into bytes.
pub fn parse_hex(hex_str: &str) -> (res: Result<Vec<u8>, String>)
    ensures
        match hex_text_error(hex_str@) {
            None => res matches Ok(b) && b@ == hex_decode(hex_str@),
            Some(m) => res matches Err(e) && e@ == m,
        },
{
    let s = chars_of(hex_str);
    match hex_text_check(s.as_slice()) {
        Err(e) => Err(e),
        Ok(()) => {
            proof {
                lemma_all_hex_utf8_len(s@);
            }
            let slen = s.len();
            let n = slen / 2;
            let mut out: Vec<u8> = Vec::new();
            let mut i: usize = 0;
            while i < n
                invariant
                    n == s@.len() / 2,
                    slen == s@.len(),
                    s@ == hex_str@,
                    all_hex(s@),
                    i <= n,
                    out@ == hex_decode(s@).take(i as int),
                decreases n - i,
            {
                assert(is_hex_digit(s@[2 * i as int]));
                assert(is_hex_digit(s@[2 * i + 1]));
                let hi = digit_value_exec(s[2 * i], 16).unwrap();
                let lo = digit_value_exec(s[2 * i + 1], 16).unwrap();
                out.push((hi * 16 + lo) as u8);
                i = i + 1;
                assert(out@ =~= hex_decode(s@).take(i as int));
            }
            assert(hex_decode(s@).take(n as int) == hex_decode(s@));
            Ok(out)
        },
    }
}

/// Lowercase hex text of `bytes`.
pub fn bytes_to_hex(bytes: &[u8]) -> (res: String)
    ensures
        res@ == hex_encode(bytes@),
{
    let mut out = String::new();
    let mut i: usize = 0;
    while i < bytes.len()
        invariant
            i <= bytes@.len(),
            out@ == hex_encode(bytes@.take(i as int)),
        decreases bytes@.len() - i,
    {
        let b = bytes[i];
        let ghost before = out@;
        string_push(&mut out, hex_char_exec(b / 16));
        string_push(&mut out, hex_char_exec(b % 16));
        i = i + 1;
        assert(out@ =~= hex_encode(bytes@.take(i as int))) by {
            let t = bytes@.take(i as int);
            assert forall|j: int| 0 <= j < out@.len() implies out@[j] == hex_encode(t)[j] by {
                if j < before.len() {
                    assert(j / 2 < i - 1);
                    assert(t[j / 2] == bytes@.take(i - 1)[j / 2]);
                }
            }
        }
    }
    assert(bytes@.take(bytes@.len() as int) == bytes@);
    out
}

proof fn lemma_hex_char(d: nat)
    requires
        d < 16,
    ensures
        is_hex_digit(hex_char(d)),
        !('A' <= hex_char(d) && hex_char(d) <= 'F'),
        hex_val(hex_char(d)) == d,
{
    if d < 10 {
        assert((((d + 48) as u32) as char) as int == d + 48);
    } else {
        assert((((d + 87) as u32) as char) as int == d + 87);
    }
}

/// The characters of `hex_encode(b)`: lowercase hex digits, two per byte,
/// reading back as the byte.
pub proof fn lemma_hex_encode(b: Seq<u8>)
    ensures
        hex_encode(b).len() == 2 * b.len(),
        all_hex(hex_encode(b)),
        forall|i: int| 0 <= i < hex_encode(b).len() ==> !('A' <= #[trigger] hex_encode(b)[i] && hex_encode(b)[i] <= 'F'),
        hex_decode(hex_encode(b)) == b,
{
    let h = hex_encode(b);
    assert forall|i: int| 0 <= i < h.len() implies is_hex_digit(#[trigger] h[i]) && !('A' <= h[i] && h[i] <= 'F') by {
        lemma_hex_char((b[i / 2] / 16) as nat);
        lemma_hex_char((b[i / 2] % 16) as nat);
    }
    assert forall|i: int| 0 <= i < b.len() implies #[trigger] hex_decode(h)[i] == b[i] by {
        assert((2 * i) % 2 == 0);
        assert((2 * i + 1) % 2 == 1);
        assert((2 * i) / 2 == i);
        assert((2 * i + 1) / 2 == i);
        lemma_hex_char((b[i] / 16) as nat);
        lemma_hex_char((b[i] % 16) as nat);
        assert((b[i] / 16) * 16 + b[i] % 16 == b[i]);
    }
    assert(hex_decode(h) =~= b);
}

/// Bytes written out as hex read back unchanged: for a payload of at most
/// 512 bytes, `parse_hex(bytes_to_hex(b))` accepts the text and gives `b`.
pub proof fn law_hex_roundtrip(b: Seq<u8>)
    requires
        b.len() <= 512,
    ensures
        hex_text_error(hex_encode(b)) is None,
        hex_decode(hex_encode(b)) == b,
{
    lemma_hex_encode(b);
    lemma_all_hex_utf8_len(hex_encode(b));
}

/// ASCII letters lowered, every other character kept.
pub open spec fn ascii_lower(s: Seq<char>) -> Seq<char> {
    Seq::new(
        s.len(),
        |i: int|
            if 'A' <= s[i] && s[i] <= 'Z' {
                ((s[i] as u32) + 32) as char
            } else {
                s[i]
            },
    )
}

/// A hex digit's value written back as a digit: the digit, lowered.
proof fn lemma_hex_digit_rewritten(c: char)
    requires
        is_hex_digit(c),
    ensures
        hex_val(c) < 16,
        hex_char(hex_val(c)) == (if 'A' <= c && c <= 'Z' {
            ((c as u32) + 32) as char
        } else {
            c
        }),
{
    if crate::text::is_ascii_digit(c) {
        assert((((c as int - 48 + 48) as u32) as char) == c);
    } else if 'a' <= c && c <= 'f' {
        assert((((c as int - 97 + 10 - 10 + 97) as u32) as char) == c);
    } else {
        assert((((c as int - 65 + 10 - 10 + 97) as u32) as char) == ((c as u32) + 32) as char);
    }
}

/// Hex text that passes the checks, decoded and written out again, comes
/// back as the same text in lowercase.
pub proof fn law_hex_reencode_is_lowercase(s: Seq<char>)
    requires
        hex_text_error(s) is None,
    ensures
        hex_encode(hex_decode(s)) == ascii_lower(s),
{
    lemma_all_hex_utf8_len(s);
    let d = hex_decode(s);
    let e = hex_encode(d);
    assert forall|i: int| 0 <= i < s.len() implies #[trigger] e[i] == ascii_lower(s)[i] by {
        let k = i / 2;
        assert(0 <= 2 * k && 2 * k + 1 < s.len());
        lemma_hex_digit_rewritten(s[2 * k]);
        lemma_hex_digit_rewritten(s[2 * k + 1]);
        let hi = hex_val(s[2 * k]);
        let lo = hex_val(s[2 * k + 1]);
        assert((hi * 16 + lo) / 16 == hi && (hi * 16 + lo) % 16 == lo && hi * 16 + lo < 256)
            by (nonlinear_arith)
            requires
                hi < 16,
                lo < 16,
        ;
        assert(d[k] == hi * 16 + lo);
        if i % 2 == 0 {
            assert(i == 2 * k);
        } else {
            assert(i == 2 * k + 1);
        }
    }
    assert(e =~= ascii_lower(s));
}

/// A SHA-256 digest written out as hex is a well-formed checksum text.
pub proof fn lemma_digest_text(d: Seq<u8>)
    requires
        d.len() == 32,
    ensures
        sha256_text_ok(hex_encode(d)),
{
    lemma_hex_encode(d);
}

/// Lowercase 64-digit hex text, the form a SHA-256 checksum is stored in.
pub open spec fn sha256_text_ok(s: Seq<char>) -> bool {
    s.len() == 64 && forall|i: int|
        0 <= i < s.len() ==> is_hex_digit(#[trigger] s[i]) && !('A' <= s[i] && s[i] <= 'F')
}

pub fn is_valid_sha256(s: &str) -> (r: bool)
    ensures
        r == sha256_text_ok(s@),
{
    let cs = chars_of(s);
    if cs.len() != 64 {
        return false;
    }
    let mut i: usize = 0;
    while i < cs.len()
        invariant
            i <= cs@.len(),
            cs@ == s@,
            forall|j: int|
                0 <= j < i ==> is_hex_digit(#[trigger] cs@[j]) && !('A' <= cs@[j] && cs@[j]
                    <= 'F'),
        decreases cs@.len() - i,
    {
        let c = cs[i];
        if digit_value_exec(c, 16).is_none() || ('A' <= c && c <= 'F') {
            return false;
        }
        i = i + 1;
    }
    true
}

// ---------------------------------------------------------------------------
// Space-separated decimal bytes
// ---------------------------------------------------------------------------

pub open spec fn bad_byte_message(tok: Seq<char>) -> Seq<char> {
    "Invalid byte in space-dec string: '"@ + tok + "'"@
}

/// Each whitespace-separated token read as a decimal byte; the first token
/// that is not one is the error.
pub open spec fn space_dec_words(ws: Seq<Seq<char>>) -> Result<Seq<u8>, Seq<char>>
    decreases ws.len(),
{
    if ws.len() == 0 {
        Ok(Seq::empty())
    } else {
        match space_dec_words(ws.drop_last()) {
            Err(e) => Err(e),
            Ok(v) => match parse_unsigned(ws.last(), 10, 255) {
                Some(b) => Ok(v.push(b as u8)),
                None => Err(bad_byte_message(ws.last())),
            },
        }
    }
}

pub open spec fn space_dec(s: Seq<char>) -> Result<Seq<u8>, Seq<char>> {
    space_dec_words(words(s))
}

/// Bytes written as decimals separated by single spaces.
pub open spec fn dec_join(b: Seq<u8>) -> Seq<char>
    decreases b.len(),
{
    if b.len() == 0 {
        Seq::empty()
    } else if b.len() == 1 {
        dec_digits(b[0] as nat)
    } else {
        dec_join(b.drop_last()) + seq![' '] + dec_digits(b.last() as nat)
    }
}

/// Characters with no separator in them extend the token being read.
pub proof fn lemma_scan_no_sep(s: Seq<char>, t: Seq<char>)
    requires
        forall|i: int| 0 <= i < t.len() ==> !is_sep(#[trigger] t[i], false),
    ensures
        token_scan(s + t, false) == (token_scan(s, false).0, token_scan(s, false).1 + t),
    decreases t.len(),
{
    if t.len() == 0 {
        assert(s + t =~= s);
        assert(token_scan(s, false).1 + t =~= token_scan(s, false).1);
    } else {
        let u = t.drop_last();
        lemma_scan_no_sep(s, u);
        assert((s + t).drop_last() =~= s + u);
        assert((s + t).last() == t.last());
        assert(token_scan(s, false).1 + u.push(t.last()) =~= token_scan(s, false).1 + t);
    }
}

/// The decimal text of a byte holds no separator.
proof fn lemma_dec_digits_no_sep(n: nat)
    ensures
        forall|i: int| 0 <= i < dec_digits(n).len() ==> !is_sep(#[trigger] dec_digits(n)[i], false),
{
    crate::text::lemma_dec_digits(n);
    assert forall|i: int| 0 <= i < dec_digits(n).len() implies !is_sep(#[trigger] dec_digits(n)[i], false) by {
        assert(digit_value(dec_digits(n)[i], 10) is Some);
    }
}

/// Scanning `dec_join(b)`: every decimal but the last is a finished token,
/// the last is the token being read.
proof fn lemma_scan_dec_join(b: Seq<u8>)
    requires
        b.len() > 0,
    ensures
        token_scan(dec_join(b), false) == (
            Seq::new((b.len() - 1) as nat, |i: int| dec_digits(b[i] as nat)),
            dec_digits(b.last() as nat),
        ),
    decreases b.len(),
{
    lemma_dec_digits_no_sep(b.last() as nat);
    if b.len() == 1 {
        lemma_scan_no_sep(Seq::empty(), dec_digits(b[0] as nat));
        assert(Seq::<char>::empty() + dec_digits(b[0] as nat) =~= dec_digits(b[0] as nat));
        assert(Seq::<char>::empty() + dec_digits(b[0] as nat) =~= dec_digits(b[0] as nat));
        assert(Seq::new(0, |i: int| dec_digits(b[i] as nat)) =~= Seq::<Seq<char>>::empty());
    } else {
        let p = b.drop_last();
        lemma_scan_dec_join(p);
        crate::text::lemma_dec_digits(p.last() as nat);
        let head = dec_join(p) + seq![' '];
        assert(head.drop_last() =~= dec_join(p));
        assert(token_scan(head, false) == (
            Seq::new((p.len() - 1) as nat, |i: int| dec_digits(p[i] as nat)).push(dec_digits(p.last() as nat)),
            Seq::<char>::empty(),
        ));
        lemma_scan_no_sep(head, dec_digits(b.last() as nat));
        assert(Seq::new((p.len() - 1) as nat, |i: int| dec_digits(p[i] as nat)).push(dec_digits(p.last() as nat))
            =~= Seq::new((b.len() - 1) as nat, |i: int| dec_digits(b[i] as nat)));
        assert(Seq::<char>::empty() + dec_digits(b.last() as nat) =~= dec_digits(b.last() as nat));
    }
}

proof fn lemma_space_dec_words_of_digits(b: Seq<u8>)
    ensures
        space_dec_words(Seq::new(b.len(), |i: int| dec_digits(b[i] as nat))) == Ok::<Seq<u8>, Seq<char>>(b),
    decreases b.len(),
{
    let ws = Seq::new(b.len(), |i: int| dec_digits(b[i] as nat));
    if b.len() > 0 {
        let p = b.drop_last();
        lemma_space_dec_words_of_digits(p);
        assert(ws.drop_last() =~= Seq::new(p.len(), |i: int| dec_digits(p[i] as nat)));
        crate::text::lemma_parse_dec_digits(b.last() as nat, 255);
        assert(p.push(b.last()) =~= b);
    } else {
        assert(b =~= Seq::<u8>::empty());
    }
}

/// The first decimal of `dec_join(b)`.
pub proof fn lemma_dec_join_first(b: Seq<u8>)
    requires
        b.len() > 0,
    ensures
        dec_join(b.take(1)) == dec_digits(b[0] as nat),
{
}

/// `dec_join(b.take(j + 1))` extends `dec_join(b.take(j))` by a space and
/// the decimal of `b[j]`.
pub proof fn lemma_dec_join_step(b: Seq<u8>, j: int)
    requires
        1 <= j < b.len(),
    ensures
        dec_join(b.take(j + 1)) == dec_join(b.take(j)) + seq![' '] + dec_digits(b[j] as nat),
{
    assert(b.take(j + 1).drop_last() =~= b.take(j));
}

/// Bytes written as space-separated decimals parse back unchanged.
pub proof fn law_space_dec_roundtrip(b: Seq<u8>)
    ensures
        space_dec(dec_join(b)) == Ok::<Seq<u8>, Seq<char>>(b),
{
    if b.len() == 0 {
        assert(b =~= Seq::<u8>::empty());
        assert(words(dec_join(b)) =~= Seq::<Seq<char>>::empty());
    } else {
        lemma_scan_dec_join(b);
        assert(words(dec_join(b)) =~= Seq::new(b.len(), |i: int| dec_digits(b[i] as nat)));
    }
    lemma_space_dec_words_of_digits(b);
}

/// Parses text such as `"0 1 255"` into bytes.
pub fn parse_space_dec(s: &str) -> (res: Result<Vec<u8>, String>)
    ensures
        match res {
            Ok(v) => space_dec(s@) == Ok::<Seq<u8>, Seq<char>>(v@),
            Err(e) => space_dec(s@) == Err::<Seq<u8>, Seq<char>>(e@),
        },
{
    let cs = chars_of(s);
    let ws = split_words(cs.as_slice());
    let mut out: Vec<u8> = Vec::new();
    let mut i: usize = 0;
    while i < ws.len()
        invariant
            i <= ws@.len(),
            ws.deep_view() == words(s@),
            space_dec_words(ws.deep_view().take(i as int)) == Ok::<Seq<u8>, Seq<char>>(out@),
        decreases ws@.len() - i,
    {
        let ghost pre = ws.deep_view().take(i as int);
        let ghost cur = ws.deep_view().take(i + 1);
        assert(cur.drop_last() == pre);
        assert(cur.last() == ws@[i as int]@);
        match parse_unsigned_exec(ws[i].as_slice(), 10, 255) {
            Some(b) => {
                out.push(b as u8);
            },
            None => {
                let mut e = string_from_str("Invalid byte in space-dec string: '");
                push_chars(&mut e, ws[i].as_slice());
                string_push_str(&mut e, "'");
                proof {
                    lemma_space_dec_err_sticks(ws.deep_view(), i as int + 1);
                }
                return Err(e);
            },
        }
        i = i + 1;
    }
    assert(ws.deep_view().take(ws@.len() as int) == ws.deep_view());
    Ok(out)
}

proof fn lemma_space_dec_err_sticks(ws: Seq<Seq<char>>, k: int)
    requires
        0 <= k <= ws.len(),
        space_dec_words(ws.take(k)) is Err,
    ensures
        space_dec_words(ws) == space_dec_words(ws.take(k)),
    decreases ws.len() - k,
{
    if k < ws.len() {
        assert(ws.take(k + 1).drop_last() == ws.take(k));
        lemma_space_dec_err_sticks(ws, k + 1);
    } else {
        assert(ws.take(k) == ws);
    }
}

// ---------------------------------------------------------------------------
// Backup ids
// ---------------------------------------------------------------------------

pub open spec fn backup_id_char(c: char) -> bool {
    is_ascii_alphanumeric(c) || c == '.' || c == '_' || c == '-'
}

/// Ids that name a backup file inside the backups directory, or `latest`.
pub open spec fn backup_id_ok(id: Seq<char>) -> bool {
    ||| id == "latest"@
    ||| {
        &&& id.len() > 0
        &&& !contains(id, ".."@)
        &&& id[0] != '.'
        &&& id[0] != '-'
        &&& !contains(id, "/"@)
        &&& !contains(id, "\\"@)
        &&& forall|i: int| 0 <= i < id.len() ==> backup_id_char(#[trigger] id[i])
    }
}

pub fn validate_backup_id(id: &str) -> (res: Result<(), String>)
    ensures
        res is Ok <==> backup_id_ok(id@),
        res matches Err(e) ==> e@ == "invalid backup id"@,
{
    let cs = chars_of(id);
    let latest = chars_of("latest");
    if cs.len() == 0 {
        assert(id@ != "latest"@) by {
            reveal_strlit("latest");
        }
        return Err(string_from_str("invalid backup id"));
    }
    if cs.len() == latest.len() && starts_with_exec(cs.as_slice(), latest.as_slice()) {
        assert(cs@ =~= latest@);
        return Ok(());
    }
    assert(id@ != "latest"@) by {
        if id@ == "latest"@ {
            assert(id@.subrange(0, latest@.len() as int) =~= id@);
        }
    }
    let dots = chars_of("..");
    let slash = chars_of("/");
    let backslash = chars_of("\\");
    if contains_exec(cs.as_slice(), dots.as_slice()) || cs[0] == '.' || cs[0] == '-'
        || contains_exec(cs.as_slice(), slash.as_slice()) || contains_exec(
        cs.as_slice(),
        backslash.as_slice(),
    ) {
        return Err(string_from_str("invalid backup id"));
    }
    let mut i: usize = 0;
    while i < cs.len()
        invariant
            i <= cs@.len(),
            cs@ == id@,
            id@ != "latest"@,
            forall|j: int| 0 <= j < i ==> backup_id_char(#[trigger] cs@[j]),
        decreases cs@.len() - i,
    {
        let c = cs[i];
        if !(('0' <= c && c <= '9') || ('A' <= c && c <= 'Z') || ('a' <= c && c <= 'z') || c == '.'
            || c == '_' || c == '-') {
            return Err(string_from_str("invalid backup id"));
        }
        i = i + 1;
    }
    Ok(())
}

// ---------------------------------------------------------------------------
// DIAG failure markers
// ---------------------------------------------------------------------------

/// The markers `mtb` prints on a QMI failure, even with exit code 0.
pub open spec fn has_failure_marker(line: Seq<char>) -> bool {
    ||| contains(line, "rsp.result = -"@)
    ||| contains(line, "qmi response fail"@)
    ||| contains(line, "send_sync fail"@)
    ||| contains(line, "Error happen!"@)
    ||| contains(line, "error_code("@)
}

fn has_failure_marker_chars(line: &[char]) -> (r: bool)
    ensures
        r == has_failure_marker(line@),
{
    let m1 = chars_of("rsp.result = -");
    let m2 = chars_of("qmi response fail");
    let m3 = chars_of("send_sync fail");
    let m4 = chars_of("Error happen!");
    let m5 = chars_of("error_code(");
    contains_exec(line, m1.as_slice()) || contains_exec(line, m2.as_slice()) || contains_exec(
        line,
        m3.as_slice(),
    ) || contains_exec(line, m4.as_slice()) || contains_exec(line, m5.as_slice())
}

pub fn has_diag_failure_marker(line: &str) -> (r: bool)
    ensures
        r == has_failure_marker(line@),
{
    let cs = chars_of(line);
    has_failure_marker_chars(cs.as_slice())
}


// ---------------------------------------------------------------------------
// EFS reads (`mtb 4 4 <slot> <path>`)
// ---------------------------------------------------------------------------

/// Outcome of reading one NV item.
#[derive(Debug, Clone, PartialEq, Eq)]
pub enum EfsRead {
    Present(Vec<u8>),
    Absent,
    Error(String),
}

pub enum EfsReadModel {
    Present(Seq<u8>),
    Absent,
    Error(Seq<char>),
}

impl View for EfsRead {
    type V = EfsReadModel;

    open spec fn view(&self) -> EfsReadModel {
        match self {
            EfsRead::Present(b) => EfsReadModel::Present(b@),
            EfsRead::Absent => EfsReadModel::Absent,
            EfsRead::Error(e) => EfsReadModel::Error(e@),
        }
    }
}

pub open spec fn efs_marker() -> Seq<char> {
    "xiaomi_nvefs_test_efs_read:"@
}

pub open spec fn data_len_marker() -> Seq<char> {
    "data len("@
}

/// The text up to the first `c`, or all of `s`.
pub open spec fn up_to(s: Seq<char>, c: char) -> Seq<char> {
    match find(s, seq![c]) {
        Some(k) => s.take(k),
        None => s,
    }
}

/// The `N` of a `data len(N)` declaration in `line`, when it parses.
pub open spec fn declared_len_in(line: Seq<char>) -> Option<nat> {
    match find(line, data_len_marker()) {
        None => None,
        Some(pos) => parse_unsigned(
            trim(up_to(line.skip(pos + data_len_marker().len()), ')')),
            10,
            usize::MAX as nat,
        ),
    }
}

/// The last whitespace-separated token of `line` (empty when there is none).
pub open spec fn last_word(line: Seq<char>) -> Seq<char> {
    if words(line).len() == 0 {
        Seq::empty()
    } else {
        words(line).last()
    }
}

/// A token of exactly two hex digits, as the byte it denotes.
pub open spec fn hex_pair(t: Seq<char>) -> Option<u8> {
    if t.len() == 2 && is_hex_digit(t[0]) && is_hex_digit(t[1]) {
        Some((hex_val(t[0]) * 16 + hex_val(t[1])) as u8)
    } else {
        None
    }
}

/// Scan state: the declared length, and the bytes of the `mtb:` block, the
/// `RIL` block and of lines with neither prefix.
pub type EfsScan = (Option<nat>, Seq<u8>, Seq<u8>, Seq<u8>);

pub open spec fn efs_line_step(st: EfsScan, line: Seq<char>) -> EfsScan {
    if !contains(line, efs_marker()) {
        st
    } else {
        let declared = match declared_len_in(line) {
            Some(n) => Some(n),
            None => st.0,
        };
        match hex_pair(last_word(line)) {
            None => (declared, st.1, st.2, st.3),
            Some(b) => if starts_with(line, "mtb:"@) {
                (declared, st.1.push(b), st.2, st.3)
            } else if starts_with(line, "RIL"@) {
                (declared, st.1, st.2.push(b), st.3)
            } else {
                (declared, st.1, st.2, st.3.push(b))
            },
        }
    }
}

pub open spec fn efs_scan(ls: Seq<Seq<char>>) -> EfsScan
    decreases ls.len(),
{
    if ls.len() == 0 {
        (None, Seq::empty(), Seq::empty(), Seq::empty())
    } else {
        efs_line_step(efs_scan(ls.drop_last()), ls.last())
    }
}

pub open spec fn any_failure_line(ls: Seq<Seq<char>>) -> bool {
    exists|i: int| 0 <= i < ls.len() && has_failure_marker(#[trigger] ls[i])
}

pub open spec fn truncated_message(n: nat, mtb: nat, ril: nat) -> Seq<char> {
    "efs read truncated: declared "@ + dec_digits(n) + " bytes, got mtb="@ + dec_digits(mtb)
        + " ril="@ + dec_digits(ril)
}

/// What an `mtb` EFS read reported: a non-zero exit or a QMI failure marker
/// is an error; otherwise the declared number of bytes is taken from the
/// `RIL` block, else from the `mtb:` block; no declaration and no bytes means
/// the item is absent.
pub open spec fn efs_read_output(exit: int, raw: Seq<char>) -> EfsReadModel {
    if exit != 0 {
        EfsReadModel::Error("exit "@ + int_text(exit))
    } else if any_failure_line(lines(raw)) {
        EfsReadModel::Error("qmi read failure reported by mtb"@)
    } else {
        let st = efs_scan(lines(raw));
        let n: nat = match st.0 {
            Some(n) => n,
            None => 0,
        };
        if n == 0 {
            if st.1.len() == 0 && st.2.len() == 0 && st.3.len() == 0 {
                EfsReadModel::Absent
            } else {
                EfsReadModel::Error("efs read output has no declared data length"@)
            }
        } else if st.2.len() >= n {
            EfsReadModel::Present(st.2.take(n as int))
        } else if st.1.len() >= n {
            EfsReadModel::Present(st.1.take(n as int))
        } else {
            EfsReadModel::Error(truncated_message(n, st.1.len(), st.2.len()))
        }
    }
}

fn up_to_exec(s: &[char], c: char) -> (r: Vec<char>)
    ensures
        r@ == up_to(s@, c),
{
    let pat = vec![c];
    assert(pat@ == seq![c]);
    match find_exec(s, pat.as_slice()) {
        Some(k) => {
            proof {
                crate::text::lemma_find_from_some(s@, pat@, 0);
            }
            slice_range(s, 0, k)
        },
        None => slice_range(s, 0, s.len()),
    }
}

fn declared_len_exec(line: &[char]) -> (r: Option<usize>)
    ensures
        r matches Some(n) ==> declared_len_in(line@) == Some(n as nat),
        r is None ==> declared_len_in(line@) is None,
{
    let marker = chars_of("data len(");
    match find_exec(line, marker.as_slice()) {
        None => None,
        Some(pos) => {
            proof {
                crate::text::lemma_find_from_some(line@, marker@, 0);
            }
            let ll = line.len();
            let rest = slice_range(line, pos + marker.len(), ll);
            assert(rest@ == line@.skip(pos + data_len_marker().len()));
            let inner = up_to_exec(rest.as_slice(), ')');
            let t = trim_exec(inner.as_slice());
            match parse_unsigned_exec(t.as_slice(), 10, usize::MAX as u64) {
                Some(n) => Some(n as usize),
                None => None,
            }
        },
    }
}

fn last_word_exec(line: &[char]) -> (r: Vec<char>)
    ensures
        r@ == last_word(line@),
{
    let ws = split_words(line);
    if ws.len() == 0 {
        Vec::new()
    } else {
        let w = slice_range(ws[ws.len() - 1].as_slice(), 0, ws[ws.len() - 1].len());
        assert(w@ =~= ws[ws.len() - 1]@);
        w
    }
}

fn hex_pair_exec(t: &[char]) -> (r: Option<u8>)
    ensures
        r == hex_pair(t@),
{
    if t.len() == 2 {
        match (digit_value_exec(t[0], 16), digit_value_exec(t[1], 16)) {
            (Some(hi), Some(lo)) => Some((hi * 16 + lo) as u8),
            _ => None,
        }
    } else {
        None
    }
}

/// Classifies the output of an `mtb` EFS read (POCO F6 / peridot format):
/// per-byte lines printed once under an `mtb:` prefix and once under an
/// `RIL` prefix (the authoritative, complete block), a `data len(N)` line,
/// and QMI failure markers that come with exit code 0.
pub fn parse_efs_read_output(exit_code: i32, raw: &str) -> (res: EfsRead)
    ensures
        res@ == efs_read_output(exit_code as int, raw@),
{
    if exit_code != 0 {
        let mut e = string_from_str("exit ");
        push_int(&mut e, exit_code as i64);
        return EfsRead::Error(e);
    }
    let cs = chars_of(raw);
    let ls = split_lines(cs.as_slice());
    let mut i: usize = 0;
    while i < ls.len()
        invariant
            i <= ls@.len(),
            exit_code == 0,
            ls.deep_view() == lines(raw@),
            forall|j: int| 0 <= j < i ==> !has_failure_marker(#[trigger] ls.deep_view()[j]),
        decreases ls@.len() - i,
    {
        assert(ls.deep_view()[i as int] == ls@[i as int]@);
        if has_failure_marker_chars(ls[i].as_slice()) {
            assert(has_failure_marker(ls.deep_view()[i as int]));
            assert(any_failure_line(lines(raw@)));
            return EfsRead::Error(string_from_str("qmi read failure reported by mtb"));
        }
        i = i + 1;
    }
    let marker = chars_of("xiaomi_nvefs_test_efs_read:");
    let mtb_prefix = chars_of("mtb:");
    let ril_prefix = chars_of("RIL");
    let mut declared: Option<usize> = None;
    let mut mtb: Vec<u8> = Vec::new();
    let mut ril: Vec<u8> = Vec::new();
    let mut stray: Vec<u8> = Vec::new();
    let mut k: usize = 0;
    while k < ls.len()
        invariant
            k <= ls@.len(),
            ls.deep_view() == lines(raw@),
            marker@ == efs_marker(),
            mtb_prefix@ == "mtb:"@,
            ril_prefix@ == "RIL"@,
            efs_scan(ls.deep_view().take(k as int)) == (
                match declared {
                    Some(n) => Some(n as nat),
                    None => None::<nat>,
                },
                mtb@,
                ril@,
                stray@,
            ),
        decreases ls@.len() - k,
    {
        let ghost pre = ls.deep_view().take(k as int);
        assert(ls.deep_view().take(k + 1).drop_last() == pre);
        let line = ls[k].as_slice();
        assert(ls.deep_view().take(k + 1).last() == line@);
        if contains_exec(line, marker.as_slice()) {
            match declared_len_exec(line) {
                Some(n) => {
                    declared = Some(n);
                },
                None => {},
            }
            let last = last_word_exec(line);
            match hex_pair_exec(last.as_slice()) {
                None => {},
                Some(b) => {
                    if starts_with_exec(line, mtb_prefix.as_slice()) {
                        mtb.push(b);
                    } else if starts_with_exec(line, ril_prefix.as_slice()) {
                        ril.push(b);
                    } else {
                        stray.push(b);
                    }
                },
            }
        }
        k = k + 1;
    }
    assert(ls.deep_view().take(ls@.len() as int) == ls.deep_view());
    let n: usize = match declared {
        Some(n) => n,
        None => 0,
    };
    if n == 0 {
        if mtb.len() == 0 && ril.len() == 0 && stray.len() == 0 {
            EfsRead::Absent
        } else {
            EfsRead::Error(string_from_str("efs read output has no declared data length"))
        }
    } else if ril.len() >= n {
        EfsRead::Present(take_bytes(&ril, n))
    } else if mtb.len() >= n {
        EfsRead::Present(take_bytes(&mtb, n))
    } else {
        let mut e = string_from_str("efs read truncated: declared ");
        push_decimal(&mut e, n as u64);
        string_push_str(&mut e, " bytes, got mtb=");
        push_decimal(&mut e, mtb.len() as u64);
        string_push_str(&mut e, " ril=");
        push_decimal(&mut e, ril.len() as u64);
        EfsRead::Error(e)
    }
}

/// The first `n` bytes of `v`.
pub fn take_bytes(v: &[u8], n: usize) -> (r: Vec<u8>)
    requires
        n <= v@.len(),
    ensures
        r@ == v@.take(n as int),
{
    let mut r: Vec<u8> = Vec::new();
    let mut i: usize = 0;
    while i < n
        invariant
            i <= n,
            n <= v@.len(),
            r@ == v@.take(i as int),
        decreases n - i,
    {
        r.push(v[i]);
        i = i + 1;
        assert(r@ =~= v@.take(i as int));
    }
    r
}

// ---------------------------------------------------------------------------
// DIAG responses
// ---------------------------------------------------------------------------

/// A `0x..` / `0X..` token as the byte its hex digits denote.
pub open spec fn diag_token_byte(t: Seq<char>) -> Option<u8> {
    if t.len() >= 2 && t[0] == '0' && (t[1] == 'x' || t[1] == 'X') {
        match parse_unsigned(t.skip(2), 16, 255) {
            Some(v) => Some(v as u8),
            None => None,
        }
    } else {
        None
    }
}

/// The bytes of the tokens that read as `0x..` bytes, in order.
pub open spec fn diag_token_bytes(ws: Seq<Seq<char>>) -> Seq<u8>
    decreases ws.len(),
{
    if ws.len() == 0 {
        Seq::empty()
    } else {
        let r = diag_token_bytes(ws.drop_last());
        match diag_token_byte(ws.last()) {
            Some(b) => r.push(b),
            None => r,
        }
    }
}

pub open spec fn diag_prefix() -> Seq<char> {
    "rsp data:"@
}

/// The payload of the first line whose text (after leading whitespace)
/// starts with `rsp data:`; empty when there is none.
pub open spec fn diag_from_lines(ls: Seq<Seq<char>>) -> Seq<u8>
    decreases ls.len(),
{
    if ls.len() == 0 {
        Seq::empty()
    } else if starts_with(trim_start(ls[0]), diag_prefix()) {
        diag_token_bytes(words(trim_start(ls[0]).skip(diag_prefix().len() as int)))
    } else {
        diag_from_lines(ls.drop_first())
    }
}

pub open spec fn diag_response(raw: Seq<char>) -> Seq<u8> {
    diag_from_lines(lines(raw))
}

fn diag_token_byte_exec(t: &[char]) -> (r: Option<u8>)
    ensures
        r == diag_token_byte(t@),
{
    if t.len() >= 2 && t[0] == '0' && (t[1] == 'x' || t[1] == 'X') {
        let digits = slice_range(t, 2, t.len());
        assert(digits@ == t@.skip(2));
        match parse_unsigned_exec(digits.as_slice(), 16, 255) {
            Some(v) => Some(v as u8),
            None => None,
        }
    } else {
        None
    }
}

/// Extracts the `rsp data: 0x.. 0x..` payload bytes from a DIAG response.
pub fn parse_diag_response(raw: &str) -> (res: Vec<u8>)
    ensures
        res@ == diag_response(raw@),
{
    let cs = chars_of(raw);
    let ls = split_lines(cs.as_slice());
    let prefix = chars_of("rsp data:");
    assert(ls.deep_view().skip(0) == ls.deep_view());
    let mut i: usize = 0;
    while i < ls.len()
        invariant
            i <= ls@.len(),
            prefix@ == diag_prefix(),
            diag_response(raw@) == diag_from_lines(ls.deep_view().skip(i as int)),
        decreases ls@.len() - i,
    {
        let ghost rest = ls.deep_view().skip(i as int);
        assert(rest[0] == ls[i as int]@);
        assert(rest.drop_first() == ls.deep_view().skip(i + 1));
        let t = trim_start_exec(ls[i].as_slice());
        if starts_with_exec(t.as_slice(), prefix.as_slice()) {
            let data = slice_range(t.as_slice(), prefix.len(), t.len());
            let ws = split_words(data.as_slice());
            let mut out: Vec<u8> = Vec::new();
            let mut k: usize = 0;
            while k < ws.len()
                invariant
                    k <= ws@.len(),
                    out@ == diag_token_bytes(ws.deep_view().take(k as int)),
                decreases ws@.len() - k,
            {
                assert(ws.deep_view().take(k + 1).drop_last() == ws.deep_view().take(k as int));
                assert(ws.deep_view().take(k + 1).last() == ws[k as int]@);
                match diag_token_byte_exec(ws[k].as_slice()) {
                    Some(b) => out.push(b),
                    None => {},
                }
                k = k + 1;
            }
            assert(ws.deep_view().take(ws@.len() as int) == ws.deep_view());
            return out;
        }
        i = i + 1;
    }
    Vec::new()
}

// ---------------------------------------------------------------------------
// The DIAG response read back
// ---------------------------------------------------------------------------

/// An uppercase hex digit of a value under 16.
pub open spec fn upper_hex_digit(v: nat) -> char {
    if v < 10 {
        ((v + 48) as u32) as char
    } else {
        ((v + 55) as u32) as char
    }
}

/// A byte as the modem prints it in a response: `0xHH`.
pub open spec fn diag_byte_text(x: u8) -> Seq<char> {
    seq!['0', 'x', upper_hex_digit((x / 16) as nat), upper_hex_digit((x % 16) as nat)]
}

/// Bytes as they follow `rsp data:`, each as ` 0xHH`.
pub open spec fn diag_bytes_text(b: Seq<u8>) -> Seq<char>
    decreases b.len(),
{
    if b.len() == 0 {
        Seq::empty()
    } else {
        diag_bytes_text(b.drop_last()) + seq![' '] + diag_byte_text(b.last())
    }
}

proof fn lemma_upper_hex_digit(v: nat)
    requires
        v < 16,
    ensures
        digit_value(upper_hex_digit(v), 16) == Some(v),
        !is_sep(upper_hex_digit(v), false),
        upper_hex_digit(v) != '\n',
        upper_hex_digit(v) != '+',
{
    if v < 10 {
        assert((((v + 48) as u32) as char) as int == v + 48);
    } else {
        assert((((v + 55) as u32) as char) as int == v + 55);
    }
}

proof fn lemma_diag_byte_text(x: u8)
    ensures
        diag_token_byte(diag_byte_text(x)) == Some(x),
        forall|i: int| 0 <= i < diag_byte_text(x).len() ==> !is_sep(#[trigger] diag_byte_text(x)[i], false)
            && diag_byte_text(x)[i] != '\n',
{
    let h = (x / 16) as nat;
    let l = (x % 16) as nat;
    lemma_upper_hex_digit(h);
    lemma_upper_hex_digit(l);
    let t = diag_byte_text(x);
    let d = t.skip(2);
    assert(d =~= seq![upper_hex_digit(h), upper_hex_digit(l)]);
    assert(d.drop_last() =~= seq![upper_hex_digit(h)]);
    assert(d.drop_last().drop_last() =~= Seq::<char>::empty());
    assert(all_digits(d, 16));
    reveal_with_fuel(crate::text::digits_value, 3);
    assert(crate::text::digits_value(d, 16) == h * 16 + l);
    assert(h * 16 + l == x);
}

proof fn lemma_no_newline_line_scan(s: Seq<char>)
    requires
        forall|i: int| 0 <= i < s.len() ==> #[trigger] s[i] != '\n',
    ensures
        crate::text::line_scan(s) == (Seq::<Seq<char>>::empty(), s),
    decreases s.len(),
{
    if s.len() > 0 {
        lemma_no_newline_line_scan(s.drop_last());
        assert(s.drop_last().push(s.last()) =~= s);
    }
}

proof fn lemma_diag_bytes_scan(b: Seq<u8>)
    ensures
        b.len() == 0 ==> diag_bytes_text(b) == Seq::<char>::empty(),
        b.len() > 0 ==> token_scan(diag_bytes_text(b), false) == (
            Seq::new((b.len() - 1) as nat, |i: int| diag_byte_text(b[i])),
            diag_byte_text(b.last()),
        ),
        forall|i: int| 0 <= i < diag_bytes_text(b).len() ==> #[trigger] diag_bytes_text(b)[i] != '\n',
    decreases b.len(),
{
    if b.len() > 0 {
        let p = b.drop_last();
        lemma_diag_bytes_scan(p);
        lemma_diag_byte_text(b.last());
        let head = diag_bytes_text(p) + seq![' '];
        assert(head.drop_last() =~= diag_bytes_text(p));
        if p.len() == 0 {
            assert(head =~= seq![' ']);
            assert(seq![' '].drop_last() =~= Seq::<char>::empty());
            assert(token_scan(head, false) == (Seq::<Seq<char>>::empty(), Seq::<char>::empty()));
        } else {
            lemma_diag_byte_text(p.last());
            assert(token_scan(head, false) == (
                Seq::new((p.len() - 1) as nat, |i: int| diag_byte_text(p[i])).push(diag_byte_text(p.last())),
                Seq::<char>::empty(),
            ));
        }
        lemma_scan_no_sep(head, diag_byte_text(b.last()));
        assert(Seq::<char>::empty() + diag_byte_text(b.last()) =~= diag_byte_text(b.last()));
        if p.len() == 0 {
            assert(Seq::new(0, |i: int| diag_byte_text(b[i])) =~= Seq::<Seq<char>>::empty());
        } else {
            assert(Seq::new((p.len() - 1) as nat, |i: int| diag_byte_text(p[i])).push(diag_byte_text(p.last()))
                =~= Seq::new((b.len() - 1) as nat, |i: int| diag_byte_text(b[i])));
        }
        assert forall|i: int| 0 <= i < diag_bytes_text(b).len() implies #[trigger] diag_bytes_text(b)[i] != '\n' by {
            let q = diag_bytes_text(p);
            if i < q.len() {
                assert(diag_bytes_text(b)[i] == q[i]);
            } else if i > q.len() {
                assert(diag_bytes_text(b)[i] == diag_byte_text(b.last())[i - q.len() - 1]);
            }
        }
    }
}

proof fn lemma_diag_token_bytes_of_texts(b: Seq<u8>)
    ensures
        diag_token_bytes(Seq::new(b.len(), |i: int| diag_byte_text(b[i]))) == b,
    decreases b.len(),
{
    let ws = Seq::new(b.len(), |i: int| diag_byte_text(b[i]));
    if b.len() > 0 {
        let p = b.drop_last();
        lemma_diag_token_bytes_of_texts(p);
        assert(ws.drop_last() =~= Seq::new(p.len(), |i: int| diag_byte_text(p[i])));
        lemma_diag_byte_text(b.last());
        assert(p.push(b.last()) =~= b);
    } else {
        assert(b =~= Seq::<u8>::empty());
    }
}

/// A response whose `rsp data:` line lists bytes as the modem prints them
/// (` 0xHH` each) reads back as exactly those bytes, in order: every `0x`
/// token is read as two hex digits.
pub proof fn law_diag_response_reads_printed_bytes(b: Seq<u8>)
    ensures
        diag_response(diag_prefix() + diag_bytes_text(b)) == b,
{
    reveal_strlit("rsp data:");
    let tail = diag_bytes_text(b);
    let raw = diag_prefix() + tail;
    lemma_diag_bytes_scan(b);
    assert forall|i: int| 0 <= i < raw.len() implies #[trigger] raw[i] != '\n' by {
        if i >= 9 {
            assert(raw[i] == tail[i - 9]);
        }
    }
    lemma_no_newline_line_scan(raw);
    assert(crate::text::lines(raw) =~= seq![raw]);
    assert(!crate::text::is_ws(raw[0]));
    assert(crate::text::leading_ws(raw) == 0);
    assert(trim_start(raw) =~= raw);
    assert(raw.subrange(0, 9) =~= diag_prefix());
    assert(starts_with(raw, diag_prefix()));
    assert(raw.skip(9) =~= tail);
    assert(seq![raw].drop_first() =~= Seq::<Seq<char>>::empty());
    if b.len() == 0 {
        assert(words(tail) =~= Seq::<Seq<char>>::empty());
    } else {
        assert(words(tail) =~= Seq::new(b.len(), |i: int| diag_byte_text(b[i])));
    }
    lemma_diag_token_bytes_of_texts(b);
    if b.len() == 0 {
        assert(b =~= Seq::<u8>::empty());
    }
}

} // verus!
