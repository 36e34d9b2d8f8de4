//! Character-level text primitives: the Unicode classes the parsers rely on,
//! line and word splitting, trimming, searching, and decimal / hexadecimal
//! number syntax, each with the spec it implements.
use vstd::prelude::*;

verus! {

// ---------------------------------------------------------------------------
// Character classes
// ---------------------------------------------------------------------------

/// Unicode `White_Space` (what `char::is_whitespace` tests).
pub open spec fn is_ws(c: char) -> bool {
    ||| ('\u{9}' <= c && c <= '\u{d}')
    ||| c == ' '
    ||| c == '\u{85}'
    ||| c == '\u{a0}'
    ||| c == '\u{1680}'
    ||| ('\u{2000}' <= c && c <= '\u{200a}')
    ||| c == '\u{2028}'
    ||| c == '\u{2029}'
    ||| c == '\u{202f}'
    ||| c == '\u{205f}'
    ||| c == '\u{3000}'
}

pub fn is_ws_exec(c: char) -> (r: bool)
    ensures
        r == is_ws(c),
{
    ('\u{9}' <= c && c <= '\u{d}') || c == ' ' || c == '\u{85}' || c == '\u{a0}' || c == '\u{1680}'
        || ('\u{2000}' <= c && c <= '\u{200a}') || c == '\u{2028}' || c == '\u{2029}' || c
        == '\u{202f}' || c == '\u{205f}' || c == '\u{3000}'
}

/// General category `Cc` (what `char::is_control` tests).
pub open spec fn is_control(c: char) -> bool {
    c <= '\u{1f}' || ('\u{7f}' <= c && c <= '\u{9f}')
}

pub fn is_control_exec(c: char) -> (r: bool)
    ensures
        r == is_control(c),
{
    c <= '\u{1f}' || ('\u{7f}' <= c && c <= '\u{9f}')
}

pub open spec fn is_ascii_upper(c: char) -> bool {
    'A' <= c && c <= 'Z'
}

pub open spec fn is_ascii_lower(c: char) -> bool {
    'a' <= c && c <= 'z'
}

pub open spec fn is_ascii_digit(c: char) -> bool {
    '0' <= c && c <= '9'
}

pub open spec fn is_ascii_alphanumeric(c: char) -> bool {
    is_ascii_digit(c) || is_ascii_upper(c) || is_ascii_lower(c)
}

pub open spec fn is_hex_digit(c: char) -> bool {
    is_ascii_digit(c) || ('a' <= c && c <= 'f') || ('A' <= c && c <= 'F')
}

/// Whether `char::is_alphanumeric` holds of `c` (Unicode `Alphabetic` or
/// a numeric general category).
pub uninterp spec fn unicode_alphanumeric(c: char) -> bool;

/// `char::is_alphanumeric` (std). Trusted: the result is
/// `unicode_alphanumeric(c)`; on ASCII it holds exactly of the letters and
/// digits. Beyond ASCII the Unicode tables are not stated.
#[verifier::external_body]
pub fn char_is_alphanumeric(c: char) -> (r: bool)
    ensures
        r == unicode_alphanumeric(c),
        c <= '\u{7f}' ==> (r <==> is_ascii_alphanumeric(c)),
{
    c.is_alphanumeric()
}

/// The value of `c` as a digit in base `radix` (10 or 16), if it is one.
pub open spec fn digit_value(c: char, radix: nat) -> Option<nat> {
    if is_ascii_digit(c) {
        Some((c as int - '0' as int) as nat)
    } else if radix == 16 && 'a' <= c && c <= 'f' {
        Some((c as int - 'a' as int + 10) as nat)
    } else if radix == 16 && 'A' <= c && c <= 'F' {
        Some((c as int - 'A' as int + 10) as nat)
    } else {
        None
    }
}

pub fn digit_value_exec(c: char, radix: u32) -> (r: Option<u32>)
    requires
        radix == 10 || radix == 16,
    ensures
        r matches Some(v) ==> digit_value(c, radix as nat) == Some(v as nat) && v < radix,
        r is None ==> digit_value(c, radix as nat) is None,
{
    if '0' <= c && c <= '9' {
        Some((c as u32) - ('0' as u32))
    } else if radix == 16 && 'a' <= c && c <= 'f' {
        Some((c as u32) - ('a' as u32) + 10)
    } else if radix == 16 && 'A' <= c && c <= 'F' {
        Some((c as u32) - ('A' as u32) + 10)
    } else {
        None
    }
}

/// The lowercase hexadecimal digit for `v < 16`.
pub open spec fn hex_char(v: nat) -> char {
    if v < 10 {
        ((v + '0' as nat) as u32) as char
    } else {
        ((v - 10 + 'a' as nat) as u32) as char
    }
}

pub fn hex_char_exec(v: u8) -> (c: char)
    requires
        v < 16,
    ensures
        c == hex_char(v as nat),
{
    if v < 10 {
        ((v as u32 + '0' as u32) as u8) as char
    } else {
        ((v as u32 - 10 + 'a' as u32) as u8) as char
    }
}


// ---------------------------------------------------------------------------
// Strings: characters in, characters out
// ---------------------------------------------------------------------------

/// The characters of a string slice, in order.
pub fn chars_of(s: &str) -> (res: Vec<char>)
    ensures
        res@ == s@,
{
    let mut res: Vec<char> = Vec::new();
    for c in it: s.chars()
        invariant
            res@ == it.seq().take(it.index() as int),
            it.seq() == s@,
    {
        res.push(c);
    }
    res
}

/// `String::push` (std): appends one character.
#[verifier::external_body]
pub fn string_push(s: &mut String, c: char)
    ensures
        final(s)@ == old(s)@.push(c),
{
    s.push(c)
}

/// `String::push_str` (std): appends a string slice.
#[verifier::external_body]
pub fn string_push_str(s: &mut String, t: &str)
    ensures
        final(s)@ == old(s)@ + t@,
{
    s.push_str(t)
}

pub fn push_chars(s: &mut String, cs: &[char])
    ensures
        final(s)@ == old(s)@ + cs@,
{
    let mut i: usize = 0;
    while i < cs.len()
        invariant
            i <= cs@.len(),
            s@ == old(s)@ + cs@.take(i as int),
        decreases cs@.len() - i,
    {
        string_push(s, cs[i]);
        i = i + 1;
        assert(s@ == old(s)@ + cs@.take(i as int));
    }
    assert(cs@.take(cs@.len() as int) == cs@);
}

pub fn string_from_chars(cs: &[char]) -> (res: String)
    ensures
        res@ == cs@,
{
    let mut res = String::new();
    push_chars(&mut res, cs);
    res
}

pub fn string_from_str(t: &str) -> (res: String)
    ensures
        res@ == t@,
{
    let mut res = String::new();
    string_push_str(&mut res, t);
    res
}

pub proof fn lemma_char_vec_deep_view(v: Vec<char>)
    ensures
        v.deep_view() == v@,
{
    assert(v.deep_view() =~= v@);
}

// ---------------------------------------------------------------------------
// Lines (`str::lines`)
// ---------------------------------------------------------------------------

/// One trailing carriage return removed, if present.
pub open spec fn strip_cr(l: Seq<char>) -> Seq<char> {
    if l.len() > 0 && l.last() == '\r' {
        l.drop_last()
    } else {
        l
    }
}

/// Left-to-right scan of `s`: the lines finished so far (each ended by a
/// `\n`, one `\r` before it dropped) and the line under construction.
pub open spec fn line_scan(s: Seq<char>) -> (Seq<Seq<char>>, Seq<char>)
    decreases s.len(),
{
    if s.len() == 0 {
        (Seq::empty(), Seq::empty())
    } else {
        let (done, cur) = line_scan(s.drop_last());
        if s.last() == '\n' {
            (done.push(strip_cr(cur)), Seq::empty())
        } else {
            (done, cur.push(s.last()))
        }
    }
}

/// The lines of `s` as `str::lines` yields them: split at `\n`, a `\r`
/// right before a `\n` dropped, and no empty line after a final `\n`.
pub open spec fn lines(s: Seq<char>) -> Seq<Seq<char>> {
    let (done, cur) = line_scan(s);
    if cur.len() == 0 {
        done
    } else {
        done.push(cur)
    }
}

pub fn split_lines(s: &[char]) -> (res: Vec<Vec<char>>)
    ensures
        res.deep_view() == lines(s@),
{
    let mut done: Vec<Vec<char>> = Vec::new();
    let mut cur: Vec<char> = Vec::new();
    let mut i: usize = 0;
    while i < s.len()
        invariant
            i <= s@.len(),
            (done.deep_view(), cur@) == line_scan(s@.take(i as int)),
        decreases s@.len() - i,
    {
        assert(s@.take(i + 1).drop_last() == s@.take(i as int));
        if s[i] == '\n' {
            let ghost c0 = cur@;
            if cur.len() > 0 && cur[cur.len() - 1] == '\r' {
                cur.pop();
            }
            assert(cur@ == strip_cr(c0));
            proof {
                lemma_char_vec_deep_view(cur);
            }
            let ghost d0 = done.deep_view();
            done.push(cur);
            cur = Vec::new();
            assert(done.deep_view() =~= d0.push(strip_cr(c0)));
        } else {
            cur.push(s[i]);
        }
        i = i + 1;
    }
    assert(s@.take(s@.len() as int) == s@);
    if cur.len() > 0 {
        let ghost d0 = done.deep_view();
        proof {
            lemma_char_vec_deep_view(cur);
        }
        done.push(cur);
        assert(done.deep_view() =~= d0.push(line_scan(s@).1));
    }
    done
}

// ---------------------------------------------------------------------------
// Tokens (`str::split_whitespace`, and splitting at `,` or whitespace)
// ---------------------------------------------------------------------------

/// A separator: whitespace, and `,` too when `comma` holds.
pub open spec fn is_sep(c: char, comma: bool) -> bool {
    is_ws(c) || (comma && c == ',')
}

pub open spec fn token_scan(s: Seq<char>, comma: bool) -> (Seq<Seq<char>>, Seq<char>)
    decreases s.len(),
{
    if s.len() == 0 {
        (Seq::empty(), Seq::empty())
    } else {
        let (done, cur) = token_scan(s.drop_last(), comma);
        if is_sep(s.last(), comma) {
            if cur.len() > 0 {
                (done.push(cur), Seq::empty())
            } else {
                (done, cur)
            }
        } else {
            (done, cur.push(s.last()))
        }
    }
}

/// The maximal runs of non-separator characters of `s`, in order.
pub open spec fn tokens(s: Seq<char>, comma: bool) -> Seq<Seq<char>> {
    let (done, cur) = token_scan(s, comma);
    if cur.len() == 0 {
        done
    } else {
        done.push(cur)
    }
}

/// The maximal runs of non-whitespace characters of `s`, in order.
pub open spec fn words(s: Seq<char>) -> Seq<Seq<char>> {
    tokens(s, false)
}

pub fn split_tokens(s: &[char], comma: bool) -> (res: Vec<Vec<char>>)
    ensures
        res.deep_view() == tokens(s@, comma),
{
    let mut done: Vec<Vec<char>> = Vec::new();
    let mut cur: Vec<char> = Vec::new();
    let mut i: usize = 0;
    while i < s.len()
        invariant
            i <= s@.len(),
            (done.deep_view(), cur@) == token_scan(s@.take(i as int), comma),
        decreases s@.len() - i,
    {
        assert(s@.take(i + 1).drop_last() == s@.take(i as int));
        if is_ws_exec(s[i]) || (comma && s[i] == ',') {
            if cur.len() > 0 {
                let ghost d0 = done.deep_view();
                let ghost c0 = cur@;
                proof {
                    lemma_char_vec_deep_view(cur);
                }
                done.push(cur);
                cur = Vec::new();
                assert(done.deep_view() =~= d0.push(c0));
            }
        } else {
            cur.push(s[i]);
        }
        i = i + 1;
    }
    assert(s@.take(s@.len() as int) == s@);
    if cur.len() > 0 {
        let ghost d0 = done.deep_view();
        proof {
            lemma_char_vec_deep_view(cur);
        }
        done.push(cur);
        assert(done.deep_view() =~= d0.push(token_scan(s@, comma).1));
    }
    done
}

pub fn split_words(s: &[char]) -> (res: Vec<Vec<char>>)
    ensures
        res.deep_view() == words(s@),
{
    split_tokens(s, false)
}

// ---------------------------------------------------------------------------
// Pieces between separators (`str::split` on one character)
// ---------------------------------------------------------------------------

pub open spec fn piece_scan(s: Seq<char>, sep: char) -> (Seq<Seq<char>>, Seq<char>)
    decreases s.len(),
{
    if s.len() == 0 {
        (Seq::empty(), Seq::empty())
    } else {
        let (done, cur) = piece_scan(s.drop_last(), sep);
        if s.last() == sep {
            (done.push(cur), Seq::empty())
        } else {
            (done, cur.push(s.last()))
        }
    }
}

/// The pieces of `s` between occurrences of `sep`, empty pieces included
/// (one piece more than there are separators).
pub open spec fn pieces(s: Seq<char>, sep: char) -> Seq<Seq<char>> {
    let (done, cur) = piece_scan(s, sep);
    done.push(cur)
}

pub fn split_pieces(s: &[char], sep: char) -> (res: Vec<Vec<char>>)
    ensures
        res.deep_view() == pieces(s@, sep),
{
    let mut done: Vec<Vec<char>> = Vec::new();
    let mut cur: Vec<char> = Vec::new();
    let mut i: usize = 0;
    while i < s.len()
        invariant
            i <= s@.len(),
            (done.deep_view(), cur@) == piece_scan(s@.take(i as int), sep),
        decreases s@.len() - i,
    {
        assert(s@.take(i + 1).drop_last() == s@.take(i as int));
        if s[i] == sep {
            let ghost d0 = done.deep_view();
            let ghost c0 = cur@;
            proof {
                lemma_char_vec_deep_view(cur);
            }
            done.push(cur);
            cur = Vec::new();
            assert(done.deep_view() =~= d0.push(c0));
        } else {
            cur.push(s[i]);
        }
        i = i + 1;
    }
    assert(s@.take(s@.len() as int) == s@);
    let ghost d0 = done.deep_view();
    proof {
        lemma_char_vec_deep_view(cur);
    }
    done.push(cur);
    assert(done.deep_view() =~= d0.push(piece_scan(s@, sep).1));
    done
}

/// A text without the separator is a single piece.
pub proof fn lemma_piece_scan_plain(s: Seq<char>, sep: char)
    requires
        !s.contains(sep),
    ensures
        piece_scan(s, sep) == (Seq::<Seq<char>>::empty(), s),
    decreases s.len(),
{
    if s.len() > 0 {
        assert(!s.drop_last().contains(sep)) by {
            if s.drop_last().contains(sep) {
                let k = choose|k: int| 0 <= k < s.drop_last().len() && s.drop_last()[k] == sep;
                assert(s[k] == sep);
            }
        }
        lemma_piece_scan_plain(s.drop_last(), sep);
        assert(s[s.len() - 1] != sep);
        assert(s.drop_last().push(s.last()) == s);
    }
}

/// Splitting `s`, the separator, then `t`: the pieces of `s` come first.
pub proof fn lemma_piece_scan_after(s: Seq<char>, sep: char, t: Seq<char>)
    ensures
        piece_scan(s + seq![sep] + t, sep) == (pieces(s, sep) + piece_scan(t, sep).0, piece_scan(t, sep).1),
    decreases t.len(),
{
    let u = s + seq![sep] + t;
    if t.len() == 0 {
        assert(u.drop_last() == s);
        assert(pieces(s, sep) + Seq::<Seq<char>>::empty() == pieces(s, sep));
    } else {
        let t0 = t.drop_last();
        lemma_piece_scan_after(s, sep, t0);
        assert(u.drop_last() == s + seq![sep] + t0);
        assert(u.last() == t.last());
        let (d, c) = piece_scan(t0, sep);
        if t.last() == sep {
            assert((pieces(s, sep) + d).push(c) == pieces(s, sep) + d.push(c));
        }
    }
}

/// The pieces of `s`, the separator, then `t`: those of `s`, then those of `t`.
pub proof fn lemma_pieces_concat(s: Seq<char>, sep: char, t: Seq<char>)
    ensures
        pieces(s + seq![sep] + t, sep) == pieces(s, sep) + pieces(t, sep),
{
    lemma_piece_scan_after(s, sep, t);
    let (d, c) = piece_scan(t, sep);
    assert((pieces(s, sep) + d).push(c) == pieces(s, sep) + d.push(c));
}

// ---------------------------------------------------------------------------
// Trimming (`str::trim_start`, `str::trim`)
// ---------------------------------------------------------------------------

/// Number of leading whitespace characters.
pub open spec fn leading_ws(s: Seq<char>) -> nat
    decreases s.len(),
{
    if s.len() > 0 && is_ws(s[0]) {
        1 + leading_ws(s.drop_first())
    } else {
        0
    }
}

/// Number of trailing whitespace characters.
pub open spec fn trailing_ws(s: Seq<char>) -> nat
    decreases s.len(),
{
    if s.len() > 0 && is_ws(s.last()) {
        1 + trailing_ws(s.drop_last())
    } else {
        0
    }
}

pub open spec fn trim_start(s: Seq<char>) -> Seq<char> {
    s.skip(leading_ws(s) as int)
}

pub open spec fn trim_end(s: Seq<char>) -> Seq<char> {
    s.take(s.len() - trailing_ws(s))
}

pub open spec fn trim(s: Seq<char>) -> Seq<char> {
    trim_end(trim_start(s))
}

proof fn lemma_leading_ws(s: Seq<char>, k: int)
    requires
        0 <= k <= s.len(),
        forall|j: int| 0 <= j < k ==> is_ws(#[trigger] s[j]),
        k == s.len() || !is_ws(s[k]),
    ensures
        leading_ws(s) == k,
    decreases k,
{
    if k > 0 {
        let t = s.drop_first();
        assert forall|j: int| 0 <= j < k - 1 implies is_ws(#[trigger] t[j]) by {
            assert(t[j] == s[j + 1]);
        }
        if k < s.len() {
            assert(t[k - 1] == s[k]);
        }
        lemma_leading_ws(t, k - 1);
    }
}

proof fn lemma_trailing_ws(s: Seq<char>, k: int)
    requires
        0 <= k <= s.len(),
        forall|j: int| s.len() - k <= j < s.len() ==> is_ws(#[trigger] s[j]),
        k == s.len() || !is_ws(s[s.len() - k - 1]),
    ensures
        trailing_ws(s) == k,
    decreases k,
{
    if k > 0 {
        let t = s.drop_last();
        assert forall|j: int| t.len() - (k - 1) <= j < t.len() implies is_ws(#[trigger] t[j]) by {
            assert(t[j] == s[j]);
        }
        if k < s.len() {
            assert(t[t.len() - (k - 1) - 1] == s[s.len() - k - 1]);
        }
        lemma_trailing_ws(t, k - 1);
    }
}

pub fn trim_start_exec(s: &[char]) -> (res: Vec<char>)
    ensures
        res@ == trim_start(s@),
{
    let mut k: usize = 0;
    while k < s.len() && is_ws_exec(s[k])
        invariant
            k <= s@.len(),
            forall|j: int| 0 <= j < k ==> is_ws(#[trigger] s@[j]),
        decreases s@.len() - k,
    {
        k = k + 1;
    }
    proof {
        lemma_leading_ws(s@, k as int);
    }
    slice_range(s, k, s.len())
}

pub fn trim_exec(s: &[char]) -> (res: Vec<char>)
    ensures
        res@ == trim(s@),
{
    let t = trim_start_exec(s);
    let mut k: usize = 0;
    while k < t.len() && is_ws_exec(t[t.len() - 1 - k])
        invariant
            k <= t@.len(),
            forall|j: int| t@.len() - k <= j < t@.len() ==> is_ws(#[trigger] t@[j]),
        decreases t@.len() - k,
    {
        k = k + 1;
    }
    proof {
        lemma_trailing_ws(t@, k as int);
    }
    slice_range(t.as_slice(), 0, t.len() - k)
}

/// A copy of `s[lo..hi]`.
pub fn slice_range(s: &[char], lo: usize, hi: usize) -> (res: Vec<char>)
    requires
        lo <= hi <= s@.len(),
    ensures
        res@ == s@.subrange(lo as int, hi as int),
{
    let mut res: Vec<char> = Vec::new();
    let mut i = lo;
    while i < hi
        invariant
            lo <= i <= hi,
            hi <= s@.len(),
            res@ == s@.subrange(lo as int, i as int),
        decreases hi - i,
    {
        res.push(s[i]);
        i = i + 1;
    }
    res
}

// ---------------------------------------------------------------------------
// Searching
// ---------------------------------------------------------------------------

pub open spec fn occurs_at(s: Seq<char>, p: Seq<char>, i: int) -> bool {
    0 <= i && i + p.len() <= s.len() && s.subrange(i, i + p.len()) == p
}

pub open spec fn contains(s: Seq<char>, p: Seq<char>) -> bool {
    exists|i: int| occurs_at(s, p, i)
}

pub open spec fn starts_with(s: Seq<char>, p: Seq<char>) -> bool {
    occurs_at(s, p, 0)
}

/// The first position at or after `i` where `p` occurs in `s`.
pub open spec fn find_from(s: Seq<char>, p: Seq<char>, i: int) -> Option<int>
    decreases s.len() + 1 - i,
{
    if i < 0 || i + p.len() > s.len() {
        None
    } else if occurs_at(s, p, i) {
        Some(i)
    } else {
        find_from(s, p, i + 1)
    }
}

pub open spec fn find(s: Seq<char>, p: Seq<char>) -> Option<int> {
    find_from(s, p, 0)
}

pub fn occurs_at_exec(s: &[char], p: &[char], i: usize) -> (r: bool)
    ensures
        r == occurs_at(s@, p@, i as int),
{
    if i > s.len() || p.len() > s.len() - i {
        return false;
    }
    let mut j: usize = 0;
    while j < p.len()
        invariant
            j <= p@.len(),
            i + p@.len() <= s@.len(),
            i + p.len() <= s.len(),
            forall|k: int| 0 <= k < j ==> s@[i + k] == p@[k],
        decreases p@.len() - j,
    {
        if s[i + j] != p[j] {
            assert(s@.subrange(i as int, i + p@.len())[j as int] != p@[j as int]);
            return false;
        }
        j = j + 1;
    }
    assert(s@.subrange(i as int, i + p@.len()) =~= p@);
    true
}

pub fn find_exec(s: &[char], p: &[char]) -> (r: Option<usize>)
    ensures
        r matches Some(i) ==> find(s@, p@) == Some(i as int),
        r is None ==> find(s@, p@) is None,
{
    let mut i: usize = 0;
    while i < s.len()
        invariant
            i <= s@.len(),
            find(s@, p@) == find_from(s@, p@, i as int),
        decreases s@.len() - i,
    {
        if occurs_at_exec(s, p, i) {
            return Some(i);
        }
        if p.len() > s.len() - i {
            return None;
        }
        i = i + 1;
    }
    if occurs_at_exec(s, p, i) {
        Some(i)
    } else {
        assert(find_from(s@, p@, i as int + 1) is None);
        None
    }
}

pub proof fn lemma_find_from_none(s: Seq<char>, p: Seq<char>, i: int)
    requires
        i >= 0,
        find_from(s, p, i) is None,
    ensures
        forall|j: int| j >= i ==> !occurs_at(s, p, j),
    decreases s.len() + 1 - i,
{
    if i + p.len() <= s.len() {
        lemma_find_from_none(s, p, i + 1);
    }
}

pub proof fn lemma_find_from_some(s: Seq<char>, p: Seq<char>, i: int)
    requires
        find_from(s, p, i) is Some,
    ensures
        occurs_at(s, p, find_from(s, p, i)->0),
    decreases s.len() + 1 - i,
{
    if i >= 0 && i + p.len() <= s.len() && !occurs_at(s, p, i) {
        lemma_find_from_some(s, p, i + 1);
    }
}

/// `find` is `Some` exactly when `p` occurs in `s`.
pub proof fn lemma_find_contains(s: Seq<char>, p: Seq<char>)
    ensures
        find(s, p) is Some <==> contains(s, p),
{
    if find(s, p) is Some {
        lemma_find_from_some(s, p, 0);
    } else {
        lemma_find_from_none(s, p, 0);
    }
}

pub fn contains_exec(s: &[char], p: &[char]) -> (r: bool)
    ensures
        r == contains(s@, p@),
{
    proof {
        lemma_find_contains(s@, p@);
    }
    find_exec(s, p).is_some()
}

pub fn chars_eq(a: &[char], b: &[char]) -> (r: bool)
    ensures
        r == (a@ == b@),
{
    if a.len() != b.len() {
        return false;
    }
    let r = occurs_at_exec(a, b, 0);
    assert(r ==> a@.subrange(0, b@.len() as int) == b@);
    assert(a@.subrange(0, a@.len() as int) =~= a@);
    r
}

pub fn str_eq(a: &str, b: &str) -> (r: bool)
    ensures
        r == (a@ == b@),
{
    let x = chars_of(a);
    let y = chars_of(b);
    chars_eq(x.as_slice(), y.as_slice())
}

pub fn starts_with_exec(s: &[char], p: &[char]) -> (r: bool)
    ensures
        r == starts_with(s@, p@),
{
    occurs_at_exec(s, p, 0)
}


/// The pieces of `s` between occurrences of `sep` (`str::split` with a
/// non-empty string pattern), empty pieces included.
pub open spec fn split_str(s: Seq<char>, sep: Seq<char>) -> Seq<Seq<char>>
    decreases s.len(),
{
    if sep.len() == 0 {
        seq![s]
    } else {
        match find(s, sep) {
            Some(i) => {
                proof {
                    lemma_find_from_some(s, sep, 0);
                }
                seq![s.take(i)] + split_str(s.skip(i + sep.len()), sep)
            },
            None => seq![s],
        }
    }
}

pub fn split_str_exec(s: &[char], sep: &[char]) -> (res: Vec<Vec<char>>)
    requires
        sep@.len() > 0,
    ensures
        res.deep_view() == split_str(s@, sep@),
{
    let mut done: Vec<Vec<char>> = Vec::new();
    let mut rest: Vec<char> = slice_range(s, 0, s.len());
    assert(rest@ =~= s@);
    loop
        invariant
            sep@.len() > 0,
            done.deep_view() + split_str(rest@, sep@) == split_str(s@, sep@),
        decreases rest@.len(),
    {
        match find_exec(rest.as_slice(), sep) {
            Some(i) => {
                proof {
                    lemma_find_from_some(rest@, sep@, 0);
                }
                assert(occurs_at(rest@, sep@, i as int));
                assert(i + sep@.len() <= rest@.len());
                let n = rest.len();
                let end: usize = i + sep.len();
                let head = slice_range(rest.as_slice(), 0, i);
                let tail = slice_range(rest.as_slice(), end, n);
                assert(head@ == rest@.take(i as int));
                assert(tail@ == rest@.skip(i + sep@.len()));
                let ghost d0 = done.deep_view();
                proof {
                    lemma_char_vec_deep_view(head);
                }
                done.push(head);
                assert(done.deep_view() =~= d0.push(rest@.take(i as int)));
                assert(d0 + split_str(rest@, sep@) == d0 + (seq![rest@.take(i as int)] + split_str(tail@, sep@)));
                assert(d0 + (seq![rest@.take(i as int)] + split_str(tail@, sep@)) =~= d0.push(rest@.take(i as int)) + split_str(tail@, sep@));
                rest = tail;
            },
            None => {
                let ghost d0 = done.deep_view();
                let ghost r0 = rest@;
                proof {
                    lemma_char_vec_deep_view(rest);
                }
                done.push(rest);
                assert(done.deep_view() =~= d0 + seq![r0]);
                return done;
            },
        }
    }
}

// ---------------------------------------------------------------------------
// Number syntax (`from_str_radix`, `str::parse`) and decimal formatting
// ---------------------------------------------------------------------------

/// The value of a digit string in base `radix`, most significant digit first.
pub open spec fn digits_value(s: Seq<char>, radix: nat) -> nat
    decreases s.len(),
{
    if s.len() == 0 {
        0
    } else {
        digits_value(s.drop_last(), radix) * radix + match digit_value(s.last(), radix) {
            Some(d) => d,
            None => 0,
        }
    }
}

pub open spec fn all_digits(s: Seq<char>, radix: nat) -> bool {
    forall|i: int| 0 <= i < s.len() ==> (#[trigger] digit_value(s[i], radix)) is Some
}

/// What an unsigned integer type with maximum `max` parses from `s` in base
/// `radix`: an optional `+`, then one or more digits, the value at most `max`.
pub open spec fn parse_unsigned(s: Seq<char>, radix: nat, max: nat) -> Option<nat> {
    let d = if s.len() > 0 && s[0] == '+' {
        s.drop_first()
    } else {
        s
    };
    if d.len() > 0 && all_digits(d, radix) && digits_value(d, radix) <= max {
        Some(digits_value(d, radix))
    } else {
        None
    }
}

/// What `i32::from_str` parses from `s`: an optional sign, then one or more
/// decimal digits, the value within the range of `i32`.
pub open spec fn parse_i32(s: Seq<char>) -> Option<int> {
    if s.len() > 0 && s[0] == '-' {
        let d = s.drop_first();
        if d.len() > 0 && all_digits(d, 10) && digits_value(d, 10) <= 0x8000_0000 {
            Some(-(digits_value(d, 10) as int))
        } else {
            None
        }
    } else {
        match parse_unsigned(s, 10, 0x7fff_ffff) {
            Some(v) => Some(v as int),
            None => None,
        }
    }
}

proof fn lemma_digits_value_prefix(t: Seq<char>, k: int, radix: nat)
    requires
        0 <= k <= t.len(),
        radix >= 1,
    ensures
        digits_value(t, radix) >= digits_value(t.take(k), radix),
    decreases t.len(),
{
    if k < t.len() {
        let u = t.drop_last();
        assert(u.take(k) == t.take(k));
        lemma_digits_value_prefix(u, k, radix);
        let a = digits_value(u, radix);
        assert(a * radix >= a) by (nonlinear_arith)
            requires
                radix >= 1,
        ;
    } else {
        assert(t.take(k) == t);
    }
}

/// Parses `s[lo..hi]` as an optional `+` followed by base-`radix` digits.
pub fn parse_unsigned_exec(s: &[char], radix: u32, max: u64) -> (r: Option<u64>)
    requires
        radix == 10 || radix == 16,
    ensures
        r matches Some(v) ==> parse_unsigned(s@, radix as nat, max as nat) == Some(v as nat),
        r is None ==> parse_unsigned(s@, radix as nat, max as nat) is None,
{
    let start: usize = if s.len() > 0 && s[0] == '+' {
        1
    } else {
        0
    };
    let ghost d = if s@.len() > 0 && s@[0] == '+' {
        s@.drop_first()
    } else {
        s@
    };
    assert(d == s@.subrange(start as int, s@.len() as int));
    if start == s.len() {
        return None;
    }
    let mut acc: u64 = 0;
    let mut i: usize = start;
    while i < s.len()
        invariant
            start <= i <= s@.len(),
            d == s@.subrange(start as int, s@.len() as int),
            d == (if s@.len() > 0 && s@[0] == '+' {
                s@.drop_first()
            } else {
                s@
            }),
            radix == 10 || radix == 16,
            acc as nat == digits_value(d.take(i - start), radix as nat),
            acc <= max,
            all_digits(d.take(i - start), radix as nat),
        decreases s@.len() - i,
    {
        let ghost pre = d.take(i - start);
        let ghost cur = d.take(i - start + 1);
        assert(cur.drop_last() == pre);
        assert(cur.last() == s@[i as int]);
        match digit_value_exec(s[i], radix) {
            None => {
                assert(!all_digits(d, radix as nat)) by {
                    assert(d[i - start] == s@[i as int]);
                }
                return None;
            },
            Some(dv) => {
                assert(acc as int * radix as int <= u64::MAX as int * 16) by (nonlinear_arith)
                    requires
                        acc <= u64::MAX,
                        radix <= 16,
                ;
                let next: u128 = acc as u128 * radix as u128 + dv as u128;
                assert(next == digits_value(cur, radix as nat));
                if next > max as u128 {
                    proof {
                        if all_digits(d, radix as nat) {
                            lemma_digits_value_prefix(d, i - start + 1, radix as nat);
                        }
                    }
                    return None;
                }
                acc = next as u64;
                assert(all_digits(cur, radix as nat)) by {
                    assert forall|j: int| 0 <= j < cur.len() implies (#[trigger] digit_value(
                        cur[j],
                        radix as nat,
                    )) is Some by {
                        if j < cur.len() - 1 {
                            assert(cur[j] == pre[j]);
                        }
                    }
                }
            },
        }
        i = i + 1;
    }
    assert(d.take(i - start) == d);
    Some(acc)
}

pub fn parse_i32_exec(s: &[char]) -> (r: Option<i32>)
    ensures
        r matches Some(v) ==> parse_i32(s@) == Some(v as int),
        r is None ==> parse_i32(s@) is None,
{
    if s.len() > 0 && s[0] == '-' {
        let rest = slice_range(s, 1, s.len());
        assert(rest@ == s@.drop_first());
        if rest.len() > 0 && rest[0] == '+' {
            assert(!all_digits(rest@, 10)) by {
                assert(digit_value(rest@[0], 10) is None);
            }
            return None;
        }
        match parse_unsigned_exec(rest.as_slice(), 10, 0x8000_0000) {
            Some(v) => Some((0 - v as i64) as i32),
            None => None,
        }
    } else {
        match parse_unsigned_exec(s, 10, 0x7fff_ffff) {
            Some(v) => Some(v as i32),
            None => None,
        }
    }
}

/// What `i64::from_str` parses from `s`: an optional sign, then one or more
/// decimal digits, the value within the range of `i64`.
pub open spec fn parse_i64(s: Seq<char>) -> Option<int> {
    if s.len() > 0 && s[0] == '-' {
        let d = s.drop_first();
        if d.len() > 0 && all_digits(d, 10) && digits_value(d, 10) <= 0x8000_0000_0000_0000 {
            Some(-(digits_value(d, 10) as int))
        } else {
            None
        }
    } else {
        match parse_unsigned(s, 10, 0x7fff_ffff_ffff_ffff) {
            Some(v) => Some(v as int),
            None => None,
        }
    }
}

pub fn parse_i64_exec(s: &[char]) -> (r: Option<i64>)
    ensures
        r matches Some(v) ==> parse_i64(s@) == Some(v as int),
        r is None ==> parse_i64(s@) is None,
{
    if s.len() > 0 && s[0] == '-' {
        let rest = slice_range(s, 1, s.len());
        assert(rest@ == s@.drop_first());
        if rest.len() > 0 && rest[0] == '+' {
            assert(!all_digits(rest@, 10)) by {
                assert(digit_value(rest@[0], 10) is None);
            }
            return None;
        }
        match parse_unsigned_exec(rest.as_slice(), 10, 0x8000_0000_0000_0000) {
            Some(v) => {
                if v == 0x8000_0000_0000_0000 {
                    Some(i64::MIN)
                } else {
                    Some(0 - v as i64)
                }
            },
            None => None,
        }
    } else {
        match parse_unsigned_exec(s, 10, 0x7fff_ffff_ffff_ffff) {
            Some(v) => Some(v as i64),
            None => None,
        }
    }
}

/// Decimal digits of `n` (no sign, no leading zeros).
pub open spec fn dec_digits(n: nat) -> Seq<char>
    decreases n,
{
    if n < 10 {
        seq![hex_char(n)]
    } else {
        dec_digits(n / 10).push(hex_char(n % 10))
    }
}

/// The decimal text of an integer, with a leading `-` when negative.
pub open spec fn int_text(i: int) -> Seq<char> {
    if i < 0 {
        seq!['-'] + dec_digits((-i) as nat)
    } else {
        dec_digits(i as nat)
    }
}

proof fn lemma_dec_digit(d: nat)
    requires
        d < 10,
    ensures
        digit_value(hex_char(d), 10) == Some(d),
        hex_char(d) != '+',
        hex_char(d) != '-',
        hex_char(d) != '_',
{
    assert(((d + '0' as nat) as u32) as char == ((d + 48) as u32) as char);
    assert((((d + 48) as u32) as char) as int == d + 48);
}

/// Decimal digits are digits, read back as the number they spell.
pub proof fn lemma_dec_digits(n: nat)
    ensures
        dec_digits(n).len() > 0,
        all_digits(dec_digits(n), 10),
        digits_value(dec_digits(n), 10) == n,
        !dec_digits(n).contains('_'),
        dec_digits(n)[0] != '+',
        dec_digits(n)[0] != '-',
    decreases n,
{
    if n < 10 {
        lemma_dec_digit(n);
        let s = dec_digits(n);
        assert(s.drop_last().len() == 0);
        assert(s.last() == hex_char(n));
        assert(digits_value(s, 10) == digits_value(s.drop_last(), 10) * 10 + n);
        assert(!s.contains('_')) by {
            if s.contains('_') {
                let k = choose|k: int| 0 <= k < s.len() && s[k] == '_';
                assert(k == 0);
            }
        }
    } else {
        lemma_dec_digits(n / 10);
        lemma_dec_digit(n % 10);
        let p = dec_digits(n / 10);
        let s = dec_digits(n);
        assert(s.drop_last() == p);
        assert(s.last() == hex_char(n % 10));
        assert(s[0] == p[0]);
        assert(digits_value(s, 10) == digits_value(p, 10) * 10 + n % 10);
        assert((n / 10) * 10 + n % 10 == n);
        assert(all_digits(s, 10)) by {
            assert forall|i: int| 0 <= i < s.len() implies (#[trigger] digit_value(s[i], 10)) is Some by {
                if i < p.len() {
                    assert(s[i] == p[i]);
                }
            }
        }
        assert(!s.contains('_')) by {
            if s.contains('_') {
                let k = choose|k: int| 0 <= k < s.len() && s[k] == '_';
                if k < p.len() {
                    assert(s[k] == p[k]);
                }
            }
        }
    }
}

/// `str::parse` of an unsigned type gives back a number from its decimal text.
pub proof fn lemma_parse_dec_digits(n: nat, max: nat)
    requires
        n <= max,
    ensures
        parse_unsigned(dec_digits(n), 10, max) == Some(n),
{
    lemma_dec_digits(n);
}

pub fn push_decimal(s: &mut String, n: u64)
    ensures
        final(s)@ == old(s)@ + dec_digits(n as nat),
    decreases n,
{
    if n >= 10 {
        push_decimal(s, n / 10);
    }
    string_push(s, hex_char_exec((n % 10) as u8));
    if n >= 10 {
        assert(final(s)@ == old(s)@ + dec_digits(n as nat));
    } else {
        assert(final(s)@ =~= old(s)@ + dec_digits(n as nat));
    }
}

pub fn push_int(s: &mut String, x: i64)
    requires
        x > i64::MIN,
    ensures
        final(s)@ == old(s)@ + int_text(x as int),
{
    if x < 0 {
        string_push(s, '-');
        push_decimal(s, (-x) as u64);
        assert(final(s)@ =~= old(s)@ + int_text(x as int));
    } else {
        push_decimal(s, x as u64);
    }
}

} // verus!
