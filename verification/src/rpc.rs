//! The RPC front door: the base64url payload, its size cap, the method
//! allowlist, and the request shape `{"method": .., "params": {..}}`.
use vstd::prelude::*;
use crate::json::{get_member, json_text_value, json_view, lemma_object_view, member, Json, JsonModel,
    parse_json_text};
use crate::text::{chars_of, parse_i64, parse_i64_exec, str_eq, string_from_str, string_push_str, trim,
    trim_exec, words, split_words, string_push, push_chars};

verus! {

pub const ALLOWED_METHODS: [&'static str; 18] = [
    "probe",
    "nv.read",
    "nv.write",
    "nv.delete",
    "bandlock.get",
    "bandlock.set",
    "bandlock.detect",
    "features.check",
    "features.disable",
    "features.restore",
    "cells.get",
    "modem.restart",
    "import.preview",
    "import.apply",
    "backup.list",
    "backup.restore",
    "config.get",
    "config.set",
];

/// A method the RPC bridge may run.
pub open spec fn method_allowed(m: Seq<char>) -> bool {
    exists|i: int| 0 <= i < 18 && (#[trigger] ALLOWED_METHODS@[i])@ == m
}

pub fn is_allowed_method(method: &str) -> (r: bool)
    ensures
        r == method_allowed(method@),
{
    let table = ALLOWED_METHODS;
    let mut i: usize = 0;
    while i < 18
        invariant
            i <= 18,
            table@ == ALLOWED_METHODS@,
            forall|j: int| 0 <= j < i ==> (#[trigger] ALLOWED_METHODS@[j])@ != method@,
        decreases 18 - i,
    {
        if str_eq(table[i], method) {
            return true;
        }
        i = i + 1;
    }
    false
}


// ---------------------------------------------------------------------------
// base64url (RFC 4648 section 5; padding optional)
// ---------------------------------------------------------------------------

/// The 6-bit value of a base64url character.
pub open spec fn b64_value(c: char) -> Option<u32> {
    if 'A' <= c && c <= 'Z' {
        Some((c as u32 - 'A' as u32) as u32)
    } else if 'a' <= c && c <= 'z' {
        Some((c as u32 - 'a' as u32 + 26) as u32)
    } else if '0' <= c && c <= '9' {
        Some((c as u32 - '0' as u32 + 52) as u32)
    } else if c == '-' {
        Some(62)
    } else if c == '_' {
        Some(63)
    } else {
        None
    }
}

/// Decoder state: the bit accumulator, the number of pending bits (under 8)
/// and the bytes so far; `Stopped` after padding; `Invalid` at a character
/// outside the alphabet.
pub enum B64State {
    Running(u32, u32, Seq<u8>),
    Stopped(u32, u32, Seq<u8>),
    Invalid(char),
}

/// Shifts the 6 bits of the next character into the accumulator and emits a
/// byte whenever 8 bits are pending.
pub open spec fn b64_step(st: B64State, c: char) -> B64State {
    match st {
        B64State::Running(acc, bits, out) => if c == '=' {
            B64State::Stopped(acc, bits, out)
        } else {
            match b64_value(c) {
                None => B64State::Invalid(c),
                Some(v) => {
                    let acc2 = (acc << 6u32) | v;
                    if bits + 6 >= 8 {
                        let b2 = (bits + 6 - 8) as u32;
                        B64State::Running(acc2, b2, out.push((acc2 >> b2) as u8))
                    } else {
                        B64State::Running(acc2, (bits + 6) as u32, out)
                    }
                },
            }
        },
        _ => st,
    }
}

pub open spec fn b64_scan(s: Seq<char>) -> B64State
    decreases s.len(),
{
    if s.len() == 0 {
        B64State::Running(0, 0, Seq::empty())
    } else {
        b64_step(b64_scan(s.drop_last()), s.last())
    }
}

/// The Debug text of a character (`format!("{:?}", c)`).
pub uninterp spec fn char_debug_text(c: char) -> Seq<char>;

/// `<char as Debug>::fmt`, through `format!("{:?}", c)`. Trusted: the text
/// is `char_debug_text(c)`, a function of the character alone.
#[verifier::external_body]
fn char_debug(c: char) -> (r: String)
    ensures
        r@ == char_debug_text(c),
{
    format!("{:?}", c)
}

pub open spec fn b64_finish(acc: u32, bits: u32, out: Seq<u8>) -> Result<Seq<u8>, Seq<char>> {
    if 0 < bits && bits < 8 && acc & (((1u32 << bits) - 1) as u32) != 0 {
        Err("invalid base64url: nonzero trailing bits"@)
    } else {
        Ok(out)
    }
}

/// What `s` decodes to as base64url: the bytes, or the first character
/// outside the alphabet (before any `=`), or leftover bits that are not zero.
pub open spec fn b64_decode(s: Seq<char>) -> Result<Seq<u8>, Seq<char>> {
    match b64_scan(s) {
        B64State::Invalid(c) => Err("invalid base64url character: "@ + char_debug_text(c)),
        B64State::Running(acc, bits, out) => b64_finish(acc, bits, out),
        B64State::Stopped(acc, bits, out) => b64_finish(acc, bits, out),
    }
}

proof fn lemma_b64_absorbing(s: Seq<char>, k: int)
    requires
        0 <= k <= s.len(),
        !(b64_scan(s.take(k)) is Running),
    ensures
        b64_scan(s) == b64_scan(s.take(k)),
    decreases s.len() - k,
{
    if k < s.len() {
        assert(s.take(k + 1).drop_last() == s.take(k));
        lemma_b64_absorbing(s, k + 1);
    } else {
        assert(s.take(k) == s);
    }
}

fn b64_value_exec(c: char) -> (r: Option<u32>)
    ensures
        r == b64_value(c),
{
    if 'A' <= c && c <= 'Z' {
        Some(c as u32 - 'A' as u32)
    } else if 'a' <= c && c <= 'z' {
        Some(c as u32 - 'a' as u32 + 26)
    } else if '0' <= c && c <= '9' {
        Some(c as u32 - '0' as u32 + 52)
    } else if c == '-' {
        Some(62)
    } else if c == '_' {
        Some(63)
    } else {
        None
    }
}

/// Decodes base64url (alphabet `A-Za-z0-9-_`, padding optional).
pub fn decode_base64url(input: &str) -> (res: Result<Vec<u8>, String>)
    ensures
        match res {
            Ok(v) => b64_decode(input@) == Ok::<Seq<u8>, Seq<char>>(v@),
            Err(e) => b64_decode(input@) == Err::<Seq<u8>, Seq<char>>(e@),
        },
{
    let cs = chars_of(input);
    let mut out: Vec<u8> = Vec::new();
    let mut acc: u32 = 0;
    let mut bits: u32 = 0;
    let mut i: usize = 0;
    assert(input@.take(input@.len() as int) == input@);
    while i < cs.len()
        invariant_except_break
            b64_scan(input@.take(i as int)) == B64State::Running(acc, bits, out@),
        invariant
            i <= cs@.len(),
            cs@ == input@,
            bits < 8,
            input@.take(input@.len() as int) == input@,
        ensures
            b64_decode(input@) == b64_finish(acc, bits, out@),
        decreases cs@.len() - i,
    {
        assert(input@.take(i + 1).drop_last() == input@.take(i as int));
        let c = cs[i];
        if c == '=' {
            proof {
                lemma_b64_absorbing(input@, i + 1);
            }
            break;
        }
        match b64_value_exec(c) {
            None => {
                proof {
                    lemma_b64_absorbing(input@, i + 1);
                }
                let mut e = string_from_str("invalid base64url character: ");
                let d = char_debug(c);
                string_push_str(&mut e, d.as_str());
                return Err(e);
            },
            Some(v) => {
                acc = (acc << 6u32) | v;
                if bits + 6 >= 8 {
                    bits = bits + 6 - 8;
                    out.push((acc >> bits) as u8);
                } else {
                    bits = bits + 6;
                }
            },
        }
        i = i + 1;
    }
    if bits > 0 && bits < 8 {
        assert((1u32 << bits) >= 1) by (bit_vector)
            requires
                bits < 8,
        ;
        let rem = acc & ((1u32 << bits) - 1);
        if rem != 0 {
            return Err(string_from_str("invalid base64url: nonzero trailing bits"));
        }
    }
    Ok(out)
}


// ---------------------------------------------------------------------------
// base64url laws
// ---------------------------------------------------------------------------

/// The base64url character of a 6-bit value.
pub open spec fn b64_char(v: nat) -> char {
    if v < 26 {
        ((v + 65) as u32) as char
    } else if v < 52 {
        ((v - 26 + 97) as u32) as char
    } else if v < 62 {
        ((v - 52 + 48) as u32) as char
    } else if v == 62 {
        '-'
    } else {
        '_'
    }
}

/// Three bytes as four characters.
pub open spec fn b64_group(a: u8, b: u8, c: u8) -> Seq<char> {
    seq![
        b64_char((a / 4) as nat),
        b64_char(((a % 4) * 16 + b / 16) as nat),
        b64_char(((b % 16) * 4 + c / 64) as nat),
        b64_char((c % 64) as nat),
    ]
}

/// The last one or two bytes, as two or three characters.
pub open spec fn b64_tail(t: Seq<u8>) -> Seq<char> {
    if t.len() == 1 {
        seq![b64_char((t[0] / 4) as nat), b64_char(((t[0] % 4) * 16) as nat)]
    } else if t.len() == 2 {
        seq![
            b64_char((t[0] / 4) as nat),
            b64_char(((t[0] % 4) * 16 + t[1] / 16) as nat),
            b64_char(((t[1] % 16) * 4) as nat),
        ]
    } else {
        Seq::empty()
    }
}

/// The groups of `x`, whose length is a multiple of three.
pub open spec fn b64_groups(x: Seq<u8>) -> Seq<char>
    decreases x.len(),
{
    if x.len() < 3 {
        Seq::empty()
    } else {
        b64_groups(x.take(x.len() - 3)) + b64_group(x[x.len() - 3], x[x.len() - 2], x[x.len() - 1])
    }
}

/// The base64url text of `x` (RFC 4648 section 5), without padding.
pub open spec fn b64_encode(x: Seq<u8>) -> Seq<char> {
    let n = x.len() - x.len() % 3;
    b64_groups(x.take(n)) + b64_tail(x.skip(n))
}

/// `k` padding characters.
pub open spec fn b64_padding(k: nat) -> Seq<char> {
    Seq::new(k, |i: int| '=')
}

/// The decoder run over `s` from the state `st`.
pub open spec fn b64_run(st: B64State, s: Seq<char>) -> B64State
    decreases s.len(),
{
    if s.len() == 0 {
        st
    } else {
        b64_step(b64_run(st, s.drop_last()), s.last())
    }
}

proof fn lemma_b64_char(v: nat)
    requires
        v < 64,
    ensures
        b64_value(b64_char(v)) == Some(v as u32),
        b64_char(v) != '=',
{
    if v < 26 {
        assert((((v + 65) as u32) as char) as int == v + 65);
    } else if v < 52 {
        assert((((v - 26 + 97) as u32) as char) as int == v + 71);
    } else if v < 62 {
        assert((((v - 52 + 48) as u32) as char) as int == v - 4);
    }
}

proof fn lemma_b64_scan_is_run(s: Seq<char>)
    ensures
        b64_scan(s) == b64_run(B64State::Running(0, 0, Seq::empty()), s),
    decreases s.len(),
{
    if s.len() > 0 {
        lemma_b64_scan_is_run(s.drop_last());
    }
}

proof fn lemma_b64_run_append(st: B64State, s: Seq<char>, t: Seq<char>)
    ensures
        b64_run(st, s + t) == b64_run(b64_run(st, s), t),
    decreases t.len(),
{
    if t.len() == 0 {
        assert(s + t =~= s);
    } else {
        lemma_b64_run_append(st, s, t.drop_last());
        assert((s + t).drop_last() =~= s + t.drop_last());
        assert((s + t).last() == t.last());
    }
}

proof fn lemma_b64_run_stopped(acc: u32, bits: u32, out: Seq<u8>, t: Seq<char>)
    ensures
        b64_run(B64State::Stopped(acc, bits, out), t) == B64State::Stopped(acc, bits, out),
    decreases t.len(),
{
    if t.len() > 0 {
        lemma_b64_run_stopped(acc, bits, out, t.drop_last());
    }
}

proof fn lemma_b64_run_four(st: B64State, s: Seq<char>)
    requires
        s.len() == 4,
    ensures
        b64_run(st, s) == b64_step(b64_step(b64_step(b64_step(st, s[0]), s[1]), s[2]), s[3]),
{
    assert(s.drop_last().drop_last().drop_last().drop_last() =~= Seq::<char>::empty());
    reveal_with_fuel(b64_run, 5);
}

proof fn lemma_b64_group(acc: u32, out: Seq<u8>, a: u8, b: u8, c: u8)
    ensures
        b64_run(B64State::Running(acc, 0, out), b64_group(a, b, c)) matches B64State::Running(_, bits, o)
            && bits == 0 && o == out.push(a).push(b).push(c),
{
    let v0 = (a / 4) as u32;
    let v1 = ((a % 4) * 16 + b / 16) as u32;
    let v2 = ((b % 16) * 4 + c / 64) as u32;
    let v3 = (c % 64) as u32;
    lemma_b64_char(v0 as nat);
    lemma_b64_char(v1 as nat);
    lemma_b64_char(v2 as nat);
    lemma_b64_char(v3 as nat);
    lemma_b64_run_four(B64State::Running(acc, 0, out), b64_group(a, b, c));
    let acc1 = (acc << 6u32) | v0;
    let acc2 = (acc1 << 6u32) | v1;
    let acc3 = (acc2 << 6u32) | v2;
    let acc4 = (acc3 << 6u32) | v3;
    assert((acc2 >> 4u32) as u8 == a && (acc3 >> 2u32) as u8 == b && (acc4 >> 0u32) as u8 == c) by (bit_vector)
        requires
            v0 == (a as u32) / 4,
            v1 == ((a as u32) % 4) * 16 + (b as u32) / 16,
            v2 == ((b as u32) % 16) * 4 + (c as u32) / 64,
            v3 == (c as u32) % 64,
            acc1 == (acc << 6u32) | v0,
            acc2 == (acc1 << 6u32) | v1,
            acc3 == (acc2 << 6u32) | v2,
            acc4 == (acc3 << 6u32) | v3,
    ;
}

proof fn lemma_b64_groups(x: Seq<u8>)
    requires
        x.len() % 3 == 0,
    ensures
        b64_scan(b64_groups(x)) matches B64State::Running(_, bits, o) && bits == 0 && o == x,
    decreases x.len(),
{
    lemma_b64_scan_is_run(b64_groups(x));
    if x.len() < 3 {
        assert(x =~= Seq::<u8>::empty());
    } else {
        let p = x.take(x.len() - 3);
        lemma_b64_groups(p);
        lemma_b64_scan_is_run(b64_groups(p));
        let g = b64_group(x[x.len() - 3], x[x.len() - 2], x[x.len() - 1]);
        lemma_b64_run_append(B64State::Running(0, 0, Seq::empty()), b64_groups(p), g);
        if let B64State::Running(acc, _, _) = b64_scan(b64_groups(p)) {
            lemma_b64_group(acc, p, x[x.len() - 3], x[x.len() - 2], x[x.len() - 1]);
        }
        assert(p.push(x[x.len() - 3]).push(x[x.len() - 2]).push(x[x.len() - 1]) =~= x);
    }
}

proof fn lemma_b64_tail(acc: u32, out: Seq<u8>, t: Seq<u8>)
    requires
        t.len() < 3,
    ensures
        b64_run(B64State::Running(acc, 0, out), b64_tail(t)) matches B64State::Running(acc2, bits, o)
            && b64_finish(acc2, bits, o) == Ok::<Seq<u8>, Seq<char>>(out + t),
{
    if t.len() == 0 {
        assert(out + t =~= out);
    } else if t.len() == 1 {
        let a = t[0];
        let v0 = (a / 4) as u32;
        let v1 = ((a % 4) * 16) as u32;
        lemma_b64_char(v0 as nat);
        lemma_b64_char(v1 as nat);
        let s = b64_tail(t);
        assert(s.drop_last().drop_last() =~= Seq::<char>::empty());
        reveal_with_fuel(b64_run, 3);
        let acc1 = (acc << 6u32) | v0;
        let acc2 = (acc1 << 6u32) | v1;
        assert((acc2 >> 4u32) as u8 == a && acc2 & (((1u32 << 4u32) - 1) as u32) == 0) by (bit_vector)
            requires
                v0 == (a as u32) / 4,
                v1 == ((a as u32) % 4) * 16,
                acc1 == (acc << 6u32) | v0,
                acc2 == (acc1 << 6u32) | v1,
        ;
        assert(out.push(a) =~= out + t);
    } else {
        let a = t[0];
        let b = t[1];
        let v0 = (a / 4) as u32;
        let v1 = ((a % 4) * 16 + b / 16) as u32;
        let v2 = ((b % 16) * 4) as u32;
        lemma_b64_char(v0 as nat);
        lemma_b64_char(v1 as nat);
        lemma_b64_char(v2 as nat);
        let s = b64_tail(t);
        assert(s.drop_last().drop_last().drop_last() =~= Seq::<char>::empty());
        reveal_with_fuel(b64_run, 4);
        let acc1 = (acc << 6u32) | v0;
        let acc2 = (acc1 << 6u32) | v1;
        let acc3 = (acc2 << 6u32) | v2;
        assert((acc2 >> 4u32) as u8 == a && (acc3 >> 2u32) as u8 == b && acc3 & (((1u32 << 2u32) - 1) as u32) == 0)
            by (bit_vector)
            requires
                v0 == (a as u32) / 4,
                v1 == ((a as u32) % 4) * 16 + (b as u32) / 16,
                v2 == ((b as u32) % 16) * 4,
                acc1 == (acc << 6u32) | v0,
                acc2 == (acc1 << 6u32) | v1,
                acc3 == (acc2 << 6u32) | v2,
        ;
        assert(out.push(a).push(b) =~= out + t);
    }
}

/// Bytes written as base64url decode back unchanged, with or without any
/// number of padding characters after them.
pub proof fn law_b64_roundtrip(x: Seq<u8>, k: nat)
    ensures
        b64_decode(b64_encode(x)) == Ok::<Seq<u8>, Seq<char>>(x),
        b64_decode(b64_encode(x) + b64_padding(k)) == Ok::<Seq<u8>, Seq<char>>(x),
{
    let n = (x.len() - x.len() % 3) as int;
    let head = x.take(n);
    let t = x.skip(n);
    let e = b64_encode(x);
    let init = B64State::Running(0, 0, Seq::empty());
    lemma_b64_groups(head);
    lemma_b64_scan_is_run(b64_groups(head));
    lemma_b64_scan_is_run(e);
    lemma_b64_run_append(init, b64_groups(head), b64_tail(t));
    if let B64State::Running(acc, _, _) = b64_scan(b64_groups(head)) {
        lemma_b64_tail(acc, head, t);
    }
    assert(head + t =~= x);
    lemma_b64_scan_is_run(e + b64_padding(k));
    lemma_b64_run_append(init, e, b64_padding(k));
    if k > 0 {
        let rest = b64_padding((k - 1) as nat);
        assert(b64_padding(k) =~= seq!['='] + rest);
        lemma_b64_run_append(b64_run(init, e), seq!['='], rest);
        assert(seq!['='].drop_last() =~= Seq::<char>::empty());
        reveal_with_fuel(b64_run, 2);
        if let B64State::Running(acc, bits, out) = b64_run(init, e) {
            assert(b64_run(b64_run(init, e), seq!['=']) == B64State::Stopped(acc, bits, out));
            lemma_b64_run_stopped(acc, bits, out, rest);
        }
    } else {
        assert(e + b64_padding(k) =~= e);
    }
}

proof fn lemma_b64_no_stop(s: Seq<char>)
    requires
        !s.contains('='),
    ensures
        !(b64_scan(s) is Stopped),
    decreases s.len(),
{
    if s.len() > 0 {
        assert(!s.drop_last().contains('=')) by {
            if s.drop_last().contains('=') {
                let i = choose|i: int| 0 <= i < s.drop_last().len() && s.drop_last()[i] == '=';
                assert(s[i] == '=');
            }
        }
        lemma_b64_no_stop(s.drop_last());
        assert(s.last() == s[s.len() - 1]);
    }
}

/// A character outside the alphabet before the first `=` makes the text
/// fail to decode.
pub proof fn law_b64_bad_char_refused(s: Seq<char>, i: int)
    requires
        0 <= i < s.len(),
        b64_value(s[i]) is None,
        s[i] != '=',
        !s.take(i).contains('='),
    ensures
        b64_decode(s) is Err,
{
    lemma_b64_no_stop(s.take(i));
    assert(s.take(i + 1).drop_last() =~= s.take(i));
    assert(s.take(i + 1).last() == s[i]);
    lemma_b64_absorbing(s, i + 1);
}

// ---------------------------------------------------------------------------
// The request
// ---------------------------------------------------------------------------

/// `String::from_utf8` (std): the text the bytes spell in UTF-8, if they
/// are UTF-8.
#[verifier::external_body]
fn string_from_utf8(bytes: Vec<u8>) -> (r: Option<String>)
    ensures
        match r {
            Some(s) => vstd::utf8::valid_utf8(bytes@) && s@ == vstd::utf8::decode_utf8(bytes@),
            None => !vstd::utf8::valid_utf8(bytes@),
        },
{
    String::from_utf8(bytes).ok()
}

/// An RPC call that passed the front-door checks.
#[derive(Debug)]
pub struct RpcRequest {
    pub method: String,
    pub params: Json,
}

pub enum RpcCheck {
    Accepted(Seq<char>, JsonModel),
    Refused(Seq<char>),
    NotJson,
}

pub open spec fn max_rpc_payload() -> nat {
    65536
}

/// The method named by a request (empty when there is none).
pub open spec fn request_method(root: JsonModel) -> Seq<char> {
    match root {
        JsonModel::Object(es) => match member(es, "method"@) {
            Some(JsonModel::Str(m)) => m,
            _ => Seq::empty(),
        },
        _ => Seq::empty(),
    }
}

/// The params of a request (an empty object when there are none).
pub open spec fn request_params(root: JsonModel) -> JsonModel {
    match root {
        JsonModel::Object(es) => match member(es, "params"@) {
            Some(p) => p,
            None => JsonModel::Object(Seq::empty()),
        },
        _ => JsonModel::Object(Seq::empty()),
    }
}

/// The checks a payload passes before dispatch, in order: base64url, size cap,
/// UTF-8, JSON, method allowlist, params object.
pub open spec fn rpc_check(payload: Seq<char>) -> RpcCheck {
    match b64_decode(payload) {
        Err(e) => RpcCheck::Refused("rpc decode: "@ + e),
        Ok(bytes) => if bytes.len() > max_rpc_payload() {
            RpcCheck::Refused("rpc payload exceeds 64 KiB limit"@)
        } else if !vstd::utf8::valid_utf8(bytes) {
            RpcCheck::Refused("rpc payload is not UTF-8"@)
        } else {
            match json_text_value(vstd::utf8::decode_utf8(bytes)) {
                None => RpcCheck::NotJson,
                Some(root) => request_check(root),
            }
        },
    }
}

/// The checks on a request read as JSON: method allowlist, params object.
pub open spec fn request_check(root: JsonModel) -> RpcCheck {
    if !method_allowed(request_method(root)) {
        RpcCheck::Refused("Unknown RPC method: "@ + request_method(root))
    } else if !(request_params(root) is Object) {
        RpcCheck::Refused("rpc params must be an object"@)
    } else {
        RpcCheck::Accepted(request_method(root), request_params(root))
    }
}

/// A payload gets past the front door only with an allowlisted method and
/// an object of params.
pub proof fn law_accepted_request_is_allowlisted(payload: Seq<char>)
    ensures
        rpc_check(payload) matches RpcCheck::Accepted(m, p) ==> method_allowed(m) && p is Object,
{
}

/// Removes and returns the first member named `key`.
fn take_member(entries: &mut Vec<(String, Json)>, key: &str) -> (r: Option<Json>)
    ensures
        match crate::json::member(crate::json::json_entries_view(old(entries)@), key@) {
            None => r is None,
            Some(m) => r matches Some(j) && json_view(j) == m,
        },
{
    let ghost ev = crate::json::json_entries_view(entries@);
    let k = chars_of(key);
    assert(ev.skip(0) == ev);
    let mut i: usize = 0;
    while i < entries.len()
        invariant
            i <= entries@.len(),
            k@ == key@,
            entries@ == old(entries)@,
            ev == crate::json::json_entries_view(entries@),
            member(ev, key@) == member(ev.skip(i as int), key@),
        decreases entries@.len() - i,
    {
        let ghost rest = ev.skip(i as int);
        assert(rest.drop_first() == ev.skip(i + 1));
        assert(rest[0] == (entries@[i as int].0@, json_view(entries@[i as int].1)));
        let name = chars_of(entries[i].0.as_str());
        if crate::text::chars_eq(name.as_slice(), k.as_slice()) {
            let (_, v) = entries.remove(i);
            return Some(v);
        }
        i = i + 1;
    }
    None
}

/// Checks an RPC payload (`mtbctl rpc --b64 <payload>`) up to dispatch.
pub fn parse_rpc_request(payload: &str) -> (res: Result<RpcRequest, String>)
    ensures
        match rpc_check(payload@) {
            RpcCheck::Accepted(m, p) => res matches Ok(r) && r.method@ == m && json_view(r.params) == p,
            RpcCheck::Refused(msg) => res matches Err(e) && e@ == msg,
            RpcCheck::NotJson => res matches Err(e) && crate::text::starts_with(e@, "rpc payload is not JSON: "@),
        },
{
    let decoded = match decode_base64url(payload) {
        Ok(b) => b,
        Err(e) => {
            let mut m = string_from_str("rpc decode: ");
            string_push_str(&mut m, e.as_str());
            return Err(m);
        },
    };
    if decoded.len() > 65536 {
        return Err(string_from_str("rpc payload exceeds 64 KiB limit"));
    }
    let ghost bytes = decoded@;
    let text = match string_from_utf8(decoded) {
        Some(t) => t,
        None => return Err(string_from_str("rpc payload is not UTF-8")),
    };
    let root = match parse_json_text(text.as_str()) {
        Ok(j) => j,
        Err(e) => {
            let mut m = string_from_str("rpc payload is not JSON: ");
            string_push_str(&mut m, e.as_str());
            assert(m@.subrange(0, "rpc payload is not JSON: "@.len() as int) =~= "rpc payload is not JSON: "@);
            return Err(m);
        },
    };
    check_request(root)
}

/// No method on the allowlist is empty.
proof fn lemma_empty_method_refused()
    ensures
        !method_allowed(Seq::<char>::empty()),
{
    reveal_strlit("probe");
    assert(ALLOWED_METHODS@[0]@.len() > 0);
    reveal_strlit("nv.read");
    assert(ALLOWED_METHODS@[1]@.len() > 0);
    reveal_strlit("nv.write");
    assert(ALLOWED_METHODS@[2]@.len() > 0);
    reveal_strlit("nv.delete");
    assert(ALLOWED_METHODS@[3]@.len() > 0);
    reveal_strlit("bandlock.get");
    assert(ALLOWED_METHODS@[4]@.len() > 0);
    reveal_strlit("bandlock.set");
    assert(ALLOWED_METHODS@[5]@.len() > 0);
    reveal_strlit("bandlock.detect");
    assert(ALLOWED_METHODS@[6]@.len() > 0);
    reveal_strlit("features.check");
    assert(ALLOWED_METHODS@[7]@.len() > 0);
    reveal_strlit("features.disable");
    assert(ALLOWED_METHODS@[8]@.len() > 0);
    reveal_strlit("features.restore");
    assert(ALLOWED_METHODS@[9]@.len() > 0);
    reveal_strlit("cells.get");
    assert(ALLOWED_METHODS@[10]@.len() > 0);
    reveal_strlit("modem.restart");
    assert(ALLOWED_METHODS@[11]@.len() > 0);
    reveal_strlit("import.preview");
    assert(ALLOWED_METHODS@[12]@.len() > 0);
    reveal_strlit("import.apply");
    assert(ALLOWED_METHODS@[13]@.len() > 0);
    reveal_strlit("backup.list");
    assert(ALLOWED_METHODS@[14]@.len() > 0);
    reveal_strlit("backup.restore");
    assert(ALLOWED_METHODS@[15]@.len() > 0);
    reveal_strlit("config.get");
    assert(ALLOWED_METHODS@[16]@.len() > 0);
    reveal_strlit("config.set");
    assert(ALLOWED_METHODS@[17]@.len() > 0);
    assert forall|i: int| 0 <= i < 18 implies (#[trigger] ALLOWED_METHODS@[i])@.len() > 0 by {
        assert(i == 0 || i == 1 || i == 2 || i == 3 || i == 4 || i == 5 || i == 6 || i == 7 || i == 8
            || i == 9 || i == 10 || i == 11 || i == 12 || i == 13 || i == 14 || i == 15 || i == 16
            || i == 17);
    }
}

/// Checks a request already read as JSON: an allowlisted method and an
/// object of params.
pub fn check_request(root: Json) -> (res: Result<RpcRequest, String>)
    ensures
        match request_check(json_view(root)) {
            RpcCheck::Accepted(m, p) => res matches Ok(r) && r.method@ == m && json_view(r.params) == p,
            RpcCheck::Refused(msg) => res matches Err(e) && e@ == msg,
            RpcCheck::NotJson => false,
        },
{
    let ghost rootv = json_view(root);
    match root {
        Json::Object(mut es) => {
            proof {
                lemma_object_view(es);
            }
            let method = match get_member(&es, "method") {
                Some(Json::Str(m)) => crate::text::string_from_str(m.as_str()),
                _ => String::new(),
            };
            assert(method@ == request_method(rootv));
            if !is_allowed_method(method.as_str()) {
                let mut m = string_from_str("Unknown RPC method: ");
                string_push_str(&mut m, method.as_str());
                return Err(m);
            }
            let params = match take_member(&mut es, "params") {
                Some(p) => p,
                None => {
                    let empty: Vec<(String, Json)> = Vec::new();
                    proof {
                        lemma_object_view(empty);
                    }
                    assert(crate::json::json_entries_view(empty@) =~= Seq::<(Seq<char>, JsonModel)>::empty());
                    Json::Object(empty)
                },
            };
            assert(json_view(params) == request_params(rootv));
            match params {
                Json::Object(_) => Ok(RpcRequest { method, params }),
                _ => Err(string_from_str("rpc params must be an object")),
            }
        },
        _ => {
            let method = String::new();
            proof {
                lemma_empty_method_refused();
            }
            let mut m = string_from_str("Unknown RPC method: ");
            string_push_str(&mut m, method.as_str());
            Err(m)
        },
    }
}

// ---------------------------------------------------------------------------
// Dispatch
// ---------------------------------------------------------------------------

pub open spec fn dots_as_spaces(m: Seq<char>) -> Seq<char> {
    Seq::new(m.len(), |i: int| if m[i] == '.' { ' ' } else { m[i] })
}

/// The command a method names: its first two words (dots read as spaces)
/// joined by one space; the method with dots as spaces when it has fewer
/// than two words. `"nv.read"` and `"nv read"` both name `"nv read"`.
pub open spec fn command_base_text(method: Seq<char>) -> Seq<char> {
    let c = dots_as_spaces(method);
    let w = words(c);
    if w.len() >= 2 {
        w[0] + " "@ + w[1]
    } else {
        c
    }
}

pub fn command_base(method: &str) -> (r: String)
    ensures
        r@ == command_base_text(method@),
{
    let cs = chars_of(method);
    let mut c: Vec<char> = Vec::new();
    let mut i: usize = 0;
    while i < cs.len()
        invariant
            i <= cs@.len(),
            cs@ == method@,
            c@ == dots_as_spaces(method@).take(i as int),
        decreases cs@.len() - i,
    {
        if cs[i] == '.' {
            c.push(' ');
        } else {
            c.push(cs[i]);
        }
        i = i + 1;
        assert(c@ =~= dots_as_spaces(method@).take(i as int));
    }
    assert(dots_as_spaces(method@).take(cs@.len() as int) =~= dots_as_spaces(method@));
    let w = split_words(c.as_slice());
    if w.len() >= 2 {
        proof {
            crate::text::lemma_char_vec_deep_view(w@[0]);
            crate::text::lemma_char_vec_deep_view(w@[1]);
        }
        assert(w.deep_view()[0] == w@[0]@);
        assert(w.deep_view()[1] == w@[1]@);
        let mut r = String::new();
        push_chars(&mut r, w[0].as_slice());
        string_push(&mut r, ' ');
        push_chars(&mut r, w[1].as_slice());
        proof {
            reveal_strlit(" ");
        }
        assert(r@ =~= w@[0]@ + " "@ + w@[1]@);
        r
    } else {
        crate::text::string_from_chars(c.as_slice())
    }
}

/// The SIM slot a command's arguments give: `slot` as a number, or as text
/// that parses as an `i64` once trimmed, taken to 32 bits; 0 otherwise.
pub open spec fn slot_param_value(args: JsonModel) -> i32 {
    let v = match args {
        JsonModel::Object(es) => match member(es, "slot"@) {
            Some(JsonModel::Number(t)) => parse_i64(t),
            Some(JsonModel::Str(s)) => parse_i64(trim(s)),
            _ => None,
        },
        _ => None,
    };
    match v {
        Some(x) => (x as i64) as i32,
        None => 0,
    }
}

pub fn slot_param(args: &Json) -> (r: i32)
    ensures
        r == slot_param_value(json_view(*args)),
{
    let v: Option<i64> = match args {
        Json::Object(es) => {
            proof {
                lemma_object_view(*es);
            }
            match get_member(es, "slot") {
                Some(Json::Number(t)) => {
                    let cs = chars_of(t.as_str());
                    parse_i64_exec(cs.as_slice())
                },
                Some(Json::Str(s)) => {
                    let cs = chars_of(s.as_str());
                    let t = trim_exec(cs.as_slice());
                    parse_i64_exec(t.as_slice())
                },
                _ => None,
            }
        },
        _ => None,
    };
    match v {
        Some(x) => x as i32,
        None => 0,
    }
}

/// A text argument of a command (`None` when missing or not text).
pub open spec fn str_param_value(args: JsonModel, key: Seq<char>) -> Option<Seq<char>> {
    match args {
        JsonModel::Object(es) => crate::json::member_str(es, key),
        _ => None,
    }
}

pub fn str_param(args: &Json, key: &str) -> (r: Option<String>)
    ensures
        match str_param_value(json_view(*args), key@) {
            None => r is None,
            Some(v) => r matches Some(s) && s@ == v,
        },
{
    match args {
        Json::Object(es) => {
            proof {
                lemma_object_view(*es);
            }
            match get_member(es, key) {
                Some(Json::Str(s)) => Some(string_from_str(s.as_str())),
                _ => None,
            }
        },
        _ => None,
    }
}

/// `allowEmpty`: `true` as a boolean or as the text `"true"`.
pub open spec fn allow_empty_value(args: JsonModel) -> bool {
    match args {
        JsonModel::Object(es) => match member(es, "allowEmpty"@) {
            Some(JsonModel::Bool(b)) => b,
            Some(JsonModel::Str(s)) => s == "true"@,
            _ => false,
        },
        _ => false,
    }
}

pub fn allow_empty_param(args: &Json) -> (r: bool)
    ensures
        r == allow_empty_value(json_view(*args)),
{
    match args {
        Json::Object(es) => {
            proof {
                lemma_object_view(*es);
            }
            match get_member(es, "allowEmpty") {
                Some(Json::Bool(b)) => *b,
                Some(Json::Str(s)) => str_eq(s.as_str(), "true"),
                _ => false,
            }
        },
        _ => false,
    }
}

/// The handler a command reaches.
#[derive(Debug, Clone, Copy, PartialEq, Eq)]
pub enum Route {
    Probe,
    NvRead,
    NvWrite,
    NvDelete,
    BandlockGet,
    BandlockSet,
    BandlockDetect,
    FeaturesCheck,
    FeaturesDisable,
    FeaturesRestore,
    CellsGet,
    ModemRestart,
    ImportPreview,
    ImportApply,
    BackupList,
    BackupRestore,
    ConfigGet,
    ConfigSet,
}

/// The handler of a command named by its base (see `command_base_text`).
pub open spec fn route_of(base: Seq<char>) -> Option<Route> {
    if base == "probe"@ {
        Some(Route::Probe)
    } else if base == "nv read"@ {
        Some(Route::NvRead)
    } else if base == "nv write"@ {
        Some(Route::NvWrite)
    } else if base == "nv delete"@ {
        Some(Route::NvDelete)
    } else if base == "bandlock get"@ {
        Some(Route::BandlockGet)
    } else if base == "bandlock set"@ {
        Some(Route::BandlockSet)
    } else if base == "bandlock detect"@ {
        Some(Route::BandlockDetect)
    } else if base == "features check"@ {
        Some(Route::FeaturesCheck)
    } else if base == "features disable"@ {
        Some(Route::FeaturesDisable)
    } else if base == "features restore"@ {
        Some(Route::FeaturesRestore)
    } else if base == "cells get"@ {
        Some(Route::CellsGet)
    } else if base == "modem restart"@ {
        Some(Route::ModemRestart)
    } else if base == "import preview"@ {
        Some(Route::ImportPreview)
    } else if base == "import apply"@ {
        Some(Route::ImportApply)
    } else if base == "backup list"@ {
        Some(Route::BackupList)
    } else if base == "backup restore"@ {
        Some(Route::BackupRestore)
    } else if base == "config get"@ {
        Some(Route::ConfigGet)
    } else if base == "config set"@ {
        Some(Route::ConfigSet)
    } else {
        None
    }
}

/// The handler `method` reaches: the dot form (`"nv.read"`) and the space
/// form (`"nv read"`) name the same one; `None` for an unknown command.
pub fn route(method: &str) -> (r: Option<Route>)
    ensures
        r == route_of(command_base_text(method@)),
{
    let base = command_base(method);
    let b = base.as_str();
    if str_eq(b, "probe") {
        Some(Route::Probe)
    } else if str_eq(b, "nv read") {
        Some(Route::NvRead)
    } else if str_eq(b, "nv write") {
        Some(Route::NvWrite)
    } else if str_eq(b, "nv delete") {
        Some(Route::NvDelete)
    } else if str_eq(b, "bandlock get") {
        Some(Route::BandlockGet)
    } else if str_eq(b, "bandlock set") {
        Some(Route::BandlockSet)
    } else if str_eq(b, "bandlock detect") {
        Some(Route::BandlockDetect)
    } else if str_eq(b, "features check") {
        Some(Route::FeaturesCheck)
    } else if str_eq(b, "features disable") {
        Some(Route::FeaturesDisable)
    } else if str_eq(b, "features restore") {
        Some(Route::FeaturesRestore)
    } else if str_eq(b, "cells get") {
        Some(Route::CellsGet)
    } else if str_eq(b, "modem restart") {
        Some(Route::ModemRestart)
    } else if str_eq(b, "import preview") {
        Some(Route::ImportPreview)
    } else if str_eq(b, "import apply") {
        Some(Route::ImportApply)
    } else if str_eq(b, "backup list") {
        Some(Route::BackupList)
    } else if str_eq(b, "backup restore") {
        Some(Route::BackupRestore)
    } else if str_eq(b, "config get") {
        Some(Route::ConfigGet)
    } else if str_eq(b, "config set") {
        Some(Route::ConfigSet)
    } else {
        None
    }
}

/// The dot form and the space form of a method reach the same handler:
/// reading dots as spaces first changes nothing.
pub proof fn law_dot_and_space_forms_agree(method: Seq<char>)
    ensures
        route_of(command_base_text(method)) == route_of(command_base_text(dots_as_spaces(method))),
{
    assert(dots_as_spaces(dots_as_spaces(method)) =~= dots_as_spaces(method));
}

/// A slot given as a number and the same slot given as text (with or
/// without surrounding whitespace) select the same SIM slot.
pub proof fn law_slot_number_or_text(a: Seq<(Seq<char>, JsonModel)>, b: Seq<(Seq<char>, JsonModel)>, t: Seq<char>, s: Seq<char>)
    requires
        member(a, "slot"@) == Some(JsonModel::Number(t)),
        member(b, "slot"@) == Some(JsonModel::Str(s)),
        trim(s) == t,
    ensures
        slot_param_value(JsonModel::Object(a)) == slot_param_value(JsonModel::Object(b)),
{
}

/// The backup a restore command names: its `id` argument, else the third
/// word of the method (dots read as spaces), else `"latest"`.
pub open spec fn restore_id_text(method: Seq<char>, args: JsonModel) -> Seq<char> {
    match str_param_value(args, "id"@) {
        Some(id) => id,
        None => if words(dots_as_spaces(method)).len() > 2 {
            words(dots_as_spaces(method))[2]
        } else {
            "latest"@
        },
    }
}

pub fn restore_id(method: &str, args: &Json) -> (r: String)
    ensures
        r@ == restore_id_text(method@, json_view(*args)),
{
    if let Some(id) = str_param(args, "id") {
        return id;
    }
    let cs = chars_of(method);
    let mut c: Vec<char> = Vec::new();
    let mut i: usize = 0;
    while i < cs.len()
        invariant
            i <= cs@.len(),
            cs@ == method@,
            c@ == dots_as_spaces(method@).take(i as int),
        decreases cs@.len() - i,
    {
        if cs[i] == '.' {
            c.push(' ');
        } else {
            c.push(cs[i]);
        }
        i = i + 1;
        assert(c@ =~= dots_as_spaces(method@).take(i as int));
    }
    assert(dots_as_spaces(method@).take(cs@.len() as int) =~= dots_as_spaces(method@));
    let w = split_words(c.as_slice());
    if w.len() > 2 {
        proof {
            crate::text::lemma_char_vec_deep_view(w@[2]);
        }
        assert(w.deep_view()[2] == w@[2]@);
        crate::text::string_from_chars(w[2].as_slice())
    } else {
        string_from_str("latest")
    }
}

/// Whether a command's arguments stand for its document: the command is an
/// import or `config set`, and the arguments hold no text `json`.
pub open spec fn takes_whole_args(method: Seq<char>, args: JsonModel) -> bool {
    &&& (route_of(command_base_text(method)) == Some(Route::ImportPreview) || route_of(
        command_base_text(method),
    ) == Some(Route::ImportApply) || route_of(command_base_text(method)) == Some(Route::ConfigSet))
    &&& str_param_value(args, "json"@) is None
}

pub fn args_are_document(method: &str, args: &Json) -> (r: bool)
    ensures
        r == takes_whole_args(method@, json_view(*args)),
{
    let needs = match route(method) {
        Some(Route::ImportPreview) | Some(Route::ImportApply) | Some(Route::ConfigSet) => true,
        _ => false,
    };
    needs && str_param(args, "json").is_none()
}

/// What a probe of the `mtb` binary found.
pub struct ProbeStatus {
    pub exists: bool,
    pub executable: bool,
    pub responds: bool,
    pub ok: bool,
}

/// The probe's findings from whether the binary exists, its exit code and
/// its output: it is executable when it exists and exited 0; it responds
/// when it exists and printed something or exited 0; all is well when it
/// exists, is executable and responds.
pub fn probe_status(exists: bool, exit: i32, raw: &str) -> (r: ProbeStatus)
    ensures
        r.exists == exists,
        r.executable == (exists && exit == 0),
        r.responds == (exists && (trim(raw@).len() > 0 || exit == 0)),
        r.ok == (r.exists && r.executable && r.responds),
{
    let cs = chars_of(raw);
    let t = trim_exec(cs.as_slice());
    let executable = exists && exit == 0;
    let responds = exists && (t.len() > 0 || exit == 0);
    ProbeStatus { exists, executable, responds, ok: exists && executable && responds }
}

/// The answer to a command that names no handler.
pub fn unknown_command_message(method: &str) -> (r: String)
    ensures
        r@ == "Unknown command: "@ + method@,
{
    let mut m = string_from_str("Unknown command: ");
    string_push_str(&mut m, method);
    m
}

/// The method name of each handler, in its dot form.
pub open spec fn route_name(r: Route) -> Seq<char> {
    match r {
        Route::Probe => "probe"@,
        Route::NvRead => "nv.read"@,
        Route::NvWrite => "nv.write"@,
        Route::NvDelete => "nv.delete"@,
        Route::BandlockGet => "bandlock.get"@,
        Route::BandlockSet => "bandlock.set"@,
        Route::BandlockDetect => "bandlock.detect"@,
        Route::FeaturesCheck => "features.check"@,
        Route::FeaturesDisable => "features.disable"@,
        Route::FeaturesRestore => "features.restore"@,
        Route::CellsGet => "cells.get"@,
        Route::ModemRestart => "modem.restart"@,
        Route::ImportPreview => "import.preview"@,
        Route::ImportApply => "import.apply"@,
        Route::BackupList => "backup.list"@,
        Route::BackupRestore => "backup.restore"@,
        Route::ConfigGet => "config.get"@,
        Route::ConfigSet => "config.set"@,
    }
}

/// A word with no dot and no whitespace in it.
pub open spec fn plain_word(w: Seq<char>) -> bool {
    w.len() > 0 && forall|i: int| 0 <= i < w.len() ==> #[trigger] w[i] != '.' && !crate::text::is_sep(w[i], false)
}

/// `a.b` names the command `a b`.
proof fn lemma_base_of_dotted(a: Seq<char>, b: Seq<char>)
    requires
        plain_word(a),
        plain_word(b),
    ensures
        command_base_text(a + seq!['.'] + b) == a + " "@ + b,
{
    reveal_strlit(" ");
    let m = a + seq!['.'] + b;
    let c = a + seq![' '] + b;
    assert(dots_as_spaces(m) =~= c) by {
        assert forall|i: int| 0 <= i < m.len() implies #[trigger] dots_as_spaces(m)[i] == c[i] by {
            if i < a.len() {
                assert(m[i] == a[i]);
            } else if i > a.len() {
                assert(m[i] == b[i - a.len() - 1]);
            }
        }
    }
    crate::util::lemma_scan_no_sep(Seq::empty(), a);
    assert(Seq::<char>::empty() + a =~= a);
    let h = a + seq![' '];
    assert(h.drop_last() =~= a);
    crate::util::lemma_scan_no_sep(h, b);
    assert(h + b =~= c);
    assert(Seq::<char>::empty() + b =~= b);
    assert(words(c) =~= seq![a, b]);
}

/// A plain word names itself.
proof fn lemma_base_of_word(a: Seq<char>)
    requires
        plain_word(a),
    ensures
        command_base_text(a) == a,
{
    assert(dots_as_spaces(a) =~= a);
    crate::util::lemma_scan_no_sep(Seq::empty(), a);
    assert(Seq::<char>::empty() + a =~= a);
    assert(words(a) =~= seq![a]);
}

proof fn lemma_route_0()
    ensures
        route_of(command_base_text("probe"@)) == Some(Route::Probe),
{
    reveal_strlit("probe");
    reveal_strlit("probe");
    reveal_strlit("nv read");
    reveal_strlit("nv write");
    reveal_strlit("nv delete");
    reveal_strlit("bandlock get");
    reveal_strlit("bandlock set");
    reveal_strlit("bandlock detect");
    reveal_strlit("features check");
    reveal_strlit("features disable");
    reveal_strlit("features restore");
    reveal_strlit("cells get");
    reveal_strlit("modem restart");
    reveal_strlit("import preview");
    reveal_strlit("import apply");
    reveal_strlit("backup list");
    reveal_strlit("backup restore");
    reveal_strlit("config get");
    reveal_strlit("config set");
    lemma_base_of_word("probe"@);
}

proof fn lemma_route_1()
    ensures
        route_of(command_base_text("nv.read"@)) == Some(Route::NvRead),
{
    reveal_strlit("nv.read");
    reveal_strlit("probe");
    reveal_strlit("nv read");
    reveal_strlit("nv write");
    reveal_strlit("nv delete");
    reveal_strlit("bandlock get");
    reveal_strlit("bandlock set");
    reveal_strlit("bandlock detect");
    reveal_strlit("features check");
    reveal_strlit("features disable");
    reveal_strlit("features restore");
    reveal_strlit("cells get");
    reveal_strlit("modem restart");
    reveal_strlit("import preview");
    reveal_strlit("import apply");
    reveal_strlit("backup list");
    reveal_strlit("backup restore");
    reveal_strlit("config get");
    reveal_strlit("config set");
    let a = seq!['n', 'v'];
    let b = seq!['r', 'e', 'a', 'd'];
    assert("nv.read"@ =~= a + seq!['.'] + b);
    lemma_base_of_dotted(a, b);
    reveal_strlit(" ");
    assert(a + " "@ + b =~= "nv read"@);
}

proof fn lemma_route_2()
    ensures
        route_of(command_base_text("nv.write"@)) == Some(Route::NvWrite),
{
    reveal_strlit("nv.write");
    reveal_strlit("probe");
    reveal_strlit("nv read");
    reveal_strlit("nv write");
    reveal_strlit("nv delete");
    reveal_strlit("bandlock get");
    reveal_strlit("bandlock set");
    reveal_strlit("bandlock detect");
    reveal_strlit("features check");
    reveal_strlit("features disable");
    reveal_strlit("features restore");
    reveal_strlit("cells get");
    reveal_strlit("modem restart");
    reveal_strlit("import preview");
    reveal_strlit("import apply");
    reveal_strlit("backup list");
    reveal_strlit("backup restore");
    reveal_strlit("config get");
    reveal_strlit("config set");
    let a = seq!['n', 'v'];
    let b = seq!['w', 'r', 'i', 't', 'e'];
    assert("nv.write"@ =~= a + seq!['.'] + b);
    lemma_base_of_dotted(a, b);
    reveal_strlit(" ");
    assert(a + " "@ + b =~= "nv write"@);
}

proof fn lemma_route_3()
    ensures
        route_of(command_base_text("nv.delete"@)) == Some(Route::NvDelete),
{
    reveal_strlit("nv.delete");
    reveal_strlit("probe");
    reveal_strlit("nv read");
    reveal_strlit("nv write");
    reveal_strlit("nv delete");
    reveal_strlit("bandlock get");
    reveal_strlit("bandlock set");
    reveal_strlit("bandlock detect");
    reveal_strlit("features check");
    reveal_strlit("features disable");
    reveal_strlit("features restore");
    reveal_strlit("cells get");
    reveal_strlit("modem restart");
    reveal_strlit("import preview");
    reveal_strlit("import apply");
    reveal_strlit("backup list");
    reveal_strlit("backup restore");
    reveal_strlit("config get");
    reveal_strlit("config set");
    let a = seq!['n', 'v'];
    let b = seq!['d', 'e', 'l', 'e', 't', 'e'];
    assert("nv.delete"@ =~= a + seq!['.'] + b);
    lemma_base_of_dotted(a, b);
    reveal_strlit(" ");
    assert(a + " "@ + b =~= "nv delete"@);
}

proof fn lemma_route_4()
    ensures
        route_of(command_base_text("bandlock.get"@)) == Some(Route::BandlockGet),
{
    reveal_strlit("bandlock.get");
    reveal_strlit("probe");
    reveal_strlit("nv read");
    reveal_strlit("nv write");
    reveal_strlit("nv delete");
    reveal_strlit("bandlock get");
    reveal_strlit("bandlock set");
    reveal_strlit("bandlock detect");
    reveal_strlit("features check");
    reveal_strlit("features disable");
    reveal_strlit("features restore");
    reveal_strlit("cells get");
    reveal_strlit("modem restart");
    reveal_strlit("import preview");
    reveal_strlit("import apply");
    reveal_strlit("backup list");
    reveal_strlit("backup restore");
    reveal_strlit("config get");
    reveal_strlit("config set");
    let a = seq!['b', 'a', 'n', 'd', 'l', 'o', 'c', 'k'];
    let b = seq!['g', 'e', 't'];
    assert("bandlock.get"@ =~= a + seq!['.'] + b);
    lemma_base_of_dotted(a, b);
    reveal_strlit(" ");
    assert(a + " "@ + b =~= "bandlock get"@);
}

proof fn lemma_route_5()
    ensures
        route_of(command_base_text("bandlock.set"@)) == Some(Route::BandlockSet),
{
    reveal_strlit("bandlock.set");
    reveal_strlit("probe");
    reveal_strlit("nv read");
    reveal_strlit("nv write");
    reveal_strlit("nv delete");
    reveal_strlit("bandlock get");
    reveal_strlit("bandlock set");
    reveal_strlit("bandlock detect");
    reveal_strlit("features check");
    reveal_strlit("features disable");
    reveal_strlit("features restore");
    reveal_strlit("cells get");
    reveal_strlit("modem restart");
    reveal_strlit("import preview");
    reveal_strlit("import apply");
    reveal_strlit("backup list");
    reveal_strlit("backup restore");
    reveal_strlit("config get");
    reveal_strlit("config set");
    let a = seq!['b', 'a', 'n', 'd', 'l', 'o', 'c', 'k'];
    let b = seq!['s', 'e', 't'];
    assert("bandlock.set"@ =~= a + seq!['.'] + b);
    lemma_base_of_dotted(a, b);
    reveal_strlit(" ");
    assert(a + " "@ + b =~= "bandlock set"@);
    assert("bandlock set"@[9] != "bandlock get"@[9]);
}

proof fn lemma_route_6()
    ensures
        route_of(command_base_text("bandlock.detect"@)) == Some(Route::BandlockDetect),
{
    reveal_strlit("bandlock.detect");
    reveal_strlit("probe");
    reveal_strlit("nv read");
    reveal_strlit("nv write");
    reveal_strlit("nv delete");
    reveal_strlit("bandlock get");
    reveal_strlit("bandlock set");
    reveal_strlit("bandlock detect");
    reveal_strlit("features check");
    reveal_strlit("features disable");
    reveal_strlit("features restore");
    reveal_strlit("cells get");
    reveal_strlit("modem restart");
    reveal_strlit("import preview");
    reveal_strlit("import apply");
    reveal_strlit("backup list");
    reveal_strlit("backup restore");
    reveal_strlit("config get");
    reveal_strlit("config set");
    let a = seq!['b', 'a', 'n', 'd', 'l', 'o', 'c', 'k'];
    let b = seq!['d', 'e', 't', 'e', 'c', 't'];
    assert("bandlock.detect"@ =~= a + seq!['.'] + b);
    lemma_base_of_dotted(a, b);
    reveal_strlit(" ");
    assert(a + " "@ + b =~= "bandlock detect"@);
}

proof fn lemma_route_7()
    ensures
        route_of(command_base_text("features.check"@)) == Some(Route::FeaturesCheck),
{
    reveal_strlit("features.check");
    reveal_strlit("probe");
    reveal_strlit("nv read");
    reveal_strlit("nv write");
    reveal_strlit("nv delete");
    reveal_strlit("bandlock get");
    reveal_strlit("bandlock set");
    reveal_strlit("bandlock detect");
    reveal_strlit("features check");
    reveal_strlit("features disable");
    reveal_strlit("features restore");
    reveal_strlit("cells get");
    reveal_strlit("modem restart");
    reveal_strlit("import preview");
    reveal_strlit("import apply");
    reveal_strlit("backup list");
    reveal_strlit("backup restore");
    reveal_strlit("config get");
    reveal_strlit("config set");
    let a = seq!['f', 'e', 'a', 't', 'u', 'r', 'e', 's'];
    let b = seq!['c', 'h', 'e', 'c', 'k'];
    assert("features.check"@ =~= a + seq!['.'] + b);
    lemma_base_of_dotted(a, b);
    reveal_strlit(" ");
    assert(a + " "@ + b =~= "features check"@);
}

proof fn lemma_route_8()
    ensures
        route_of(command_base_text("features.disable"@)) == Some(Route::FeaturesDisable),
{
    reveal_strlit("features.disable");
    reveal_strlit("probe");
    reveal_strlit("nv read");
    reveal_strlit("nv write");
    reveal_strlit("nv delete");
    reveal_strlit("bandlock get");
    reveal_strlit("bandlock set");
    reveal_strlit("bandlock detect");
    reveal_strlit("features check");
    reveal_strlit("features disable");
    reveal_strlit("features restore");
    reveal_strlit("cells get");
    reveal_strlit("modem restart");
    reveal_strlit("import preview");
    reveal_strlit("import apply");
    reveal_strlit("backup list");
    reveal_strlit("backup restore");
    reveal_strlit("config get");
    reveal_strlit("config set");
    let a = seq!['f', 'e', 'a', 't', 'u', 'r', 'e', 's'];
    let b = seq!['d', 'i', 's', 'a', 'b', 'l', 'e'];
    assert("features.disable"@ =~= a + seq!['.'] + b);
    lemma_base_of_dotted(a, b);
    reveal_strlit(" ");
    assert(a + " "@ + b =~= "features disable"@);
}

proof fn lemma_route_9()
    ensures
        route_of(command_base_text("features.restore"@)) == Some(Route::FeaturesRestore),
{
    reveal_strlit("features.restore");
    reveal_strlit("probe");
    reveal_strlit("nv read");
    reveal_strlit("nv write");
    reveal_strlit("nv delete");
    reveal_strlit("bandlock get");
    reveal_strlit("bandlock set");
    reveal_strlit("bandlock detect");
    reveal_strlit("features check");
    reveal_strlit("features disable");
    reveal_strlit("features restore");
    reveal_strlit("cells get");
    reveal_strlit("modem restart");
    reveal_strlit("import preview");
    reveal_strlit("import apply");
    reveal_strlit("backup list");
    reveal_strlit("backup restore");
    reveal_strlit("config get");
    reveal_strlit("config set");
    let a = seq!['f', 'e', 'a', 't', 'u', 'r', 'e', 's'];
    let b = seq!['r', 'e', 's', 't', 'o', 'r', 'e'];
    assert("features.restore"@ =~= a + seq!['.'] + b);
    lemma_base_of_dotted(a, b);
    reveal_strlit(" ");
    assert(a + " "@ + b =~= "features restore"@);
    assert("features restore"@[9] != "features disable"@[9]);
}

proof fn lemma_route_10()
    ensures
        route_of(command_base_text("cells.get"@)) == Some(Route::CellsGet),
{
    reveal_strlit("cells.get");
    reveal_strlit("probe");
    reveal_strlit("nv read");
    reveal_strlit("nv write");
    reveal_strlit("nv delete");
    reveal_strlit("bandlock get");
    reveal_strlit("bandlock set");
    reveal_strlit("bandlock detect");
    reveal_strlit("features check");
    reveal_strlit("features disable");
    reveal_strlit("features restore");
    reveal_strlit("cells get");
    reveal_strlit("modem restart");
    reveal_strlit("import preview");
    reveal_strlit("import apply");
    reveal_strlit("backup list");
    reveal_strlit("backup restore");
    reveal_strlit("config get");
    reveal_strlit("config set");
    let a = seq!['c', 'e', 'l', 'l', 's'];
    let b = seq!['g', 'e', 't'];
    assert("cells.get"@ =~= a + seq!['.'] + b);
    lemma_base_of_dotted(a, b);
    reveal_strlit(" ");
    assert(a + " "@ + b =~= "cells get"@);
    assert("cells get"@[0] != "nv delete"@[0]);
}

proof fn lemma_route_11()
    ensures
        route_of(command_base_text("modem.restart"@)) == Some(Route::ModemRestart),
{
    reveal_strlit("modem.restart");
    reveal_strlit("probe");
    reveal_strlit("nv read");
    reveal_strlit("nv write");
    reveal_strlit("nv delete");
    reveal_strlit("bandlock get");
    reveal_strlit("bandlock set");
    reveal_strlit("bandlock detect");
    reveal_strlit("features check");
    reveal_strlit("features disable");
    reveal_strlit("features restore");
    reveal_strlit("cells get");
    reveal_strlit("modem restart");
    reveal_strlit("import preview");
    reveal_strlit("import apply");
    reveal_strlit("backup list");
    reveal_strlit("backup restore");
    reveal_strlit("config get");
    reveal_strlit("config set");
    let a = seq!['m', 'o', 'd', 'e', 'm'];
    let b = seq!['r', 'e', 's', 't', 'a', 'r', 't'];
    assert("modem.restart"@ =~= a + seq!['.'] + b);
    lemma_base_of_dotted(a, b);
    reveal_strlit(" ");
    assert(a + " "@ + b =~= "modem restart"@);
}

proof fn lemma_route_12()
    ensures
        route_of(command_base_text("import.preview"@)) == Some(Route::ImportPreview),
{
    reveal_strlit("import.preview");
    reveal_strlit("probe");
    reveal_strlit("nv read");
    reveal_strlit("nv write");
    reveal_strlit("nv delete");
    reveal_strlit("bandlock get");
    reveal_strlit("bandlock set");
    reveal_strlit("bandlock detect");
    reveal_strlit("features check");
    reveal_strlit("features disable");
    reveal_strlit("features restore");
    reveal_strlit("cells get");
    reveal_strlit("modem restart");
    reveal_strlit("import preview");
    reveal_strlit("import apply");
    reveal_strlit("backup list");
    reveal_strlit("backup restore");
    reveal_strlit("config get");
    reveal_strlit("config set");
    let a = seq!['i', 'm', 'p', 'o', 'r', 't'];
    let b = seq!['p', 'r', 'e', 'v', 'i', 'e', 'w'];
    assert("import.preview"@ =~= a + seq!['.'] + b);
    lemma_base_of_dotted(a, b);
    reveal_strlit(" ");
    assert(a + " "@ + b =~= "import preview"@);
    assert("import preview"@[0] != "features check"@[0]);
}

proof fn lemma_route_13()
    ensures
        route_of(command_base_text("import.apply"@)) == Some(Route::ImportApply),
{
    reveal_strlit("import.apply");
    reveal_strlit("probe");
    reveal_strlit("nv read");
    reveal_strlit("nv write");
    reveal_strlit("nv delete");
    reveal_strlit("bandlock get");
    reveal_strlit("bandlock set");
    reveal_strlit("bandlock detect");
    reveal_strlit("features check");
    reveal_strlit("features disable");
    reveal_strlit("features restore");
    reveal_strlit("cells get");
    reveal_strlit("modem restart");
    reveal_strlit("import preview");
    reveal_strlit("import apply");
    reveal_strlit("backup list");
    reveal_strlit("backup restore");
    reveal_strlit("config get");
    reveal_strlit("config set");
    let a = seq!['i', 'm', 'p', 'o', 'r', 't'];
    let b = seq!['a', 'p', 'p', 'l', 'y'];
    assert("import.apply"@ =~= a + seq!['.'] + b);
    lemma_base_of_dotted(a, b);
    reveal_strlit(" ");
    assert(a + " "@ + b =~= "import apply"@);
    assert("import apply"@[0] != "bandlock get"@[0]);
    assert("import apply"@[0] != "bandlock set"@[0]);
}

proof fn lemma_route_14()
    ensures
        route_of(command_base_text("backup.list"@)) == Some(Route::BackupList),
{
    reveal_strlit("backup.list");
    reveal_strlit("probe");
    reveal_strlit("nv read");
    reveal_strlit("nv write");
    reveal_strlit("nv delete");
    reveal_strlit("bandlock get");
    reveal_strlit("bandlock set");
    reveal_strlit("bandlock detect");
    reveal_strlit("features check");
    reveal_strlit("features disable");
    reveal_strlit("features restore");
    reveal_strlit("cells get");
    reveal_strlit("modem restart");
    reveal_strlit("import preview");
    reveal_strlit("import apply");
    reveal_strlit("backup list");
    reveal_strlit("backup restore");
    reveal_strlit("config get");
    reveal_strlit("config set");
    let a = seq!['b', 'a', 'c', 'k', 'u', 'p'];
    let b = seq!['l', 'i', 's', 't'];
    assert("backup.list"@ =~= a + seq!['.'] + b);
    lemma_base_of_dotted(a, b);
    reveal_strlit(" ");
    assert(a + " "@ + b =~= "backup list"@);
}

proof fn lemma_route_15()
    ensures
        route_of(command_base_text("backup.restore"@)) == Some(Route::BackupRestore),
{
    reveal_strlit("backup.restore");
    reveal_strlit("probe");
    reveal_strlit("nv read");
    reveal_strlit("nv write");
    reveal_strlit("nv delete");
    reveal_strlit("bandlock get");
    reveal_strlit("bandlock set");
    reveal_strlit("bandlock detect");
    reveal_strlit("features check");
    reveal_strlit("features disable");
    reveal_strlit("features restore");
    reveal_strlit("cells get");
    reveal_strlit("modem restart");
    reveal_strlit("import preview");
    reveal_strlit("import apply");
    reveal_strlit("backup list");
    reveal_strlit("backup restore");
    reveal_strlit("config get");
    reveal_strlit("config set");
    let a = seq!['b', 'a', 'c', 'k', 'u', 'p'];
    let b = seq!['r', 'e', 's', 't', 'o', 'r', 'e'];
    assert("backup.restore"@ =~= a + seq!['.'] + b);
    lemma_base_of_dotted(a, b);
    reveal_strlit(" ");
    assert(a + " "@ + b =~= "backup restore"@);
    assert("backup restore"@[0] != "features check"@[0]);
    assert("backup restore"@[0] != "import preview"@[0]);
}

proof fn lemma_route_16()
    ensures
        route_of(command_base_text("config.get"@)) == Some(Route::ConfigGet),
{
    reveal_strlit("config.get");
    reveal_strlit("probe");
    reveal_strlit("nv read");
    reveal_strlit("nv write");
    reveal_strlit("nv delete");
    reveal_strlit("bandlock get");
    reveal_strlit("bandlock set");
    reveal_strlit("bandlock detect");
    reveal_strlit("features check");
    reveal_strlit("features disable");
    reveal_strlit("features restore");
    reveal_strlit("cells get");
    reveal_strlit("modem restart");
    reveal_strlit("import preview");
    reveal_strlit("import apply");
    reveal_strlit("backup list");
    reveal_strlit("backup restore");
    reveal_strlit("config get");
    reveal_strlit("config set");
    let a = seq!['c', 'o', 'n', 'f', 'i', 'g'];
    let b = seq!['g', 'e', 't'];
    assert("config.get"@ =~= a + seq!['.'] + b);
    lemma_base_of_dotted(a, b);
    reveal_strlit(" ");
    assert(a + " "@ + b =~= "config get"@);
}

proof fn lemma_route_17()
    ensures
        route_of(command_base_text("config.set"@)) == Some(Route::ConfigSet),
{
    reveal_strlit("config.set");
    reveal_strlit("probe");
    reveal_strlit("nv read");
    reveal_strlit("nv write");
    reveal_strlit("nv delete");
    reveal_strlit("bandlock get");
    reveal_strlit("bandlock set");
    reveal_strlit("bandlock detect");
    reveal_strlit("features check");
    reveal_strlit("features disable");
    reveal_strlit("features restore");
    reveal_strlit("cells get");
    reveal_strlit("modem restart");
    reveal_strlit("import preview");
    reveal_strlit("import apply");
    reveal_strlit("backup list");
    reveal_strlit("backup restore");
    reveal_strlit("config get");
    reveal_strlit("config set");
    let a = seq!['c', 'o', 'n', 'f', 'i', 'g'];
    let b = seq!['s', 'e', 't'];
    assert("config.set"@ =~= a + seq!['.'] + b);
    lemma_base_of_dotted(a, b);
    reveal_strlit(" ");
    assert(a + " "@ + b =~= "config set"@);
    assert("config set"@[7] != "config get"@[7]);
}

/// Each allowlisted method reaches the handler of its own name.
pub proof fn law_methods_reach_their_handlers(i: int)
    requires
        0 <= i < 18,
    ensures
        route_of(command_base_text(ALLOWED_METHODS@[i]@)) matches Some(r) && route_name(r) == ALLOWED_METHODS@[i]@,
{
    reveal_strlit("probe");
    reveal_strlit("nv.read");
    reveal_strlit("nv.write");
    reveal_strlit("nv.delete");
    reveal_strlit("bandlock.get");
    reveal_strlit("bandlock.set");
    reveal_strlit("bandlock.detect");
    reveal_strlit("features.check");
    reveal_strlit("features.disable");
    reveal_strlit("features.restore");
    reveal_strlit("cells.get");
    reveal_strlit("modem.restart");
    reveal_strlit("import.preview");
    reveal_strlit("import.apply");
    reveal_strlit("backup.list");
    reveal_strlit("backup.restore");
    reveal_strlit("config.get");
    reveal_strlit("config.set");
    assert(i == 0 || i == 1 || i == 2 || i == 3 || i == 4 || i == 5 || i == 6 || i == 7 || i == 8
        || i == 9 || i == 10 || i == 11 || i == 12 || i == 13 || i == 14 || i == 15 || i == 16
        || i == 17);
    if i == 0 {
        lemma_route_0();
    } else if i == 1 {
        lemma_route_1();
    } else if i == 2 {
        lemma_route_2();
    } else if i == 3 {
        lemma_route_3();
    } else if i == 4 {
        lemma_route_4();
    } else if i == 5 {
        lemma_route_5();
    } else if i == 6 {
        lemma_route_6();
    } else if i == 7 {
        lemma_route_7();
    } else if i == 8 {
        lemma_route_8();
    } else if i == 9 {
        lemma_route_9();
    } else if i == 10 {
        lemma_route_10();
    } else if i == 11 {
        lemma_route_11();
    } else if i == 12 {
        lemma_route_12();
    } else if i == 13 {
        lemma_route_13();
    } else if i == 14 {
        lemma_route_14();
    } else if i == 15 {
        lemma_route_15();
    } else if i == 16 {
        lemma_route_16();
    } else if i == 17 {
        lemma_route_17();
    }
}

/// No two allowlisted methods reach the same handler.
pub proof fn law_route_injective_on_allowlist(m1: Seq<char>, m2: Seq<char>)
    requires
        method_allowed(m1),
        method_allowed(m2),
        route_of(command_base_text(m1)) == route_of(command_base_text(m2)),
    ensures
        m1 == m2,
{
    let i = choose|i: int| 0 <= i < 18 && (#[trigger] ALLOWED_METHODS@[i])@ == m1;
    let j = choose|j: int| 0 <= j < 18 && (#[trigger] ALLOWED_METHODS@[j])@ == m2;
    law_methods_reach_their_handlers(i);
    law_methods_reach_their_handlers(j);
}

} // verus!
