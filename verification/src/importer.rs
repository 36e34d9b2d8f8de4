//! Batch imports: a JSON document of NV writes and deletes per SIM slot,
//! validated into a list of commands before anything touches the modem.
use vstd::prelude::*;
use crate::json::{get_member, json_entries_view, json_text_value, json_view, lemma_object_view,
    member_str, parse_json_text, Json, JsonModel};
use crate::text::{chars_of, push_chars, str_eq, string_from_str, string_push_str};
use crate::util::{ascii_lower, hex_text_error, nv_path_allowed, nv_path_clean, unclean_path_message,
    unprefixed_path_message, validate_hex, validate_nv_path};

verus! {

/// One NV operation of an import: `op` is `"w"` (write `bytes`, lowercase
/// hex) or `"d"` (delete).
#[derive(Debug, Clone, PartialEq)]
pub struct ParsedImportCommand {
    pub slot: i32,
    pub op: String,
    pub path: String,
    pub bytes: Option<String>,
}

pub type ImportCmd = (int, Seq<char>, Seq<char>, Option<Seq<char>>);

impl View for ParsedImportCommand {
    type V = ImportCmd;

    open spec fn view(&self) -> ImportCmd {
        (
            self.slot as int,
            self.op@,
            self.path@,
            match self.bytes {
                Some(b) => Some(b@),
                None => None,
            },
        )
    }
}

pub open spec fn cmds_view(v: Seq<ParsedImportCommand>) -> Seq<ImportCmd> {
    Seq::new(v.len(), |i: int| v[i]@)
}

pub open spec fn path_error(full: Seq<char>) -> Seq<char> {
    if !nv_path_clean(full) {
        unclean_path_message()
    } else {
        unprefixed_path_message(full)
    }
}

/// One entry `{ "op": "w", "data": "<hex>" }` or `{ "op": "d" }` for the
/// file `name` under `prefix`.
pub open spec fn import_entry(slot: int, prefix: Seq<char>, name: Seq<char>, entry: JsonModel) -> Result<ImportCmd, Seq<char>> {
    match entry {
        JsonModel::Object(fields) => {
            let full = prefix + name;
            if !nv_path_allowed(full) {
                Err(path_error(full))
            } else {
                match member_str(fields, "op"@) {
                    None => Err("Missing or invalid 'op' for entry: "@ + full),
                    Some(op) => if op == "w"@ {
                        match member_str(fields, "data"@) {
                            None => Err("Missing 'data' string for write entry: "@ + full),
                            Some(data) => match hex_text_error(data) {
                                Some(m) => Err(m),
                                None => Ok((slot, "w"@, full, Some(ascii_lower(data)))),
                            },
                        }
                    } else if op == "d"@ {
                        Ok((slot, "d"@, full, None))
                    } else {
                        Err("Invalid op '"@ + op + "' for entry: "@ + full)
                    },
                }
            }
        },
        _ => Err("Expected object for entry: "@ + name),
    }
}

pub open spec fn import_files(slot: int, prefix: Seq<char>, files: Seq<(Seq<char>, JsonModel)>) -> Result<Seq<ImportCmd>, Seq<char>>
    decreases files.len(),
{
    if files.len() == 0 {
        Ok(Seq::empty())
    } else {
        match import_files(slot, prefix, files.drop_last()) {
            Err(e) => Err(e),
            Ok(acc) => match import_entry(slot, prefix, files.last().0, files.last().1) {
                Err(e) => Err(e),
                Ok(c) => Ok(acc.push(c)),
            },
        }
    }
}

pub open spec fn import_prefix(slot: int, prefix: Seq<char>, v: JsonModel) -> Result<Seq<ImportCmd>, Seq<char>> {
    match v {
        JsonModel::Object(files) => import_files(slot, prefix, files),
        _ => Err("Expected object for path prefix: "@ + prefix),
    }
}

pub open spec fn import_prefixes(slot: int, ps: Seq<(Seq<char>, JsonModel)>) -> Result<Seq<ImportCmd>, Seq<char>>
    decreases ps.len(),
{
    if ps.len() == 0 {
        Ok(Seq::empty())
    } else {
        match import_prefixes(slot, ps.drop_last()) {
            Err(e) => Err(e),
            Ok(acc) => match import_prefix(slot, ps.last().0, ps.last().1) {
                Err(e) => Err(e),
                Ok(cs) => Ok(acc + cs),
            },
        }
    }
}

pub open spec fn import_slots(slots: Seq<int>, ps: Seq<(Seq<char>, JsonModel)>) -> Result<Seq<ImportCmd>, Seq<char>>
    decreases slots.len(),
{
    if slots.len() == 0 {
        Ok(Seq::empty())
    } else {
        match import_slots(slots.drop_last(), ps) {
            Err(e) => Err(e),
            Ok(acc) => match import_prefixes(slots.last(), ps) {
                Err(e) => Err(e),
                Ok(cs) => Ok(acc + cs),
            },
        }
    }
}

/// The slots a top-level key stands for: `sim0`, `sim1`, or both (`dualsim`).
pub open spec fn slots_of(key: Seq<char>) -> Seq<int> {
    if key == "sim0"@ {
        seq![0]
    } else if key == "sim1"@ {
        seq![1]
    } else if key == "dualsim"@ {
        seq![0, 1]
    } else {
        Seq::empty()
    }
}

pub open spec fn slot_key_known(key: Seq<char>) -> bool {
    key == "sim0"@ || key == "sim1"@ || key == "dualsim"@
}

pub open spec fn import_slot_key(key: Seq<char>, v: JsonModel) -> Result<Seq<ImportCmd>, Seq<char>> {
    if !slot_key_known(key) {
        Ok(Seq::empty())
    } else {
        match v {
            JsonModel::Object(ps) => import_slots(slots_of(key), ps),
            _ => Err("Expected object for slot key: "@ + key),
        }
    }
}

pub open spec fn import_keys(es: Seq<(Seq<char>, JsonModel)>) -> Result<Seq<ImportCmd>, Seq<char>>
    decreases es.len(),
{
    if es.len() == 0 {
        Ok(Seq::empty())
    } else {
        match import_keys(es.drop_last()) {
            Err(e) => Err(e),
            Ok(acc) => match import_slot_key(es.last().0, es.last().1) {
                Err(e) => Err(e),
                Ok(cs) => Ok(acc + cs),
            },
        }
    }
}

/// The top-level keys that are not slot keys, in order.
pub open spec fn unknown_keys(es: Seq<(Seq<char>, JsonModel)>) -> Seq<Seq<char>>
    decreases es.len(),
{
    if es.len() == 0 {
        Seq::empty()
    } else if slot_key_known(es.last().0) {
        unknown_keys(es.drop_last())
    } else {
        unknown_keys(es.drop_last()).push(es.last().0)
    }
}

/// `ks` joined with `sep` between consecutive items.
pub open spec fn join(ks: Seq<Seq<char>>, sep: Seq<char>) -> Seq<char>
    decreases ks.len(),
{
    if ks.len() == 0 {
        Seq::empty()
    } else if ks.len() == 1 {
        ks[0]
    } else {
        join(ks.drop_last(), sep) + sep + ks.last()
    }
}

pub open spec fn max_import_entries() -> nat {
    200
}

/// The commands an import document describes, in the order its members are
/// read (slot key, then slot, then path prefix, then file), or the first thing wrong with it.
pub open spec fn import_document(root: JsonModel) -> Result<Seq<ImportCmd>, Seq<char>> {
    match root {
        JsonModel::Object(es) => if es.len() == 0 {
            Err("No sim slot key found in JSON"@)
        } else if unknown_keys(es).len() > 0 {
            Err("Unknown top-level key(s): "@ + join(unknown_keys(es), ", "@))
        } else {
            match import_keys(es) {
                Err(e) => Err(e),
                Ok(cs) => if cs.len() > max_import_entries() {
                    Err("Import payload exceeds maximum limit of 200 entries"@)
                } else {
                    Ok(cs)
                },
            }
        },
        _ => Err("JSON root must be an object"@),
    }
}


// ---------------------------------------------------------------------------
// Reading an import document
// ---------------------------------------------------------------------------

proof fn lemma_cmds_view_push(v: Seq<ParsedImportCommand>, c: ParsedImportCommand)
    ensures
        cmds_view(v.push(c)) == cmds_view(v).push(c@),
{
    assert(cmds_view(v.push(c)) =~= cmds_view(v).push(c@));
}

pub fn ascii_lower_exec(s: &str) -> (r: String)
    ensures
        r@ == ascii_lower(s@),
{
    let cs = chars_of(s);
    let mut out: Vec<char> = Vec::new();
    let mut i: usize = 0;
    while i < cs.len()
        invariant
            i <= cs@.len(),
            cs@ == s@,
            out@ == ascii_lower(s@).take(i as int),
        decreases cs@.len() - i,
    {
        let c = cs[i];
        if 'A' <= c && c <= 'Z' {
            out.push(((c as u32) + 32) as u8 as char);
        } else {
            out.push(c);
        }
        i = i + 1;
        assert(out@ =~= ascii_lower(s@).take(i as int));
    }
    assert(ascii_lower(s@).take(cs@.len() as int) == ascii_lower(s@));
    crate::text::string_from_chars(out.as_slice())
}

fn message_with(head: &str, tail: &str) -> (r: String)
    ensures
        r@ == head@ + tail@,
{
    let mut e = string_from_str(head);
    string_push_str(&mut e, tail);
    e
}

fn import_entry_exec(slot: i32, prefix: &str, name: &str, entry: &Json, out: &mut Vec<ParsedImportCommand>) -> (r: Result<(), String>)
    ensures
        match import_entry(slot as int, prefix@, name@, json_view(*entry)) {
            Err(m) => r matches Err(e) && e@ == m,
            Ok(c) => r is Ok && cmds_view(final(out)@) == cmds_view(old(out)@).push(c),
        },
{
    match entry {
        Json::Object(fields) => {
            proof {
                lemma_object_view(*fields);
            }
            let full = message_with(prefix, name);
            if let Err(e) = validate_nv_path(full.as_str()) {
                return Err(e);
            }
            let op = match get_member(fields, "op") {
                Some(Json::Str(s)) => s,
                _ => return Err(message_with("Missing or invalid 'op' for entry: ", full.as_str())),
            };
            if str_eq(op.as_str(), "w") {
                let data = match get_member(fields, "data") {
                    Some(Json::Str(s)) => s,
                    _ => return Err(message_with("Missing 'data' string for write entry: ", full.as_str())),
                };
                // A validated payload is at most 1024 hex digits, so at most
                // 512 bytes.
                if let Err(e) = validate_hex(data.as_str()) {
                    return Err(e);
                }
                let cmd = ParsedImportCommand {
                    slot,
                    op: string_from_str("w"),
                    path: full,
                    bytes: Some(ascii_lower_exec(data.as_str())),
                };
                proof {
                    lemma_cmds_view_push(out@, cmd);
                }
                out.push(cmd);
                Ok(())
            } else if str_eq(op.as_str(), "d") {
                let cmd = ParsedImportCommand { slot, op: string_from_str("d"), path: full, bytes: None };
                proof {
                    lemma_cmds_view_push(out@, cmd);
                }
                out.push(cmd);
                Ok(())
            } else {
                let mut e = string_from_str("Invalid op '");
                string_push_str(&mut e, op.as_str());
                string_push_str(&mut e, "' for entry: ");
                string_push_str(&mut e, full.as_str());
                Err(e)
            }
        },
        _ => Err(message_with("Expected object for entry: ", name)),
    }
}

proof fn lemma_files_err_sticks(slot: int, prefix: Seq<char>, fs: Seq<(Seq<char>, JsonModel)>, k: int)
    requires
        0 <= k <= fs.len(),
        import_files(slot, prefix, fs.take(k)) is Err,
    ensures
        import_files(slot, prefix, fs) == import_files(slot, prefix, fs.take(k)),
    decreases fs.len() - k,
{
    if k < fs.len() {
        assert(fs.take(k + 1).drop_last() == fs.take(k));
        lemma_files_err_sticks(slot, prefix, fs, k + 1);
    } else {
        assert(fs.take(k) == fs);
    }
}

fn import_files_exec(slot: i32, prefix: &str, files: &Vec<(String, Json)>, out: &mut Vec<ParsedImportCommand>) -> (r: Result<(), String>)
    ensures
        match import_files(slot as int, prefix@, json_entries_view(files@)) {
            Err(m) => r matches Err(e) && e@ == m,
            Ok(cs) => r is Ok && cmds_view(final(out)@) == cmds_view(old(out)@) + cs,
        },
{
    let ghost fv = json_entries_view(files@);
    let mut i: usize = 0;
    assert(cmds_view(out@) =~= cmds_view(old(out)@) + Seq::<ImportCmd>::empty());
    while i < files.len()
        invariant
            i <= files@.len(),
            fv == json_entries_view(files@),
            import_files(slot as int, prefix@, fv.take(i as int)) matches Ok(acc) && cmds_view(out@)
                == cmds_view(old(out)@) + acc,
        decreases files@.len() - i,
    {
        let ghost acc = import_files(slot as int, prefix@, fv.take(i as int))->Ok_0;
        assert(fv.take(i + 1).drop_last() == fv.take(i as int));
        assert(fv.take(i + 1).last() == (files@[i as int].0@, json_view(files@[i as int].1)));
        match import_entry_exec(slot, prefix, files[i].0.as_str(), &files[i].1, out) {
            Err(e) => {
                proof {
                    lemma_files_err_sticks(slot as int, prefix@, fv, i + 1);
                }
                return Err(e);
            },
            Ok(()) => {},
        }
        i = i + 1;
    }
    assert(fv.take(files@.len() as int) == fv);
    Ok(())
}

proof fn lemma_prefixes_err_sticks(slot: int, ps: Seq<(Seq<char>, JsonModel)>, k: int)
    requires
        0 <= k <= ps.len(),
        import_prefixes(slot, ps.take(k)) is Err,
    ensures
        import_prefixes(slot, ps) == import_prefixes(slot, ps.take(k)),
    decreases ps.len() - k,
{
    if k < ps.len() {
        assert(ps.take(k + 1).drop_last() == ps.take(k));
        lemma_prefixes_err_sticks(slot, ps, k + 1);
    } else {
        assert(ps.take(k) == ps);
    }
}

fn import_prefixes_exec(slot: i32, ps: &Vec<(String, Json)>, out: &mut Vec<ParsedImportCommand>) -> (r: Result<(), String>)
    ensures
        match import_prefixes(slot as int, json_entries_view(ps@)) {
            Err(m) => r matches Err(e) && e@ == m,
            Ok(cs) => r is Ok && cmds_view(final(out)@) == cmds_view(old(out)@) + cs,
        },
{
    let ghost pv = json_entries_view(ps@);
    let mut i: usize = 0;
    assert(cmds_view(out@) =~= cmds_view(old(out)@) + Seq::<ImportCmd>::empty());
    while i < ps.len()
        invariant
            i <= ps@.len(),
            pv == json_entries_view(ps@),
            import_prefixes(slot as int, pv.take(i as int)) matches Ok(acc) && cmds_view(out@)
                == cmds_view(old(out)@) + acc,
        decreases ps@.len() - i,
    {
        let ghost acc = import_prefixes(slot as int, pv.take(i as int))->Ok_0;
        let ghost mid = out@;
        assert(pv.take(i + 1).drop_last() == pv.take(i as int));
        assert(pv.take(i + 1).last() == (ps@[i as int].0@, json_view(ps@[i as int].1)));
        match &ps[i].1 {
            Json::Object(files) => {
                proof {
                    lemma_object_view(*files);
                }
                match import_files_exec(slot, ps[i].0.as_str(), files, out) {
                    Err(e) => {
                        proof {
                            lemma_prefixes_err_sticks(slot as int, pv, i + 1);
                        }
                        return Err(e);
                    },
                    Ok(()) => {
                        assert(cmds_view(out@) =~= cmds_view(old(out)@) + import_prefixes(slot as int, pv.take(i + 1))->Ok_0);
                    },
                }
            },
            _ => {
                proof {
                    lemma_prefixes_err_sticks(slot as int, pv, i + 1);
                }
                return Err(message_with("Expected object for path prefix: ", ps[i].0.as_str()));
            },
        }
        i = i + 1;
    }
    assert(pv.take(ps@.len() as int) == pv);
    Ok(())
}


proof fn lemma_slots_err_sticks(slots: Seq<int>, ps: Seq<(Seq<char>, JsonModel)>, k: int)
    requires
        0 <= k <= slots.len(),
        import_slots(slots.take(k), ps) is Err,
    ensures
        import_slots(slots, ps) == import_slots(slots.take(k), ps),
    decreases slots.len() - k,
{
    if k < slots.len() {
        assert(slots.take(k + 1).drop_last() == slots.take(k));
        lemma_slots_err_sticks(slots, ps, k + 1);
    } else {
        assert(slots.take(k) == slots);
    }
}

fn import_slots_exec(slots: &[i32], ps: &Vec<(String, Json)>, out: &mut Vec<ParsedImportCommand>) -> (r: Result<(), String>)
    ensures
        match import_slots(Seq::new(slots@.len(), |i: int| slots@[i] as int), json_entries_view(ps@)) {
            Err(m) => r matches Err(e) && e@ == m,
            Ok(cs) => r is Ok && cmds_view(final(out)@) == cmds_view(old(out)@) + cs,
        },
{
    let ghost sv = Seq::new(slots@.len(), |i: int| slots@[i] as int);
    let ghost pv = json_entries_view(ps@);
    let mut i: usize = 0;
    assert(cmds_view(out@) =~= cmds_view(old(out)@) + Seq::<ImportCmd>::empty());
    while i < slots.len()
        invariant
            i <= slots@.len(),
            sv == Seq::new(slots@.len(), |i: int| slots@[i] as int),
            pv == json_entries_view(ps@),
            import_slots(sv.take(i as int), pv) matches Ok(acc) && cmds_view(out@) == cmds_view(old(out)@) + acc,
        decreases slots@.len() - i,
    {
        assert(sv.take(i + 1).drop_last() == sv.take(i as int));
        assert(sv.take(i + 1).last() == slots@[i as int] as int);
        match import_prefixes_exec(slots[i], ps, out) {
            Err(e) => {
                proof {
                    lemma_slots_err_sticks(sv, pv, i + 1);
                }
                return Err(e);
            },
            Ok(()) => {
                assert(cmds_view(out@) =~= cmds_view(old(out)@) + import_slots(sv.take(i + 1), pv)->Ok_0);
            },
        }
        i = i + 1;
    }
    assert(sv.take(slots@.len() as int) == sv);
    Ok(())
}

fn import_slot_key_exec(key: &str, v: &Json, out: &mut Vec<ParsedImportCommand>) -> (r: Result<(), String>)
    ensures
        match import_slot_key(key@, json_view(*v)) {
            Err(m) => r matches Err(e) && e@ == m,
            Ok(cs) => r is Ok && cmds_view(final(out)@) == cmds_view(old(out)@) + cs,
        },
{
    let slots: Vec<i32> = if str_eq(key, "sim0") {
        vec![0]
    } else if str_eq(key, "sim1") {
        vec![1]
    } else if str_eq(key, "dualsim") {
        vec![0, 1]
    } else {
        assert(cmds_view(out@) =~= cmds_view(old(out)@) + Seq::<ImportCmd>::empty());
        return Ok(());
    };
    assert(Seq::new(slots@.len(), |i: int| slots@[i] as int) =~= slots_of(key@));
    match v {
        Json::Object(ps) => {
            proof {
                lemma_object_view(*ps);
            }
            import_slots_exec(slots.as_slice(), ps, out)
        },
        _ => Err(message_with("Expected object for slot key: ", key)),
    }
}

proof fn lemma_keys_err_sticks(es: Seq<(Seq<char>, JsonModel)>, k: int)
    requires
        0 <= k <= es.len(),
        import_keys(es.take(k)) is Err,
    ensures
        import_keys(es) == import_keys(es.take(k)),
    decreases es.len() - k,
{
    if k < es.len() {
        assert(es.take(k + 1).drop_last() == es.take(k));
        lemma_keys_err_sticks(es, k + 1);
    } else {
        assert(es.take(k) == es);
    }
}

fn unknown_keys_message(es: &Vec<(String, Json)>) -> (r: Option<String>)
    ensures
        unknown_keys(json_entries_view(es@)).len() == 0 ==> r is None,
        unknown_keys(json_entries_view(es@)).len() > 0 ==> (r matches Some(m) && m@
            == "Unknown top-level key(s): "@ + join(unknown_keys(json_entries_view(es@)), ", "@)),
{
    let ghost ev = json_entries_view(es@);
    let mut names = String::new();
    let mut count: usize = 0;
    let mut i: usize = 0;
    while i < es.len()
        invariant
            i <= es@.len(),
            ev == json_entries_view(es@),
            count == unknown_keys(ev.take(i as int)).len(),
            count <= i,
            names@ == join(unknown_keys(ev.take(i as int)), ", "@),
        decreases es@.len() - i,
    {
        assert(ev.take(i + 1).drop_last() == ev.take(i as int));
        assert(ev.take(i + 1).last().0 == es@[i as int].0@);
        let k = es[i].0.as_str();
        if !(str_eq(k, "sim0") || str_eq(k, "sim1") || str_eq(k, "dualsim")) {
            let ghost u = unknown_keys(ev.take(i as int));
            assert(unknown_keys(ev.take(i + 1)) == u.push(k@));
            assert(u.push(k@).drop_last() == u);
            if count > 0 {
                string_push_str(&mut names, ", ");
            } else {
                assert(names@ == Seq::<char>::empty());
                assert(join(u.push(k@), ", "@) == k@);
            }
            string_push_str(&mut names, k);
            count = count + 1;
        }
        i = i + 1;
    }
    assert(ev.take(es@.len() as int) == ev);
    if count == 0 {
        None
    } else {
        Some(message_with("Unknown top-level key(s): ", names.as_str()))
    }
}

/// Reads an import document: `{"sim0" | "sim1" | "dualsim": {<path prefix>:
/// {<file>: {"op": "w", "data": "<hex>"} | {"op": "d"}}}}`.
pub fn parse_import_json(json_str: &str) -> (res: Result<Vec<ParsedImportCommand>, String>)
    ensures
        match json_text_value(json_str@) {
            None => res matches Err(e) && crate::text::starts_with(e@, "Malformed JSON: "@),
            Some(root) => match import_document(root) {
                Ok(cs) => res matches Ok(v) && cmds_view(v@) == cs,
                Err(m) => res matches Err(e) && e@ == m,
            },
        },
{
    let root = match parse_json_text(json_str) {
        Ok(j) => j,
        Err(e) => {
            let m = message_with("Malformed JSON: ", e.as_str());
            assert(m@.subrange(0, "Malformed JSON: "@.len() as int) =~= "Malformed JSON: "@);
            return Err(m);
        },
    };
    import_commands(&root)
}

/// The commands of an import document already read as JSON.
pub fn import_commands(root: &Json) -> (res: Result<Vec<ParsedImportCommand>, String>)
    ensures
        match import_document(json_view(*root)) {
            Ok(cs) => res matches Ok(v) && cmds_view(v@) == cs,
            Err(m) => res matches Err(e) && e@ == m,
        },
{
    let es = match root {
        Json::Object(es) => es,
        _ => return Err(string_from_str("JSON root must be an object")),
    };
    proof {
        lemma_object_view(*es);
    }
    if es.len() == 0 {
        return Err(string_from_str("No sim slot key found in JSON"));
    }
    if let Some(m) = unknown_keys_message(es) {
        return Err(m);
    }
    let ghost ev = json_entries_view(es@);
    let mut out: Vec<ParsedImportCommand> = Vec::new();
    let mut i: usize = 0;
    assert(cmds_view(out@) =~= Seq::<ImportCmd>::empty());
    while i < es.len()
        invariant
            i <= es@.len(),
            ev == json_entries_view(es@),
            json_view(*root) == JsonModel::Object(ev),
            ev.len() > 0,
            unknown_keys(ev).len() == 0,
            import_keys(ev.take(i as int)) matches Ok(acc) && cmds_view(out@) == acc,
        decreases es@.len() - i,
    {
        assert(ev.take(i + 1).drop_last() == ev.take(i as int));
        assert(ev.take(i + 1).last() == (es@[i as int].0@, json_view(es@[i as int].1)));
        match import_slot_key_exec(es[i].0.as_str(), &es[i].1, &mut out) {
            Err(e) => {
                proof {
                    lemma_keys_err_sticks(ev, i + 1);
                }
                return Err(e);
            },
            Ok(()) => {},
        }
        i = i + 1;
    }
    assert(ev.take(es@.len() as int) == ev);
    if out.len() > 200 {
        return Err(string_from_str("Import payload exceeds maximum limit of 200 entries"));
    }
    Ok(out)
}

// ---------------------------------------------------------------------------
// Laws
// ---------------------------------------------------------------------------

/// A command an import may carry out: slot 0 or 1, a path on the allowlist,
/// and either a write of valid hex or a delete.
pub open spec fn import_cmd_ok(c: ImportCmd) -> bool {
    &&& (c.0 == 0 || c.0 == 1)
    &&& nv_path_allowed(c.2)
    &&& match c.3 {
        Some(h) => c.1 == "w"@ && hex_text_error(h) is None,
        None => c.1 == "d"@,
    }
}

pub open spec fn all_import_cmds_ok(cs: Seq<ImportCmd>) -> bool {
    forall|i: int| 0 <= i < cs.len() ==> import_cmd_ok(#[trigger] cs[i])
}

proof fn lemma_all_ok_push(cs: Seq<ImportCmd>, c: ImportCmd)
    requires
        all_import_cmds_ok(cs),
        import_cmd_ok(c),
    ensures
        all_import_cmds_ok(cs.push(c)),
{
    assert forall|i: int| 0 <= i < cs.push(c).len() implies import_cmd_ok(#[trigger] cs.push(c)[i]) by {
        if i < cs.len() {
            assert(cs.push(c)[i] == cs[i]);
        }
    }
}

proof fn lemma_all_ok_concat(a: Seq<ImportCmd>, b: Seq<ImportCmd>)
    requires
        all_import_cmds_ok(a),
        all_import_cmds_ok(b),
    ensures
        all_import_cmds_ok(a + b),
{
    assert forall|i: int| 0 <= i < (a + b).len() implies import_cmd_ok(#[trigger] (a + b)[i]) by {
        if i < a.len() {
            assert((a + b)[i] == a[i]);
        } else {
            assert((a + b)[i] == b[i - a.len()]);
        }
    }
}

/// Lowercasing a valid hex text keeps it valid.
proof fn lemma_lower_hex_ok(h: Seq<char>)
    requires
        hex_text_error(h) is None,
    ensures
        hex_text_error(ascii_lower(h)) is None,
{
    let l = ascii_lower(h);
    assert forall|i: int| 0 <= i < l.len() implies crate::text::is_hex_digit(#[trigger] l[i]) by {
        assert(crate::text::is_hex_digit(h[i]));
        if 'A' <= h[i] && h[i] <= 'F' {
            assert((((h[i] as u32) + 32) as char) as int == h[i] as int + 32);
        }
    }
    crate::util::lemma_all_hex_utf8_len(h);
    crate::util::lemma_all_hex_utf8_len(l);
}

proof fn lemma_files_ok(slot: int, prefix: Seq<char>, fs: Seq<(Seq<char>, JsonModel)>)
    requires
        slot == 0 || slot == 1,
    ensures
        import_files(slot, prefix, fs) matches Ok(cs) ==> all_import_cmds_ok(cs),
    decreases fs.len(),
{
    if fs.len() > 0 {
        lemma_files_ok(slot, prefix, fs.drop_last());
        if let Ok(acc) = import_files(slot, prefix, fs.drop_last()) {
            if let Ok(c) = import_entry(slot, prefix, fs.last().0, fs.last().1) {
                if let JsonModel::Object(fields) = fs.last().1 {
                    if let Some(data) = member_str(fields, "data"@) {
                        if hex_text_error(data) is None {
                            lemma_lower_hex_ok(data);
                        }
                    }
                }
                lemma_all_ok_push(acc, c);
            }
        }
    }
}

proof fn lemma_prefixes_ok(slot: int, ps: Seq<(Seq<char>, JsonModel)>)
    requires
        slot == 0 || slot == 1,
    ensures
        import_prefixes(slot, ps) matches Ok(cs) ==> all_import_cmds_ok(cs),
    decreases ps.len(),
{
    if ps.len() > 0 {
        lemma_prefixes_ok(slot, ps.drop_last());
        if let JsonModel::Object(files) = ps.last().1 {
            lemma_files_ok(slot, ps.last().0, files);
        }
        if let Ok(acc) = import_prefixes(slot, ps.drop_last()) {
            if let Ok(cs) = import_prefix(slot, ps.last().0, ps.last().1) {
                lemma_all_ok_concat(acc, cs);
            }
        }
    }
}

proof fn lemma_slots_ok(slots: Seq<int>, ps: Seq<(Seq<char>, JsonModel)>)
    requires
        forall|i: int| 0 <= i < slots.len() ==> (#[trigger] slots[i] == 0 || slots[i] == 1),
    ensures
        import_slots(slots, ps) matches Ok(cs) ==> all_import_cmds_ok(cs),
    decreases slots.len(),
{
    if slots.len() > 0 {
        assert forall|i: int| 0 <= i < slots.drop_last().len() implies (#[trigger] slots.drop_last()[i] == 0
            || slots.drop_last()[i] == 1) by {
            assert(slots.drop_last()[i] == slots[i]);
        }
        lemma_slots_ok(slots.drop_last(), ps);
        assert(slots.last() == slots[slots.len() - 1]);
        lemma_prefixes_ok(slots.last(), ps);
        if let Ok(acc) = import_slots(slots.drop_last(), ps) {
            if let Ok(cs) = import_prefixes(slots.last(), ps) {
                lemma_all_ok_concat(acc, cs);
            }
        }
    }
}

proof fn lemma_keys_ok(es: Seq<(Seq<char>, JsonModel)>)
    ensures
        import_keys(es) matches Ok(cs) ==> all_import_cmds_ok(cs),
    decreases es.len(),
{
    if es.len() > 0 {
        lemma_keys_ok(es.drop_last());
        let key = es.last().0;
        let sl = slots_of(key);
        assert forall|i: int| 0 <= i < sl.len() implies (#[trigger] sl[i] == 0 || sl[i] == 1) by {}
        if let JsonModel::Object(ps) = es.last().1 {
            lemma_slots_ok(sl, ps);
        }
        if let Ok(acc) = import_keys(es.drop_last()) {
            if let Ok(cs) = import_slot_key(key, es.last().1) {
                lemma_all_ok_concat(acc, cs);
            }
        }
    }
}

/// Everything an accepted import document asks for may be carried out: at
/// most 200 commands, each on slot 0 or 1 and an allowlisted path, each a
/// write of valid hex or a delete.
pub proof fn law_import_commands_are_valid(root: JsonModel)
    ensures
        import_document(root) matches Ok(cs) ==> cs.len() <= max_import_entries() && all_import_cmds_ok(cs),
{
    if let JsonModel::Object(es) = root {
        lemma_keys_ok(es);
    }
}

} // verus!
