use mtbctl::importer::parse_import_json;
use mtbctl::rpc::{decode_base64url, parse_rpc_request};
use mtbctl::util::{parse_efs_read_output, parse_space_dec, EfsRead};

fn b64(data: &[u8]) -> String {
    const T: &[u8; 64] = b"ABCDEFGHIJKLMNOPQRSTUVWXYZabcdefghijklmnopqrstuvwxyz0123456789-_";
    let mut out = String::new();
    for chunk in data.chunks(3) {
        let n = chunk.len();
        let mut v: u32 = (chunk[0] as u32) << 16;
        if n > 1 {
            v |= (chunk[1] as u32) << 8;
        }
        if n > 2 {
            v |= chunk[2] as u32;
        }
        out.push(T[(v >> 18) as usize & 63] as char);
        out.push(T[(v >> 12) as usize & 63] as char);
        if n > 1 {
            out.push(T[(v >> 6) as usize & 63] as char);
        }
        if n > 2 {
            out.push(T[v as usize & 63] as char);
        }
    }
    out
}

#[test]
fn efs_read_errors() {
    let no_len = "mtb: [mtb][cpp:179] xiaomi_nvefs_test_efs_read:  01";
    assert_eq!(
        parse_efs_read_output(0, no_len),
        EfsRead::Error("efs read output has no declared data length".to_string())
    );
    let short = "RIL[xc:176] xiaomi_nvefs_test_efs_read: data len(3)\nRIL[xc:179] xiaomi_nvefs_test_efs_read:  01";
    assert_eq!(
        parse_efs_read_output(0, short),
        EfsRead::Error("efs read truncated: declared 3 bytes, got mtb=0 ril=1".to_string())
    );
    assert_eq!(parse_efs_read_output(-1, ""), EfsRead::Error("exit -1".to_string()));
    assert_eq!(
        parse_efs_read_output(0, "x: qmi response fail"),
        EfsRead::Error("qmi read failure reported by mtb".to_string())
    );
}

#[test]
fn space_dec_errors() {
    assert_eq!(parse_space_dec(" 0  1\t255 ").unwrap(), vec![0, 1, 255]);
    assert_eq!(parse_space_dec("1 256").unwrap_err(), "Invalid byte in space-dec string: '256'");
    assert_eq!(parse_space_dec("1 -1").unwrap_err(), "Invalid byte in space-dec string: '-1'");
    assert_eq!(parse_space_dec("").unwrap(), Vec::<u8>::new());
}

#[test]
fn import_errors() {
    assert_eq!(parse_import_json("[]").unwrap_err(), "JSON root must be an object");
    assert_eq!(parse_import_json("{}").unwrap_err(), "No sim slot key found in JSON");
    assert_eq!(
        parse_import_json(r#"{"a": {}, "sim0": {}, "b": 1}"#).unwrap_err(),
        "Unknown top-level key(s): a, b"
    );
    assert_eq!(parse_import_json(r#"{"sim1": 3}"#).unwrap_err(), "Expected object for slot key: sim1");
    assert_eq!(
        parse_import_json(r#"{"sim0": {"/nv/item_files/modem/mmode/": 1}}"#).unwrap_err(),
        "Expected object for path prefix: /nv/item_files/modem/mmode/"
    );
    assert_eq!(
        parse_import_json(r#"{"sim0": {"/nv/item_files/modem/mmode/": {"x": 1}}}"#).unwrap_err(),
        "Expected object for entry: x"
    );
    assert_eq!(
        parse_import_json(r#"{"sim0": {"/etc/": {"x": {"op": "d"}}}}"#).unwrap_err(),
        "Path '/etc/x' does not match allowed NV prefixes"
    );
    assert_eq!(
        parse_import_json(r#"{"sim0": {"/nv/item_files/modem/mmode/": {"x": {}}}}"#).unwrap_err(),
        "Missing or invalid 'op' for entry: /nv/item_files/modem/mmode/x"
    );
    assert_eq!(
        parse_import_json(r#"{"sim0": {"/nv/item_files/modem/mmode/": {"x": {"op": "w"}}}}"#).unwrap_err(),
        "Missing 'data' string for write entry: /nv/item_files/modem/mmode/x"
    );
    assert_eq!(
        parse_import_json(r#"{"sim0": {"/nv/item_files/modem/mmode/": {"x": {"op": "r"}}}}"#).unwrap_err(),
        "Invalid op 'r' for entry: /nv/item_files/modem/mmode/x"
    );
    assert!(parse_import_json("{").is_err());

    let dual = parse_import_json(r#"{"dualsim": {"/nv/item_files/modem/mmode/": {"x": {"op": "w", "data": "AB"}}}}"#)
        .unwrap();
    assert_eq!(dual.len(), 2);
    assert_eq!((dual[0].slot, dual[1].slot), (0, 1));
    assert_eq!(dual[0].bytes, Some("ab".to_string()));

    let mut many = String::from(r#"{"dualsim": {"/nv/item_files/modem/mmode/": {"#);
    for i in 0..101 {
        if i > 0 {
            many.push(',');
        }
        many.push_str(&format!(r#""f{}": {{"op": "d"}}"#, i));
    }
    many.push_str("}}}");
    assert_eq!(parse_import_json(&many).unwrap_err(), "Import payload exceeds maximum limit of 200 entries");
}

#[test]
fn rpc_errors() {
    assert!(parse_rpc_request(&b64(b"{")).unwrap_err().starts_with("rpc payload is not JSON: "));
    assert_eq!(parse_rpc_request(&b64(b"[]")).unwrap_err(), "Unknown RPC method: ");
    assert_eq!(
        parse_rpc_request(&b64(br#"{"method":"probe","params":[]}"#)).unwrap_err(),
        "rpc params must be an object"
    );
    let ok = parse_rpc_request(&b64(br#"{"method":"probe"}"#)).unwrap();
    assert_eq!(ok.method, "probe");
    let big = vec![b' '; 65537];
    assert_eq!(parse_rpc_request(&b64(&big)).unwrap_err(), "rpc payload exceeds 64 KiB limit");
    assert_eq!(
        parse_rpc_request("Zh").unwrap_err(),
        "rpc decode: invalid base64url: nonzero trailing bits"
    );
}

#[test]
fn base64url_roundtrip_with_and_without_padding() {
    for n in 0..10usize {
        let data: Vec<u8> = (0..n).map(|i| (i * 37 + 250) as u8).collect();
        let text = b64(&data);
        assert_eq!(decode_base64url(&text).unwrap(), data);
        for k in 1..4 {
            assert_eq!(decode_base64url(&format!("{}{}", text, "=".repeat(k))).unwrap(), data);
        }
    }
    // a character outside the alphabet before any '=' is refused; after it, ignored
    assert!(decode_base64url("Zm9v*g").is_err());
    assert_eq!(decode_base64url("Zm9v=*").unwrap(), b"foo".to_vec());
    assert_eq!(decode_base64url("Zh").unwrap_err(), "invalid base64url: nonzero trailing bits");
}
