use index_harvest::extract::{collect_hashes, find_string_by_key};
use index_harvest::json::parse_document;
use serde_json::Value;
use index_harvest::registry::{
    address_hex, chain_mapping, name_of_chain, registry_entries_of, ChainItem, RegistryReading,
};
use index_harvest::text::{decimal_string, ends_with, is_hash_shaped, starts_with, str_less};
use index_harvest::error::HarvestError;

fn s(x: &str) -> String {
    x.to_string()
}

fn obj(members: Vec<(&str, Value)>) -> Value {
    let mut m = serde_json::Map::new();
    for (k, v) in members {
        m.insert(k.to_string(), v);
    }
    Value::Object(m)
}

fn st(x: &str) -> Value {
    Value::String(x.to_string())
}

#[test]
fn key_match_extraction() {
    let h1 = format!("0x{}", "a".repeat(64));
    let h2 = format!("0x{}", "b".repeat(64));
    let doc = obj(vec![
        ("a", obj(vec![("bytecode_hash_hex", st(&h1))])),
        ("list", Value::Array(vec![obj(vec![("params_hex", st(&h2))])])),
    ]);
    assert_eq!(find_string_by_key(&doc, &s("bytecode_hash_hex")), Some(h1));
    assert_eq!(find_string_by_key(&doc, &s("params_hex")), Some(h2));
    assert_eq!(find_string_by_key(&doc, &s("missing")), None);
}

#[test]
fn key_match_skips_non_string_and_takes_first() {
    let doc = obj(vec![
        ("k", obj(vec![("k", st("inner"))])),
        ("later", obj(vec![("k", st("second"))])),
    ]);
    assert_eq!(find_string_by_key(&doc, &s("k")), Some(s("inner")));
}

#[test]
fn pattern_match_paths() {
    let h = format!("0x{}", "f".repeat(64));
    let doc = obj(vec![
        ("a", Value::Array(vec![st(&h), obj(vec![("b", st(&h))]), st("0x1234")])),
        ("c", st(&h)),
        ("n", Value::Null),
    ]);
    let mut out = Vec::new();
    collect_hashes(&s(""), &doc, &mut out);
    let paths: Vec<String> = out.iter().map(|p| p.0.clone()).collect();
    assert_eq!(paths, vec![s("a[0]"), s("a[1].b"), s("c")]);
    let mut out2 = Vec::new();
    collect_hashes(&s("dir"), &doc, &mut out2);
    assert_eq!(out2[1].0, "dir.a[1].b");
}

#[test]
fn hash_shape_rejection() {
    assert!(!is_hash_shaped("0x1234"));
    assert!(!is_hash_shaped(&"1234".repeat(16)));
    assert!(!is_hash_shaped(&format!("12{}", "a".repeat(64))));
    assert!(!is_hash_shaped(&format!("0x{}", "g".repeat(64))));
    assert!(!is_hash_shaped(&format!("0x{}", "a".repeat(65))));
    assert!(is_hash_shaped(&format!("0x{}", "aB3".repeat(21) + "0")));
}

#[test]
fn hash_shape_agrees_with_regex() {
    let re = regex::Regex::new(r"^0x[0-9a-fA-F]{64}$").unwrap();
    let samples = vec![
        format!("0x{}", "a".repeat(64)),
        format!("0x{}", "A".repeat(64)),
        format!("0X{}", "a".repeat(64)),
        format!("0x{}", "a".repeat(63)),
        format!("0x{}\n", "a".repeat(64)),
        format!(" 0x{}", "a".repeat(64)),
        s("0x1234"),
        s(""),
    ];
    for x in samples {
        assert_eq!(is_hash_shaped(&x), re.is_match(&x), "{x:?}");
    }
}

#[test]
fn parse_document_keeps_structure() {
    let doc = parse_document(&s("{\"b\":[1,true,null,\"x\"],\"a\":{\"c\":\"y\"}}")).unwrap();
    let b = doc.get("b").and_then(|b| b.as_array()).unwrap();
    assert_eq!(b.len(), 4);
    assert_eq!(b[0].as_u64(), Some(1));
    assert_eq!(b[1].as_bool(), Some(true));
    assert!(b[2].is_null());
    assert_eq!(find_string_by_key(&doc, &s("c")), Some(s("y")));
    assert_eq!(find_string_by_key(&doc, &s("b")), None);
    assert_eq!(parse_document(&s("[1,")).err(), Some(HarvestError::ParseFailure));
}

#[test]
fn text_helpers() {
    assert_eq!(decimal_string(0), "0");
    assert_eq!(decimal_string(7), "7");
    assert_eq!(decimal_string(1024), "1024");
    assert!(str_less("a", "b"));
    assert!(str_less("a", "ab"));
    assert!(!str_less("ab", "ab"));
    assert!(str_less("B", "a"));
    assert!(starts_with("v1.0", "v"));
    assert!(!starts_with("beta", "v"));
    assert!(ends_with("x.json", ".json"));
    assert!(!ends_with("json", ".json"));
}

fn addr(last: u8) -> [u8; 20] {
    let mut a = [0u8; 20];
    a[17] = 0x01;
    a[19] = last;
    a
}

#[test]
fn address_text() {
    assert_eq!(address_hex(&addr(2)), "0x0000000000000000000000000000000000010002");
    let mut b = [0u8; 20];
    b[0] = 0xab;
    b[19] = 0x0f;
    assert_eq!(address_hex(&b), "0xab0000000000000000000000000000000000000f");
}

#[test]
fn chain_names() {
    let mapping = vec![(s("1"), s("era")), (s("2"), s("x")), (s("1"), s("era2"))];
    assert_eq!(name_of_chain(&mapping, &s("1")), "era2");
    assert_eq!(name_of_chain(&mapping, &s("2")), "x");
    assert_eq!(name_of_chain(&mapping, &s("9")), "chain_9");
}

#[test]
fn chain_mapping_from_document() {
    let text = "{\"items\":{\"chain_id for  Era \":{\"value\":\"324\"},\"other\":{\"value\":\"1\"},\"chain_id for Abc\":{\"value\":5}}}";
    let doc = parse_document(&s(text)).unwrap();
    let m = chain_mapping(&doc).unwrap();
    assert_eq!(m, vec![(s("324"), s("Era"))]);
    let missing = parse_document(&s("{\"items\":{\"chain_id for A\":{}}}")).unwrap();
    assert_eq!(chain_mapping(&missing).unwrap_err(), HarvestError::Malformed);
    let no_items = parse_document(&s("{\"x\":1}")).unwrap();
    assert_eq!(chain_mapping(&no_items).unwrap_err(), HarvestError::Malformed);
}

#[test]
fn registry_entries() {
    let mut bh = [0u8; 20];
    let hex = "d8da6bf26964af9d7eed9e03e53415d37aa96045";
    for i in 0..20 {
        bh[i] = u8::from_str_radix(&hex[2 * i..2 * i + 2], 16).unwrap();
    }
    let reading = RegistryReading {
        bridgehub: bh,
        shared_bridge: addr(3),
        admin: addr(4),
        asset_router: addr(5),
        chains: vec![ChainItem { chain_id: s("324"), address: addr(6) }, ChainItem { chain_id: s("7"), address: addr(7) }],
    };
    let mapping = vec![(s("324"), s("Era"))];
    let es = registry_entries_of(&s("mainnet"), &mapping, &reading);
    assert_eq!(es.len(), 6);
    assert_eq!(es[0].key, "mainnet DiamondProxy - 324 Era");
    assert_eq!(es[0].value, "0x0000000000000000000000000000000000010006");
    assert_eq!(es[0].url, "https://etherscan.io/address/0x0000000000000000000000000000000000010006");
    assert_eq!(es[0].description, "Diamond Proxy for 324");
    assert_eq!(es[1].key, "mainnet DiamondProxy - 7 chain_7");
    assert_eq!(es[2].key, "mainnet Bridgehub");
    assert_eq!(es[2].value, format!("0x{hex}"));
    assert_eq!(es[2].url, "https://etherscan.io/address/0xd8dA6BF26964aF9D7eEd9e03E53415D37aA96045");
    assert_eq!(es[3].key, "mainnet SharedBridge");
    assert_eq!(es[3].description, "Shared Bridge contract address");
    assert_eq!(es[4].key, "mainnet Admin");
    assert_eq!(es[5].key, "mainnet AssetRouter");
    assert_eq!(es[5].description, "Asset Router contract address");
}
