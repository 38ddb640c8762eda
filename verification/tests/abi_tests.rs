use alloy::dyn_abi::DynSolValue;
use alloy::json_abi::Constructor;
use alloy::primitives::U256;
use chronicles::abi::{
    abi_encode_bytes, extract_constructor_inputs, serialize_value, AbiValue, ParamSpec,
};
use chronicles::decode::register_from_raw;
use chronicles::errors::LogError;
use chronicles::hexfmt::{hex_decode, hex_encode, hex_encode_prefixed};
use chronicles::model::{CtorValue, DeploymentLog};

fn param(name: &str) -> ParamSpec {
    ParamSpec { name: name.to_string(), components: vec![] }
}

fn text(v: &Result<CtorValue, LogError>) -> String {
    match v {
        Ok(CtorValue::Text(s)) => s.clone(),
        other => panic!("expected a text leaf, got {:?}", other.is_ok()),
    }
}

#[test]
fn hex_encoding_of_bytes() {
    assert_eq!(hex_encode(&[0x00u8, 0xff, 0x1a]), "00ff1a");
    assert_eq!(hex_encode(&[]), "");
    assert_eq!(hex_encode_prefixed(&[0xabu8]), "0xab");
}

#[test]
fn hex_decoding_of_text() {
    assert_eq!(hex_decode("00ff1a"), Some(vec![0x00u8, 0xff, 0x1a]));
    assert_eq!(hex_decode("0x00ff1a"), Some(vec![0x00u8, 0xff, 0x1a]));
    assert_eq!(hex_decode("0xDEadBEef"), Some(vec![0xdeu8, 0xad, 0xbe, 0xef]));
    assert_eq!(hex_decode(""), Some(vec![]));
    assert_eq!(hex_decode("0x"), Some(vec![]));
    assert_eq!(hex_decode("0Xff"), Some(vec![0xffu8]));
    assert_eq!(hex_decode("abc"), None);
    assert_eq!(hex_decode("zz"), None);
}

#[test]
fn bool_serializes_to_literal_text() {
    assert_eq!(text(&serialize_value(&param("b"), &AbiValue::Bool(true))), "true");
    assert_eq!(text(&serialize_value(&param("b"), &AbiValue::Bool(false))), "false");
}

#[test]
fn leaf_values_pass_through() {
    assert_eq!(
        text(&serialize_value(&param("a"), &AbiValue::Address("0xAbC1".to_string()))),
        "0xAbC1"
    );
    assert_eq!(text(&serialize_value(&param("u"), &AbiValue::Uint("42".to_string()))), "42");
    assert_eq!(text(&serialize_value(&param("i"), &AbiValue::Int("-7".to_string()))), "-7");
    assert_eq!(text(&serialize_value(&param("s"), &AbiValue::Text("hi".to_string()))), "hi");
}

#[test]
fn fixed_bytes_hex_with_prefix() {
    let word = vec![0xabu8; 32];
    let expected = format!("0x{}", "ab".repeat(32));
    assert_eq!(text(&serialize_value(&param("w"), &AbiValue::FixedBytes(word))), expected);
}

#[test]
fn function_composite_hex_with_prefix() {
    let packed = vec![0x01u8; 24];
    let expected = format!("0x{}", "01".repeat(24));
    assert_eq!(text(&serialize_value(&param("f"), &AbiValue::Function(packed))), expected);
}

#[test]
fn bytes_value_is_reencoded_with_framing() {
    let data = vec![0xdeu8, 0xad, 0xbe, 0xef];
    let mut expected = String::new();
    expected.push_str(&"0".repeat(62));
    expected.push_str("20");
    expected.push_str(&"0".repeat(62));
    expected.push_str("04");
    expected.push_str("deadbeef");
    expected.push_str(&"0".repeat(56));
    assert_eq!(text(&serialize_value(&param("d"), &AbiValue::Bytes(data))), expected);
    assert_eq!(abi_encode_bytes(&vec![]).len(), 64);
    assert_eq!(abi_encode_bytes(&vec![1u8; 33]).len(), 64 + 64);
}

#[test]
fn tuple_serializes_to_nested_mapping_with_all_leaves() {
    let p = ParamSpec {
        name: "outer".to_string(),
        components: vec![
            param("a"),
            ParamSpec {
                name: "inner".to_string(),
                components: vec![param("b"), param("c")],
            },
        ],
    };
    let v = AbiValue::Tuple(vec![
        AbiValue::Uint("1".to_string()),
        AbiValue::Tuple(vec![
            AbiValue::Uint("2".to_string()),
            AbiValue::Uint("3".to_string()),
        ]),
    ]);
    let r = serialize_value(&p, &v).unwrap();
    let mut leaves: Vec<(String, String)> = vec![];
    fn walk(prefix: &str, v: &CtorValue, out: &mut Vec<(String, String)>) {
        match v {
            CtorValue::Text(s) => out.push((prefix.to_string(), s.clone())),
            CtorValue::Object(m) => {
                for (k, inner) in m {
                    walk(k, inner, out);
                }
            },
        }
    }
    walk("", &r, &mut leaves);
    assert_eq!(leaves.len(), 3);
    assert_eq!(leaves[0], ("a".to_string(), "1".to_string()));
    assert_eq!(leaves[1], ("b".to_string(), "2".to_string()));
    assert_eq!(leaves[2], ("c".to_string(), "3".to_string()));
}

#[test]
fn array_values_always_unsupported() {
    let r = serialize_value(&param("xs"), &AbiValue::Array(vec![]));
    assert!(matches!(r, Err(LogError::UnsupportedAbiType)));
    let r = serialize_value(&param("xs"), &AbiValue::FixedArray(vec![]));
    assert!(matches!(r, Err(LogError::UnsupportedAbiType)));
    let p = ParamSpec { name: "t".to_string(), components: vec![param("xs")] };
    let v = AbiValue::Tuple(vec![AbiValue::Array(vec![])]);
    let r = serialize_value(&p, &v);
    assert!(matches!(r, Err(LogError::UnsupportedAbiType)));
}

#[test]
fn empty_parameter_list_gives_empty_mapping() {
    let r = extract_constructor_inputs(&vec![], &vec![]).unwrap();
    assert!(r.is_empty());
}

#[test]
fn extract_keys_follow_declaration_order() {
    let ps = vec![param("first"), param("second")];
    let vs = vec![AbiValue::Uint("1".to_string()), AbiValue::Uint("2".to_string())];
    let m = extract_constructor_inputs(&ps, &vs).unwrap();
    assert_eq!(m.len(), 2);
    assert_eq!(m[0].0, "first");
    assert_eq!(m[1].0, "second");
}

fn empty_log() -> DeploymentLog {
    DeploymentLog { chain_id: "1".to_string(), latest: vec![], history: vec![] }
}

fn uint_constructor() -> Constructor {
    serde_json::from_str(
        r#"{"type":"constructor","inputs":[{"name":"x","type":"uint256"}],"stateMutability":"nonpayable"}"#,
    )
    .unwrap()
}

#[test]
fn raw_registration_decodes_constructor_arguments() {
    let ctor = uint_constructor();
    let raw = DynSolValue::Uint(U256::from(42u64), 256).abi_encode();
    let mut log = empty_log();
    let r = register_from_raw(
        &mut log,
        "C".to_string(),
        "0xC1".to_string(),
        "0xtx".to_string(),
        1000,
        true,
        Some(&ctor),
        vec![param("x")],
        &raw,
        None,
    );
    assert!(r.is_ok());
    let cmap = &log.history[0].contracts[0].1.constructor;
    assert_eq!(cmap.len(), 1);
    assert_eq!(cmap[0].0, "x");
    match &cmap[0].1 {
        CtorValue::Text(s) => assert_eq!(s, "42"),
        _ => panic!("expected a text leaf"),
    }
}

#[test]
fn raw_registration_without_constructor_gives_empty_mapping() {
    let mut log = empty_log();
    let r = register_from_raw(
        &mut log,
        "C".to_string(),
        "0xC2".to_string(),
        "0xtx".to_string(),
        1000,
        true,
        None,
        vec![],
        &[],
        None,
    );
    assert!(r.is_ok());
    assert!(log.history[0].contracts[0].1.constructor.is_empty());
}

#[test]
fn raw_registration_rejects_malformed_argument_bytes() {
    let ctor = uint_constructor();
    let mut log = empty_log();
    let r = register_from_raw(
        &mut log,
        "C".to_string(),
        "0xC3".to_string(),
        "0xtx".to_string(),
        1000,
        true,
        Some(&ctor),
        vec![param("x")],
        &[0x01, 0x02],
        None,
    );
    assert!(matches!(r, Err(LogError::DecodeFailed)));
    assert!(log.history.is_empty());
}

#[test]
fn raw_registration_address_argument_keeps_decoder_text() {
    let ctor: Constructor = serde_json::from_str(
        r#"{"type":"constructor","inputs":[{"name":"owner","type":"address"}],"stateMutability":"nonpayable"}"#,
    )
    .unwrap();
    let addr = alloy::primitives::Address::from([0x11u8; 20]);
    let raw = DynSolValue::Address(addr).abi_encode();
    let mut log = empty_log();
    register_from_raw(
        &mut log,
        "C".to_string(),
        "0xC4".to_string(),
        "0xtx".to_string(),
        1000,
        true,
        Some(&ctor),
        vec![param("owner")],
        &raw,
        None,
    )
    .unwrap();
    let cmap = &log.history[0].contracts[0].1.constructor;
    match &cmap[0].1 {
        CtorValue::Text(s) => assert_eq!(s, &addr.to_string()),
        _ => panic!("expected a text leaf"),
    }
}
