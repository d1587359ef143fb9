use onchain_metadata::addr::Address;
use onchain_metadata::codec::{json_to_bytes, parse_json};
use onchain_metadata::instruction::{
    AddAuthorityArgs, OnchainMetadataInstructions, SetValueArgs, decode_instruction,
    encode_instruction,
};
use onchain_metadata::json::{merge, Json};
use onchain_metadata::state::{deserialize_metadata, serialize_metadata, JsonMetadata};

fn parse(s: &str) -> Json {
    parse_json(&s.as_bytes().to_vec()).expect("document should parse")
}

fn to_text(v: &Json) -> String {
    String::from_utf8(json_to_bytes(v)).unwrap()
}

fn merged(a: &str, b: &str) -> String {
    let mut x = parse(a);
    let patch = parse(b);
    merge(&mut x, &patch);
    to_text(&x)
}

#[test]
fn parses_scalars_and_whitespace() {
    assert_eq!(to_text(&parse("null")), "null");
    assert_eq!(to_text(&parse("  true ")), "true");
    assert_eq!(to_text(&parse("false")), "false");
    assert_eq!(to_text(&parse(" -12.5e3 ")), "-12.5e3");
    assert_eq!(to_text(&parse("\"hi\\n\\\"there\\\"\"")), "\"hi\\n\\\"there\\\"\"");
}

#[test]
fn parses_nested_documents() {
    let s = "{\"a\":[1,2,{\"b\":null}],\"c\":{\"d\":\"e\"},\"f\":[]}";
    assert_eq!(to_text(&parse(s)), s);
    let with_ws = "{ \"a\" : [ 1 , 2 ] , \"b\" : { } }";
    assert_eq!(to_text(&parse(with_ws)), "{\"a\":[1,2],\"b\":{}}");
}

#[test]
fn rejects_malformed_documents() {
    for bad in ["", "{", "[1,", "{\"a\"1}", "nulx", "truee", "{\"a\":}", "\"open", "[1 2]", "@"] {
        assert!(parse_json(&bad.as_bytes().to_vec()).is_none(), "accepted: {bad}");
    }
}

#[test]
fn trailing_garbage_is_rejected() {
    assert!(parse_json(&b"null x".to_vec()).is_none());
    assert!(parse_json(&b"{} {}".to_vec()).is_none());
}

#[test]
fn duplicate_keys_last_wins_first_position() {
    assert_eq!(to_text(&parse("{\"a\":1,\"b\":0,\"a\":2}")), "{\"a\":2,\"b\":0}");
}

#[test]
fn serialize_then_parse_is_identity() {
    for s in [
        "null",
        "true",
        "-0.5e-7",
        "\"a\\\\b\"",
        "[]",
        "[[[]]]",
        "{\"k\":\"v\",\"n\":[1,{\"m\":false}]}",
    ] {
        let v = parse(s);
        let bytes = json_to_bytes(&v);
        let again = parse_json(&bytes).expect("serialized form should parse");
        assert_eq!(json_to_bytes(&again), bytes);
        assert_eq!(bytes, s.as_bytes().to_vec());
    }
}

#[test]
fn output_agrees_with_a_reference_json_reader() {
    for (a, b) in [
        ("{\"a\":1}", "{\"a\":null,\"b\":2}"),
        ("{\"x\":[1,2]}", "{\"x\":[3]}"),
        ("{\"a\":{\"b\":1,\"c\":2}}", "{\"a\":{\"b\":9}}"),
        ("5", "{\"a\":1}"),
        ("{\"s\":\"\\u00e9\"}", "{}"),
    ] {
        let mine: serde_json::Value = serde_json::from_slice(&json_to_bytes(&{
            let mut x = parse(a);
            let p = parse(b);
            merge(&mut x, &p);
            x
        }))
        .expect("output should be JSON a reference reader accepts");
        let reference = {
            let mut x: serde_json::Value = serde_json::from_str(a).unwrap();
            json_merge_reference(&mut x, serde_json::from_str(b).unwrap());
            x
        };
        assert_eq!(mine, reference);
    }
}

/// RFC 7396 style merge over the reference reader's values.
fn json_merge_reference(a: &mut serde_json::Value, b: serde_json::Value) {
    if let serde_json::Value::Object(a_map) = a {
        if let serde_json::Value::Object(b_map) = b {
            for (k, v) in b_map {
                if v.is_null() {
                    a_map.remove(&k);
                } else {
                    json_merge_reference(
                        a_map.entry(k).or_insert(serde_json::Value::Null),
                        v,
                    );
                }
            }
            return;
        }
    }
    *a = b;
}

#[test]
fn merge_laws_on_concrete_values() {
    // An empty object patch changes an object not at all.
    assert_eq!(merged("{\"a\":1}", "{}"), "{\"a\":1}");
    // ... but wholly replaces a non-object.
    assert_eq!(merged("5", "{}"), "{}");
    // A null deletes its key if present and nothing else.
    assert_eq!(merged("{\"a\":1,\"c\":3}", "{\"a\":null}"), "{\"c\":3}");
    assert_eq!(merged("{\"c\":3}", "{\"a\":null}"), "{\"c\":3}");
    // Scalar-to-object replacement, not a merge.
    assert_eq!(merged("{\"a\":1}", "{\"a\":{\"b\":2}}"), "{\"a\":{\"b\":2}}");
    // Arrays are replaced wholesale, never merged.
    assert_eq!(merged("{\"a\":[1,2,3]}", "{\"a\":[9]}"), "{\"a\":[9]}");
    // Right-biased per key, recursing through nested objects.
    assert_eq!(
        merged("{\"o\":{\"x\":1,\"y\":2}}", "{\"o\":{\"y\":3}}"),
        "{\"o\":{\"x\":1,\"y\":3}}"
    );
}

#[test]
fn metadata_layout_matches_the_original_wire_format() {
    let a1 = Address { bytes: [3u8; 32] };
    let a2 = Address { bytes: [4u8; 32] };
    let m = JsonMetadata { bump: 254, mutable: true, authorities: vec![a1, a2] };
    let mine = serialize_metadata(&m);
    let reference = borsh::to_vec(&(254u8, true, vec![[3u8; 32], [4u8; 32]])).unwrap();
    assert_eq!(mine, reference);

    let back = deserialize_metadata(&mine).unwrap();
    assert_eq!(back.bump, 254);
    assert!(back.mutable);
    assert_eq!(back.authorities.len(), 2);
    assert_eq!(back.authorities[0].bytes, [3u8; 32]);
    assert_eq!(back.authorities[1].bytes, [4u8; 32]);
}

#[test]
fn metadata_decode_rejects_malformed_layouts() {
    assert!(deserialize_metadata(&vec![]).is_none());
    assert!(deserialize_metadata(&vec![1, 2, 0, 0, 0, 0, 9]).is_none());
    let bad_bool = borsh::to_vec(&(1u8, 2u8, Vec::<[u8; 32]>::new())).unwrap();
    assert!(deserialize_metadata(&bad_bool).is_none());
    let truncated = borsh::to_vec(&(1u8, true, vec![[5u8; 32]])).unwrap();
    assert!(deserialize_metadata(&truncated[..20].to_vec()).is_none());
}

#[test]
fn instruction_encoding_matches_the_original_wire_format() {
    let set = OnchainMetadataInstructions::SetValue(SetValueArgs { value: "{\"a\":1}".to_string() });
    let mine = encode_instruction(&set).unwrap();
    let reference = borsh::to_vec(&(2u8, "{\"a\":1}".to_string())).unwrap();
    assert_eq!(mine, reference);

    let add = OnchainMetadataInstructions::AddAuthority(AddAuthorityArgs {
        new_authority: Address { bytes: [7u8; 32] },
    });
    let mine = encode_instruction(&add).unwrap();
    let reference = borsh::to_vec(&(4u8, [7u8; 32])).unwrap();
    assert_eq!(mine, reference);

    assert_eq!(
        encode_instruction(&OnchainMetadataInstructions::Initialize).unwrap(),
        vec![0u8]
    );
    assert_eq!(encode_instruction(&OnchainMetadataInstructions::Close).unwrap(), vec![1u8]);
}

#[test]
fn instruction_decoding_round_trips_and_validates() {
    let set = OnchainMetadataInstructions::SetValue(SetValueArgs { value: "[1,2]".to_string() });
    let bytes = encode_instruction(&set).unwrap();
    match decode_instruction(&bytes) {
        Some(OnchainMetadataInstructions::SetValue(a)) => assert_eq!(a.value, "[1,2]"),
        _ => panic!("decoded to the wrong operation"),
    }

    // A value payload that is not UTF-8 is refused.
    let mut bad = vec![2u8, 2, 0, 0, 0, 0xff, 0xfe];
    assert!(decode_instruction(&bad).is_none());
    // A wrong length prefix is refused.
    bad = vec![2u8, 9, 0, 0, 0, b'a'];
    assert!(decode_instruction(&bad).is_none());
    // An unknown tag is refused.
    assert!(decode_instruction(&vec![9u8]).is_none());
    // An address payload must be exactly 32 bytes.
    assert!(decode_instruction(&vec![4u8, 1, 2, 3]).is_none());
}
