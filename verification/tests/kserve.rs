use lite_server::floats::{
    f32_to_bf16_bits, f32_to_f64_bits, f64_to_bf16_bits, f64_to_f16_bits, f64_to_f32_bits,
    u64_to_f64_bits,
};
use lite_server::json::{clone_json, get, parse_json, print_json, Json, JsonNumber};
use lite_server::kserve::{
    convert_body, convert_document, encode_value, is_convertible, keeps_header,
    parse_binary_output_request, read_binary_output_request, request_binary_output_flag,
    BinaryOutputRequest, BinaryResponse, ConvertError, RequestBody,
};
use serde_json::Value;

const FLAG_ALL: &str = r#"{"inputs":[{"name":"a","shape":[1],"datatype":"FP32","data":[1]}],"parameters":{"binary_data_output":true}}"#;

fn req(head: &str) -> BinaryOutputRequest {
    parse_binary_output_request(
        &RequestBody::Json(head.as_bytes().to_vec()),
        "m1",
        Some("1".to_string()),
    )
    .expect("envelope request must parse")
}

fn converted(body: &str, r: &BinaryOutputRequest) -> BinaryResponse {
    convert_body(body.as_bytes(), r).expect("must convert")
}

fn refused(body: &str, r: &BinaryOutputRequest) -> ConvertError {
    match convert_body(body.as_bytes(), r) {
        Err(e) => e,
        Ok(_) => panic!("must be refused: {body}"),
    }
}

fn head_of(r: &BinaryResponse) -> Value {
    serde_json::from_slice(&r.body[..r.head_len]).unwrap()
}

#[test]
fn test_parse_top_level_flag() {
    let r = req(r#"{"id":"r1","inputs":[{"name":"a","shape":[2],"datatype":"FP32","data":[1,2]}],"parameters":{"binary_data_output":true}}"#);
    assert_eq!(r.id.as_deref(), Some("r1"));
    assert_eq!(r.model_name, "m1");
    assert_eq!(r.model_version.as_deref(), Some("1"));
    assert!(r.binary_outputs.is_none());
}

#[test]
fn test_parse_per_output_flag() {
    let r = req(r#"{"inputs":[{"name":"a","shape":[1],"datatype":"FP32","data":[1]}],"outputs":[{"name":"o1","parameters":{"binary_data":true}}]}"#);
    assert_eq!(r.binary_outputs.as_deref(), Some(&["o1".to_string()][..]));
}

#[test]
fn test_parse_flag_without_envelope_shape_none() {
    let body = RequestBody::Json(r#"{"outputs":[{"binary_data":true}]}"#.as_bytes().to_vec());
    assert!(parse_binary_output_request(&body, "m", None).is_none());
}

#[test]
fn test_parse_no_flag_none() {
    let body = RequestBody::Json(
        r#"{"inputs":[{"name":"a","shape":[1],"datatype":"FP32","data":[1]}]}"#.as_bytes().to_vec(),
    );
    assert!(parse_binary_output_request(&body, "m", None).is_none());
    let raw = RequestBody::Raw(vec![1u8]);
    assert!(parse_binary_output_request(&raw, "m", None).is_none());
}

#[test]
fn test_parse_triton_binary_head_flag() {
    let head = r#"{"id":"r1","inputs":[{"name":"a","shape":[2],"datatype":"FP32","parameters":{"binary_data_size":8}}],"outputs":[{"name":"o1","parameters":{"binary_data":true}}]}"#;
    let mut body_bytes = head.as_bytes().to_vec();
    body_bytes.extend_from_slice(&[0u8; 8]);
    let tb = RequestBody::TritonBinary { body: body_bytes, json_head_len: head.len() };
    let r = parse_binary_output_request(&tb, "m1", None).expect("head flag must parse");
    assert_eq!(r.binary_outputs.as_deref(), Some(&["o1".to_string()][..]));
    assert!(request_binary_output_flag(&tb));
}

#[test]
fn test_encode_fp32_le() {
    let resp = converted(
        r#"{"outputs":[{"name":"o","shape":[2],"datatype":"FP32","data":[1.0,2.0]}]}"#,
        &req(FLAG_ALL),
    );
    assert_eq!(&resp.body[resp.head_len..resp.head_len + 4], &1.0f32.to_le_bytes());
    assert_eq!(&resp.body[resp.head_len + 4..], &2.0f32.to_le_bytes());
}

#[test]
fn test_encode_bytes_prefix() {
    let resp = converted(
        r#"{"outputs":[{"name":"o","shape":[1],"datatype":"BYTES","data":["test"]}]}"#,
        &req(FLAG_ALL),
    );
    assert_eq!(&resp.body[resp.body.len() - 8..], b"\x04\x00\x00\x00test");
}

#[test]
fn test_encode_fp16() {
    let f16 = |v: f64| f64_to_f16_bits(v.to_bits());
    assert_eq!(f16(1.0), 0x3C00);
    assert_eq!(f16(0.5), 0x3800);
    assert_eq!(f16(-2.0), 0xC000);
    assert_eq!(f16(f64::INFINITY), 0x7C00);
    assert_eq!(f16(f64::NAN) & 0x7C00, 0x7C00);
    assert_eq!(f16(65504.0), 0x7BFF); // max half
    assert_eq!(f16(65520.0), 0x7C00); // → inf
    assert_eq!(f16(2f64.powi(-14)), 0x0400); // min normal
    assert_eq!(f16(2f64.powi(-15)), 0x0200); // denormal
}

#[test]
fn test_encode_bf16() {
    let bf16 = |v: f64| f64_to_bf16_bits(v.to_bits());
    assert_eq!(bf16(1.0), 0x3F80);
    assert_eq!(bf16(-2.0), 0xC000);
}

#[test]
fn halves_round_to_even_down_to_nothing() {
    let f16 = |v: f64| f64_to_f16_bits(v.to_bits());
    assert_eq!(f16(0.0), 0);
    assert_eq!(f16(-0.0), 0x8000);
    assert_eq!(f16(2f64.powi(-24)), 1);
    assert_eq!(f16(2f64.powi(-25)), 0, "halfway to the even 0");
    assert_eq!(f16(1.5 * 2f64.powi(-25)), 1);
    assert_eq!(f16(1.5 * 2f64.powi(-24)), 2, "halfway between 1 and 2");
    assert_eq!(f16(1e-300), 0);
    assert_eq!(f16(1e300), 0x7C00);
    assert_eq!(f16(1.0 + 2f64.powi(-11)), 0x3C00);
    assert_eq!(f16(1.0 + 3.0 * 2f64.powi(-11)), 0x3C02);
    assert_eq!(f16(1.0 + 2f64.powi(-11) + 2f64.powi(-40)), 0x3C01);
    assert_eq!(f16(f64::from(f32::MIN_POSITIVE)), 0);
}

#[test]
fn bfloats_round_to_even() {
    assert_eq!(f32_to_bf16_bits(0x3F80_8000), 0x3F80);
    assert_eq!(f32_to_bf16_bits(0x3F81_8000), 0x3F82);
    assert_eq!(f32_to_bf16_bits(0x3F80_8001), 0x3F81);
    assert_eq!(f32_to_bf16_bits(f32::INFINITY.to_bits()), 0x7F80);
    assert_eq!(f32_to_bf16_bits(f32::MAX.to_bits()), 0x7F80);
    let nan = f32_to_bf16_bits(f32::NAN.to_bits());
    assert!(nan & 0x7F80 == 0x7F80 && nan & 0x7F != 0);
}

#[test]
fn singles_round_as_the_machine_does() {
    for v in [
        0.0, -0.0, 1.0, -1.5, 0.1, 1e-40, 1e-46, 7e-46, 3.4e38, 3.5e38, 1e300, -1e-300,
        16777217.0, 16777219.0, f64::MAX, f64::MIN_POSITIVE, f64::INFINITY, f64::NEG_INFINITY,
    ] {
        assert_eq!(f64_to_f32_bits(v.to_bits()), (v as f32).to_bits(), "{v}");
    }
    for v in [0.0f32, -0.0, 1.5, -0.1, 1e-40, 1e-45, f32::MIN_POSITIVE, f32::MAX, f32::INFINITY] {
        assert_eq!(f32_to_f64_bits(v.to_bits()), f64::from(v).to_bits(), "{v}");
        assert_eq!(f64_to_f32_bits(f32_to_f64_bits(v.to_bits())), v.to_bits(), "{v}");
    }
    assert!(f64::from_bits(f32_to_f64_bits(f32::NAN.to_bits())).is_nan());
    for n in [0u64, 1, 2, 3, 1 << 53, (1 << 53) + 1, (1 << 54) + 3, u64::MAX, u64::MAX / 3] {
        assert_eq!(u64_to_f64_bits(n), (n as f64).to_bits(), "{n}");
    }
}

#[test]
fn test_binary_output_fp32_full() {
    let r = req(r#"{"id":"r1","inputs":[{"name":"a","shape":[1],"datatype":"FP32","data":[1]}],"parameters":{"binary_data_output":true}}"#);
    let resp = converted(
        r#"{"outputs":[{"name":"o","shape":[2],"datatype":"FP32","data":[1.0,2.0]}]}"#,
        &r,
    );
    assert_eq!(resp.body.len() - resp.head_len, 8);
    assert_eq!(&resp.body[resp.head_len..resp.head_len + 4], &1.0f32.to_le_bytes());
    assert_eq!(&resp.body[resp.head_len + 4..], &2.0f32.to_le_bytes());
    let head = head_of(&resp);
    assert_eq!(head["id"], "r1");
    assert_eq!(head["model_name"], "m1");
    assert_eq!(head["model_version"], "1");
    assert_eq!(head["outputs"][0]["parameters"]["binary_data_size"], 8);
    assert!(head["outputs"][0].get("data").is_none());
}

#[test]
fn test_binary_output_per_output_flag_mixed() {
    let r = req(r#"{"inputs":[{"name":"a","shape":[1],"datatype":"FP32","data":[1]}],"outputs":[{"name":"bin_out","parameters":{"binary_data":true}}]}"#);
    let resp = converted(
        r#"{"outputs":[{"name":"json_out","shape":[1],"datatype":"FP32","data":[9.0]},{"name":"bin_out","shape":[1],"datatype":"FP32","data":[1.5]}]}"#,
        &r,
    );
    assert_eq!(resp.body.len() - resp.head_len, 4);
    assert_eq!(&resp.body[resp.head_len..], &1.5f32.to_le_bytes());
    let head = head_of(&resp);
    assert_eq!(head["outputs"][0]["data"][0], 9.0);
    assert_eq!(head["outputs"][1]["parameters"]["binary_data_size"], 4);
}

#[test]
fn test_binary_output_non_envelope_400() {
    assert!(matches!(refused(r#"{"result": 42}"#, &req(FLAG_ALL)), ConvertError::NotEnvelope));
    assert!(matches!(refused("no json", &req(FLAG_ALL)), ConvertError::NotEnvelope));
}

#[test]
fn test_binary_output_missing_datatype_400() {
    let e = refused(r#"{"outputs":[{"name":"o","shape":[1],"data":[1]}]}"#, &req(FLAG_ALL));
    assert!(matches!(e, ConvertError::MissingDatatype(_)));
}

#[test]
fn test_binary_output_worker_media_type_wins() {
    assert!(!is_convertible("application/octet-stream", 200));
    assert!(is_convertible("application/json", 200));
}

#[test]
fn test_binary_output_worker_error_untouched() {
    assert!(!is_convertible("application/json", 400));
    assert!(!is_convertible("application/json", 503));
}

#[test]
fn test_binary_output_id_omitted_when_absent() {
    let resp = converted(
        r#"{"outputs":[{"name":"o","shape":[1],"datatype":"FP32","data":[1.0]}]}"#,
        &req(FLAG_ALL),
    );
    assert!(head_of(&resp).get("id").is_none());
}

#[test]
fn every_refusal_names_its_output() {
    let r = req(FLAG_ALL);
    let one = |fields: &str| format!(r#"{{"outputs":[{{"name":"o"{fields}}}]}}"#);
    assert!(matches!(
        refused(&one(r#","datatype":"FP32","data":[1]"#), &r),
        ConvertError::MissingShape(n) if n == "o"
    ));
    assert!(matches!(
        refused(&one(r#","datatype":"FP32","shape":[1]"#), &r),
        ConvertError::MissingData(n) if n == "o"
    ));
    let typed = |t: &str, v: &str| one(&format!(r#","datatype":"{t}","shape":[1],"data":[{v}]"#));
    assert!(matches!(refused(&typed("INT32", "1.5"), &r), ConvertError::NotInteger));
    assert!(matches!(refused(&typed("UINT8", "-1"), &r), ConvertError::NotUnsigned));
    assert!(matches!(refused(&typed("FP64", "\"x\""), &r), ConvertError::NotNumber));
    assert!(matches!(refused(&typed("BYTES", "1"), &r), ConvertError::NotString));
    match refused(&typed("FP8", "1"), &r) {
        ConvertError::UnknownDatatype(t) => assert_eq!(t, "FP8"),
        e => panic!("{e:?}"),
    }
    for e in [
        ConvertError::NotEnvelope,
        ConvertError::MissingData("o".to_string()),
        ConvertError::UnknownDatatype("FP8".to_string()),
    ] {
        assert!(!e.message().is_empty());
    }
    assert!(ConvertError::UnknownDatatype("FP8".to_string()).message().contains("FP8"));
}

#[test]
fn values_are_encoded_little_end_first() {
    let int = |n: u64| Json::Number(JsonNumber::Unsigned(n));
    let neg = |n: i64| Json::Number(JsonNumber::Negative(n));
    let float = |v: f64| Json::Number(JsonNumber::Float(v.to_bits()));
    let cases: Vec<(&str, Json, Vec<u8>)> = vec![
        ("INT8", neg(-1), vec![0xff]),
        ("INT16", neg(-2), vec![0xfe, 0xff]),
        ("INT32", int(0x01020304), vec![4, 3, 2, 1]),
        ("INT64", neg(-1), vec![0xff; 8]),
        ("UINT8", int(200), vec![200]),
        ("UINT16", int(0x0102), vec![2, 1]),
        ("UINT32", int(7), vec![7, 0, 0, 0]),
        ("UINT64", int(u64::MAX), vec![0xff; 8]),
        ("FP16", float(1.0), vec![0x00, 0x3c]),
        ("BF16", float(1.0), vec![0x80, 0x3f]),
        ("FP32", int(1), 1.0f32.to_le_bytes().to_vec()),
        ("FP64", float(0.1), 0.1f64.to_le_bytes().to_vec()),
        ("BYTES", Json::Text("hé".to_string()), vec![3, 0, 0, 0, b'h', 0xc3, 0xa9]),
    ];
    for (datatype, v, want) in cases {
        assert_eq!(encode_value(datatype, &v).unwrap(), want, "{datatype}");
    }
}

#[test]
fn blocks_stand_in_the_order_of_the_outputs() {
    let resp = converted(
        r#"{"outputs":[{"name":"x","shape":[2],"datatype":"INT8","data":[1,2]},{"name":"y","shape":[1],"datatype":"UINT16","data":[3]}]}"#,
        &req(FLAG_ALL),
    );
    assert_eq!(&resp.body[resp.head_len..], &[1, 2, 3, 0]);
    let head = head_of(&resp);
    assert_eq!(head["outputs"][0]["parameters"]["binary_data_size"], 2);
    assert_eq!(head["outputs"][1]["parameters"]["binary_data_size"], 2);
}

#[test]
fn documents_convert_without_their_text() {
    let doc = parse_json(
        br#"{"outputs":[{"name":"o","shape":[1],"datatype":"INT8","data":[5]}],"extra":true}"#,
    )
    .unwrap();
    let request = parse_json(FLAG_ALL.as_bytes()).unwrap();
    let r = read_binary_output_request(&request, "m", None).unwrap();
    let resp = convert_document(&doc, &r).unwrap();
    assert_eq!(resp.body.last(), Some(&5));
    let head = head_of(&resp);
    assert_eq!(head["model_name"], "m");
    assert!(head.get("model_version").is_none() || head["model_version"].is_null());
}

#[test]
fn framing_headers_are_not_kept() {
    assert!(!keeps_header("content-length"));
    assert!(!keeps_header("content-type"));
    assert!(keeps_header("x-trace"));
}

#[test]
fn json_is_read_and_printed() {
    let doc = parse_json(br#"{"b":[1,-2,0.5,null,true,"t"],"a":{}}"#).unwrap();
    assert!(parse_json(b"{").is_none());
    assert!(parse_json(b"").is_none());
    match get(&doc, "b").unwrap() {
        Json::Array(items) => {
            assert!(matches!(items[0], Json::Number(JsonNumber::Unsigned(1))));
            assert!(matches!(items[1], Json::Number(JsonNumber::Negative(-2))));
            match items[2] {
                Json::Number(JsonNumber::Float(b)) => assert_eq!(f64::from_bits(b), 0.5),
                _ => panic!("0.5 is a float"),
            }
            assert!(matches!(items[3], Json::Null));
            assert!(matches!(items[4], Json::Bool(true)));
            match &items[5] {
                Json::Text(t) => assert_eq!(t, "t"),
                _ => panic!("a string"),
            }
        }
        _ => panic!("b is an array"),
    }
    assert!(get(&doc, "c").is_none());
    let printed = print_json(&clone_json(&doc));
    let back: Value = serde_json::from_str(&printed).unwrap();
    let want: Value = serde_json::from_str(r#"{"b":[1,-2,0.5,null,true,"t"],"a":{}}"#).unwrap();
    assert_eq!(back, want);
    assert_eq!(print_json(&parse_json(b" [ 1 , \"x\" ] ").unwrap()), r#"[1,"x"]"#);
}

#[test]
fn printed_numbers_and_keys_are_those_of_the_document() {
    let number = |n| print_json(&Json::Number(n));
    assert_eq!(number(JsonNumber::Unsigned(7)), "7");
    assert_eq!(number(JsonNumber::Negative(-7)), "-7");
    assert_eq!(number(JsonNumber::Negative(7)), "7");
    assert_eq!(number(JsonNumber::Float(1.5f64.to_bits())), "1.5");
    assert_eq!(number(JsonNumber::Float((-0.0f64).to_bits())), "-0.0");
    assert_eq!(number(JsonNumber::Float(f64::NAN.to_bits())), "null");
    assert_eq!(number(JsonNumber::Float(f64::INFINITY.to_bits())), "null");
    let object = Json::Object(vec![
        ("b".to_string(), Json::Bool(false)),
        ("a".to_string(), Json::Text("\"".to_string())),
        ("b".to_string(), Json::Null),
    ]);
    assert_eq!(print_json(&object), r#"{"a":"\"","b":null}"#);
    assert_eq!(print_json(&Json::Array(vec![object, Json::Array(Vec::new())])), r#"[{"a":"\"","b":null},[]]"#);
}

fn half_to_f64(bits: u16) -> f64 {
    let exp = (bits >> 10) as i32;
    let frac = (bits & 0x3ff) as f64;
    if exp == 0 {
        frac * 2f64.powi(-24)
    } else {
        (1024.0 + frac) * 2f64.powi(exp - 25)
    }
}

#[test]
fn no_half_is_nearer_than_the_one_that_is_given() {
    let values = [
        0.1, 1.0 / 3.0, 1e-7, 3e-8, 2.9e-8, 6.1e-5, 1.0, 1.00048828125, 1.00146484375, 2049.0,
        2051.0, 65504.0, 65519.9, 65520.0, 1e9,
    ];
    for v in values {
        let given = f64_to_f16_bits(f64::to_bits(v));
        let best = (half_to_f64(given) - v).abs();
        // The bits of the infinity stand for the value that would come next.
        for c in 0..=0x7c00u16 {
            let d = (half_to_f64(c) - v).abs();
            assert!(best <= d, "{v} {given:x} {c:x}");
            assert!(c == given || best < d || given % 2 == 0, "{v} {given:x} {c:x}");
        }
    }
}

#[test]
fn the_head_keeps_every_entry() {
    let body = r#"{"outputs":[{"zeta":{"y":1,"x":[{"b":2,"a":3}]},"name":"o","shape":[2],
        "datatype":"UINT8","data":[1,2],"parameters":{"q":null,"binary_data_size":9,"c":"d"}}]}"#;
    let resp = converted(body, &req(FLAG_ALL));
    let head = head_of(&resp);
    let out = head["outputs"][0].as_object().unwrap();
    let mut keys: Vec<&str> = out.keys().map(String::as_str).collect();
    keys.sort();
    assert_eq!(keys, vec!["datatype", "name", "parameters", "shape", "zeta"]);
    assert_eq!(out["zeta"]["y"], 1);
    assert_eq!(out["zeta"]["x"][0]["a"], 3);
    assert_eq!(out["zeta"]["x"][0]["b"], 2);
    assert!(out["parameters"]["q"].is_null());
    assert_eq!(out["parameters"]["c"], "d");
    assert_eq!(out["parameters"]["binary_data_size"], 2);
    assert_eq!(out["parameters"].as_object().unwrap().len(), 3);
    assert_eq!(&resp.body[resp.head_len..], &[1, 2]);
}
