//! Binary tensor output for the KServe protocol.
//!
//! A client may ask for the outputs of an inference in binary form. The data of
//! those outputs then leaves the JSON document and follows it as bytes, and the
//! document says how many bytes each of them takes.

use crate::floats::{
    bfloat_of_single, double_of_integer, double_of_single, f32_to_f64_bits, f64_to_bf16_bits,
    f64_to_f16_bits, f64_to_f32_bits, half_of_double, single_of_double, u64_to_f64_bits,
};
use crate::json::{
    all_well_keyed, clone_json, entries_of, entries_well_keyed, entry, entry_is_there, get,
    is_kept_whole, items_of, json_text, keys_differ, parse_json, parsed, print_json, well_keyed,
    view_of_parts, Json, JsonNumber, JsonV,
};
use crate::text::{has_prefix, same_text, starts_with, to_chars};
use vstd::prelude::*;
use vstd::utf8::encode_utf8;

verus! {

/// The body of a request.
pub enum RequestBody {
    /// A JSON document.
    Json(Vec<u8>),
    /// A JSON document of `json_head_len` bytes with tensors behind it.
    TritonBinary { body: Vec<u8>, json_head_len: usize },
    /// Bytes of another kind.
    Raw(Vec<u8>),
}

/// The JSON document of a body.
pub open spec fn json_head(body: RequestBody) -> Option<Seq<u8>> {
    match body {
        RequestBody::Json(b) => Some(b@),
        RequestBody::TritonBinary { body, json_head_len } => Some(
            body@.subrange(0, json_head_len as int),
        ),
        RequestBody::Raw(_) => None,
    }
}

/// Whether the JSON document of a body lies within it.
pub open spec fn body_wf(body: RequestBody) -> bool {
    body matches RequestBody::TritonBinary { body, json_head_len } ==> json_head_len <= body@.len()
}

/// Which outputs a client wants in binary form.
pub struct BinaryOutputRequest {
    pub id: Option<String>,
    pub model_name: String,
    pub model_version: Option<String>,
    /// The names of the outputs, or `None` for all of them.
    pub binary_outputs: Option<Vec<String>>,
}

pub open spec fn opt_text(s: Option<String>) -> Option<Seq<char>> {
    match s {
        Some(s) => Some(s@),
        None => None,
    }
}

pub open spec fn texts(v: Seq<String>) -> Seq<Seq<char>> {
    Seq::new(v.len(), |i: int| v[i]@)
}

pub open spec fn opt_texts(v: Option<Vec<String>>) -> Option<Seq<Seq<char>>> {
    match v {
        Some(v) => Some(texts(v@)),
        None => None,
    }
}

/// Whether a document is an inference request: it has inputs, and each has a
/// name, a shape and a data type.
pub open spec fn is_envelope(v: JsonV) -> bool {
    &&& v.get("inputs"@) matches Some(inputs) && inputs is Array
    &&& ({
        let a = v.get("inputs"@)->0->Array_0;
        &&& a.len() > 0
        &&& forall|i: int|
            0 <= i < a.len() ==> {
                &&& (#[trigger] a[i]).get("name"@) is Some
                &&& a[i].get("shape"@) is Some
                &&& a[i].get("datatype"@) is Some
            }
    })
}

/// Whether all outputs are wanted in binary form.
pub open spec fn wants_all(v: JsonV) -> bool {
    v.get("parameters"@) matches Some(p) && p.get("binary_data_output"@) == Some(JsonV::Bool(true))
}

/// The name of an output that is wanted in binary form.
pub open spec fn wanted_name(out: JsonV) -> Option<Seq<char>> {
    if out.get("parameters"@) matches Some(p) && p.get("binary_data"@) == Some(JsonV::Bool(true)) {
        match out.get("name"@) {
            Some(n) => n.as_text(),
            None => None,
        }
    } else {
        None
    }
}

/// The names of the outputs that are wanted in binary form.
pub open spec fn wanted_names(outputs: Seq<JsonV>) -> Seq<Seq<char>>
    decreases outputs.len(),
{
    if outputs.len() == 0 {
        seq![]
    } else {
        let before = wanted_names(outputs.drop_last());
        match wanted_name(outputs.last()) {
            Some(n) => before.push(n),
            None => before,
        }
    }
}

/// The outputs that the document lists.
pub open spec fn listed_outputs(v: JsonV) -> Seq<JsonV> {
    match v.get("outputs"@) {
        Some(o) => match o.as_array() {
            Some(a) => a,
            None => seq![],
        },
        None => seq![],
    }
}

/// Whether the document asks for outputs in binary form.
pub open spec fn wants_binary(v: JsonV) -> bool {
    is_envelope(v) && (wants_all(v) || wanted_names(listed_outputs(v)).len() > 0)
}

fn bool_at(v: &Json, outer: &str, inner: &str) -> (r: bool)
    ensures
        r == (v@.get(outer@) matches Some(p) && p.get(inner@) == Some(JsonV::Bool(true))),
{
    match get(v, outer) {
        Some(p) => match get(p, inner) {
            Some(Json::Bool(b)) => *b,
            _ => false,
        },
        None => false,
    }
}

fn check_envelope(v: &Json) -> (r: bool)
    ensures
        r == is_envelope(v@),
{
    match get(v, "inputs") {
        Some(inputs) => match inputs {
            Json::Array(a) => {
                proof {
                    view_of_parts(*inputs);
                }
                if a.len() == 0 {
                    return false;
                }
                let ghost items = items_of(a@);
                let mut i: usize = 0;
                while i < a.len()
                    invariant
                        i <= a@.len(),
                        items == items_of(a@),
                        v@.get("inputs"@) == Some(JsonV::Array(items)),
                        forall|j: int|
                            0 <= j < i ==> {
                                &&& (#[trigger] items[j]).get("name"@) is Some
                                &&& items[j].get("shape"@) is Some
                                &&& items[j].get("datatype"@) is Some
                            },
                    decreases a.len() - i,
                {
                    assert(items[i as int] == a@[i as int]@);
                    if get(&a[i], "name").is_none() || get(&a[i], "shape").is_none() || get(
                        &a[i],
                        "datatype",
                    ).is_none() {
                        return false;
                    }
                    i = i + 1;
                }
                true
            },
            _ => false,
        },
        None => false,
    }
}

fn collect_wanted_names(v: &Json) -> (r: Vec<String>)
    ensures
        texts(r@) == wanted_names(listed_outputs(v@)),
{
    let mut names: Vec<String> = Vec::new();
    assert(texts(names@) =~= seq![]);
    match get(v, "outputs") {
        Some(o) => match o {
            Json::Array(a) => {
                proof {
                    view_of_parts(*o);
                }
                let ghost items = items_of(a@);
                let mut i: usize = 0;
                while i < a.len()
                    invariant
                        i <= a@.len(),
                        items == items_of(a@),
                        texts(names@) == wanted_names(items.take(i as int)),
                    decreases a.len() - i,
                {
                    assert(items.take(i + 1).drop_last() =~= items.take(i as int));
                    assert(items.take(i + 1).last() == a@[i as int]@);
                    if bool_at(&a[i], "parameters", "binary_data") {
                        if let Some(Json::Text(n)) = get(&a[i], "name") {
                            let ghost before = names@;
                            names.push(n.clone());
                            assert(texts(names@) =~= texts(before).push(n@));
                        }
                    }
                    i = i + 1;
                }
                assert(items.take(i as int) =~= items);
            },
            _ => {},
        },
        None => {},
    }
    names
}

/// Reads from a request body which outputs are wanted in binary form. `None`
/// where the body is no inference request or asks for none.
pub fn parse_binary_output_request(
    body: &RequestBody,
    model_name: &str,
    model_version: Option<String>,
) -> (r: Option<BinaryOutputRequest>)
    requires
        body_wf(*body),
    ensures
        ({
            let doc = match json_head(*body) {
                Some(b) => parsed(b),
                None => None,
            };
            match r {
                Some(q) => {
                    &&& doc matches Some(v) && wants_binary(v)
                    &&& is_request_of(q, doc->0, model_name@, opt_text(model_version))
                },
                None => doc matches Some(v) ==> !wants_binary(v),
            }
        }),
{
    let parsed_head = match body {
        RequestBody::Json(b) => parse_json(b.as_slice()),
        RequestBody::TritonBinary { body, json_head_len } => parse_json(
            vstd::slice::slice_subrange(body.as_slice(), 0, *json_head_len),
        ),
        RequestBody::Raw(_) => return None,
    };
    match parsed_head {
        Some(v) => read_binary_output_request(&v, model_name, model_version),
        None => None,
    }
}

/// Whether `q` is what the document `v` asks for.
pub open spec fn is_request_of(
    q: BinaryOutputRequest,
    v: JsonV,
    model_name: Seq<char>,
    model_version: Option<Seq<char>>,
) -> bool {
    &&& opt_text(q.id) == match v.get("id"@) {
        Some(i) => i.as_text(),
        None => None,
    }
    &&& q.model_name@ == model_name
    &&& opt_text(q.model_version) == model_version
    &&& opt_texts(q.binary_outputs) == if wants_all(v) {
        None
    } else {
        Some(wanted_names(listed_outputs(v)))
    }
}

/// Reads from a document which outputs are wanted in binary form. `None` where
/// it is no inference request or asks for none.
pub fn read_binary_output_request(v: &Json, model_name: &str, model_version: Option<String>) -> (r:
    Option<BinaryOutputRequest>)
    ensures
        match r {
            Some(q) => wants_binary(v@) && is_request_of(
                q,
                v@,
                model_name@,
                opt_text(model_version),
            ),
            None => !wants_binary(v@),
        },
{
    if !check_envelope(v) {
        return None;
    }
    let all = bool_at(v, "parameters", "binary_data_output");
    let names = collect_wanted_names(v);
    if !all && names.len() == 0 {
        assert(texts(names@).len() == 0);
        return None;
    }
    assert(texts(names@).len() == names@.len());
    let id = match get(v, "id") {
        Some(Json::Text(s)) => Some(s.clone()),
        _ => None,
    };
    Some(
        BinaryOutputRequest {
            id,
            model_name: model_name.to_string(),
            model_version,
            binary_outputs: if all {
                None
            } else {
                Some(names)
            },
        },
    )
}

/// Whether a request asks for outputs in binary form.
pub fn request_binary_output_flag(body: &RequestBody) -> (r: bool)
    requires
        body_wf(*body),
    ensures
        r == (json_head(*body) matches Some(b) && parsed(b) matches Some(v) && wants_binary(v)),
{
    parse_binary_output_request(body, "", None).is_some()
}

/// Why a response cannot be sent in binary form.
#[derive(Debug)]
pub enum ConvertError {
    NotEnvelope,
    MissingDatatype(String),
    MissingShape(String),
    MissingData(String),
    NotInteger,
    NotUnsigned,
    NotNumber,
    NotString,
    UnknownDatatype(String),
}

/// The model of a [`ConvertError`].
pub enum Refusal {
    NotEnvelope,
    MissingDatatype(Seq<char>),
    MissingShape(Seq<char>),
    MissingData(Seq<char>),
    NotInteger,
    NotUnsigned,
    NotNumber,
    NotString,
    UnknownDatatype(Seq<char>),
}

impl View for ConvertError {
    type V = Refusal;

    open spec fn view(&self) -> Refusal {
        match self {
            ConvertError::NotEnvelope => Refusal::NotEnvelope,
            ConvertError::MissingDatatype(n) => Refusal::MissingDatatype(n@),
            ConvertError::MissingShape(n) => Refusal::MissingShape(n@),
            ConvertError::MissingData(n) => Refusal::MissingData(n@),
            ConvertError::NotInteger => Refusal::NotInteger,
            ConvertError::NotUnsigned => Refusal::NotUnsigned,
            ConvertError::NotNumber => Refusal::NotNumber,
            ConvertError::NotString => Refusal::NotString,
            ConvertError::UnknownDatatype(d) => Refusal::UnknownDatatype(d@),
        }
    }
}

impl Refusal {
    /// The error in words.
    pub open spec fn words(self) -> Seq<char> {
        match self {
            Refusal::NotEnvelope =>
                "binary_data_output requested but response is not a KServe envelope"@,
            Refusal::MissingDatatype(n) => "binary_data_output: output "@ + n
                + " is missing datatype"@,
            Refusal::MissingShape(n) => "binary_data_output: output "@ + n + " is missing shape"@,
            Refusal::MissingData(n) => "binary_data_output: output "@ + n
                + " is missing a JSON data array"@,
            Refusal::NotInteger => "binary_data_output: data element is not a JSON integer"@,
            Refusal::NotUnsigned =>
                "binary_data_output: data element is not a JSON unsigned integer"@,
            Refusal::NotNumber => "binary_data_output: data element is not a JSON number"@,
            Refusal::NotString => "binary_data_output: BYTES data elements must be JSON strings"@,
            Refusal::UnknownDatatype(d) => "binary_data_output: unknown datatype "@ + d,
        }
    }
}

fn about_output(name: &String, rest: &str) -> (r: String)
    ensures
        r@ == "binary_data_output: output "@ + name@ + rest@,
{
    let mut out = "binary_data_output: output ".to_string();
    out.append(name.as_str());
    out.append(rest);
    out
}

impl ConvertError {
    /// The error in words.
    pub fn message(&self) -> (r: String)
        ensures
            r@ == self@.words(),
    {
        match self {
            ConvertError::NotEnvelope =>
                "binary_data_output requested but response is not a KServe envelope".to_string(),
            ConvertError::MissingDatatype(n) => about_output(n, " is missing datatype"),
            ConvertError::MissingShape(n) => about_output(n, " is missing shape"),
            ConvertError::MissingData(n) => about_output(n, " is missing a JSON data array"),
            ConvertError::NotInteger =>
                "binary_data_output: data element is not a JSON integer".to_string(),
            ConvertError::NotUnsigned =>
                "binary_data_output: data element is not a JSON unsigned integer".to_string(),
            ConvertError::NotNumber =>
                "binary_data_output: data element is not a JSON number".to_string(),
            ConvertError::NotString =>
                "binary_data_output: BYTES data elements must be JSON strings".to_string(),
            ConvertError::UnknownDatatype(d) => {
                let mut out = "binary_data_output: unknown datatype ".to_string();
                out.append(d.as_str());
                out
            },
        }
    }
}

/// The lowest `n` bytes of `u`, the lowest first.
pub open spec fn little_endian(u: nat, n: nat) -> Seq<u8>
    decreases n,
{
    if n == 0 {
        seq![]
    } else {
        seq![(u % 256) as u8] + little_endian(u / 256, (n - 1) as nat)
    }
}

/// A signed integer as the unsigned one with the same 64 bits.
pub open spec fn as_unsigned(i: int) -> nat {
    if i >= 0 {
        i as nat
    } else {
        (i + 0x1_0000_0000_0000_0000) as nat
    }
}

/// The bits in double precision of a number.
pub open spec fn double_bits(n: JsonNumber) -> u64 {
    match n {
        JsonNumber::Unsigned(u) => double_of_integer(u as nat) as u64,
        JsonNumber::Negative(i) => if i >= 0 {
            double_of_integer(i as nat) as u64
        } else {
            (0x8000_0000_0000_0000 + double_of_integer((-i) as nat)) as u64
        },
        JsonNumber::Float(b) => b,
    }
}

/// The bits in single precision of a number.
pub open spec fn single_bits(n: JsonNumber) -> u32 {
    single_of_double(double_bits(n))
}

/// The bits in half precision of a number, rounded to single precision first.
pub open spec fn half_of_number(n: JsonNumber) -> u16 {
    half_of_double(double_of_single(single_bits(n)))
}

/// The bits in the format bfloat16 of a number, rounded to single precision
/// first.
pub open spec fn bfloat_of_number(n: JsonNumber) -> u16 {
    bfloat_of_single(single_bits(n))
}

/// Whether a value counts as true: `true`, and numbers other than 0.
pub open spec fn is_true(v: JsonV) -> bool {
    match v {
        JsonV::Bool(b) => b,
        JsonV::Number(JsonNumber::Unsigned(u)) => u != 0,
        JsonV::Number(JsonNumber::Negative(i)) => i != 0,
        JsonV::Number(JsonNumber::Float(b)) => b % 0x8000_0000_0000_0000 != 0,
        _ => false,
    }
}

/// The signed integer that a value is.
pub open spec fn signed_value(v: JsonV) -> Option<int> {
    match v {
        JsonV::Number(JsonNumber::Unsigned(u)) => if u <= i64::MAX {
            Some(u as int)
        } else {
            None
        },
        JsonV::Number(JsonNumber::Negative(i)) => Some(i as int),
        _ => None,
    }
}

/// A signed integer in `n` bytes.
pub open spec fn signed_bytes(v: JsonV, n: nat) -> Result<Seq<u8>, Refusal> {
    match signed_value(v) {
        Some(i) => Ok(little_endian(as_unsigned(i), n)),
        None => Err(Refusal::NotInteger),
    }
}

/// An unsigned integer in `n` bytes.
pub open spec fn unsigned_bytes(v: JsonV, n: nat) -> Result<Seq<u8>, Refusal> {
    match v {
        JsonV::Number(JsonNumber::Unsigned(u)) => Ok(little_endian(u as nat, n)),
        _ => Err(Refusal::NotUnsigned),
    }
}

/// The number that a value is.
pub open spec fn number_value(v: JsonV) -> Result<JsonNumber, Refusal> {
    match v {
        JsonV::Number(n) => Ok(n),
        _ => Err(Refusal::NotNumber),
    }
}

/// The bytes of one element of a tensor.
pub open spec fn encoded(datatype: Seq<char>, v: JsonV) -> Result<Seq<u8>, Refusal> {
    if datatype == "BOOL"@ {
        Ok(
            seq![
                if is_true(v) {
                    1u8
                } else {
                    0u8
                },
            ],
        )
    } else if datatype == "INT8"@ {
        signed_bytes(v, 1)
    } else if datatype == "UINT8"@ {
        unsigned_bytes(v, 1)
    } else if datatype == "INT16"@ {
        signed_bytes(v, 2)
    } else if datatype == "UINT16"@ {
        unsigned_bytes(v, 2)
    } else if datatype == "INT32"@ {
        signed_bytes(v, 4)
    } else if datatype == "UINT32"@ {
        unsigned_bytes(v, 4)
    } else if datatype == "INT64"@ {
        signed_bytes(v, 8)
    } else if datatype == "UINT64"@ {
        unsigned_bytes(v, 8)
    } else if datatype == "FP16"@ {
        match number_value(v) {
            Ok(n) => Ok(little_endian(half_of_number(n) as nat, 2)),
            Err(e) => Err(e),
        }
    } else if datatype == "FP32"@ {
        match number_value(v) {
            Ok(n) => Ok(little_endian(single_bits(n) as nat, 4)),
            Err(e) => Err(e),
        }
    } else if datatype == "FP64"@ {
        match number_value(v) {
            Ok(n) => Ok(little_endian(double_bits(n) as nat, 8)),
            Err(e) => Err(e),
        }
    } else if datatype == "BF16"@ {
        match number_value(v) {
            Ok(n) => Ok(little_endian(bfloat_of_number(n) as nat, 2)),
            Err(e) => Err(e),
        }
    } else if datatype == "BYTES"@ {
        match v {
            JsonV::Text(s) => Ok(
                little_endian((encode_utf8(s).len() % 0x1_0000_0000) as nat, 4) + encode_utf8(s),
            ),
            _ => Err(Refusal::NotString),
        }
    } else {
        Err(Refusal::UnknownDatatype(datatype))
    }
}

fn le_bytes(u: u64, n: u32) -> (r: Vec<u8>)
    ensures
        r@ == little_endian(u as nat, n as nat),
{
    let mut out: Vec<u8> = Vec::new();
    let mut left: u64 = u;
    let mut i: u32 = 0;
    while i < n
        invariant
            i <= n,
            out@ + little_endian(left as nat, (n - i) as nat) == little_endian(u as nat, n as nat),
        decreases n - i,
    {
        let ghost before = out@;
        let b: u8 = (left % 256) as u8;
        out.push(b);
        proof {
            assert(little_endian(left as nat, (n - i) as nat) == seq![b] + little_endian(
                (left / 256) as nat,
                (n - i - 1) as nat,
            ));
            assert(out@ + little_endian((left / 256) as nat, (n - i - 1) as nat) =~= before
                + little_endian(left as nat, (n - i) as nat));
        }
        left = left / 256;
        i = i + 1;
    }
    assert(out@ + little_endian(left as nat, 0) =~= out@);
    out
}

fn signed_le(v: &Json, n: u32) -> (r: Result<Vec<u8>, ConvertError>)
    ensures
        is_result(r, signed_bytes(v@, n as nat)),
{
    match v {
        Json::Number(JsonNumber::Unsigned(u)) => if *u <= i64::MAX as u64 {
            Ok(le_bytes(*u, n))
        } else {
            Err(ConvertError::NotInteger)
        },
        Json::Number(JsonNumber::Negative(i)) => {
            let u: u64 = if *i >= 0 {
                *i as u64
            } else {
                (*i as i128 + 0x1_0000_0000_0000_0000i128) as u64
            };
            Ok(le_bytes(u, n))
        },
        _ => Err(ConvertError::NotInteger),
    }
}

fn unsigned_le(v: &Json, n: u32) -> (r: Result<Vec<u8>, ConvertError>)
    ensures
        is_result(r, unsigned_bytes(v@, n as nat)),
{
    match v {
        Json::Number(JsonNumber::Unsigned(u)) => Ok(le_bytes(*u, n)),
        _ => Err(ConvertError::NotUnsigned),
    }
}

fn double_of(v: &Json) -> (r: Result<u64, ConvertError>)
    ensures
        match number_value(v@) {
            Ok(n) => r == Ok::<u64, ConvertError>(double_bits(n)),
            Err(e) => r matches Err(x) && x@ == e,
        },
{
    match v {
        Json::Number(n) => match n {
            JsonNumber::Unsigned(u) => Ok(u64_to_f64_bits(*u)),
            JsonNumber::Negative(i) => if *i >= 0 {
                Ok(u64_to_f64_bits(*i as u64))
            } else {
                Ok(0x8000_0000_0000_0000 + u64_to_f64_bits((-(*i as i128)) as u64))
            },
            JsonNumber::Float(b) => Ok(*b),
        },
        _ => Err(ConvertError::NotNumber),
    }
}

fn single_of(v: &Json) -> (r: Result<u32, ConvertError>)
    ensures
        match number_value(v@) {
            Ok(n) => r == Ok::<u32, ConvertError>(single_bits(n)),
            Err(e) => r matches Err(x) && x@ == e,
        },
{
    match double_of(v) {
        Ok(b) => Ok(f64_to_f32_bits(b)),
        Err(e) => Err(e),
    }
}

fn truth_of(v: &Json) -> (r: bool)
    ensures
        r == is_true(v@),
{
    match v {
        Json::Bool(b) => *b,
        Json::Number(n) => match n {
            JsonNumber::Unsigned(u) => *u != 0,
            JsonNumber::Negative(i) => *i != 0,
            JsonNumber::Float(b) => *b % 0x8000_0000_0000_0000 != 0,
        },
        _ => false,
    }
}

/// Whether `r` is the result `e`.
pub open spec fn is_result(r: Result<Vec<u8>, ConvertError>, e: Result<Seq<u8>, Refusal>) -> bool {
    match e {
        Ok(b) => r matches Ok(x) && x@ == b,
        Err(e) => r matches Err(x) && x@ == e,
    }
}

/// The bytes of one element of a tensor.
pub fn encode_value(datatype: &str, v: &Json) -> (r: Result<Vec<u8>, ConvertError>)
    ensures
        is_result(r, encoded(datatype@, v@)),
{
    if same_text(datatype, "BOOL") {
        let mut out: Vec<u8> = Vec::new();
        out.push(
            if truth_of(v) {
                1
            } else {
                0
            },
        );
        assert(out@ =~= encoded(datatype@, v@)->Ok_0);
        return Ok(out);
    }
    if same_text(datatype, "INT8") {
        return signed_le(v, 1);
    }
    if same_text(datatype, "UINT8") {
        return unsigned_le(v, 1);
    }
    if same_text(datatype, "INT16") {
        return signed_le(v, 2);
    }
    if same_text(datatype, "UINT16") {
        return unsigned_le(v, 2);
    }
    if same_text(datatype, "INT32") {
        return signed_le(v, 4);
    }
    if same_text(datatype, "UINT32") {
        return unsigned_le(v, 4);
    }
    if same_text(datatype, "INT64") {
        return signed_le(v, 8);
    }
    if same_text(datatype, "UINT64") {
        return unsigned_le(v, 8);
    }
    if same_text(datatype, "FP16") {
        return match single_of(v) {
            Ok(b) => Ok(le_bytes(f64_to_f16_bits(f32_to_f64_bits(b)) as u64, 2)),
            Err(e) => Err(e),
        };
    }
    if same_text(datatype, "FP32") {
        return match single_of(v) {
            Ok(b) => Ok(le_bytes(b as u64, 4)),
            Err(e) => Err(e),
        };
    }
    if same_text(datatype, "FP64") {
        return match double_of(v) {
            Ok(b) => Ok(le_bytes(b, 8)),
            Err(e) => Err(e),
        };
    }
    if same_text(datatype, "BF16") {
        return match double_of(v) {
            Ok(b) => Ok(le_bytes(f64_to_bf16_bits(b) as u64, 2)),
            Err(e) => Err(e),
        };
    }
    if same_text(datatype, "BYTES") {
        return match v {
            Json::Text(s) => {
                let content = s.as_str().as_bytes();
                let size: u64 = content.len() as u64 % 0x1_0000_0000;
                let mut out = le_bytes(size, 4);
                append_bytes(&mut out, content);
                Ok(out)
            },
            _ => Err(ConvertError::NotString),
        };
    }
    Err(ConvertError::UnknownDatatype(datatype.to_string()))
}

fn append_bytes(out: &mut Vec<u8>, more: &[u8])
    ensures
        final(out)@ == old(out)@ + more@,
{
    let ghost before = out@;
    let mut i: usize = 0;
    assert(before + more@.take(0) =~= before);
    while i < more.len()
        invariant
            i <= more@.len(),
            out@ == before + more@.take(i as int),
        decreases more.len() - i,
    {
        out.push(more[i]);
        assert(before + more@.take(i + 1) =~= (before + more@.take(i as int)).push(more@[i as int]));
        i = i + 1;
    }
    assert(more@.take(i as int) =~= more@);
}

/// The bytes of all elements of a tensor, one after the other.
pub open spec fn encoded_all(datatype: Seq<char>, data: Seq<JsonV>) -> Result<Seq<u8>, Refusal>
    decreases data.len(),
{
    if data.len() == 0 {
        Ok(seq![])
    } else {
        match encoded_all(datatype, data.drop_last()) {
            Err(e) => Err(e),
            Ok(before) => match encoded(datatype, data.last()) {
                Err(e) => Err(e),
                Ok(b) => Ok(before + b),
            },
        }
    }
}

proof fn first_error_stays(datatype: Seq<char>, data: Seq<JsonV>, i: int)
    requires
        0 <= i <= data.len(),
        encoded_all(datatype, data.take(i)) is Err,
    ensures
        encoded_all(datatype, data) == encoded_all(datatype, data.take(i)),
    decreases data.len() - i,
{
    if i < data.len() {
        assert(data.take(i + 1).drop_last() =~= data.take(i));
        first_error_stays(datatype, data, i + 1);
    } else {
        assert(data.take(i) =~= data);
    }
}

fn encode_all(datatype: &str, data: &Vec<Json>) -> (r: Result<Vec<u8>, ConvertError>)
    ensures
        is_result(r, encoded_all(datatype@, items_of(data@))),
{
    let ghost items = items_of(data@);
    let mut out: Vec<u8> = Vec::new();
    let mut i: usize = 0;
    assert(items.take(0) =~= seq![]);
    while i < data.len()
        invariant
            i <= data@.len(),
            items == items_of(data@),
            encoded_all(datatype@, items.take(i as int)) == Ok::<Seq<u8>, Refusal>(out@),
        decreases data.len() - i,
    {
        proof {
            assert(items.take(i + 1).drop_last() =~= items.take(i as int));
            assert(items.take(i + 1).last() == data@[i as int]@);
        }
        match encode_value(datatype, &data[i]) {
            Err(e) => {
                proof {
                    first_error_stays(datatype@, items, i + 1);
                }
                return Err(e);
            },
            Ok(b) => append_bytes(&mut out, b.as_slice()),
        }
        i = i + 1;
    }
    assert(items.take(i as int) =~= items);
    Ok(out)
}

/// `entries` without the entry of `key`.
pub open spec fn without(entries: Seq<(Seq<char>, JsonV)>, key: Seq<char>) -> Seq<
    (Seq<char>, JsonV),
>
    decreases entries.len(),
{
    if entries.len() == 0 {
        entries
    } else if entries.last().0 == key {
        without(entries.drop_last(), key)
    } else {
        without(entries.drop_last(), key).push(entries.last())
    }
}

/// `entries` with `value` for `key`.
pub open spec fn with_entry(
    entries: Seq<(Seq<char>, JsonV)>,
    key: Seq<char>,
    value: JsonV,
) -> Seq<(Seq<char>, JsonV)> {
    without(entries, key).push((key, value))
}

/// The number `n`, as a JSON value.
pub open spec fn size_value(n: nat) -> JsonV {
    JsonV::Number(JsonNumber::Unsigned(n as u64))
}

/// The entries of an output whose data left the document and takes `size`
/// bytes: they have no data, and the parameters say the size, unless they are
/// something else than an object.
pub open spec fn announced(entries: Seq<(Seq<char>, JsonV)>, size: nat) -> Seq<
    (Seq<char>, JsonV),
> {
    let rest = without(entries, "data"@);
    match entry(rest, "parameters"@) {
        None => rest.push(
            ("parameters"@, JsonV::Object(seq![("binary_data_size"@, size_value(size))])),
        ),
        Some(JsonV::Object(p)) => with_entry(
            rest,
            "parameters"@,
            JsonV::Object(with_entry(p, "binary_data_size"@, size_value(size))),
        ),
        Some(_) => rest,
    }
}

/// The name of an output, empty where it has none.
pub open spec fn output_name(out: JsonV) -> Seq<char> {
    match out.get("name"@) {
        Some(JsonV::Text(n)) => n,
        _ => seq![],
    }
}

/// Whether the output `name` is wanted in binary form.
pub open spec fn is_wanted(names: Option<Seq<Seq<char>>>, name: Seq<char>) -> bool {
    names matches Some(list) ==> list.contains(name)
}

/// An output of the response and the bytes that leave it.
pub open spec fn converted_output(out: JsonV, names: Option<Seq<Seq<char>>>) -> Result<
    (JsonV, Seq<u8>),
    Refusal,
> {
    let name = output_name(out);
    if !is_wanted(names, name) {
        Ok((out, seq![]))
    } else {
        match out.get("datatype"@) {
            Some(JsonV::Text(datatype)) => if out.get("shape"@) is None {
                Err(Refusal::MissingShape(name))
            } else {
                match out.get("data"@) {
                    Some(JsonV::Array(data)) => match encoded_all(datatype, data) {
                        Err(e) => Err(e),
                        Ok(block) => match out {
                            JsonV::Object(entries) => Ok(
                                (JsonV::Object(announced(entries, block.len())), block),
                            ),
                            _ => Ok((out, block)),
                        },
                    },
                    _ => Err(Refusal::MissingData(name)),
                }
            },
            _ => Err(Refusal::MissingDatatype(name)),
        }
    }
}

/// The outputs of the response and the bytes that leave them, one after the
/// other.
pub open spec fn converted_outputs(outs: Seq<JsonV>, names: Option<Seq<Seq<char>>>) -> Result<
    (Seq<JsonV>, Seq<u8>),
    Refusal,
>
    decreases outs.len(),
{
    if outs.len() == 0 {
        Ok((seq![], seq![]))
    } else {
        match converted_outputs(outs.drop_last(), names) {
            Err(e) => Err(e),
            Ok((before, tail)) => match converted_output(outs.last(), names) {
                Err(e) => Err(e),
                Ok((out, block)) => Ok((before.push(out), tail + block)),
            },
        }
    }
}

/// The document of the response.
pub open spec fn response_head(q: BinaryOutputRequest, outputs: Seq<JsonV>) -> JsonV {
    let named = seq![("model_name"@, JsonV::Text(q.model_name@))];
    let versioned = match q.model_version {
        Some(v) => named.push(("model_version"@, JsonV::Text(v@))),
        None => named,
    };
    let identified = match q.id {
        Some(i) => versioned.push(("id"@, JsonV::Text(i@))),
        None => versioned,
    };
    JsonV::Object(identified.push(("outputs"@, JsonV::Array(outputs))))
}

/// The response in binary form: its document and the bytes behind it.
pub open spec fn conversion(v: JsonV, q: BinaryOutputRequest) -> Result<
    (JsonV, Seq<u8>),
    Refusal,
> {
    match v.get("outputs"@) {
        Some(JsonV::Array(outs)) => match converted_outputs(outs, opt_texts(q.binary_outputs)) {
            Err(e) => Err(e),
            Ok((outputs, tail)) => Ok((response_head(q, outputs), tail)),
        },
        _ => Err(Refusal::NotEnvelope),
    }
}

fn without_key(o: &Vec<(String, Json)>, key: &str) -> (r: Vec<(String, Json)>)
    ensures
        entries_of(r@) == without(entries_of(o@), key@),
{
    let ghost entries = entries_of(o@);
    let mut out: Vec<(String, Json)> = Vec::new();
    let mut i: usize = 0;
    assert(entries.take(0) =~= seq![]);
    assert(entries_of(out@) =~= seq![]);
    while i < o.len()
        invariant
            i <= o@.len(),
            entries == entries_of(o@),
            entries_of(out@) == without(entries.take(i as int), key@),
        decreases o.len() - i,
    {
        proof {
            assert(entries.take(i + 1).drop_last() =~= entries.take(i as int));
            assert(entries.take(i + 1).last() == (o@[i as int].0@, o@[i as int].1@));
        }
        if !same_text(o[i].0.as_str(), key) {
            let ghost before = out@;
            let x = clone_json(&o[i].1);
            out.push((o[i].0.clone(), x));
            assert(entries_of(out@) =~= entries_of(before).push((o@[i as int].0@, o@[i as int].1@)));
        }
        i = i + 1;
    }
    assert(entries.take(i as int) =~= entries);
    out
}

fn object_of(entries: Vec<(String, Json)>) -> (r: Json)
    ensures
        r@ == JsonV::Object(entries_of(entries@)),
{
    let r = Json::Object(entries);
    proof {
        view_of_parts(r);
    }
    r
}

fn array_of(items: Vec<Json>) -> (r: Json)
    ensures
        r@ == JsonV::Array(items_of(items@)),
{
    let r = Json::Array(items);
    proof {
        view_of_parts(r);
    }
    r
}

fn push_entry(o: &mut Vec<(String, Json)>, key: &str, v: Json)
    ensures
        entries_of(final(o)@) == entries_of(old(o)@).push((key@, v@)),
{
    o.push((key.to_string(), v));
    assert(entries_of(o@) =~= entries_of(old(o)@).push((key@, v@)));
}

fn announce(o: &Vec<(String, Json)>, size: usize) -> (r: Json)
    ensures
        r@ == JsonV::Object(announced(entries_of(o@), size as nat)),
{
    let mut rest = without_key(o, "data");
    let number = Json::Number(JsonNumber::Unsigned(size as u64));
    assert(number@ == size_value(size as nat));
    let probe = object_of(rest);
    let params = match get(&probe, "parameters") {
        None => {
            let mut p: Vec<(String, Json)> = Vec::new();
            assert(entries_of(p@) =~= seq![]);
            push_entry(&mut p, "binary_data_size", number);
            assert(entries_of(p@) =~= seq![("binary_data_size"@, size_value(size as nat))]);
            Some((object_of(p), false))
        },
        Some(Json::Object(p)) => {
            proof {
                view_of_parts(Json::Object(*p));
            }
            let mut fresh = without_key(p, "binary_data_size");
            push_entry(&mut fresh, "binary_data_size", number);
            Some((object_of(fresh), true))
        },
        Some(_) => None,
    };
    match params {
        None => probe,
        Some((p, replace)) => {
            let mut out = without_key(o, "data");
            if replace {
                out = without_key(&out, "parameters");
            }
            push_entry(&mut out, "parameters", p);
            object_of(out)
        },
    }
}

fn name_of(out: &Json) -> (r: String)
    ensures
        r@ == output_name(out@),
{
    match get(out, "name") {
        Some(Json::Text(n)) => n.clone(),
        _ => {
            let e = String::new();
            assert(e@ =~= seq![]);
            e
        },
    }
}

fn wants(names: &Option<Vec<String>>, name: &str) -> (r: bool)
    ensures
        r == is_wanted(opt_texts(*names), name@),
{
    match names {
        None => true,
        Some(list) => {
            let ghost all = texts(list@);
            let mut i: usize = 0;
            while i < list.len()
                invariant
                    i <= list@.len(),
                    all == texts(list@),
                    opt_texts(*names) == Some(all),
                    forall|j: int| 0 <= j < i ==> #[trigger] all[j] != name@,
                decreases list.len() - i,
            {
                if same_text(list[i].as_str(), name) {
                    assert(all[i as int] == name@);
                    return true;
                }
                i = i + 1;
            }
            assert(!all.contains(name@));
            false
        },
    }
}

fn convert_output(out: &Json, names: &Option<Vec<String>>) -> (r: Result<
    (Json, Vec<u8>),
    ConvertError,
>)
    ensures
        match converted_output(out@, opt_texts(*names)) {
            Ok((o, b)) => r matches Ok(x) && x.0@ == o && x.1@ == b,
            Err(e) => r matches Err(x) && x@ == e,
        },
{
    let name = name_of(out);
    if !wants(names, name.as_str()) {
        let none: Vec<u8> = Vec::new();
        assert(none@ =~= seq![]);
        return Ok((clone_json(out), none));
    }
    let datatype = match get(out, "datatype") {
        Some(Json::Text(d)) => d.clone(),
        _ => return Err(ConvertError::MissingDatatype(name)),
    };
    if get(out, "shape").is_none() {
        return Err(ConvertError::MissingShape(name));
    }
    let block = match get(out, "data") {
        Some(Json::Array(data)) => {
            proof {
                view_of_parts(Json::Array(*data));
            }
            match encode_all(datatype.as_str(), data) {
                Ok(b) => b,
                Err(e) => return Err(e),
            }
        },
        _ => return Err(ConvertError::MissingData(name)),
    };
    match out {
        Json::Object(o) => {
            proof {
                view_of_parts(*out);
            }
            Ok((announce(o, block.len()), block))
        },
        _ => Ok((clone_json(out), block)),
    }
}

proof fn first_refusal_stays(outs: Seq<JsonV>, names: Option<Seq<Seq<char>>>, i: int)
    requires
        0 <= i <= outs.len(),
        converted_outputs(outs.take(i), names) is Err,
    ensures
        converted_outputs(outs, names) == converted_outputs(outs.take(i), names),
    decreases outs.len() - i,
{
    if i < outs.len() {
        assert(outs.take(i + 1).drop_last() =~= outs.take(i));
        first_refusal_stays(outs, names, i + 1);
    } else {
        assert(outs.take(i) =~= outs);
    }
}

fn convert_outputs(outs: &Vec<Json>, names: &Option<Vec<String>>) -> (r: Result<
    (Vec<Json>, Vec<u8>),
    ConvertError,
>)
    ensures
        match converted_outputs(items_of(outs@), opt_texts(*names)) {
            Ok((o, b)) => r matches Ok(x) && items_of(x.0@) == o && x.1@ == b,
            Err(e) => r matches Err(x) && x@ == e,
        },
{
    let ghost items = items_of(outs@);
    let ghost wanted = opt_texts(*names);
    let mut done: Vec<Json> = Vec::new();
    let mut tail: Vec<u8> = Vec::new();
    let mut i: usize = 0;
    assert(items.take(0) =~= seq![]);
    assert(items_of(done@) =~= seq![]);
    assert(tail@ =~= seq![]);
    while i < outs.len()
        invariant
            i <= outs@.len(),
            items == items_of(outs@),
            wanted == opt_texts(*names),
            converted_outputs(items.take(i as int), wanted) == Ok::<(Seq<JsonV>, Seq<u8>), Refusal>(
                (items_of(done@), tail@),
            ),
        decreases outs.len() - i,
    {
        proof {
            assert(items.take(i + 1).drop_last() =~= items.take(i as int));
            assert(items.take(i + 1).last() == outs@[i as int]@);
        }
        match convert_output(&outs[i], names) {
            Err(e) => {
                proof {
                    first_refusal_stays(items, wanted, i + 1);
                }
                return Err(e);
            },
            Ok((o, block)) => {
                let ghost before = done@;
                done.push(o);
                assert(items_of(done@) =~= items_of(before).push(o@));
                append_bytes(&mut tail, block.as_slice());
            },
        }
        i = i + 1;
    }
    assert(items.take(i as int) =~= items);
    Ok((done, tail))
}

fn head_of(q: &BinaryOutputRequest, outputs: Vec<Json>) -> (r: Json)
    ensures
        r@ == response_head(*q, items_of(outputs@)),
{
    let mut o: Vec<(String, Json)> = Vec::new();
    assert(entries_of(o@) =~= seq![]);
    push_entry(&mut o, "model_name", Json::Text(q.model_name.clone()));
    assert(entries_of(o@) =~= seq![("model_name"@, JsonV::Text(q.model_name@))]);
    if let Some(v) = &q.model_version {
        push_entry(&mut o, "model_version", Json::Text(v.clone()));
    }
    if let Some(i) = &q.id {
        push_entry(&mut o, "id", Json::Text(i.clone()));
    }
    push_entry(&mut o, "outputs", array_of(outputs));
    object_of(o)
}

/// A response in binary form: the bytes of its document and of its tensors.
pub struct BinaryResponse {
    pub body: Vec<u8>,
    /// How many of the bytes are the document.
    pub head_len: usize,
}

/// Whether `b` is the document `head` with `tail` behind it.
pub open spec fn is_binary_response(b: BinaryResponse, head: JsonV, tail: Seq<u8>) -> bool {
    &&& b.body@ == encode_utf8(json_text(head)) + tail
    &&& b.head_len == encode_utf8(json_text(head)).len()
}

/// Moves the wanted outputs of a response out of its document. The document that
/// is written has every entry of the head.
pub fn convert_document(v: &Json, q: &BinaryOutputRequest) -> (r: Result<
    BinaryResponse,
    ConvertError,
>)
    ensures
        match conversion(v@, *q) {
            Ok((head, tail)) => {
                &&& r matches Ok(b) && is_binary_response(b, head, tail)
                &&& well_keyed(v@) ==> is_kept_whole(head)
            },
            Err(e) => r matches Err(x) && x@ == e,
        },
{
    let (outputs, tail) = match get(v, "outputs") {
        Some(Json::Array(outs)) => {
            proof {
                view_of_parts(Json::Array(*outs));
            }
            match convert_outputs(outs, &q.binary_outputs) {
                Ok(x) => x,
                Err(e) => return Err(e),
            }
        },
        _ => return Err(ConvertError::NotEnvelope),
    };
    let head = head_of(q, outputs);
    proof {
        if well_keyed(v@) {
            conversion_keeps_keys_apart(v@, *q);
        }
    }
    let text = print_json(&head);
    let bytes = text.as_str().as_bytes();
    let mut body: Vec<u8> = Vec::new();
    append_bytes(&mut body, bytes);
    assert(body@ =~= bytes@);
    let head_len: usize = body.len();
    append_bytes(&mut body, tail.as_slice());
    Ok(BinaryResponse { body, head_len })
}

/// Moves the wanted outputs of a response body out of its document. The document
/// that is written has every entry of the head.
pub fn convert_body(body: &[u8], q: &BinaryOutputRequest) -> (r: Result<
    BinaryResponse,
    ConvertError,
>)
    ensures
        match parsed(body@) {
            None => r matches Err(x) && x@ == Refusal::NotEnvelope,
            Some(v) => match conversion(v, *q) {
                Ok((head, tail)) => {
                    &&& r matches Ok(b) && is_binary_response(b, head, tail)
                    &&& is_kept_whole(head)
                },
                Err(e) => r matches Err(x) && x@ == e,
            },
        },
{
    match parse_json(body) {
        None => Err(ConvertError::NotEnvelope),
        Some(v) => convert_document(&v, q),
    }
}

/// Whether a response is one to be converted: a successful one in JSON.
pub fn is_convertible(content_type: &str, status: u16) -> (r: bool)
    ensures
        r == (has_prefix(content_type@, "application/json"@) && 200 <= status < 300),
{
    let ct = to_chars(content_type);
    starts_with(ct.as_slice(), "application/json") && 200 <= status && status < 300
}

/// `s` with the letters A to Z in lower case.
pub open spec fn lower(s: Seq<char>) -> Seq<char> {
    Seq::new(
        s.len(),
        |i: int|
            if 65 <= s[i] as u32 <= 90 {
                (s[i] as u32 + 32) as char
            } else {
                s[i]
            },
    )
}

/// Whether a header of the response is kept: all but those of the length and
/// the type of its content.
pub fn keeps_header(name: &str) -> (r: bool)
    ensures
        r == (lower(name@) != "content-type"@ && lower(name@) != "content-length"@),
{
    let chars = to_chars(name);
    let mut low: Vec<char> = Vec::new();
    let mut i: usize = 0;
    while i < chars.len()
        invariant
            i <= chars@.len(),
            chars@ == name@,
            low@ == lower(name@).take(i as int),
        decreases chars.len() - i,
    {
        let c = lower_char(chars[i]);
        low.push(c);
        assert(lower(name@).take(i + 1) =~= lower(name@).take(i as int).push(
            lower(name@)[i as int],
        ));
        i = i + 1;
    }
    assert(lower(name@).take(i as int) =~= lower(name@));
    let ty = to_chars("content-type");
    let len = to_chars("content-length");
    !crate::text::same_chars(low.as_slice(), ty.as_slice()) && !crate::text::same_chars(
        low.as_slice(),
        len.as_slice(),
    )
}

pub(crate) fn lower_char(c: char) -> (r: char)
    ensures
        r == if 65 <= c as u32 <= 90 {
            (c as u32 + 32) as char
        } else {
            c
        },
{
    let u: u32 = c as u32;
    if 65 <= u && u <= 90 {
        match char::from_u32(u + 32) {
            Some(d) => {
                proof {
                    vstd::utf8::char_u32_cast(d, (u + 32) as u32);
                }
                d
            },
            None => c,
        }
    } else {
        c
    }
}

proof fn entry_of_pushed(entries: Seq<(Seq<char>, JsonV)>, key: Seq<char>, v: JsonV)
    requires
        forall|i: int| 0 <= i < entries.len() ==> (#[trigger] entries[i]).0 != key,
    ensures
        entry(entries.push((key, v)), key) == Some(v),
    decreases entries.len(),
{
    if entries.len() > 0 {
        let t = entries.subrange(1, entries.len() as int);
        assert(entries.push((key, v)).subrange(1, (entries.len() + 1) as int) =~= t.push((key, v)));
        assert(entries[0].0 != key);
        entry_of_pushed(t, key, v);
    }
}

proof fn without_has_no_key(entries: Seq<(Seq<char>, JsonV)>, key: Seq<char>, i: int)
    requires
        0 <= i < without(entries, key).len(),
    ensures
        without(entries, key)[i].0 != key,
    decreases entries.len(),
{
    if i < without(entries.drop_last(), key).len() {
        without_has_no_key(entries.drop_last(), key, i);
    }
}

/// The size that the document announces for an output without parameters, or
/// with an object as parameters, is the number of bytes that left it.
pub proof fn announced_size_is_the_size(entries: Seq<(Seq<char>, JsonV)>, size: nat)
    requires
        entry(without(entries, "data"@), "parameters"@) matches Some(p) ==> p is Object,
    ensures
        ({
            let out = JsonV::Object(announced(entries, size));
            out.get("parameters"@) matches Some(p) && p.get("binary_data_size"@) == Some(
                size_value(size),
            )
        }),
{
    let rest = without(entries, "data"@);
    let key = "parameters"@;
    let inner = "binary_data_size"@;
    match entry(rest, key) {
        None => {
            no_entry_no_key(rest, key);
            let p = JsonV::Object(seq![(inner, size_value(size))]);
            entry_of_pushed(rest, key, p);
        },
        Some(JsonV::Object(ps)) => {
            let fresh = without(ps, inner);
            assert forall|i: int| 0 <= i < fresh.len() implies (#[trigger] fresh[i]).0 != inner by {
                without_has_no_key(ps, inner, i);
            }
            entry_of_pushed(fresh, inner, size_value(size));
            let outer = without(rest, key);
            assert forall|i: int| 0 <= i < outer.len() implies (#[trigger] outer[i]).0 != key by {
                without_has_no_key(rest, key, i);
            }
            entry_of_pushed(
                outer,
                key,
                JsonV::Object(with_entry(ps, inner, size_value(size))),
            );
        },
        Some(_) => {},
    }
}

proof fn no_entry_no_key(entries: Seq<(Seq<char>, JsonV)>, key: Seq<char>)
    requires
        entry(entries, key) is None,
    ensures
        forall|i: int| 0 <= i < entries.len() ==> (#[trigger] entries[i]).0 != key,
    decreases entries.len(),
{
    if entries.len() > 0 {
        let t = entries.subrange(1, entries.len() as int);
        no_entry_no_key(t, key);
        assert forall|i: int| 0 <= i < entries.len() implies (#[trigger] entries[i]).0 != key by {
            if i > 0 {
                assert(t[i - 1].0 != key);
            }
        }
    }
}

/// The number of bytes that outputs take is the sum of what each of them
/// takes: the bytes of the outputs follow each other without gaps.
pub proof fn blocks_follow_each_other(outs: Seq<JsonV>, names: Option<Seq<Seq<char>>>, i: int)
    requires
        0 <= i < outs.len(),
        converted_outputs(outs, names) is Ok,
    ensures
        converted_output(outs[i], names) is Ok,
        converted_outputs(outs.take(i), names) is Ok,
        ({
            let (done, tail) = converted_outputs(outs, names)->Ok_0;
            let (before, head) = converted_outputs(outs.take(i), names)->Ok_0;
            let (out, block) = converted_output(outs[i], names)->Ok_0;
            &&& done.len() == outs.len()
            &&& done[i] == out
            &&& head.len() + block.len() <= tail.len()
            &&& tail.subrange(head.len() as int, (head.len() + block.len()) as int) == block
        }),
    decreases outs.len(),
{
    let last = outs.drop_last();
    conversion_keeps_the_number(outs, names);
    if i < last.len() {
        blocks_follow_each_other(last, names, i);
        assert(last.take(i) =~= outs.take(i));
        let (done, tail) = converted_outputs(outs, names)->Ok_0;
        let (done0, tail0) = converted_outputs(last, names)->Ok_0;
        let (before, head) = converted_outputs(outs.take(i), names)->Ok_0;
        let (out, block) = converted_output(outs[i], names)->Ok_0;
        assert(tail.subrange(head.len() as int, (head.len() + block.len()) as int) =~= tail0.subrange(
            head.len() as int,
            (head.len() + block.len()) as int,
        ));
    } else {
        assert(outs.take(i) =~= last);
        conversion_keeps_the_number(last, names);
        let (done, tail) = converted_outputs(outs, names)->Ok_0;
        let (before, head) = converted_outputs(last, names)->Ok_0;
        let (out, block) = converted_output(outs[i], names)->Ok_0;
        assert(tail.subrange(head.len() as int, (head.len() + block.len()) as int) =~= block);
    }
}

proof fn conversion_keeps_the_number(outs: Seq<JsonV>, names: Option<Seq<Seq<char>>>)
    requires
        converted_outputs(outs, names) is Ok,
    ensures
        converted_outputs(outs, names)->Ok_0.0.len() == outs.len(),
        outs.len() > 0 ==> converted_outputs(outs.drop_last(), names) is Ok,
    decreases outs.len(),
{
    if outs.len() > 0 {
        conversion_keeps_the_number(outs.drop_last(), names);
    }
}

/// Whether the keys of `entries`, and of every object in them, are distinct.
spec fn apart(entries: Seq<(Seq<char>, JsonV)>) -> bool {
    keys_differ(entries) && entries_well_keyed(entries)
}

proof fn without_takes_from(entries: Seq<(Seq<char>, JsonV)>, key: Seq<char>, i: int) -> (j: int)
    requires
        0 <= i < without(entries, key).len(),
    ensures
        0 <= j < entries.len(),
        without(entries, key)[i] == entries[j],
    decreases entries.len(),
{
    let front = without(entries.drop_last(), key);
    if i < front.len() {
        without_takes_from(entries.drop_last(), key, i)
    } else {
        entries.len() - 1
    }
}

proof fn without_keeps_apart(entries: Seq<(Seq<char>, JsonV)>, key: Seq<char>)
    requires
        apart(entries),
    ensures
        apart(without(entries, key)),
    decreases entries.len(),
{
    if entries.len() > 0 {
        let front = entries.drop_last();
        let rest = without(front, key);
        assert forall|i: int| 0 <= i < front.len() implies well_keyed((#[trigger] front[i]).1) by {
            assert(front[i] == entries[i]);
        }
        assert forall|i: int, j: int| 0 <= i < j < front.len() implies (#[trigger] front[i]).0 != (
        #[trigger] front[j]).0 by {
            assert(entries[i].0 != entries[j].0);
        }
        without_keeps_apart(front, key);
        if entries.last().0 != key {
            assert(well_keyed(entries[entries.len() - 1].1));
            assert forall|i: int| 0 <= i < rest.len() implies (#[trigger] rest[i]).0
                != entries.last().0 by {
                let j = without_takes_from(front, key, i);
                assert(front[j] == entries[j]);
                assert(entries[j].0 != entries[entries.len() - 1].0);
            }
            push_keeps_apart(rest, entries.last().0, entries.last().1);
            assert(entries.last() == (entries.last().0, entries.last().1));
        }
    }
}

proof fn push_keeps_apart(entries: Seq<(Seq<char>, JsonV)>, key: Seq<char>, v: JsonV)
    requires
        apart(entries),
        forall|i: int| 0 <= i < entries.len() ==> (#[trigger] entries[i]).0 != key,
        well_keyed(v),
    ensures
        apart(entries.push((key, v))),
{
    let more = entries.push((key, v));
    assert forall|i: int, j: int| 0 <= i < j < more.len() implies (#[trigger] more[i]).0 != (
    #[trigger] more[j]).0 by {
        assert(more[i] == entries[i]);
        if j < entries.len() {
            assert(more[j] == entries[j]);
        }
    }
    assert forall|i: int| 0 <= i < more.len() implies well_keyed((#[trigger] more[i]).1) by {
        if i < entries.len() {
            assert(more[i] == entries[i]);
        }
    }
}

proof fn with_entry_keeps_apart(entries: Seq<(Seq<char>, JsonV)>, key: Seq<char>, v: JsonV)
    requires
        apart(entries),
        well_keyed(v),
    ensures
        apart(with_entry(entries, key, v)),
{
    let rest = without(entries, key);
    without_keeps_apart(entries, key);
    assert forall|i: int| 0 <= i < rest.len() implies (#[trigger] rest[i]).0 != key by {
        without_has_no_key(entries, key, i);
    }
    push_keeps_apart(rest, key, v);
}

proof fn entry_keeps_apart(entries: Seq<(Seq<char>, JsonV)>, key: Seq<char>)
    requires
        entries_well_keyed(entries),
    ensures
        entry(entries, key) matches Some(v) ==> well_keyed(v),
{
    entry_is_there(entries, key);
    if let Some(v) = entry(entries, key) {
        let i = choose|i: int| 0 <= i < entries.len() && entries[i] == (key, v);
        assert(well_keyed(entries[i].1));
    }
}

proof fn announcing_keeps_apart(entries: Seq<(Seq<char>, JsonV)>, size: nat)
    requires
        apart(entries),
    ensures
        apart(announced(entries, size)),
{
    let rest = without(entries, "data"@);
    let key = "parameters"@;
    let inner = "binary_data_size"@;
    without_keeps_apart(entries, "data"@);
    entry_keeps_apart(rest, key);
    match entry(rest, key) {
        None => {
            no_entry_no_key(rest, key);
            let params = seq![(inner, size_value(size))];
            assert(entries_well_keyed(params)) by {
                assert(well_keyed(size_value(size)));
            }
            assert(well_keyed(JsonV::Object(params)));
            push_keeps_apart(rest, key, JsonV::Object(params));
        },
        Some(JsonV::Object(p)) => {
            with_entry_keeps_apart(p, inner, size_value(size));
            with_entry_keeps_apart(
                rest,
                key,
                JsonV::Object(with_entry(p, inner, size_value(size))),
            );
        },
        Some(_) => {},
    }
}

proof fn converted_keeps_apart(outs: Seq<JsonV>, names: Option<Seq<Seq<char>>>)
    requires
        all_well_keyed(outs),
        converted_outputs(outs, names) is Ok,
    ensures
        all_well_keyed(converted_outputs(outs, names)->Ok_0.0),
    decreases outs.len(),
{
    if outs.len() > 0 {
        let front = outs.drop_last();
        assert forall|i: int| 0 <= i < front.len() implies well_keyed(#[trigger] front[i]) by {
            assert(front[i] == outs[i]);
        }
        converted_keeps_apart(front, names);
        assert(well_keyed(outs[outs.len() - 1]));
        let out = converted_output(outs.last(), names)->Ok_0;
        if let JsonV::Object(entries) = outs.last() {
            announcing_keeps_apart(entries, out.1.len());
        }
        let before = converted_outputs(front, names)->Ok_0.0;
        let done = before.push(out.0);
        assert forall|i: int| 0 <= i < done.len() implies well_keyed(#[trigger] done[i]) by {
            if i < before.len() {
                assert(done[i] == before[i]);
            }
        }
    }
}

/// The keys of the document of a response are distinct where those of the
/// document that it is made of are.
pub proof fn conversion_keeps_keys_apart(v: JsonV, q: BinaryOutputRequest)
    requires
        well_keyed(v),
        conversion(v, q) is Ok,
    ensures
        well_keyed(conversion(v, q)->Ok_0.0),
{
    reveal_strlit("model_name");
    reveal_strlit("model_version");
    reveal_strlit("id");
    reveal_strlit("outputs");
    entry_keeps_apart(v->Object_0, "outputs"@);
    let outs = v.get("outputs"@)->0->Array_0;
    let names = opt_texts(q.binary_outputs);
    converted_keeps_apart(outs, names);
    let outputs = converted_outputs(outs, names)->Ok_0.0;
    assert("model_name"@.len() == 10 && "model_version"@.len() == 13 && "id"@.len() == 2
        && "outputs"@.len() == 7);
    let named = seq![("model_name"@, JsonV::Text(q.model_name@))];
    assert(apart(named)) by {
        assert(well_keyed(named[0].1));
    }
    let versioned = match q.model_version {
        Some(x) => {
            push_keeps_apart(named, "model_version"@, JsonV::Text(x@));
            named.push(("model_version"@, JsonV::Text(x@)))
        },
        None => named,
    };
    let identified = match q.id {
        Some(x) => {
            push_keeps_apart(versioned, "id"@, JsonV::Text(x@));
            versioned.push(("id"@, JsonV::Text(x@)))
        },
        None => versioned,
    };
    push_keeps_apart(identified, "outputs"@, JsonV::Array(outputs));
}

proof fn entry_behind(entries: Seq<(Seq<char>, JsonV)>, last: (Seq<char>, JsonV), key: Seq<char>)
    ensures
        entry(entries.push(last), key) == match entry(entries, key) {
            Some(v) => Some(v),
            None => if last.0 == key {
                Some(last.1)
            } else {
                None
            },
        },
    decreases entries.len(),
{
    reveal_with_fuel(entry, 2);
    let more = entries.push(last);
    if entries.len() == 0 {
        assert(more.subrange(1, 1) =~= Seq::empty());
    } else {
        let tail = entries.subrange(1, entries.len() as int);
        assert(more.subrange(1, more.len() as int) =~= tail.push(last));
        entry_behind(tail, last, key);
    }
}

/// Taking the entry of a key away leaves the values of the other keys as they are.
pub proof fn only_the_key_is_taken_away(
    entries: Seq<(Seq<char>, JsonV)>,
    key: Seq<char>,
    other: Seq<char>,
)
    ensures
        entry(without(entries, key), key) is None,
        other != key ==> entry(without(entries, key), other) == entry(entries, other),
    decreases entries.len(),
{
    if entries.len() > 0 {
        let front = entries.drop_last();
        only_the_key_is_taken_away(front, key, other);
        assert(front.push(entries.last()) =~= entries);
        entry_behind(front, entries.last(), other);
        entry_behind(front, entries.last(), key);
        entry_behind(without(front, key), entries.last(), other);
        entry_behind(without(front, key), entries.last(), key);
    }
}

/// An output that is not wanted in binary form stays as it is and gives no bytes:
/// all are wanted where no names are given, and those with the names otherwise.
pub proof fn unwanted_outputs_stay(out: JsonV, names: Seq<Seq<char>>)
    requires
        match out.get("name"@) {
            Some(JsonV::Text(n)) => !names.contains(n),
            _ => !names.contains(Seq::empty()),
        },
    ensures
        converted_output(out, Some(names)) == Ok::<(JsonV, Seq<u8>), Refusal>((out, Seq::empty())),
{
    assert(seq![] =~= Seq::<u8>::empty());
}

/// An output that is wanted gives the bytes of its data and loses nothing else: its
/// data is gone, every other entry but the parameters is as it was, and of the
/// parameters every entry but the size.
pub proof fn wanted_outputs_lose_their_data_only(
    out: JsonV,
    names: Option<Seq<Seq<char>>>,
    name: Seq<char>,
    datatype: Seq<char>,
    data: Seq<JsonV>,
    block: Seq<u8>,
    key: Seq<char>,
)
    requires
        out.get("name"@) == Some(JsonV::Text(name)),
        names matches Some(list) ==> list.contains(name),
        out.get("datatype"@) == Some(JsonV::Text(datatype)),
        out.get("shape"@) is Some,
        out.get("data"@) == Some(JsonV::Array(data)),
        encoded_all(datatype, data) == Ok::<Seq<u8>, Refusal>(block),
    ensures
        converted_output(out, names) is Ok,
        converted_output(out, names)->Ok_0.1 == block,
        ({
            let o = converted_output(out, names)->Ok_0.0;
            &&& o.get("data"@) is None
            &&& key != "data"@ && key != "parameters"@ ==> o.get(key) == out.get(key)
            &&& key != "binary_data_size"@ ==> (out.get("parameters"@) matches Some(p) ==> (o.get(
                "parameters"@,
            ) matches Some(x) && x.get(key) == p.get(key)))
        }),
{
    reveal_strlit("data");
    reveal_strlit("parameters");
    assert("data"@.len() == 4 && "parameters"@.len() == 10);
    let entries = out->Object_0;
    let size = block.len();
    let inner = "binary_data_size"@;
    let rest = without(entries, "data"@);
    only_the_key_is_taken_away(entries, "data"@, key);
    only_the_key_is_taken_away(entries, "data"@, "parameters"@);
    match entry(rest, "parameters"@) {
        None => {
            let one = ("parameters"@, JsonV::Object(seq![(inner, size_value(size))]));
            entry_behind(rest, one, key);
            entry_behind(rest, one, "data"@);
        },
        Some(JsonV::Object(p)) => {
            let one = ("parameters"@, JsonV::Object(with_entry(p, inner, size_value(size))));
            let outer = without(rest, "parameters"@);
            only_the_key_is_taken_away(rest, "parameters"@, key);
            only_the_key_is_taken_away(rest, "parameters"@, "data"@);
            only_the_key_is_taken_away(p, inner, key);
            entry_behind(outer, one, key);
            entry_behind(outer, one, "data"@);
            entry_behind(outer, one, "parameters"@);
            entry_behind(without(p, inner), (inner, size_value(size)), key);
        },
        Some(_) => {},
    }
}

/// A wanted output without a data type, without a shape or without data, looked at
/// in this order, is refused by its name.
pub proof fn incomplete_outputs_are_refused(
    out: JsonV,
    names: Option<Seq<Seq<char>>>,
    name: Seq<char>,
)
    requires
        out.get("name"@) == Some(JsonV::Text(name)),
        names matches Some(list) ==> list.contains(name),
    ensures
        !(out.get("datatype"@) matches Some(d) && d is Text) ==> converted_output(out, names)
            == Err::<(JsonV, Seq<u8>), Refusal>(Refusal::MissingDatatype(name)),
        (out.get("datatype"@) matches Some(d) && d is Text) && out.get("shape"@) is None
            ==> converted_output(out, names) == Err::<(JsonV, Seq<u8>), Refusal>(
            Refusal::MissingShape(name),
        ),
        (out.get("datatype"@) matches Some(d) && d is Text) && out.get("shape"@) is Some && !(
        out.get("data"@) matches Some(a) && a is Array) ==> converted_output(out, names) == Err::<
            (JsonV, Seq<u8>),
            Refusal,
        >(Refusal::MissingData(name)),
{
}

/// A name is among those that are wanted in binary form exactly where an output
/// with that name asks for it.
pub proof fn outputs_are_wanted_by_their_flag(outputs: Seq<JsonV>, name: Seq<char>)
    ensures
        wanted_names(outputs).contains(name) <==> exists|i: int|
            {
                &&& 0 <= i < outputs.len()
                &&& (#[trigger] outputs[i]).get("name"@) == Some(JsonV::Text(name))
                &&& outputs[i].get("parameters"@) matches Some(p) && p.get("binary_data"@) == Some(
                    JsonV::Bool(true),
                )
            },
    decreases outputs.len(),
{
    if outputs.len() > 0 {
        let front = outputs.drop_last();
        let before = wanted_names(front);
        let all = wanted_names(outputs);
        outputs_are_wanted_by_their_flag(front, name);
        assert(front.push(outputs.last()) =~= outputs);
        if all.contains(name) {
            let k = choose|k: int| 0 <= k < all.len() && all[k] == name;
            if k < before.len() {
                assert(before[k] == name);
                let i = choose|i: int|
                    {
                        &&& 0 <= i < front.len()
                        &&& (#[trigger] front[i]).get("name"@) == Some(JsonV::Text(name))
                        &&& front[i].get("parameters"@) matches Some(p) && p.get("binary_data"@)
                            == Some(JsonV::Bool(true))
                    };
                assert(outputs[i] == front[i]);
            } else {
                assert(outputs[outputs.len() - 1].get("name"@) == Some(JsonV::Text(name)));
            }
        }
        if exists|i: int|
            {
                &&& 0 <= i < outputs.len()
                &&& (#[trigger] outputs[i]).get("name"@) == Some(JsonV::Text(name))
                &&& outputs[i].get("parameters"@) matches Some(p) && p.get("binary_data"@) == Some(
                    JsonV::Bool(true),
                )
            } {
            let i = choose|i: int|
                {
                    &&& 0 <= i < outputs.len()
                    &&& (#[trigger] outputs[i]).get("name"@) == Some(JsonV::Text(name))
                    &&& outputs[i].get("parameters"@) matches Some(p) && p.get("binary_data"@)
                        == Some(JsonV::Bool(true))
                };
            if i < front.len() {
                assert(front[i] == outputs[i]);
                assert(before.contains(name));
                let k = choose|k: int| 0 <= k < before.len() && before[k] == name;
                assert(all[k] == name);
            } else {
                assert(all[all.len() - 1] == name);
            }
        } else {
            assert(!all.contains(name));
        }
    } else {
        assert(!wanted_names(outputs).contains(name));
    }
}

/// A request with the flag for all its outputs wants all of them, one with the flag
/// at an output wants that one, and one without a flag wants none. Without inputs,
/// or with an input that has no name, no shape or no data type, it is no request.
pub proof fn requests_say_what_they_want(v: JsonV, outputs: Seq<JsonV>, i: int, inputs: Seq<JsonV>)
    requires
        v.get("outputs"@) == Some(JsonV::Array(outputs)),
        0 <= i < outputs.len(),
        v.get("inputs"@) == Some(JsonV::Array(inputs)),
    ensures
        inputs.len() == 0 ==> !wants_binary(v),
        forall|j: int|
            0 <= j < inputs.len() && ((#[trigger] inputs[j]).get("name"@) is None || inputs[j].get(
                "shape"@,
            ) is None || inputs[j].get("datatype"@) is None) ==> !wants_binary(v),
        is_envelope(v) && (v.get("parameters"@) matches Some(p) && p.get("binary_data_output"@)
            == Some(JsonV::Bool(true))) ==> wants_binary(v),
        is_envelope(v) && (outputs[i].get("parameters"@) matches Some(p) && p.get("binary_data"@)
            == Some(JsonV::Bool(true))) && (outputs[i].get("name"@) matches Some(n) && n is Text)
            ==> wants_binary(v),
        wants_binary(v) ==> {
            ||| (v.get("parameters"@) matches Some(p) && p.get("binary_data_output"@) == Some(
                JsonV::Bool(true),
            ))
            ||| exists|j: int|
                0 <= j < outputs.len() && ((#[trigger] outputs[j]).get("parameters"@) matches Some(p)
                    && p.get("binary_data"@) == Some(JsonV::Bool(true)))
        },
{
    if let Some(JsonV::Text(n)) = outputs[i].get("name"@) {
        outputs_are_wanted_by_their_flag(outputs, n);
    }
    let names = wanted_names(outputs);
    if names.len() > 0 {
        assert(names.contains(names[0]));
        outputs_are_wanted_by_their_flag(outputs, names[0]);
    }
}

/// The document of a response has the name of the model, its version and the
/// request's identifier where there are any, and the outputs, and nothing else.
pub proof fn the_head_has_its_entries(q: BinaryOutputRequest, outputs: Seq<JsonV>, key: Seq<char>)
    ensures
        ({
            let head = response_head(q, outputs);
            &&& head.get("model_name"@) == Some(JsonV::Text(q.model_name@))
            &&& head.get("model_version"@) == match q.model_version {
                Some(v) => Some(JsonV::Text(v@)),
                None => None,
            }
            &&& head.get("id"@) == match q.id {
                Some(v) => Some(JsonV::Text(v@)),
                None => None,
            }
            &&& head.get("outputs"@) == Some(JsonV::Array(outputs))
            &&& key != "model_name"@ && key != "model_version"@ && key != "id"@ && key
                != "outputs"@ ==> head.get(key) is None
        }),
{
    reveal_strlit("model_name");
    reveal_strlit("model_version");
    reveal_strlit("id");
    reveal_strlit("outputs");
    assert("model_name"@.len() == 10 && "model_version"@.len() == 13 && "id"@.len() == 2
        && "outputs"@.len() == 7);
    let first = ("model_name"@, JsonV::Text(q.model_name@));
    let none = Seq::<(Seq<char>, JsonV)>::empty();
    assert(seq![first] =~= none.push(first));
    head_entry(q, outputs, key);
    head_entry(q, outputs, "model_name"@);
    head_entry(q, outputs, "model_version"@);
    head_entry(q, outputs, "id"@);
    head_entry(q, outputs, "outputs"@);
}

proof fn head_entry(q: BinaryOutputRequest, outputs: Seq<JsonV>, key: Seq<char>)
    ensures
        response_head(q, outputs).get(key) == if key == "model_name"@ {
            Some(JsonV::Text(q.model_name@))
        } else if q.model_version is Some && key == "model_version"@ {
            Some(JsonV::Text(q.model_version->0@))
        } else if q.id is Some && key == "id"@ {
            Some(JsonV::Text(q.id->0@))
        } else if key == "outputs"@ {
            Some(JsonV::Array(outputs))
        } else {
            None
        },
{
    let none = Seq::<(Seq<char>, JsonV)>::empty();
    let first = ("model_name"@, JsonV::Text(q.model_name@));
    let named = seq![first];
    assert(named =~= none.push(first));
    entry_behind(none, first, key);
    let versioned = match q.model_version {
        Some(v) => {
            entry_behind(named, ("model_version"@, JsonV::Text(v@)), key);
            named.push(("model_version"@, JsonV::Text(v@)))
        },
        None => named,
    };
    let identified = match q.id {
        Some(v) => {
            entry_behind(versioned, ("id"@, JsonV::Text(v@)), key);
            versioned.push(("id"@, JsonV::Text(v@)))
        },
        None => versioned,
    };
    entry_behind(identified, ("outputs"@, JsonV::Array(outputs)), key);
}

/// A response is converted exactly where it has outputs and each of them can be:
/// its document then lists them all in their order, and the bytes of each lie
/// behind it in the same order.
pub proof fn responses_are_converted_output_by_output(v: JsonV, q: BinaryOutputRequest, i: int)
    ensures
        !(v.get("outputs"@) matches Some(o) && o is Array) ==> conversion(v, q) == Err::<
            (JsonV, Seq<u8>),
            Refusal,
        >(Refusal::NotEnvelope),
        conversion(v, q) is Ok && (v.get("outputs"@) matches Some(JsonV::Array(outs)) && 0 <= i
            < outs.len()) ==> ({
            let outs = v.get("outputs"@)->0->Array_0;
            let (head, tail) = conversion(v, q)->Ok_0;
            let one = converted_output(outs[i], opt_texts(q.binary_outputs));
            &&& one is Ok
            &&& head.get("outputs"@) matches Some(JsonV::Array(done)) && done.len() == outs.len()
                && done[i] == one->Ok_0.0
        }),
{
    if let Some(JsonV::Array(outs)) = v.get("outputs"@) {
        let names = opt_texts(q.binary_outputs);
        if converted_outputs(outs, names) is Ok {
            let done = converted_outputs(outs, names)->Ok_0.0;
            the_head_has_its_entries(q, done, "outputs"@);
            if 0 <= i < outs.len() {
                blocks_follow_each_other(outs, names, i);
            }
        }
    }
}

/// A wanted output tells how many bytes its data takes, in its parameters, unless
/// those are something else than an object.
pub proof fn wanted_outputs_tell_their_size(
    out: JsonV,
    names: Option<Seq<Seq<char>>>,
    name: Seq<char>,
    datatype: Seq<char>,
    data: Seq<JsonV>,
    block: Seq<u8>,
)
    requires
        out.get("name"@) == Some(JsonV::Text(name)),
        names matches Some(list) ==> list.contains(name),
        out.get("datatype"@) == Some(JsonV::Text(datatype)),
        out.get("shape"@) is Some,
        out.get("data"@) == Some(JsonV::Array(data)),
        encoded_all(datatype, data) == Ok::<Seq<u8>, Refusal>(block),
        out.get("parameters"@) matches Some(p) ==> p is Object,
        block.len() <= u64::MAX,
    ensures
        converted_output(out, names)->Ok_0.0.get("parameters"@) matches Some(p) && p.get(
            "binary_data_size"@,
        ) matches Some(JsonV::Number(JsonNumber::Unsigned(n))) && n == block.len(),
{
    reveal_strlit("data");
    reveal_strlit("parameters");
    assert("data"@.len() == 4 && "parameters"@.len() == 10);
    let entries = out->Object_0;
    only_the_key_is_taken_away(entries, "data"@, "parameters"@);
    announced_size_is_the_size(entries, block.len());
}

/// The first output that cannot be converted decides how the response is refused.
pub proof fn the_first_refusal_counts(v: JsonV, q: BinaryOutputRequest, outs: Seq<JsonV>, i: int)
    requires
        v.get("outputs"@) == Some(JsonV::Array(outs)),
        0 <= i < outs.len(),
        converted_output(outs[i], opt_texts(q.binary_outputs)) is Err,
        forall|j: int|
            0 <= j < i ==> converted_output(#[trigger] outs[j], opt_texts(q.binary_outputs)) is Ok,
    ensures
        conversion(v, q) matches Err(e) && converted_output(outs[i], opt_texts(q.binary_outputs))
            == Err::<(JsonV, Seq<u8>), Refusal>(e),
{
    let names = opt_texts(q.binary_outputs);
    outputs_before_are_converted(outs, names, i);
    assert(outs.take(i + 1).drop_last() =~= outs.take(i));
    assert(outs.take(i + 1).last() == outs[i]);
    first_refusal_stays(outs, names, i + 1);
}

proof fn outputs_before_are_converted(outs: Seq<JsonV>, names: Option<Seq<Seq<char>>>, i: int)
    requires
        0 <= i <= outs.len(),
        forall|j: int| 0 <= j < i ==> converted_output(#[trigger] outs[j], names) is Ok,
    ensures
        converted_outputs(outs.take(i), names) is Ok,
    decreases i,
{
    if i > 0 {
        outputs_before_are_converted(outs, names, i - 1);
        assert(outs.take(i).drop_last() =~= outs.take(i - 1));
        assert(outs.take(i).last() == outs[i - 1]);
    }
}

/// A response whose outputs can all be converted is.
pub proof fn responses_without_a_refusal_are_converted(
    v: JsonV,
    q: BinaryOutputRequest,
    outs: Seq<JsonV>,
)
    requires
        v.get("outputs"@) == Some(JsonV::Array(outs)),
        forall|j: int|
            0 <= j < outs.len() ==> converted_output(
                #[trigger] outs[j],
                opt_texts(q.binary_outputs),
            ) is Ok,
    ensures
        conversion(v, q) is Ok,
{
    outputs_before_are_converted(outs, opt_texts(q.binary_outputs), outs.len() as int);
    assert(outs.take(outs.len() as int) =~= outs);
}

/// A request has the identifier of its document where that is a text, and the
/// model and version that it was sent to. It names all outputs where the flag for
/// all is set, and otherwise those that have a flag of their own.
pub proof fn requests_name_their_outputs(
    q: BinaryOutputRequest,
    v: JsonV,
    model_name: Seq<char>,
    model_version: Option<Seq<char>>,
    outputs: Seq<JsonV>,
    name: Seq<char>,
)
    requires
        is_request_of(q, v, model_name, model_version),
        v.get("outputs"@) == Some(JsonV::Array(outputs)),
    ensures
        q.model_name@ == model_name,
        model_version is Some <==> q.model_version is Some,
        model_version matches Some(x) ==> q.model_version->0@ == x,
        v.get("id"@) matches Some(JsonV::Text(x)) ==> (q.id matches Some(i) && i@ == x),
        !(v.get("id"@) matches Some(x) && x is Text) ==> q.id is None,
        q.binary_outputs is None <==> (v.get("parameters"@) matches Some(p) && p.get(
            "binary_data_output"@,
        ) == Some(JsonV::Bool(true))),
        q.binary_outputs matches Some(list) ==> ((exists|k: int|
            0 <= k < list@.len() && (#[trigger] list@[k])@ == name) <==> exists|i: int|
            {
                &&& 0 <= i < outputs.len()
                &&& (#[trigger] outputs[i]).get("name"@) == Some(JsonV::Text(name))
                &&& outputs[i].get("parameters"@) matches Some(p) && p.get("binary_data"@) == Some(
                    JsonV::Bool(true),
                )
            }),
{
    outputs_are_wanted_by_their_flag(outputs, name);
    if let Some(list) = q.binary_outputs {
        let all = texts(list@);
        assert(all == wanted_names(outputs));
        if all.contains(name) {
            let k = choose|k: int| 0 <= k < all.len() && all[k] == name;
            assert(list@[k]@ == name);
        }
        if exists|k: int| 0 <= k < list@.len() && (#[trigger] list@[k])@ == name {
            let k = choose|k: int| 0 <= k < list@.len() && (#[trigger] list@[k])@ == name;
            assert(all[k] == name);
        }
    }
}

/// A response in binary form is its document, in as many bytes as it says, and the
/// bytes of the outputs behind it.
pub proof fn binary_responses_are_document_and_bytes(b: BinaryResponse, head: JsonV, tail: Seq<u8>)
    requires
        is_binary_response(b, head, tail),
    ensures
        b.head_len <= b.body@.len(),
        b.body@.take(b.head_len as int) == encode_utf8(json_text(head)),
        b.body@.skip(b.head_len as int) == tail,
{
    assert(b.body@.take(b.head_len as int) =~= encode_utf8(json_text(head)));
    assert(b.body@.skip(b.head_len as int) =~= tail);
}

/// The document of a body is the same whether it stands alone or has tensors
/// behind it. Bytes of another kind have none.
pub proof fn documents_are_the_same_with_tensors_behind(
    alone: Vec<u8>,
    body: Vec<u8>,
    json_head_len: usize,
    tensors: Seq<u8>,
)
    requires
        body@ == alone@ + tensors,
        json_head_len == alone@.len(),
    ensures
        body_wf(RequestBody::TritonBinary { body, json_head_len }),
        json_head(RequestBody::TritonBinary { body, json_head_len }) == json_head(
            RequestBody::Json(alone),
        ),
        json_head(RequestBody::Json(alone)) == Some(alone@),
        json_head(RequestBody::Raw(body)) is None,
{
    assert(body@.subrange(0, json_head_len as int) =~= alone@);
}

/// The letters from A to Z become those from a to z. Every other character stays,
/// and so does the length.
pub proof fn letters_become_small(s: Seq<char>, i: int)
    requires
        0 <= i < s.len(),
    ensures
        lower(s).len() == s.len(),
        'A' as u32 <= s[i] as u32 <= 'Z' as u32 ==> lower(s)[i] as u32 - 'a' as u32 == s[i] as u32
            - 'A' as u32,
        !('A' as u32 <= s[i] as u32 <= 'Z' as u32) ==> lower(s)[i] == s[i],
        lower(lower(s)) == lower(s),
{
    assert(lower(lower(s)) =~= lower(s));
}

/// A refusal names the output, or the data type, that it is about.
pub proof fn refusals_name_the_output(r: Refusal)
    ensures
        r matches Refusal::MissingDatatype(n) ==> crate::text::mentions(r.words(), n),
        r matches Refusal::MissingShape(n) ==> crate::text::mentions(r.words(), n),
        r matches Refusal::MissingData(n) ==> crate::text::mentions(r.words(), n),
        r matches Refusal::UnknownDatatype(d) ==> crate::text::mentions(r.words(), d),
{
    let front = "binary_data_output: output "@;
    match r {
        Refusal::MissingDatatype(n) => {
            crate::text::what_is_joined_is_mentioned(front, n, " is missing datatype"@);
        },
        Refusal::MissingShape(n) => {
            crate::text::what_is_joined_is_mentioned(front, n, " is missing shape"@);
        },
        Refusal::MissingData(n) => {
            crate::text::what_is_joined_is_mentioned(front, n, " is missing a JSON data array"@);
        },
        Refusal::UnknownDatatype(d) => {
            crate::text::what_is_joined_is_mentioned(
                "binary_data_output: unknown datatype "@,
                d,
                Seq::empty(),
            );
        },
        _ => {},
    }
}

/// What was computed is what is returned: bytes as they are, and a refusal as that
/// refusal.
pub proof fn results_are_what_was_computed(
    r: Result<Vec<u8>, ConvertError>,
    e: Result<Seq<u8>, Refusal>,
)
    requires
        is_result(r, e),
    ensures
        r is Ok <==> e is Ok,
        r matches Ok(x) ==> e == Ok::<Seq<u8>, Refusal>(x@),
        r matches Err(x) ==> e == Err::<Seq<u8>, Refusal>(x@),
{
}

} // verus!
