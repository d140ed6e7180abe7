//! JSON documents.

use crate::text::same_text;
use serde_json::Value;
use vstd::prelude::*;

verus! {

/// A number: an integer that is not negative, a negative integer, or another
/// number by the bits of its value in double precision.
#[derive(Debug, Clone, Copy, PartialEq, Eq, Structural)]
pub enum JsonNumber {
    Unsigned(u64),
    Negative(i64),
    Float(u64),
}

/// A JSON value. The keys of an object are distinct.
#[derive(Debug)]
pub enum Json {
    Null,
    Bool(bool),
    Number(JsonNumber),
    Text(String),
    Array(Vec<Json>),
    Object(Vec<(String, Json)>),
}

/// The model of a [`Json`].
pub enum JsonV {
    Null,
    Bool(bool),
    Number(JsonNumber),
    Text(Seq<char>),
    Array(Seq<JsonV>),
    Object(Seq<(Seq<char>, JsonV)>),
}

impl Json {
    pub open spec fn model(self) -> JsonV
        decreases self,
    {
        match self {
            Json::Null => JsonV::Null,
            Json::Bool(b) => JsonV::Bool(b),
            Json::Number(n) => JsonV::Number(n),
            Json::Text(s) => JsonV::Text(s@),
            Json::Array(a) => JsonV::Array(
                Seq::new(
                    a@.len(),
                    |i: int|
                        if 0 <= i < a@.len() {
                            a@[i].model()
                        } else {
                            JsonV::Null
                        },
                ),
            ),
            Json::Object(o) => JsonV::Object(
                Seq::new(
                    o@.len(),
                    |i: int|
                        if 0 <= i < o@.len() {
                            (o@[i].0@, o@[i].1.model())
                        } else {
                            (Seq::empty(), JsonV::Null)
                        },
                ),
            ),
        }
    }
}

impl View for Json {
    type V = JsonV;

    open spec fn view(&self) -> JsonV {
        self.model()
    }
}

/// A JSON value of `serde_json`.
#[verifier::external_type_specification]
#[verifier::external_body]
pub struct ExValue(serde_json::Value);

/// What a `serde_json::Value` holds.
pub uninterp spec fn value_tree(v: serde_json::Value) -> JsonV;

/// The value that a text of bytes denotes, `None` where it is not JSON.
pub uninterp spec fn parsed(bytes: Seq<u8>) -> Option<JsonV>;

/// The compact text that `Value::to_string` writes for a value.
pub uninterp spec fn compact_text(v: JsonV) -> Seq<char>;

/// The entries that a `serde_json::Map` made of `entries` has, in its order.
pub uninterp spec fn map_entries(entries: Seq<(Seq<char>, JsonV)>) -> Seq<(Seq<char>, JsonV)>;

/// Whether no two of `entries` have the same key.
pub open spec fn keys_differ(entries: Seq<(Seq<char>, JsonV)>) -> bool {
    forall|i: int, j: int|
        0 <= i < j < entries.len() ==> (#[trigger] entries[i]).0 != (#[trigger] entries[j]).0
}

/// `serde_json::from_slice` into a `Value`: the value that the bytes denote.
#[verifier::external_body]
fn parse_value(bytes: &[u8]) -> (r: Option<serde_json::Value>)
    ensures
        match r {
            Some(v) => parsed(bytes@) == Some(value_tree(v)),
            None => parsed(bytes@) is None,
        },
{
    serde_json::from_slice(bytes).ok()
}

/// A `Value`, taken apart by one level.
enum Parts<'a> {
    Null,
    Bool(bool),
    Number(JsonNumber),
    Text(&'a String),
    Array(&'a Vec<Value>),
    Object(Vec<(&'a String, &'a Value)>),
}

/// What the values of an array hold.
pub open spec fn trees(a: Seq<Value>) -> Seq<JsonV> {
    Seq::new(a.len(), |i: int| value_tree(a[i]))
}

/// What the entries of an object hold.
pub open spec fn entry_trees(o: Seq<(&String, &Value)>) -> Seq<(Seq<char>, JsonV)> {
    Seq::new(o.len(), |i: int| (o[i].0@, value_tree(*o[i].1)))
}

/// What the entries that an object is made of hold.
pub open spec fn owned_trees(o: Seq<(String, Value)>) -> Seq<(Seq<char>, JsonV)> {
    Seq::new(o.len(), |i: int| (o[i].0@, value_tree(o[i].1)))
}

/// The variant of a `Value` with what it holds. A number is an integer that is
/// not negative where `Number::as_u64` gives one, another integer where
/// `Number::as_i64` gives one, and what `Number::as_f64` gives otherwise. The
/// keys that `Map::iter` gives are distinct.
#[verifier::external_body]
fn parts<'a>(v: &'a Value) -> (r: Parts<'a>)
    ensures
        match r {
            Parts::Null => value_tree(*v) == JsonV::Null,
            Parts::Bool(b) => value_tree(*v) == JsonV::Bool(b),
            Parts::Number(n) => value_tree(*v) == JsonV::Number(n),
            Parts::Text(s) => value_tree(*v) == JsonV::Text(s@),
            Parts::Array(a) => value_tree(*v) == JsonV::Array(trees(a@)),
            Parts::Object(o) => value_tree(*v) == JsonV::Object(entry_trees(o@)) && keys_differ(
                entry_trees(o@),
            ),
        },
{
    match v {
        Value::Null => Parts::Null,
        Value::Bool(b) => Parts::Bool(*b),
        Value::Number(n) => Parts::Number(match (n.as_u64(), n.as_i64()) {
            (Some(u), _) => JsonNumber::Unsigned(u),
            (None, Some(i)) => JsonNumber::Negative(i),
            _ => JsonNumber::Float(n.as_f64().map(|x| x.to_bits()).unwrap_or_default()),
        }),
        Value::String(s) => Parts::Text(s),
        Value::Array(a) => Parts::Array(a),
        Value::Object(o) => Parts::Object(o.iter().collect()),
    }
}

/// A `Value` that holds an array.
#[verifier::external_body]
fn array_value(a: Vec<Value>) -> (r: Value)
    ensures
        value_tree(r) == JsonV::Array(trees(a@)),
{
    Value::Array(a)
}

/// A `Value` that holds an object. `Map::from_iter` decides which entries it
/// keeps of those with the same key, and their order. Where all keys differ it
/// keeps every entry, once.
#[verifier::external_body]
fn object_value(o: Vec<(String, Value)>) -> (r: Value)
    ensures
        value_tree(r) == JsonV::Object(map_entries(owned_trees(o@))),
        keys_differ(owned_trees(o@)) ==> value_tree(r)->Object_0.to_multiset() == owned_trees(
            o@,
        ).to_multiset(),
{
    Value::Object(serde_json::Map::from_iter(o))
}

/// A `Value` that holds a text.
#[verifier::external_body]
fn text_value(s: String) -> (r: Value)
    ensures
        value_tree(r) == JsonV::Text(s@),
{
    Value::String(s)
}

/// A `Value` that holds a truth value, or nothing.
#[verifier::external_body]
fn bool_value(b: Option<bool>) -> (r: Value)
    ensures
        value_tree(r) == match b {
            Some(x) => JsonV::Bool(x),
            None => JsonV::Null,
        },
{
    Value::from(b)
}

/// Whether the bits of a number in double precision are those of an infinity or
/// of no number.
pub open spec fn is_special(bits: u64) -> bool {
    (bits / 0x10_0000_0000_0000) % 0x800 == 0x7ff
}

/// What a `Value` that is made of a number holds: integers are told apart by
/// their sign, and there is nothing for infinities and what is no number.
pub open spec fn number_tree(n: JsonNumber) -> JsonV {
    match n {
        JsonNumber::Unsigned(_) => JsonV::Number(n),
        JsonNumber::Negative(i) => if i >= 0 {
            JsonV::Number(JsonNumber::Unsigned(i as u64))
        } else {
            JsonV::Number(n)
        },
        JsonNumber::Float(b) => if is_special(b) {
            JsonV::Null
        } else {
            JsonV::Number(n)
        },
    }
}

/// `Value::from` of a number. A number that is no integer is read from its bits
/// with `Buf::get_f64`.
#[verifier::external_body]
fn number_value(n: JsonNumber) -> (r: Value)
    ensures
        value_tree(r) == number_tree(n),
{
    match n {
        JsonNumber::Unsigned(u) => Value::from(u),
        JsonNumber::Negative(i) => Value::from(i),
        JsonNumber::Float(b) => Value::from(bytes::Buf::get_f64(&mut &b.to_be_bytes()[..])),
    }
}

/// `Value::to_string` writes the compact text.
#[verifier::external_body]
fn print_value(v: &serde_json::Value) -> (r: String)
    ensures
        r@ == compact_text(value_tree(*v)),
{
    v.to_string()
}

/// What a `Value` that is made of `v` holds.
pub open spec fn canonical(v: JsonV) -> JsonV
    decreases v,
{
    match v {
        JsonV::Null => v,
        JsonV::Bool(_) => v,
        JsonV::Number(n) => number_tree(n),
        JsonV::Text(_) => v,
        JsonV::Array(a) => JsonV::Array(canonical_items(a)),
        JsonV::Object(o) => JsonV::Object(map_entries(canonical_entries(o))),
    }
}

/// What the values that are made of `a` hold.
pub open spec fn canonical_items(a: Seq<JsonV>) -> Seq<JsonV>
    decreases a,
{
    Seq::new(
        a.len(),
        |i: int|
            if 0 <= i < a.len() {
                canonical(a[i])
            } else {
                JsonV::Null
            },
    )
}

/// What the values that are made of the entries `o` hold, each with its key.
pub open spec fn canonical_entries(o: Seq<(Seq<char>, JsonV)>) -> Seq<(Seq<char>, JsonV)>
    decreases o,
{
    Seq::new(
        o.len(),
        |i: int|
            if 0 <= i < o.len() {
                (o[i].0, canonical(o[i].1))
            } else {
                (Seq::empty(), JsonV::Null)
            },
    )
}

/// Whether the keys of every object in `v` are distinct.
pub open spec fn well_keyed(v: JsonV) -> bool
    decreases v,
{
    match v {
        JsonV::Array(a) => all_well_keyed(a),
        JsonV::Object(o) => keys_differ(o) && entries_well_keyed(o),
        _ => true,
    }
}

pub open spec fn all_well_keyed(a: Seq<JsonV>) -> bool
    decreases a,
{
    forall|i: int| 0 <= i < a.len() ==> well_keyed(#[trigger] a[i])
}

pub open spec fn entries_well_keyed(o: Seq<(Seq<char>, JsonV)>) -> bool
    decreases o,
{
    forall|i: int| 0 <= i < o.len() ==> well_keyed((#[trigger] o[i]).1)
}

/// Whether a `Value` that is made of `v` has every entry of every object in `v`,
/// once.
pub open spec fn is_kept_whole(v: JsonV) -> bool
    decreases v,
{
    match v {
        JsonV::Array(a) => all_kept_whole(a),
        JsonV::Object(o) => {
            &&& map_entries(canonical_entries(o)).to_multiset() == canonical_entries(
                o,
            ).to_multiset()
            &&& entries_kept_whole(o)
        },
        _ => true,
    }
}

pub open spec fn all_kept_whole(a: Seq<JsonV>) -> bool
    decreases a,
{
    forall|i: int| 0 <= i < a.len() ==> is_kept_whole(#[trigger] a[i])
}

pub open spec fn entries_kept_whole(o: Seq<(Seq<char>, JsonV)>) -> bool
    decreases o,
{
    forall|i: int| 0 <= i < o.len() ==> is_kept_whole((#[trigger] o[i]).1)
}

/// The compact text of the value that `v` describes.
pub open spec fn json_text(v: JsonV) -> Seq<char> {
    compact_text(canonical(v))
}

/// The value that a `Value` holds.
fn from_value(v: &Value) -> (r: Json)
    ensures
        r@ == value_tree(*v),
        well_keyed(r@),
    decreases value_tree(*v),
{
    match parts(v) {
        Parts::Null => Json::Null,
        Parts::Bool(b) => Json::Bool(b),
        Parts::Number(n) => Json::Number(n),
        Parts::Text(s) => Json::Text(s.clone()),
        Parts::Array(a) => {
            let mut out: Vec<Json> = Vec::new();
            let mut i: usize = 0;
            while i < a.len()
                invariant
                    i <= a@.len(),
                    value_tree(*v) == JsonV::Array(trees(a@)),
                    items_of(out@) == trees(a@).take(i as int),
                    all_well_keyed(items_of(out@)),
                decreases a.len() - i,
            {
                proof {
                    items_are_smaller(value_tree(*v), i as int);
                }
                let ghost before = out@;
                let x = from_value(&a[i]);
                out.push(x);
                assert(items_of(out@) =~= items_of(before).push(x@));
                assert(trees(a@).take(i + 1) =~= trees(a@).take(i as int).push(x@));
                i = i + 1;
            }
            assert(trees(a@).take(i as int) =~= trees(a@));
            let r = Json::Array(out);
            proof {
                view_of_parts(r);
            }
            r
        },
        Parts::Object(o) => {
            let mut out: Vec<(String, Json)> = Vec::new();
            let mut i: usize = 0;
            while i < o.len()
                invariant
                    i <= o@.len(),
                    value_tree(*v) == JsonV::Object(entry_trees(o@)),
                    keys_differ(entry_trees(o@)),
                    entries_of(out@) == entry_trees(o@).take(i as int),
                    entries_well_keyed(entries_of(out@)),
                decreases o.len() - i,
            {
                proof {
                    items_are_smaller(value_tree(*v), i as int);
                }
                let ghost before = out@;
                let (key, value) = o[i];
                let x = from_value(value);
                out.push((key.clone(), x));
                assert(entries_of(out@) =~= entries_of(before).push((key@, x@)));
                assert(entry_trees(o@).take(i + 1) =~= entry_trees(o@).take(i as int).push(
                    (key@, x@),
                ));
                i = i + 1;
            }
            assert(entry_trees(o@).take(i as int) =~= entry_trees(o@));
            let r = Json::Object(out);
            proof {
                view_of_parts(r);
            }
            r
        },
    }
}

/// A `Value` that is made of `v`.
fn to_value(v: &Json) -> (r: Value)
    ensures
        value_tree(r) == canonical(v@),
        well_keyed(v@) ==> is_kept_whole(v@),
    decreases v,
{
    match v {
        Json::Null => bool_value(None),
        Json::Bool(b) => bool_value(Some(*b)),
        Json::Number(n) => number_value(*n),
        Json::Text(s) => text_value(s.clone()),
        Json::Array(a) => {
            let mut out: Vec<Value> = Vec::new();
            let mut i: usize = 0;
            while i < a.len()
                invariant
                    i <= a@.len(),
                    *v == Json::Array(*a),
                    out@.len() == i,
                    forall|j: int|
                        0 <= j < i ==> value_tree(#[trigger] out@[j]) == canonical(a@[j]@) && (
                        well_keyed(a@[j]@) ==> is_kept_whole(a@[j]@)),
                decreases a.len() - i,
            {
                proof {
                    parts_are_smaller(*v, i as int);
                }
                let x = to_value(&a[i]);
                out.push(x);
                i = i + 1;
            }
            proof {
                view_of_parts(*v);
                assert(trees(out@) =~= canonical_items(items_of(a@)));
                assert(all_well_keyed(items_of(a@)) ==> all_kept_whole(items_of(a@))) by {
                    assert forall|j: int| 0 <= j < a@.len() && all_well_keyed(
                        items_of(a@),
                    ) implies is_kept_whole(#[trigger] items_of(a@)[j]) by {
                        assert(value_tree(out@[j]) == canonical(a@[j]@));
                        assert(well_keyed(items_of(a@)[j]));
                    }
                }
            }
            array_value(out)
        },
        Json::Object(o) => {
            let mut out: Vec<(String, Value)> = Vec::new();
            let mut i: usize = 0;
            while i < o.len()
                invariant
                    i <= o@.len(),
                    *v == Json::Object(*o),
                    out@.len() == i,
                    forall|j: int|
                        0 <= j < i ==> (#[trigger] out@[j]).0@ == o@[j].0@ && value_tree(out@[j].1)
                            == canonical(o@[j].1@) && (well_keyed(o@[j].1@) ==> is_kept_whole(
                            o@[j].1@,
                        )),
                decreases o.len() - i,
            {
                proof {
                    parts_are_smaller(*v, i as int);
                }
                let x = to_value(&o[i].1);
                out.push((o[i].0.clone(), x));
                i = i + 1;
            }
            proof {
                view_of_parts(*v);
                assert(owned_trees(out@) =~= canonical_entries(entries_of(o@)));
                assert(entries_well_keyed(entries_of(o@)) ==> entries_kept_whole(entries_of(o@))) by {
                    assert forall|j: int| 0 <= j < o@.len() && entries_well_keyed(
                        entries_of(o@),
                    ) implies is_kept_whole((#[trigger] entries_of(o@)[j]).1) by {
                        assert(out@[j].0@ == o@[j].0@);
                        assert(well_keyed(entries_of(o@)[j].1));
                    }
                }
                assert(keys_differ(entries_of(o@)) ==> keys_differ(owned_trees(out@))) by {
                    let a = entries_of(o@);
                    let b = owned_trees(out@);
                    assert forall|i: int, j: int| 0 <= i < j < b.len() && keys_differ(a) implies (
                    #[trigger] b[i]).0 != (#[trigger] b[j]).0 by {
                        assert(a[i].0 != a[j].0);
                    }
                }
            }
            object_value(out)
        },
    }
}

proof fn items_are_smaller(v: JsonV, i: int)
    ensures
        v is Array && 0 <= i < v->Array_0.len() ==> decreases_to!(v => v->Array_0[i]),
        v is Object && 0 <= i < v->Object_0.len() ==> decreases_to!(v => v->Object_0[i].1),
{
    match v {
        JsonV::Array(a) => {
            assert(decreases_to!(v => v->Array_0));
            if 0 <= i < a.len() {
                assert(decreases_to!(a => a[i]));
            }
        },
        JsonV::Object(o) => {
            assert(decreases_to!(v => v->Object_0));
            if 0 <= i < o.len() {
                assert(decreases_to!(o => o[i]));
                assert(decreases_to!(o[i] => o[i].1));
            }
        },
        _ => {},
    }
}

/// The compact text of `v`.
pub fn print_json(v: &Json) -> (r: String)
    ensures
        r@ == json_text(v@),
        well_keyed(v@) ==> is_kept_whole(v@),
{
    print_value(&to_value(v))
}

/// Parses bytes as JSON.
pub fn parse_json(bytes: &[u8]) -> (r: Option<Json>)
    ensures
        match r {
            Some(v) => parsed(bytes@) == Some(v@) && well_keyed(v@),
            None => parsed(bytes@) is None,
        },
{
    match parse_value(bytes) {
        Some(v) => Some(from_value(&v)),
        None => None,
    }
}

/// The value of the key `key`, where `entries` has it.
pub open spec fn entry(entries: Seq<(Seq<char>, JsonV)>, key: Seq<char>) -> Option<JsonV>
    decreases entries.len(),
{
    if entries.len() == 0 {
        None
    } else if entries[0].0 == key {
        Some(entries[0].1)
    } else {
        entry(entries.subrange(1, entries.len() as int), key)
    }
}

impl JsonV {
    /// The value of the key `key`, where this is an object that has it.
    pub open spec fn get(self, key: Seq<char>) -> Option<JsonV> {
        match self {
            JsonV::Object(entries) => entry(entries, key),
            _ => None,
        }
    }

    pub open spec fn as_text(self) -> Option<Seq<char>> {
        match self {
            JsonV::Text(s) => Some(s),
            _ => None,
        }
    }

    pub open spec fn as_array(self) -> Option<Seq<JsonV>> {
        match self {
            JsonV::Array(a) => Some(a),
            _ => None,
        }
    }
}

/// The models of the entries of an object.
pub open spec fn entries_of(o: Seq<(String, Json)>) -> Seq<(Seq<char>, JsonV)> {
    Seq::new(o.len(), |i: int| (o[i].0@, o[i].1@))
}

/// The models of the items of an array.
pub open spec fn items_of(a: Seq<Json>) -> Seq<JsonV> {
    Seq::new(a.len(), |i: int| a[i]@)
}

/// The model of an object is made of the models of its entries, and that of an
/// array of the models of its items.
pub proof fn view_of_parts(v: Json)
    ensures
        v matches Json::Object(o) ==> v@ == JsonV::Object(entries_of(o@)),
        v matches Json::Array(a) ==> v@ == JsonV::Array(items_of(a@)),
{
    match v {
        Json::Object(o) => {
            assert(v@->Object_0 =~= entries_of(o@));
        },
        Json::Array(a) => {
            assert(v@->Array_0 =~= items_of(a@));
        },
        _ => {},
    }
}

/// The value of the key `key`, where `v` is an object that has it.
pub fn get<'a>(v: &'a Json, key: &str) -> (r: Option<&'a Json>)
    ensures
        match r {
            Some(x) => v@.get(key@) == Some(x@),
            None => v@.get(key@) is None,
        },
{
    match v {
        Json::Object(o) => {
            let ghost entries = entries_of(o@);
            proof {
                view_of_parts(*v);
            }
            let mut i: usize = 0;
            assert(entries.subrange(0, entries.len() as int) =~= entries);
            while i < o.len()
                invariant
                    i <= o@.len(),
                    v@ == JsonV::Object(entries),
                    entries.len() == o@.len(),
                    forall|j: int|
                        0 <= j < o@.len() ==> #[trigger] entries[j] == (o@[j].0@, o@[j].1@),
                    entry(entries.subrange(i as int, entries.len() as int), key@) == entry(
                        entries,
                        key@,
                    ),
                decreases o.len() - i,
            {
                let ghost rest = entries.subrange(i as int, entries.len() as int);
                assert(rest[0] == entries[i as int]);
                if same_text(o[i].0.as_str(), key) {
                    return Some(&o[i].1);
                }
                assert(rest.subrange(1, rest.len() as int) =~= entries.subrange(
                    i + 1,
                    entries.len() as int,
                ));
                i = i + 1;
            }
            None
        },
        _ => None,
    }
}

proof fn parts_are_smaller(v: Json, i: int)
    ensures
        v is Array && 0 <= i < v->Array_0@.len() ==> decreases_to!(v => v->Array_0@[i]),
        v is Object && 0 <= i < v->Object_0@.len() ==> decreases_to!(v => v->Object_0@[i].1),
{
    match v {
        Json::Array(a) => {
            assert(decreases_to!(v => v->Array_0));
            assert(decreases_to!(a => a@));
            if 0 <= i < a@.len() {
                assert(decreases_to!(a@ => a@[i]));
            }
        },
        Json::Object(o) => {
            assert(decreases_to!(v => v->Object_0));
            assert(decreases_to!(o => o@));
            if 0 <= i < o@.len() {
                assert(decreases_to!(o@ => o@[i]));
                assert(decreases_to!(o@[i] => o@[i].1));
            }
        },
        _ => {},
    }
}

/// A copy of `v`.
pub fn clone_json(v: &Json) -> (r: Json)
    ensures
        r@ == v@,
    decreases v,
{
    match v {
        Json::Null => Json::Null,
        Json::Bool(b) => Json::Bool(*b),
        Json::Number(n) => Json::Number(*n),
        Json::Text(s) => Json::Text(s.clone()),
        Json::Array(a) => {
            let mut out: Vec<Json> = Vec::new();
            let mut i: usize = 0;
            while i < a.len()
                invariant
                    i <= a@.len(),
                    out@.len() == i,
                    *v == Json::Array(*a),
                    forall|j: int| 0 <= j < i ==> (#[trigger] out@[j])@ == a@[j]@,
                decreases a.len() - i,
            {
                proof {
                    parts_are_smaller(*v, i as int);
                }
                let x = clone_json(&a[i]);
                out.push(x);
                i = i + 1;
            }
            let r = Json::Array(out);
            proof {
                view_of_parts(*v);
                view_of_parts(r);
                assert(items_of(out@) =~= items_of(a@));
            }
            r
        },
        Json::Object(o) => {
            let mut out: Vec<(String, Json)> = Vec::new();
            let mut i: usize = 0;
            while i < o.len()
                invariant
                    i <= o@.len(),
                    out@.len() == i,
                    *v == Json::Object(*o),
                    forall|j: int|
                        0 <= j < i ==> (#[trigger] out@[j]).0@ == o@[j].0@ && out@[j].1@
                            == o@[j].1@,
                decreases o.len() - i,
            {
                proof {
                    parts_are_smaller(*v, i as int);
                }
                let x = clone_json(&o[i].1);
                out.push((o[i].0.clone(), x));
                i = i + 1;
            }
            let r = Json::Object(out);
            proof {
                view_of_parts(*v);
                view_of_parts(r);
                assert(entries_of(out@) =~= entries_of(o@));
            }
            r
        },
    }
}

pub(crate) proof fn entry_is_there(entries: Seq<(Seq<char>, JsonV)>, key: Seq<char>)
    ensures
        match entry(entries, key) {
            Some(v) => entries.contains((key, v)),
            None => forall|i: int| 0 <= i < entries.len() ==> (#[trigger] entries[i]).0 != key,
        },
    decreases entries.len(),
{
    if entries.len() > 0 {
        let rest = entries.subrange(1, entries.len() as int);
        entry_is_there(rest, key);
        if entries[0].0 == key {
            assert(entries[0] == (key, entries[0].1));
        } else {
            match entry(rest, key) {
                Some(v) => {
                    let i = choose|i: int| 0 <= i < rest.len() && rest[i] == (key, v);
                    assert(entries[i + 1] == (key, v));
                },
                None => {
                    assert forall|i: int| 0 <= i < entries.len() implies (#[trigger] entries[i]).0
                        != key by {
                        if i > 0 {
                            assert(rest[i - 1] == entries[i]);
                        }
                    }
                },
            }
        }
    }
}

/// An object that is kept whole keeps the value of every key, in whatever order
/// its entries are written.
pub proof fn every_key_keeps_its_value(o: Seq<(Seq<char>, JsonV)>, key: Seq<char>)
    requires
        keys_differ(o),
        is_kept_whole(JsonV::Object(o)),
    ensures
        canonical(JsonV::Object(o)).get(key) == match JsonV::Object(o).get(key) {
            Some(v) => Some(canonical(v)),
            None => None,
        },
{
    broadcast use vstd::seq_lib::group_to_multiset_ensures;

    let made = canonical_entries(o);
    let kept = map_entries(made);
    entry_is_there(o, key);
    entry_is_there(kept, key);
    match entry(o, key) {
        Some(v) => {
            let i = choose|i: int| 0 <= i < o.len() && o[i] == (key, v);
            assert(made[i] == (key, canonical(v)));
            assert(made.contains((key, canonical(v))));
            assert(kept.to_multiset().count((key, canonical(v))) > 0);
            assert(kept.contains((key, canonical(v))));
            let at = choose|at: int| 0 <= at < kept.len() && kept[at] == (key, canonical(v));
            assert(kept[at].0 == key);
            let w = entry(kept, key)->0;
            assert(made.to_multiset().count((key, w)) > 0);
            assert(made.contains((key, w)));
            let j = choose|j: int| 0 <= j < made.len() && made[j] == (key, w);
            assert(o[j].0 == key && o[i].0 == key);
            assert(i == j);
        },
        None => {
            if let Some(w) = entry(kept, key) {
                assert(made.to_multiset().count((key, w)) > 0);
                assert(made.contains((key, w)));
                let j = choose|j: int| 0 <= j < made.len() && made[j] == (key, w);
                assert(o[j].0 == key);
            }
        },
    }
}

/// A key has the value of the first entry that is its own, and none where no entry
/// is.
pub proof fn values_are_found_by_key(entries: Seq<(Seq<char>, JsonV)>, i: int, key: Seq<char>)
    ensures
        0 <= i < entries.len() && entries[i].0 == key && (forall|j: int|
            0 <= j < i ==> (#[trigger] entries[j]).0 != key) ==> JsonV::Object(entries).get(key)
            == Some(entries[i].1),
        (forall|j: int| 0 <= j < entries.len() ==> (#[trigger] entries[j]).0 != key)
            ==> JsonV::Object(entries).get(key) is None,
    decreases entries.len(),
{
    if entries.len() > 0 {
        let rest = entries.subrange(1, entries.len() as int);
        assert forall|j: int| 0 <= j < rest.len() implies #[trigger] rest[j] == entries[j + 1] by {}
        values_are_found_by_key(rest, i - 1, key);
        if 0 < i < entries.len() {
            assert(rest[i - 1] == entries[i]);
        }
    }
}

/// Only objects have keys, only texts are texts and only arrays are arrays.
pub proof fn values_are_of_one_kind(v: JsonV, key: Seq<char>)
    ensures
        v.get(key) is Some ==> v is Object,
        v.as_text() is Some <==> v is Text,
        v.as_array() is Some <==> v is Array,
        v matches JsonV::Text(s) ==> v.as_text() == Some(s),
        v matches JsonV::Array(a) ==> v.as_array() == Some(a),
{
}

/// Printing keeps every value but the numbers that JSON has no form for: an
/// infinity and what is no number are printed as `null`. An integer keeps its
/// value, and an array its length and order.
pub proof fn printing_keeps_the_values(v: JsonV, i: int)
    ensures
        v is Null || v is Bool || v is Text ==> canonical(v) == v,
        v matches JsonV::Number(JsonNumber::Unsigned(_)) ==> canonical(v) == v,
        v matches JsonV::Number(JsonNumber::Negative(n)) ==> (n < 0 ==> canonical(v) == v) && (n
            >= 0 ==> canonical(v) == JsonV::Number(JsonNumber::Unsigned(n as u64))),
        v matches JsonV::Number(JsonNumber::Float(b)) ==> {
            let exponent = (b as nat / vstd::arithmetic::power2::pow2(52)) % 2048;
            &&& exponent != 2047 ==> canonical(v) == v
            &&& exponent == 2047 ==> canonical(v) == JsonV::Null
        },
        v matches JsonV::Array(a) ==> {
            &&& canonical(v) is Array
            &&& canonical(v)->Array_0.len() == a.len()
            &&& 0 <= i < a.len() ==> canonical(v)->Array_0[i] == canonical(a[i])
        },
        v is Object ==> canonical(v) is Object,
{
    vstd::arithmetic::power2::lemma2_to64();
    vstd::arithmetic::power2::lemma2_to64_rest();
}

} // verus!
