//! Values that the engine stores.

use crate::bytes::bytes_equal;
use crate::json::{
    self, documents_equal, floats_equal, parse, parse_bytes, render, JsonNumber, JsonValue,
};
use crate::kv_error::F4KvsError;
use crate::text::{self, cat, hex_bytes_text, same_text, signed_text, dec_text};
use serde_json::Value as SerdeJsonValue;
use vstd::bytes::*;
use vstd::layout;
use vstd::prelude::*;
use vstd::slice::*;
use vstd::string::*;
use vstd::utf8::*;

verus! {

/// A stored value. A 64-bit floating point number is held as its bits.
#[derive(Debug)]
pub enum Value {
    /// Text.
    String(String),
    /// 64-bit signed integer.
    Int64(i64),
    /// 64-bit unsigned integer.
    UInt64(u64),
    /// The bits of a 64-bit floating point number.
    Float64(u64),
    /// Boolean.
    Bool(bool),
    /// Raw bytes.
    Bytes(Vec<u8>),
    /// JSON document.
    Json(JsonValue),
    /// No value; marks a deleted key.
    Null,
}

/// A stored value, with its text and bytes as sequences.
#[verifier::ext_equal]
pub enum ValueView {
    String(Seq<char>),
    Int64(i64),
    UInt64(u64),
    Float64(u64),
    Bool(bool),
    Bytes(Seq<u8>),
    Json(json::JsonView),
    Null,
}

impl View for Value {
    type V = ValueView;

    open spec fn view(&self) -> ValueView {
        match self {
            Value::String(s) => ValueView::String(s@),
            Value::Int64(i) => ValueView::Int64(*i),
            Value::UInt64(u) => ValueView::UInt64(*u),
            Value::Float64(b) => ValueView::Float64(*b),
            Value::Bool(b) => ValueView::Bool(*b),
            Value::Bytes(b) => ValueView::Bytes(b@),
            Value::Json(j) => ValueView::Json(j@),
            Value::Null => ValueView::Null,
        }
    }
}

impl Clone for Value {
    fn clone(&self) -> (r: Self)
        ensures
            r@ == self@,
    {
        match self {
            Value::String(s) => Value::String(s.clone()),
            Value::Int64(i) => Value::Int64(*i),
            Value::UInt64(u) => Value::UInt64(*u),
            Value::Float64(b) => Value::Float64(*b),
            Value::Bool(b) => Value::Bool(*b),
            Value::Bytes(b) => Value::Bytes(slice_to_vec(b.as_slice())),
            Value::Json(j) => Value::Json(j.clone()),
            Value::Null => Value::Null,
        }
    }
}

/// The bits are those of a finite number.
pub open spec fn finite_bits(bits: u64) -> bool {
    (bits >> 52) & 0x7ff != 0x7ff
}

/// The bytes of a value.
pub open spec fn value_bytes(v: ValueView) -> Seq<u8> {
    match v {
        ValueView::String(s) => encode_utf8(s),
        ValueView::Int64(i) => spec_u64_to_le_bytes(i as u64),
        ValueView::UInt64(u) => spec_u64_to_le_bytes(u),
        ValueView::Float64(b) => spec_u64_to_le_bytes(b),
        ValueView::Bool(b) => seq![if b { 1u8 } else { 0u8 }],
        ValueView::Bytes(b) => b,
        ValueView::Json(j) => encode_utf8(json::json_text(j)),
        ValueView::Null => Seq::empty(),
    }
}

/// The number of bytes of a value.
pub open spec fn value_size(v: ValueView) -> nat {
    match v {
        ValueView::String(s) => encode_utf8(s).len(),
        ValueView::Int64(_) => 8,
        ValueView::UInt64(_) => 8,
        ValueView::Float64(_) => 8,
        ValueView::Bool(_) => 1,
        ValueView::Bytes(b) => b.len(),
        ValueView::Json(j) => encode_utf8(json::json_text(j)).len(),
        ValueView::Null => 0,
    }
}

/// The array of a byte string.
pub open spec fn byte_elements(data: Seq<u8>) -> Seq<json::JsonView> {
    data.map_values(|b: u8| json::JsonView::Number(JsonNumber::PosInt(b as u64)))
}

/// An object of one member.
pub open spec fn single(key: Seq<char>, j: json::JsonView) -> json::JsonView {
    json::JsonView::Object(seq![(key, j)])
}

/// The JSON document of a value: an object whose one member names the type.
pub open spec fn tagged(v: ValueView) -> json::JsonView {
    match v {
        ValueView::String(s) => single("String"@, json::JsonView::String(s)),
        ValueView::Int64(i) => single(
            "Int64"@,
            json::JsonView::Number(
                if i >= 0 {
                    JsonNumber::PosInt(i as u64)
                } else {
                    JsonNumber::NegInt(i)
                },
            ),
        ),
        ValueView::UInt64(u) => single("UInt64"@, json::JsonView::Number(JsonNumber::PosInt(u))),
        ValueView::Float64(b) => single(
            "Float64"@,
            if finite_bits(b) {
                json::JsonView::Number(JsonNumber::Float(b))
            } else {
                json::JsonView::Null
            },
        ),
        ValueView::Bool(b) => single("Bool"@, json::JsonView::Bool(b)),
        ValueView::Bytes(b) => single("Bytes"@, json::JsonView::Array(byte_elements(b))),
        ValueView::Json(j) => single("Json"@, j),
        ValueView::Null => json::JsonView::String("Null"@),
    }
}

/// A document as a byte, if it is one.
pub open spec fn as_byte(j: json::JsonView) -> Option<u8> {
    match j {
        json::JsonView::Number(JsonNumber::PosInt(n)) => if n <= 255 {
            Some(n as u8)
        } else {
            None
        },
        _ => None,
    }
}

/// What is reported where a document of the named type is not one.
pub open spec fn mismatch(format: Seq<char>, wanted: Seq<char>, got: json::JsonView) -> Seq<char> {
    "Serialization error for format '"@ + format + "': "@ + ("expected "@ + wanted + ", got "@
        + json::json_text(got))
}

/// The bytes of an array, or what is reported of its first element that is none.
pub open spec fn bytes_of(items: Seq<json::JsonView>) -> Result<Seq<u8>, Seq<char>>
    decreases items.len(),
{
    if items.len() == 0 {
        Ok(Seq::empty())
    } else {
        match bytes_of(items.drop_last()) {
            Err(m) => Err(m),
            Ok(before) => match as_byte(items.last()) {
                Some(b) => Ok(before.push(b)),
                None => Err(mismatch("Value::Bytes"@, "byte array"@, items.last())),
            },
        }
    }
}

/// The value that a member under one of the type names stands for, or what is reported.
pub open spec fn named_value(key: Seq<char>, j: json::JsonView) -> Result<ValueView, Seq<char>> {
    if key == "String"@ {
        match j {
            json::JsonView::String(s) => Ok(ValueView::String(s)),
            other => Err(mismatch("Value::String"@, "string"@, other)),
        }
    } else if key == "Int64"@ {
        match j {
            json::JsonView::Number(n) => match n.as_i64_spec() {
                Some(i) => Ok(ValueView::Int64(i)),
                None => Err(mismatch("Value::Int64"@, "i64"@, j)),
            },
            other => Err(mismatch("Value::Int64"@, "number"@, other)),
        }
    } else if key == "UInt64"@ {
        match j {
            json::JsonView::Number(n) => match n.as_u64_spec() {
                Some(u) => Ok(ValueView::UInt64(u)),
                None => Err(mismatch("Value::UInt64"@, "u64"@, j)),
            },
            other => Err(mismatch("Value::UInt64"@, "number"@, other)),
        }
    } else if key == "Float64"@ {
        match j {
            json::JsonView::Number(n) => Ok(ValueView::Float64(n.as_float_spec())),
            other => Err(mismatch("Value::Float64"@, "number"@, other)),
        }
    } else if key == "Bool"@ {
        match j {
            json::JsonView::Bool(b) => Ok(ValueView::Bool(b)),
            other => Err(mismatch("Value::Bool"@, "bool"@, other)),
        }
    } else if key == "Bytes"@ {
        match j {
            json::JsonView::Array(items) => match bytes_of(items) {
                Ok(b) => Ok(ValueView::Bytes(b)),
                Err(m) => Err(m),
            },
            other => Err(mismatch("Value::Bytes"@, "array"@, other)),
        }
    } else if key == "Json"@ {
        Ok(ValueView::Json(j))
    } else if key == "Null"@ {
        match j {
            json::JsonView::Null => Ok(ValueView::Null),
            other => Err(mismatch("Value::Null"@, "null"@, other)),
        }
    } else {
        Ok(ValueView::Json(single(key, j)))
    }
}

/// The value that a document stands for, or what is reported. An object of one member that is
/// named after a type is that value; the string `Null` is no value; every other document is itself.
pub open spec fn untagged(j: json::JsonView) -> Result<ValueView, Seq<char>> {
    match j {
        json::JsonView::Object(members) => if members.len() == 1 {
            named_value(members[0].0, members[0].1)
        } else {
            Ok(ValueView::Json(j))
        },
        json::JsonView::String(s) => if s == "Null"@ {
            Ok(ValueView::Null)
        } else {
            Ok(ValueView::Json(j))
        },
        other => Ok(ValueView::Json(other)),
    }
}

fn mismatch_error(format: &str, wanted: &str, got: &JsonValue) -> (r: F4KvsError)
    ensures
        r.is_serialization(mismatch(format@, wanted@, got@)),
{
    let shown = render(got);
    let mut m = cat("expected ", wanted);
    m.append(", got ");
    m.append(shown.as_str());
    F4KvsError::serialization_with_format(format, m.as_str())
}

fn bytes_from(items: &Vec<JsonValue>) -> (r: Result<Vec<u8>, F4KvsError>)
    ensures
        match bytes_of(json::elements_view(items@)) {
            Ok(b) => r matches Ok(v) && v@ == b,
            Err(m) => r matches Err(e) && e.is_serialization(m),
        },
{
    let mut out: Vec<u8> = Vec::new();
    let mut i: usize = 0;
    assert(items@.take(0) =~= Seq::empty());
    while i < items.len()
        invariant
            i <= items@.len(),
            bytes_of(json::elements_view(items@.take(i as int))) == Ok::<Seq<u8>, Seq<char>>(out@),
        decreases items@.len() - i,
    {
        proof {
            json::elements_view_step(items@, i as int);
            let v = json::elements_view(items@.take(i + 1));
            assert(v.drop_last() =~= json::elements_view(items@.take(i as int)));
        }
        let b: Option<u8> = match &items[i] {
            JsonValue::Number(JsonNumber::PosInt(n)) => if *n <= 255 {
                Some(*n as u8)
            } else {
                None
            },
            _ => None,
        };
        assert(b == as_byte(items@[i as int]@));
        match b {
            Some(byte) => {
                out.push(byte);
            },
            None => {
                proof {
                    bytes_of_fails(items@, i + 1);
                }
                return Err(mismatch_error("Value::Bytes", "byte array", &items[i]));
            },
        }
        i = i + 1;
    }
    assert(items@.take(i as int) =~= items@);
    Ok(out)
}

proof fn bytes_of_fails(items: Seq<JsonValue>, k: int)
    requires
        0 <= k <= items.len(),
        bytes_of(json::elements_view(items.take(k))) is Err,
    ensures
        bytes_of(json::elements_view(items)) == bytes_of(json::elements_view(items.take(k))),
    decreases items.len() - k,
{
    if k < items.len() {
        json::elements_view_step(items, k);
        let v = json::elements_view(items.take(k + 1));
        assert(v.drop_last() =~= json::elements_view(items.take(k)));
        bytes_of_fails(items, k + 1);
    } else {
        assert(items.take(k) =~= items);
    }
}

/// A value that is written as a JSON document is read back, unless it is a number that is not
/// finite, which JSON cannot write.
pub proof fn tagged_round_trip(v: ValueView)
    requires
        v matches ValueView::Float64(b) ==> finite_bits(b),
    ensures
        untagged(tagged(v)) == Ok::<ValueView, Seq<char>>(v),
{
    reveal_strlit("String");
    reveal_strlit("Int64");
    reveal_strlit("UInt64");
    reveal_strlit("Float64");
    reveal_strlit("Bool");
    reveal_strlit("Bytes");
    reveal_strlit("Json");
    reveal_strlit("Null");
    assert("String"@.len() == 6 && "Int64"@.len() == 5 && "UInt64"@.len() == 6 && "Float64"@.len() == 7);
    assert("Bool"@.len() == 4 && "Bytes"@.len() == 5 && "Json"@.len() == 4 && "Null"@.len() == 4);
    assert("String"@[0] == 'S' && "UInt64"@[0] == 'U' && "Int64"@[0] == 'I' && "Bytes"@[0] == 'B');
    assert("Bool"@[0] == 'B' && "Json"@[0] == 'J' && "Null"@[0] == 'N');
    match v {
        ValueView::Bytes(b) => {
            bytes_of_elements(b);
        },
        _ => {},
    }
}

proof fn bytes_of_elements(b: Seq<u8>)
    ensures
        bytes_of(byte_elements(b)) == Ok::<Seq<u8>, Seq<char>>(b),
    decreases b.len(),
{
    if b.len() > 0 {
        bytes_of_elements(b.drop_last());
        assert(byte_elements(b).drop_last() =~= byte_elements(b.drop_last()));
        assert(byte_elements(b).last() == json::JsonView::Number(JsonNumber::PosInt(b.last() as u64)));
        assert(b.drop_last().push(b.last()) =~= b);
    } else {
        assert(b =~= Seq::empty());
    }
}

/// The name of a value's type.
pub open spec fn kind_name_of(v: ValueView) -> Seq<char> {
    match v {
        ValueView::String(_) => "String"@,
        ValueView::Int64(_) => "Int64"@,
        ValueView::UInt64(_) => "UInt64"@,
        ValueView::Float64(_) => "Float64"@,
        ValueView::Bool(_) => "Bool"@,
        ValueView::Bytes(_) => "Bytes"@,
        ValueView::Json(_) => "Json"@,
        ValueView::Null => "Null"@,
    }
}

/// The JSON text of the value can be read back: it is no floating point number, and a document is
/// plain and, under the name of its type, not nested deeper than is read.
pub open spec fn writes_back(v: ValueView) -> bool {
    match v {
        ValueView::Float64(_) => false,
        ValueView::Json(j) => json::plain_document(j) && json::nesting(j) < 127,
        _ => true,
    }
}

proof fn byte_elements_plain(data: Seq<u8>)
    ensures
        json::plain_elements(byte_elements(data)),
        json::elements_nesting(byte_elements(data)) == 0,
    decreases data.len(),
{
    if data.len() > 0 {
        byte_elements_plain(data.drop_last());
        assert(byte_elements(data).drop_last() =~= byte_elements(data.drop_last()));
        let last = byte_elements(data).last();
        assert(last == json::JsonView::Number(JsonNumber::PosInt(data.last() as u64)));
        assert(json::plain_document(last));
        assert(json::nesting(last) == 0);
    }
}

proof fn tagged_reads_back(v: ValueView)
    requires
        writes_back(v),
    ensures
        json::reads_back(tagged(v)),
{
    reveal_with_fuel(json::plain_document, 3);
    reveal_with_fuel(json::plain_members, 3);
    reveal_with_fuel(json::nesting, 3);
    reveal_with_fuel(json::members_nesting, 3);
    if let ValueView::Bytes(b) = v {
        byte_elements_plain(b);
    }
    if let json::JsonView::Object(members) = tagged(v) {
        assert(members.drop_last() =~= Seq::empty());
    }
}

/// What a document that could be read in full stands for, or what is reported.
pub open spec fn read_text(
    parsed: Result<(json::JsonView, Option<Seq<char>>), Seq<char>>,
) -> Result<ValueView, Seq<char>> {
    match parsed {
        Err(m) => Err(m),
        Ok((doc, rest)) => match untagged(doc) {
            Err(m) => Err("Serialization error: "@ + m),
            Ok(v) => match rest {
                Some(m) => Err(m),
                None => Ok(v),
            },
        },
    }
}

/// What a document that was read from bytes stands for, or what is reported.
pub open spec fn read_bytes(parsed: Result<json::JsonView, Seq<char>>) -> Result<
    ValueView,
    Seq<char>,
> {
    match parsed {
        Err(m) => Err(m),
        Ok(doc) => untagged(doc),
    }
}

/// The text under which a value is shown; `float_text` is that of a floating point number.
pub open spec fn value_text(v: ValueView, float_text: Seq<char>) -> Seq<char> {
    match v {
        ValueView::String(s) => s,
        ValueView::Int64(i) => text::signed_dec(i as int),
        ValueView::UInt64(u) => text::dec(u as nat),
        ValueView::Float64(_) => float_text,
        ValueView::Bool(b) => text::bool_chars(b),
        ValueView::Bytes(b) => text::hex_bytes(b),
        ValueView::Json(j) => json::json_text(j),
        ValueView::Null => "null"@,
    }
}

fn single_member(key: &str, j: JsonValue) -> (r: JsonValue)
    ensures
        r@ == single(key@, j@),
{
    let owned = key.to_owned();
    let mut members: Vec<(String, JsonValue)> = Vec::new();
    proof {
        json::members_view_push(members@, (owned, j));
    }
    members.push((owned, j));
    assert(json::members_view(members@) =~= seq![(key@, j@)]);
    JsonValue::Object(members)
}

fn byte_array(data: &Vec<u8>) -> (r: JsonValue)
    ensures
        r@ == json::JsonView::Array(byte_elements(data@)),
{
    let mut items: Vec<JsonValue> = Vec::new();
    let mut i: usize = 0;
    assert(byte_elements(data@.take(0)) =~= Seq::empty());
    while i < data.len()
        invariant
            i <= data@.len(),
            json::elements_view(items@) == byte_elements(data@.take(i as int)),
        decreases data@.len() - i,
    {
        let item = JsonValue::Number(JsonNumber::PosInt(data[i] as u64));
        proof {
            json::elements_view_push(items@, item);
            assert(byte_elements(data@.take(i + 1)) =~= byte_elements(data@.take(i as int)).push(item@));
        }
        items.push(item);
        i = i + 1;
    }
    assert(data@.take(i as int) =~= data@);
    JsonValue::Array(items)
}

impl Value {
    /// Whether there is no value.
    pub fn is_null(&self) -> (r: bool)
        ensures
            r == (self@ is Null),
    {
        matches!(self, Value::Null)
    }

    /// The name of the value's type.
    pub fn kind_name(&self) -> (r: &'static str)
        ensures
            r@ == kind_name_of(self@),
    {
        match self {
            Value::String(_) => "String",
            Value::Int64(_) => "Int64",
            Value::UInt64(_) => "UInt64",
            Value::Float64(_) => "Float64",
            Value::Bool(_) => "Bool",
            Value::Bytes(_) => "Bytes",
            Value::Json(_) => "Json",
            Value::Null => "Null",
        }
    }

    /// The value as a JSON document that names its type.
    pub fn to_json_value(&self) -> (r: JsonValue)
        ensures
            r@ == tagged(self@),
    {
        match self {
            Value::String(s) => single_member("String", JsonValue::String(s.clone())),
            Value::Int64(i) => single_member(
                "Int64",
                JsonValue::Number(
                    if *i >= 0 {
                        JsonNumber::PosInt(*i as u64)
                    } else {
                        JsonNumber::NegInt(*i)
                    },
                ),
            ),
            Value::UInt64(u) => single_member("UInt64", JsonValue::Number(JsonNumber::PosInt(*u))),
            Value::Float64(b) => single_member(
                "Float64",
                if (*b >> 52) & 0x7ff != 0x7ff {
                    JsonValue::Number(JsonNumber::Float(*b))
                } else {
                    JsonValue::Null
                },
            ),
            Value::Bool(b) => single_member("Bool", JsonValue::Bool(*b)),
            Value::Bytes(b) => single_member("Bytes", byte_array(b)),
            Value::Json(j) => single_member("Json", j.clone()),
            Value::Null => JsonValue::String("Null".to_owned()),
        }
    }

    /// The JSON text of the value.
    pub fn to_json_string(&self) -> (r: Result<String, F4KvsError>)
        ensures
            r matches Ok(s) && s@ == json::json_text(tagged(self@)),
    {
        let doc = self.to_json_value();
        Ok(render(&doc))
    }

    /// The value that a JSON document stands for.
    pub fn from_serde_json_value(value: JsonValue) -> (r: Result<Value, F4KvsError>)
        ensures
            match untagged(value@) {
                Ok(v) => r matches Ok(got) && got@ == v,
                Err(m) => r matches Err(e) && e.is_serialization(m),
            },
    {
        match value {
            JsonValue::Object(members) => {
                if members.len() != 1 {
                    proof {
                        members_len(members@);
                    }
                    return Ok(Value::Json(JsonValue::Object(members)));
                }
                let mut members = members;
                let ghost all = members@;
                proof {
                    members_len(all);
                    assert(all.drop_last() =~= Seq::empty());
                    assert(json::members_view(all) =~= seq![(all[0].0@, all[0].1@)]);
                }
                match members.pop() {
                    Some((key, j)) => Self::from_member(key, j),
                    None => Ok(Value::Null),
                }
            },
            JsonValue::String(s) => {
                if same_text(s.as_str(), "Null") {
                    Ok(Value::Null)
                } else {
                    Ok(Value::Json(JsonValue::String(s)))
                }
            },
            other => Ok(Value::Json(other)),
        }
    }

    fn from_member(key: String, j: JsonValue) -> (r: Result<Value, F4KvsError>)
        ensures
            match named_value(key@, j@) {
                Ok(v) => r matches Ok(got) && got@ == v,
                Err(m) => r matches Err(e) && e.is_serialization(m),
            },
    {
        let k = key.as_str();
        if same_text(k, "String") {
            match j {
                JsonValue::String(s) => Ok(Value::String(s)),
                other => Err(mismatch_error("Value::String", "string", &other)),
            }
        } else if same_text(k, "Int64") {
            match &j {
                JsonValue::Number(n) => match n.as_i64() {
                    Some(i) => Ok(Value::Int64(i)),
                    None => Err(mismatch_error("Value::Int64", "i64", &j)),
                },
                other => Err(mismatch_error("Value::Int64", "number", other)),
            }
        } else if same_text(k, "UInt64") {
            match &j {
                JsonValue::Number(n) => match n.as_u64() {
                    Some(u) => Ok(Value::UInt64(u)),
                    None => Err(mismatch_error("Value::UInt64", "u64", &j)),
                },
                other => Err(mismatch_error("Value::UInt64", "number", other)),
            }
        } else if same_text(k, "Float64") {
            match &j {
                JsonValue::Number(n) => Ok(Value::Float64(n.as_float_bits())),
                other => Err(mismatch_error("Value::Float64", "number", other)),
            }
        } else if same_text(k, "Bool") {
            match j {
                JsonValue::Bool(b) => Ok(Value::Bool(b)),
                other => Err(mismatch_error("Value::Bool", "bool", &other)),
            }
        } else if same_text(k, "Bytes") {
            match &j {
                JsonValue::Array(items) => match bytes_from(items) {
                    Ok(b) => Ok(Value::Bytes(b)),
                    Err(e) => Err(e),
                },
                other => Err(mismatch_error("Value::Bytes", "array", other)),
            }
        } else if same_text(k, "Json") {
            Ok(Value::Json(j))
        } else if same_text(k, "Null") {
            match j {
                JsonValue::Null => Ok(Value::Null),
                other => Err(mismatch_error("Value::Null", "null", &other)),
            }
        } else {
            Ok(Value::Json(single_member(k, j)))
        }
    }

    /// Reads the JSON text of a value. What was written is read back.
    pub fn from_json_string(text: &str) -> (r: Result<Value, F4KvsError>)
        ensures
            match read_text(json::json_parsed(text@)) {
                Ok(v) => r matches Ok(got) && got@ == v,
                Err(m) => r matches Err(e) && e.is_serialization(m),
            },
            forall|w: ValueView|
                writes_back(w) && text@ == json::json_text(#[trigger] tagged(w)) ==> (r matches Ok(
                    got,
                ) && got@ == w),
    {
        let parsed = parse(text);
        proof {
            assert forall|v: ValueView|
                writes_back(v) && text@ == json::json_text(#[trigger] tagged(v)) implies read_text(
                parsed_view(parsed),
            ) == Ok::<ValueView, Seq<char>>(v) by {
                tagged_reads_back(v);
                tagged_round_trip(v);
            }
        }
        Self::from_parsed(parsed)
    }

    /// The value of a document that was read from a text, with what was reported of the rest of it.
    pub fn from_parsed(parsed: Result<(JsonValue, Option<String>), String>) -> (r: Result<
        Value,
        F4KvsError,
    >)
        ensures
            match read_text(parsed_view(parsed)) {
                Ok(v) => r matches Ok(got) && got@ == v,
                Err(m) => r matches Err(e) && e.is_serialization(m),
            },
    {
        match parsed {
            Ok((doc, rest)) => match Self::from_serde_json_value(doc) {
                Err(e) => Err(F4KvsError::Serialization { message: e.to_text() }),
                Ok(v) => match rest {
                    Some(m) => Err(F4KvsError::Serialization { message: m }),
                    None => Ok(v),
                },
            },
            Err(m) => Err(F4KvsError::Serialization { message: m }),
        }
    }

    /// Reads the JSON bytes of a value.
    pub fn from_json_bytes(data: &[u8]) -> (r: Result<Value, F4KvsError>)
        ensures
            match read_bytes(json::json_parsed_bytes(data@)) {
                Ok(v) => r matches Ok(got) && got@ == v,
                Err(m) => r matches Err(e) && e.is_serialization(m),
            },
    {
        match parse_bytes(data) {
            Ok(doc) => Self::from_serde_json_value(doc),
            Err(m) => Err(F4KvsError::Serialization { message: m }),
        }
    }

    /// Number of bytes of the value.
    pub fn serialized_size(&self) -> (r: usize)
        ensures
            r == value_size(self@),
    {
        match self {
            Value::String(s) => s.as_str().as_bytes().len(),
            Value::Int64(_) => 8,
            Value::UInt64(_) => 8,
            Value::Float64(_) => 8,
            Value::Bool(_) => 1,
            Value::Bytes(b) => b.len(),
            Value::Json(j) => {
                let shown = render(j);
                shown.as_str().as_bytes().len()
            },
            Value::Null => 0,
        }
    }

    /// The bytes of the value.
    pub fn to_bytes(&self) -> (r: Vec<u8>)
        ensures
            r@ == value_bytes(self@),
    {
        match self {
            Value::String(s) => slice_to_vec(s.as_str().as_bytes()),
            Value::Int64(i) => u64_to_le_bytes(*i as u64),
            Value::UInt64(u) => u64_to_le_bytes(*u),
            Value::Float64(b) => u64_to_le_bytes(*b),
            Value::Bool(b) => {
                let mut out: Vec<u8> = Vec::new();
                out.push(if *b { 1 } else { 0 });
                assert(out@ =~= value_bytes(self@));
                out
            },
            Value::Bytes(b) => slice_to_vec(b.as_slice()),
            Value::Json(j) => {
                let shown = render(j);
                slice_to_vec(shown.as_str().as_bytes())
            },
            Value::Null => Vec::new(),
        }
    }

    /// The bytes of the value, which is given up for them.
    pub fn into_bytes(self) -> (r: Vec<u8>)
        ensures
            r@ == value_bytes(self@),
    {
        match self {
            Value::Bytes(b) => b,
            other => other.to_bytes(),
        }
    }

    /// The text under which the value is shown; `float_text` is that of a floating point number.
    pub fn display_text(&self, float_text: &str) -> (r: String)
        ensures
            r@ == value_text(self@, float_text@),
    {
        match self {
            Value::String(s) => s.clone(),
            Value::Int64(i) => signed_text(*i),
            Value::UInt64(u) => dec_text(*u),
            Value::Float64(_) => float_text.to_owned(),
            Value::Bool(b) => if *b {
                "true".to_owned()
            } else {
                "false".to_owned()
            },
            Value::Bytes(b) => hex_bytes_text(b.as_slice()),
            Value::Json(j) => render(j),
            Value::Null => "null".to_owned(),
        }
    }
}

/// What was read from a text, with strings as text.
pub open spec fn parsed_view(parsed: Result<(JsonValue, Option<String>), String>) -> Result<
    (json::JsonView, Option<Seq<char>>),
    Seq<char>,
> {
    match parsed {
        Ok((doc, Some(m))) => Ok((doc@, Some(m@))),
        Ok((doc, None)) => Ok((doc@, None)),
        Err(m) => Err(m@),
    }
}

/// Two values are equal; floating point numbers as numbers, not by their bits.
pub open spec fn same_value(a: ValueView, b: ValueView) -> bool {
    match (a, b) {
        (ValueView::Float64(x), ValueView::Float64(y)) => json::same_float(x, y),
        (ValueView::Json(x), ValueView::Json(y)) => json::same_document(x, y),
        _ => a == b,
    }
}

fn values_equal(a: &Value, b: &Value) -> (r: bool)
    ensures
        r == same_value(a@, b@),
{
    match (a, b) {
        (Value::String(x), Value::String(y)) => same_text(x.as_str(), y.as_str()),
        (Value::Int64(x), Value::Int64(y)) => *x == *y,
        (Value::UInt64(x), Value::UInt64(y)) => *x == *y,
        (Value::Float64(x), Value::Float64(y)) => floats_equal(*x, *y),
        (Value::Bool(x), Value::Bool(y)) => *x == *y,
        (Value::Bytes(x), Value::Bytes(y)) => bytes_equal(x.as_slice(), y.as_slice()),
        (Value::Json(x), Value::Json(y)) => documents_equal(x, y),
        (Value::Null, Value::Null) => true,
        _ => false,
    }
}

impl PartialEq for Value {
    fn eq(&self, other: &Value) -> (r: bool) {
        values_equal(self, other)
    }
}

impl vstd::std_specs::cmp::PartialEqSpecImpl for Value {
    open spec fn obeys_eq_spec() -> bool {
        true
    }

    open spec fn eq_spec(&self, other: &Value) -> bool {
        same_value(self@, other@)
    }
}

proof fn members_len(items: Seq<(String, JsonValue)>)
    ensures
        json::members_view(items).len() == items.len(),
    decreases items.len(),
{
    if items.len() > 0 {
        members_len(items.drop_last());
    }
}

/// `String::capacity`: how many bytes the text can hold before it is moved, which is at least those
/// that it holds. How many more depends on how the text came about.
#[verifier::external_body]
fn text_capacity(s: &String) -> (r: usize)
    ensures
        r >= encode_utf8(s@).len(),
{
    s.capacity()
}

/// `Vec::capacity`: how many elements the array can hold before it is moved, which is at least those
/// that it holds. How many more depends on how the array came about.
#[verifier::external_body]
fn array_capacity(items: &Vec<JsonValue>) -> (r: usize)
    ensures
        r >= items@.len(),
{
    items.capacity()
}

/// A number of bytes, as far as the machine can count.
pub open spec fn told_bytes(n: int) -> usize {
    if n > usize::MAX {
        usize::MAX
    } else {
        n as usize
    }
}

/// What a part of an array or an object is to the estimate.
#[derive(Debug, Clone, Copy, PartialEq, Eq, Structural)]
pub enum PartMemory {
    /// A text that can hold so many bytes.
    Text(usize),
    /// A number.
    Number,
    /// An object.
    Object,
    /// Anything else.
    Other,
}

impl PartMemory {
    /// What the part adds to the estimate.
    pub open spec fn adds(self) -> nat {
        match self {
            PartMemory::Text(capacity) => capacity as nat,
            PartMemory::Number => 8,
            PartMemory::Object => 64,
            PartMemory::Other => layout::size_of::<SerdeJsonValue>(),
        }
    }

    /// The part is what a document is to the estimate. A text can hold at least its bytes.
    pub open spec fn is_of(self, j: json::JsonView) -> bool {
        match j {
            json::JsonView::String(s) => self matches PartMemory::Text(capacity) && capacity
                >= encode_utf8(s).len(),
            json::JsonView::Number(_) => self is Number,
            json::JsonView::Object(_) => self is Object,
            _ => self is Other,
        }
    }

    /// What a document is to the estimate.
    pub fn of(j: &JsonValue) -> (r: Self)
        ensures
            r.is_of(j@),
    {
        match j {
            JsonValue::String(s) => PartMemory::Text(text_capacity(s)),
            JsonValue::Number(_) => PartMemory::Number,
            JsonValue::Object(_) => PartMemory::Object,
            _ => PartMemory::Other,
        }
    }

    fn bytes(&self) -> (r: usize)
        ensures
            r == self.adds(),
    {
        match self {
            PartMemory::Text(capacity) => *capacity,
            PartMemory::Number => 8,
            PartMemory::Object => 64,
            PartMemory::Other => core::mem::size_of::<SerdeJsonValue>(),
        }
    }
}

/// What the parts of an array add to the estimate.
pub open spec fn parts_memory(parts: Seq<PartMemory>) -> nat
    decreases parts.len(),
{
    if parts.len() == 0 {
        0
    } else {
        parts_memory(parts.drop_last()) + parts.last().adds()
    }
}

/// What the members of an object add to the estimate; a key counts with what it can hold.
pub open spec fn members_memory(parts: Seq<(usize, PartMemory)>) -> nat
    decreases parts.len(),
{
    if parts.len() == 0 {
        0
    } else {
        members_memory(parts.drop_last()) + parts.last().0 as nat + parts.last().1.adds()
    }
}

/// The estimate for an array that can hold `capacity` elements and has these.
pub open spec fn array_memory(capacity: usize, parts: Seq<PartMemory>) -> int {
    layout::size_of::<SerdeJsonValue>() + capacity * layout::size_of::<SerdeJsonValue>()
        + parts_memory(parts)
}

/// The estimate for an object with these members.
pub open spec fn object_memory(parts: Seq<(usize, PartMemory)>) -> int {
    layout::size_of::<SerdeJsonValue>() as int + parts.len() * (layout::size_of::<String>()
        + layout::size_of::<SerdeJsonValue>()) + members_memory(parts)
}

fn told_product(a: usize, b: usize) -> (r: usize)
    ensures
        r == told_bytes(a * b),
{
    let whole: u128 = a as u128;
    let each: u128 = b as u128;
    assert(0 <= whole * each <= 0xffff_ffff_ffff_ffff * 0xffff_ffff_ffff_ffff) by (nonlinear_arith)
        requires
            0 <= whole <= 0xffff_ffff_ffff_ffff,
            0 <= each <= 0xffff_ffff_ffff_ffff,
    ;
    let product: u128 = whole * each;
    if product > usize::MAX as u128 {
        usize::MAX
    } else {
        product as usize
    }
}

/// The estimate for an array, from what it can hold and what its elements are to the estimate.
pub fn estimate_array(capacity: usize, parts: &Vec<PartMemory>) -> (r: usize)
    ensures
        r == told_bytes(array_memory(capacity, parts@)),
{
    let base: usize = core::mem::size_of::<SerdeJsonValue>();
    let mut total: usize = 0;
    let mut i: usize = 0;
    assert(parts@.take(0) =~= Seq::empty());
    while i < parts.len()
        invariant
            i <= parts@.len(),
            total == told_bytes(parts_memory(parts@.take(i as int)) as int),
        decreases parts@.len() - i,
    {
        proof {
            let next = parts@.take(i + 1);
            assert(next.drop_last() =~= parts@.take(i as int));
            assert(next.last() == parts@[i as int]);
        }
        total = total.saturating_add(parts[i].bytes());
        i = i + 1;
    }
    assert(parts@.take(i as int) =~= parts@);
    let room: usize = told_product(capacity, base);
    proof {
        product_is_positive(capacity as int, base as int);
    }
    base.saturating_add(room).saturating_add(total)
}

/// The estimate for an object, from what its keys can hold and what its members are to the
/// estimate.
pub fn estimate_object(parts: &Vec<(usize, PartMemory)>) -> (r: usize)
    ensures
        r == told_bytes(object_memory(parts@)),
{
    let base: usize = core::mem::size_of::<SerdeJsonValue>();
    let each: usize = core::mem::size_of::<String>().saturating_add(base);
    let mut total: usize = 0;
    let mut i: usize = 0;
    assert(parts@.take(0) =~= Seq::empty());
    while i < parts.len()
        invariant
            i <= parts@.len(),
            total == told_bytes(members_memory(parts@.take(i as int)) as int),
        decreases parts@.len() - i,
    {
        proof {
            let next = parts@.take(i + 1);
            assert(next.drop_last() =~= parts@.take(i as int));
            assert(next.last() == parts@[i as int]);
        }
        total = total.saturating_add(parts[i].0).saturating_add(parts[i].1.bytes());
        i = i + 1;
    }
    assert(parts@.take(i as int) =~= parts@);
    let room: usize = told_product(parts.len(), each);
    proof {
        let whole = layout::size_of::<String>() + layout::size_of::<SerdeJsonValue>();
        product_is_positive(parts@.len() as int, whole as int);
        if whole > usize::MAX {
            told_product_large(parts@.len() as int, whole as int);
        }
    }
    base.saturating_add(room).saturating_add(total)
}

proof fn product_is_positive(a: int, b: int)
    requires
        0 <= a,
        0 <= b,
    ensures
        0 <= a * b,
{
    assert(0 <= a * b) by (nonlinear_arith)
        requires
            0 <= a,
            0 <= b,
    ;
}

proof fn told_product_large(n: int, whole: int)
    requires
        0 <= n,
        whole > usize::MAX,
    ensures
        told_bytes(n * whole) == told_bytes(n * usize::MAX),
{
    if n > 0 {
        assert(n * whole > usize::MAX && n * usize::MAX >= usize::MAX) by (nonlinear_arith)
            requires
                n > 0,
                whole > usize::MAX,
        ;
    } else {
        assert(n * whole == 0 && n * usize::MAX == 0) by (nonlinear_arith)
            requires
                n == 0,
        ;
    }
}

/// What the parts of an array are to the estimate.
pub open spec fn parts_of(parts: Seq<PartMemory>, items: Seq<json::JsonView>) -> bool {
    &&& parts.len() == items.len()
    &&& forall|i: int| 0 <= i < items.len() ==> (#[trigger] parts[i]).is_of(items[i])
}

/// What the members of an object are to the estimate. A key can hold at least its bytes.
pub open spec fn member_parts_of(
    parts: Seq<(usize, PartMemory)>,
    items: Seq<(Seq<char>, json::JsonView)>,
) -> bool {
    &&& parts.len() == items.len()
    &&& forall|i: int|
        0 <= i < items.len() ==> (#[trigger] parts[i]).0 >= encode_utf8(items[i].0).len()
            && parts[i].1.is_of(items[i].1)
}

/// The number is an estimate of the memory that a value takes: its size and that of the structure
/// that holds it, and for a JSON document that of its immediate parts, with what texts and arrays
/// can hold. How much more that is than what they do hold is left open.
pub open spec fn estimates_memory(v: ValueView, r: usize) -> bool {
    let base = layout::size_of::<SerdeJsonValue>() as int;
    match v {
        ValueView::String(s) => r == told_bytes(
            encode_utf8(s).len() + layout::size_of::<String>() as int,
        ),
        ValueView::Int64(_) => r == 8,
        ValueView::UInt64(_) => r == 8,
        ValueView::Float64(_) => r == 8,
        ValueView::Bool(_) => r == 1,
        ValueView::Bytes(b) => r == told_bytes(b.len() + layout::size_of::<Vec<u8>>() as int),
        ValueView::Json(json::JsonView::Null) => r == base,
        ValueView::Json(json::JsonView::Bool(_)) => r == base,
        ValueView::Json(json::JsonView::Number(_)) => r == told_bytes(base + 8),
        ValueView::Json(json::JsonView::String(s)) => exists|capacity: usize|
            capacity >= encode_utf8(s).len() && r == #[trigger] told_bytes(base + capacity),
        ValueView::Json(json::JsonView::Array(items)) => exists|
            capacity: usize,
            parts: Seq<PartMemory>,
        |
            capacity >= items.len() && parts_of(parts, items) && r == told_bytes(
                #[trigger] array_memory(capacity, parts),
            ),
        ValueView::Json(json::JsonView::Object(items)) => exists|parts: Seq<(usize, PartMemory)>|
            member_parts_of(parts, items) && r == told_bytes(#[trigger] object_memory(parts)),
        ValueView::Null => r == 0,
    }
}

fn array_estimate(items: &Vec<JsonValue>) -> (r: usize)
    ensures
        estimates_memory(
            ValueView::Json(json::JsonView::Array(json::elements_view(items@))),
            r,
        ),
{
    let ghost views = json::elements_view(items@);
    proof {
        json::elements_view_at(items@);
    }
    let mut parts: Vec<PartMemory> = Vec::new();
    let mut i: usize = 0;
    while i < items.len()
        invariant
            i <= items@.len(),
            views == json::elements_view(items@),
            views.len() == items@.len(),
            forall|k: int|
                0 <= k < items@.len() ==> #[trigger] views[k] == json::document_view(items@[k]),
            parts@.len() == i,
            forall|k: int| 0 <= k < i ==> (#[trigger] parts@[k]).is_of(views[k]),
        decreases items@.len() - i,
    {
        let part = PartMemory::of(&items[i]);
        assert(views[i as int] == json::document_view(items@[i as int]));
        parts.push(part);
        i = i + 1;
    }
    let capacity: usize = array_capacity(items);
    assert(parts_of(parts@, views));
    estimate_array(capacity, &parts)
}

fn object_estimate(items: &Vec<(String, JsonValue)>) -> (r: usize)
    ensures
        estimates_memory(
            ValueView::Json(json::JsonView::Object(json::members_view(items@))),
            r,
        ),
{
    let ghost views = json::members_view(items@);
    proof {
        json::members_view_at(items@);
    }
    let mut parts: Vec<(usize, PartMemory)> = Vec::new();
    let mut i: usize = 0;
    while i < items.len()
        invariant
            i <= items@.len(),
            views == json::members_view(items@),
            views.len() == items@.len(),
            forall|k: int|
                0 <= k < items@.len() ==> #[trigger] views[k] == (
                    items@[k].0@,
                    json::document_view(items@[k].1),
                ),
            parts@.len() == i,
            forall|k: int|
                0 <= k < i ==> (#[trigger] parts@[k]).0 >= encode_utf8(views[k].0).len()
                    && parts@[k].1.is_of(views[k].1),
        decreases items@.len() - i,
    {
        let key: usize = text_capacity(&items[i].0);
        let part = PartMemory::of(&items[i].1);
        assert(views[i as int] == (items@[i as int].0@, json::document_view(items@[i as int].1)));
        parts.push((key, part));
        i = i + 1;
    }
    assert(member_parts_of(parts@, views));
    estimate_object(&parts)
}

impl Value {
    /// Estimate of the memory that the value takes. The texts and arrays of a JSON document count
    /// with what they can hold, of which no more is said than that it is at least what they do hold.
    pub fn memory_size(&self) -> (r: usize)
        ensures
            estimates_memory(self@, r),
    {
        match self {
            Value::String(s) => s.as_str().as_bytes().len().saturating_add(
                core::mem::size_of::<String>(),
            ),
            Value::Int64(_) => 8,
            Value::UInt64(_) => 8,
            Value::Float64(_) => 8,
            Value::Bool(_) => 1,
            Value::Bytes(b) => b.len().saturating_add(core::mem::size_of::<Vec<u8>>()),
            Value::Json(j) => {
                let base: usize = core::mem::size_of::<SerdeJsonValue>();
                match j {
                    JsonValue::Null => base,
                    JsonValue::Bool(_) => base,
                    JsonValue::Number(_) => base.saturating_add(8),
                    JsonValue::String(s) => {
                        let capacity: usize = text_capacity(s);
                        let r: usize = base.saturating_add(capacity);
                        assert(r == told_bytes(base + capacity));
                        r
                    },
                    JsonValue::Array(items) => array_estimate(items),
                    JsonValue::Object(members) => object_estimate(members),
                }
            },
            Value::Null => 0,
        }
    }
}

impl vstd::std_specs::convert::FromSpecImpl<String> for Value {
    open spec fn obeys_from_spec() -> bool {
        true
    }

    open spec fn from_spec(s: String) -> Self {
        Value::String(s)
    }
}

impl From<String> for Value {
    fn from(s: String) -> (r: Self) {
        Value::String(s)
    }
}

impl vstd::std_specs::convert::FromSpecImpl<i64> for Value {
    open spec fn obeys_from_spec() -> bool {
        true
    }

    open spec fn from_spec(i: i64) -> Self {
        Value::Int64(i)
    }
}

impl From<i64> for Value {
    fn from(i: i64) -> (r: Self) {
        Value::Int64(i)
    }
}

impl vstd::std_specs::convert::FromSpecImpl<u64> for Value {
    open spec fn obeys_from_spec() -> bool {
        true
    }

    open spec fn from_spec(u: u64) -> Self {
        Value::UInt64(u)
    }
}

impl From<u64> for Value {
    fn from(u: u64) -> (r: Self) {
        Value::UInt64(u)
    }
}

impl vstd::std_specs::convert::FromSpecImpl<bool> for Value {
    open spec fn obeys_from_spec() -> bool {
        true
    }

    open spec fn from_spec(b: bool) -> Self {
        Value::Bool(b)
    }
}

impl From<bool> for Value {
    fn from(b: bool) -> (r: Self) {
        Value::Bool(b)
    }
}

impl vstd::std_specs::convert::FromSpecImpl<Vec<u8>> for Value {
    open spec fn obeys_from_spec() -> bool {
        true
    }

    open spec fn from_spec(b: Vec<u8>) -> Self {
        Value::Bytes(b)
    }
}

impl From<Vec<u8>> for Value {
    fn from(b: Vec<u8>) -> (r: Self) {
        Value::Bytes(b)
    }
}

impl vstd::std_specs::convert::FromSpecImpl<JsonValue> for Value {
    open spec fn obeys_from_spec() -> bool {
        true
    }

    open spec fn from_spec(j: JsonValue) -> Self {
        Value::Json(j)
    }
}

impl From<JsonValue> for Value {
    fn from(j: JsonValue) -> (r: Self) {
        Value::Json(j)
    }
}

impl vstd::std_specs::convert::FromSpecImpl<&str> for Value {
    open spec fn obeys_from_spec() -> bool {
        false
    }

    open spec fn from_spec(s: &str) -> Self {
        arbitrary()
    }
}

impl From<&str> for Value {
    fn from(s: &str) -> (r: Self)
        ensures
            r@ == ValueView::String(s@),
    {
        Value::String(s.to_owned())
    }
}

/// The size that is told of a value is the number of its bytes.
pub proof fn size_is_that_of_the_bytes(v: Value, size: usize, bytes: Vec<u8>)
    requires
        call_ensures(Value::serialized_size, (&v,), size),
        call_ensures(Value::to_bytes, (&v,), bytes),
    ensures
        size == bytes@.len(),
{
    value_size_is_length(v@);
}

/// The size of a value is the number of its bytes.
pub proof fn value_size_is_length(v: ValueView)
    ensures
        value_size(v) == value_bytes(v).len(),
{
    match v {
        ValueView::Int64(i) => crate::bytes::u64_back(i as u64),
        ValueView::UInt64(u) => crate::bytes::u64_back(u),
        ValueView::Float64(b) => crate::bytes::u64_back(b),
        _ => {},
    }
}

} // verus!
