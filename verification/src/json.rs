//! JSON documents as plain values.

use crate::bytes;
use crate::text::same_text;
use serde_json::Value as SerdeJsonValue;
use vstd::prelude::*;
use vstd::utf8::*;

verus! {

/// A JSON number: a natural number, a negative integer, or the bits of a binary64 number.
#[derive(Debug, Clone, Copy)]
pub enum JsonNumber {
    /// A number that is not negative.
    PosInt(u64),
    /// A negative number.
    NegInt(i64),
    /// The bits of a finite binary64 number.
    Float(u64),
}

/// A JSON document. Members of an object stand in the order in which they were given.
#[derive(Debug)]
pub enum JsonValue {
    /// `null`.
    Null,
    /// `true` or `false`.
    Bool(bool),
    /// A number.
    Number(JsonNumber),
    /// A string.
    String(String),
    /// An array.
    Array(Vec<JsonValue>),
    /// An object.
    Object(Vec<(String, JsonValue)>),
}

/// A JSON document, with its strings as text.
#[verifier::ext_equal]
pub enum JsonView {
    Null,
    Bool(bool),
    Number(JsonNumber),
    String(Seq<char>),
    Array(Seq<JsonView>),
    Object(Seq<(Seq<char>, JsonView)>),
}

/// The elements of an array.
pub open spec fn elements_view(items: Seq<JsonValue>) -> Seq<JsonView>
    decreases items,
{
    if items.len() == 0 {
        Seq::empty()
    } else {
        elements_view(items.drop_last()).push(document_view(items.last()))
    }
}

/// The members of an object.
pub open spec fn members_view(items: Seq<(String, JsonValue)>) -> Seq<(Seq<char>, JsonView)>
    decreases items,
{
    if items.len() == 0 {
        Seq::empty()
    } else {
        members_view(items.drop_last()).push((items.last().0@, document_view(items.last().1)))
    }
}

/// A document.
pub open spec fn document_view(j: JsonValue) -> JsonView
    decreases j,
{
    match j {
        JsonValue::Null => JsonView::Null,
        JsonValue::Bool(b) => JsonView::Bool(b),
        JsonValue::Number(n) => JsonView::Number(n),
        JsonValue::String(s) => JsonView::String(s@),
        JsonValue::Array(a) => JsonView::Array(elements_view(a@)),
        JsonValue::Object(m) => JsonView::Object(members_view(m@)),
    }
}

impl View for JsonValue {
    type V = JsonView;

    open spec fn view(&self) -> JsonView {
        document_view(*self)
    }
}

/// The elements up to and with `i`.
pub proof fn elements_view_step(items: Seq<JsonValue>, i: int)
    requires
        0 <= i < items.len(),
    ensures
        elements_view(items.take(i + 1)) == elements_view(items.take(i)).push(document_view(items[i])),
{
    assert(items.take(i + 1).drop_last() =~= items.take(i));
}

/// The members up to and with `i`.
pub proof fn members_view_step(items: Seq<(String, JsonValue)>, i: int)
    requires
        0 <= i < items.len(),
    ensures
        members_view(items.take(i + 1)) == members_view(items.take(i)).push(
            (items[i].0@, document_view(items[i].1)),
        ),
{
    assert(items.take(i + 1).drop_last() =~= items.take(i));
}

/// One element more.
pub proof fn elements_view_push(items: Seq<JsonValue>, item: JsonValue)
    ensures
        elements_view(items.push(item)) == elements_view(items).push(document_view(item)),
{
    assert(items.push(item).drop_last() =~= items);
}

/// One member more.
pub proof fn members_view_push(items: Seq<(String, JsonValue)>, item: (String, JsonValue))
    ensures
        members_view(items.push(item)) == members_view(items).push(
            (item.0@, document_view(item.1)),
        ),
{
    assert(items.push(item).drop_last() =~= items);
}

/// A copy of a document.
pub fn copy_document(j: &JsonValue) -> (r: JsonValue)
    ensures
        r@ == j@,
    decreases *j,
{
    match j {
        JsonValue::Null => JsonValue::Null,
        JsonValue::Bool(b) => JsonValue::Bool(*b),
        JsonValue::Number(n) => JsonValue::Number(*n),
        JsonValue::String(s) => JsonValue::String(s.clone()),
        JsonValue::Array(a) => {
            let mut out: Vec<JsonValue> = Vec::new();
            let mut i: usize = 0;
            assert(a@.take(0) =~= Seq::empty());
            while i < a.len()
                invariant
                    *j == JsonValue::Array(*a),
                    i <= a@.len(),
                    elements_view(out@) == elements_view(a@.take(i as int)),
                decreases a@.len() - i,
            {
                assert(decreases_to!(*j => j->Array_0@));
                assert(decreases_to!(a@ => a@[i as int]));
                let item = copy_document(&a[i]);
                proof {
                    elements_view_step(a@, i as int);
                    elements_view_push(out@, item);
                }
                out.push(item);
                i = i + 1;
            }
            assert(a@.take(i as int) =~= a@);
            JsonValue::Array(out)
        },
        JsonValue::Object(m) => {
            let mut out: Vec<(String, JsonValue)> = Vec::new();
            let mut i: usize = 0;
            assert(m@.take(0) =~= Seq::empty());
            while i < m.len()
                invariant
                    *j == JsonValue::Object(*m),
                    i <= m@.len(),
                    members_view(out@) == members_view(m@.take(i as int)),
                decreases m@.len() - i,
            {
                assert(decreases_to!(*j => j->Object_0@));
                assert(decreases_to!(m@ => m@[i as int]));
                assert(decreases_to!(m@[i as int] => m@[i as int].1));
                let key = m[i].0.clone();
                let item = copy_document(&m[i].1);
                proof {
                    members_view_step(m@, i as int);
                    members_view_push(out@, (key, item));
                }
                out.push((key, item));
                i = i + 1;
            }
            assert(m@.take(i as int) =~= m@);
            JsonValue::Object(out)
        },
    }
}

impl Clone for JsonValue {
    fn clone(&self) -> (r: Self)
        ensures
            r@ == self@,
    {
        copy_document(self)
    }
}

/// The bits of a binary64 number without its sign.
pub open spec fn magnitude(bits: u64) -> u64 {
    bits % 0x8000_0000_0000_0000
}

/// Two binary64 numbers are equal: a number that is none differs from every one, and zero does not
/// depend on its sign.
pub open spec fn same_float(a: u64, b: u64) -> bool {
    &&& magnitude(a) <= 0x7ff0_0000_0000_0000
    &&& a == b || (magnitude(a) == 0 && magnitude(b) == 0)
}

/// Two numbers are equal.
pub open spec fn same_number(a: JsonNumber, b: JsonNumber) -> bool {
    match (a, b) {
        (JsonNumber::PosInt(x), JsonNumber::PosInt(y)) => x == y,
        (JsonNumber::NegInt(x), JsonNumber::NegInt(y)) => x == y,
        (JsonNumber::Float(x), JsonNumber::Float(y)) => same_float(x, y),
        _ => false,
    }
}

/// The elements of two arrays are equal.
pub open spec fn same_elements(a: Seq<JsonView>, b: Seq<JsonView>) -> bool
    decreases a,
{
    &&& a.len() == b.len()
    &&& forall|i: int| 0 <= i < a.len() ==> same_document(#[trigger] a[i], b[i])
}

/// The members of two objects are equal.
pub open spec fn same_members(a: Seq<(Seq<char>, JsonView)>, b: Seq<(Seq<char>, JsonView)>) -> bool
    decreases a,
{
    &&& a.len() == b.len()
    &&& forall|i: int|
        0 <= i < a.len() ==> (#[trigger] a[i]).0 == b[i].0 && same_document(a[i].1, b[i].1)
}

/// Two documents are equal.
pub open spec fn same_document(a: JsonView, b: JsonView) -> bool
    decreases a,
{
    match (a, b) {
        (JsonView::Null, JsonView::Null) => true,
        (JsonView::Bool(x), JsonView::Bool(y)) => x == y,
        (JsonView::Number(x), JsonView::Number(y)) => same_number(x, y),
        (JsonView::String(x), JsonView::String(y)) => x == y,
        (JsonView::Array(x), JsonView::Array(y)) => same_elements(x, y),
        (JsonView::Object(x), JsonView::Object(y)) => same_members(x, y),
        _ => false,
    }
}

/// Whether two binary64 numbers are equal.
pub fn floats_equal(a: u64, b: u64) -> (r: bool)
    ensures
        r == same_float(a, b),
{
    let (x, y): (u64, u64) = (a % 0x8000_0000_0000_0000, b % 0x8000_0000_0000_0000);
    x <= 0x7ff0_0000_0000_0000 && (a == b || (x == 0 && y == 0))
}

fn numbers_equal(a: JsonNumber, b: JsonNumber) -> (r: bool)
    ensures
        r == same_number(a, b),
{
    match (a, b) {
        (JsonNumber::PosInt(x), JsonNumber::PosInt(y)) => x == y,
        (JsonNumber::NegInt(x), JsonNumber::NegInt(y)) => x == y,
        (JsonNumber::Float(x), JsonNumber::Float(y)) => floats_equal(x, y),
        _ => false,
    }
}

pub(crate) proof fn elements_view_at(items: Seq<JsonValue>)
    ensures
        elements_view(items).len() == items.len(),
        forall|i: int|
            0 <= i < items.len() ==> #[trigger] elements_view(items)[i] == document_view(items[i]),
    decreases items.len(),
{
    if items.len() > 0 {
        elements_view_at(items.drop_last());
    }
}

pub(crate) proof fn members_view_at(items: Seq<(String, JsonValue)>)
    ensures
        members_view(items).len() == items.len(),
        forall|i: int|
            0 <= i < items.len() ==> #[trigger] members_view(items)[i] == (
                items[i].0@,
                document_view(items[i].1),
            ),
    decreases items.len(),
{
    if items.len() > 0 {
        members_view_at(items.drop_last());
    }
}

/// Whether two documents are equal.
pub fn documents_equal(a: &JsonValue, b: &JsonValue) -> (r: bool)
    ensures
        r == same_document(a@, b@),
    decreases *a,
{
    match (a, b) {
        (JsonValue::Null, JsonValue::Null) => true,
        (JsonValue::Bool(x), JsonValue::Bool(y)) => *x == *y,
        (JsonValue::Number(x), JsonValue::Number(y)) => numbers_equal(*x, *y),
        (JsonValue::String(x), JsonValue::String(y)) => same_text(x.as_str(), y.as_str()),
        (JsonValue::Array(x), JsonValue::Array(y)) => {
            let ghost (p, q) = (elements_view(x@), elements_view(y@));
            proof {
                elements_view_at(x@);
                elements_view_at(y@);
            }
            if x.len() != y.len() {
                return false;
            }
            let mut i: usize = 0;
            while i < x.len()
                invariant
                    *a == JsonValue::Array(*x),
                    *b == JsonValue::Array(*y),
                    p == elements_view(x@),
                    q == elements_view(y@),
                    p.len() == x@.len(),
                    q.len() == x@.len(),
                    x@.len() == y@.len(),
                    i <= x@.len(),
                    forall|k: int|
                        0 <= k < x@.len() ==> #[trigger] p[k] == document_view(x@[k]),
                    forall|k: int|
                        0 <= k < y@.len() ==> #[trigger] q[k] == document_view(y@[k]),
                    forall|k: int| 0 <= k < i ==> same_document(#[trigger] p[k], q[k]),
                decreases x@.len() - i,
            {
                assert(decreases_to!(*a => a->Array_0@));
                assert(decreases_to!(x@ => x@[i as int]));
                assert(p[i as int] == document_view(x@[i as int]));
                assert(q[i as int] == document_view(y@[i as int]));
                if !documents_equal(&x[i], &y[i]) {
                    assert(!same_elements(p, q));
                    return false;
                }
                i = i + 1;
            }
            true
        },
        (JsonValue::Object(x), JsonValue::Object(y)) => {
            let ghost (p, q) = (members_view(x@), members_view(y@));
            proof {
                members_view_at(x@);
                members_view_at(y@);
            }
            if x.len() != y.len() {
                return false;
            }
            let mut i: usize = 0;
            while i < x.len()
                invariant
                    *a == JsonValue::Object(*x),
                    *b == JsonValue::Object(*y),
                    p == members_view(x@),
                    q == members_view(y@),
                    p.len() == x@.len(),
                    q.len() == x@.len(),
                    x@.len() == y@.len(),
                    i <= x@.len(),
                    forall|k: int|
                        0 <= k < x@.len() ==> #[trigger] p[k] == (
                            x@[k].0@,
                            document_view(x@[k].1),
                        ),
                    forall|k: int|
                        0 <= k < y@.len() ==> #[trigger] q[k] == (
                            y@[k].0@,
                            document_view(y@[k].1),
                        ),
                    forall|k: int|
                        0 <= k < i ==> (#[trigger] p[k]).0 == q[k].0 && same_document(
                            p[k].1,
                            q[k].1,
                        ),
                decreases x@.len() - i,
            {
                assert(decreases_to!(*a => a->Object_0@));
                assert(decreases_to!(x@ => x@[i as int]));
                assert(decreases_to!(x@[i as int] => x@[i as int].1));
                assert(p[i as int] == (x@[i as int].0@, document_view(x@[i as int].1)));
                assert(q[i as int] == (y@[i as int].0@, document_view(y@[i as int].1)));
                if !same_text(x[i].0.as_str(), y[i].0.as_str()) || !documents_equal(
                    &x[i].1,
                    &y[i].1,
                ) {
                    assert(!same_members(p, q));
                    return false;
                }
                i = i + 1;
            }
            true
        },
        _ => false,
    }
}

impl PartialEq for JsonNumber {
    fn eq(&self, other: &JsonNumber) -> (r: bool) {
        numbers_equal(*self, *other)
    }
}

impl vstd::std_specs::cmp::PartialEqSpecImpl for JsonNumber {
    open spec fn obeys_eq_spec() -> bool {
        true
    }

    open spec fn eq_spec(&self, other: &JsonNumber) -> bool {
        same_number(*self, *other)
    }
}

impl PartialEq for JsonValue {
    fn eq(&self, other: &JsonValue) -> (r: bool) {
        documents_equal(self, other)
    }
}

impl vstd::std_specs::cmp::PartialEqSpecImpl for JsonValue {
    open spec fn obeys_eq_spec() -> bool {
        true
    }

    open spec fn eq_spec(&self, other: &JsonValue) -> bool {
        same_document(self@, other@)
    }
}

/// The greatest depth among documents.
pub open spec fn elements_depth(items: Seq<JsonView>) -> nat
    decreases items,
{
    if items.len() == 0 {
        0
    } else {
        let before = elements_depth(items.drop_last());
        let here = document_depth(items.last());
        if here > before {
            here
        } else {
            before
        }
    }
}

/// The greatest depth among the members of an object.
pub open spec fn members_depth(items: Seq<(Seq<char>, JsonView)>) -> nat
    decreases items,
{
    if items.len() == 0 {
        0
    } else {
        let before = members_depth(items.drop_last());
        let here = document_depth(items.last().1);
        if here > before {
            here
        } else {
            before
        }
    }
}

/// How deep a document is nested: 1, and one more than the deepest part of an array or object.
pub open spec fn document_depth(j: JsonView) -> nat
    decreases j,
{
    match j {
        JsonView::Array(a) => 1 + elements_depth(a),
        JsonView::Object(m) => 1 + members_depth(m),
        _ => 1,
    }
}

/// The documents are plain.
pub open spec fn plain_elements(items: Seq<JsonView>) -> bool
    decreases items,
{
    items.len() == 0 || (plain_elements(items.drop_last()) && plain_document(items.last()))
}

/// The members hold plain documents, and their keys ascend.
pub open spec fn plain_members(items: Seq<(Seq<char>, JsonView)>) -> bool
    decreases items,
{
    items.len() == 0 || {
        &&& plain_members(items.drop_last())
        &&& plain_document(items.last().1)
        &&& items.len() > 1 ==> bytes::bytes_lt(
            encode_utf8(items[items.len() - 2].0),
            encode_utf8(items.last().0),
        )
    }
}

/// The document holds no floating point number, negative integers are told apart from others, and
/// the keys of each object ascend.
pub open spec fn plain_document(j: JsonView) -> bool
    decreases j,
{
    match j {
        JsonView::Number(JsonNumber::Float(_)) => false,
        JsonView::Number(JsonNumber::NegInt(n)) => n < 0,
        JsonView::Array(a) => plain_elements(a),
        JsonView::Object(m) => plain_members(m),
        _ => true,
    }
}

/// The most arrays and objects that stand one in the other in one of the documents.
pub open spec fn elements_nesting(items: Seq<JsonView>) -> nat
    decreases items,
{
    if items.len() == 0 {
        0
    } else {
        let before = elements_nesting(items.drop_last());
        let here = nesting(items.last());
        if here > before {
            here
        } else {
            before
        }
    }
}

/// The most arrays and objects that stand one in the other in one of the members.
pub open spec fn members_nesting(items: Seq<(Seq<char>, JsonView)>) -> nat
    decreases items,
{
    if items.len() == 0 {
        0
    } else {
        let before = members_nesting(items.drop_last());
        let here = nesting(items.last().1);
        if here > before {
            here
        } else {
            before
        }
    }
}

/// How many arrays and objects stand one in the other at most.
pub open spec fn nesting(j: JsonView) -> nat
    decreases j,
{
    match j {
        JsonView::Array(a) => 1 + elements_nesting(a),
        JsonView::Object(m) => 1 + members_nesting(m),
        _ => 0,
    }
}

/// The text of the document can be read back: it is plain and not nested deeper than is read.
pub open spec fn reads_back(j: JsonView) -> bool {
    plain_document(j) && nesting(j) < 128
}

/// The compact text of a document.
pub uninterp spec fn json_text(j: JsonView) -> Seq<char>;

/// `serde_json::Number::from_f64` of the number with these bits; `null` where it is not finite.
#[verifier::external_body]
fn float_value(bits: u64) -> SerdeJsonValue {
    let number = bincode::deserialize(&bits.to_le_bytes()).ok().and_then(serde_json::Number::from_f64);
    SerdeJsonValue::from(number)
}

/// Turns a document into the one of `serde_json`, one for one.
#[verifier::external_body]
fn to_serde(j: &JsonValue) -> SerdeJsonValue {
    match j {
        JsonValue::Null => SerdeJsonValue::Null,
        JsonValue::Bool(b) => SerdeJsonValue::Bool(*b),
        JsonValue::Number(JsonNumber::PosInt(n)) => SerdeJsonValue::from(*n),
        JsonValue::Number(JsonNumber::NegInt(n)) => SerdeJsonValue::from(*n),
        JsonValue::Number(JsonNumber::Float(b)) => float_value(*b),
        JsonValue::String(s) => SerdeJsonValue::String(s.clone()),
        JsonValue::Array(a) => SerdeJsonValue::Array(a.iter().map(to_serde).collect()),
        JsonValue::Object(m) => SerdeJsonValue::Object(
            m.iter().map(|p| (p.0.clone(), to_serde(&p.1))).collect()),
    }
}

/// `serde_json::Value`, carried between the conversion and the calls.
#[verifier::external_type_specification]
#[verifier::external_body]
pub struct ExSerdeValue(SerdeJsonValue);

/// `serde_json::Value::to_string`: the compact text depends on the document alone.
#[verifier::external_body]
pub(crate) fn render(j: &JsonValue) -> (r: String)
    ensures
        r@ == json_text(j@),
{
    to_serde(j).to_string()
}

/// What reading a document from the front of a text gives: the document and the text of the error
/// about what stands behind it, if anything but white space does; or the text of the error.
pub uninterp spec fn json_parsed(text: Seq<char>) -> Result<
    (JsonView, Option<Seq<char>>),
    Seq<char>,
>;

/// What reading a whole byte string as one document gives, or the text of the error.
pub uninterp spec fn json_parsed_bytes(data: Seq<u8>) -> Result<JsonView, Seq<char>>;

/// Turns a document of `serde_json` into one of the library, one for one.
#[verifier::external_body]
fn from_serde(v: SerdeJsonValue) -> JsonValue {
    match v {
        SerdeJsonValue::Null => JsonValue::Null,
        SerdeJsonValue::Bool(b) => JsonValue::Bool(b),
        SerdeJsonValue::Number(n) => JsonValue::Number(match (n.as_u64(), n.as_i64()) {
            (Some(u), _) => JsonNumber::PosInt(u),
            (None, Some(i)) => JsonNumber::NegInt(i),
            (None, None) => JsonNumber::Float(n.as_f64().unwrap_or_default().to_bits()),
        }),
        SerdeJsonValue::String(s) => JsonValue::String(s),
        SerdeJsonValue::Array(a) => JsonValue::Array(a.into_iter().map(from_serde).collect()),
        SerdeJsonValue::Object(m) => JsonValue::Object(
            m.into_iter().map(|p| (p.0, from_serde(p.1))).collect()),
    }
}

/// `serde_json::Value::deserialize` on a text, then `Deserializer::end`. The result, with each error
/// as its text, depends on the text alone. The compact text of a document is read as that document,
/// with nothing left behind it. That is not said of documents with floating point numbers, with keys
/// that do not ascend, which the map of `serde_json` puts in order, or that are nested deeper than
/// `serde_json` reads.
#[verifier::external_body]
pub(crate) fn parse(text: &str) -> (r: Result<(JsonValue, Option<String>), String>)
    ensures
        match json_parsed(text@) {
            Ok((doc, rest)) => r matches Ok((j, e)) && j@ == doc && e.is_some() == rest.is_some() && (
            rest matches Some(m) ==> e.unwrap()@ == m),
            Err(m) => r matches Err(e) && e@ == m,
        },
        forall|j: JsonView|
            reads_back(j) && text@ == #[trigger] json_text(j) ==> r is Ok && r->Ok_0.0@ == j
                && r->Ok_0.1 is None,
{
    let mut de = serde_json::Deserializer::from_str(text);
    let doc: Result<SerdeJsonValue, _> = serde::Deserialize::deserialize(&mut de);
    match doc {
        Ok(v) => Ok((from_serde(v), de.end().err().map(|e| e.to_string()))),
        Err(e) => Err(e.to_string()),
    }
}

/// `serde_json::from_slice` into a `serde_json::Value`. The result, with the error as its text,
/// depends on the bytes alone.
#[verifier::external_body]
pub(crate) fn parse_bytes(data: &[u8]) -> (r: Result<JsonValue, String>)
    ensures
        match json_parsed_bytes(data@) {
            Ok(doc) => r matches Ok(j) && j@ == doc,
            Err(m) => r matches Err(e) && e@ == m,
        },
{
    serde_json::from_slice::<SerdeJsonValue>(data).map(from_serde).map_err(|e| e.to_string())
}

/// The bits of the binary64 number nearest to a natural number.
pub uninterp spec fn float_bits_of_u64(n: u64) -> u64;

/// The bits of the binary64 number nearest to an integer.
pub uninterp spec fn float_bits_of_i64(n: i64) -> u64;

/// `serde_json::Number::as_f64` of a natural number: the bits depend on the number alone.
#[verifier::external_body]
fn u64_float_bits(n: u64) -> (r: u64)
    ensures
        r == float_bits_of_u64(n),
{
    serde_json::Number::from(n).as_f64().unwrap_or_default().to_bits()
}

/// `serde_json::Number::as_f64` of a negative integer: the bits depend on the number alone.
#[verifier::external_body]
fn i64_float_bits(n: i64) -> (r: u64)
    ensures
        r == float_bits_of_i64(n),
{
    serde_json::Number::from(n).as_f64().unwrap_or_default().to_bits()
}

impl JsonNumber {
    /// The number as a signed 64-bit integer, if it is one.
    pub open spec fn as_i64_spec(self) -> Option<i64> {
        match self {
            JsonNumber::PosInt(n) => if n <= i64::MAX {
                Some(n as i64)
            } else {
                None
            },
            JsonNumber::NegInt(n) => Some(n),
            JsonNumber::Float(_) => None,
        }
    }

    /// The number as an unsigned 64-bit integer, if it is one.
    pub open spec fn as_u64_spec(self) -> Option<u64> {
        match self {
            JsonNumber::PosInt(n) => Some(n),
            _ => None,
        }
    }

    /// The bits of the number as a binary64 number.
    pub open spec fn as_float_spec(self) -> u64 {
        match self {
            JsonNumber::PosInt(n) => float_bits_of_u64(n),
            JsonNumber::NegInt(n) => float_bits_of_i64(n),
            JsonNumber::Float(b) => b,
        }
    }

    /// The number as a signed 64-bit integer, if it is one.
    pub fn as_i64(&self) -> (r: Option<i64>)
        ensures
            r == self.as_i64_spec(),
    {
        match self {
            JsonNumber::PosInt(n) => if *n <= i64::MAX as u64 {
                Some(*n as i64)
            } else {
                None
            },
            JsonNumber::NegInt(n) => Some(*n),
            JsonNumber::Float(_) => None,
        }
    }

    /// The number as an unsigned 64-bit integer, if it is one.
    pub fn as_u64(&self) -> (r: Option<u64>)
        ensures
            r == self.as_u64_spec(),
    {
        match self {
            JsonNumber::PosInt(n) => Some(*n),
            _ => None,
        }
    }

    /// The bits of the number as a binary64 number.
    pub fn as_float_bits(&self) -> (r: u64)
        ensures
            r == self.as_float_spec(),
    {
        match self {
            JsonNumber::PosInt(n) => u64_float_bits(*n),
            JsonNumber::NegInt(n) => i64_float_bits(*n),
            JsonNumber::Float(b) => *b,
        }
    }
}

/// A count, or the largest one that the machine has.
pub open spec fn counted(n: nat) -> nat {
    if n <= usize::MAX {
        n
    } else {
        usize::MAX as nat
    }
}

/// How deep a document is nested, as far as the machine can count.
pub fn depth_of(j: &JsonValue) -> (r: usize)
    ensures
        r == counted(document_depth(j@)),
    decreases *j,
{
    match j {
        JsonValue::Array(a) => {
            let mut deepest: usize = 0;
            let mut i: usize = 0;
            assert(a@.take(0) =~= Seq::empty());
            while i < a.len()
                invariant
                    *j == JsonValue::Array(*a),
                    i <= a@.len(),
                    deepest == counted(elements_depth(elements_view(a@.take(i as int)))),
                decreases a@.len() - i,
            {
                assert(decreases_to!(*j => j->Array_0@));
                assert(decreases_to!(a@ => a@[i as int]));
                proof {
                    elements_view_step(a@, i as int);
                    let v = elements_view(a@.take(i + 1));
                    assert(v.drop_last() =~= elements_view(a@.take(i as int)));
                }
                let here: usize = depth_of(&a[i]);
                if here > deepest {
                    deepest = here;
                }
                i = i + 1;
            }
            assert(a@.take(i as int) =~= a@);
            if deepest < usize::MAX {
                deepest + 1
            } else {
                deepest
            }
        },
        JsonValue::Object(m) => {
            let mut deepest: usize = 0;
            let mut i: usize = 0;
            assert(m@.take(0) =~= Seq::empty());
            while i < m.len()
                invariant
                    *j == JsonValue::Object(*m),
                    i <= m@.len(),
                    deepest == counted(members_depth(members_view(m@.take(i as int)))),
                decreases m@.len() - i,
            {
                assert(decreases_to!(*j => j->Object_0@));
                assert(decreases_to!(m@ => m@[i as int]));
                assert(decreases_to!(m@[i as int] => m@[i as int].1));
                proof {
                    members_view_step(m@, i as int);
                    let v = members_view(m@.take(i + 1));
                    assert(v.drop_last() =~= members_view(m@.take(i as int)));
                }
                let here: usize = depth_of(&m[i].1);
                if here > deepest {
                    deepest = here;
                }
                i = i + 1;
            }
            assert(m@.take(i as int) =~= m@);
            if deepest < usize::MAX {
                deepest + 1
            } else {
                deepest
            }
        },
        _ => 1,
    }
}

} // verus!
