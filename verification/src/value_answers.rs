//! What conversions, comparisons and checks of values come to, taken together.

use crate::bytes;
use crate::json::{self, JsonNumber, JsonValue, JsonView};
use crate::kv_error::F4KvsError;
use crate::numerals;
use crate::text;
use crate::validation::{self, IntegrityValidator, ValidationManager};
use crate::value::{self, Value, ValueView};
use vstd::bytes::*;
use vstd::prelude::*;
use vstd::string::*;
use vstd::utf8::*;

verus! {

/// The bytes of a value tell the value again, once its kind is known; the bytes of a JSON document
/// are those of its text.
pub proof fn bytes_tell_the_value(v: Value, bytes: Vec<u8>, shown: String)
    requires
        call_ensures(Value::to_bytes, (&v,), bytes),
        call_ensures(Value::display_text, (&v, ""), shown),
    ensures
        match v@ {
            ValueView::String(s) => valid_utf8(bytes@) && decode_utf8(bytes@) == s,
            ValueView::Int64(i) => bytes@.len() == 8 && spec_u64_from_le_bytes(bytes@) == i as u64,
            ValueView::UInt64(u) => bytes@.len() == 8 && spec_u64_from_le_bytes(bytes@) == u,
            ValueView::Float64(b) => bytes@.len() == 8 && spec_u64_from_le_bytes(bytes@) == b,
            ValueView::Bool(b) => bytes@.len() == 1 && (bytes@[0] != 0 <==> b),
            ValueView::Bytes(b) => bytes@ == b,
            ValueView::Json(_) => valid_utf8(bytes@) && decode_utf8(bytes@) == shown@,
            ValueView::Null => bytes@.len() == 0,
        },
{
    match v@ {
        ValueView::String(s) => {
            encode_utf8_valid_utf8(s);
            encode_utf8_decode_utf8(s);
        },
        ValueView::Int64(i) => bytes::u64_back(i as u64),
        ValueView::UInt64(u) => bytes::u64_back(u),
        ValueView::Float64(b) => bytes::u64_back(b),
        ValueView::Json(j) => {
            encode_utf8_valid_utf8(json::json_text(j));
            encode_utf8_decode_utf8(json::json_text(j));
        },
        _ => {},
    }
}

/// The bytes of a value are the same, whether the value is kept or given up for them.
pub proof fn bytes_are_the_same_either_way(v: Value, kept: Vec<u8>, given: Vec<u8>)
    requires
        call_ensures(Value::to_bytes, (&v,), kept),
        call_ensures(Value::into_bytes, (v,), given),
    ensures
        kept@ == given@,
{
}

proof fn two_digits(h: nat, l: nat)
    requires
        h < 16,
        l < 16,
    ensures
        numerals::number(seq![text::hex_char(h), text::hex_char(l)], 16) == h * 16 + l,
{
    let both = seq![text::hex_char(h), text::hex_char(l)];
    let one = seq![text::hex_char(h)];
    assert(both.drop_last() =~= one);
    assert(one.drop_last() =~= Seq::empty());
    assert(numerals::number(Seq::<char>::empty(), 16) == 0);
    assert(numerals::digit_value(text::hex_char(h)) == Some(h));
    assert(numerals::digit_value(text::hex_char(l)) == Some(l));
    assert(numerals::number(one, 16) == h);
}

proof fn hex_bytes_back(data: Seq<u8>)
    ensures
        text::hex_bytes(data).len() == 2 * data.len(),
        forall|i: int|
            0 <= i < data.len() ==> numerals::number(
                seq![text::hex_bytes(data)[2 * i], text::hex_bytes(data)[2 * i + 1]],
                16,
            ) == #[trigger] data[i],
    decreases data.len(),
{
    if data.len() > 0 {
        let less = data.drop_last();
        hex_bytes_back(less);
        let (a, b) = (text::hex_bytes(data), text::hex_bytes(less));
        let n = less.len() as int;
        let last = data.last() as nat;
        two_digits(last / 16, last % 16);
        assert forall|i: int| 0 <= i < data.len() implies numerals::number(
            seq![a[2 * i], a[2 * i + 1]],
            16,
        ) == #[trigger] data[i] by {
            if i < n {
                assert(less[i] == data[i]);
                assert(a[2 * i] == b[2 * i] && a[2 * i + 1] == b[2 * i + 1]);
            } else {
                assert(seq![a[2 * i], a[2 * i + 1]] =~= seq![
                    text::hex_char(last / 16),
                    text::hex_char(last % 16),
                ]);
            }
        }
    }
}

/// The text of a value tells it again: a number is read from its digits, bytes are read from pairs of
/// hexadecimal digits, and a text is itself.
pub proof fn text_tells_the_value(v: Value, float_text: &str, shown: String)
    requires
        call_ensures(Value::display_text, (&v, float_text), shown),
    ensures
        match v@ {
            ValueView::String(s) => shown@ == s,
            ValueView::UInt64(u) => numerals::number(shown@, 10) == u,
            ValueView::Int64(i) => if i < 0 {
                shown@.len() > 1 && shown@[0] == '-' && numerals::number(shown@.skip(1), 10) == -i
            } else {
                numerals::number(shown@, 10) == i
            },
            ValueView::Float64(_) => shown@ == float_text@,
            ValueView::Bool(b) => shown@ == if b {
                "true"@
            } else {
                "false"@
            },
            ValueView::Bytes(b) => shown@.len() == 2 * b.len() && forall|i: int|
                0 <= i < b.len() ==> numerals::number(
                    seq![shown@[2 * i], shown@[2 * i + 1]],
                    16,
                ) == #[trigger] b[i],
            ValueView::Json(_) => true,
            ValueView::Null => shown@ == "null"@,
        },
{
    match v@ {
        ValueView::UInt64(u) => numerals::dec_stands_for(u as nat),
        ValueView::Int64(i) => {
            if i < 0 {
                numerals::dec_stands_for((-i) as nat);
                reveal_strlit("-");
                assert(shown@.skip(1) =~= text::dec((-i) as nat));
            } else {
                numerals::dec_stands_for(i as nat);
            }
        },
        ValueView::Bytes(b) => hex_bytes_back(b),
        _ => {},
    }
}

/// A value that is no float and no JSON document is read back from the JSON text that was written of
/// it; a document is if it is plain and not nested too deep.
pub proof fn written_json_is_read_back(
    v: Value,
    written: Result<String, F4KvsError>,
    text: &str,
    read: Result<Value, F4KvsError>,
)
    requires
        call_ensures(Value::to_json_string, (&v,), written),
        written matches Ok(s) ==> text@ == s@,
        call_ensures(Value::from_json_string, (text,), read),
        !(v@ is Float64),
        v@ matches ValueView::Json(j) ==> json::plain_document(j) && json::nesting(j) < 127,
    ensures
        written is Ok,
        read matches Ok(back) && back@ == v@,
{
    assert(value::writes_back(v@));
    assert(text@ == json::json_text(value::tagged(v@)));
}

/// A value is read back from the JSON document that stands for it, unless it is a float that is no
/// number or infinite.
pub proof fn document_of_a_value_is_read_back(
    v: Value,
    document: JsonValue,
    read: Result<Value, F4KvsError>,
)
    requires
        call_ensures(Value::to_json_value, (&v,), document),
        call_ensures(Value::from_serde_json_value, (document,), read),
        v@ matches ValueView::Float64(b) ==> (b >> 52) & 0x7ff != 0x7ff,
    ensures
        read matches Ok(back) && back@ == v@,
{
    value::tagged_round_trip(v@);
}

/// A JSON document that stands for no value of another kind is read as itself: one that is no text,
/// and no object of one member.
pub proof fn other_documents_are_read_as_they_are(
    document: JsonValue,
    read: Result<Value, F4KvsError>,
)
    requires
        call_ensures(Value::from_serde_json_value, (document,), read),
        !(document@ is String),
        document@ matches JsonView::Object(members) ==> members.len() != 1,
    ensures
        read matches Ok(back) && back@ == ValueView::Json(document@),
{
}

/// A JSON number is told as an integer exactly if it is one that fits.
pub proof fn integers_are_told_exactly(n: JsonNumber, signed: Option<i64>, unsigned: Option<u64>)
    requires
        call_ensures(JsonNumber::as_i64, (&n,), signed),
        call_ensures(JsonNumber::as_u64, (&n,), unsigned),
    ensures
        match n {
            JsonNumber::PosInt(p) => (signed matches Some(i) ==> i == p) && (signed is None <==> p
                > i64::MAX) && unsigned == Some(p),
            JsonNumber::NegInt(m) => signed == Some(m) && unsigned is None,
            JsonNumber::Float(_) => signed is None && unsigned is None,
        },
{
}

/// Two floats are equal exactly if neither is no number and their bits are the same, or if both are
/// zero, whatever their signs.
pub proof fn floats_are_equal_as_numbers(a: u64, b: u64, equal: bool)
    requires
        call_ensures(json::floats_equal, (a, b), equal),
    ensures
        equal <==> (a == b && !(a > 0x7ff0_0000_0000_0000 && a < 0x8000_0000_0000_0000) && !(a
            > 0xfff0_0000_0000_0000)) || ((a == 0 || a == 0x8000_0000_0000_0000) && (b == 0 || b
            == 0x8000_0000_0000_0000)),
        equal ==> json::same_float(b, a),
{
}

proof fn plain_means_no_float(j: JsonView)
    requires
        json::plain_document(j),
    ensures
        json::same_document(j, j),
    decreases j,
{
    match j {
        JsonView::Array(a) => {
            assert forall|i: int| 0 <= i < a.len() implies json::same_document(
                #[trigger] a[i],
                a[i],
            ) by {
                plain_element(a, i);
                plain_means_no_float(a[i]);
            }
        },
        JsonView::Object(m) => {
            assert forall|i: int| 0 <= i < m.len() implies (#[trigger] m[i]).0 == m[i].0
                && json::same_document(m[i].1, m[i].1) by {
                plain_member(m, i);
                plain_means_no_float(m[i].1);
            }
        },
        _ => {},
    }
}

proof fn plain_element(items: Seq<JsonView>, i: int)
    requires
        json::plain_elements(items),
        0 <= i < items.len(),
    ensures
        json::plain_document(items[i]),
    decreases items.len(),
{
    if i < items.len() - 1 {
        plain_element(items.drop_last(), i);
    }
}

proof fn plain_member(items: Seq<(Seq<char>, JsonView)>, i: int)
    requires
        json::plain_members(items),
        0 <= i < items.len(),
    ensures
        json::plain_document(items[i].1),
    decreases items.len(),
{
    if i < items.len() - 1 {
        plain_member(items.drop_last(), i);
    }
}

proof fn equal_plain_documents_are_one(a: JsonView, b: JsonView)
    requires
        json::plain_document(a),
        json::same_document(a, b),
    ensures
        a == b,
    decreases a,
{
    match (a, b) {
        (JsonView::Array(x), JsonView::Array(y)) => {
            assert forall|i: int| 0 <= i < x.len() implies #[trigger] x[i] == y[i] by {
                plain_element(x, i);
                assert(json::same_document(x[i], y[i]));
                equal_plain_documents_are_one(x[i], y[i]);
            }
            assert(x =~= y);
        },
        (JsonView::Object(x), JsonView::Object(y)) => {
            assert forall|i: int| 0 <= i < x.len() implies #[trigger] x[i] == y[i] by {
                plain_member(x, i);
                assert(x[i].0 == y[i].0 && json::same_document(x[i].1, y[i].1));
                equal_plain_documents_are_one(x[i].1, y[i].1);
            }
            assert(x =~= y);
        },
        _ => {},
    }
}

/// Two plain documents are equal exactly if they are the same.
pub proof fn plain_documents_are_equal_if_the_same(a: JsonValue, b: JsonValue, equal: bool)
    requires
        call_ensures(json::documents_equal, (&a, &b), equal),
        json::plain_document(a@),
    ensures
        equal <==> a@ == b@,
{
    if a@ == b@ {
        plain_means_no_float(a@);
    }
    if equal {
        equal_plain_documents_are_one(a@, b@);
    }
}

/// Two values of which neither is a float or a JSON document are equal exactly if they are the same,
/// floats are compared as numbers, documents as documents, and values of different kinds are never
/// equal.
pub proof fn values_are_equal_within_their_kind(a: ValueView, b: ValueView)
    ensures
        !(a is Float64) && !(a is Json) ==> (value::same_value(a, b) <==> a == b),
        a is Float64 && b is Float64 ==> (value::same_value(a, b) <==> json::same_float(
            a->Float64_0,
            b->Float64_0,
        )),
        a is Json && b is Json ==> (value::same_value(a, b) <==> json::same_document(
            a->Json_0,
            b->Json_0,
        )),
        a is Float64 != b is Float64 ==> !value::same_value(a, b),
        a is Json != b is Json ==> !value::same_value(a, b),
{
}

proof fn deepest_element(items: Seq<JsonView>)
    ensures
        forall|i: int|
            0 <= i < items.len() ==> json::document_depth(#[trigger] items[i])
                <= json::elements_depth(items),
        items.len() > 0 ==> exists|i: int|
            0 <= i < items.len() && json::document_depth(#[trigger] items[i])
                == json::elements_depth(items),
        items.len() == 0 ==> json::elements_depth(items) == 0,
    decreases items.len(),
{
    if items.len() > 0 {
        let less = items.drop_last();
        deepest_element(less);
        let n = items.len() - 1;
        assert forall|i: int| 0 <= i < items.len() implies json::document_depth(#[trigger] items[i])
            <= json::elements_depth(items) by {
            if i < n {
                assert(less[i] == items[i]);
            }
        }
        if json::document_depth(items[n]) == json::elements_depth(items) {
            assert(json::document_depth(items[n]) == json::elements_depth(items));
        } else {
            assert(less.len() > 0) by {
                if less.len() == 0 {
                    depth_is_positive(items[n]);
                }
            }
            let i = choose|i: int|
                0 <= i < less.len() && json::document_depth(#[trigger] less[i])
                    == json::elements_depth(less);
            assert(items[i] == less[i]);
        }
    }
}

proof fn depth_is_positive(j: JsonView)
    ensures
        json::document_depth(j) >= 1,
{
}

proof fn deepest_member(items: Seq<(Seq<char>, JsonView)>)
    ensures
        forall|i: int|
            0 <= i < items.len() ==> json::document_depth((#[trigger] items[i]).1)
                <= json::members_depth(items),
        items.len() > 0 ==> exists|i: int|
            0 <= i < items.len() && json::document_depth((#[trigger] items[i]).1)
                == json::members_depth(items),
        items.len() == 0 ==> json::members_depth(items) == 0,
    decreases items.len(),
{
    if items.len() > 0 {
        let less = items.drop_last();
        deepest_member(less);
        let n = items.len() - 1;
        assert forall|i: int| 0 <= i < items.len() implies json::document_depth(
            (#[trigger] items[i]).1,
        ) <= json::members_depth(items) by {
            if i < n {
                assert(less[i] == items[i]);
            }
        }
        if json::document_depth(items[n].1) == json::members_depth(items) {
            assert(json::document_depth(items[n].1) == json::members_depth(items));
        } else {
            assert(less.len() > 0) by {
                if less.len() == 0 {
                    depth_is_positive(items[n].1);
                }
            }
            let i = choose|i: int|
                0 <= i < less.len() && json::document_depth((#[trigger] less[i]).1)
                    == json::members_depth(less);
            assert(items[i] == less[i]);
        }
    }
}

/// A document that holds no other has depth one; an array or an object is one deeper than the deepest
/// document in it.
pub proof fn depth_is_one_more_than_inside(j: JsonView)
    ensures
        match j {
            JsonView::Array(a) => if a.len() == 0 {
                json::document_depth(j) == 1
            } else {
                (forall|i: int|
                    0 <= i < a.len() ==> json::document_depth(#[trigger] a[i])
                        < json::document_depth(j)) && exists|i: int|
                    0 <= i < a.len() && json::document_depth(#[trigger] a[i]) + 1
                        == json::document_depth(j)
            },
            JsonView::Object(m) => if m.len() == 0 {
                json::document_depth(j) == 1
            } else {
                (forall|i: int|
                    0 <= i < m.len() ==> json::document_depth((#[trigger] m[i]).1)
                        < json::document_depth(j)) && exists|i: int|
                    0 <= i < m.len() && json::document_depth((#[trigger] m[i]).1) + 1
                        == json::document_depth(j)
            },
            _ => json::document_depth(j) == 1,
        },
{
    match j {
        JsonView::Array(a) => deepest_element(a),
        JsonView::Object(m) => deepest_member(m),
        _ => {},
    }
}

/// A value is accepted exactly if nothing is checked, or if it is allowed where it is `Null`, has no
/// more bytes than allowed, is no text that is empty where that is forbidden or too long, and no
/// document that is nested too deep.
pub proof fn value_is_accepted_within_limits(
    m: ValidationManager,
    v: Value,
    bytes: Vec<u8>,
    r: Result<(), F4KvsError>,
)
    requires
        call_ensures(ValidationManager::validate_value, (&m, &v), r),
        call_ensures(Value::to_bytes, (&v,), bytes),
        v@ matches ValueView::Json(j) ==> json::document_depth(j) <= usize::MAX,
    ensures
        ({
            let limits = m.config_of().value;
            r is Ok <==> !m.config_of().enabled || {
                &&& v@ is Null ==> limits.allow_null
                &&& bytes@.len() <= limits.max_size
                &&& v@ matches ValueView::String(s) ==> (s.len() == 0
                    ==> limits.allow_empty_strings) && encode_utf8(s).len()
                    <= limits.max_string_length
                &&& v@ matches ValueView::Json(j) ==> json::document_depth(j)
                    <= limits.max_json_depth
            }
        }),
        r matches Err(e) ==> e is InvalidValue,
{
    value::value_size_is_length(v@);
}

/// A key is accepted exactly if nothing is checked, or if it is not empty where that is forbidden,
/// its length is within the limits, it is ASCII where that is asked for, holds no control character
/// where none is allowed, and matches every pattern.
pub proof fn key_is_accepted_within_limits(
    m: ValidationManager,
    key: &str,
    r: Result<(), F4KvsError>,
)
    requires
        call_ensures(ValidationManager::validate_key, (&m, key), r),
    ensures
        ({
            let limits = m.config_of().key;
            r is Ok <==> !m.config_of().enabled || {
                &&& key@.len() == 0 ==> limits.allow_empty
                &&& limits.min_length <= encode_utf8(key@).len() <= limits.max_length
                &&& limits.ascii_only ==> is_ascii_chars(key@)
                &&& !limits.allow_control_chars ==> forall|i: int|
                    0 <= i < key@.len() ==> (32 <= #[trigger] key@[i] as u32 && !(127
                        <= key@[i] as u32 <= 159))
                &&& forall|i: int|
                    0 <= i < limits.patterns@.len() ==> validation::matches(
                        key@,
                        (#[trigger] limits.patterns@[i])@,
                    )
            }
        }),
        r matches Err(e) ==> e is InvalidKey,
{
    let limits = m.config_of().key;
    let patterns = limits.patterns@;
    if forall|i: int|
        0 <= i < patterns.len() ==> validation::matches(key@, (#[trigger] patterns[i])@) {
        assert forall|i: int| !validation::first_mismatch(key@, patterns, i) by {}
    } else {
        let i = choose|i: int|
            0 <= i < patterns.len() && !validation::matches(key@, (#[trigger] patterns[i])@);
        let k = first_that_differs(key@, patterns, i);
        assert(validation::first_mismatch(key@, patterns, k));
    }
    if forall|i: int|
        0 <= i < key@.len() ==> (32 <= #[trigger] key@[i] as u32 && !(127 <= key@[i] as u32
            <= 159)) {
        assert forall|i: int| 0 <= i < key@.len() implies !#[trigger] validation::is_control(
            key@[i],
        ) by {}
    } else {
        let i = choose|i: int|
            0 <= i < key@.len() && !(32 <= #[trigger] key@[i] as u32 && !(127 <= key@[i] as u32
                <= 159));
        assert(validation::is_control(key@[i]));
    }
}

proof fn first_that_differs(key: Seq<char>, patterns: Seq<String>, i: int) -> (k: int)
    requires
        0 <= i < patterns.len(),
        !validation::matches(key, patterns[i]@),
    ensures
        validation::first_mismatch(key, patterns, k),
    decreases i,
{
    if exists|j: int| 0 <= j < i && !validation::matches(key, (#[trigger] patterns[j])@) {
        let j = choose|j: int| 0 <= j < i && !validation::matches(key, (#[trigger] patterns[j])@);
        first_that_differs(key, patterns, j)
    } else {
        i
    }
}

/// A key and its value are accepted exactly if each of them is.
pub proof fn pair_is_accepted_if_both_are(
    m: ValidationManager,
    key: &str,
    v: Value,
    of_key: Result<(), F4KvsError>,
    of_value: Result<(), F4KvsError>,
    r: Result<(), F4KvsError>,
)
    requires
        call_ensures(ValidationManager::validate_key, (&m, key), of_key),
        call_ensures(ValidationManager::validate_value, (&m, &v), of_value),
        call_ensures(ValidationManager::validate_key_value, (&m, key, &v), r),
    ensures
        r is Ok <==> of_key is Ok && of_value is Ok,
{
}

/// A pattern with a star at both ends is matched by each key that holds what stands between them,
/// one with a star in front by each key that ends with the rest, one with a star behind by each key
/// that begins with the rest, and any other by itself alone.
pub proof fn patterns_are_matched(
    m: ValidationManager,
    key: &str,
    pattern: &str,
    before: Seq<char>,
    middle: Seq<char>,
    behind: Seq<char>,
    yes: bool,
)
    requires
        call_ensures(ValidationManager::matches_pattern, (&m, key, pattern), yes),
        key@ == before + middle + behind,
    ensures
        pattern@ == seq!['*'] ==> yes,
        pattern@ == seq!['*'] + middle + seq!['*'] ==> yes,
        before.len() == 0 && pattern@ == middle + seq!['*'] ==> yes,
        behind.len() == 0 && pattern@ == seq!['*'] + middle ==> yes,
        pattern@ == key@ ==> yes,
{
    let (k, p) = (key@, pattern@);
    let n = p.len() as int;
    if p == seq!['*'] + middle + seq!['*'] {
        assert(p.subrange(1, n - 1) =~= middle);
        assert(k.subrange(before.len() as int, (before.len() + middle.len()) as int) =~= middle);
        assert(text::part_at(k, middle, before.len() as int));
    }
    if before.len() == 0 && p == middle + seq!['*'] {
        pattern_ending_in_star(k, p, middle, behind);
    }
    if behind.len() == 0 && p == seq!['*'] + middle {
        pattern_beginning_with_star(k, p, before, middle);
    }
    if p == k {
        key_matches_itself(k);
    }
}

proof fn pattern_ending_in_star(
    k: Seq<char>,
    p: Seq<char>,
    middle: Seq<char>,
    behind: Seq<char>,
)
    requires
        k =~= middle + behind,
        p == middle + seq!['*'],
    ensures
        validation::matches(k, p),
{
    let n = p.len() as int;
    assert(p.take(n - 1) =~= middle);
    assert(k.subrange(0, middle.len() as int) =~= middle);
    if n > 1 && p[0] == '*' {
        let inner = p.subrange(1, n - 1);
        assert(k.subrange(1, (1 + inner.len()) as int) =~= inner);
        assert(text::part_at(k, inner, 1));
    }
}

proof fn pattern_beginning_with_star(
    k: Seq<char>,
    p: Seq<char>,
    before: Seq<char>,
    middle: Seq<char>,
)
    requires
        k =~= before + middle,
        p == seq!['*'] + middle,
    ensures
        validation::matches(k, p),
{
    let n = p.len() as int;
    assert(p.skip(1) =~= middle);
    assert(k.subrange(before.len() as int, k.len() as int) =~= middle);
    if n > 1 && p[n - 1] == '*' {
        let inner = p.subrange(1, n - 1);
        assert(k.subrange(before.len() as int, (before.len() + inner.len()) as int) =~= inner);
        assert(text::part_at(k, inner, before.len() as int));
    }
}

proof fn key_matches_itself(k: Seq<char>)
    ensures
        validation::matches(k, k),
{
    let n = k.len() as int;
    if n > 0 && k[0] == '*' {
        if n > 1 && k[n - 1] == '*' {
            assert(text::part_at(k, k.subrange(1, n - 1), 1));
        } else if n > 1 {
            assert(k.subrange(1, n) =~= k.skip(1));
        }
    } else if n > 0 && k[n - 1] == '*' {
        assert(k.subrange(0, n - 1) =~= k.take(n - 1));
    }
}

/// What a pattern matches has the form that the pattern asks for.
pub proof fn matched_keys_have_the_form(
    m: ValidationManager,
    key: &str,
    pattern: &str,
    part: Seq<char>,
    yes: bool,
)
    requires
        call_ensures(ValidationManager::matches_pattern, (&m, key, pattern), yes),
        yes,
        forall|i: int| 0 <= i < part.len() ==> #[trigger] part[i] != '*',
    ensures
        pattern@ == part ==> key@ == part,
        pattern@ == part + seq!['*'] ==> part.is_prefix_of(key@),
        pattern@ == seq!['*'] + part ==> part.is_suffix_of(key@),
        pattern@ == seq!['*'] + part + seq!['*'] ==> exists|a: Seq<char>, b: Seq<char>|
            key@ == #[trigger] (a + part + b),
{
    let (k, p) = (key@, pattern@);
    let n = p.len() as int;
    if p == part {
        if n > 0 {
            assert(p[0] != '*' && p[n - 1] != '*');
        }
    }
    if p == part + seq!['*'] {
        assert(p.take(n - 1) =~= part);
        if part.len() > 0 {
            assert(p[0] == part[0]);
            assert(k.subrange(0, part.len() as int) =~= part);
        }
    }
    if p == seq!['*'] + part {
        assert(p.skip(1) =~= part);
        if part.len() > 0 {
            assert(p[n - 1] == part[n - 2]);
            assert(k.subrange(k.len() - part.len(), k.len() as int) =~= part);
        } else {
            assert(k.subrange(k.len() as int, k.len() as int) =~= part);
        }
    }
    if p == seq!['*'] + part + seq!['*'] {
        assert(p.subrange(1, n - 1) =~= part);
        let i = choose|i: int| text::part_at(k, part, i);
        let (a, b) = (k.take(i), k.skip(i + part.len()));
        assert(k =~= a + part + b);
    }
}

proof fn sums_add(a: Seq<u8>, b: Seq<u8>)
    ensures
        validation::byte_sum(a + b) == validation::byte_sum(a) + validation::byte_sum(b),
    decreases b.len(),
{
    if b.len() == 0 {
        assert(a + b =~= a);
    } else {
        sums_add(a, b.drop_last());
        assert((a + b).drop_last() =~= a + b.drop_last());
        assert((a + b).last() == b.last());
    }
}

/// Data passes the test of the checksum that was taken of it and of no other.
pub proof fn own_checksum_passes(data: &[u8], sum: u32, expected: u32, r: Result<(), F4KvsError>)
    requires
        call_ensures(IntegrityValidator::calculate_checksum, (data,), sum),
        call_ensures(IntegrityValidator::validate_checksum, (data, expected), r),
    ensures
        r is Ok <==> sum == expected,
{
}

/// The checksum of data is that of its parts added up, with 32 bits kept; that of one byte is the
/// byte, and that of nothing is zero.
pub proof fn checksums_add_up(
    first: &[u8],
    second: &[u8],
    whole: &[u8],
    a: u32,
    b: u32,
    sum: u32,
)
    requires
        whole@ == first@ + second@,
        call_ensures(IntegrityValidator::calculate_checksum, (first,), a),
        call_ensures(IntegrityValidator::calculate_checksum, (second,), b),
        call_ensures(IntegrityValidator::calculate_checksum, (whole,), sum),
    ensures
        sum == (a + b) % 0x1_0000_0000,
        first@.len() == 0 ==> a == 0,
        first@.len() == 1 ==> a == first@[0],
{
    sums_add(first@, second@);
    let (x, y) = (validation::byte_sum(first@) as int, validation::byte_sum(second@) as int);
    assert((x % 0x1_0000_0000 + y % 0x1_0000_0000) % 0x1_0000_0000 == (x + y) % 0x1_0000_0000) by {
        vstd::arithmetic::div_mod::lemma_add_mod_noop(x, y, 0x1_0000_0000);
    }
    if first@.len() == 1 {
        assert(first@.drop_last() =~= Seq::empty());
        assert(validation::byte_sum(first@.drop_last()) == 0);
    }
}

/// A value that is converted from something holds just that.
pub proof fn conversions_keep_what_they_convert(
    s: String,
    t: &str,
    i: i64,
    u: u64,
    b: bool,
    data: Vec<u8>,
    j: JsonValue,
    of_string: Value,
    of_text: Value,
    of_signed: Value,
    of_unsigned: Value,
    of_bool: Value,
    of_bytes: Value,
    of_json: Value,
)
    requires
        call_ensures(<Value as From<String>>::from, (s,), of_string),
        call_ensures(<Value as From<&str>>::from, (t,), of_text),
        call_ensures(<Value as From<i64>>::from, (i,), of_signed),
        call_ensures(<Value as From<u64>>::from, (u,), of_unsigned),
        call_ensures(<Value as From<bool>>::from, (b,), of_bool),
        call_ensures(<Value as From<Vec<u8>>>::from, (data,), of_bytes),
        call_ensures(<Value as From<JsonValue>>::from, (j,), of_json),
    ensures
        of_string@ == ValueView::String(s@),
        of_text@ == ValueView::String(t@),
        of_signed@ == ValueView::Int64(i),
        of_unsigned@ == ValueView::UInt64(u),
        of_bool@ == ValueView::Bool(b),
        of_bytes@ == ValueView::Bytes(data@),
        of_json@ == ValueView::Json(j@),
{
}

/// A value is written as a document of one member, under the name of the kind of the value; `Null` is
/// written as that name alone.
pub proof fn documents_name_the_kind(v: Value, doc: JsonValue, name: &'static str)
    requires
        call_ensures(Value::to_json_value, (&v,), doc),
        call_ensures(Value::kind_name, (&v,), name),
    ensures
        v@ is Null ==> doc@ == JsonView::String(name@),
        !(v@ is Null) ==> (doc@ matches JsonView::Object(m) && m.len() == 1 && m[0].0 == name@),
{
}

/// A document is one deeper than what it holds, as far as can be counted.
pub proof fn holder_is_one_deeper(
    j: JsonValue,
    inner: JsonValue,
    r: usize,
    s: usize,
    a: Seq<JsonView>,
    i: int,
)
    requires
        j@ == JsonView::Array(a),
        0 <= i < a.len(),
        a[i] == inner@,
        call_ensures(json::depth_of, (&j,), r),
        call_ensures(json::depth_of, (&inner,), s),
    ensures
        r > s || r == usize::MAX,
        a.len() == 1 && s < usize::MAX ==> r == s + 1,
{
    depth_is_one_more_than_inside(j@);
}

} // verus!
