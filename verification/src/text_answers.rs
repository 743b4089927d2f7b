//! What the operations on texts and numerals come to, taken together.

use crate::kv_error::F4KvsError;
use crate::numerals;
use crate::storage_stats;
use crate::text;
use vstd::prelude::*;
use vstd::string::*;

verus! {

/// A number is read back from its decimal text, and from its hexadecimal text.
pub proof fn number_is_read_back(
    n: u64,
    dec: String,
    hex: String,
    dec_chars: Vec<char>,
    hex_chars: Vec<char>,
    from_dec: Option<u64>,
    from_hex: Option<u64>,
)
    requires
        call_ensures(text::dec_text, (n,), dec),
        call_ensures(text::hex_text, (n,), hex),
        dec_chars@ == dec@,
        hex_chars@ == hex@,
        call_ensures(numerals::parse_number, (&dec_chars, 10, u64::MAX), from_dec),
        call_ensures(numerals::parse_number, (&hex_chars, 16, u64::MAX), from_hex),
    ensures
        from_dec == Some(n),
        from_hex == Some(n),
        dec@.len() > 0,
        hex@.len() > 0,
{
    let d = text::dec(n as nat);
    let h = text::hex(n as nat);
    numerals::dec_stands_for(n as nat);
    numerals::hex_stands_for(n as nat);
    numerals::padded_back(d, 0, 10, u64::MAX as nat);
    numerals::padded_back(h, 0, 16, u64::MAX as nat);
}

/// A padded number is as long as it should be, and is read back as the number.
pub proof fn padded_number_is_read_back(
    n: u64,
    shown: String,
    given: &str,
    width: usize,
    out: &mut String,
    chars: Vec<char>,
    back: Option<u64>,
)
    requires
        call_ensures(text::dec_text, (n,), shown),
        given@ == shown@,
        old(out)@.len() == 0,
        call_ensures(text::push_zero_padded, (out, given, width), ()),
        chars@ == final(out)@,
        call_ensures(numerals::parse_number, (&chars, 10, u64::MAX), back),
    ensures
        final(out)@.len() >= width,
        final(out)@.len() == width || final(out)@ == shown@,
        back == Some(n),
{
    let d = text::dec(n as nat);
    numerals::dec_stands_for(n as nat);
    numerals::padded_back(d, width as nat, 10, u64::MAX as nat);
    assert(chars@ =~= text::zero_padded(d, width as nat));
}

/// A digit more behind a number makes it as many times larger as there are digits, and adds its own
/// value; what is read is at most what it may be.
pub proof fn further_digit_is_added(
    t: Vec<char>,
    longer: Vec<char>,
    c: char,
    radix: u64,
    max: u64,
    r: Option<u64>,
    s: Option<u64>,
)
    requires
        2 <= radix <= 10,
        t@.len() > 0,
        t@[0] != '+',
        longer@ == t@.push(c),
        call_ensures(numerals::parse_number, (&t, radix, max), r),
        call_ensures(numerals::parse_number, (&longer, radix, max), s),
    ensures
        s matches Some(n) ==> (r matches Some(m) && '0' as u32 <= c as u32 && (c as u32)
            < '0' as u32 + radix && n == m * radix + (c as u32 - '0' as u32)),
        s matches Some(n) ==> n <= max,
        r matches Some(m) && '0' as u32 <= c as u32 && (c as u32) < '0' as u32 + radix && m * radix + (
        c as u32 - '0' as u32) <= max ==> s is Some,
{
    let digits = t@;
    let more = longer@;
    assert(numerals::without_plus(digits) == digits);
    assert(more[0] == digits[0]);
    assert(numerals::without_plus(more) == more);
    assert(more.drop_last() =~= digits);
    assert(more.last() == c);
    let m = numerals::number(digits, radix as nat);
    assert(m * radix >= m) by (nonlinear_arith)
        requires
            radix >= 1,
            m >= 0,
    ;
    if s is Some {
        assert forall|i: int| 0 <= i < digits.len() implies numerals::is_digit(
            #[trigger] digits[i],
            radix as nat,
        ) by {
            assert(more[i] == digits[i]);
        }
        assert(numerals::is_digit(more[digits.len() as int], radix as nat));
    }
    if r is Some && '0' as u32 <= c as u32 && (c as u32) < '0' as u32 + radix {
        assert forall|i: int| 0 <= i < more.len() implies numerals::is_digit(
            #[trigger] more[i],
            radix as nat,
        ) by {
            if i < digits.len() {
                assert(more[i] == digits[i]);
            }
        }
    }
}

/// Nothing but digits is read as a number.
pub proof fn other_texts_are_no_numbers(
    t: Vec<char>,
    i: int,
    radix: u64,
    max: u64,
    r: Option<u64>,
)
    requires
        2 <= radix <= 10,
        1 <= i < t@.len() || t@.len() == 0,
        t@.len() > 0 ==> !('0' as u32 <= t@[i] as u32 && (t@[i] as u32) < '0' as u32 + radix),
        call_ensures(numerals::parse_number, (&t, radix, max), r),
    ensures
        r is None,
{
    if t@.len() > 0 {
        let digits = numerals::without_plus(t@);
        if t@[0] == '+' {
            assert(digits[i - 1] == t@[i]);
            assert(!numerals::is_digit(digits[i - 1], radix as nat));
        } else {
            assert(!numerals::is_digit(digits[i], radix as nat));
        }
    }
}

/// What a text was built around is found in it, and nothing is found where the ends do not fit.
pub proof fn middle_is_found_again(
    t: &str,
    prefix: &str,
    suffix: &str,
    middle: Seq<char>,
    r: Option<Vec<char>>,
)
    requires
        call_ensures(numerals::text_between, (t, prefix, suffix), r),
    ensures
        t@ == prefix@ + middle + suffix@ ==> (r matches Some(v) && v@ == middle),
        r matches Some(v) ==> t@ == prefix@ + v@ + suffix@,
{
    if t@ == prefix@ + middle + suffix@ {
        numerals::between_back(prefix@, middle, suffix@);
    }
    if let Some(v) = r {
        assert(t@ =~= t@.take(prefix@.len() as int) + v@ + t@.skip(t@.len() - suffix@.len()));
    }
}

/// Texts are put behind each other, and what is pushed on a text stands behind it.
pub proof fn texts_are_put_together(
    a: &str,
    b: &str,
    c: &str,
    ab: String,
    abc: String,
    n: u64,
    dec: String,
    hex: String,
    out: &mut String,
    other: &mut String,
    chars: Vec<char>,
)
    requires
        call_ensures(text::cat, (a, b), ab),
        call_ensures(text::cat3, (a, b, c), abc),
        call_ensures(text::dec_text, (n,), dec),
        call_ensures(text::hex_text, (n,), hex),
        call_ensures(text::push_dec, (out, n), ()),
        call_ensures(text::push_hex, (other, n), ()),
        call_ensures(text::chars_of, (a,), chars),
    ensures
        ab@ == a@ + b@,
        abc@ == ab@ + c@,
        final(out)@ == old(out)@ + dec@,
        final(other)@ == old(other)@ + hex@,
        chars@ == a@,
{
}

/// A negative number is shown as the number without its sign, behind a minus sign.
pub proof fn sign_stands_before_the_number(
    n: i64,
    size: u64,
    signed: String,
    plain: String,
)
    requires
        n >= 0 ==> size == n,
        n < 0 ==> size == -n,
        call_ensures(text::signed_text, (n,), signed),
        call_ensures(text::dec_text, (size,), plain),
    ensures
        n >= 0 ==> signed@ == plain@,
        n < 0 ==> signed@ == seq!['-'] + plain@,
{
    reveal_strlit("-");
    assert("-"@ =~= seq!['-']);
}

proof fn part_has_its_place(whole: Seq<char>, before: Seq<char>, part: Seq<char>, after: Seq<char>)
    requires
        whole == before + part + after,
    ensures
        text::contains(whole, part),
{
    let i = before.len() as int;
    assert(whole.subrange(i, i + part.len()) =~= part);
    assert(text::part_at(whole, part, i));
}

proof fn place_of_part(whole: Seq<char>, part: Seq<char>) -> (ends: (Seq<char>, Seq<char>))
    requires
        text::contains(whole, part),
    ensures
        whole == ends.0 + part + ends.1,
{
    let i = choose|i: int| text::part_at(whole, part, i);
    let before = whole.subrange(0, i);
    let after = whole.subrange(i + part.len(), whole.len() as int);
    assert(whole =~= before + whole.subrange(i, i + part.len()) + after);
    (before, after)
}

/// A text is in another exactly if that is made of something before it, it, and something behind it.
pub proof fn contained_text_has_a_place(whole: &str, part: &str, r: bool) -> (ends: (
    Seq<char>,
    Seq<char>,
))
    requires
        call_ensures(text::contains_text, (whole, part), r),
    ensures
        r ==> whole@ == ends.0 + part@ + ends.1,
{
    if r {
        place_of_part(whole@, part@)
    } else {
        (Seq::empty(), Seq::empty())
    }
}

/// A text that is made of something before another, the other, and something behind it contains it;
/// and a text contains itself.
pub proof fn middle_is_contained(
    whole: &str,
    part: &str,
    before: Seq<char>,
    after: Seq<char>,
    r: bool,
    itself: bool,
    same: bool,
)
    requires
        whole@ == before + part@ + after,
        call_ensures(text::contains_text, (whole, part), r),
        call_ensures(text::contains_text, (whole, whole), itself),
        call_ensures(text::same_text, (whole, part), same),
    ensures
        r,
        itself,
        same <==> before.len() == 0 && after.len() == 0,
{
    part_has_its_place(whole@, before, part@, after);
    let none = Seq::<char>::empty();
    assert(whole@ =~= none + whole@ + none);
    part_has_its_place(whole@, none, whole@, none);
    if before.len() == 0 && after.len() == 0 {
        assert(whole@ =~= part@);
    }
}

proof fn hex_pairs(data: Seq<u8>)
    ensures
        text::hex_bytes(data).len() == 2 * data.len(),
        forall|i: int|
            0 <= i < data.len() ==> (#[trigger] data[i]) as nat / 16 < 16 && text::hex_bytes(data)[2 * i]
                == text::hex_char(data[i] as nat / 16) && text::hex_bytes(data)[2 * i + 1]
                == text::hex_char(data[i] as nat % 16),
    decreases data.len(),
{
    if data.len() > 0 {
        let less = data.drop_last();
        hex_pairs(less);
        let all = text::hex_bytes(data);
        assert forall|i: int| 0 <= i < data.len() implies (#[trigger] data[i]) as nat / 16 < 16
            && all[2 * i] == text::hex_char(data[i] as nat / 16) && all[2 * i + 1]
            == text::hex_char(data[i] as nat % 16) by {
            if i < less.len() {
                assert(less[i] == data[i]);
            }
        }
    }
}

/// Bytes are shown by two hexadecimal digits each, from which each is read back.
pub proof fn bytes_are_read_back_from_hex(
    data: &[u8],
    r: String,
    i: int,
    pair: Vec<char>,
    back: Option<u64>,
)
    requires
        call_ensures(text::hex_bytes_text, (data,), r),
        0 <= i < data@.len(),
        pair@ == seq![r@[2 * i], r@[2 * i + 1]],
        call_ensures(numerals::parse_number, (&pair, 16, 255), back),
    ensures
        r@.len() == 2 * data@.len(),
        back == Some(data@[i] as u64),
{
    hex_pairs(data@);
    let b = data@[i] as nat;
    let p = pair@;
    assert(p[0] == text::hex_char(b / 16) && p[1] == text::hex_char(b % 16));
    assert(numerals::digit_value(p[0]) == Some(b / 16));
    assert(numerals::digit_value(p[1]) == Some(b % 16));
    assert(p[0] != '+');
    assert(numerals::without_plus(p) == p);
    assert(p.drop_last() =~= seq![p[0]]);
    assert(seq![p[0]].drop_last() =~= Seq::empty());
    reveal_with_fuel(numerals::number, 3);
    assert(numerals::number(seq![p[0]], 16) == b / 16);
    assert(numerals::number(p, 16) == b);
    assert forall|k: int| 0 <= k < p.len() implies numerals::is_digit(#[trigger] p[k], 16) by {}
}

proof fn ends_hold(start: Seq<char>, a: Seq<char>, between: Seq<char>, b: Seq<char>)
    ensures
        text::contains(start + a + between + b, a),
        text::contains(start + a + between + b, b),
{
    let m = start + a + between + b;
    let i = start.len() as int;
    let j = m.len() - b.len();
    assert(m.subrange(i, i + a.len()) =~= a);
    assert(text::part_at(m, a, i));
    assert(m.subrange(j, j + b.len()) =~= b);
    assert(text::part_at(m, b, j));
}

/// An error tells what it is given, and is of its own kind.
pub proof fn errors_tell_what_they_are_given(
    m: &str,
    key: F4KvsError,
    value: F4KvsError,
    storage: F4KvsError,
    io: F4KvsError,
    serialization: F4KvsError,
    config: F4KvsError,
    internal: F4KvsError,
    encryption: F4KvsError,
    invalid: F4KvsError,
    late: F4KvsError,
    ms: u64,
)
    requires
        call_ensures(F4KvsError::invalid_key, (m,), key),
        call_ensures(F4KvsError::invalid_value, (m,), value),
        call_ensures(F4KvsError::storage, (m,), storage),
        call_ensures(F4KvsError::io, (m,), io),
        call_ensures(F4KvsError::serialization, (m,), serialization),
        call_ensures(F4KvsError::config, (m,), config),
        call_ensures(F4KvsError::internal, (m,), internal),
        call_ensures(F4KvsError::encryption, (m,), encryption),
        call_ensures(F4KvsError::invalid_configuration, (m,), invalid),
        call_ensures(F4KvsError::timeout_with_operation, (m, ms), late),
    ensures
        key matches F4KvsError::InvalidKey { reason } && reason@ == m@,
        value matches F4KvsError::InvalidValue { reason } && reason@ == m@,
        storage matches F4KvsError::Storage { message } && message@ == m@,
        io matches F4KvsError::Io { message } && message@ == m@,
        serialization matches F4KvsError::Serialization { message } && message@ == m@,
        config matches F4KvsError::Config { message } && message@ == m@,
        internal matches F4KvsError::Internal { message } && message@ == m@,
        encryption matches F4KvsError::Encryption { message } && message@ == m@,
        invalid matches F4KvsError::InvalidConfiguration { message } && message@ == m@,
        late matches F4KvsError::Timeout { operation, timeout_ms } && operation@ == m@ && timeout_ms
            == ms,
{
}

/// An error with a context is of the same kind as the one without, and tells both the context and
/// what went wrong.
pub proof fn errors_tell_their_context(
    c: &str,
    m: &str,
    key: F4KvsError,
    value: F4KvsError,
    storage: F4KvsError,
    io: F4KvsError,
    serialization: F4KvsError,
    config: F4KvsError,
    internal: F4KvsError,
    encryption: F4KvsError,
)
    requires
        call_ensures(F4KvsError::invalid_key_with_context, (c, m), key),
        call_ensures(F4KvsError::invalid_value_with_context, (c, m), value),
        call_ensures(F4KvsError::storage_with_operation, (c, m), storage),
        call_ensures(F4KvsError::io_with_path, (c, m), io),
        call_ensures(F4KvsError::serialization_with_format, (c, m), serialization),
        call_ensures(F4KvsError::config_with_field, (c, m), config),
        call_ensures(F4KvsError::internal_with_component, (c, m), internal),
        call_ensures(F4KvsError::encryption_with_algorithm, (c, m), encryption),
    ensures
        key matches F4KvsError::InvalidKey { reason } && text::contains(reason@, c@)
            && text::contains(reason@, m@),
        value matches F4KvsError::InvalidValue { reason } && text::contains(reason@, c@)
            && text::contains(reason@, m@),
        storage matches F4KvsError::Storage { message } && text::contains(message@, c@)
            && text::contains(message@, m@),
        io matches F4KvsError::Io { message } && text::contains(message@, c@) && text::contains(
            message@,
            m@,
        ),
        serialization matches F4KvsError::Serialization { message } && text::contains(message@, c@)
            && text::contains(message@, m@),
        config matches F4KvsError::Config { message } && text::contains(message@, c@)
            && text::contains(message@, m@),
        internal matches F4KvsError::Internal { message } && text::contains(message@, c@)
            && text::contains(message@, m@),
        encryption matches F4KvsError::Encryption { message } && text::contains(message@, c@)
            && text::contains(message@, m@),
{
    ends_hold("Key '"@, c@, "': "@, m@);
    ends_hold("Value type '"@, c@, "': "@, m@);
    ends_hold("Storage operation '"@, c@, "' failed: "@, m@);
    ends_hold("I/O error for path '"@, c@, "': "@, m@);
    ends_hold("Serialization error for format '"@, c@, "': "@, m@);
    ends_hold("Configuration error for field '"@, c@, "': "@, m@);
    ends_hold("Internal error in component '"@, c@, "': "@, m@);
    ends_hold("Encryption error for algorithm '"@, c@, "': "@, m@);
}

/// Every error has a suggestion, which goes by the kind of the error and not by what it tells.
pub proof fn suggestions_go_by_the_kind(
    a: F4KvsError,
    b: F4KvsError,
    ra: Option<&'static str>,
    rb: Option<&'static str>,
)
    requires
        call_ensures(F4KvsError::recovery_suggestion, (&a,), ra),
        call_ensures(F4KvsError::recovery_suggestion, (&b,), rb),
    ensures
        ra is Some,
        a is Storage && b is Storage ==> ra->Some_0@ == rb->Some_0@,
        a is Io && b is Io ==> ra->Some_0@ == rb->Some_0@,
        a is Timeout && b is Timeout ==> ra->Some_0@ == rb->Some_0@,
        a is Io && b is Storage ==> ra->Some_0@ != rb->Some_0@,
        a is Timeout && b is Storage ==> ra->Some_0@ != rb->Some_0@,
        a is InvalidKey && b is InvalidValue ==> ra->Some_0@ != rb->Some_0@,
        a is KeyNotFound && b is InvalidKey ==> ra->Some_0@ != rb->Some_0@,
{
    reveal_strlit("Check storage backend and disk space");
    reveal_strlit("Check file permissions and disk space");
    reveal_strlit("Retry operation or increase timeout");
    reveal_strlit("Check key format and length requirements");
    reveal_strlit("Verify value type and content");
    reveal_strlit("Key may not exist or may have been deleted");
    if a is Io && b is Storage {
        assert(ra->Some_0@.len() != rb->Some_0@.len());
    }
    if a is Timeout && b is Storage {
        assert(ra->Some_0@[0] != rb->Some_0@[0]);
    }
    if a is InvalidKey && b is InvalidValue {
        assert(ra->Some_0@[0] != rb->Some_0@[0]);
    }
    if a is KeyNotFound && b is InvalidKey {
        assert(ra->Some_0@[0] != rb->Some_0@[0]);
    }
}

/// An error of an adapter tells the error that it stands for.
pub proof fn adapter_errors_tell_the_error(e: F4KvsError, shown: String, r: F4KvsError)
    requires
        call_ensures(F4KvsError::to_text, (&e,), shown),
        call_ensures(storage_stats::adapter_error, (&e,), r),
    ensures
        r matches F4KvsError::Storage { message } && text::contains(message@, shown@),
{
    if let F4KvsError::Storage { message } = r {
        let part = shown@;
        let i = message@.len() - part.len();
        assert(message@.subrange(i, i + part.len()) =~= part);
        assert(text::part_at(message@, part, i));
    }
}

/// A plus sign in front of a number does not change it; one alone is no number, nor is a number with
/// two of them.
pub proof fn plus_sign_changes_nothing(
    t: Vec<char>,
    signed: Vec<char>,
    radix: u64,
    max: u64,
    r: Option<u64>,
    s: Option<u64>,
)
    requires
        2 <= radix <= 16,
        signed@ == seq!['+'] + t@,
        call_ensures(numerals::parse_number, (&t, radix, max), r),
        call_ensures(numerals::parse_number, (&signed, radix, max), s),
    ensures
        t@.len() > 0 && t@[0] != '+' ==> s == r,
        t@.len() == 0 ==> s is None,
        t@.len() > 0 && t@[0] == '+' ==> s is None,
{
    let digits = numerals::without_plus(signed@);
    assert(digits =~= t@);
    if t@.len() > 0 && t@[0] == '+' {
        assert(!numerals::is_digit(digits[0], radix as nat));
    }
}

/// Two characters stand for the same digit.
pub open spec fn same_digit(a: char, b: char) -> bool {
    a == b || ('a' as u32 <= a as u32 && a as u32 <= 'f' as u32 && a as u32 == b as u32 + 32)
}

proof fn same_digits_same_number(a: Seq<char>, b: Seq<char>, radix: nat)
    requires
        a.len() == b.len(),
        forall|i: int| 0 <= i < a.len() ==> same_digit(#[trigger] a[i], b[i]),
    ensures
        numerals::number(a, radix) == numerals::number(b, radix),
        forall|i: int|
            0 <= i < a.len() ==> numerals::digit_value(#[trigger] a[i]) == numerals::digit_value(
                b[i],
            ),
    decreases a.len(),
{
    if a.len() > 0 {
        same_digits_same_number(a.drop_last(), b.drop_last(), radix);
        assert(same_digit(a[a.len() - 1], b[a.len() - 1]));
        assert forall|i: int| 0 <= i < a.len() implies numerals::digit_value(#[trigger] a[i])
            == numerals::digit_value(b[i]) by {
            assert(same_digit(a[i], b[i]));
        }
    }
}

/// It makes no difference whether the letters of a number are small or capital.
pub proof fn capital_digits_are_the_same(
    small: Vec<char>,
    capital: Vec<char>,
    max: u64,
    r: Option<u64>,
    s: Option<u64>,
)
    requires
        small@.len() == capital@.len(),
        forall|i: int| 0 <= i < small@.len() ==> same_digit(#[trigger] small@[i], capital@[i]),
        call_ensures(numerals::parse_number, (&small, 16, max), r),
        call_ensures(numerals::parse_number, (&capital, 16, max), s),
    ensures
        r == s,
{
    if small@.len() > 0 {
        assert(same_digit(small@[0], capital@[0]));
        let a = numerals::without_plus(small@);
        let b = numerals::without_plus(capital@);
        assert forall|i: int| 0 <= i < a.len() implies same_digit(#[trigger] a[i], b[i]) by {
            if small@[0] == '+' {
                assert(same_digit(small@[i + 1], capital@[i + 1]));
            } else {
                assert(same_digit(small@[i], capital@[i]));
            }
        }
        same_digits_same_number(a, b, 16);
        if numerals::parsed(small@, 16, max as nat) is Some {
            assert forall|i: int| 0 <= i < b.len() implies numerals::is_digit(
                #[trigger] b[i],
                16,
            ) by {
                assert(numerals::is_digit(a[i], 16));
            }
        }
        if numerals::parsed(capital@, 16, max as nat) is Some {
            assert forall|i: int| 0 <= i < a.len() implies numerals::is_digit(
                #[trigger] a[i],
                16,
            ) by {
                assert(numerals::is_digit(b[i], 16));
            }
        }
    }
}

} // verus!
