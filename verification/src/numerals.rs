//! Reading numbers and names back from text.

use crate::text::{self, chars_of, is_part_at};
use vstd::prelude::*;
use vstd::string::*;

verus! {

/// The value of a digit character, up to hexadecimal in either case.
pub open spec fn digit_value(c: char) -> Option<nat> {
    let n = c as u32;
    if 48 <= n <= 57 {
        Some((n - 48) as nat)
    } else if 97 <= n <= 102 {
        Some((n - 87) as nat)
    } else if 65 <= n <= 70 {
        Some((n - 55) as nat)
    } else {
        None
    }
}

/// The character is a digit of this base.
pub open spec fn is_digit(c: char, radix: nat) -> bool {
    digit_value(c) matches Some(d) && d < radix
}

/// The number that digits stand for.
pub open spec fn number(digits: Seq<char>, radix: nat) -> nat
    decreases digits.len(),
{
    if digits.len() == 0 {
        0
    } else {
        number(digits.drop_last(), radix) * radix + digit_value(digits.last())->Some_0
    }
}

/// A text without the plus sign that it may begin with.
pub open spec fn without_plus(t: Seq<char>) -> Seq<char> {
    if t.len() > 0 && t[0] == '+' {
        t.drop_first()
    } else {
        t
    }
}

/// The number that a text stands for: digits, at least one of them, perhaps behind a plus sign,
/// of a number of at most `max`.
pub open spec fn parsed(t: Seq<char>, radix: nat, max: nat) -> Option<nat> {
    let digits = without_plus(t);
    if digits.len() > 0 && (forall|i: int|
        0 <= i < digits.len() ==> is_digit(#[trigger] digits[i], radix)) && number(digits, radix)
        <= max {
        Some(number(digits, radix))
    } else {
        None
    }
}

/// What stands between `prefix` and `suffix` in a text that begins with the one and ends with the
/// other.
pub open spec fn between(t: Seq<char>, prefix: Seq<char>, suffix: Seq<char>) -> Option<Seq<char>> {
    if prefix.len() + suffix.len() <= t.len() && t.take(prefix.len() as int) == prefix && t.skip(
        t.len() - suffix.len(),
    ) == suffix {
        Some(t.subrange(prefix.len() as int, t.len() - suffix.len()))
    } else {
        None
    }
}

fn value_of_digit(c: char) -> (r: Option<u64>)
    ensures
        match digit_value(c) {
            Some(d) => r matches Some(x) && x == d,
            None => r is None,
        },
{
    let n: u32 = c as u32;
    if 48 <= n && n <= 57 {
        Some((n - 48) as u64)
    } else if 97 <= n && n <= 102 {
        Some((n - 87) as u64)
    } else if 65 <= n && n <= 70 {
        Some((n - 55) as u64)
    } else {
        None
    }
}

proof fn number_grows(digits: Seq<char>, radix: nat, k: int)
    requires
        0 <= k <= digits.len(),
        radix >= 1,
    ensures
        number(digits.take(k), radix) <= number(digits, radix),
    decreases digits.len() - k,
{
    if k < digits.len() {
        number_grows(digits, radix, k + 1);
        let next = digits.take(k + 1);
        assert(next.drop_last() =~= digits.take(k));
        let n = number(digits.take(k), radix);
        assert(n * radix >= n) by (nonlinear_arith)
            requires
                radix >= 1,
        ;
    } else {
        assert(digits.take(k) =~= digits);
    }
}

/// The number that the characters stand for.
pub fn parse_number(t: &Vec<char>, radix: u64, max: u64) -> (r: Option<u64>)
    requires
        2 <= radix <= 16,
    ensures
        match parsed(t@, radix as nat, max as nat) {
            Some(n) => r matches Some(x) && x == n,
            None => r is None,
        },
{
    let ghost digits = without_plus(t@);
    let start: usize = if t.len() > 0 && t[0] == '+' {
        1
    } else {
        0
    };
    assert(digits =~= t@.skip(start as int));
    if start == t.len() {
        return None;
    }
    let mut value: u64 = 0;
    let mut i: usize = start;
    while i < t.len()
        invariant
            start <= i <= t@.len(),
            2 <= radix <= 16,
            digits == t@.skip(start as int),
            digits == without_plus(t@),
            digits.len() > 0,
            value == number(digits.take(i - start), radix as nat),
            value <= max,
            forall|j: int| 0 <= j < i - start ==> is_digit(#[trigger] digits[j], radix as nat),
        decreases t@.len() - i,
    {
        let ghost k = i - start;
        assert(digits[k] == t@[i as int]);
        let d: u64 = match value_of_digit(t[i]) {
            Some(d) => d,
            None => {
                assert(!is_digit(digits[k], radix as nat));
                return None;
            },
        };
        if d >= radix {
            assert(!is_digit(digits[k], radix as nat));
            return None;
        }
        proof {
            let next = digits.take(k + 1);
            assert(next.drop_last() =~= digits.take(k));
            assert(next.last() == digits[k]);
            number_grows(digits, radix as nat, k + 1);
            assert(number(next, radix as nat) == value * radix + d);
        }
        let scaled: u64 = match value.checked_mul(radix) {
            Some(x) => x,
            None => {
                return None;
            },
        };
        let grown: u64 = match scaled.checked_add(d) {
            Some(x) => x,
            None => {
                return None;
            },
        };
        if grown > max {
            return None;
        }
        value = grown;
        i = i + 1;
    }
    assert(digits.take(i - start) =~= digits);
    Some(value)
}

/// What stands between `prefix` and `suffix` in a text that begins with the one and ends with the
/// other.
pub fn text_between(t: &str, prefix: &str, suffix: &str) -> (r: Option<Vec<char>>)
    ensures
        match between(t@, prefix@, suffix@) {
            Some(m) => r matches Some(v) && v@ == m,
            None => r is None,
        },
{
    let t = chars_of(t);
    let prefix = chars_of(prefix);
    let suffix = chars_of(suffix);
    if prefix.len() > t.len() || suffix.len() > t.len() - prefix.len() {
        return None;
    }
    let end: usize = t.len() - suffix.len();
    let has_prefix = is_part_at(&t, &prefix, 0);
    let has_suffix = is_part_at(&t, &suffix, end);
    proof {
        assert(t@.take(prefix@.len() as int) =~= t@.subrange(0, prefix@.len() as int));
        assert(t@.skip(end as int) =~= t@.subrange(end as int, t@.len() as int));
    }
    if !has_prefix || !has_suffix {
        return None;
    }
    let mut out: Vec<char> = Vec::new();
    let mut i: usize = prefix.len();
    while i < end
        invariant
            prefix@.len() <= i <= end <= t@.len(),
            out@ == t@.subrange(prefix@.len() as int, i as int),
        decreases end - i,
    {
        out.push(t[i]);
        i = i + 1;
        assert(out@ =~= t@.subrange(prefix@.len() as int, i as int));
    }
    Some(out)
}

/// What a name was built around is found again.
pub proof fn between_back(prefix: Seq<char>, middle: Seq<char>, suffix: Seq<char>)
    ensures
        between(prefix + middle + suffix, prefix, suffix) == Some(middle),
{
    let t = prefix + middle + suffix;
    assert(t.take(prefix.len() as int) =~= prefix);
    assert(t.skip(t.len() - suffix.len()) =~= suffix);
    assert(t.subrange(prefix.len() as int, t.len() - suffix.len()) =~= middle);
}

proof fn number_of_padded(digits: Seq<char>, zeros: nat, radix: nat)
    requires
        radix >= 2,
    ensures
        number(Seq::new(zeros, |i: int| '0') + digits, radix) == number(digits, radix),
    decreases digits.len() + zeros,
{
    let z = Seq::new(zeros, |i: int| '0');
    let t = z + digits;
    if digits.len() > 0 {
        number_of_padded(digits.drop_last(), zeros, radix);
        assert(t.drop_last() =~= z + digits.drop_last());
        assert(t.last() == digits.last());
    } else if zeros > 0 {
        number_of_padded(digits, (zeros - 1) as nat, radix);
        let shorter = Seq::new((zeros - 1) as nat, |i: int| '0') + digits;
        assert(t.drop_last() =~= shorter);
        assert(t.last() == '0');
        assert(number(digits, radix) == 0);
        assert(0nat * radix == 0) by (nonlinear_arith);
    } else {
        assert(t =~= digits);
    }
}

/// The digits of a number in hexadecimal stand for that number.
pub proof fn hex_stands_for(n: nat)
    ensures
        number(text::hex(n), 16) == n,
        text::hex(n).len() > 0,
        forall|i: int| 0 <= i < text::hex(n).len() ==> is_digit(#[trigger] text::hex(n)[i], 16),
    decreases n,
{
    reveal_with_fuel(number, 2);
    if n >= 16 {
        hex_stands_for(n / 16);
        let t = text::hex(n);
        assert(t.drop_last() =~= text::hex(n / 16));
        assert(t.last() == text::hex_char(n % 16));
    } else {
        assert(text::hex(n).drop_last() =~= Seq::empty());
    }
}

/// The digits of a number in decimal stand for that number.
pub proof fn dec_stands_for(n: nat)
    ensures
        number(text::dec(n), 10) == n,
        text::dec(n).len() > 0,
        forall|i: int| 0 <= i < text::dec(n).len() ==> is_digit(#[trigger] text::dec(n)[i], 10),
    decreases n,
{
    reveal_with_fuel(number, 2);
    if n >= 10 {
        dec_stands_for(n / 10);
        let t = text::dec(n);
        assert(t.drop_last() =~= text::dec(n / 10));
        assert(t.last() == text::digit_char(n % 10));
    } else {
        assert(text::dec(n).drop_last() =~= Seq::empty());
    }
}

/// A zero-padded number is read back.
pub proof fn padded_back(digits: Seq<char>, width: nat, radix: nat, max: nat)
    requires
        2 <= radix <= 16,
        digits.len() > 0,
        forall|i: int| 0 <= i < digits.len() ==> is_digit(#[trigger] digits[i], radix),
        number(digits, radix) <= max,
    ensures
        parsed(text::zero_padded(digits, width), radix, max) == Some(number(digits, radix)),
{
    let t = text::zero_padded(digits, width);
    assert(is_digit(digits[0], radix));
    assert(digits[0] != '+');
    if digits.len() < width {
        let zeros = (width - digits.len()) as nat;
        number_of_padded(digits, zeros, radix);
        assert(t == Seq::new(zeros, |i: int| '0') + digits);
        assert(t[0] == '0');
        assert forall|i: int| 0 <= i < t.len() implies is_digit(#[trigger] t[i], radix) by {
            if i >= zeros {
                assert(t[i] == digits[i - zeros]);
            } else {
                assert(t[i] == '0');
            }
        }
    }
    assert(without_plus(t) == t);
}

} // verus!
