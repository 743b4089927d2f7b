//! Numbers and spans of time as people read them.

use crate::duration::Duration;
use crate::numerals;
use crate::text::{self, dec_text, push_dec, push_zero_padded};
use vstd::arithmetic::power2::*;
use vstd::prelude::*;
use vstd::string::*;

verus! {

/// `num / den`, rounded to the nearest integer, halves to the even one.
pub open spec fn half_even(num: nat, den: nat) -> nat {
    let q = num / den;
    let r = num % den;
    if 2 * r > den || (2 * r == den && q % 2 == 1) {
        q + 1
    } else {
        q
    }
}

/// How many low bits of `n` lie below the 53 that binary64 keeps.
pub open spec fn low_bits(n: nat) -> nat
    decreases n,
{
    if n < 0x20_0000_0000_0000 {
        0
    } else {
        1 + low_bits(n / 2)
    }
}

/// The number nearest to `n` that binary64 can tell.
pub open spec fn to_binary64(n: nat) -> nat {
    half_even(n, pow2(low_bits(n))) * pow2(low_bits(n))
}

/// The unit in which a size is told: 0 for bytes, up to 5 for units of 1024 to the fifth.
pub open spec fn size_unit(n: nat) -> nat {
    if n < 0x400 {
        0
    } else if n < 0x10_0000 {
        1
    } else if n < 0x4000_0000 {
        2
    } else if n < 0x100_0000_0000 {
        3
    } else if n < 0x4_0000_0000_0000 {
        4
    } else {
        5
    }
}

/// How many bytes a unit has.
pub open spec fn unit_bytes(unit: nat) -> nat {
    if unit == 0 {
        1
    } else if unit == 1 {
        0x400
    } else if unit == 2 {
        0x10_0000
    } else if unit == 3 {
        0x4000_0000
    } else if unit == 4 {
        0x100_0000_0000
    } else {
        0x4_0000_0000_0000
    }
}

/// The name of a unit.
pub open spec fn unit_name(unit: nat) -> Seq<char> {
    if unit == 0 {
        " B"@
    } else if unit == 1 {
        " KB"@
    } else if unit == 2 {
        " MB"@
    } else if unit == 3 {
        " GB"@
    } else if unit == 4 {
        " TB"@
    } else {
        " PB"@
    }
}

/// A number of hundredths with two decimals.
pub open spec fn hundredths(n: nat) -> Seq<char> {
    text::dec(n / 100) + "."@ + text::zero_padded(text::dec(n % 100), 2)
}

/// A size as people read it: bytes as they are, larger units with two decimals.
pub open spec fn bytes_text(bytes: nat) -> Seq<char> {
    let size = to_binary64(bytes);
    let unit = size_unit(size);
    if unit == 0 {
        text::dec(bytes) + " B"@
    } else {
        hundredths(half_even(size * 100, unit_bytes(unit))) + unit_name(unit)
    }
}

fn round_half_even(num: u128, den: u128) -> (r: u128)
    requires
        0 < den <= 0x1_0000_0000_0000_0000,
        num < 0x1_0000_0000_0000_0000_0000,
    ensures
        r == half_even(num as nat, den as nat),
        r <= num + 1,
{
    let q: u128 = num / den;
    let r: u128 = num % den;
    assert(q <= num) by (nonlinear_arith)
        requires
            q == num as int / den as int,
            den >= 1,
            num >= 0,
    ;
    if 2 * r > den || (2 * r == den && q % 2 == 1) {
        q + 1
    } else {
        q
    }
}

proof fn low_bits_small(n: nat)
    requires
        n < 0x1_0000_0000_0000_0000,
    ensures
        low_bits(n) <= 11,
{
    reveal_with_fuel(low_bits, 13);
}

fn nearest_binary64(n: u64) -> (r: u128)
    ensures
        r == to_binary64(n as nat),
        r <= 0x1_0000_0000_0000_0800,
        n < 0x20_0000_0000_0000 ==> r == n,
{
    let mut rest: u64 = n;
    let mut unit: u128 = 1;
    let mut bits: u32 = 0;
    proof {
        lemma2_to64();
        low_bits_small(n as nat);
    }
    while rest >= 0x20_0000_0000_0000
        invariant
            low_bits(n as nat) == bits + low_bits(rest as nat),
            unit == pow2(bits as nat),
            low_bits(n as nat) <= 11,
        decreases rest,
    {
        proof {
            lemma_pow2_unfold((bits + 1) as nat);
            lemma2_to64();
            if bits < 11 {
                lemma_pow2_strictly_increases(bits as nat, 11);
            }
        }
        rest = rest / 2;
        bits = bits + 1;
        unit = unit * 2;
    }
    proof {
        lemma2_to64();
        if bits < 11 {
            lemma_pow2_strictly_increases(bits as nat, 11);
        }
        assert(bits == low_bits(n as nat));
        if n < 0x20_0000_0000_0000 {
            assert(bits == 0);
        }
    }
    let q = round_half_even(n as u128, unit);
    proof {
        let u = unit as int;
        let d = n as int / u;
        assert(d * u <= n) by (nonlinear_arith)
            requires
                d == n as int / u,
                u > 0,
        ;
        assert(q <= d + 1);
        assert(q * u <= (d + 1) * u) by (nonlinear_arith)
            requires
                q <= d + 1,
                u > 0,
        ;
        assert((d + 1) * u == d * u + u) by (nonlinear_arith);
    }
    q * unit
}

/// A size as people read it.
pub fn format_bytes(bytes: u64) -> (r: String)
    ensures
        r@ == bytes_text(bytes as nat),
{
    let size = nearest_binary64(bytes);
    if size < 0x400 {
        proof {
            low_bits_of_small(bytes as nat);
        }
        let mut m = dec_text(bytes);
        m.append(" B");
        return m;
    }
    let (unit, name): (u128, &str) = if size < 0x10_0000 {
        (0x400, " KB")
    } else if size < 0x4000_0000 {
        (0x10_0000, " MB")
    } else if size < 0x100_0000_0000 {
        (0x4000_0000, " GB")
    } else if size < 0x4_0000_0000_0000 {
        (0x100_0000_0000, " TB")
    } else {
        (0x4_0000_0000_0000, " PB")
    };
    let n = round_half_even(size * 100, unit);
    proof {
        let q = (size * 100) as int / unit as int;
        assert(q <= 0x1_0000_0000_0000_0800 * 100 / 0x400) by (nonlinear_arith)
            requires
                q == (size * 100) as int / unit as int,
                size <= 0x1_0000_0000_0000_0800,
                unit >= 0x400,
        ;
    }
    let mut m = dec_text((n / 100) as u64);
    m.append(".");
    push_zero_padded(&mut m, dec_text((n % 100) as u64).as_str(), 2);
    m.append(name);
    m
}

proof fn low_bits_of_small(n: nat)
    ensures
        n < 0x20_0000_0000_0000 ==> low_bits(n) == 0,
{
}

/// A span of time as people read it: its largest unit and those below it, milliseconds only where
/// there are no minutes.
pub open spec fn duration_text(d: Duration) -> Seq<char> {
    let hours = d.secs as nat / 3600;
    let minutes = (d.secs as nat % 3600) / 60;
    let seconds = d.secs as nat % 60;
    let millis = d.nanos as nat / 1_000_000;
    if hours > 0 {
        text::dec(hours) + "h "@ + text::dec(minutes) + "m "@ + text::dec(seconds) + "s"@
    } else if minutes > 0 {
        text::dec(minutes) + "m "@ + text::dec(seconds) + "s"@
    } else if seconds > 0 {
        text::dec(seconds) + "."@ + text::zero_padded(text::dec(millis), 3) + "s"@
    } else {
        text::dec(millis) + "ms"@
    }
}

/// A span of time as people read it.
pub fn format_duration(duration: Duration) -> (r: String)
    ensures
        r@ == duration_text(duration),
{
    let total: u64 = duration.as_secs();
    let hours: u64 = total / 3600;
    let minutes: u64 = (total % 3600) / 60;
    let seconds: u64 = total % 60;
    let millis: u64 = duration.subsec_millis() as u64;
    if hours > 0 {
        let mut m = dec_text(hours);
        m.append("h ");
        push_dec(&mut m, minutes);
        m.append("m ");
        push_dec(&mut m, seconds);
        m.append("s");
        m
    } else if minutes > 0 {
        let mut m = dec_text(minutes);
        m.append("m ");
        push_dec(&mut m, seconds);
        m.append("s");
        m
    } else if seconds > 0 {
        let mut m = dec_text(seconds);
        m.append(".");
        push_zero_padded(&mut m, dec_text(millis).as_str(), 3);
        m.append("s");
        m
    } else {
        let mut m = dec_text(millis);
        m.append("ms");
        m
    }
}

/// A number with a comma before each group of three digits but the first.
pub open spec fn with_commas(n: nat) -> Seq<char>
    decreases n,
{
    if n < 1000 {
        text::dec(n)
    } else {
        with_commas(n / 1000) + ","@ + text::zero_padded(text::dec(n % 1000), 3)
    }
}

/// A number with a comma before each group of three digits but the first.
pub fn format_number_with_commas(n: usize) -> (r: String)
    ensures
        r@ == with_commas(n as nat),
    decreases n,
{
    if n < 1000 {
        return dec_text(n as u64);
    }
    let mut m = format_number_with_commas(n / 1000);
    m.append(",");
    push_zero_padded(&mut m, dec_text((n % 1000) as u64).as_str(), 3);
    m
}

/// Without its commas, such a number is the number's digits.
pub proof fn commas_only_added(n: nat)
    ensures
        with_commas(n).filter(|c: char| c != ',') == text::dec(n),
    decreases n,
{
    let keep = |c: char| c != ',';
    if n < 1000 {
        digits_no_comma(n);
        no_comma(text::dec(n));
    } else {
        let high = with_commas(n / 1000);
        let low = text::zero_padded(text::dec(n % 1000), 3);
        commas_only_added(n / 1000);
        padded_no_comma(n % 1000);
        no_comma(low);
        assert(","@.filter(keep) == Seq::<char>::empty()) by {
            reveal_strlit(",");
            reveal(Seq::filter);
            let none = Seq::<char>::empty();
            assert(","@.len() == 1);
            assert(","@.drop_last() =~= none);
            assert(none.filter(keep) =~= none);
            assert(!keep(","@.last()));
        }
        Seq::filter_distributes_over_add(high + ","@, low, keep);
        Seq::filter_distributes_over_add(high, ","@, keep);
        assert(text::dec(n / 1000) + Seq::<char>::empty() =~= text::dec(n / 1000));
        dec_groups(n);
    }
}

proof fn padded_no_comma(n: nat)
    ensures
        ({
            let t = text::zero_padded(text::dec(n), 3);
            forall|i: int| 0 <= i < t.len() ==> t[i] != ','
        }),
{
    digits_no_comma(n);
    let t = text::zero_padded(text::dec(n), 3);
    let lead = t.len() - text::dec(n).len();
    assert forall|i: int| 0 <= i < t.len() implies t[i] != ',' by {
        if i >= lead {
            assert(t[i] == text::dec(n)[i - lead]);
        } else {
            assert(t[i] == '0');
        }
    }
}

proof fn no_comma(t: Seq<char>)
    ensures
        (forall|i: int| 0 <= i < t.len() ==> t[i] != ',') ==> t.filter(|c: char| c != ',') == t,
    decreases t.len(),
{
    reveal(Seq::filter);
    if t.len() > 0 {
        no_comma(t.drop_last());
        assert(t.drop_last().push(t.last()) =~= t);
    }
}

proof fn digits_no_comma(n: nat)
    ensures
        forall|i: int| 0 <= i < text::dec(n).len() ==> #[trigger] text::dec(n)[i] != ',',
    decreases n,
{
    let t = text::dec(n);
    let d = n % 10;
    assert(text::digit_char(d) as u32 == 48 + d);
    if n >= 10 {
        digits_no_comma(n / 10);
        assert forall|i: int| 0 <= i < t.len() implies #[trigger] t[i] != ',' by {
            if i < t.len() - 1 {
                assert(t[i] == text::dec(n / 10)[i]);
            } else {
                assert(t[i] == text::digit_char(d));
            }
        }
    } else {
        assert(t =~= seq![text::digit_char(d)]);
    }
}

proof fn dec_groups(n: nat)
    requires
        n >= 1000,
    ensures
        text::dec(n) == text::dec(n / 1000) + text::zero_padded(text::dec(n % 1000), 3),
{
    let low = n % 1000;
    assert(n / 10 / 10 / 10 == n / 1000);
    assert(n / 10 / 10 % 10 == low / 100);
    assert(n / 10 % 10 == low / 10 % 10);
    assert(n % 10 == low % 10);
    let padded = text::zero_padded(text::dec(low), 3);
    reveal_with_fuel(text::dec, 4);
    assert(padded =~= seq![
        text::digit_char(low / 100),
        text::digit_char(low / 10 % 10),
        text::digit_char(low % 10),
    ]);
    assert(text::dec(n) =~= text::dec(n / 1000) + padded);
}

/// The text of a span of time tells its hours, minutes and seconds, which add up to it, and its
/// milliseconds where it is shorter than a minute.
pub proof fn duration_parts_add_up(d: Duration, r: String)
    requires
        call_ensures(format_duration, (d,), r),
    ensures
        exists|h: nat, m: nat, s: nat|
            {
                &&& h * 3600 + m * 60 + s == d.secs
                &&& m < 60
                &&& s < 60
                &&& r@ == #[trigger] told_parts(h, m, s, d.nanos as nat / 1_000_000)
            },
{
    let (h, m, s) = (d.secs as nat / 3600, (d.secs as nat % 3600) / 60, d.secs as nat % 60);
    assert(h * 3600 + m * 60 + s == d.secs) by {
        let n = d.secs as int;
        assert(n % 3600 % 60 == n % 60);
    }
    assert(r@ == told_parts(h, m, s, d.nanos as nat / 1_000_000));
}

/// The parts of a span of time that are told, from the largest one that is not zero on.
pub open spec fn told_parts(h: nat, m: nat, s: nat, ms: nat) -> Seq<char> {
    if h > 0 {
        text::dec(h) + "h "@ + text::dec(m) + "m "@ + text::dec(s) + "s"@
    } else if m > 0 {
        text::dec(m) + "m "@ + text::dec(s) + "s"@
    } else if s > 0 {
        text::dec(s) + "."@ + text::zero_padded(text::dec(ms), 3) + "s"@
    } else {
        text::dec(ms) + "ms"@
    }
}

proof fn rounded_is_nearest(num: nat, den: nat)
    requires
        den > 0,
    ensures
        2 * (half_even(num, den) * den) <= 2 * num + den,
        2 * num <= 2 * (half_even(num, den) * den) + den,
        2 * (half_even(num, den) * den) == 2 * num + den ==> half_even(num, den) % 2 == 0,
        2 * num == 2 * (half_even(num, den) * den) + den ==> half_even(num, den) % 2 == 0,
{
    let (q, r) = (num / den, num % den);
    vstd::arithmetic::div_mod::lemma_fundamental_div_mod(num as int, den as int);
    assert(den * q == q * den) by (nonlinear_arith);
    assert((q + 1) * den == q * den + den) by (nonlinear_arith);
}

proof fn small_numbers_are_exact(n: nat)
    requires
        n < 0x20_0000_0000_0000,
    ensures
        to_binary64(n) == n,
{
    vstd::arithmetic::power2::lemma2_to64();
    assert(low_bits(n) == 0);
    assert(pow2(0) == 1);
    assert(n / 1 == n && n % 1 == 0);
    assert(n * 1 == n);
}

/// A number of bytes below 1024 is told as it is. One from there on that a float holds exactly is
/// told in hundredths of the largest unit that it reaches, and what is told is off by no more than
/// half a hundredth.
pub proof fn told_size_is_near(bytes: u64, r: String)
    requires
        call_ensures(format_bytes, (bytes,), r),
        bytes < 0x20_0000_0000_0000,
    ensures
        bytes < 0x400 ==> r@ == text::dec(bytes as nat) + " B"@,
        0x400 <= bytes < 0x10_0000 ==> told_near(bytes as nat, 0x400, " KB"@, r@),
        0x10_0000 <= bytes < 0x4000_0000 ==> told_near(bytes as nat, 0x10_0000, " MB"@, r@),
        0x4000_0000 <= bytes < 0x100_0000_0000 ==> told_near(bytes as nat, 0x4000_0000, " GB"@, r@),
        0x100_0000_0000 <= bytes < 0x4_0000_0000_0000 ==> told_near(
            bytes as nat,
            0x100_0000_0000,
            " TB"@,
            r@,
        ),
        0x4_0000_0000_0000 <= bytes ==> told_near(bytes as nat, 0x4_0000_0000_0000, " PB"@, r@),
{
    let n = bytes as nat;
    small_numbers_are_exact(n);
    let unit = unit_bytes(size_unit(n));
    rounded_is_nearest(n * 100, unit);
    if n >= 0x400 {
        assert(told_at(half_even(n * 100, unit), unit_name(size_unit(n))) =~= r@);
    }
}

/// The text tells a number of hundredths of a unit.
pub open spec fn told_at(h: nat, name: Seq<char>) -> Seq<char> {
    text::dec(h / 100) + "."@ + text::zero_padded(text::dec(h % 100), 2) + name
}

/// The text tells a number of hundredths of a unit that is off by no more than half a hundredth, and
/// is even where it is off by just that.
pub open spec fn told_near(n: nat, unit: nat, name: Seq<char>, t: Seq<char>) -> bool {
    exists|h: nat| #[trigger]
        told_at(h, name) == t && 2 * (h * unit) <= 2 * (n * 100) + unit && 2 * (n * 100) <= 2 * (h
            * unit) + unit && (2 * (h * unit) == 2 * (n * 100) + unit || 2 * (n * 100) == 2 * (h
            * unit) + unit ==> h % 2 == 0)
}

/// A number with commas is the number once the commas are taken out.
pub proof fn commas_do_not_change_the_number(n: usize, r: String)
    requires
        call_ensures(format_number_with_commas, (n,), r),
    ensures
        r@.filter(|c: char| c != ',') == text::dec(n as nat),
        n < 1000 ==> r@ == text::dec(n as nat),
        n >= 1000 ==> r@.len() > 4 && r@[r@.len() - 4] == ',',
{
    commas_only_added(n as nat);
    if n >= 1000 {
        reveal_strlit(",");
        let last = text::zero_padded(text::dec(n as nat % 1000), 3);
        numerals::dec_stands_for(n as nat % 1000);
        short_number(n as nat % 1000);
        assert(last.len() == 3);
        some_digits(n as nat / 1000);
    }
}

proof fn short_number(n: nat)
    requires
        n < 1000,
    ensures
        text::dec(n).len() <= 3,
{
    reveal_with_fuel(text::dec, 4);
}

proof fn some_digits(n: nat)
    ensures
        with_commas(n).len() > 0,
{
    numerals::dec_stands_for(n);
    if n >= 1000 {
        reveal_strlit(",");
    }
}

/// A number with commas is the number without its last three digits, with its commas, and behind a
/// comma those three digits.
pub proof fn commas_stand_before_three_digits(n: usize, high: usize, r: String, s: String)
    requires
        n >= 1000,
        high == n / 1000,
        call_ensures(format_number_with_commas, (n,), r),
        call_ensures(format_number_with_commas, (high,), s),
    ensures
        r@.len() == s@.len() + 4,
        r@.subrange(0, s@.len() as int) == s@,
        r@[s@.len() as int] == ',',
{
    reveal_strlit(",");
    short_number(n as nat % 1000);
    let last = text::zero_padded(text::dec(n as nat % 1000), 3);
    assert(last.len() == 3);
    assert(r@.subrange(0, s@.len() as int) =~= s@);
}

proof fn few_low_bits(n: nat, k: nat)
    requires
        n < 0x20_0000_0000_0000 * pow2(k),
    ensures
        low_bits(n) <= k,
    decreases k,
{
    if n >= 0x20_0000_0000_0000 {
        if k == 0 {
            lemma2_to64();
        } else {
            lemma_pow2_unfold(k);
            few_low_bits(n / 2, (k - 1) as nat);
        }
    }
}

/// A size that a float does not hold exactly is told in the largest unit, off by hardly more than
/// half a hundredth: by the few bytes that the float is off.
pub proof fn large_size_is_near(bytes: u64, r: String)
    requires
        call_ensures(format_bytes, (bytes,), r),
        bytes >= 0x20_0000_0000_0000,
    ensures
        exists|h: nat| #[trigger]
            told_at(h, " PB"@) == r@ && 2 * (h * 0x4_0000_0000_0000) <= 2 * (bytes * 100)
                + 0x4_0000_0000_0000 + 204_800 && 2 * (bytes * 100) <= 2 * (h
                * 0x4_0000_0000_0000) + 0x4_0000_0000_0000 + 204_800,
{
    let n = bytes as nat;
    lemma2_to64();
    few_low_bits(n, 11);
    let k = low_bits(n);
    let p = pow2(k);
    lemma_pow2_pos(k);
    if k < 11 {
        lemma_pow2_strictly_increases(k, 11);
    }
    assert(0 < p <= 2048);
    rounded_is_nearest(n, p);
    let size = to_binary64(n);
    assert(2 * size <= 2 * n + p && 2 * n <= 2 * size + p);
    assert(size >= 0x4_0000_0000_0000);
    assert(size_unit(size) == 5);
    let unit = 0x4_0000_0000_0000nat;
    rounded_is_nearest(size * 100, unit);
    let h = half_even(size * 100, unit);
    assert(told_at(h, " PB"@) =~= r@);
}

} // verus!
