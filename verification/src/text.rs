//! Text building with exact contracts: decimal and hexadecimal numerals and concatenation.

use crate::bytes::bytes_equal;
use vstd::prelude::*;
use vstd::string::*;
use vstd::utf8::*;

verus! {

/// The character of one decimal digit.
pub open spec fn digit_char(d: nat) -> char {
    (48 + d) as char
}

/// The decimal text of a natural number.
pub open spec fn dec(n: nat) -> Seq<char>
    decreases n,
{
    if n < 10 {
        seq![digit_char(n)]
    } else {
        dec(n / 10).push(digit_char(n % 10))
    }
}

/// The character of one lower-case hexadecimal digit.
pub open spec fn hex_char(d: nat) -> char {
    if d < 10 {
        (48 + d) as char
    } else {
        (87 + d) as char
    }
}

/// The lower-case hexadecimal text of a natural number.
pub open spec fn hex(n: nat) -> Seq<char>
    decreases n,
{
    if n < 16 {
        seq![hex_char(n)]
    } else {
        hex(n / 16).push(hex_char(n % 16))
    }
}

/// `text` with zeros in front, up to a length of at least `width`.
pub open spec fn zero_padded(text: Seq<char>, width: nat) -> Seq<char> {
    if text.len() >= width {
        text
    } else {
        Seq::new((width - text.len()) as nat, |i: int| '0') + text
    }
}

fn digit_text(d: u64) -> (r: &'static str)
    requires
        d < 16,
    ensures
        r@ == seq![hex_char(d as nat)],
{
    proof {
        reveal_strlit("0");
        reveal_strlit("1");
        reveal_strlit("2");
        reveal_strlit("3");
        reveal_strlit("4");
        reveal_strlit("5");
        reveal_strlit("6");
        reveal_strlit("7");
        reveal_strlit("8");
        reveal_strlit("9");
        reveal_strlit("a");
        reveal_strlit("b");
        reveal_strlit("c");
        reveal_strlit("d");
        reveal_strlit("e");
        reveal_strlit("f");
    }
    if d == 0 {
        "0"
    } else if d == 1 {
        "1"
    } else if d == 2 {
        "2"
    } else if d == 3 {
        "3"
    } else if d == 4 {
        "4"
    } else if d == 5 {
        "5"
    } else if d == 6 {
        "6"
    } else if d == 7 {
        "7"
    } else if d == 8 {
        "8"
    } else if d == 9 {
        "9"
    } else if d == 10 {
        "a"
    } else if d == 11 {
        "b"
    } else if d == 12 {
        "c"
    } else if d == 13 {
        "d"
    } else if d == 14 {
        "e"
    } else {
        "f"
    }
}

/// Appends the decimal text of `n`.
pub fn push_dec(out: &mut String, n: u64)
    ensures
        final(out)@ == old(out)@ + dec(n as nat),
    decreases n,
{
    if n >= 10 {
        push_dec(out, n / 10);
    }
    out.append(digit_text(n % 10));
}

/// Appends the lower-case hexadecimal text of `n`.
pub fn push_hex(out: &mut String, n: u64)
    ensures
        final(out)@ == old(out)@ + hex(n as nat),
    decreases n,
{
    if n >= 16 {
        push_hex(out, n / 16);
    }
    out.append(digit_text(n % 16));
}

/// The decimal text of `n`.
pub fn dec_text(n: u64) -> (r: String)
    ensures
        r@ == dec(n as nat),
{
    let mut out = String::new();
    push_dec(&mut out, n);
    out
}

/// The lower-case hexadecimal text of `n`.
pub fn hex_text(n: u64) -> (r: String)
    ensures
        r@ == hex(n as nat),
{
    let mut out = String::new();
    push_hex(&mut out, n);
    out
}

/// Appends `text`, with zeros in front up to a length of at least `width`.
pub fn push_zero_padded(out: &mut String, text: &str, width: usize)
    ensures
        final(out)@ == old(out)@ + zero_padded(text@, width as nat),
{
    let len: usize = text.unicode_len();
    let ghost before = out@;
    let mut done: usize = len;
    proof {
        reveal_strlit("0");
    }
    while done < width
        invariant
            len == text@.len(),
            len <= done,
            len < width ==> done <= width,
            len >= width ==> done == len,
            out@ == before + Seq::new((done - len) as nat, |i: int| '0'),
        decreases width - done,
    {
        proof {
            reveal_strlit("0");
        }
        out.append("0");
        done = done + 1;
        assert(out@ =~= before + Seq::new((done - len) as nat, |i: int| '0'));
    }
    out.append(text);
    assert(out@ =~= before + zero_padded(text@, width as nat));
}

/// The two texts, one after the other.
pub fn cat(a: &str, b: &str) -> (r: String)
    ensures
        r@ == a@ + b@,
{
    let mut out = String::new();
    out.append(a);
    out.append(b);
    assert(out@ =~= a@ + b@);
    out
}

/// The three texts, one after the other.
pub fn cat3(a: &str, b: &str, c: &str) -> (r: String)
    ensures
        r@ == a@ + b@ + c@,
{
    let mut out = cat(a, b);
    out.append(c);
    out
}

/// Whether the two texts are equal.
pub fn same_text(a: &str, b: &str) -> (r: bool)
    ensures
        r == (a@ == b@),
{
    proof {
        encode_utf8_decode_utf8(a@);
        encode_utf8_decode_utf8(b@);
    }
    bytes_equal(a.as_bytes(), b.as_bytes())
}

/// The text of a boolean.
pub open spec fn bool_chars(b: bool) -> Seq<char> {
    if b {
        "true"@
    } else {
        "false"@
    }
}

/// The decimal text of an integer.
pub open spec fn signed_dec(n: int) -> Seq<char> {
    if n < 0 {
        "-"@ + dec((-n) as nat)
    } else {
        dec(n as nat)
    }
}

/// The decimal text of `n`.
pub fn signed_text(n: i64) -> (r: String)
    ensures
        r@ == signed_dec(n as int),
{
    if n >= 0 {
        return dec_text(n as u64);
    }
    let mut out = "-".to_owned();
    let magnitude: u64 = if n == i64::MIN {
        0x8000_0000_0000_0000
    } else {
        (-n) as u64
    };
    push_dec(&mut out, magnitude);
    out
}

/// The hexadecimal text of bytes, two digits for each.
pub open spec fn hex_bytes(data: Seq<u8>) -> Seq<char>
    decreases data.len(),
{
    if data.len() == 0 {
        Seq::empty()
    } else {
        hex_bytes(data.drop_last()).push(hex_char(data.last() as nat / 16)).push(
            hex_char(data.last() as nat % 16),
        )
    }
}

/// The hexadecimal text of `data`, two digits for each byte.
pub fn hex_bytes_text(data: &[u8]) -> (r: String)
    ensures
        r@ == hex_bytes(data@),
{
    let mut out = String::new();
    let mut i: usize = 0;
    assert(data@.take(0) =~= Seq::empty());
    while i < data.len()
        invariant
            i <= data@.len(),
            out@ == hex_bytes(data@.take(i as int)),
        decreases data@.len() - i,
    {
        let b: u64 = data[i] as u64;
        let ghost before = out@;
        out.append(digit_text(b / 16));
        out.append(digit_text(b % 16));
        proof {
            assert(data@.take(i + 1).drop_last() =~= data@.take(i as int));
            assert(out@ =~= before.push(hex_char(b as nat / 16)).push(hex_char(b as nat % 16)));
        }
        i = i + 1;
    }
    assert(data@.take(i as int) =~= data@);
    out
}

/// `part` stands somewhere in `whole`.
pub open spec fn contains(whole: Seq<char>, part: Seq<char>) -> bool {
    exists|i: int| part_at(whole, part, i)
}

/// `part` stands at `i` in `whole`.
pub open spec fn part_at(whole: Seq<char>, part: Seq<char>, i: int) -> bool {
    &&& 0 <= i
    &&& i + part.len() <= whole.len()
    &&& whole.subrange(i, i + part.len()) == part
}

/// The characters of a text.
pub fn chars_of(s: &str) -> (r: Vec<char>)
    ensures
        r@ == s@,
{
    let mut out: Vec<char> = Vec::new();
    for c in it: s.chars()
        invariant
            out@ == s@.take(it.index()),
            it.seq() == s@,
    {
        out.push(c);
        assert(s@.take(it.index() + 1) =~= s@.take(it.index()).push(c));
    }
    assert(s@.take(s@.len() as int) =~= s@);
    out
}

/// Whether `part` stands at `i` in `whole`.
pub fn is_part_at(whole: &Vec<char>, part: &Vec<char>, i: usize) -> (r: bool)
    ensures
        r == part_at(whole@, part@, i as int),
{
    if part.len() > whole.len() || i > whole.len() - part.len() {
        return false;
    }
    let mut k: usize = 0;
    while k < part.len()
        invariant
            i + part@.len() <= whole@.len(),
            whole@.len() <= usize::MAX,
            k <= part@.len(),
            forall|j: int| 0 <= j < k ==> whole@[i + j] == part@[j],
        decreases part@.len() - k,
    {
        if whole[i + k] != part[k] {
            assert(whole@.subrange(i as int, i + part@.len())[k as int] != part@[k as int]);
            return false;
        }
        k = k + 1;
    }
    assert(whole@.subrange(i as int, i + part@.len()) =~= part@);
    true
}

/// Whether `part` stands somewhere in `whole`.
pub fn contains_text(whole: &str, part: &str) -> (r: bool)
    ensures
        r == contains(whole@, part@),
{
    let w = chars_of(whole);
    let p = chars_of(part);
    if p.len() > w.len() {
        return false;
    }
    let last: usize = w.len() - p.len();
    let mut i: usize = 0;
    while i <= last
        invariant
            w@ == whole@,
            p@ == part@,
            last == w@.len() - p@.len(),
            last < usize::MAX || p@.len() == 0,
            i <= last + 1,
            forall|j: int| 0 <= j < i ==> !part_at(whole@, part@, j),
        decreases last + 1 - i,
    {
        if is_part_at(&w, &p, i) {
            return true;
        }
        if i == last {
            return false;
        }
        i = i + 1;
    }
    false
}

} // verus!
