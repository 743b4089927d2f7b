//! Small helpers of the engine.

use crate::bytes;
use crate::numerals;
use crate::text::{self, dec_text, push_zero_padded};
use vstd::prelude::*;
use vstd::string::*;
use vstd::utf8::*;

verus! {

/// The key is within the range from `start` to `end`, both included; an empty `end` sets no limit.
pub open spec fn in_range(key: Seq<u8>, start: Seq<u8>, end: Seq<u8>) -> bool {
    &&& !bytes::bytes_lt(key, start)
    &&& end.len() == 0 || !bytes::bytes_lt(end, key)
}

/// The bound below which the keys up to `end` lie: the text right behind it in key order, or no
/// bound where `end` is empty.
pub fn exclusive_range_end(end: &str) -> (r: Option<String>)
    ensures
        match r {
            Some(bound) => end@.len() > 0 && bound@ == end@.push('\0') && encode_utf8(bound@)
                == encode_utf8(end@).push(0u8),
            None => end@.len() == 0,
        },
{
    if end.is_empty() {
        return None;
    }
    let mut bound = end.to_owned();
    bound.append("\0");
    proof {
        reveal_strlit("\0");
        assert(bound@ =~= end@.push('\0'));
        encode_push_zero(end@);
    }
    Some(bound)
}

proof fn encode_push_zero(s: Seq<char>)
    ensures
        encode_utf8(s.push('\0')) == encode_utf8(s).push(0u8),
    decreases s.len(),
{
    let t = s.push('\0');
    if s.len() == 0 {
        assert(t.drop_first() =~= Seq::empty());
        assert(encode_utf8(t.drop_first()) =~= Seq::empty());
        assert(0u32 & 0x7F == 0) by (bit_vector);
        assert(encode_scalar('\0' as u32) =~= seq![0u8]);
        assert(encode_utf8(t) =~= seq![0u8]);
    } else {
        assert(t.drop_first() =~= s.drop_first().push('\0'));
        encode_push_zero(s.drop_first());
        assert(encode_utf8(t) =~= encode_utf8(s).push(0u8));
    }
}

/// The file name of a table.
pub open spec fn sstable_filename(level: nat, sequence: nat) -> Seq<char> {
    "L"@ + text::zero_padded(text::dec(level), 2) + "_"@ + text::zero_padded(
        text::dec(sequence),
        16,
    ) + ".sst"@
}

/// The file name of a log.
pub open spec fn wal_filename(sequence: nat) -> Seq<char> {
    "wal_"@ + text::zero_padded(text::dec(sequence), 16) + ".log"@
}

/// The file name of a table.
pub fn generate_sstable_filename(level: usize, sequence: u64) -> (r: String)
    ensures
        r@ == sstable_filename(level as nat, sequence as nat),
{
    let mut name = "L".to_owned();
    push_zero_padded(&mut name, dec_text(level as u64).as_str(), 2);
    name.append("_");
    push_zero_padded(&mut name, dec_text(sequence).as_str(), 16);
    name.append(".sst");
    name
}

/// The file name of a log.
pub fn generate_wal_filename(sequence: u64) -> (r: String)
    ensures
        r@ == wal_filename(sequence as nat),
{
    let mut name = "wal_".to_owned();
    push_zero_padded(&mut name, dec_text(sequence).as_str(), 16);
    name.append(".log");
    name
}

proof fn padded_differ(a: nat, b: nat, width: nat)
    requires
        text::zero_padded(text::dec(a), width) == text::zero_padded(text::dec(b), width),
    ensures
        a == b,
{
    let max = if a > b { a } else { b };
    numerals::dec_stands_for(a);
    numerals::dec_stands_for(b);
    numerals::padded_back(text::dec(a), width, 10, max);
    numerals::padded_back(text::dec(b), width, 10, max);
}

/// Logs with different sequence numbers have different names.
pub proof fn wal_filenames_are_unique(a: nat, b: nat)
    requires
        wal_filename(a) == wal_filename(b),
    ensures
        a == b,
{
    let (pa, pb) = (text::zero_padded(text::dec(a), 16), text::zero_padded(text::dec(b), 16));
    numerals::between_back("wal_"@, pa, ".log"@);
    numerals::between_back("wal_"@, pb, ".log"@);
    padded_differ(a, b, 16);
}

proof fn padded_has_no_underscore(n: nat, width: nat)
    ensures
        forall|i: int|
            0 <= i < text::zero_padded(text::dec(n), width).len() ==> #[trigger] text::zero_padded(
                text::dec(n),
                width,
            )[i] != '_',
{
    let digits = text::dec(n);
    let t = text::zero_padded(digits, width);
    numerals::dec_stands_for(n);
    assert forall|i: int| 0 <= i < t.len() implies #[trigger] t[i] != '_' by {
        let lead = t.len() - digits.len();
        if i >= lead {
            assert(t[i] == digits[i - lead]);
            assert(numerals::is_digit(digits[i - lead], 10));
        }
    }
}

proof fn levels_differ(a: nat, b: nat, rest_a: Seq<char>, rest_b: Seq<char>)
    requires
        "L"@ + text::zero_padded(text::dec(a), 2) + "_"@ + rest_a == "L"@ + text::zero_padded(
            text::dec(b),
            2,
        ) + "_"@ + rest_b,
        text::zero_padded(text::dec(a), 2).len() <= text::zero_padded(text::dec(b), 2).len(),
    ensures
        a == b,
{
    reveal_strlit("L");
    reveal_strlit("_");
    let (pa, pb) = (text::zero_padded(text::dec(a), 2), text::zero_padded(text::dec(b), 2));
    let whole = "L"@ + pa + "_"@ + rest_a;
    let other = "L"@ + pb + "_"@ + rest_b;
    padded_has_no_underscore(b, 2);
    if pa.len() < pb.len() {
        assert(whole[(1 + pa.len()) as int] == '_');
        assert(other[(1 + pa.len()) as int] == pb[pa.len() as int]);
    }
    assert forall|i: int| 0 <= i < pa.len() implies pa[i] == pb[i] by {
        assert(whole[1 + i] == pa[i]);
        assert(other[1 + i] == pb[i]);
    }
    assert(pa =~= pb);
    padded_differ(a, b, 2);
}

/// Tables with different levels or sequence numbers have different names.
pub proof fn sstable_filenames_are_unique(level_a: nat, a: nat, level_b: nat, b: nat)
    requires
        sstable_filename(level_a, a) == sstable_filename(level_b, b),
    ensures
        level_a == level_b,
        a == b,
{
    let (pa, pb) = (text::zero_padded(text::dec(a), 16), text::zero_padded(text::dec(b), 16));
    let (la, lb) = (
        text::zero_padded(text::dec(level_a), 2),
        text::zero_padded(text::dec(level_b), 2),
    );
    assert("L"@ + la + "_"@ + pa + ".sst"@ =~= "L"@ + la + "_"@ + (pa + ".sst"@));
    assert("L"@ + lb + "_"@ + pb + ".sst"@ =~= "L"@ + lb + "_"@ + (pb + ".sst"@));
    if la.len() <= lb.len() {
        levels_differ(level_a, level_b, pa + ".sst"@, pb + ".sst"@);
    } else {
        levels_differ(level_b, level_a, pb + ".sst"@, pa + ".sst"@);
    }
    let lead = "L"@ + la + "_"@;
    numerals::between_back(lead, pa, ".sst"@);
    numerals::between_back(lead, pb, ".sst"@);
    padded_differ(a, b, 16);
}

} // verus!
