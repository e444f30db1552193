//! Human-readable formatting: decimal and hexadecimal renderings of numbers
//! and digests, size formatting for listings, and recovery of path text from
//! stored path bytes.

use vstd::prelude::*;
use vstd::utf8::{encode_utf8, valid_utf8};

verus! {

pub const KB: u64 = 1024;

pub const MB: u64 = 1024 * 1024;

pub const GB: u64 = 1024 * 1024 * 1024;

/// The character for one digit value, decimal or hexadecimal.
pub open spec fn digit_char(d: int) -> char {
    if d == 0 {
        '0'
    } else if d == 1 {
        '1'
    } else if d == 2 {
        '2'
    } else if d == 3 {
        '3'
    } else if d == 4 {
        '4'
    } else if d == 5 {
        '5'
    } else if d == 6 {
        '6'
    } else if d == 7 {
        '7'
    } else if d == 8 {
        '8'
    } else if d == 9 {
        '9'
    } else if d == 10 {
        'a'
    } else if d == 11 {
        'b'
    } else if d == 12 {
        'c'
    } else if d == 13 {
        'd'
    } else if d == 14 {
        'e'
    } else {
        'f'
    }
}

/// The decimal rendering of a non-negative number, most significant digit
/// first, with no leading zeros (except for zero itself).
pub open spec fn spec_dec_string(n: int) -> Seq<char>
    decreases n,
{
    if n < 10 {
        seq![digit_char(n)]
    } else {
        spec_dec_string(n / 10).push(digit_char(n % 10))
    }
}

/// The hexadecimal rendering of a byte sequence, two lower-case digits per
/// byte.
pub open spec fn spec_hex(bytes: Seq<u8>) -> Seq<char>
    decreases bytes.len(),
{
    if bytes.len() == 0 {
        Seq::empty()
    } else {
        spec_hex(bytes.drop_last()) + seq![
            digit_char(bytes.last() as int / 16),
            digit_char(bytes.last() as int % 16),
        ]
    }
}

/// One digit character as an owned string.
fn digit_str(d: u64) -> (r: String)
    requires
        d < 16,
    ensures
        r@ == seq![digit_char(d as int)],
{
    if d == 0 {
        let r = "0".to_owned();
        proof {
            reveal_strlit("0");
        }
        assert(r@ =~= seq![digit_char(0)]);
        r
    } else if d == 1 {
        let r = "1".to_owned();
        proof {
            reveal_strlit("1");
        }
        assert(r@ =~= seq![digit_char(1)]);
        r
    } else if d == 2 {
        let r = "2".to_owned();
        proof {
            reveal_strlit("2");
        }
        assert(r@ =~= seq![digit_char(2)]);
        r
    } else if d == 3 {
        let r = "3".to_owned();
        proof {
            reveal_strlit("3");
        }
        assert(r@ =~= seq![digit_char(3)]);
        r
    } else if d == 4 {
        let r = "4".to_owned();
        proof {
            reveal_strlit("4");
        }
        assert(r@ =~= seq![digit_char(4)]);
        r
    } else if d == 5 {
        let r = "5".to_owned();
        proof {
            reveal_strlit("5");
        }
        assert(r@ =~= seq![digit_char(5)]);
        r
    } else if d == 6 {
        let r = "6".to_owned();
        proof {
            reveal_strlit("6");
        }
        assert(r@ =~= seq![digit_char(6)]);
        r
    } else if d == 7 {
        let r = "7".to_owned();
        proof {
            reveal_strlit("7");
        }
        assert(r@ =~= seq![digit_char(7)]);
        r
    } else if d == 8 {
        let r = "8".to_owned();
        proof {
            reveal_strlit("8");
        }
        assert(r@ =~= seq![digit_char(8)]);
        r
    } else if d == 9 {
        let r = "9".to_owned();
        proof {
            reveal_strlit("9");
        }
        assert(r@ =~= seq![digit_char(9)]);
        r
    } else if d == 10 {
        let r = "a".to_owned();
        proof {
            reveal_strlit("a");
        }
        assert(r@ =~= seq![digit_char(10)]);
        r
    } else if d == 11 {
        let r = "b".to_owned();
        proof {
            reveal_strlit("b");
        }
        assert(r@ =~= seq![digit_char(11)]);
        r
    } else if d == 12 {
        let r = "c".to_owned();
        proof {
            reveal_strlit("c");
        }
        assert(r@ =~= seq![digit_char(12)]);
        r
    } else if d == 13 {
        let r = "d".to_owned();
        proof {
            reveal_strlit("d");
        }
        assert(r@ =~= seq![digit_char(13)]);
        r
    } else if d == 14 {
        let r = "e".to_owned();
        proof {
            reveal_strlit("e");
        }
        assert(r@ =~= seq![digit_char(14)]);
        r
    } else {
        let r = "f".to_owned();
        proof {
            reveal_strlit("f");
        }
        assert(r@ =~= seq![digit_char(d as int)]);
        r
    }
}

/// Renders a number in decimal.
pub fn u64_to_dec(n: u64) -> (r: String)
    ensures
        r@ == spec_dec_string(n as int),
    decreases n,
{
    if n < 10 {
        digit_str(n)
    } else {
        let mut s = u64_to_dec(n / 10);
        let d = digit_str(n % 10);
        s.append(d.as_str());
        assert(s@ =~= spec_dec_string(n as int));
        s
    }
}

/// Renders a byte sequence in hexadecimal, two lower-case digits per byte.
pub fn hex_string(bytes: &[u8]) -> (r: String)
    ensures
        r@ == spec_hex(bytes@),
{
    let mut s = String::new();
    let mut i: usize = 0;
    let n = bytes.len();
    proof {
        assert(spec_hex(bytes@.take(0)) =~= Seq::<char>::empty());
    }
    while i < n
        invariant
            i <= n,
            n == bytes@.len(),
            s@ == spec_hex(bytes@.take(i as int)),
        decreases n - i,
    {
        let b = bytes[i];
        let hi = digit_str((b / 16) as u64);
        let lo = digit_str((b % 16) as u64);
        s.append(hi.as_str());
        s.append(lo.as_str());
        proof {
            assert(bytes@.take(i as int + 1).drop_last() =~= bytes@.take(i as int));
            assert(bytes@.take(i as int + 1).last() == bytes@[i as int]);
            assert(s@ =~= spec_hex(bytes@.take(i as int + 1)));
        }
        i = i + 1;
    }
    proof {
        assert(bytes@.take(n as int) =~= bytes@);
    }
    s
}

/// The value of `b` in units of `unit`, in whole hundredths, rounded to the
/// nearest hundredth with ties to even — as a two-decimal rendering of the
/// exact quotient rounds.
pub open spec fn spec_round_hundredths(b: int, unit: int) -> int
    recommends
        unit >= 1,
{
    let n0 = (b * 100) / unit;
    let r = (b * 100) % unit;
    if 2 * r > unit {
        n0 + 1
    } else if 2 * r < unit {
        n0
    } else if n0 % 2 == 0 {
        n0
    } else {
        n0 + 1
    }
}

/// The fixed-point rendering `whole.fraction` of `b` bytes in units of
/// `unit`, rounded to two fraction digits.
pub open spec fn spec_scaled(b: int, unit: int) -> Seq<char>
    recommends
        unit >= 1,
{
    let n = spec_round_hundredths(b, unit);
    let whole = n / 100;
    let frac = n % 100;
    spec_dec_string(whole) + "."@ + (if frac < 10 {
        "0"@ + spec_dec_string(frac)
    } else {
        spec_dec_string(frac)
    })
}

/// The human-readable rendering of a byte count: two truncated fraction
/// digits in the largest binary unit reached, or the plain count below 1 KB.
pub open spec fn spec_human_size(b: int) -> Seq<char> {
    if b >= GB {
        spec_scaled(b, GB as int) + " GB"@
    } else if b >= MB {
        spec_scaled(b, MB as int) + " MB"@
    } else if b >= KB {
        spec_scaled(b, KB as int) + " KB"@
    } else {
        spec_dec_string(b) + " B"@
    }
}

/// `whole.fraction` of `b` in units of `unit`, with the given suffix.
fn scaled(b: u64, unit: u64, suffix: &str) -> (r: String)
    requires
        1024 <= unit <= 1073741824,
    ensures
        r@ == spec_scaled(b as int, unit as int) + suffix@,
{
    let w = b / unit;
    let rm = b % unit;
    let q = rm * 100 / unit;
    let rr = rm * 100 % unit;
    proof {
        assert(b * 100 == (w * 100 + q) * (unit as int) + rr) by (nonlinear_arith)
            requires
                unit >= 1,
                w == b as int / unit as int,
                rm == b as int % unit as int,
                q == (rm * 100) as int / unit as int,
                rr == (rm * 100) as int % unit as int,
        {
            vstd::arithmetic::div_mod::lemma_fundamental_div_mod(b as int, unit as int);
            vstd::arithmetic::div_mod::lemma_fundamental_div_mod((rm * 100) as int, unit as int);
        }
        vstd::arithmetic::div_mod::lemma_fundamental_div_mod_converse(
            b as int * 100,
            unit as int,
            w as int * 100 + q,
            rr as int,
        );
        assert(w * 100 + q == (b as int * 100) / (unit as int));
        assert(rr == (b as int * 100) % (unit as int));
        vstd::arithmetic::div_mod::lemma_div_is_ordered_by_denominator(
            b as int,
            1024,
            unit as int,
        );
        vstd::arithmetic::div_mod::lemma_div_is_ordered(b as int, u64::MAX as int, 1024);
        assert(w <= u64::MAX as int / 1024);
    }
    let mut n: u64 = w * 100 + q;
    let two_r = rr * 2;
    if two_r > unit {
        n = n + 1;
    } else if two_r == unit && n % 2 == 1 {
        n = n + 1;
    }
    assert(n == spec_round_hundredths(b as int, unit as int));
    let whole = n / 100;
    let frac = n % 100;
    let mut s = u64_to_dec(whole);
    let dot = ".";
    proof {
        reveal_strlit(".");
        reveal_strlit("0");
    }
    s.append(dot);
    if frac < 10 {
        s.append("0");
    }
    let f = u64_to_dec(frac);
    s.append(f.as_str());
    s.append(suffix);
    assert(s@ =~= spec_scaled(b as int, unit as int) + suffix@);
    s
}

/// Formats a byte count for a listing.
pub fn human_size(bytes: u64) -> (r: String)
    ensures
        r@ == spec_human_size(bytes as int),
{
    if bytes >= GB {
        scaled(bytes, GB, " GB")
    } else if bytes >= MB {
        scaled(bytes, MB, " MB")
    } else if bytes >= KB {
        scaled(bytes, KB, " KB")
    } else {
        let mut s = u64_to_dec(bytes);
        let suffix = " B";
        s.append(suffix);
        s
    }
}

/// Recovers the text of stored path bytes.
///
/// Relies on String::from_utf8: it succeeds exactly on valid UTF-8 input and
/// keeps the bytes as they are.
#[verifier::external_body]
pub fn bytes_to_string(v: &[u8]) -> (r: Option<String>)
    ensures
        r is Some <==> valid_utf8(v@),
        r matches Some(s) ==> encode_utf8(s@) == v@,
{
    String::from_utf8(v.to_vec()).ok()
}

} // verus!
