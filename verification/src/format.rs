//! Human-readable file sizes, computed without floating point.
//!
//! A size is shown in the largest binary unit it reaches, with one
//! decimal digit, ties rounded to the even tenth as decimal float
//! formatting does: `"1.5 KB"`, `"1.0 MB"`, `"512 B"`.

use vstd::prelude::*;

verus! {

/// Bytes in a kibibyte.
pub const KB: u64 = 1024;

/// Bytes in a mebibyte.
pub const MB: u64 = 1048576;

/// Bytes in a gibibyte.
pub const GB: u64 = 1073741824;

/// The decimal digit character for a value below ten.
pub open spec fn dec_digit(d: int) -> char {
    if d == 0 {
        '0'
    } else if d == 1 {
        '1'
    } else if d == 2 {
        '2'
    } else if d == 3 {
        '3'
    } else if d == 4 {
        '4'
    } else if d == 5 {
        '5'
    } else if d == 6 {
        '6'
    } else if d == 7 {
        '7'
    } else if d == 8 {
        '8'
    } else {
        '9'
    }
}

/// The decimal text of a non-negative number, most significant digit
/// first.
pub open spec fn dec_digits(n: int) -> Seq<char>
    decreases n,
    when n >= 0
{
    if n < 10 {
        seq![dec_digit(n)]
    } else {
        dec_digits(n / 10).push(dec_digit(n % 10))
    }
}

/// The number of tenths of `unit` that `bytes` makes, rounded to the
/// nearest, ties to the even tenth.
pub open spec fn tenths_of(bytes: u64, unit: u64) -> int {
    let q = (bytes * 10) / (unit as int);
    let r = (bytes * 10) % (unit as int);
    if 2 * r > unit || (2 * r == unit && q % 2 == 1) {
        q + 1
    } else {
        q
    }
}

/// A scaled size: whole part, a point, one tenths digit, and the unit's
/// suffix.
pub open spec fn scaled_text(bytes: u64, unit: u64, suffix: Seq<char>) -> Seq<char> {
    let t = tenths_of(bytes, unit);
    dec_digits(t / 10) + seq!['.', dec_digit(t % 10)] + suffix
}

/// What `format_size` prints: the size in the largest unit it reaches.
pub open spec fn spec_format_size(bytes: u64) -> Seq<char> {
    if bytes >= GB {
        scaled_text(bytes, GB, " GB"@)
    } else if bytes >= MB {
        scaled_text(bytes, MB, " MB"@)
    } else if bytes >= KB {
        scaled_text(bytes, KB, " KB"@)
    } else {
        dec_digits(bytes as int) + " B"@
    }
}

/// The one-character text of a decimal digit.
fn digit_str(d: u64) -> (r: &'static str)
    requires
        d < 10,
    ensures
        r@ == seq![dec_digit(d as int)],
{
    proof {
        reveal_strlit("0");
        reveal_strlit("1");
        reveal_strlit("2");
        reveal_strlit("3");
        reveal_strlit("4");
        reveal_strlit("5");
        reveal_strlit("6");
        reveal_strlit("7");
        reveal_strlit("8");
        reveal_strlit("9");
    }
    let r = if d == 0 {
        "0"
    } else if d == 1 {
        "1"
    } else if d == 2 {
        "2"
    } else if d == 3 {
        "3"
    } else if d == 4 {
        "4"
    } else if d == 5 {
        "5"
    } else if d == 6 {
        "6"
    } else if d == 7 {
        "7"
    } else if d == 8 {
        "8"
    } else {
        "9"
    };
    proof {
        assert(r@ =~= seq![dec_digit(d as int)]);
    }
    r
}

/// The decimal text of a number.
pub fn u64_to_string(n: u64) -> (r: String)
    ensures
        r@ == dec_digits(n as int),
    decreases n,
{
    if n < 10 {
        String::from_str(digit_str(n))
    } else {
        let mut s = u64_to_string(n / 10);
        s.append(digit_str(n % 10));
        proof {
            assert(s@ =~= dec_digits(n as int));
        }
        s
    }
}

/// The size scaled to `unit` with one rounded decimal digit, suffixed.
fn format_scaled(bytes: u64, unit: u64, suffix: &str) -> (r: String)
    requires
        1024 <= unit,
    ensures
        r@ == scaled_text(bytes, unit, suffix@),
{
    let b10: u128 = (bytes as u128) * 10;
    let q128: u128 = b10 / (unit as u128);
    let r128: u128 = b10 % (unit as u128);
    proof {
        let nn: int = (bytes as int) * 10;
        assert(nn <= 10 * 0xffffffffffffffffu64);
        vstd::arithmetic::div_mod::lemma_div_is_ordered_by_denominator(nn, 1024, unit as int);
        vstd::arithmetic::div_mod::lemma_div_is_ordered(nn, 10 * 0xffffffffffffffffu64, 1024);
        assert(q128 == nn / (unit as int));
        assert(q128 < u64::MAX);
        assert(r128 == nn % (unit as int));
        vstd::arithmetic::div_mod::lemma_mod_bound(nn, unit as int);
    }
    let q = q128 as u64;
    let t: u64 = if 2 * r128 > unit as u128 || (2 * r128 == unit as u128 && q % 2 == 1) {
        q + 1
    } else {
        q
    };
    proof {
        assert(t == tenths_of(bytes, unit));
    }
    let mut s = u64_to_string(t / 10);
    s.append(".");
    s.append(digit_str(t % 10));
    s.append(suffix);
    proof {
        reveal_strlit(".");
        assert(s@ =~= scaled_text(bytes, unit, suffix@));
    }
    s
}

/// The size as text in the largest binary unit it reaches, with one
/// decimal digit, ties rounded to even; plain bytes below one kibibyte.
pub fn format_size(bytes: u64) -> (r: String)
    ensures
        r@ == spec_format_size(bytes),
{
    if bytes >= GB {
        format_scaled(bytes, GB, " GB")
    } else if bytes >= MB {
        format_scaled(bytes, MB, " MB")
    } else if bytes >= KB {
        format_scaled(bytes, KB, " KB")
    } else {
        let mut s = u64_to_string(bytes);
        s.append(" B");
        proof {
            assert(s@ =~= spec_format_size(bytes));
        }
        s
    }
}

} // verus!
