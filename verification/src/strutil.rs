//! Small text helpers for human-readable counts.
use vstd::prelude::*;

verus! {

use crate::common::hex_digit_char;
use crate::common::hex_digit_str;

/// Pick the singular or the plural word for a count.
pub fn pluralise<'a>(num: i32, singular_name: &'a str, plural_name: &'a str) -> (r: &'a str)
    ensures
        r@ == (if num == 1 {
            singular_name@
        } else {
            plural_name@
        }),
{
    if num == 1 {
        singular_name
    } else {
        plural_name
    }
}

/// The decimal digits of a nonnegative number.
pub open spec fn dec_chars(n: int) -> Seq<char>
    decreases n,
{
    if n < 10 {
        seq![hex_digit_char(if n < 0 {
            0
        } else {
            n
        })]
    } else {
        dec_chars(n / 10).push(hex_digit_char(n % 10))
    }
}

/// A number rendered in decimal, with a leading minus when negative.
pub open spec fn int_chars(n: int) -> Seq<char> {
    if n < 0 {
        seq!['-'] + dec_chars(-n)
    } else {
        dec_chars(n)
    }
}

/// Append the decimal digits of a value.
fn push_u32_decimal(s: &mut String, v: u32)
    ensures
        final(s)@ == old(s)@ + dec_chars(v as int),
    decreases v,
{
    if v < 10 {
        s.append(hex_digit_str(v as u8));
    } else {
        push_u32_decimal(s, v / 10);
        s.append(hex_digit_str((v % 10) as u8));
        proof {
            assert(s@ =~= old(s)@ + dec_chars(v as int));
        }
    }
}

/// Format a count followed by its singular or plural word.
pub fn n_pluralise<'a>(num: i32, singular_name: &'a str, plural_name: &'a str) -> (r: String)
    ensures
        r@ == int_chars(num as int) + seq![' '] + (if num == 1 {
            singular_name@
        } else {
            plural_name@
        }),
{
    let mut s = String::new();
    if num < 0 {
        proof {
            reveal_strlit("-");
        }
        s.append("-");
        let mag = (-(num as i64)) as u32;
        push_u32_decimal(&mut s, mag);
    } else {
        push_u32_decimal(&mut s, num as u32);
    }
    proof {
        reveal_strlit(" ");
    }
    s.append(" ");
    s.append(pluralise(num, singular_name, plural_name));
    proof {
        assert(s@ =~= int_chars(num as int) + seq![' '] + (if num == 1 {
            singular_name@
        } else {
            plural_name@
        }));
    }
    s
}

/// Format a byte count.
pub fn n_bytes_pluralise(num: i32) -> (r: String)
    ensures
        r@ == int_chars(num as int) + seq![' '] + (if num == 1 {
            "byte"@
        } else {
            "bytes"@
        }),
{
    n_pluralise(num, "byte", "bytes")
}

} // verus!
