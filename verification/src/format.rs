//! Amounts of data for people to read.
use vstd::prelude::*;

use crate::text::{decimal, joined, number_text};

verus! {

/// A quotient rounded to the nearest integer, a half to the even one.
pub open spec fn rounded(n: nat, d: nat) -> nat {
    let q = n / d;
    let rest = n % d;
    if 2 * rest > d || (2 * rest == d && q % 2 == 1) {
        q + 1
    } else {
        q
    }
}

/// The distance of neighbouring numbers of 53 significant bits at a number: 1 below
/// 2^53, and twice as much for each further bit.
pub open spec fn spacing(n: nat) -> nat
    decreases n,
{
    if n < 0x20_0000_0000_0000 {
        1
    } else {
        2 * spacing(n / 2)
    }
}

/// A number rounded to 53 significant bits.
pub open spec fn to_53_bits(n: nat) -> nat {
    rounded(n, spacing(n)) * spacing(n)
}

/// A number of tenths with one decimal.
pub open spec fn tenths_text(n: nat) -> Seq<char> {
    decimal(n / 10) + "."@ + decimal(n % 10)
}

/// A number of hundredths with two decimals.
pub open spec fn hundredths_text(n: nat) -> Seq<char> {
    decimal(n / 100) + "."@ + decimal(n % 100 / 10) + decimal(n % 10)
}

/// An amount of data: bytes below a kilobyte, else kilobytes or megabytes with one
/// decimal, else gigabytes with two.
pub open spec fn bytes_text(n: u64) -> Seq<char> {
    if n < 1024 {
        decimal(n as nat) + " B"@
    } else if n < 1_048_576 {
        tenths_text(rounded(n as nat * 10, 1024)) + " KB"@
    } else if n < 1_073_741_824 {
        tenths_text(rounded(n as nat * 10, 1_048_576)) + " MB"@
    } else {
        hundredths_text(rounded(to_53_bits(n as nat) * 100, 1_073_741_824)) + " GB"@
    }
}

/// A quotient rounded to the nearest integer, a half to the even one.
fn round(n: u128, d: u128) -> (r: u128)
    requires
        0 < d <= 0x1_0000_0000_0000_0000,
        n <= 0x1_0000_0000_0000_0000_0000_0000,
    ensures
        r == rounded(n as nat, d as nat),
        r <= n + 1,
{
    let q: u128 = n / d;
    let rest: u128 = n % d;
    assert(q <= n && rest < d) by (nonlinear_arith)
        requires
            q == n / d,
            rest == n % d,
            d > 0,
    ;
    if 2 * rest > d || (2 * rest == d && q % 2 == 1) {
        q + 1
    } else {
        q
    }
}

/// The distance of neighbouring numbers of 53 significant bits at a number.
fn space(n: u64) -> (r: u64)
    ensures
        r == spacing(n as nat),
        r == 1 || (1 < r && r * 0x10_0000_0000_0000 <= n),
    decreases n,
{
    if n < 0x20_0000_0000_0000 {
        1
    } else {
        2 * space(n / 2)
    }
}

/// A number rounded to 53 significant bits.
fn round_to_53_bits(n: u64) -> (r: u128)
    ensures
        r == to_53_bits(n as nat),
        r <= 0x2_0000_0000_0000_0000,
{
    let s: u64 = space(n);
    let q: u128 = round(n as u128, s as u128);
    assert(q * s <= 0x2_0000_0000_0000_0000) by {
        let whole = n as nat / s as nat;
        assert(q <= whole + 1);
        assert(whole * s <= n && s <= 4096) by (nonlinear_arith)
            requires
                whole == n as nat / s as nat,
                s == 1 || (1 < s && s * 0x10_0000_0000_0000 <= n),
                n <= 0xffff_ffff_ffff_ffff,
        ;
        assert(q * s <= whole * s + s) by (nonlinear_arith)
            requires
                q <= whole + 1,
        ;
    }
    q * (s as u128)
}

/// A number of tenths with one decimal.
fn text_of_tenths(n: u64) -> (r: String)
    ensures
        r@ == tenths_text(n as nat),
{
    let mut text = number_text(n / 10);
    text.append(".");
    text.append(number_text(n % 10).as_str());
    text
}

/// A number of hundredths with two decimals.
fn text_of_hundredths(n: u64) -> (r: String)
    ensures
        r@ == hundredths_text(n as nat),
{
    let mut text = number_text(n / 100);
    text.append(".");
    text.append(number_text(n % 100 / 10).as_str());
    text.append(number_text(n % 10).as_str());
    text
}

/// An amount of data: bytes below a kilobyte, else kilobytes or megabytes with one
/// decimal, else gigabytes with two. Decimals are rounded to the nearest, a half to
/// the even digit, and gigabytes are those of the amount as a number of 53
/// significant bits.
pub fn fmt_bytes(n: u64) -> (r: String)
    ensures
        r@ == bytes_text(n),
{
    if n < 1024 {
        return joined(number_text(n).as_str(), " B");
    }
    if n < 1_048_576 {
        let tenths: u128 = round(n as u128 * 10, 1024);
        return joined(text_of_tenths(tenths as u64).as_str(), " KB");
    }
    if n < 1_073_741_824 {
        let tenths: u128 = round(n as u128 * 10, 1_048_576);
        return joined(text_of_tenths(tenths as u64).as_str(), " MB");
    }
    let hundredths: u128 = round(round_to_53_bits(n) * 100, 1_073_741_824);
    assert(hundredths <= 0xffff_ffff_ffff_ffff);
    joined(text_of_hundredths(hundredths as u64).as_str(), " GB")
}

/// A speed, given in bytes per second.
pub fn fmt_speed(n: u64) -> (r: String)
    ensures
        r@ == bytes_text(n) + "/s"@,
{
    joined(fmt_bytes(n).as_str(), "/s")
}

} // verus!
