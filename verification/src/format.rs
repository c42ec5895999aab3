//! Byte counts in words a person reads: a count in bytes, or with two
//! decimals in units of 1024, 1024² or 1024³ bytes.

use vstd::arithmetic::div_mod::lemma_div_denominator;
use vstd::prelude::*;
use vstd::string::StringExecFns;

verus! {

/// Bytes in a kilobyte.
pub const KB: u64 = 1024;

/// Bytes in a megabyte.
pub const MB: u64 = 1_048_576;

/// Bytes in a gigabyte.
pub const GB: u64 = 1_073_741_824;

/// The first count that a double-precision number cannot hold for
/// certain: two to the power 53.
pub const EXACT_LIMIT: u64 = 0x20_0000_0000_0000;

/// The quotient `n / d` rounded to the nearest whole number, and to the
/// even one of the two where it lies halfway.
pub open spec fn round_half_even(n: nat, d: nat) -> nat {
    let q = n / d;
    let r = n % d;
    if 2 * r > d || (2 * r == d && q % 2 == 1) {
        q + 1
    } else {
        q
    }
}

/// The distance between neighbouring double-precision numbers at `x`:
/// one below two to the power 53, and doubled with each further bit.
pub open spec fn spacing(x: nat) -> nat
    decreases x,
{
    if x < EXACT_LIMIT {
        1
    } else {
        2 * spacing(x / 2)
    }
}

/// The double-precision number nearest to `x`, the one with the even
/// significand where two are equally near. The units are divided in
/// double precision, so a count above two to the power 53 is rounded
/// before it is divided.
pub open spec fn nearest_double(x: nat) -> nat {
    round_half_even(x, spacing(x)) * spacing(x)
}

/// A byte count in hundredths of `unit`, rounded half to even.
pub open spec fn hundredths(bytes: u64, unit: u64) -> nat {
    round_half_even(100 * nearest_double(bytes as nat), unit as nat)
}

/// The character of a decimal digit.
pub open spec fn digit_char(d: nat) -> char {
    (48 + d) as char
}

/// A number in decimal digits, without leading zeros.
pub open spec fn decimal(n: nat) -> Seq<char>
    decreases n,
{
    if n < 10 {
        seq![digit_char(n)]
    } else {
        decimal(n / 10).push(digit_char(n % 10))
    }
}

/// A count of hundredths as a number with two decimals.
pub open spec fn two_decimals(h: nat) -> Seq<char> {
    decimal(h / 100) + seq!['.', digit_char((h % 100) / 10), digit_char(h % 10)]
}

/// A byte count in words: in the largest of the units GB, MB and KB that
/// it reaches, with two decimals, or else in bytes.
pub open spec fn formatted_bytes(bytes: u64) -> Seq<char> {
    if bytes >= GB {
        two_decimals(hundredths(bytes, GB)) + " GB"@
    } else if bytes >= MB {
        two_decimals(hundredths(bytes, MB)) + " MB"@
    } else if bytes >= KB {
        two_decimals(hundredths(bytes, KB)) + " KB"@
    } else {
        decimal(bytes as nat) + " B"@
    }
}

/// Divides and rounds to the nearest whole number, half to even.
fn divide_half_even(n: u128, d: u128) -> (q: u128)
    requires
        0 < d <= 0x1_0000_0000,
        n <= 0x1000_0000_0000_0000_0000,
    ensures
        q == round_half_even(n as nat, d as nat),
{
    let q = n / d;
    let r = n % d;
    if 2 * r > d || (2 * r == d && q % 2 == 1) {
        q + 1
    } else {
        q
    }
}

/// Rounds a count to the nearest double-precision number.
fn round_to_double(bytes: u64) -> (v: u128)
    ensures
        v == nearest_double(bytes as nat),
        v <= 0x1_0000_0000_0000_1000,
{
    let x: u128 = bytes as u128;
    let mut unit: u128 = 1;
    let mut scaled: u128 = x;
    while scaled >= EXACT_LIMIT as u128
        invariant
            x == bytes,
            1 <= unit < 4096,
            scaled == x / unit,
            unit * scaled <= x,
            spacing(x as nat) == unit * spacing(scaled as nat),
        decreases scaled,
    {
        proof {
            lemma_div_denominator(x as int, unit as int, 2);
            assert(unit < 2048) by (nonlinear_arith)
                requires
                    unit * scaled <= x,
                    x < 0x1_0000_0000_0000_0000,
                    scaled >= 0x20_0000_0000_0000,
            ;
            assert((unit * 2) * (scaled / 2) <= unit * scaled) by (nonlinear_arith)
                requires
                    unit >= 1,
            ;
            assert(unit * (2 * spacing((scaled / 2) as nat)) == (unit * 2) * spacing(
                (scaled / 2) as nat,
            )) by (nonlinear_arith);
        }
        unit = unit * 2;
        scaled = scaled / 2;
    }
    proof {
        assert(unit * 1 == unit) by (nonlinear_arith);
    }
    let rounded = divide_half_even(x, unit);
    proof {
        assert(rounded * unit <= 0x1_0000_0000_0000_1000) by (nonlinear_arith)
            requires
                rounded <= scaled + 1,
                1 <= unit < 4096,
                unit * scaled <= x,
                x < 0x1_0000_0000_0000_0000,
        ;
    }
    rounded * unit
}

/// Appends the decimal digits of `n`.
pub(crate) fn push_decimal(out: &mut String, n: u64)
    ensures
        final(out)@ == old(out)@ + decimal(n as nat),
{
    let mut digits: Vec<char> = Vec::new();
    let mut rest = n;
    while rest >= 10
        invariant
            decimal(n as nat) == decimal(rest as nat) + digits@.reverse(),
        decreases rest,
    {
        let digit = digit_of((rest % 10) as u8);
        proof {
            assert(decimal(rest as nat) == decimal((rest / 10) as nat).push(digit));
            assert(decimal((rest / 10) as nat).push(digit) + digits@.reverse() =~= decimal(
                (rest / 10) as nat,
            ) + digits@.push(digit).reverse());
        }
        digits.push(digit);
        rest = rest / 10;
    }
    digits.push(digit_of(rest as u8));
    proof {
        let before = digits@.drop_last();
        assert(decimal(rest as nat) =~= seq![digits@.last()]);
        assert(seq![digits@.last()] + before.reverse() =~= digits@.reverse());
    }
    let ghost start = out@;
    let mut i = digits.len();
    while i > 0
        invariant
            i <= digits.len(),
            out@ == start + digits@.reverse().take(digits.len() - i),
        decreases i,
    {
        i -= 1;
        out.push(digits[i]);
        proof {
            let rev = digits@.reverse();
            assert(rev.take(digits.len() - i) =~= rev.take(digits.len() - i - 1).push(
                digits@[i as int],
            ));
        }
    }
    proof {
        assert(digits@.reverse().take(digits.len() as int) =~= digits@.reverse());
    }
}

/// The character of the decimal digit `d`.
fn digit_of(d: u8) -> (c: char)
    requires
        d < 10,
    ensures
        c == digit_char(d as nat),
{
    (48u8 + d) as char
}

/// Appends a count of hundredths as a number with two decimals.
fn push_two_decimals(out: &mut String, h: u64)
    ensures
        final(out)@ == old(out)@ + two_decimals(h as nat),
{
    push_decimal(out, h / 100);
    out.push('.');
    out.push(digit_of(((h % 100) / 10) as u8));
    out.push(digit_of((h % 10) as u8));
    proof {
        assert(out@ =~= old(out)@ + two_decimals(h as nat));
    }
}

/// Appends a byte count in hundredths of `unit`.
fn push_scaled(out: &mut String, bytes: u64, unit: u64)
    requires
        KB <= unit <= GB,
    ensures
        final(out)@ == old(out)@ + two_decimals(hundredths(bytes, unit)),
{
    let value = round_to_double(bytes);
    let h = divide_half_even(100 * value, unit as u128);
    proof {
        assert(h <= 0xffff_ffff_ffff_ffff) by (nonlinear_arith)
            requires
                h <= (100 * value) as int / (unit as int) + 1,
                value <= 0x1_0000_0000_0000_1000,
                unit >= 1024,
        ;
    }
    push_two_decimals(out, h as u64);
}

/// Writes a byte count in words: `"{n} B"` below 1024 bytes, and above
/// that the count divided by the largest of 1024, 1024² and 1024³ that it
/// reaches, with two decimals, followed by `KB`, `MB` or `GB`.
pub fn format_bytes(bytes: u64) -> (text: String)
    ensures
        text@ == formatted_bytes(bytes),
{
    let mut text = String::new();
    if bytes >= GB {
        push_scaled(&mut text, bytes, GB);
        text.append(" GB");
    } else if bytes >= MB {
        push_scaled(&mut text, bytes, MB);
        text.append(" MB");
    } else if bytes >= KB {
        push_scaled(&mut text, bytes, KB);
        text.append(" KB");
    } else {
        push_decimal(&mut text, bytes);
        text.append(" B");
    }
    proof {
        assert(text@ =~= formatted_bytes(bytes));
    }
    text
}

} // verus!
