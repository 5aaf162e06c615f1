//! Sizes in bytes, for people to read.

use vstd::prelude::*;
use crate::text::push_decimal;
use crate::text::push_two_digits;

verus! {

pub const KB: u64 = 1024;

pub const MB: u64 = 1024 * 1024;

pub const GB: u64 = 1024 * 1024 * 1024;

pub const TB: u64 = 1024 * 1024 * 1024 * 1024;

/// The integers below this one are double-precision numbers.
pub const EXACT: u128 = 0x20_0000_0000_0000;

/// `n / d` rounded to an integer, halves to the even neighbour.
pub open spec fn round_half_even(n: nat, d: nat) -> nat {
    let q = n / d;
    let r = n % d;
    if 2 * r < d || (2 * r == d && q % 2 == 0) {
        q
    } else {
        q + 1
    }
}

/// The distance between neighbouring double-precision numbers around `n`.
pub open spec fn spacing(n: nat) -> nat
    decreases n,
{
    if n < EXACT {
        1
    } else {
        2 * spacing(n / 2)
    }
}

/// The double-precision number nearest to `n`.
pub open spec fn nearest_double(n: nat) -> nat {
    round_half_even(n, spacing(n)) * spacing(n)
}

/// `size` in hundredths of `unit`. The size counts with the precision of a double.
pub open spec fn hundredths(size: nat, unit: nat) -> nat {
    round_half_even(nearest_double(size) * 100, unit)
}

/// `size` in `unit`s with two decimals, then `suffix`.
pub open spec fn scaled_text(size: nat, unit: nat, suffix: Seq<char>) -> Seq<char> {
    let h = hundredths(size, unit);
    crate::text::decimal(h / 100) + "."@ + crate::text::two_digits(h % 100) + suffix
}

/// `size` in the largest unit that it reaches.
pub open spec fn size_text(size: nat) -> Seq<char> {
    if size >= TB {
        scaled_text(size, TB as nat, " TB"@)
    } else if size >= GB {
        scaled_text(size, GB as nat, " GB"@)
    } else if size >= MB {
        scaled_text(size, MB as nat, " MB"@)
    } else if size >= KB {
        scaled_text(size, KB as nat, " KB"@)
    } else {
        crate::text::decimal(size) + " B"@
    }
}

fn round_quotient(n: u128, d: u128) -> (q: u128)
    requires
        0 < d <= 0x1_0000_0000_0000_0000,
        n <= 0x100_0000_0000_0000_0000,
    ensures
        q == round_half_even(n as nat, d as nat),
        q <= n / d + 1,
{
    let q: u128 = n / d;
    let r: u128 = n % d;
    if 2 * r < d || (2 * r == d && q % 2 == 0) {
        q
    } else {
        q + 1
    }
}

fn to_nearest_double(size: u64) -> (number: u128)
    ensures
        number == nearest_double(size as nat),
        number <= 0x2_0000_0000_0000_0000,
{
    let mut rest: u128 = size as u128;
    let mut step: u128 = 1;
    while rest >= EXACT
        invariant
            rest * step <= size,
            spacing(size as nat) == step * spacing(rest as nat),
            1 <= step <= 4096,
            rest < 0x1_0000_0000_0000_0000,
        decreases rest,
    {
        assert(step < 2048) by (nonlinear_arith)
            requires
                rest * step <= size,
                size <= 0xffff_ffff_ffff_ffff,
                rest >= 0x20_0000_0000_0000u128,
        ;
        assert((rest / 2) * (step * 2) <= rest * step) by (nonlinear_arith)
            requires
                rest >= 0,
                step >= 1,
        ;
        assert(step * (2 * spacing((rest / 2) as nat)) == (step * 2) * spacing((rest / 2) as nat))
            by (nonlinear_arith);
        rest = rest / 2;
        step = step * 2;
    }
    assert(spacing(rest as nat) == 1);
    assert(spacing(size as nat) == step) by (nonlinear_arith)
        requires
            spacing(size as nat) == step * spacing(rest as nat),
            spacing(rest as nat) == 1,
    ;
    let count: u128 = round_quotient(size as u128, step);
    assert(count * step <= size + step) by (nonlinear_arith)
        requires
            count <= size as u128 / step + 1,
            step >= 1,
    ;
    count * step
}

fn push_scaled(text: &mut String, size: u64, unit: u64, suffix: &str)
    requires
        unit > 0,
    ensures
        final(text)@ == old(text)@ + scaled_text(size as nat, unit as nat, suffix@),
{
    let number: u128 = to_nearest_double(size);
    let h: u128 = round_quotient(number * 100, unit as u128);
    push_decimal(text, h / 100);
    text.append(".");
    push_two_digits(text, (h % 100) as u32);
    text.append(suffix);
    assert(text@ =~= old(text)@ + scaled_text(size as nat, unit as nat, suffix@));
}

/// Writes `size` in the largest unit that it reaches, with two decimals from
/// kilobytes on.
pub fn format_size(size: u64) -> (text: String)
    ensures
        text@ == size_text(size as nat),
{
    let mut text = String::new();
    if size >= TB {
        push_scaled(&mut text, size, TB, " TB");
    } else if size >= GB {
        push_scaled(&mut text, size, GB, " GB");
    } else if size >= MB {
        push_scaled(&mut text, size, MB, " MB");
    } else if size >= KB {
        push_scaled(&mut text, size, KB, " KB");
    } else {
        push_decimal(&mut text, size as u128);
        text.append(" B");
    }
    assert(text@ =~= size_text(size as nat));
    text
}

} // verus!
