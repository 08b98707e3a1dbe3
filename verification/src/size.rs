//! Human-readable byte sizes.
//!
//! A size is scaled by powers of 1024 the way a binary64 value would be:
//! the byte count is first rounded to the nearest representable binary64
//! value (ties to even), then divided by 1024 while it stays at or above
//! 1024 (at most up to TB), and finally shown with one decimal, rounded to
//! nearest with ties to even.  Everything is computed exactly on integers.
use vstd::prelude::*;
use crate::text::{decimal, digit, digit_char, push_char, push_decimal};

verus! {

pub open spec fn two_pow_53() -> nat {
    0x20_0000_0000_0000
}

/// Spacing of binary64 values around `n` (1 below 2^53, doubling per binade).
pub open spec fn ulp_of(n: nat) -> nat
    decreases n,
{
    if n < two_pow_53() {
        1
    } else {
        2 * ulp_of(n / 2)
    }
}

/// `num / den` rounded to the nearest integer, ties to even.
pub open spec fn round_half_even(num: nat, den: nat) -> nat
    recommends
        den > 0,
{
    let q = num / den;
    let r = num % den;
    if 2 * r > den || (2 * r == den && q % 2 == 1) {
        q + 1
    } else {
        q
    }
}

/// The binary64 value nearest to `n` (ties to even).
pub open spec fn as_binary64(n: nat) -> nat {
    round_half_even(n, ulp_of(n)) * ulp_of(n)
}

pub open spec fn pow1024(k: nat) -> nat
    decreases k,
{
    if k == 0 {
        1
    } else {
        1024 * pow1024((k - 1) as nat)
    }
}

/// Number of divisions by 1024 applied to `s`, starting from step `k`:
/// continue while the scaled value is at least 1024 and a larger unit exists.
pub open spec fn unit_steps(s: nat, k: nat) -> nat
    decreases 4 - k,
{
    if k < 4 && s >= 1024 * pow1024(k) {
        unit_steps(s, k + 1)
    } else {
        k
    }
}

pub open spec fn unit_name(k: nat) -> Seq<char> {
    if k == 0 {
        seq!['B']
    } else if k == 1 {
        seq!['K', 'B']
    } else if k == 2 {
        seq!['M', 'B']
    } else if k == 3 {
        seq!['G', 'B']
    } else {
        seq!['T', 'B']
    }
}

/// A count of tenths shown with one decimal, e.g. 12 as `1.2`.
pub open spec fn tenths_text(t: nat) -> Seq<char> {
    decimal(t / 10).push('.').push(digit_char(t % 10))
}

/// The readable form of `size`: plain bytes below 1 KB, otherwise one
/// decimal in the largest unit (up to TB) that keeps the value at least 1.
pub open spec fn human_size_text(size: nat) -> Seq<char> {
    let s = as_binary64(size);
    let k = unit_steps(s, 0);
    if k == 0 {
        decimal(s) + unit_name(0)
    } else {
        tenths_text(round_half_even(10 * s, pow1024(k))) + unit_name(k)
    }
}

/// Rounds `size` to the nearest binary64 value.
pub fn binary64_value(size: u64) -> (s: u128)
    ensures
        s == as_binary64(size as nat),
        s <= 0x2_0000_0000_0000_0000,
{
    let mut m: u64 = size;
    let mut u: u64 = 1;
    while m >= 0x20_0000_0000_0000
        invariant
            ulp_of(size as nat) == u * ulp_of(m as nat),
            u * m <= size,
            1 <= u < 0x1000,
        decreases m,
    {
        assert(ulp_of(m as nat) == 2 * ulp_of((m / 2) as nat));
        assert(u * ulp_of(m as nat) == (2 * u) * ulp_of((m / 2) as nat)) by (nonlinear_arith)
            requires
                ulp_of(m as nat) == 2 * ulp_of((m / 2) as nat),
        ;
        assert((2 * u) * (m / 2) <= u * m) by (nonlinear_arith)
            requires
                u >= 1,
        ;
        assert(u < 0x800) by (nonlinear_arith)
            requires
                u * m <= size,
                m >= 0x20_0000_0000_0000,
                size < 0x1_0000_0000_0000_0000,
        ;
        m = m / 2;
        u = u * 2;
    }
    assert(ulp_of(m as nat) == 1);
    assert(ulp_of(size as nat) == u) by (nonlinear_arith)
        requires
            ulp_of(size as nat) == u * ulp_of(m as nat),
            ulp_of(m as nat) == 1,
    ;
    let q = size / u;
    let r = size % u;
    let up = 2 * (r as u128) > u as u128 || (2 * (r as u128) == u as u128 && q % 2 == 1);
    let rounded: u128 = if up {
        (q as u128) + 1
    } else {
        q as u128
    };
    assert(rounded * u <= 0x2_0000_0000_0000_0000) by (nonlinear_arith)
        requires
            rounded <= q + 1,
            q == size / u,
            1 <= u < 0x1000,
            size < 0x1_0000_0000_0000_0000,
    {
        assert(q * u <= size);
        assert(rounded * u <= q * u + u);
    }
    rounded * (u as u128)
}

/// Largest unit step for the binary64 value `s`, and its divisor.
pub(crate) fn unit_for(s: u128) -> (r: (usize, u128))
    requires
        s <= 0x2_0000_0000_0000_0000,
    ensures
        r.0 == unit_steps(s as nat, 0),
        r.1 == pow1024(r.0 as nat),
        r.0 <= 4,
        1 <= r.1 <= 0x100_0000_0000,
{
    let mut k: usize = 0;
    let mut d: u128 = 1;
    assert(pow1024(0) == 1);
    proof {
        reveal_with_fuel(pow1024, 5);
    }
    while k < 4 && s >= 1024 * d
        invariant
            k <= 4,
            d == pow1024(k as nat),
            k == 0 ==> d == 1,
            k == 1 ==> d == 0x400,
            k == 2 ==> d == 0x10_0000,
            k == 3 ==> d == 0x4000_0000,
            k == 4 ==> d == 0x100_0000_0000,
            unit_steps(s as nat, 0) == unit_steps(s as nat, k as nat),
        decreases 4 - k,
    {
        assert(pow1024((k + 1) as nat) == 1024 * pow1024(k as nat));
        d = d * 1024;
        k = k + 1;
    }
    (k, d)
}

pub fn push_unit(out: &mut String, k: usize)
    requires
        k <= 4,
    ensures
        final(out)@ == old(out)@ + unit_name(k as nat),
{
    let ghost start = out@;
    if k == 1 {
        push_char(out, 'K');
    } else if k == 2 {
        push_char(out, 'M');
    } else if k == 3 {
        push_char(out, 'G');
    } else if k == 4 {
        push_char(out, 'T');
    }
    push_char(out, 'B');
    assert(out@ =~= start + unit_name(k as nat));
}

/// `num / den` rounded to nearest, ties to even.
pub fn divide_rounded(num: u128, den: u128) -> (q: u128)
    requires
        0 < den <= 0x1_0000_0000_0000_0000_0000_0000,
        num < 0x1_0000_0000_0000_0000_0000_0000_0000,
    ensures
        q == round_half_even(num as nat, den as nat),
{
    let q = num / den;
    let r = num % den;
    if 2 * r > den || (2 * r == den && q % 2 == 1) {
        q + 1
    } else {
        q
    }
}

/// The readable form of a byte count: `1023B`, `1.0KB`, `2.5MB`, ...
pub fn human_size(size: u64) -> (text: String)
    ensures
        text@ == human_size_text(size as nat),
{
    let s = binary64_value(size);
    let (k, d) = unit_for(s);
    let mut text = String::new();
    if k == 0 {
        push_decimal(&mut text, s);
        push_unit(&mut text, 0);
    } else {
        let t = divide_rounded(10 * s, d);
        push_decimal(&mut text, t / 10);
        push_char(&mut text, '.');
        let c = digit(t % 10);
        push_char(&mut text, c);
        push_unit(&mut text, k);
        assert(text@ =~= human_size_text(size as nat));
    }
    text
}

} // verus!
