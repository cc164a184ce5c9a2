//! Decimal rendering of integers, the `u64 → f64` conversion, and fixed-point
//! rendering of a quotient with round-half-to-even ties — enough to print the
//! values the panels compute in floating point, exactly, from integers.

use vstd::prelude::*;

verus! {

/// The ASCII digit for `d < 10`.
pub open spec fn digit_char(d: nat) -> char {
    if d == 0 {
        '0'
    } else if d == 1 {
        '1'
    } else if d == 2 {
        '2'
    } else if d == 3 {
        '3'
    } else if d == 4 {
        '4'
    } else if d == 5 {
        '5'
    } else if d == 6 {
        '6'
    } else if d == 7 {
        '7'
    } else if d == 8 {
        '8'
    } else {
        '9'
    }
}

/// The decimal digits of `n`, without leading zeros (`"0"` for zero).
pub open spec fn dec(n: nat) -> Seq<char>
    decreases n,
{
    if n < 10 {
        seq![digit_char(n)]
    } else {
        dec(n / 10).push(digit_char(n % 10))
    }
}

fn digit_char_exec(d: u128) -> (c: char)
    requires
        d < 10,
    ensures
        c == digit_char(d as nat),
{
    if d == 0 {
        '0'
    } else if d == 1 {
        '1'
    } else if d == 2 {
        '2'
    } else if d == 3 {
        '3'
    } else if d == 4 {
        '4'
    } else if d == 5 {
        '5'
    } else if d == 6 {
        '6'
    } else if d == 7 {
        '7'
    } else if d == 8 {
        '8'
    } else {
        '9'
    }
}

/// The decimal digits of `n`.
pub fn dec_exec(n: u128) -> (v: Vec<char>)
    ensures
        v@ == dec(n as nat),
    decreases n,
{
    if n < 10 {
        let mut v: Vec<char> = Vec::new();
        v.push(digit_char_exec(n));
        v
    } else {
        let mut v = dec_exec(n / 10);
        v.push(digit_char_exec(n % 10));
        v
    }
}

/// The upper-case hexadecimal digit for `d < 16`.
pub open spec fn hex_digit_char(d: nat) -> char {
    if d < 10 {
        digit_char(d)
    } else if d == 10 {
        'A'
    } else if d == 11 {
        'B'
    } else if d == 12 {
        'C'
    } else if d == 13 {
        'D'
    } else if d == 14 {
        'E'
    } else {
        'F'
    }
}

/// The upper-case hexadecimal digits of `n`, without leading zeros (`{:X}`).
pub open spec fn hex(n: nat) -> Seq<char>
    decreases n,
{
    if n < 16 {
        seq![hex_digit_char(n)]
    } else {
        hex(n / 16).push(hex_digit_char(n % 16))
    }
}

fn hex_digit_char_exec(d: u64) -> (c: char)
    requires
        d < 16,
    ensures
        c == hex_digit_char(d as nat),
{
    if d < 10 {
        digit_char_exec(d as u128)
    } else if d == 10 {
        'A'
    } else if d == 11 {
        'B'
    } else if d == 12 {
        'C'
    } else if d == 13 {
        'D'
    } else if d == 14 {
        'E'
    } else {
        'F'
    }
}

/// The upper-case hexadecimal digits of `n`.
pub fn hex_exec(n: u64) -> (v: Vec<char>)
    ensures
        v@ == hex(n as nat),
    decreases n,
{
    if n < 16 {
        let mut v: Vec<char> = Vec::new();
        v.push(hex_digit_char_exec(n));
        v
    } else {
        let mut v = hex_exec(n / 16);
        v.push(hex_digit_char_exec(n % 16));
        v
    }
}

/// Rounds `n` to a multiple of `u`, ties to the even multiple.
pub open spec fn round_half_even(n: nat, u: nat) -> nat {
    if u == 0 {
        n
    } else {
        let q = n / u;
        let r = n % u;
        if 2 * r > u || (2 * r == u && q % 2 == 1) {
            (q + 1) * u
        } else {
            q * u
        }
    }
}

/// The spacing of the doubles around `n < 2^64`: 1 below 2^53, doubling with
/// each further binary order of magnitude.
pub open spec fn f64_spacing(n: nat) -> nat {
    if n < 0x20_0000_0000_0000 {
        1
    } else if n < 0x40_0000_0000_0000 {
        2
    } else if n < 0x80_0000_0000_0000 {
        4
    } else if n < 0x100_0000_0000_0000 {
        8
    } else if n < 0x200_0000_0000_0000 {
        16
    } else if n < 0x400_0000_0000_0000 {
        32
    } else if n < 0x800_0000_0000_0000 {
        64
    } else if n < 0x1000_0000_0000_0000 {
        128
    } else if n < 0x2000_0000_0000_0000 {
        256
    } else if n < 0x4000_0000_0000_0000 {
        512
    } else if n < 0x8000_0000_0000_0000 {
        1024
    } else {
        2048
    }
}

/// The value of `n as f64` for `n: u64`: the nearest double, ties to even.
pub open spec fn f64_of_u64(n: nat) -> nat {
    round_half_even(n, f64_spacing(n))
}

/// `n as f64`, as the integer it equals.
pub fn f64_of_u64_exec(n: u64) -> (v: u128)
    ensures
        v as nat == f64_of_u64(n as nat),
        v <= 0x2_0000_0000_0000_0000,
{
    let u: u128 = if n < 0x20_0000_0000_0000 {
        1
    } else if n < 0x40_0000_0000_0000 {
        2
    } else if n < 0x80_0000_0000_0000 {
        4
    } else if n < 0x100_0000_0000_0000 {
        8
    } else if n < 0x200_0000_0000_0000 {
        16
    } else if n < 0x400_0000_0000_0000 {
        32
    } else if n < 0x800_0000_0000_0000 {
        64
    } else if n < 0x1000_0000_0000_0000 {
        128
    } else if n < 0x2000_0000_0000_0000 {
        256
    } else if n < 0x4000_0000_0000_0000 {
        512
    } else if n < 0x8000_0000_0000_0000 {
        1024
    } else {
        2048
    };
    let n128 = n as u128;
    let q = n128 / u;
    let r = n128 % u;
    assert(q <= n128) by (nonlinear_arith)
        requires
            u >= 1,
            q == n128 / u,
    ;
    if 2 * r > u || (2 * r == u && q % 2 == 1) {
        assert((q + 1) * u <= n128 + u) by (nonlinear_arith)
            requires
                u >= 1,
                q == n128 / u,
                r == n128 % u,
        ;
        (q + 1) * u
    } else {
        assert(q * u <= n128) by (nonlinear_arith)
            requires
                u >= 1,
                q == n128 / u,
                r == n128 % u,
        ;
        q * u
    }
}

/// `num / den` rounded to tenths (ties to even), counted in tenths.
pub open spec fn tenths_half_even(num: nat, den: nat) -> nat {
    round_half_even(num * 10, den) / den
}

/// `t` tenths written as `<units>.<tenth>`.
pub open spec fn fixed1(t: nat) -> Seq<char> {
    dec(t / 10).push('.').push(digit_char(t % 10))
}

/// `num / den` (with `den > 0`) rendered with one decimal, ties to even —
/// what `format!("{:.1}", x)` prints for a double `x` that equals `num / den`.
pub fn fixed1_of_quotient(num: u128, den: u128) -> (v: Vec<char>)
    requires
        den > 0,
        num <= 0x2_0000_0000_0000_0000,
        den <= 0x1_0000_0000_0000_0000,
    ensures
        v@ == fixed1(tenths_half_even(num as nat, den as nat)),
{
    let t = num * 10;
    let q = t / den;
    let r = t % den;
    assert(q <= t) by (nonlinear_arith)
        requires
            den >= 1,
            q == t / den,
    ;
    let tenths = if 2 * r > den || (2 * r == den && q % 2 == 1) {
        q + 1
    } else {
        q
    };
    proof {
        let rounded = round_half_even((num * 10) as nat, den as nat);
        if 2 * r > den || (2 * r == den && q % 2 == 1) {
            assert(rounded == (q + 1) * den);
            assert(((q + 1) * den) / (den as int) == q + 1) by (nonlinear_arith)
                requires
                    den > 0,
            ;
        } else {
            assert(rounded == q * den);
            assert((q * den) / (den as int) == q) by (nonlinear_arith)
                requires
                    den > 0,
            ;
        }
    }
    let mut v = dec_exec(tenths / 10);
    v.push('.');
    v.push(digit_char_exec(tenths % 10));
    v
}

} // verus!
