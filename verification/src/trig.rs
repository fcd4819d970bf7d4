use vstd::prelude::*;

verus! {

/// Fixed-point one: the value 1.0 in Q15 units.
pub const Q15_ONE: u64 = 32768;

/// The constant pi in Q15 units (rounded).
pub const PI_Q15: u64 = 102944;

/// Clamp a non-negative value to an upper bound.
pub open spec fn clamp_hi_spec(x: int, hi: int) -> int {
    if x > hi {
        hi
    } else {
        x
    }
}

/// The Q15 sine of `pi * m / q` for `0 <= m < q`, by the rational
/// approximation `sin(pi x) ~= 16 x (1 - x) / (5 - 4 x (1 - x))`,
/// evaluated in integer arithmetic and clamped to one.
pub open spec fn sin_half_spec(m: int, q: int) -> int {
    let a = m * 32768 / q;
    let u = a * (32768 - a);
    clamp_hi_spec(16 * u * 32768 / (5 * 32768 * 32768 - 4 * u), 32768)
}

/// The Q15 sine of `pi * m / q` for any `m >= 0`: the half-period value,
/// with the period and sign handled by reduction modulo `2 q`.
pub open spec fn sin_pi_spec(m: int, q: int) -> int {
    let r = m % (2 * q);
    if r < q {
        sin_half_spec(r, q)
    } else {
        -sin_half_spec(r - q, q)
    }
}

/// Q15 sine of `pi * m / q` on the first half period (`0 <= m < q`).
pub fn sin_half(m: u64, q: u64) -> (r: u64)
    requires
        1 <= q <= 0x8000000,
        m < q,
    ensures
        r == sin_half_spec(m as int, q as int),
        r <= 32768,
{
    let a: u64 = m * 32768 / q;
    proof {
        assert(m * 32768 <= q * 32768) by (nonlinear_arith)
            requires m <= q,
        ;
        vstd::arithmetic::div_mod::lemma_div_is_ordered((m * 32768) as int, (q * 32768) as int, q as int);
        vstd::arithmetic::div_mod::lemma_div_by_multiple(32768, q as int);
        assert(a <= 32768);
    }
    proof {
        assert(0 <= a as int * (32768 - a as int) && a as int * (32768 - a as int) <= 32768 * 32768)
            by (nonlinear_arith)
            requires
                0 <= a as int,
                a as int <= 32768,
        ;
    }
    let u: u64 = a * (32768 - a);
    let num: u64 = 16 * u * 32768;
    let den: u64 = 5 * 32768 * 32768 - 4 * u;
    let v: u64 = num / den;
    if v > 32768 {
        32768
    } else {
        v
    }
}

/// Q15 sine of `pi * m / q` for any non-negative `m`, reduced by periodicity.
pub fn sin_pi(m: u64, q: u64) -> (r: i64)
    requires
        1 <= q <= 0x8000000,
        m <= 0x1000000000000,
    ensures
        r == sin_pi_spec(m as int, q as int),
        -32768 <= r <= 32768,
{
    let red: u64 = m % (2 * q);
    if red < q {
        sin_half(red, q) as i64
    } else {
        -(sin_half(red - q, q) as i64)
    }
}

} // verus!
