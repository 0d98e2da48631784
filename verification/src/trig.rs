use vstd::prelude::*;

verus! {

/// Fixed-point sine on the first half-turn, scaled by 1024: an integer
/// rational approximation of `1024 * sin(pi * a / b)` for `0 <= a <= b`.
/// It is exact at the ends and the crest, and stays within `[0, 1024]`.
pub open spec fn sin_half_spec(a: int, b: int) -> int
    recommends
        0 <= a <= b,
        b >= 1,
{
    (16384 * (a * (b - a))) / (5 * (b * b) - 4 * (a * (b - a)))
}

/// Fixed-point sine of the full-turn fraction `k / n`, scaled by 1024,
/// for `0 <= k < n`: the second half-turn mirrors the first.
pub open spec fn sin_turn_spec(k: int, n: int) -> int
    recommends
        0 <= k < n,
        n >= 1,
{
    if 2 * k <= n {
        sin_half_spec(2 * k, n)
    } else {
        -sin_half_spec(2 * k - n, n)
    }
}

/// Fixed-point cosine of the full-turn fraction `k / n`, scaled by 1024:
/// the sine shifted by a quarter turn.
pub open spec fn cos_turn_spec(k: int, n: int) -> int
    recommends
        0 <= k < n,
        n >= 1,
{
    if 4 * k + n < 4 * n {
        sin_turn_spec(4 * k + n, 4 * n)
    } else {
        sin_turn_spec(4 * k - 3 * n, 4 * n)
    }
}

pub proof fn lemma_sin_half_bounds(a: int, b: int)
    requires
        0 <= a <= b,
        b >= 1,
    ensures
        0 <= sin_half_spec(a, b) <= 1024,
{
    let p = a * (b - a);
    let sq = b * b;
    let num = 16384 * p;
    let den = 5 * sq - 4 * p;
    assert(p >= 0 && 4 * p <= sq && sq >= 1) by (nonlinear_arith)
        requires
            0 <= a <= b,
            b >= 1,
            p == a * (b - a),
            sq == b * b,
    ;
    assert(den >= 4 * sq >= 4);
    assert(num >= 0);
    assert(num <= 1024 * den);
    assert(num / den >= 0 && num / den <= 1024) by (nonlinear_arith)
        requires
            num >= 0,
            den >= 4,
            num <= 1024 * den,
    ;
    assert(sin_half_spec(a, b) == num / den);
}

pub proof fn lemma_sin_turn_bounds(k: int, n: int)
    requires
        0 <= k < n,
        n >= 1,
    ensures
        -1024 <= sin_turn_spec(k, n) <= 1024,
{
    if 2 * k <= n {
        lemma_sin_half_bounds(2 * k, n);
    } else {
        lemma_sin_half_bounds(2 * k - n, n);
    }
}

pub proof fn lemma_cos_turn_bounds(k: int, n: int)
    requires
        0 <= k < n,
        n >= 1,
    ensures
        -1024 <= cos_turn_spec(k, n) <= 1024,
{
    if 4 * k + n < 4 * n {
        lemma_sin_turn_bounds(4 * k + n, 4 * n);
    } else {
        lemma_sin_turn_bounds(4 * k - 3 * n, 4 * n);
    }
}

/// Computes `sin_half_spec` exactly, for bounds small enough that the
/// intermediate products fit in 64 bits.
fn sin_half_fp(a: u64, b: u64) -> (r: i64)
    requires
        a <= b,
        1 <= b <= 4_000_000,
    ensures
        r == sin_half_spec(a as int, b as int),
        0 <= r <= 1024,
{
    proof {
        lemma_sin_half_bounds(a as int, b as int);
        assert((a as int) * ((b - a) as int) >= 0 && (a as int) * ((b - a) as int) <= (b as int)
            * (b as int) && 4 * ((a as int) * ((b - a) as int)) <= (b as int) * (b as int) && (
        b as int) * (b as int) <= 16_000_000_000_000 && (b as int) * (b as int) >= 1) by (nonlinear_arith)
            requires
                0 <= a as int <= b as int,
                1 <= b as int <= 4_000_000,
        ;
    }
    let p: u64 = a * (b - a);
    let num: u64 = 16384 * p;
    let den: u64 = 5 * (b * b) - 4 * p;
    let r: u64 = num / den;
    r as i64
}

/// Computes `sin_turn_spec` exactly.
pub fn sin_turn_fp(k: u32, n: u32) -> (r: i64)
    requires
        k < n,
        1 <= n <= 1_000_000,
    ensures
        r == sin_turn_spec(k as int, n as int),
        -1024 <= r <= 1024,
{
    if 2 * (k as u64) <= n as u64 {
        sin_half_fp(2 * (k as u64), n as u64)
    } else {
        -sin_half_fp(2 * (k as u64) - (n as u64), n as u64)
    }
}

/// Computes `cos_turn_spec` exactly.
pub fn cos_turn_fp(k: u32, n: u32) -> (r: i64)
    requires
        k < n,
        1 <= n <= 1_000_000,
    ensures
        r == cos_turn_spec(k as int, n as int),
        -1024 <= r <= 1024,
{
    let k4: u64 = 4 * (k as u64);
    let n4: u64 = 4 * (n as u64);
    if k4 + (n as u64) < n4 {
        sin_quarter_shift(k4 + (n as u64), n4)
    } else {
        sin_quarter_shift(k4 - 3 * (n as u64), n4)
    }
}

/// Helper shared by the cosine branches: the sine over the widened
/// denominator.
fn sin_quarter_shift(m: u64, n4: u64) -> (r: i64)
    requires
        m < n4,
        1 <= n4 <= 4_000_000,
    ensures
        r == sin_turn_spec(m as int, n4 as int),
        -1024 <= r <= 1024,
{
    if 2 * m <= n4 {
        sin_half_fp(2 * m, n4)
    } else {
        -sin_half_fp(2 * m - n4, n4)
    }
}

/// Scales `v` by the fixed-point factor `c` (scaled by 1024), rounding
/// toward zero, as the effect placement does on both axes.
pub open spec fn scale_fp_spec(v: int, c: int) -> int {
    if c >= 0 {
        (v * c) / 1024
    } else {
        -((v * (-c)) / 1024)
    }
}

pub proof fn lemma_scale_fp_bounds(v: int, c: int)
    requires
        v >= 0,
        -1024 <= c <= 1024,
    ensures
        -v <= scale_fp_spec(v, c) <= v,
{
    let m = if c >= 0 {
        c
    } else {
        -c
    };
    assert(0 <= v * m <= v * 1024) by (nonlinear_arith)
        requires
            v >= 0,
            0 <= m <= 1024,
    ;
    assert((v * m) / 1024 >= 0);
    assert((v * m) / 1024 <= (v * 1024) / 1024) by (nonlinear_arith)
        requires
            0 <= v * m <= v * 1024,
    ;
    assert((v * 1024) / 1024 == v) by (nonlinear_arith);
}

/// Computes `scale_fp_spec` exactly for small magnitudes.
pub fn scale_fp(v: u64, c: i64) -> (r: i64)
    requires
        v <= 1_000_000_000_000,
        -1024 <= c <= 1024,
    ensures
        r == scale_fp_spec(v as int, c as int),
        -(v as int) <= r <= v as int,
{
    proof {
        lemma_scale_fp_bounds(v as int, c as int);
        let m = if c >= 0 {
            c as int
        } else {
            -(c as int)
        };
        assert(0 <= (v as int) * m <= 1_024_000_000_000_000) by (nonlinear_arith)
            requires
                0 <= v as int <= 1_000_000_000_000,
                0 <= m <= 1024,
        ;
    }
    if c >= 0 {
        ((v * (c as u64)) / 1024) as i64
    } else {
        -(((v * ((-c) as u64)) / 1024) as i64)
    }
}

} // verus!
