//! Natural logarithms in fixed point, for linear counting.
//!
//! For every `k` the logarithm of `(k + 1) / k` is the series
//!
//! ```text
//! ln((k + 1) / k) = 2 * sum over j of 1 / ((2j + 1) * (2k + 1)^(2j + 1))
//! ```
//!
//! whose terms fall by more than a factor of nine. Each term is taken in
//! units of two to the minus 64 and rounded down; the series ends where the
//! power exceeds two to the 65, since all further terms round to zero. The
//! logarithm of `m / z` is the sum of these steps from `z` up to `m`.

use vstd::prelude::*;

verus! {

/// Two to the 65: twice the number of units in one.
pub const TWICE_ONE: u128 = 0x2_0000_0000_0000_0000;

/// The series from its term `j` on, where `p` is the power of that term and
/// `q` the square by which the powers grow.
pub open spec fn series(p: int, q: int, j: int) -> int
    decreases
            if p > TWICE_ONE {
                0
            } else {
                TWICE_ONE - p + 1
            },
    when q >= 9 && p >= 1
{
    if p > TWICE_ONE {
        0
    } else {
        proof {
            assert(p * q > p) by (nonlinear_arith)
                requires
                    q >= 9,
                    p >= 1,
            ;
        }
        TWICE_ONE as int / p / (2 * j + 1) + series(p * q, q, j + 1)
    }
}

/// The logarithm of `(k + 1) / k`, in units of two to the minus 64.
pub open spec fn ln_step(k: int) -> int {
    series(2 * k + 1, (2 * k + 1) * (2 * k + 1), 0)
}

/// The logarithm of `m / z`, in units of two to the minus 64.
pub open spec fn ln_ratio(z: int, m: int) -> int
    decreases m - z,
{
    if z >= m {
        0
    } else {
        ln_step(z) + ln_ratio(z + 1, m)
    }
}

proof fn lemma_series_bound(p: int, q: int, j: int)
    requires
        p >= 1,
        q >= 9,
        j >= 0,
    ensures
        0 <= series(p, q, j),
        p * series(p, q, j) <= 2 * TWICE_ONE,
    decreases
            if p > TWICE_ONE {
                0
            } else {
                TWICE_ONE - p + 1
            },
{
    if p > TWICE_ONE {
        assert(p * series(p, q, j) == 0) by (nonlinear_arith)
            requires
                series(p, q, j) == 0,
        ;
    } else {
        assert(p * q > p) by (nonlinear_arith)
            requires
                q >= 9,
                p >= 1,
        ;
        lemma_series_bound(p * q, q, j + 1);
        let a = TWICE_ONE as int;
        let rest = series(p * q, q, j + 1);
        let quotient = a / p;
        let term = quotient / (2 * j + 1);
        assert(0 <= quotient && p * quotient <= a) by (nonlinear_arith)
            requires
                p >= 1,
                a >= 0,
                quotient == a / p,
        ;
        assert(0 <= term <= quotient) by (nonlinear_arith)
            requires
                quotient >= 0,
                j >= 0,
                term == quotient / (2 * j + 1),
        ;
        assert(p * term <= a) by (nonlinear_arith)
            requires
                p >= 1,
                term <= quotient,
                p * quotient <= a,
        ;
        assert(p * rest <= a) by (nonlinear_arith)
            requires
                p >= 1,
                q >= 9,
                rest >= 0,
                (p * q) * rest <= 2 * a,
                a >= 0,
        ;
        assert(p * (term + rest) == p * term + p * rest) by (nonlinear_arith);
    }
}

proof fn lemma_ln_step_bound(k: int)
    requires
        k >= 1,
    ensures
        0 <= ln_step(k) <= 2 * TWICE_ONE,
{
    let p = 2 * k + 1;
    assert(p * p >= 9) by (nonlinear_arith)
        requires
            p >= 3,
    ;
    lemma_series_bound(p, p * p, 0);
    let n = ln_step(k);
    assert(n <= 2 * TWICE_ONE) by (nonlinear_arith)
        requires
            p >= 1,
            n >= 0,
            p * n <= 2 * TWICE_ONE,
    ;
}

/// The logarithm grows with the range, and each step adds at most four.
pub proof fn lemma_ln_ratio_bound(z: int, m: int)
    requires
        1 <= z,
    ensures
        0 <= ln_ratio(z, m),
        z <= m ==> ln_ratio(z, m) <= (m - z) * (2 * TWICE_ONE),
    decreases m - z,
{
    if z < m {
        lemma_ln_step_bound(z);
        lemma_ln_ratio_bound(z + 1, m);
        assert((m - z) * (2 * TWICE_ONE) == (m - (z + 1)) * (2 * TWICE_ONE) + 2 * TWICE_ONE)
            by (nonlinear_arith);
    }
}

fn ln_step_units(k: u128) -> (r: u128)
    requires
        1 <= k <= 4096,
    ensures
        r == ln_step(k as int),
{
    let base: u128 = 2 * k + 1;
    assert(9 <= base * base <= 67_125_249) by (nonlinear_arith)
        requires
            3 <= base <= 8193,
    ;
    let q: u128 = base * base;
    proof {
        lemma_ln_step_bound(k as int);
    }
    let mut p: u128 = base;
    let mut j: u128 = 0;
    let mut acc: u128 = 0;
    while p <= TWICE_ONE
        invariant
            9 <= q <= 67_125_249,
            1 <= p,
            j <= p,
            acc + series(p as int, q as int, j as int) == ln_step(k as int),
            ln_step(k as int) <= 2 * TWICE_ONE,
        decreases
                if p > TWICE_ONE {
                    0
                } else {
                    TWICE_ONE - p + 1
                },
    {
        proof {
            assert(p * q > p && p * q >= p + 1 && p * q <= 0x4_0000_0000_0000_0000_0000_0000)
                by (nonlinear_arith)
                requires
                    9 <= q <= 67_125_249,
                    1 <= p <= 0x2_0000_0000_0000_0000u128,
            ;
            lemma_series_bound((p * q) as int, q as int, j + 1);
        }
        acc = acc + TWICE_ONE / p / (2 * j + 1);
        p = p * q;
        j = j + 1;
    }
    acc
}

/// The logarithm of `4096 / z`, in units of two to the minus 64.
pub fn ln_ratio_units(z: u32) -> (r: u128)
    requires
        1 <= z <= 4096,
    ensures
        r == ln_ratio(z as int, 4096),
        r <= 4096 * (2 * TWICE_ONE),
{
    let mut acc: u128 = 0;
    let mut k: u128 = z as u128;
    proof {
        lemma_ln_ratio_bound(z as int, 4096);
        assert((4096 - z) * (2 * TWICE_ONE) <= 4096 * (2 * TWICE_ONE)) by (nonlinear_arith)
            requires
                z >= 1,
        ;
    }
    while k < 4096
        invariant
            1 <= z <= k <= 4096,
            acc + ln_ratio(k as int, 4096) == ln_ratio(z as int, 4096),
            ln_ratio(z as int, 4096) <= 4096 * (2 * TWICE_ONE),
        decreases 4096 - k,
    {
        proof {
            lemma_ln_step_bound(k as int);
            lemma_ln_ratio_bound(k as int + 1, 4096);
        }
        acc = acc + ln_step_units(k);
        k = k + 1;
    }
    acc
}

/// The smallest step: the logarithm of `4096 / 4095`.
pub(crate) proof fn lemma_last_step()
    ensures
        0x1_0000_0000_0000_0000 <= 4096 * ln_step(4095) < 0x1_0100_0000_0000_0000,
{
    let q: int = 67_092_481;
    let second: int = 549_554_511_871;
    let third: int = 36_870_975_646_169_341_951;
    assert(third * q > TWICE_ONE);
    assert(series(third * q, q, 3) == 0);
    assert(TWICE_ONE as int / third == 1);
    assert(1int / 5 == 0);
    assert(series(third, q, 2) == 0);
    assert(second * q == third);
    assert(series(second, q, 1) == 22_377_815);
    assert(8191 * q == second);
    assert(series(8191, q, 0) == 4_504_149_472_679_256);
    assert((2 * 4095 + 1) * (2 * 4095 + 1) == 67_092_481) by (nonlinear_arith);
    assert(ln_step(4095) == series(8191, q, 0));
}

/// The first `n` terms of the series from its term `j` on, without rounding.
pub open spec fn exact_series(p: int, q: int, j: int, n: nat) -> real
    decreases n,
{
    if n == 0 {
        0real
    } else {
        (TWICE_ONE as int) as real / ((p * (2 * j + 1)) as real) + exact_series(
            p * q,
            q,
            j + 1,
            (n - 1) as nat,
        )
    }
}

/// The logarithm of `m / z` from the first `n` terms of each step, without
/// rounding, in units of two to the minus 64. It tends to the logarithm as
/// `n` grows.
pub open spec fn exact_ln_ratio(z: int, m: int, n: nat) -> real
    decreases m - z,
{
    if z >= m {
        0real
    } else {
        exact_series(2 * z + 1, (2 * z + 1) * (2 * z + 1), 0, n) + exact_ln_ratio(z + 1, m, n)
    }
}

spec fn retained(p: int, q: int) -> nat
    decreases
            if p > TWICE_ONE {
                0
            } else {
                TWICE_ONE - p + 1
            },
    when q >= 9 && p >= 1
{
    if p > TWICE_ONE {
        0
    } else {
        proof {
            assert(p * q > p) by (nonlinear_arith)
                requires
                    q >= 9,
                    p >= 1,
            ;
        }
        1 + retained(p * q, q)
    }
}

proof fn lemma_floor(a: int, b: int)
    requires
        a >= 0,
        b > 0,
    ensures
        (a / b) as real <= a as real / b as real,
        a as real / b as real <= (a / b) as real + 1real,
{
    let n = a / b;
    assert(b * n <= a && a <= b * n + b) by (nonlinear_arith)
        requires
            b > 0,
            n == a / b,
    ;
    assert((b * n) as real == b as real * n as real) by (nonlinear_arith);
    let x = a as real;
    let y = b as real;
    let w = n as real;
    assert(w <= x / y && x / y <= w + 1real) by (nonlinear_arith)
        requires
            y > 0real,
            y * w <= x,
            x <= y * w + y,
    ;
}

proof fn lemma_term(p: int, j: int)
    requires
        p >= 1,
        j >= 0,
    ensures
        (TWICE_ONE as int / p / (2 * j + 1)) as real <= (TWICE_ONE as int) as real / ((p * (2 * j
            + 1)) as real),
        (TWICE_ONE as int) as real / ((p * (2 * j + 1)) as real) <= (TWICE_ONE as int / p / (2 * j
            + 1)) as real + 1real,
{
    let a = TWICE_ONE as int;
    let d = 2 * j + 1;
    vstd::arithmetic::div_mod::lemma_div_denominator(a, p, d);
    assert(p * d > 0) by (nonlinear_arith)
        requires
            p >= 1,
            d >= 1,
    ;
    lemma_floor(a, p * d);
}

proof fn lemma_grows(p: int, q: int)
    requires
        p >= 1,
        q >= 9,
    ensures
        p * q >= 9 * p,
{
    assert(p * q >= 9 * p) by (nonlinear_arith)
        requires
            q >= 9,
            p >= 1,
    ;
}

proof fn lemma_exact_nonnegative(p: int, q: int, j: int, n: nat)
    requires
        p >= 1,
        q >= 9,
        j >= 0,
    ensures
        exact_series(p, q, j, n) >= 0real,
    decreases n,
{
    if n > 0 {
        lemma_grows(p, q);
        lemma_exact_nonnegative(p * q, q, j + 1, (n - 1) as nat);
        lemma_term(p, j);
        let a = TWICE_ONE as int;
        let term = a / p / (2 * j + 1);
        assert(term >= 0) by (nonlinear_arith)
            requires
                a >= 0,
                p >= 1,
                j >= 0,
                term == a / p / (2 * j + 1),
        ;
    }
}

/// What is cut off beyond the last retained term is less than two units.
proof fn lemma_cut_tail(p: int, q: int, j: int, n: nat)
    requires
        p >= 1,
        q >= 9,
        j >= 0,
    ensures
        8real * (p as real * exact_series(p, q, j, n)) <= 9real * ((TWICE_ONE as int) as real),
    decreases n,
{
    let a = (TWICE_ONE as int) as real;
    let x = p as real;
    if n == 0 {
        assert(8real * (x * exact_series(p, q, j, n)) == 0real) by (nonlinear_arith)
            requires
                exact_series(p, q, j, n) == 0real,
        ;
    } else {
        lemma_grows(p, q);
        lemma_cut_tail(p * q, q, j + 1, (n - 1) as nat);
        lemma_exact_nonnegative(p * q, q, j + 1, (n - 1) as nat);
        let d = (2 * j + 1) as real;
        let y = q as real;
        let rest = exact_series(p * q, q, j + 1, (n - 1) as nat);
        let term = a / ((p * (2 * j + 1)) as real);
        assert((p * (2 * j + 1)) as real == x * d) by (nonlinear_arith)
            requires
                x == p as real,
                d == (2 * j + 1) as real,
        ;
        assert((p * q) as real == x * y) by (nonlinear_arith)
            requires
                x == p as real,
                y == q as real,
        ;
        assert(x * term <= a) by (nonlinear_arith)
            requires
                x >= 1real,
                d >= 1real,
                a >= 0real,
                term == a / (x * d),
        ;
        assert(8real * (x * rest) <= a) by (nonlinear_arith)
            requires
                x >= 1real,
                y >= 9real,
                rest >= 0real,
                a >= 0real,
                8real * ((x * y) * rest) <= 9real * a,
        ;
        assert(x * (term + rest) == x * term + x * rest) by (nonlinear_arith);
    }
}

proof fn lemma_series_accuracy(p: int, q: int, j: int, n: nat)
    requires
        p >= 1,
        q >= 9,
        j >= 0,
        n >= retained(p, q),
    ensures
        series(p, q, j) as real <= exact_series(p, q, j, n),
        exact_series(p, q, j, n) <= series(p, q, j) as real + retained(p, q) as real + 2real,
    decreases n,
{
    if p > TWICE_ONE {
        lemma_exact_nonnegative(p, q, j, n);
        lemma_cut_tail(p, q, j, n);
        let a = (TWICE_ONE as int) as real;
        let x = p as real;
        let e = exact_series(p, q, j, n);
        assert(e <= 2real) by (nonlinear_arith)
            requires
                8real * (x * e) <= 9real * a,
                a <= x,
                a >= 1real,
                e >= 0real,
        ;
    } else {
        lemma_grows(p, q);
        lemma_series_accuracy(p * q, q, j + 1, (n - 1) as nat);
        lemma_term(p, j);
    }
}

spec fn pow9(n: nat) -> int
    decreases n,
{
    if n == 0 {
        1
    } else {
        9 * pow9((n - 1) as nat)
    }
}

proof fn lemma_retained_bound(p: int, q: int, c: nat)
    requires
        p >= 1,
        q >= 9,
        p * pow9(c) > TWICE_ONE,
    ensures
        retained(p, q) <= c,
    decreases c,
{
    if p <= TWICE_ONE {
        if c == 0 {
            assert(p * pow9(0) == p) by (nonlinear_arith)
                requires
                    pow9(0) == 1,
            ;
        } else {
            let r = pow9((c - 1) as nat);
            lemma_pow9_positive((c - 1) as nat);
            assert((p * q) * r >= p * (9 * r)) by (nonlinear_arith)
                requires
                    p >= 1,
                    q >= 9,
                    r >= 1,
            ;
            lemma_grows(p, q);
            lemma_retained_bound(p * q, q, (c - 1) as nat);
        }
    }
}

proof fn lemma_pow9_positive(n: nat)
    ensures
        pow9(n) >= 1,
    decreases n,
{
    if n > 0 {
        lemma_pow9_positive((n - 1) as nat);
    }
}

/// The fixed-point logarithm is accurate: with twenty-one terms or more of
/// each step, the logarithm without rounding is at least the fixed-point one
/// and exceeds it by at most twenty-three units per step.
pub proof fn law_logarithm_is_accurate(z: int, m: int, n: nat)
    requires
        1 <= z <= m,
        n >= 21,
    ensures
        ln_ratio(z, m) as real <= exact_ln_ratio(z, m, n),
        exact_ln_ratio(z, m, n) <= ln_ratio(z, m) as real + (23 * (m - z)) as real,
    decreases m - z,
{
    if z < m {
        law_logarithm_is_accurate(z + 1, m, n);
        let p = 2 * z + 1;
        assert(p * p >= 9) by (nonlinear_arith)
            requires
                p >= 3,
        ;
        reveal_with_fuel(pow9, 22);
        assert(pow9(21) == 109_418_989_131_512_359_209);
        assert(p * pow9(21) > TWICE_ONE) by (nonlinear_arith)
            requires
                p >= 3,
                pow9(21) == 109_418_989_131_512_359_209,
        ;
        lemma_retained_bound(p, p * p, 21);
        lemma_series_accuracy(p, p * p, 0, n);
    }
}

proof fn lemma_exact_series_above(p: int, q: int, j: int, n: nat)
    requires
        p >= 1,
        q >= 9,
        j >= 0,
    ensures
        ({
            let x = (TWICE_ONE as int) as real / p as real;
            exact_series(p, q, j, n) <= x + x / ((q - 1) as real)
        }),
    decreases n,
{
    let a = (TWICE_ONE as int) as real;
    let pr = p as real;
    let qr = q as real;
    let x = a / pr;
    let w = (q - 1) as real;
    assert(w == qr - 1real);
    assert(x >= 0real) by (nonlinear_arith)
        requires
            a >= 0real,
            pr >= 1real,
            x == a / pr,
    ;
    assert(x / w >= 0real) by (nonlinear_arith)
        requires
            x >= 0real,
            w >= 8real,
    ;
    if n > 0 {
        let odd = (2 * j + 1) as real;
        assert(p * q >= 1) by (nonlinear_arith)
            requires
                p >= 1,
                q >= 9,
        ;
        lemma_exact_series_above(p * q, q, j + 1, (n - 1) as nat);
        assert((p * q) as real == pr * qr) by (nonlinear_arith)
            requires
                pr == p as real,
                qr == q as real,
        ;
        let d = 2 * j + 1;
        assert((p * d) as real == pr * odd) by (nonlinear_arith)
            requires
                pr == p as real,
                odd == d as real,
        ;
        let term = a / (pr * odd);
        assert(term <= x) by (nonlinear_arith)
            requires
                a >= 0real,
                pr >= 1real,
                odd >= 1real,
                x == a / pr,
                term == a / (pr * odd),
        ;
        let y = a / (pr * qr);
        assert(y * qr == x) by (nonlinear_arith)
            requires
                pr >= 1real,
                qr >= 9real,
                x == a / pr,
                y == a / (pr * qr),
        ;
        assert(y + y / w == x / w) by (nonlinear_arith)
            requires
                w >= 8real,
                w == qr - 1real,
                y * qr == x,
        ;
    }
}

/// The first term of a step is below it, and a geometric series above it:
/// `ln((k + 1) / k)` lies between `2 / (2k + 1)` and that plus
/// `2 / ((2k + 1) * ((2k + 1)^2 - 1))`.
pub proof fn law_steps_lie_between(k: int, n: nat)
    requires
        k >= 1,
        n >= 1,
    ensures
        ({
            let first = (TWICE_ONE as int) as real / (2 * k + 1) as real;
            let step = exact_series(2 * k + 1, (2 * k + 1) * (2 * k + 1), 0, n);
            &&& first <= step
            &&& step <= first + first / ((2 * k + 1) * (2 * k + 1) - 1) as real
        }),
{
    let p = 2 * k + 1;
    assert(p * p >= 9) by (nonlinear_arith)
        requires
            p >= 3,
    ;
    assert(p * (p * p) >= 1) by (nonlinear_arith)
        requires
            p >= 3,
    ;
    lemma_exact_nonnegative(p * (p * p), p * p, 1, (n - 1) as nat);
    lemma_exact_series_above(p, p * p, 0, n);
    assert(p * (2 * 0 + 1) == p) by (nonlinear_arith);
}

proof fn lemma_exact_ln_ratio_last(z: int, m: int, n: nat)
    requires
        z < m,
    ensures
        exact_ln_ratio(z, m, n) == exact_ln_ratio(z, m - 1, n) + exact_series(
            2 * (m - 1) + 1,
            (2 * (m - 1) + 1) * (2 * (m - 1) + 1),
            0,
            n,
        ),
    decreases m - z,
{
    reveal_with_fuel(exact_ln_ratio, 2);
    if z + 1 < m {
        lemma_exact_ln_ratio_last(z + 1, m, n);
    } else {
        assert(z == m - 1);
    }
}

pub(crate) proof fn lemma_ln_ratio_between(
    z: int,
    m: int,
    n: nat,
    below: spec_fn(int) -> real,
    above: spec_fn(int) -> real,
    plus: spec_fn(real, real) -> real,
)
    requires
        1 <= z <= m,
        n >= 1,
        forall|i: int|
            i >= 0 ==> #[trigger] below(i) == 2real / (2 * (z + i) + 1) as real,
        forall|i: int|
            i >= 0 ==> #[trigger] above(i) == 2real / (2 * (z + i) + 1) as real + 2real / ((2 * (z
                + i) + 1) as real * ((2 * (z + i) + 1) * (2 * (z + i) + 1) - 1) as real),
        forall|a: real, b: real| #[trigger] plus(a, b) == a + b,
    ensures
        ({
            let units = 0x1_0000_0000_0000_0000int as real;
            let count = (m - z) as nat;
            &&& units * Seq::new(count, below).fold_left(0real, plus) <= exact_ln_ratio(z, m, n)
            &&& exact_ln_ratio(z, m, n) <= units * Seq::new(count, above).fold_left(0real, plus)
        }),
    decreases m - z,
{
    let units = 0x1_0000_0000_0000_0000int as real;
    let count = (m - z) as nat;
    let lows = Seq::new(count, below);
    let highs = Seq::new(count, above);
    if z < m {
        let less = (m - 1 - z) as nat;
        lemma_ln_ratio_between(z, m - 1, n, below, above, plus);
        lemma_exact_ln_ratio_last(z, m, n);
        law_steps_lie_between(m - 1, n);
        assert(lows.drop_last() =~= Seq::new(less, below));
        assert(highs.drop_last() =~= Seq::new(less, above));
        assert(lows.last() == below(less as int));
        assert(highs.last() == above(less as int));
        let p = 2 * (m - 1) + 1;
        let pr = p as real;
        let w = (p * p - 1) as real;
        assert(p * p >= 9) by (nonlinear_arith)
            requires
                p >= 3,
        ;
        let first = (TWICE_ONE as int) as real / pr;
        assert((TWICE_ONE as int) as real == 2real * units);
        assert(first == units * (2real / pr)) by (nonlinear_arith)
            requires
                pr >= 3real,
                first == (2real * units) / pr,
        ;
        assert(first / w == units * (2real / (pr * w))) by (nonlinear_arith)
            requires
                pr >= 3real,
                w >= 8real,
                first == (2real * units) / pr,
        ;
        let l = Seq::new(less, below).fold_left(0real, plus);
        let h = Seq::new(less, above).fold_left(0real, plus);
        let b = below(less as int);
        let c = above(less as int);
        assert(units * (l + b) == units * l + units * b) by (nonlinear_arith);
        assert(units * (h + c) == units * h + units * c) by (nonlinear_arith);
        assert(units * c == units * (2real / pr) + units * (2real / (pr * w))) by (nonlinear_arith)
            requires
                c == 2real / pr + 2real / (pr * w),
        ;
    } else {
        assert(units * 0real == 0real);
    }
}

} // verus!
