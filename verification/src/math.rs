//! Integer square roots and integer exponentiation by repeated squaring:
//! the arithmetic core of the quadratic-funding formula.

use vstd::prelude::*;
use vstd::arithmetic::power::{pow, lemma_pow1, lemma_pow_adds, lemma_pow_multiplies};

verus! {

/// Floor of the square root of `n` (0 for negative `n`), defined by
/// counting up: the root grows by one exactly when the next square fits.
pub open spec fn sqrt_floor(n: int) -> int
    decreases n,
{
    if n <= 0 {
        0
    } else {
        let r = sqrt_floor(n - 1);
        if (r + 1) * (r + 1) <= n {
            r + 1
        } else {
            r
        }
    }
}

/// `sqrt_floor(n)` is the unique integer root: its square is at most `n`
/// and the next square is beyond `n`.
pub proof fn lemma_sqrt_floor_bounds(n: int)
    requires
        0 <= n,
    ensures
        0 <= sqrt_floor(n),
        sqrt_floor(n) * sqrt_floor(n) <= n,
        n < (sqrt_floor(n) + 1) * (sqrt_floor(n) + 1),
    decreases n,
{
    let s = sqrt_floor(n);
    if n == 0 {
        assert(s == 0);
        assert(n < (s + 1) * (s + 1)) by (nonlinear_arith)
            requires
                n == 0,
                s == 0,
        ;
    } else {
        lemma_sqrt_floor_bounds(n - 1);
        let r = sqrt_floor(n - 1);
        if (r + 1) * (r + 1) <= n {
            assert(s == r + 1);
            assert(n < (s + 1) * (s + 1)) by (nonlinear_arith)
                requires
                    0 <= r,
                    s == r + 1,
                    n - 1 < (r + 1) * (r + 1),
            ;
        } else {
            assert(s == r);
            assert(r * r <= n - 1);
            assert(n < (s + 1) * (s + 1));
        }
    }
}

/// Any integer `r` whose square brackets `n` equals `sqrt_floor(n)`.
pub proof fn lemma_sqrt_floor_unique(n: int, r: int)
    requires
        0 <= r,
        r * r <= n,
        n < (r + 1) * (r + 1),
    ensures
        r == sqrt_floor(n),
{
    assert(0 <= r * r) by (nonlinear_arith)
        requires 0 <= r,
    ;
    lemma_sqrt_floor_bounds(n);
    let s = sqrt_floor(n);
    if s < r {
        assert((s + 1) * (s + 1) <= r * r) by (nonlinear_arith)
            requires 0 <= s, s < r,
        ;
    }
    if r < s {
        assert((r + 1) * (r + 1) <= s * s) by (nonlinear_arith)
            requires 0 <= r, r < s,
        ;
    }
}

/// Relies on `num_integer::Roots::sqrt` for `i128`: the truncated principal
/// square root of a non-negative integer.
#[verifier::external_body]
fn isqrt_i128(n: i128) -> (r: i128)
    requires
        0 <= n,
    ensures
        0 <= r,
        r * r <= n,
        n < (r + 1) * (r + 1),
{
    num_integer::Roots::sqrt(&n)
}

/// Integer square root of a non-negative `i128`, pinned to `sqrt_floor`.
pub fn integer_sqrt(n: i128) -> (r: i128)
    requires
        0 <= n,
    ensures
        r == sqrt_floor(n as int),
{
    let r = isqrt_i128(n);
    proof {
        lemma_sqrt_floor_unique(n as int, r as int);
    }
    r
}

/// Does `x` lie within the `i128` range?
pub open spec fn fits_i128(x: int) -> bool {
    i128::MIN <= x <= i128::MAX
}

/// What `powi` computes: `base^exponent` for non-negative exponents, and 1
/// for negative ones (the squaring loop never runs there).
pub open spec fn spec_powi(base: int, exponent: int) -> int {
    if exponent < 0 {
        1
    } else {
        pow(base, exponent as nat)
    }
}

/// Every intermediate product of the repeated-squaring loop stays within
/// `i128` when started from accumulator `result`, base `base` and remaining
/// exponent `exponent`.
pub open spec fn powi_loop_fits(result: int, base: int, exponent: int) -> bool
    decreases exponent,
{
    if exponent <= 0 {
        true
    } else {
        &&& (exponent % 2 == 1 ==> fits_i128(result * base))
        &&& fits_i128(base * base)
        &&& powi_loop_fits(
            if exponent % 2 == 1 { result * base } else { result },
            base * base,
            exponent / 2,
        )
    }
}

/// The inputs on which `powi` runs without overflowing an `i128`.
pub open spec fn powi_fits(base: int, exponent: int) -> bool {
    exponent <= 1 || powi_loop_fits(1, base, exponent)
}

/// Integer exponentiation by repeated squaring.
pub fn powi(base: i128, exponent: i64) -> (r: i128)
    requires
        powi_fits(base as int, exponent as int),
    ensures
        r == spec_powi(base as int, exponent as int),
{
    if exponent == 0 {
        proof {
            vstd::arithmetic::power::lemma_pow0(base as int);
        }
        return 1;
    }
    if exponent == 1 {
        proof {
            lemma_pow1(base as int);
        }
        return base;
    }

    let mut result: i128 = 1;
    let mut current_base: i128 = base;
    let mut current_exponent: i64 = exponent;

    while current_exponent > 0
        invariant
            powi_loop_fits(result as int, current_base as int, current_exponent as int),
            spec_powi(base as int, exponent as int)
                == result * spec_powi(current_base as int, current_exponent as int),
        decreases current_exponent,
    {
        proof {
            lemma_powi_loop_step(result as int, current_base as int, current_exponent as int);
        }
        if current_exponent % 2 == 1 {
            result = result * current_base;
        }
        current_base = current_base * current_base;
        current_exponent = current_exponent / 2;
    }

    proof {
        if current_exponent == 0 {
            vstd::arithmetic::power::lemma_pow0(current_base as int);
        }
    }
    result
}

/// `pow` at exponent two is the plain square.
pub proof fn lemma_pow_two(b: int)
    ensures
        pow(b, 2) == b * b,
{
    lemma_pow_adds(b, 1, 1);
    lemma_pow1(b);
}

/// `sqrt_floor` never goes negative.
pub proof fn lemma_sqrt_floor_nonneg(n: int)
    ensures
        0 <= sqrt_floor(n),
{
    if n > 0 {
        lemma_sqrt_floor_bounds(n);
    }
}

/// Sum of the integer square roots of a contribution sequence: the
/// quadratic-funding "root sum" of one beneficiary.
pub open spec fn sum_sqrt(c: Seq<i64>) -> int
    decreases c.len(),
{
    if c.len() == 0 {
        0
    } else {
        sum_sqrt(c.drop_last()) + sqrt_floor(c.last() as int)
    }
}

/// A root sum is never negative.
pub proof fn lemma_sum_sqrt_nonneg(c: Seq<i64>)
    ensures
        0 <= sum_sqrt(c),
    decreases c.len(),
{
    if c.len() > 0 {
        lemma_sum_sqrt_nonneg(c.drop_last());
        lemma_sqrt_floor_nonneg(c.last() as int);
    }
}

/// Root sums grow along prefixes: the sum over `c.take(i)` is at most the
/// sum over all of `c`.
pub proof fn lemma_sum_sqrt_take_le(c: Seq<i64>, i: int)
    requires
        0 <= i <= c.len(),
    ensures
        sum_sqrt(c.take(i)) <= sum_sqrt(c),
    decreases c.len() - i,
{
    if i == c.len() {
        assert(c.take(i) =~= c);
    } else {
        lemma_sum_sqrt_take_le(c, i + 1);
        assert(c.take(i + 1).drop_last() =~= c.take(i));
        lemma_sqrt_floor_nonneg(c.take(i + 1).last() as int);
    }
}

/// Anything above the integer root has a square above `n`.
pub proof fn lemma_above_sqrt_floor(n: int, x: int)
    requires
        0 <= n,
        0 <= x,
        x > sqrt_floor(n),
    ensures
        x * x > n,
{
    lemma_sqrt_floor_bounds(n);
    let r = sqrt_floor(n);
    assert(x * x >= (r + 1) * (r + 1)) by (nonlinear_arith)
        requires
            0 <= r,
            x >= r + 1,
    ;
}

/// Anything at most the integer root has a square at most `n`.
pub proof fn lemma_below_sqrt_floor(n: int, x: int)
    requires
        0 <= n,
        0 <= x,
        x <= sqrt_floor(n),
    ensures
        x * x <= n,
{
    lemma_sqrt_floor_bounds(n);
    assert(x * x <= sqrt_floor(n) * sqrt_floor(n)) by (nonlinear_arith)
        requires
            0 <= x,
            x <= sqrt_floor(n),
    ;
}

/// Sum the integer square roots of a contribution sequence, reporting an
/// `i128` overflow instead of running into it.
pub(crate) fn sqrt_sum_checked(contributions: &Vec<i64>) -> (r: Option<i128>)
    requires
        forall|j: int| 0 <= j < contributions@.len() ==> #[trigger] contributions@[j] >= 0,
    ensures
        (match r {
            Some(s) => 0 <= s && s == sum_sqrt(contributions@),
            None => sum_sqrt(contributions@) > i128::MAX,
        }),
{
    let mut acc: i128 = 0;
    let mut i: usize = 0;
    while i < contributions.len()
        invariant
            i <= contributions@.len(),
            forall|j: int| 0 <= j < contributions@.len() ==> #[trigger] contributions@[j] >= 0,
            acc == sum_sqrt(contributions@.take(i as int)),
            0 <= acc,
        decreases contributions@.len() - i,
    {
        let term = integer_sqrt(contributions[i] as i128);
        proof {
            lemma_sqrt_floor_nonneg(contributions@[i as int] as int);
            assert(contributions@.take(i + 1).drop_last() =~= contributions@.take(i as int));
            assert(contributions@.take(i + 1).last() == contributions@[i as int]);
        }
        if term > i128::MAX - acc {
            proof {
                lemma_sum_sqrt_take_le(contributions@, i + 1);
            }
            return None;
        }
        acc = acc + term;
        i += 1;
    }
    proof {
        assert(contributions@.take(contributions@.len() as int) =~= contributions@);
    }
    Some(acc)
}

/// A root sum `s` with `powi_fits(s, 2)` is itself bounded, as are its
/// square and fourth power: what the squaring loop needs to run on it.
pub proof fn lemma_powi_fits_square_bounds(s: int)
    requires
        0 <= s,
        powi_fits(s, 2),
    ensures
        s <= i128::MAX,
        s * s <= i128::MAX,
        (s * s) * (s * s) <= i128::MAX,
{
    assert(powi_loop_fits(1, s, 2));
    assert(fits_i128(s * s));
    assert(powi_loop_fits(1, s * s, 1));
    assert(fits_i128((s * s) * (s * s)));
    if s >= 1 {
        assert(s <= s * s) by (nonlinear_arith)
            requires 1 <= s,
        ;
    }
}

/// Conversely, bounding the fourth power is all it takes for the squaring
/// loop at exponent two to stay inside `i128`.
pub proof fn lemma_square_bounds_powi_fits(s: int)
    requires
        0 <= s,
        (s * s) * (s * s) <= i128::MAX,
    ensures
        powi_fits(s, 2),
{
    assert(s * s <= (s * s) * (s * s) || s * s <= 1) by (nonlinear_arith)
        requires 0 <= s,
    ;
    assert(fits_i128(s * s));
    assert(fits_i128((s * s) * (s * s)));
    assert(powi_loop_fits(1 * (s * s), (s * s) * (s * s), 0));
    assert(fits_i128(1 * (s * s)));
    assert(powi_loop_fits(1, s * s, 1));
    assert(powi_loop_fits(1, s, 2));
}

/// One step of the squaring loop keeps the accumulator identity:
/// `r * base^e == r' * (base*base)^(e/2)` after folding in an odd bit.
proof fn lemma_powi_loop_step(result: int, base: int, exponent: int)
    requires
        exponent >= 1,
    ensures
        result * spec_powi(base, exponent)
            == (if exponent % 2 == 1 { result * base } else { result })
                * spec_powi(base * base, exponent / 2),
{
    let h = exponent / 2;
    let m = exponent % 2;
    assert(exponent == 2 * h + m);
    assert(pow(base, exponent as nat) == pow(base, (2 * h) as nat) * pow(base, m as nat)) by {
        lemma_pow_adds(base, (2 * h) as nat, m as nat);
    }
    assert(pow(base, (2 * h) as nat) == pow(pow(base, 2), h as nat)) by {
        lemma_pow_multiplies(base, 2, h as nat);
    }
    assert(pow(base, 2) == base * base) by {
        lemma_pow_adds(base, 1, 1);
        lemma_pow1(base);
    }
    if m == 1 {
        lemma_pow1(base);
        assert(result * (pow(base * base, h as nat) * base)
            == (result * base) * pow(base * base, h as nat)) by (nonlinear_arith);
    } else {
        assert(pow(base, 0) == 1) by {
            vstd::arithmetic::power::lemma_pow0(base);
        }
    }
}

} // verus!
