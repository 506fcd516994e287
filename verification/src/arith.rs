use vstd::prelude::*;

verus! {

use vstd::arithmetic::div_mod::lemma_fundamental_div_mod;
use vstd::arithmetic::mul::lemma_mul_is_distributive_add;
use vstd::arithmetic::mul::lemma_mul_is_distributive_add_other_way;

/// The series `f(0) + f(1) + ... + f(n - 1)`.
pub open spec fn sum_of(f: spec_fn(int) -> int, n: nat) -> int
    decreases n,
{
    if n == 0 {
        0
    } else {
        sum_of(f, (n - 1) as nat) + f(n - 1)
    }
}

/// Series with term-wise equal entries have equal sums.
pub proof fn lemma_sum_congruence(f: spec_fn(int) -> int, g: spec_fn(int) -> int, n: nat)
    requires
        forall|i: int| 0 <= i < n ==> #[trigger] f(i) == #[trigger] g(i),
    ensures
        sum_of(f, n) == sum_of(g, n),
    decreases n,
{
    if n > 0 {
        lemma_sum_congruence(f, g, (n - 1) as nat);
    }
}

/// Scaling every term scales the sum.
pub proof fn lemma_sum_scale(f: spec_fn(int) -> int, c: int, n: nat)
    ensures
        sum_of(|i: int| c * f(i), n) == c * sum_of(f, n),
    decreases n,
{
    if n > 0 {
        lemma_sum_scale(f, c, (n - 1) as nat);
        lemma_mul_is_distributive_add(c, sum_of(f, (n - 1) as nat), f(n - 1));
    }
}

/// Term-wise dominated series have dominated sums.
pub proof fn lemma_sum_le(f: spec_fn(int) -> int, g: spec_fn(int) -> int, n: nat)
    requires
        forall|i: int| 0 <= i < n ==> #[trigger] f(i) <= #[trigger] g(i),
    ensures
        sum_of(f, n) <= sum_of(g, n),
    decreases n,
{
    if n > 0 {
        lemma_sum_le(f, g, (n - 1) as nat);
    }
}

/// A series of terms of magnitude at most `m` has magnitude at most `n * m`.
pub proof fn lemma_sum_abs_bound(f: spec_fn(int) -> int, m: int, n: nat)
    requires
        forall|i: int| 0 <= i < n ==> -m <= #[trigger] f(i) <= m,
    ensures
        -(n as int * m) <= sum_of(f, n) <= n as int * m,
    decreases n,
{
    if n > 0 {
        lemma_sum_abs_bound(f, m, (n - 1) as nat);
        lemma_mul_is_distributive_add_other_way(m, n as int - 1, 1);
        assert(-m <= f(n - 1) <= m);
        assert((n - 1) as nat as int * m + 1 * m == n as int * m);
    }
}

/// A series can be peeled from the front as well as from the back.
pub proof fn lemma_sum_front(f: spec_fn(int) -> int, n: nat)
    requires
        n >= 1,
    ensures
        sum_of(f, n) == f(0) + sum_of(|i: int| f(i + 1), (n - 1) as nat),
    decreases n,
{
    let f1 = |i: int| f(i + 1);
    if n == 1 {
        assert(sum_of(f, 0) == 0);
        assert(sum_of(f, 1) == f(0));
        assert(sum_of(f1, 0) == 0);
    } else {
        lemma_sum_front(f, (n - 1) as nat);
        assert(sum_of(f1, (n - 1) as nat) == sum_of(f1, (n - 2) as nat) + f1(n - 2));
        assert(f1(n - 2) == f(n - 1));
    }
}

/// Summing the terms in reverse order gives the same sum.
pub proof fn lemma_sum_reverse(f: spec_fn(int) -> int, g: spec_fn(int) -> int, n: nat)
    requires
        forall|i: int| 0 <= i < n ==> #[trigger] g(i) == f(n - 1 - i),
    ensures
        sum_of(g, n) == sum_of(f, n),
    decreases n,
{
    if n >= 1 {
        lemma_sum_front(g, n);
        let g1 = |i: int| g(i + 1);
        lemma_sum_reverse(f, g1, (n - 1) as nat);
    }
}

/// Euclidean division by a positive divisor stays between the dividend and zero.
pub proof fn lemma_div_range(a: int, d: int)
    requires
        d >= 1,
    ensures
        a >= 0 ==> 0 <= a / d <= a,
        a <= 0 ==> a <= a / d <= 0,
{
    lemma_fundamental_div_mod(a, d);
    let q = a / d;
    let r = a % d;
    if a >= 0 {
        assert(q >= 0 && q <= a) by (nonlinear_arith)
            requires
                a == d * q + r,
                0 <= r < d,
                a >= 0,
                d >= 1,
        ;
    } else {
        assert(a <= q && q <= 0) by (nonlinear_arith)
            requires
                a == d * q + r,
                0 <= r < d,
                a <= 0,
                d >= 1,
        ;
    }
}

/// Floor division of a bounded `i64`, matching the mathematical quotient.
pub fn div_euclid_i64(a: i64, d: i64) -> (q: i64)
    requires
        1 <= d,
        a != i64::MIN,
    ensures
        q == a as int / d as int,
{
    proof {
        lemma_div_range(a as int, d as int);
    }
    a.checked_div_euclid(d).unwrap()
}

/// Floor division of a bounded `i128`, matching the mathematical quotient.
pub fn div_euclid_i128(a: i128, d: i128) -> (q: i128)
    requires
        1 <= d,
        a != i128::MIN,
    ensures
        q == a as int / d as int,
{
    proof {
        lemma_div_range(a as int, d as int);
    }
    a.checked_div_euclid(d).unwrap()
}

/// `2^n`.
pub open spec fn pow2(n: nat) -> nat
    decreases n,
{
    if n == 0 {
        1
    } else {
        2 * pow2((n - 1) as nat)
    }
}

/// `2^n` does not shrink as `n` grows.
pub proof fn lemma_pow2_le(a: nat, b: nat)
    requires
        a <= b,
    ensures
        pow2(a) <= pow2(b),
    decreases b,
{
    if a < b {
        lemma_pow2_le(a, (b - 1) as nat);
    }
}

/// `2^n` as a machine integer, for the exponents a raster dimension admits.
pub fn pow2_usize(n: usize) -> (r: usize)
    requires
        n <= 16,
    ensures
        r == pow2(n as nat),
        1 <= r <= 65536,
{
    proof {
        assert(pow2(16) == 65536) by {
            reveal_with_fuel(pow2, 17);
        }
    }
    let mut r: usize = 1;
    let mut i: usize = 0;
    while i < n
        invariant
            i <= n <= 16,
            r == pow2(i as nat),
            pow2(16) == 65536,
        decreases n - i,
    {
        proof {
            lemma_pow2_le((i + 1) as nat, 16);
        }
        r = r * 2;
        i = i + 1;
    }
    proof {
        lemma_pow2_le(0, n as nat);
        lemma_pow2_le(n as nat, 16);
    }
    r
}

} // verus!
