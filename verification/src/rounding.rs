//! Rounding of exact ratios to the nearest binary64 magnitude.

use vstd::arithmetic::div_mod::lemma_fundamental_div_mod;
use vstd::arithmetic::div_mod::lemma_fundamental_div_mod_converse;
use vstd::arithmetic::power2::lemma_pow2_adds;
use vstd::arithmetic::power2::lemma_pow2_pos;
use vstd::arithmetic::power2::lemma_pow2_strictly_increases;
use vstd::arithmetic::power2::lemma_pow2_unfold;
use vstd::arithmetic::power2::pow2;
use vstd::prelude::*;

verus! {

/// Two to the power 52: the number of magnitude codes that share one exponent.
pub const BINADE: u64 = 0x10_0000_0000_0000;

/// The magnitude code of infinity.
pub const INFINITY_CODE: u64 = 0x7ff0_0000_0000_0000;

/// `n / d` rounded to an integer, ties to the even one.
pub open spec fn half_even(n: nat, d: nat) -> nat {
    let q = n / d;
    let r = n % d;
    if 2 * r > d || (2 * r == d && q % 2 == 1) {
        q + 1
    } else {
        q
    }
}

/// The code of the binary64 magnitude nearest to `n / d` units of `2^-1074`, as if the exponent
/// had no upper bound. Below `2^53` units the code is the number of units itself; from there on
/// each doubling of the value moves the code up by one `BINADE`.
pub open spec fn round_code(n: nat, d: nat) -> nat
    decreases n - d,
{
    if d == 0 || n < 0x20_0000_0000_0000 * d {
        half_even(n, d)
    } else {
        BINADE as nat + round_code(n, 2 * d)
    }
}

/// The magnitude code of `n / d` units, with overflow to infinity.
pub open spec fn rounded(n: nat, d: nat) -> u64 {
    let code = round_code(n, d);
    if code < INFINITY_CODE {
        code as u64
    } else {
        INFINITY_CODE
    }
}

/// `m * 2^e` is `n / d`, cut off below its last bit; `sticky` tells that something was cut off.
pub open spec fn represents(m: nat, e: int, sticky: bool, n: nat, d: nat) -> bool {
    let big = if e >= 0 {
        d * pow2(e as nat)
    } else {
        d
    };
    let scaled = if e >= 0 {
        n
    } else {
        n * pow2((-e) as nat)
    };
    &&& d > 0
    &&& big * m <= scaled
    &&& scaled < big * (m + 1)
    &&& sticky == (scaled != big * m)
}

pub proof fn lemma_half_even_scales(n: nat, d: nat, k: nat)
    requires
        d > 0,
        k > 0,
    ensures
        half_even(n * k, d * k) == half_even(n, d),
{
    let q = (n / d) as int;
    let r = (n % d) as int;
    lemma_fundamental_div_mod(n as int, d as int);
    let kn = (n * k) as int;
    let kd = (d * k) as int;
    let kr = r * k;
    assert(kn == q * kd + kr && 0 <= kr < kd) by (nonlinear_arith)
        requires
            n == d * q + r,
            0 <= r < d,
            k > 0,
            kn == n * k,
            kd == d * k,
            kr == r * k,
    ;
    lemma_fundamental_div_mod_converse(kn, kd, q, kr);
    assert(2 * kr > kd <==> 2 * r > d) by (nonlinear_arith)
        requires
            k > 0,
            kd == d * k,
            kr == r * k,
    ;
    assert(2 * kr == kd <==> 2 * r == d) by (nonlinear_arith)
        requires
            k > 0,
            kd == d * k,
            kr == r * k,
    ;
}

/// Rounding the truncated `m` at its bit `j` gives what rounding the exact value gives.
proof fn lemma_half_even_sticky(n: nat, d: nat, m: nat, j: nat)
    requires
        d > 0,
        j >= 1,
        d * m <= n < d * (m + 1),
    ensures
        ({
            let q = m / pow2(j);
            let r = m % pow2(j);
            let h = pow2((j - 1) as nat);
            half_even(n, d * pow2(j)) == if r > h || (r == h && (n != d * m || q % 2 == 1)) {
                q + 1
            } else {
                q
            }
        }),
{
    lemma_pow2_pos(j);
    lemma_pow2_unfold(j);
    let p = pow2(j) as int;
    let h = pow2((j - 1) as nat) as int;
    let q = m as int / p;
    let r = m as int % p;
    lemma_fundamental_div_mod(m as int, p);
    let x = n - d * m;
    let big = d * p;
    let rem = d * r + x;
    assert(0 <= x < d) by (nonlinear_arith)
        requires
            d * m <= n < d * (m + 1),
            x == n - d * m,
    ;
    assert(n == q * big + rem && 0 <= rem < big) by (nonlinear_arith)
        requires
            n == d * m + x,
            m == p * q + r,
            0 <= r < p,
            0 <= x < d,
            big == d * p,
            rem == d * r + x,
    ;
    lemma_fundamental_div_mod_converse(n as int, big, q, rem);
    assert(big == 2 * (d * h)) by (nonlinear_arith)
        requires
            big == d * p,
            p == 2 * h,
    ;
    if r < h {
        assert(rem < d * h) by (nonlinear_arith)
            requires
                r + 1 <= h,
                x < d,
                rem == d * r + x,
        ;
    } else if r > h {
        assert(rem > d * h) by (nonlinear_arith)
            requires
                r >= h + 1,
                x >= 0,
                d > 0,
                rem == d * r + x,
        ;
    } else {
        assert(rem == d * h + x);
    }
}

pub proof fn lemma_round_shift(n: nat, d: nat, s: nat)
    requires
        d > 0,
        n < d * pow2(53 + s),
        s > 0 ==> n >= d * pow2(52 + s),
    ensures
        round_code(n, d) == s * BINADE + half_even(n, d * pow2(s)),
    decreases s,
{
    lemma_binade();
    if s == 0 {
        lemma_pow2_zero();
        assert(d * pow2(53) == 2 * BINADE * d) by (nonlinear_arith)
            requires
                pow2(53) == 2 * BINADE,
        ;
        assert(d * pow2(0) == d) by (nonlinear_arith)
            requires
                pow2(0) == 1,
        ;
    } else {
        let t = (s - 1) as nat;
        lemma_pow2_adds(53, t);
        lemma_pow2_pos(t);
        assert(d * pow2(52 + s) >= 2 * BINADE * d) by (nonlinear_arith)
            requires
                pow2(52 + s) == pow2(53) * pow2(t),
                pow2(53) == 2 * BINADE,
                pow2(t) >= 1,
                d > 0,
        ;
        lemma_pow2_unfold(53 + s);
        lemma_pow2_unfold(52 + s);
        lemma_pow2_unfold(s);
        assert((2 * d) * pow2(53 + t) == d * pow2(53 + s)) by (nonlinear_arith)
            requires
                pow2(53 + s) == 2 * pow2(53 + t),
        ;
        assert((2 * d) * pow2(52 + t) == d * pow2(52 + s)) by (nonlinear_arith)
            requires
                pow2(52 + s) == 2 * pow2(52 + t),
        ;
        assert((2 * d) * pow2(t) == d * pow2(s)) by (nonlinear_arith)
            requires
                pow2(s) == 2 * pow2(t),
        ;
        lemma_round_shift(n, 2 * d, t);
        assert(s * BINADE == BINADE + t * BINADE) by (nonlinear_arith)
            requires
                s == t + 1,
        ;
    }
}

/// From `2^(52 + s)` units on, codes are at least `s + 1` binades.
pub proof fn lemma_round_large(n: nat, d: nat, s: nat)
    requires
        d > 0,
        n >= d * pow2(52 + s),
    ensures
        round_code(n, d) >= (s + 1) * BINADE,
    decreases s,
{
    lemma_binade();
    if s == 0 {
        if n < 0x20_0000_0000_0000 * d {
            lemma_pow2_zero();
            lemma_half_even_lower(n, d, 0);
            assert(d * 1 == d);
        }
    } else {
        let t = (s - 1) as nat;
        lemma_pow2_unfold(52 + s);
        assert((2 * d) * pow2(52 + t) == d * pow2(52 + s)) by (nonlinear_arith)
            requires
                pow2(52 + s) == 2 * pow2(52 + t),
        ;
        lemma_pow2_monotone(53, 52 + s);
        assert(d * pow2(52 + s) >= d * pow2(53)) by (nonlinear_arith)
            requires
                pow2(52 + s) >= pow2(53),
        ;
        assert(d * pow2(53) == 0x20_0000_0000_0000 * d) by (nonlinear_arith)
            requires
                pow2(53) == 0x20_0000_0000_0000,
        ;
        lemma_round_large(n, 2 * d, t);
        assert((s + 1) * BINADE == BINADE + (t + 1) * BINADE) by (nonlinear_arith)
            requires
                s == t + 1,
        ;
    }
}

pub proof fn lemma_pow2_zero()
    ensures
        pow2(0) == 1,
{
    vstd::arithmetic::power2::lemma2_to64();
}

pub proof fn lemma_binade()
    ensures
        pow2(52) == BINADE,
        pow2(53) == 2 * BINADE,
{
    vstd::arithmetic::power2::lemma2_to64_rest();
}

/// Where the leading bits of the value stand.
proof fn lemma_scaled_bounds(m: nat, e: int, sticky: bool, n: nat, d: nat, length: nat, s: nat)
    requires
        represents(m, e, sticky, n, d),
        length >= 1,
        pow2((length - 1) as nat) <= m < pow2(length),
        s == if e + length - 53 > 0 {
            e + length - 53
        } else {
            0
        },
    ensures
        n < d * pow2(53 + s),
        s > 0 ==> n >= d * pow2(52 + s),
{
    if e >= 0 {
        let a = pow2(e as nat);
        let b = pow2(length);
        lemma_pow2_adds(e as nat, length);
        lemma_pow2_monotone((e + length) as nat, 53 + s);
        let wide = pow2(53 + s);
        assert(n < d * wide) by (nonlinear_arith)
            requires
                n < (d * a) * (m + 1),
                m + 1 <= b,
                a * b <= wide,
                d > 0,
        ;
        if s > 0 {
            let c = pow2((length - 1) as nat);
            lemma_pow2_adds(e as nat, (length - 1) as nat);
            assert(52 + s == e + length - 1);
            let low = pow2(52 + s);
            assert(n >= d * low) by (nonlinear_arith)
                requires
                    (d * a) * m <= n,
                    c <= m,
                    low == a * c,
                    d > 0,
            ;
        }
    } else {
        let k = (-e) as nat;
        let a = pow2(k);
        let b = pow2(length);
        lemma_pow2_pos(k);
        lemma_pow2_adds(53 + s, k);
        lemma_pow2_monotone(length, 53 + s + k);
        let wide = pow2(53 + s);
        assert(n < d * wide) by (nonlinear_arith)
            requires
                n * a < d * (m + 1),
                m + 1 <= b,
                b <= wide * a,
                d > 0,
                a > 0,
        ;
        if s > 0 {
            let c = pow2((length - 1) as nat);
            lemma_pow2_adds(52 + s, k);
            assert(52 + s + k == length - 1);
            let low = pow2(52 + s);
            assert(n >= d * low) by (nonlinear_arith)
                requires
                    d * m <= n * a,
                    c <= m,
                    c == low * a,
                    d > 0,
                    a > 0,
            ;
        }
    }
}

pub proof fn lemma_pow2_monotone(a: nat, b: nat)
    requires
        a <= b,
    ensures
        pow2(a) <= pow2(b),
{
    if a < b {
        lemma_pow2_strictly_increases(a, b);
    }
}

/// A value with full precision does not round below the start of its binade.
proof fn lemma_half_even_lower(n: nat, d: nat, s: nat)
    requires
        d > 0,
        n >= d * pow2(52 + s),
    ensures
        half_even(n, d * pow2(s)) >= BINADE,
{
    lemma_pow2_adds(52, s);
    lemma_pow2_pos(s);
    lemma_binade();
    let t = (d * pow2(s)) as int;
    let q = n as int / t;
    let r = n as int % t;
    assert(t > 0) by (nonlinear_arith)
        requires
            d > 0,
            pow2(s) > 0,
            t == d * pow2(s),
    ;
    lemma_fundamental_div_mod(n as int, t);
    assert(t * BINADE == d * pow2(52 + s)) by (nonlinear_arith)
        requires
            t == d * pow2(s),
            pow2(52 + s) == BINADE * pow2(s),
    ;
    assert(q >= BINADE) by (nonlinear_arith)
        requires
            n == t * q + r,
            r < t,
            t > 0,
            n >= t * BINADE,
    ;
}

/// Rounding the exact value at scale `s` is rounding the truncated one at bit `j`.
proof fn lemma_round_cut(m: nat, e: int, sticky: bool, n: nat, d: nat, j: nat, s: nat)
    requires
        represents(m, e, sticky, n, d),
        j >= 1,
        s == e + j,
    ensures
        ({
            let q = m / pow2(j);
            let r = m % pow2(j);
            let h = pow2((j - 1) as nat);
            half_even(n, d * pow2(s)) == if r > h || (r == h && (sticky || q % 2 == 1)) {
                q + 1
            } else {
                q
            }
        }),
{
    if e >= 0 {
        let big = d * pow2(e as nat);
        lemma_pow2_pos(e as nat);
        lemma_pow2_adds(e as nat, j);
        assert(big > 0) by (nonlinear_arith)
            requires
                d > 0,
                pow2(e as nat) > 0,
                big == d * pow2(e as nat),
        ;
        assert(big * pow2(j) == d * pow2(s)) by (nonlinear_arith)
            requires
                big == d * pow2(e as nat),
                pow2(s) == pow2(e as nat) * pow2(j),
        ;
        lemma_half_even_sticky(n, big, m, j);
    } else {
        let k = (-e) as nat;
        let a = pow2(k);
        lemma_pow2_pos(k);
        lemma_pow2_pos(s);
        lemma_pow2_adds(s, k);
        assert(s + k == j);
        let t = d * pow2(s);
        assert(t > 0) by (nonlinear_arith)
            requires
                d > 0,
                pow2(s) > 0,
                t == d * pow2(s),
        ;
        assert(t * a == d * pow2(j)) by (nonlinear_arith)
            requires
                t == d * pow2(s),
                pow2(j) == pow2(s) * a,
        ;
        lemma_half_even_scales(n, t, a);
        lemma_half_even_sticky(n * a, d, m, j);
    }
}

proof fn lemma_quotient_bound(m: nat, length: nat, j: nat)
    requires
        m < pow2(length),
        length <= 53 + j,
    ensures
        m / pow2(j) < 2 * BINADE,
{
    lemma_pow2_monotone(length, 53 + j);
    lemma_pow2_adds(53, j);
    lemma_binade();
    lemma_pow2_pos(j);
    let p = pow2(j) as int;
    let q = m as int / p;
    let r = m as int % p;
    lemma_fundamental_div_mod(m as int, p);
    assert(q < 2 * BINADE) by (nonlinear_arith)
        requires
            m == p * q + r,
            0 <= r,
            m < (2 * BINADE) * p,
            p > 0,
    ;
}

/// A value that fits in 53 bits is its own rounding.
proof fn lemma_round_exact(m: nat, e: int, n: nat, d: nat, j: int, s: nat, length: nat)
    requires
        represents(m, e, false, n, d),
        j <= 0,
        s == e + j,
        m < pow2(length),
        length - j <= 53,
    ensures
        half_even(n, d * pow2(s)) == m * pow2((-j) as nat),
        m * pow2((-j) as nat) < 2 * BINADE,
{
    let k = (-j) as nat;
    lemma_pow2_adds(s, k);
    assert(s + k == e);
    let t = (d * pow2(s)) as int;
    lemma_pow2_pos(s);
    lemma_pow2_pos(k);
    assert(t > 0) by (nonlinear_arith)
        requires
            d > 0,
            pow2(s) > 0,
            t == d * pow2(s),
    ;
    let q = (m * pow2(k)) as int;
    assert(n == q * t) by (nonlinear_arith)
        requires
            n == (d * pow2(e as nat)) * m,
            pow2(e as nat) == pow2(s) * pow2(k),
            t == d * pow2(s),
            q == m * pow2(k),
    ;
    lemma_fundamental_div_mod_converse(n as int, t, q, 0);
    lemma_pow2_adds(length, k);
    lemma_pow2_monotone(length + k, 53);
    lemma_binade();
    assert(m * pow2(k) < pow2(length) * pow2(k)) by (nonlinear_arith)
        requires
            m < pow2(length),
            pow2(k) > 0,
    ;
}

/// The number of binary digits of `m`.
fn bit_length(m: u128) -> (length: u32)
    requires
        m > 0,
    ensures
        1 <= length <= 128,
        pow2((length - 1) as nat) <= m,
        m < pow2(length as nat),
{
    let mut rest: u128 = m;
    let mut length: u32 = 1;
    let mut power: u128 = 1;
    proof {
        lemma_pow2_zero();
        lemma_pow2_unfold(1);
    }
    while rest > 1
        invariant
            m > 0,
            rest >= 1,
            1 <= length <= 128,
            power == pow2((length - 1) as nat),
            rest * power <= m,
            m < (rest + 1) * power,
        decreases rest,
    {
        let half: u128 = rest / 2;
        proof {
            lemma_pow2_unfold(length as nat);
            let r = rest as int;
            let p = power as int;
            let g = half as int;
            assert(g * (2 * p) <= m && m < (g + 1) * (2 * p) && 2 * p <= m) by (nonlinear_arith)
                requires
                    r * p <= m,
                    m < (r + 1) * p,
                    2 * g <= r <= 2 * g + 1,
                    r >= 2,
                    p >= 0,
            ;
            if length == 128 {
                vstd::arithmetic::power2::lemma_pow2_adds(64, 63);
                vstd::arithmetic::power2::lemma2_to64_rest();
                assert(false);
            }
        }
        rest = half;
        power = power * 2;
        length = length + 1;
    }
    proof {
        lemma_pow2_unfold(length as nat);
    }
    length
}

/// `2^k`.
pub fn power_of_two(k: u32) -> (power: u128)
    requires
        k < 128,
    ensures
        power == pow2(k as nat),
        power > 0,
{
    let mut power: u128 = 1;
    let mut i: u32 = 0;
    proof {
        lemma_pow2_zero();
        lemma_pow2_adds(64, 63);
        vstd::arithmetic::power2::lemma2_to64_rest();
    }
    while i < k
        invariant
            i <= k < 128,
            power == pow2(i as nat),
            power > 0,
            pow2(127) == 0x8000_0000_0000_0000_0000_0000_0000_0000,
        decreases k - i,
    {
        proof {
            lemma_pow2_unfold((i + 1) as nat);
            if i + 1 < 127 {
                lemma_pow2_strictly_increases((i + 1) as nat, 127);
            }
        }
        power = power * 2;
        i = i + 1;
    }
    power
}

/// The magnitude code of `m * 2^e` units, where `sticky` tells that the exact value `n / d` lies
/// strictly above `m * 2^e` (and below `(m + 1) * 2^e`).
pub fn round_scaled(
    m: u128,
    e: i32,
    sticky: bool,
    Ghost(n): Ghost<nat>,
    Ghost(d): Ghost<nat>,
) -> (code: u64)
    requires
        0 < m < pow2(127),
        -4000 <= e <= 4000,
        represents(m as nat, e as int, sticky, n, d),
        sticky ==> m >= pow2(53),
    ensures
        code == rounded(n, d),
{
    let length: u32 = bit_length(m);
    let wanted: i32 = e + (length as i32) - 53;
    let s: i32 = if wanted > 0 {
        wanted
    } else {
        0
    };
    let j: i32 = s - e;
    proof {
        lemma_scaled_bounds(m as nat, e as int, sticky, n, d, length as nat, s as nat);
        lemma_round_shift(n, d, s as nat);
    }
    if s >= 2046 {
        proof {
            lemma_half_even_lower(n, d, s as nat);
        }
        return INFINITY_CODE;
    }
    let mut q: u64 = 0;
    if j > 0 {
        proof {
            lemma_round_cut(m as nat, e as int, sticky, n, d, j as nat, s as nat);
        }
        if j >= 128 {
            proof {
                lemma_pow2_pos(j as nat);
                if j > 128 {
                    lemma_pow2_strictly_increases(128, j as nat);
                    lemma_pow2_strictly_increases(127, (j - 1) as nat);
                }
                lemma_pow2_strictly_increases(127, 128);
                vstd::arithmetic::div_mod::lemma_basic_div(m as int, pow2(j as nat) as int);
                vstd::arithmetic::div_mod::lemma_small_mod(m as nat, pow2(j as nat));
            }
        } else {
            let p: u128 = power_of_two(j as u32);
            let h: u128 = power_of_two((j - 1) as u32);
            let top: u128 = m / p;
            let r: u128 = m % p;
            proof {
                lemma_quotient_bound(m as nat, length as nat, j as nat);
                lemma_binade();
            }
            q = top as u64;
            if r > h || (r == h && (sticky || q % 2 == 1)) {
                q = q + 1;
            }
        }
    } else {
        proof {
            if sticky {
                lemma_pow2_monotone(length as nat, 53);
            }
            lemma_round_exact(m as nat, e as int, n, d, j as int, s as nat, length as nat);
            lemma_binade();
            if m >= 1 && -j >= 64 {
                lemma_pow2_monotone(53, (-j) as nat);
                assert(m * pow2((-j) as nat) >= pow2((-j) as nat)) by (nonlinear_arith)
                    requires
                        m >= 1,
                ;
            }
        }
        let p: u128 = power_of_two((-j) as u32);
        q = (m * p) as u64;
    }
    proof {
        lemma_binade();
    }
    let code: u64 = (s as u64) * BINADE + q;
    if code < INFINITY_CODE {
        code
    } else {
        INFINITY_CODE
    }
}

} // verus!
