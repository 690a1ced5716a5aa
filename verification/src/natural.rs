//! Natural numbers of any size, as far as the conversion from and to decimal text needs them.

use vstd::arithmetic::power::lemma_pow0;
use vstd::arithmetic::power::lemma_pow_positive;
use vstd::arithmetic::power::pow;
use vstd::prelude::*;

verus! {

/// The base of the limbs.
pub open spec fn base() -> int {
    0x1_0000_0000
}

/// The number that the lowest `k` limbs hold.
pub open spec fn low_value(limbs: Seq<u32>, k: nat) -> int
    decreases k,
{
    if k == 0 {
        0
    } else {
        low_value(limbs, (k - 1) as nat) + limbs[k - 1] * pow(base(), (k - 1) as nat)
    }
}

/// A natural number, lowest limb first.
pub struct Natural {
    pub limbs: Vec<u32>,
}

impl View for Natural {
    type V = int;

    open spec fn view(&self) -> int {
        low_value(self.limbs@, self.limbs@.len())
    }
}

proof fn lemma_next_power(k: nat)
    ensures
        pow(base(), k + 1) == base() * pow(base(), k),
        pow(base(), k) > 0,
{
    reveal(pow);
    lemma_pow_positive(base(), k);
}

/// The value depends only on the limbs counted.
proof fn lemma_low_value_agrees(a: Seq<u32>, b: Seq<u32>, k: nat)
    requires
        k <= a.len(),
        k <= b.len(),
        forall|i: int| 0 <= i < k ==> a[i] == b[i],
    ensures
        low_value(a, k) == low_value(b, k),
    decreases k,
{
    if k > 0 {
        lemma_low_value_agrees(a, b, (k - 1) as nat);
    }
}

proof fn lemma_low_value_bound(a: Seq<u32>, k: nat)
    requires
        k <= a.len(),
    ensures
        0 <= low_value(a, k) < pow(base(), k),
    decreases k,
{
    if k == 0 {
        lemma_pow0(base());
    } else {
        let j = (k - 1) as nat;
        lemma_low_value_bound(a, j);
        lemma_next_power(j);
        let p = pow(base(), j);
        let v = low_value(a, j);
        let x = a[k - 1] as int;
        assert(0 <= v + x * p && v + x * p < 0x1_0000_0000 * p) by (nonlinear_arith)
            requires
                0 <= v < p,
                0 <= x < 0x1_0000_0000,
        ;
    }
}

/// The value after one limb is replaced.
proof fn lemma_low_value_update(a: Seq<u32>, i: int, x: u32, k: nat)
    requires
        0 <= i < a.len(),
        k <= a.len(),
    ensures
        low_value(a.update(i, x), k) == low_value(a, k) + (if i < k {
            (x - a[i]) * pow(base(), i as nat)
        } else {
            0
        }),
    decreases k,
{
    if k > 0 {
        lemma_low_value_update(a, i, x, (k - 1) as nat);
        if i == k - 1 {
            let p = pow(base(), i as nat);
            let y = a[i];
            assert(x * p == y * p + (x - y) * p) by (nonlinear_arith);
        }
    }
}

impl Natural {
    pub fn from_u64(n: u64) -> (r: Natural)
        ensures
            r@ == n,
    {
        let low: u32 = (n % 0x1_0000_0000) as u32;
        let high: u32 = (n / 0x1_0000_0000) as u32;
        let limbs: Vec<u32> = vec![low, high];
        proof {
            lemma_pow0(base());
            lemma_next_power(0);
            reveal_with_fuel(low_value, 3);
            assert(limbs@.len() == 2);
            let p = pow(base(), 1);
            assert(low_value(limbs@, 1) == low * pow(base(), 0));
            assert(low_value(limbs@, 2) == low_value(limbs@, 1) + high * p);
            assert(low * pow(base(), 0) == low) by (nonlinear_arith)
                requires
                    pow(base(), 0) == 1,
            ;
            assert(high * p == high * 0x1_0000_0000) by (nonlinear_arith)
                requires
                    p == 0x1_0000_0000,
            ;
        }
        Natural { limbs }
    }

    /// Multiplies by `factor` and adds `term`.
    pub fn multiply_add(&mut self, factor: u32, term: u32)
        ensures
            final(self)@ == old(self)@ * factor + term,
    {
        let mut result: Vec<u32> = Vec::new();
        let mut carry: u32 = term;
        let mut i: usize = 0;
        proof {
            lemma_pow0(base());
            assert(carry * pow(base(), 0) == carry) by (nonlinear_arith)
                requires
                    pow(base(), 0) == 1,
            ;
        }
        while i < self.limbs.len()
            invariant
                *self == *old(self),
                i <= self.limbs.len(),
                result.len() == i,
                low_value(result@, i as nat) + carry * pow(base(), i as nat) == low_value(
                    self.limbs@,
                    i as nat,
                ) * factor + term,
            decreases self.limbs.len() - i,
        {
            let limb: u32 = self.limbs[i];
            assert(limb * factor + carry <= 0xffff_ffff * 0xffff_ffff + 0xffff_ffff)
                by (nonlinear_arith)
                requires
                    0 <= limb <= 0xffff_ffff,
                    0 <= factor <= 0xffff_ffff,
                    0 <= carry <= 0xffff_ffff,
            ;
            let product: u64 = (limb as u64) * (factor as u64) + (carry as u64);
            let low: u32 = (product % 0x1_0000_0000) as u32;
            let high: u32 = (product / 0x1_0000_0000) as u32;
            let ghost before = result@;
            result.push(low);
            proof {
                lemma_low_value_agrees(before, result@, i as nat);
                lemma_next_power(i as nat);
                let p = pow(base(), i as nat);
                let q = pow(base(), (i + 1) as nat);
                let v = low_value(before, i as nat);
                let s = low_value(self.limbs@, i as nat);
                assert((v + low * p) + high * q == (s + limb * p) * factor + term)
                    by (nonlinear_arith)
                    requires
                        v + carry * p == s * factor + term,
                        low + high * 0x1_0000_0000 == limb * factor + carry,
                        q == 0x1_0000_0000 * p,
                ;
            }
            carry = high;
            i = i + 1;
        }
        if carry != 0 {
            let ghost before = result@;
            result.push(carry);
            proof {
                lemma_low_value_agrees(before, result@, i as nat);
            }
        } else {
            assert(0 * pow(base(), i as nat) == 0) by (nonlinear_arith);
        }
        self.limbs = result;
    }

    /// The limb at a position; zero above the highest.
    fn limb(&self, i: usize) -> (r: u32)
        ensures
            r == self.spec_limb(i as int),
    {
        if i < self.limbs.len() {
            self.limbs[i]
        } else {
            0
        }
    }

    spec fn spec_limb(&self, i: int) -> u32 {
        if 0 <= i < self.limbs@.len() {
            self.limbs@[i]
        } else {
            0
        }
    }

    /// The lowest `k` limbs, with zeros above the highest.
    spec fn padded(&self, k: nat) -> Seq<u32> {
        Seq::new(k, |i: int| self.spec_limb(i))
    }

    proof fn lemma_padded(&self, k: nat)
        requires
            k >= self.limbs@.len(),
        ensures
            low_value(self.padded(k), k) == self@,
        decreases k,
    {
        let n = self.limbs@.len();
        if k == n {
            lemma_low_value_agrees(self.padded(k), self.limbs@, k);
        } else {
            let j = (k - 1) as nat;
            self.lemma_padded(j);
            lemma_low_value_agrees(self.padded(k), self.padded(j), j);
            let p = pow(base(), j);
            assert(0 * p == 0) by (nonlinear_arith);
        }
    }

    /// `self >= other`.
    pub fn at_least(&self, other: &Natural) -> (r: bool)
        ensures
            r == (self@ >= other@),
    {
        let mut k: usize = if self.limbs.len() >= other.limbs.len() {
            self.limbs.len()
        } else {
            other.limbs.len()
        };
        let ghost top = k as nat;
        let ghost a = self.padded(top);
        let ghost b = other.padded(top);
        proof {
            self.lemma_padded(top);
            other.lemma_padded(top);
        }
        while k > 0
            invariant
                k <= top,
                a == self.padded(top),
                b == other.padded(top),
                low_value(a, top) == self@,
                low_value(b, top) == other@,
                self@ - other@ == low_value(a, k as nat) - low_value(b, k as nat),
            decreases k,
        {
            let i: usize = k - 1;
            let x: u32 = self.limb(i);
            let y: u32 = other.limb(i);
            proof {
                assert(a[i as int] == x && b[i as int] == y);
                lemma_low_value_bound(a, i as nat);
                lemma_low_value_bound(b, i as nat);
                let p = pow(base(), i as nat);
                if x > y {
                    assert(x * p >= y * p + p) by (nonlinear_arith)
                        requires
                            x >= y + 1,
                            p > 0,
                    ;
                }
                if x < y {
                    assert(y * p >= x * p + p) by (nonlinear_arith)
                        requires
                            y >= x + 1,
                            p > 0,
                    ;
                }
            }
            if x > y {
                return true;
            }
            if x < y {
                return false;
            }
            k = i;
        }
        true
    }

    /// Takes `other` away.
    pub fn subtract(&mut self, other: &Natural)
        requires
            old(self)@ >= other@,
        ensures
            final(self)@ == old(self)@ - other@,
    {
        let k: usize = if self.limbs.len() >= other.limbs.len() {
            self.limbs.len()
        } else {
            other.limbs.len()
        };
        let ghost a = self.padded(k as nat);
        let ghost b = other.padded(k as nat);
        proof {
            self.lemma_padded(k as nat);
            other.lemma_padded(k as nat);
        }
        let mut result: Vec<u32> = Vec::new();
        let mut borrow: u32 = 0;
        let mut i: usize = 0;
        proof {
            lemma_pow0(base());
            assert(0 * pow(base(), 0) == 0) by (nonlinear_arith);
        }
        while i < k
            invariant
                *self == *old(self),
                i <= k,
                a == self.padded(k as nat),
                b == other.padded(k as nat),
                result.len() == i,
                borrow <= 1,
                low_value(result@, i as nat) == low_value(a, i as nat) - low_value(b, i as nat)
                    + borrow * pow(base(), i as nat),
            decreases k - i,
        {
            let x: u32 = self.limb(i);
            let y: u32 = other.limb(i);
            let taken: u64 = (y as u64) + (borrow as u64);
            let (digit, next): (u32, u32) = if (x as u64) >= taken {
                ((x as u64 - taken) as u32, 0)
            } else {
                ((x as u64 + 0x1_0000_0000 - taken) as u32, 1)
            };
            let ghost before = result@;
            result.push(digit);
            proof {
                assert(a[i as int] == x && b[i as int] == y);
                lemma_low_value_agrees(before, result@, i as nat);
                lemma_next_power(i as nat);
                let p = pow(base(), i as nat);
                let q = pow(base(), (i + 1) as nat);
                let v = low_value(before, i as nat);
                let s = low_value(a, i as nat);
                let t = low_value(b, i as nat);
                assert(v + digit * p == (s + x * p) - (t + y * p) + next * q) by (nonlinear_arith)
                    requires
                        v == s - t + borrow * p,
                        digit == x - y - borrow + next * 0x1_0000_0000,
                        q == 0x1_0000_0000 * p,
                ;
            }
            borrow = next;
            i = i + 1;
        }
        proof {
            lemma_low_value_bound(result@, k as nat);
            let p = pow(base(), k as nat);
            if borrow == 1 {
                assert(1 * p == p) by (nonlinear_arith);
                assert(false);
            }
            assert(0 * p == 0) by (nonlinear_arith);
        }
        self.limbs = result;
    }

    /// Divides by `divisor`, rounding down, and hands back the remainder.
    pub fn divide(&mut self, divisor: u32) -> (remainder: u32)
        requires
            divisor > 0,
        ensures
            old(self)@ == final(self)@ * divisor + remainder,
            remainder < divisor,
            final(self)@ >= 0,
    {
        let length: usize = self.limbs.len();
        let ghost before = self.limbs@;
        let ghost all = length as nat;
        let mut remainder: u32 = 0;
        let mut i: usize = length;
        while i > 0
            invariant
                i <= length == self.limbs.len() == before.len(),
                all == length,
                divisor > 0,
                remainder < divisor,
                forall|j: int| 0 <= j < i ==> self.limbs@[j] == before[j],
                low_value(before, all) == (low_value(self.limbs@, all) - low_value(before, i as nat))
                    * divisor + remainder * pow(base(), i as nat) + low_value(before, i as nat),
            decreases i,
        {
            let k: usize = i - 1;
            let limb: u32 = self.limbs[k];
            assert(remainder * 0x1_0000_0000 + limb < divisor * 0x1_0000_0000) by (nonlinear_arith)
                requires
                    remainder + 1 <= divisor,
                    limb < 0x1_0000_0000,
            ;
            let held: u64 = (remainder as u64) * 0x1_0000_0000 + (limb as u64);
            let quotient: u64 = held / (divisor as u64);
            let rest: u64 = held % (divisor as u64);
            proof {
                vstd::arithmetic::div_mod::lemma_fundamental_div_mod(held as int, divisor as int);
                assert(quotient < 0x1_0000_0000) by (nonlinear_arith)
                    requires
                        held == divisor * quotient + rest,
                        held < divisor * 0x1_0000_0000,
                        rest >= 0,
                        divisor > 0,
                ;
            }
            let ghost now = self.limbs@;
            self.limbs.set(k, quotient as u32);
            proof {
                lemma_low_value_update(now, k as int, quotient as u32, all);
                lemma_next_power(k as nat);
                let p = pow(base(), k as nat);
                let v = low_value(now, all);
                let w = low_value(before, k as nat);
                let l = limb as int;
                let q = quotient as int;
                let d = divisor as int;
                let r = remainder as int;
                let s = rest as int;
                let whole = low_value(before, all);
                assert(whole == (v + (q - l) * p - w) * d + s * p + w) by (nonlinear_arith)
                    requires
                        whole == (v - (w + l * p)) * d + r * (0x1_0000_0000 * p) + (w + l * p),
                        r * 0x1_0000_0000 + l == d * q + s,
                ;
            }
            remainder = rest as u32;
            i = k;
        }
        proof {
            lemma_pow0(base());
            lemma_low_value_bound(self.limbs@, all);
        }
        remainder
    }
}

} // verus!
