//! 256-bit unsigned integers, as four 64-bit limbs, and their decimal and
//! hexadecimal text forms.

use vstd::prelude::*;

verus! {

/// The radix of one limb: 2^64.
pub open spec fn limb_radix() -> nat {
    0x1_0000_0000_0000_0000nat
}

/// The first number that 256 bits cannot hold: 2^256.
pub open spec fn u256_limit() -> nat {
    limb_radix() * limb_radix() * limb_radix() * limb_radix()
}

/// The number that four limbs denote, least significant limb first.
pub open spec fn limbs_value(l0: u64, l1: u64, l2: u64, l3: u64) -> nat {
    l0 as nat + limb_radix() * (l1 as nat + limb_radix() * (l2 as nat + limb_radix() * (l3 as nat)))
}

/// A 256-bit unsigned integer. The limbs are stored least significant first.
#[derive(Clone, Copy, Debug, PartialEq, Eq, Hash)]
pub struct U256(pub [u64; 4]);

impl View for U256 {
    type V = nat;

    open spec fn view(&self) -> nat {
        limbs_value(self.0[0], self.0[1], self.0[2], self.0[3])
    }
}

/// A limb and what stands above it compare first by what stands above.
pub proof fn lemma_radix_order(x1: int, y1: int, x2: int, y2: int)
    requires
        0 <= x1 < limb_radix(),
        0 <= x2 < limb_radix(),
        y1 < y2,
    ensures
        x1 + limb_radix() * y1 < x2 + limb_radix() * y2,
{
    let r = limb_radix() as int;
    assert(r * y1 + r <= r * y2) by (nonlinear_arith)
        requires
            y1 + 1 <= y2,
            r > 0,
    {
    }
}

/// Every 256-bit integer is below 2^256.
pub proof fn lemma_u256_bounded(a: U256)
    ensures
        a@ < u256_limit(),
{
    let r = limb_radix() as int;
    let h2 = a.0[2] as int + r * (a.0[3] as int);
    let h1 = a.0[1] as int + r * h2;
    assert(r * (a.0[3] as int) <= r * (r - 1)) by (nonlinear_arith)
        requires
            a.0[3] as int <= r - 1,
            r > 0,
    {
    }
    assert(r * h2 <= r * (r * r - 1)) by (nonlinear_arith)
        requires
            h2 <= r * r - 1,
            r > 0,
    {
    }
    assert(r * h1 <= r * (r * r * r - 1)) by (nonlinear_arith)
        requires
            h1 <= r * r * r - 1,
            r > 0,
    {
    }
    assert(r * r * r * r == u256_limit());
    assert(r * (r * r * r - 1) == r * r * r * r - r) by (nonlinear_arith);
}

/// Two sets of limbs that denote the same number are the same limbs.
pub proof fn lemma_limbs_value_injective(a: U256, b: U256)
    requires
        a@ == b@,
    ensures
        a.0@ == b.0@,
{
    let r = limb_radix() as int;
    let a2 = a.0[2] as int + r * (a.0[3] as int);
    let b2 = b.0[2] as int + r * (b.0[3] as int);
    let a1 = a.0[1] as int + r * a2;
    let b1 = b.0[1] as int + r * b2;
    if a1 < b1 {
        lemma_radix_order(a.0[0] as int, a1, b.0[0] as int, b1);
    }
    if b1 < a1 {
        lemma_radix_order(b.0[0] as int, b1, a.0[0] as int, a1);
    }
    if a2 < b2 {
        lemma_radix_order(a.0[1] as int, a2, b.0[1] as int, b2);
    }
    if b2 < a2 {
        lemma_radix_order(b.0[1] as int, b2, a.0[1] as int, a2);
    }
    if a.0[3] < b.0[3] {
        lemma_radix_order(a.0[2] as int, a.0[3] as int, b.0[2] as int, b.0[3] as int);
    }
    if b.0[3] < a.0[3] {
        lemma_radix_order(b.0[2] as int, b.0[3] as int, a.0[2] as int, a.0[3] as int);
    }
    assert(a.0@ =~= b.0@);
}

/// Limb `j` of a number below 2^256, the least significant being limb 0.
pub open spec fn u256_limb(n: nat, j: int) -> u64 {
    let r = limb_radix();
    if j == 0 {
        (n % r) as u64
    } else if j == 1 {
        (n / r % r) as u64
    } else if j == 2 {
        (n / r / r % r) as u64
    } else {
        (n / r / r / r % r) as u64
    }
}

/// The limbs of a 256-bit integer are the limbs of its number.
pub proof fn lemma_u256_limbs(a: U256)
    ensures
        a.0[0] == u256_limb(a@, 0),
        a.0[1] == u256_limb(a@, 1),
        a.0[2] == u256_limb(a@, 2),
        a.0[3] == u256_limb(a@, 3),
{
    let r = limb_radix() as int;
    let h2 = a.0[2] as int + r * (a.0[3] as int);
    let h1 = a.0[1] as int + r * h2;
    let n = a.0[0] as int + r * h1;
    assert(n == a@);
    assert(n / r == h1 && n % r == a.0[0]);
    assert(h1 / r == h2 && h1 % r == a.0[1]);
    assert(h2 / r == a.0[3] && h2 % r == a.0[2]);
    assert((a.0[3] as int) % r == a.0[3]);
}

/// The four limbs of a number below 2^256 denote the number.
pub proof fn lemma_u256_limbs_value(n: nat)
    requires
        n < u256_limit(),
    ensures
        limbs_value(u256_limb(n, 0), u256_limb(n, 1), u256_limb(n, 2), u256_limb(n, 3)) == n,
{
    let r = limb_radix() as int;
    let n = n as int;
    let q1 = n / r;
    let q2 = q1 / r;
    let q3 = q2 / r;
    assert(n == r * q1 + n % r);
    assert(q1 == r * q2 + q1 % r);
    assert(q2 == r * q3 + q2 % r);
    assert(q3 < r) by {
        assert(u256_limit() == r * r * r * r);
        if q3 >= r {
            assert(q2 >= r * r) by (nonlinear_arith)
                requires
                    q2 >= r * q3,
                    q3 >= r,
                    r > 0,
            {
            }
            assert(q1 >= r * r * r) by (nonlinear_arith)
                requires
                    q1 >= r * q2,
                    q2 >= r * r,
                    r > 0,
            {
            }
            assert(n >= r * r * r * r) by (nonlinear_arith)
                requires
                    n >= r * q1,
                    q1 >= r * r * r,
                    r > 0,
            {
            }
        }
    }
    assert(q3 % r == q3);
}

impl U256 {
    /// The number zero.
    pub fn zero() -> (r: U256)
        ensures
            r@ == 0,
    {
        U256([0, 0, 0, 0])
    }

    /// The 256-bit form of a 64-bit number.
    pub fn from_u64(x: u64) -> (r: U256)
        ensures
            r@ == x,
    {
        U256([x, 0, 0, 0])
    }

    /// Whether two values denote the same number.
    pub fn equals(&self, other: &U256) -> (r: bool)
        ensures
            r == (self@ == other@),
    {
        let same = self.0[0] == other.0[0] && self.0[1] == other.0[1] && self.0[2] == other.0[2]
            && self.0[3] == other.0[3];
        proof {
            if self@ == other@ {
                lemma_limbs_value_injective(*self, *other);
            }
        }
        same
    }

    /// Whether this number is strictly below the other.
    pub fn less_than(&self, other: &U256) -> (r: bool)
        ensures
            r == (self@ < other@),
    {
        let a = &self.0;
        let b = &other.0;
        proof {
            let r = limb_radix() as int;
            let a2 = a[2] as int + r * (a[3] as int);
            let b2 = b[2] as int + r * (b[3] as int);
            let a1 = a[1] as int + r * a2;
            let b1 = b[1] as int + r * b2;
            if a[3] < b[3] {
                lemma_radix_order(a[2] as int, a[3] as int, b[2] as int, b[3] as int);
            }
            if b[3] < a[3] {
                lemma_radix_order(b[2] as int, b[3] as int, a[2] as int, a[3] as int);
            }
            if a2 < b2 {
                lemma_radix_order(a[1] as int, a2, b[1] as int, b2);
            }
            if b2 < a2 {
                lemma_radix_order(b[1] as int, b2, a[1] as int, a2);
            }
            if a1 < b1 {
                lemma_radix_order(a[0] as int, a1, b[0] as int, b1);
            }
            if b1 < a1 {
                lemma_radix_order(b[0] as int, b1, a[0] as int, a1);
            }
        }
        if a[3] != b[3] {
            a[3] < b[3]
        } else if a[2] != b[2] {
            a[2] < b[2]
        } else if a[1] != b[1] {
            a[1] < b[1]
        } else {
            a[0] < b[0]
        }
    }

    /// The number as a `u64`, where it is small enough for one.
    pub fn checked_as_u64(&self) -> (r: Option<u64>)
        ensures
            match r {
                Some(x) => self@ == x,
                None => self@ > u64::MAX,
            },
    {
        if self.0[1] == 0 && self.0[2] == 0 && self.0[3] == 0 {
            Some(self.0[0])
        } else {
            proof {
                let r = limb_radix() as int;
                let a2 = self.0[2] as int + r * (self.0[3] as int);
                let a1 = self.0[1] as int + r * a2;
                if self.0[3] > 0 {
                    lemma_radix_order(0, 0, self.0[2] as int, self.0[3] as int);
                }
                if a2 > 0 {
                    lemma_radix_order(0, 0, self.0[1] as int, a2);
                }
                assert(a1 > 0);
                lemma_radix_order(r - 1, 0, self.0[0] as int, a1);
            }
            None
        }
    }
}

} // verus!
