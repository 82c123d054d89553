//! Natural numbers of any size, for block numbers and log indices.

use crate::u256::{lemma_radix_order, limb_radix};
use vstd::prelude::*;

verus! {

/// The number that a sequence of 64-bit limbs denotes, least significant
/// limb first.
pub open spec fn limbs_to_nat(s: Seq<u64>) -> nat
    decreases s.len(),
{
    if s.len() == 0 {
        0
    } else {
        s[0] as nat + limb_radix() * limbs_to_nat(s.drop_first())
    }
}

/// Whether a sequence of limbs has no zero limb at its most significant end.
pub open spec fn is_canonical(s: Seq<u64>) -> bool {
    s.len() == 0 || s.last() != 0
}

/// A zero limb at the most significant end does not change the number.
pub proof fn lemma_limbs_push_zero(s: Seq<u64>)
    ensures
        limbs_to_nat(s.push(0)) == limbs_to_nat(s),
    decreases s.len(),
{
    let t = s.push(0);
    if s.len() == 0 {
        assert(t.drop_first().len() == 0);
        assert(limbs_to_nat(t.drop_first()) == 0);
    } else {
        assert(t.drop_first() =~= s.drop_first().push(0));
        lemma_limbs_push_zero(s.drop_first());
    }
}

/// Limbs that end in a limb other than zero denote a positive number.
pub proof fn lemma_canonical_positive(s: Seq<u64>)
    requires
        s.len() > 0,
        s.last() != 0,
    ensures
        limbs_to_nat(s) > 0,
    decreases s.len(),
{
    if s.len() > 1 {
        let t = s.drop_first();
        assert(t.last() == s.last());
        lemma_canonical_positive(t);
        assert(limb_radix() * limbs_to_nat(t) > 0) by (nonlinear_arith)
            requires
                limbs_to_nat(t) > 0,
                limb_radix() > 0,
        {
        }
    }
}

/// Two canonical sequences of limbs that denote one number are one sequence.
pub proof fn lemma_canonical_injective(a: Seq<u64>, b: Seq<u64>)
    requires
        is_canonical(a),
        is_canonical(b),
        limbs_to_nat(a) == limbs_to_nat(b),
    ensures
        a == b,
    decreases a.len(),
{
    if a.len() == 0 {
        if b.len() > 0 {
            lemma_canonical_positive(b);
        }
        assert(a =~= b);
    } else if b.len() == 0 {
        lemma_canonical_positive(a);
    } else {
        let r = limb_radix() as int;
        let ta = a.drop_first();
        let tb = b.drop_first();
        let va = limbs_to_nat(ta) as int;
        let vb = limbs_to_nat(tb) as int;
        assert(a[0] as int + r * va == b[0] as int + r * vb);
        if va < vb {
            assert(r * va + r <= r * vb) by (nonlinear_arith)
                requires
                    va + 1 <= vb,
                    r > 0,
            {
            }
        }
        if vb < va {
            assert(r * vb + r <= r * va) by (nonlinear_arith)
                requires
                    vb + 1 <= va,
                    r > 0,
            {
            }
        }
        assert(va == vb);
        assert(a[0] == b[0]);
        if ta.len() > 0 {
            assert(ta.last() == a.last());
        }
        if tb.len() > 0 {
            assert(tb.last() == b.last());
        }
        lemma_canonical_injective(ta, tb);
        assert(a =~= seq![a[0]] + ta);
        assert(b =~= seq![b[0]] + tb);
    }
}

/// The canonical limbs of a number, least significant first. Zero has none.
pub open spec fn canonical_limbs(n: nat) -> Seq<u64>
    decreases n,
{
    if n == 0 {
        Seq::empty()
    } else {
        seq![(n % limb_radix()) as u64] + canonical_limbs(n / limb_radix())
    }
}

/// The canonical limbs of a number are canonical and denote the number.
pub proof fn lemma_canonical_limbs(n: nat)
    ensures
        is_canonical(canonical_limbs(n)),
        limbs_to_nat(canonical_limbs(n)) == n,
        n > 0 ==> canonical_limbs(n).len() > 0,
    decreases n,
{
    if n > 0 {
        let r = limb_radix();
        let q = n / r;
        lemma_canonical_limbs(q);
        let s = canonical_limbs(n);
        let t = canonical_limbs(q);
        assert(s.drop_first() =~= t);
        assert(n == r * q + n % r);
        if t.len() > 0 {
            assert(s.last() == t.last());
        } else {
            assert(q == 0);
            assert(s.last() == (n % r) as u64);
        }
    }
}

/// Canonical limbs are the canonical limbs of the number they denote.
pub proof fn lemma_canonical_limbs_of(s: Seq<u64>)
    requires
        is_canonical(s),
    ensures
        canonical_limbs(limbs_to_nat(s)) == s,
{
    lemma_canonical_limbs(limbs_to_nat(s));
    lemma_canonical_injective(canonical_limbs(limbs_to_nat(s)), s);
}

/// Of two canonical sequences of limbs, the longer denotes the greater
/// number.
pub proof fn lemma_longer_is_greater(a: Seq<u64>, b: Seq<u64>)
    requires
        is_canonical(b),
        a.len() < b.len(),
    ensures
        limbs_to_nat(a) < limbs_to_nat(b),
    decreases a.len(),
{
    if a.len() == 0 {
        lemma_canonical_positive(b);
    } else {
        let ta = a.drop_first();
        let tb = b.drop_first();
        assert(tb.last() == b.last());
        lemma_longer_is_greater(ta, tb);
        lemma_radix_order(a[0] as int, limbs_to_nat(ta) as int, b[0] as int, limbs_to_nat(tb) as int);
    }
}

/// Two sequences of one length that agree from position `i + 1` on compare
/// as their limbs at `i` do, where those differ.
proof fn lemma_order_by_limb(a: Seq<u64>, b: Seq<u64>, i: int)
    requires
        a.len() == b.len(),
        0 <= i < a.len(),
        a[i] < b[i],
        forall|j: int| i < j < a.len() ==> a[j] == b[j],
    ensures
        limbs_to_nat(a) < limbs_to_nat(b),
    decreases i,
{
    let ta = a.drop_first();
    let tb = b.drop_first();
    if i == 0 {
        assert(ta =~= tb);
    } else {
        lemma_order_by_limb(ta, tb, i - 1);
        lemma_radix_order(a[0] as int, limbs_to_nat(ta) as int, b[0] as int, limbs_to_nat(tb) as int);
    }
}

/// A copy of a vector of limbs.
fn copy_limbs(limbs: &Vec<u64>) -> (r: Vec<u64>)
    ensures
        r@ == limbs@,
{
    let mut out: Vec<u64> = Vec::new();
    let mut i: usize = 0;
    while i < limbs.len()
        invariant
            i <= limbs.len(),
            out@ == limbs@.subrange(0, i as int),
        decreases limbs.len() - i,
    {
        out.push(limbs[i]);
        assert(out@ =~= limbs@.subrange(0, i + 1));
        i += 1;
    }
    assert(out@ =~= limbs@);
    out
}

/// A natural number of any size. Its limbs are kept canonical, so that two
/// values are the same number exactly when they hold the same limbs.
#[derive(Debug, PartialEq, Eq, Hash)]
pub struct Natural {
    limbs: Vec<u64>,
}

impl View for Natural {
    type V = nat;

    closed spec fn view(&self) -> nat {
        limbs_to_nat(self.limbs@)
    }
}

impl Clone for Natural {
    fn clone(&self) -> (r: Self)
        ensures
            r@ == self@,
            r.limbs() == self.limbs(),
    {
        proof {
            use_type_invariant(self);
        }
        Natural { limbs: copy_limbs(&self.limbs) }
    }
}

impl Natural {
    #[verifier::type_invariant]
    spec fn canonical(self) -> bool {
        is_canonical(self.limbs@)
    }

    /// The limbs of the number, least significant first: the one canonical
    /// sequence that denotes it.
    pub closed spec fn limbs(self) -> Seq<u64> {
        self.limbs@
    }

    /// The number zero.
    pub fn zero() -> (r: Natural)
        ensures
            r@ == 0,
            r.limbs() == Seq::<u64>::empty(),
    {
        Natural { limbs: Vec::new() }
    }

    /// The number that a `u64` holds.
    pub fn from_u64(x: u64) -> (r: Natural)
        ensures
            r@ == x,
    {
        let mut limbs: Vec<u64> = Vec::new();
        if x != 0 {
            limbs.push(x);
            assert(limbs@.drop_first().len() == 0);
            assert(limbs_to_nat(limbs@.drop_first()) == 0);
        }
        Natural { limbs }
    }

    /// The number that the given limbs denote, least significant limb first.
    /// Zero limbs at the most significant end are dropped.
    pub fn from_limbs(limbs: Vec<u64>) -> (r: Natural)
        ensures
            r@ == limbs_to_nat(limbs@),
            is_canonical(limbs@) ==> r.limbs() == limbs@,
    {
        let mut limbs = limbs;
        let ghost given = limbs@;
        while limbs.len() > 0 && limbs[limbs.len() - 1] == 0
            invariant
                limbs_to_nat(limbs@) == limbs_to_nat(given),
                is_canonical(given) ==> limbs@ == given,
            decreases limbs.len(),
        {
            let ghost before = limbs@;
            limbs.pop();
            proof {
                assert(before =~= limbs@.push(0));
                lemma_limbs_push_zero(limbs@);
            }
        }
        Natural { limbs }
    }

    /// The limbs of the number, least significant first, with no zero limb at
    /// the most significant end. Zero has no limbs.
    pub fn to_limbs(&self) -> (r: Vec<u64>)
        ensures
            r@ == canonical_limbs(self@),
            r@ == self.limbs(),
            is_canonical(r@),
            limbs_to_nat(r@) == self@,
    {
        proof {
            use_type_invariant(self);
            lemma_canonical_limbs_of(self.limbs@);
        }
        copy_limbs(&self.limbs)
    }

    /// Whether this number is strictly below the other.
    pub fn less_than(&self, other: &Natural) -> (r: bool)
        ensures
            r == (self@ < other@),
    {
        proof {
            use_type_invariant(self);
            use_type_invariant(other);
        }
        let n = self.limbs.len();
        if n != other.limbs.len() {
            proof {
                if n < other.limbs.len() {
                    lemma_longer_is_greater(self.limbs@, other.limbs@);
                } else {
                    lemma_longer_is_greater(other.limbs@, self.limbs@);
                }
            }
            return n < other.limbs.len();
        }
        let mut i: usize = n;
        while i > 0
            invariant
                i <= n,
                n == self.limbs.len(),
                n == other.limbs.len(),
                forall|j: int| i <= j < n ==> self.limbs@[j] == other.limbs@[j],
            decreases i,
        {
            i -= 1;
            if self.limbs[i] != other.limbs[i] {
                proof {
                    if self.limbs@[i as int] < other.limbs@[i as int] {
                        lemma_order_by_limb(self.limbs@, other.limbs@, i as int);
                    } else {
                        lemma_order_by_limb(other.limbs@, self.limbs@, i as int);
                    }
                }
                return self.limbs[i] < other.limbs[i];
            }
        }
        assert(self.limbs@ =~= other.limbs@);
        false
    }

    /// Whether two values are the same number.
    pub fn equals(&self, other: &Natural) -> (r: bool)
        ensures
            r == (self@ == other@),
    {
        proof {
            use_type_invariant(self);
            use_type_invariant(other);
            if self@ == other@ {
                lemma_canonical_injective(self.limbs@, other.limbs@);
            }
        }
        if self.limbs.len() != other.limbs.len() {
            return false;
        }
        let mut i: usize = 0;
        while i < self.limbs.len()
            invariant
                i <= self.limbs.len(),
                self.limbs.len() == other.limbs.len(),
                self@ == other@ ==> self.limbs@ == other.limbs@,
                forall|j: int| 0 <= j < i ==> self.limbs@[j] == other.limbs@[j],
            decreases self.limbs.len() - i,
        {
            if self.limbs[i] != other.limbs[i] {
                return false;
            }
            i += 1;
        }
        assert(self.limbs@ =~= other.limbs@);
        true
    }
}

} // verus!
