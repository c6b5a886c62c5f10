//! Exact natural-number arithmetic on little-endian limb vectors.
//!
//! The wave spawner needs the exact comparison `11^k <= n * 10^k`, whose
//! operands outgrow every machine integer long before a 32-bit wave index
//! runs out. The few operations that comparison needs — multiply by a small
//! constant and compare — are implemented here on base `10^9` limb vectors
//! and verified against [`limbs_value`], the number a vector denotes.

use vstd::prelude::*;
use vstd::arithmetic::power::pow;
use vstd::arithmetic::power::lemma_pow_increases;
use vstd::arithmetic::mul::lemma_mul_inequality;
use vstd::arithmetic::div_mod::lemma_fundamental_div_mod;

verus! {

/// Radix of one limb. Small enough that a limb times eleven plus a carry
/// stays far below `u64::MAX`.
pub const LIMB_BASE: u64 = 1_000_000_000;

/// The natural number denoted by a little-endian limb sequence.
pub open spec fn limbs_value(s: Seq<u64>) -> nat
    decreases s.len(),
{
    if s.len() == 0 {
        0
    } else {
        (s[0] + LIMB_BASE * limbs_value(s.skip(1))) as nat
    }
}

/// Every limb lies below the radix.
pub open spec fn limbs_wf(s: Seq<u64>) -> bool {
    forall|i: int| 0 <= i < s.len() ==> s[i] < LIMB_BASE
}

/// Well-formed, non-empty, and without a leading zero limb, so that the limb
/// count orders the denoted values.
pub open spec fn limbs_canonical(s: Seq<u64>) -> bool {
    &&& limbs_wf(s)
    &&& s.len() > 0
    &&& s[s.len() - 1] != 0
}

/// One unfolding of the radix power: `pow` is opaque in the library.
proof fn lemma_pow_unfold(b: int, e: nat)
    requires
        e >= 1,
    ensures
        pow(b, e) == b * pow(b, (e - 1) as nat),
{
    reveal(pow);
}

/// Appending a limb adds its value at the next radix power.
proof fn lemma_value_push(s: Seq<u64>, x: u64)
    ensures
        limbs_value(s.push(x)) == limbs_value(s) + x * pow(LIMB_BASE as int, s.len() as nat),
    decreases s.len(),
{
    if s.len() == 0 {
        assert(s.push(x).skip(1) =~= Seq::<u64>::empty());
        assert(s.push(x)[0] == x);
        assert(limbs_value(Seq::<u64>::empty()) == 0);
        vstd::arithmetic::power::lemma_pow0(LIMB_BASE as int);
    } else {
        assert(s.push(x).skip(1) =~= s.skip(1).push(x));
        lemma_value_push(s.skip(1), x);
        let b = LIMB_BASE as int;
        let p = pow(b, (s.len() - 1) as nat);
        lemma_pow_unfold(b, s.len() as nat);
        assert(pow(b, s.len() as nat) == b * p);
        assert(b * (limbs_value(s.skip(1)) + x * p) == b * limbs_value(s.skip(1)) + x * (b * p))
            by (nonlinear_arith);
    }
}

/// A well-formed limb vector denotes less than the radix power of its length.
proof fn lemma_value_upper(s: Seq<u64>)
    requires
        limbs_wf(s),
    ensures
        limbs_value(s) < pow(LIMB_BASE as int, s.len() as nat),
    decreases s.len(),
{
    let b = LIMB_BASE as int;
    if s.len() == 0 {
        vstd::arithmetic::power::lemma_pow0(b);
    } else {
        lemma_value_upper(s.skip(1));
        let p = pow(b, (s.len() - 1) as nat);
        lemma_pow_unfold(b, s.len() as nat);
        assert(pow(b, s.len() as nat) == b * p);
        lemma_mul_inequality(limbs_value(s.skip(1)) as int, p - 1, b);
        assert((p - 1) * b == b * p - b) by (nonlinear_arith);
        assert(limbs_value(s.skip(1)) as int * b == b * limbs_value(s.skip(1))) by (nonlinear_arith);
    }
}

/// A canonical limb vector denotes at least the radix power of one less than
/// its length: its top limb really contributes.
proof fn lemma_value_lower(s: Seq<u64>)
    requires
        limbs_canonical(s),
    ensures
        limbs_value(s) >= pow(LIMB_BASE as int, (s.len() - 1) as nat),
    decreases s.len(),
{
    let b = LIMB_BASE as int;
    if s.len() == 1 {
        assert(s[0] >= 1);
        vstd::arithmetic::power::lemma_pow0(b);
    } else {
        assert(limbs_canonical(s.skip(1)));
        lemma_value_lower(s.skip(1));
        let p = pow(b, (s.len() - 2) as nat);
        lemma_pow_unfold(b, (s.len() - 1) as nat);
        assert(pow(b, (s.len() - 1) as nat) == b * p);
        lemma_mul_inequality(p, limbs_value(s.skip(1)) as int, b);
        assert(p * b == b * p) by (nonlinear_arith);
        assert(limbs_value(s.skip(1)) as int * b == b * limbs_value(s.skip(1))) by (nonlinear_arith);
    }
}

/// A well-formed vector whose value fills its width has no leading zero.
proof fn lemma_canonical_from_value(s: Seq<u64>)
    requires
        limbs_wf(s),
        s.len() > 0,
        limbs_value(s) >= pow(LIMB_BASE as int, (s.len() - 1) as nat),
    ensures
        limbs_canonical(s),
{
    if s[s.len() - 1] == 0 {
        assert(s =~= s.take(s.len() - 1).push(s[s.len() - 1]));
        lemma_value_push(s.take(s.len() - 1), s[s.len() - 1]);
        assert(limbs_wf(s.take(s.len() - 1)));
        lemma_value_upper(s.take(s.len() - 1));
        assert(false);
    }
}

/// Two equally long well-formed vectors that agree above position `i` are
/// ordered as their limbs at position `i` when those differ.
proof fn lemma_value_orders_by_top(a: Seq<u64>, b: Seq<u64>, i: int)
    requires
        a.len() == b.len(),
        limbs_wf(a),
        limbs_wf(b),
        0 <= i < a.len(),
        a[i] < b[i],
        forall|j: int| i < j < a.len() ==> a[j] == b[j],
    ensures
        limbs_value(a) < limbs_value(b),
    decreases i,
{
    let base = LIMB_BASE as int;
    if i == 0 {
        assert(a.skip(1) =~= b.skip(1));
    } else {
        assert(a.skip(1).len() == b.skip(1).len());
        assert(forall|j: int| i - 1 < j < a.skip(1).len() ==> a.skip(1)[j] == b.skip(1)[j]);
        lemma_value_orders_by_top(a.skip(1), b.skip(1), i - 1);
        assert(limbs_value(a.skip(1)) + 1 <= limbs_value(b.skip(1)));
        lemma_mul_inequality(limbs_value(a.skip(1)) as int + 1, limbs_value(b.skip(1)) as int, base);
        assert((limbs_value(a.skip(1)) as int + 1) * base == base * limbs_value(a.skip(1)) + base)
            by (nonlinear_arith);
        assert(limbs_value(b.skip(1)) as int * base == base * limbs_value(b.skip(1)))
            by (nonlinear_arith);
    }
}

/// Compare the denoted values of two canonical limb vectors.
pub fn limbs_le(a: &Vec<u64>, b: &Vec<u64>) -> (r: bool)
    requires
        limbs_canonical(a@),
        limbs_canonical(b@),
    ensures
        r == (limbs_value(a@) <= limbs_value(b@)),
{
    if a.len() < b.len() {
        proof {
            lemma_value_upper(a@);
            lemma_value_lower(b@);
            lemma_pow_increases(LIMB_BASE as nat, a@.len() as nat, (b@.len() - 1) as nat);
        }
        return true;
    }
    if a.len() > b.len() {
        proof {
            lemma_value_upper(b@);
            lemma_value_lower(a@);
            lemma_pow_increases(LIMB_BASE as nat, b@.len() as nat, (a@.len() - 1) as nat);
        }
        return false;
    }
    let mut i: usize = a.len();
    while i > 0
        invariant
            i <= a@.len(),
            a@.len() == b@.len(),
            limbs_wf(a@),
            limbs_wf(b@),
            forall|j: int| i <= j < a@.len() ==> a@[j] == b@[j],
        decreases i,
    {
        i = i - 1;
        let x = a[i];
        let y = b[i];
        if x < y {
            proof {
                lemma_value_orders_by_top(a@, b@, i as int);
            }
            return true;
        }
        if x > y {
            proof {
                lemma_value_orders_by_top(b@, a@, i as int);
            }
            return false;
        }
    }
    proof {
        assert(a@ =~= b@);
    }
    true
}

/// Multiply a canonical limb vector in place by a small constant.
pub fn limbs_mul_small(v: &mut Vec<u64>, c: u64)
    requires
        2 <= c <= 11,
        limbs_canonical(old(v)@),
    ensures
        limbs_canonical(final(v)@),
        limbs_value(final(v)@) == c * limbs_value(old(v)@),
{
    let ghost orig = v@;
    proof {
        assert(v@.take(0) =~= Seq::<u64>::empty());
        assert(orig.take(0) =~= Seq::<u64>::empty());
        assert(limbs_value(Seq::<u64>::empty()) == 0);
        vstd::arithmetic::power::lemma_pow0(LIMB_BASE as int);
    }
    let mut carry: u64 = 0;
    let mut i: usize = 0;
    while i < v.len()
        invariant
            2 <= c <= 11,
            i <= v@.len(),
            v@.len() == orig.len(),
            limbs_wf(orig),
            carry <= c,
            limbs_wf(v@.take(i as int)),
            forall|j: int| i <= j < v@.len() ==> v@[j] == orig[j],
            limbs_value(v@.take(i as int)) + pow(LIMB_BASE as int, i as nat) * carry
                == c * limbs_value(orig.take(i as int)),
        decreases v@.len() - i,
    {
        assert(v@[i as int] == orig[i as int]);
        proof {
            lemma_mul_inequality(v@[i as int] as int, LIMB_BASE as int - 1, c as int);
        }
        let ghost pre = v@;
        let prod: u64 = v[i] * c + carry;
        let lo: u64 = prod % LIMB_BASE;
        let hi: u64 = prod / LIMB_BASE;
        v[i] = lo;
        proof {
            let b = LIMB_BASE as int;
            let x = orig[i as int] as int;
            lemma_fundamental_div_mod(prod as int, b);
            // prod == b * hi + lo and 0 <= lo < b
            assert(v@.take(i as int) =~= pre.take(i as int));
            assert(v@.take(i as int + 1) =~= pre.take(i as int).push(lo));
            lemma_value_push(pre.take(i as int), lo);
            let p = pow(b, i as nat);
            vstd::arithmetic::power::lemma_pow_positive(b, i as nat);
            assert(pow(b, (i + 1) as nat) == b * p) by {
                vstd::arithmetic::power::lemma_pow1(b);
                vstd::arithmetic::power::lemma_pow_adds(b, 1, i as nat);
            }
            assert(orig.take(i as int + 1) =~= orig.take(i as int).push(orig[i as int]));
            lemma_value_push(orig.take(i as int), orig[i as int]);
            // Both sides of the invariant gain the contribution of limb i.
            assert(limbs_value(v@.take(i as int + 1)) + (b * p) * hi
                == c * limbs_value(orig.take(i as int + 1))) by (nonlinear_arith)
                requires
                    limbs_value(pre.take(i as int)) + p * carry
                        == c * limbs_value(orig.take(i as int)),
                    limbs_value(v@.take(i as int + 1))
                        == limbs_value(pre.take(i as int)) + lo * p,
                    limbs_value(orig.take(i as int + 1))
                        == limbs_value(orig.take(i as int)) + x * p,
                    x * c + carry == b * hi + lo,
            ;
            assert(hi <= c) by (nonlinear_arith)
                requires
                    x * c + carry == b * hi + lo,
                    0 <= lo < b,
                    0 <= x < b,
                    0 <= carry <= c,
                    2 <= c <= 11,
                    b == LIMB_BASE as int,
            ;
        }
        carry = hi;
        i = i + 1;
    }
    proof {
        assert(v@.take(i as int) =~= v@);
        assert(orig.take(i as int) =~= orig);
        assert(limbs_value(v@) + pow(LIMB_BASE as int, orig.len() as nat) * carry
            == c * limbs_value(orig));
    }
    if carry > 0 {
        let ghost pre = v@;
        v.push(carry);
        proof {
            lemma_value_push(pre, carry);
            assert(limbs_value(v@) == limbs_value(pre) + carry * pow(LIMB_BASE as int, pre.len() as nat));
            assert(limbs_value(v@) == c * limbs_value(orig));
            assert(limbs_wf(v@));
            assert(v@[v@.len() - 1] == carry);
        }
    } else {
        proof {
            lemma_value_lower(orig);
            let p = pow(LIMB_BASE as int, (orig.len() - 1) as nat);
            vstd::arithmetic::power::lemma_pow_positive(LIMB_BASE as int, (orig.len() - 1) as nat);
            assert(c * limbs_value(orig) >= 2 * p) by (nonlinear_arith)
                requires
                    c >= 2,
                    limbs_value(orig) >= p,
                    p > 0,
            ;
            lemma_canonical_from_value(v@);
        }
    }
}

} // verus!
