//! Enemy count per wave.
//!
//! Each wave spawns `floor(log_base_1.1(index)) + 10` enemies, so the
//! population grows logarithmically with the wave index. The logarithm is
//! characterised exactly over the integers: `k = floor(log_1.1 n)` holds
//! exactly when `11^k <= n * 10^k` and `11^(k+1) > n * 10^(k+1)`, and the
//! spawner computes it with exact limb arithmetic from [`crate::bignat`].

use vstd::prelude::*;
use vstd::arithmetic::power::pow;
use vstd::arithmetic::power::lemma_pow0;
use vstd::arithmetic::power::lemma_pow1;
use vstd::arithmetic::power::lemma_pow_adds;
use vstd::arithmetic::power::lemma_pow_positive;
use vstd::arithmetic::mul::lemma_mul_inequality_converse;
use vstd::arithmetic::mul::lemma_mul_nonnegative;
use crate::bignat::limbs_canonical;
use crate::bignat::limbs_le;
use crate::bignat::limbs_mul_small;
use crate::bignat::limbs_value;
use crate::bignat::LIMB_BASE;

verus! {

/// Enemies spawned by the very first wave; every later wave adds the
/// logarithmic growth on top of this base.
pub const BASE_WAVE_ENEMIES: usize = 10;

/// A coarse cap on the enemies one wave can spawn: the growth steps of a
/// 32-bit index never exceed 255 (see [`lemma_growth_steps_bounded`]).
pub const MAX_WAVE_ENEMIES: usize = 265;

/// The wave index `n` has reached growth step `k`: `(11/10)^k <= n`,
/// written over the integers as `11^k <= n * 10^k`.
pub open spec fn scale_reached(n: int, k: nat) -> bool {
    pow(11, k) <= n * pow(10, k)
}

/// `k` is exactly `floor(log_base_1.1(n))`: step `k` is reached and step
/// `k + 1` is not.
pub open spec fn is_growth_steps(n: int, k: nat) -> bool {
    scale_reached(n, k) && !scale_reached(n, k + 1)
}

/// One unfolding of each side of [`scale_reached`] at a successor step.
proof fn lemma_scale_unfold(n: int, k: nat)
    ensures
        pow(11, k + 1) == 11 * pow(11, k),
        n * pow(10, k + 1) == 10 * (n * pow(10, k)),
{
    lemma_pow1(11);
    lemma_pow_adds(11, 1, k);
    lemma_pow1(10);
    lemma_pow_adds(10, 1, k);
    assert(n * (10 * pow(10, k)) == 10 * (n * pow(10, k))) by (nonlinear_arith);
}

/// A reached step stays reached when the index only shrinks the step:
/// reaching step `k + 1` implies reaching step `k`.
proof fn lemma_scale_step_down(n: int, k: nat)
    requires
        n >= 0,
        scale_reached(n, k + 1),
    ensures
        scale_reached(n, k),
{
    lemma_scale_unfold(n, k);
    lemma_pow_positive(10, k);
    lemma_mul_nonnegative(n, pow(10, k));
}

/// Every step below a reached step is reached too.
proof fn lemma_scale_down_to(n: int, j: nat, k: nat)
    requires
        n >= 0,
        j <= k,
        scale_reached(n, k),
    ensures
        scale_reached(n, j),
    decreases k - j,
{
    if j < k {
        lemma_scale_step_down(n, (k - 1) as nat);
        lemma_scale_down_to(n, j, (k - 1) as nat);
    }
}

/// The number of growth steps of an index is unique: the two defining
/// inequalities of [`is_growth_steps`] pin `k` down.
pub proof fn lemma_growth_steps_unique(n: int, k1: nat, k2: nat)
    requires
        n >= 1,
        is_growth_steps(n, k1),
        is_growth_steps(n, k2),
    ensures
        k1 == k2,
{
    if k1 + 1 <= k2 {
        lemma_scale_down_to(n, k1 + 1, k2);
    }
    if k2 + 1 <= k1 {
        lemma_scale_down_to(n, k2 + 1, k1);
    }
}

/// Eight growth steps more than double the index they require:
/// `11^(8j) >= 2^j * 10^(8j)`.
proof fn lemma_eight_steps_double(j: nat)
    ensures
        pow(11, 8 * j) >= pow(2, j) * pow(10, 8 * j),
        pow(2, j) > 0,
        pow(10, 8 * j) > 0,
    decreases j,
{
    lemma_pow_positive(2, j);
    lemma_pow_positive(10, 8 * j);
    if j == 0 {
        lemma_pow0(11);
        lemma_pow0(2);
        lemma_pow0(10);
    } else {
        let i = (j - 1) as nat;
        lemma_eight_steps_double(i);
        lemma_pow_adds(11, 8 * i, 8);
        lemma_pow_adds(10, 8 * i, 8);
        lemma_pow_adds(2, i, 1);
        lemma_pow1(2);
        lemma_pow_positive(11, 8 * i);
        lemma_pow_positive(10, 8 * i);
        lemma_pow_positive(2, i);
        assert(pow(11, 8) == 214358881 && pow(10, 8) == 100000000) by {
            reveal_with_fuel(pow, 9);
        }
        assert(8 * j == 8 * i + 8);
        assert(pow(11, 8 * i) * pow(11, 8) >= (pow(2, i) * pow(10, 8 * i)) * (2 * pow(10, 8)))
            by (nonlinear_arith)
            requires
                pow(11, 8 * i) >= pow(2, i) * pow(10, 8 * i),
                pow(11, 8) == 214358881,
                pow(10, 8) == 100000000,
                pow(2, i) > 0,
                pow(10, 8 * i) > 0,
        ;
        assert((pow(2, i) * pow(10, 8 * i)) * (2 * pow(10, 8))
            == (pow(2, i) * 2) * (pow(10, 8 * i) * pow(10, 8))) by (nonlinear_arith);
    }
}

/// A growth step reached by a 32-bit index is at most 255.
pub proof fn lemma_growth_steps_bounded(n: int, k: nat)
    requires
        1 <= n < 0x1_0000_0000,
        scale_reached(n, k),
    ensures
        k <= 255,
{
    if k > 255 {
        lemma_scale_down_to(n, 256, k);
        lemma_eight_steps_double(32);
        assert(pow(2, 32) == 0x1_0000_0000) by {
            vstd::arithmetic::power2::lemma_pow2(32);
            vstd::arithmetic::power2::lemma2_to64();
        }
        // Step 256 requires an index of at least 2^32.
        assert(pow(2, 32) * pow(10, 256) <= n * pow(10, 256));
        lemma_pow_positive(10, 256);
        lemma_mul_inequality_converse(pow(2, 32), n, pow(10, 256));
    }
}

/// The exact number of growth steps of a wave index, by exact limb
/// arithmetic: walk `k` upward while `11^(k+1) <= n * 10^(k+1)` still holds.
fn growth_steps(n: u32) -> (k: usize)
    requires
        n >= 1,
    ensures
        is_growth_steps(n as int, k as nat),
        k <= 255,
{
    let ghost ni = n as int;
    // eleven holds 11^(k+1); scaled holds n * 10^(k+1).
    let mut eleven: Vec<u64> = Vec::new();
    eleven.push(11);
    let mut scaled: Vec<u64> = Vec::new();
    let n64: u64 = n as u64;
    if n64 < LIMB_BASE {
        scaled.push(n64);
    } else {
        scaled.push(n64 % LIMB_BASE);
        scaled.push(n64 / LIMB_BASE);
    }
    proof {
        assert(limbs_value(Seq::<u64>::empty()) == 0);
        assert(limbs_value(eleven@) == 11) by {
            assert(limbs_value(Seq::<u64>::empty()) == 0);
            assert(eleven@.skip(1) =~= Seq::<u64>::empty());
        }
        assert(limbs_value(scaled@) == n) by {
            assert(limbs_value(Seq::<u64>::empty()) == 0);
            if n64 >= LIMB_BASE {
                assert(scaled@.skip(1).skip(1) =~= Seq::<u64>::empty());
                assert(scaled@.skip(1)[0] == n64 / LIMB_BASE);
                assert(limbs_value(scaled@.skip(1)) == n64 / LIMB_BASE);
                assert(limbs_value(scaled@)
                    == scaled@[0] + LIMB_BASE * limbs_value(scaled@.skip(1)));
                vstd::arithmetic::div_mod::lemma_fundamental_div_mod(n64 as int, LIMB_BASE as int);
            } else {
                assert(scaled@.skip(1) =~= Seq::<u64>::empty());
            }
        }
        assert(limbs_canonical(eleven@));
        assert(limbs_canonical(scaled@));
        lemma_pow1(11);
        lemma_pow1(10);
        lemma_pow0(11);
        lemma_pow0(10);
    }
    limbs_mul_small(&mut scaled, 10);
    let mut k: usize = 0;
    loop
        invariant
            1 <= n,
            ni == n as int,
            k <= 255,
            limbs_canonical(eleven@),
            limbs_canonical(scaled@),
            limbs_value(eleven@) == pow(11, (k + 1) as nat),
            limbs_value(scaled@) == ni * pow(10, (k + 1) as nat),
            scale_reached(ni, k as nat),
        ensures
            is_growth_steps(ni, k as nat),
            k <= 255,
        decreases 256 - k,
    {
        if !limbs_le(&eleven, &scaled) {
            // 11^(k+1) > n * 10^(k+1): the next step is out of reach.
            break;
        }
        proof {
            assert(scale_reached(ni, (k + 1) as nat));
            lemma_growth_steps_bounded(ni, (k + 1) as nat);
        }
        k = k + 1;
        limbs_mul_small(&mut eleven, 11);
        limbs_mul_small(&mut scaled, 10);
        proof {
            lemma_scale_unfold(ni, (k + 1 - 1) as nat);
            lemma_scale_unfold(ni, k as nat);
            assert(limbs_value(eleven@) == pow(11, (k + 1) as nat));
            assert(limbs_value(scaled@) == ni * pow(10, (k + 1) as nat));
        }
    }
    k
}

/// How many enemies the wave with the given index spawns:
/// `floor(log_base_1.1(index)) + 10`, with an index of zero defensively
/// treated as one.
pub fn wave_enemy_count(index: u32) -> (count: usize)
    ensures
        BASE_WAVE_ENEMIES <= count <= MAX_WAVE_ENEMIES,
        is_growth_steps(
            if index == 0 { 1int } else { index as int },
            (count - BASE_WAVE_ENEMIES) as nat,
        ),
{
    let n: u32 = if index == 0 { 1 } else { index };
    let steps = growth_steps(n);
    BASE_WAVE_ENEMIES + steps
}

} // verus!
