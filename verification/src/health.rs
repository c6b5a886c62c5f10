//! Health bookkeeping shared by the player and every enemy.
//!
//! A health value is a pair of unsigned counters with the invariant
//! `current <= total`. Damage subtracts from `current` and floors at zero;
//! there is no regeneration and no overflow semantics beyond the floor.

use vstd::prelude::*;

verus! {

/// Current and total health of a living entity.
///
/// Created with `current == total`; mutated only by the damage resolvers.
#[derive(Clone, Copy, Debug)]
pub struct Health {
    pub total: u32,
    pub current: u32,
}

impl Health {
    /// A health value is well formed when `current` never exceeds `total`.
    pub open spec fn wf(self) -> bool {
        self.current <= self.total
    }

    /// The health value after taking `amount` points of damage:
    /// `current` decreases by `amount`, floored at zero; `total` is untouched.
    pub open spec fn damaged(self, amount: u32) -> Health {
        (Health {
            total: self.total,
            current: if amount >= self.current {
                0u32
            } else {
                (self.current - amount) as u32
            },
        })
    }

    /// An entity is dead exactly when its current health is zero.
    pub open spec fn spec_is_dead(self) -> bool {
        self.current == 0
    }

    /// Fresh health for a newly spawned entity: full, with the given total.
    pub fn new(total: u32) -> (h: Health)
        ensures
            h.total == total,
            h.current == total,
            h.wf(),
    {
        Health { total, current: total }
    }

    /// Subtract `amount` from current health, clamped at zero.
    pub fn apply_damage(&mut self, amount: u32)
        ensures
            *final(self) == old(self).damaged(amount),
            old(self).wf() ==> final(self).wf(),
    {
        if amount >= self.current {
            self.current = 0;
        } else {
            self.current = self.current - amount;
        }
    }

    /// Whether this health value marks a dead entity.
    pub fn is_dead(&self) -> (dead: bool)
        ensures
            dead == self.spec_is_dead(),
    {
        self.current == 0
    }
}

/// The health value after a whole sequence of damage applications,
/// each clamped at zero as in [`Health::damaged`].
pub open spec fn damaged_by_all(h: Health, amounts: Seq<u32>) -> Health
    decreases amounts.len(),
{
    if amounts.len() == 0 {
        h
    } else {
        damaged_by_all(h.damaged(amounts[0]), amounts.skip(1))
    }
}

/// Law: for every sequence of damage applications, a well-formed health value
/// stays well formed — `0 <= current <= total` always holds — and `total`
/// never changes.
pub proof fn lemma_damage_keeps_health_bounded(h: Health, amounts: Seq<u32>)
    requires
        h.wf(),
    ensures
        damaged_by_all(h, amounts).wf(),
        damaged_by_all(h, amounts).total == h.total,
    decreases amounts.len(),
{
    if amounts.len() > 0 {
        lemma_damage_keeps_health_bounded(h.damaged(amounts[0]), amounts.skip(1));
    }
}

} // verus!
