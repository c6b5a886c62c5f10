//! The wave spawner: a repeating countdown that emits enemy bursts.
//!
//! Each tick advances the countdown by the elapsed time. On expiry the wave
//! index increments by exactly one, the countdown resets to its full period,
//! and the spawner emits `floor(log_base_1.1(index)) + 10` fresh enemies,
//! each fully initialised with full health and a unique identifier. Where
//! the enemies stand on screen is the placement layer's business; their
//! combat state is created here.

use vstd::prelude::*;
use crate::health::Health;
use crate::wave_scale::is_growth_steps;
use crate::wave_scale::wave_enemy_count;
use crate::wave_scale::BASE_WAVE_ENEMIES;
use crate::wave_scale::MAX_WAVE_ENEMIES;
use crate::world::EnemyState;
use crate::world::WaveState;
use crate::world::World;
use crate::world::ENEMY_TOTAL_HEALTH;
use crate::world::WAVE_PERIOD_MILLIS;

verus! {

/// The burst of enemies a firing wave appends to the arena: `count` fresh
/// full-health enemies under consecutive identifiers starting at `start_id`.
pub open spec fn spawned_enemies(start_id: u64, count: nat) -> Seq<EnemyState> {
    Seq::new(
        count,
        |i: int| EnemyState {
            id: (start_id + i) as u64,
            health: Health { total: ENEMY_TOTAL_HEALTH, current: ENEMY_TOTAL_HEALTH },
            feedback: None,
        },
    )
}

impl World {
    /// Advance the wave countdown by `delta` milliseconds. While time is
    /// left nothing else changes; on expiry the index increments by exactly
    /// one, the countdown resets to the full period, and the logarithmically
    /// scaled burst of fresh enemies is appended to the arena. Returns how
    /// many enemies were spawned.
    #[verifier::loop_isolation(false)]
    pub fn tick_wave(&mut self, delta: u64) -> (spawned: usize)
        requires
            old(self).wf(),
            old(self).wave.index < u32::MAX,
            old(self).next_id + MAX_WAVE_ENEMIES <= u64::MAX,
        ensures
            final(self).wf(),
            final(self).player == old(self).player,
            final(self).projectiles == old(self).projectiles,
            final(self).score == old(self).score,
            delta < old(self).wave.remaining ==> {
                &&& spawned == 0
                &&& final(self).wave == (WaveState {
                    index: old(self).wave.index,
                    remaining: (old(self).wave.remaining - delta) as u64,
                })
                &&& final(self).enemies == old(self).enemies
                &&& final(self).next_id == old(self).next_id
            },
            delta >= old(self).wave.remaining ==> {
                &&& final(self).wave == (WaveState {
                    index: (old(self).wave.index + 1) as u32,
                    remaining: WAVE_PERIOD_MILLIS,
                })
                &&& BASE_WAVE_ENEMIES <= spawned <= MAX_WAVE_ENEMIES
                &&& is_growth_steps(
                    old(self).wave.index + 1,
                    (spawned - BASE_WAVE_ENEMIES) as nat,
                )
                &&& final(self).enemies@ == old(self).enemies@ + spawned_enemies(
                    old(self).next_id,
                    spawned as nat,
                )
                &&& final(self).next_id == old(self).next_id + spawned
            },
    {
        if delta < self.wave.remaining {
            self.wave.remaining = self.wave.remaining - delta;
            return 0;
        }
        self.wave.index = self.wave.index + 1;
        self.wave.remaining = WAVE_PERIOD_MILLIS;
        let count = wave_enemy_count(self.wave.index);
        let ghost mid = *self;
        let ghost start = self.next_id;
        let mut j: usize = 0;
        proof {
            assert(self.enemies@ =~= mid.enemies@ + spawned_enemies(start, 0));
        }
        while j < count
            invariant
                j <= count,
                self.player == mid.player,
                self.projectiles == mid.projectiles,
                self.wave == mid.wave,
                self.score == mid.score,
                self.next_id == start + j,
                self.enemies@ == mid.enemies@ + spawned_enemies(start, j as nat),
            decreases count - j,
        {
            let id = self.next_id;
            self.enemies.push(
                EnemyState {
                    id,
                    health: Health { total: ENEMY_TOTAL_HEALTH, current: ENEMY_TOTAL_HEALTH },
                    feedback: None,
                },
            );
            self.next_id = self.next_id + 1;
            j = j + 1;
            proof {
                assert(self.enemies@ =~= mid.enemies@ + spawned_enemies(start, j as nat));
            }
        }
        proof {
            assert forall|i: int| 0 <= i < self.enemies@.len() implies self.enemies@[i].wf() by {
                if i >= mid.enemies@.len() {
                    assert(self.enemies@[i] == spawned_enemies(start, count as nat)[
                        i - mid.enemies@.len()
                    ]);
                }
            }
        }
        count
    }
}

} // verus!
