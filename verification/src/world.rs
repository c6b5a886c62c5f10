//! The simulation state record and entity lifecycle.
//!
//! All per-entity combat state — the player, the enemy arena, the live
//! projectiles — together with the two process-wide singletons, score and
//! wave, lives on one explicit [`World`] value that the per-tick stages
//! mutate in a fixed order. Entities are identified by integer handles that
//! a single counter hands out, so every live identifier is unique.

use vstd::prelude::*;
use crate::feedback::HitFeedback;
use crate::feedback::feedback_ticked;
use crate::feedback::feedback_wf;
use crate::feedback::tick_feedback_slot;
use crate::health::Health;

verus! {

/// The wave timer fires every ten simulated seconds.
pub const WAVE_PERIOD_MILLIS: u64 = 10_000;

/// Total (and initial) health of a spawned enemy.
pub const ENEMY_TOTAL_HEALTH: u32 = 16;

/// Damage carried by every cast projectile.
pub const PROJECTILE_DAMAGE: u32 = 8;

/// Health the player loses per player–enemy contact-begin event.
pub const CONTACT_DAMAGE: u32 = 1;

/// A contact-begin event delivered by the external collision layer: an
/// unordered pair of entity identifiers that started to overlap this tick.
#[derive(Clone, Copy, Debug)]
pub struct ContactEvent {
    pub a: u64,
    pub b: u64,
}

/// The player's combat state.
#[derive(Clone, Copy, Debug)]
pub struct PlayerState {
    pub id: u64,
    pub health: Health,
    pub feedback: Option<HitFeedback>,
}

/// One live enemy.
#[derive(Clone, Copy, Debug)]
pub struct EnemyState {
    pub id: u64,
    pub health: Health,
    pub feedback: Option<HitFeedback>,
}

/// One live projectile. It is destroyed on its first contact-begin event,
/// whatever that contact hits, so it damages at most one enemy ever.
#[derive(Clone, Copy, Debug)]
pub struct ProjectileState {
    pub id: u64,
    pub damage: u32,
    /// The entity that cast it. Recorded for collaborators; combat
    /// resolution reads only the damage.
    pub owner: u64,
}

/// The wave spawner: a running index and a repeating countdown.
#[derive(Clone, Copy, Debug)]
pub struct WaveState {
    /// How many waves have fired. Starts at zero, increments by exactly one
    /// per firing, never decreases.
    pub index: u32,
    /// Simulated milliseconds until the next firing.
    pub remaining: u64,
}

impl PlayerState {
    pub open spec fn wf(self) -> bool {
        self.health.wf() && feedback_wf(self.feedback)
    }
}

impl EnemyState {
    pub open spec fn wf(self) -> bool {
        self.health.wf() && feedback_wf(self.feedback)
    }
}

impl WaveState {
    /// The countdown always has time left and never exceeds its period.
    pub open spec fn wf(self) -> bool {
        0 < self.remaining <= WAVE_PERIOD_MILLIS
    }
}

/// The whole simulation state: every entity arena plus the score and wave
/// singletons, advanced tick by tick.
pub struct World {
    /// At most one player; absent during startup and teardown windows.
    pub player: Option<PlayerState>,
    /// Live enemies, in stable spawn order.
    pub enemies: Vec<EnemyState>,
    /// Live projectiles, in stable cast order.
    pub projectiles: Vec<ProjectileState>,
    /// The wave spawner singleton.
    pub wave: WaveState,
    /// Confirmed enemy deaths. Never decremented.
    pub score: u64,
    /// Next entity identifier to hand out; all live ids lie below it.
    pub next_id: u64,
}

impl World {
    /// Every live identifier was handed out by the counter.
    pub open spec fn ids_below_next(self) -> bool {
        &&& (self.player matches Some(p) ==> p.id < self.next_id)
        &&& (forall|i: int| 0 <= i < self.enemies@.len() ==> self.enemies@[i].id < self.next_id)
        &&& (forall|i: int|
            0 <= i < self.projectiles@.len() ==> self.projectiles@[i].id < self.next_id)
    }

    /// No two live entities share an identifier.
    pub open spec fn ids_distinct(self) -> bool {
        &&& (forall|i: int, j: int|
            0 <= i < j < self.enemies@.len() ==> self.enemies@[i].id != self.enemies@[j].id)
        &&& (forall|i: int, j: int|
            0 <= i < j < self.projectiles@.len()
                ==> self.projectiles@[i].id != self.projectiles@[j].id)
        &&& (forall|i: int, j: int|
            0 <= i < self.enemies@.len() && 0 <= j < self.projectiles@.len()
                ==> self.enemies@[i].id != self.projectiles@[j].id)
        &&& (self.player matches Some(p) ==> forall|i: int|
            0 <= i < self.enemies@.len() ==> self.enemies@[i].id != p.id)
        &&& (self.player matches Some(p) ==> forall|i: int|
            0 <= i < self.projectiles@.len() ==> self.projectiles@[i].id != p.id)
    }

    /// The world invariant: every health within bounds, every feedback timer
    /// within its duration, the wave countdown running, identifiers unique,
    /// and the score never ahead of the identifiers handed out — each scored
    /// death consumed one spawned enemy, so `score + |enemies| <= next_id`.
    pub open spec fn wf(self) -> bool {
        &&& (self.player matches Some(p) ==> p.wf())
        &&& (forall|i: int| 0 <= i < self.enemies@.len() ==> self.enemies@[i].wf())
        &&& self.wave.wf()
        &&& self.ids_below_next()
        &&& self.ids_distinct()
        &&& self.score + self.enemies@.len() <= self.next_id
    }

    /// A fresh world: no entities, zero score, wave zero about to count down
    /// a full period.
    pub fn new() -> (w: World)
        ensures
            w.wf(),
            w.player is None,
            w.enemies@.len() == 0,
            w.projectiles@.len() == 0,
            w.wave == (WaveState { index: 0u32, remaining: WAVE_PERIOD_MILLIS }),
            w.score == 0,
            w.next_id == 0,
    {
        World {
            player: None,
            enemies: Vec::new(),
            projectiles: Vec::new(),
            wave: WaveState { index: 0, remaining: WAVE_PERIOD_MILLIS },
            score: 0,
            next_id: 0,
        }
    }

    /// Create the player with full health under a fresh identifier.
    pub fn spawn_player(&mut self, total_health: u32) -> (id: u64)
        requires
            old(self).wf(),
            old(self).player is None,
            old(self).next_id < u64::MAX,
        ensures
            final(self).wf(),
            id == old(self).next_id,
            final(self).player == Some(
                PlayerState {
                    id,
                    health: Health { total: total_health, current: total_health },
                    feedback: None,
                },
            ),
            final(self).enemies == old(self).enemies,
            final(self).projectiles == old(self).projectiles,
            final(self).wave == old(self).wave,
            final(self).score == old(self).score,
            final(self).next_id == old(self).next_id + 1,
    {
        let id = self.next_id;
        self.player = Some(PlayerState { id, health: Health::new(total_health), feedback: None });
        self.next_id = self.next_id + 1;
        id
    }

    /// Spawn one enemy with full health under a fresh identifier, appended
    /// to the arena in stable order.
    pub fn spawn_enemy(&mut self) -> (id: u64)
        requires
            old(self).wf(),
            old(self).next_id < u64::MAX,
        ensures
            final(self).wf(),
            id == old(self).next_id,
            final(self).enemies@ == old(self).enemies@.push(
                EnemyState {
                    id,
                    health: Health { total: ENEMY_TOTAL_HEALTH, current: ENEMY_TOTAL_HEALTH },
                    feedback: None,
                },
            ),
            final(self).player == old(self).player,
            final(self).projectiles == old(self).projectiles,
            final(self).wave == old(self).wave,
            final(self).score == old(self).score,
            final(self).next_id == old(self).next_id + 1,
    {
        let id = self.next_id;
        self.enemies.push(
            EnemyState { id, health: Health::new(ENEMY_TOTAL_HEALTH), feedback: None },
        );
        self.next_id = self.next_id + 1;
        id
    }

    /// Create one projectile from a cast action, under a fresh identifier.
    /// Aim and velocity are the movement layer's business; the combat state
    /// carries the damage the projectile will deliver and who cast it.
    pub fn cast_projectile(&mut self, owner: u64) -> (id: u64)
        requires
            old(self).wf(),
            old(self).next_id < u64::MAX,
        ensures
            final(self).wf(),
            id == old(self).next_id,
            final(self).projectiles@ == old(self).projectiles@.push(
                ProjectileState { id, damage: PROJECTILE_DAMAGE, owner },
            ),
            final(self).player == old(self).player,
            final(self).enemies == old(self).enemies,
            final(self).wave == old(self).wave,
            final(self).score == old(self).score,
            final(self).next_id == old(self).next_id + 1,
    {
        let id = self.next_id;
        self.projectiles.push(ProjectileState { id, damage: PROJECTILE_DAMAGE, owner });
        self.next_id = self.next_id + 1;
        id
    }

    /// Advance every hit-feedback timer by `delta` milliseconds, clearing
    /// the expired ones. Touches nothing but feedback slots.
    #[verifier::loop_isolation(false)]
    pub fn tick_feedback(&mut self, delta: u64)
        requires
            old(self).wf(),
        ensures
            final(self).wf(),
            final(self).player is Some <==> old(self).player is Some,
            old(self).player matches Some(p) ==> final(self).player == Some(
                PlayerState { feedback: feedback_ticked(p.feedback, delta), ..p },
            ),
            final(self).enemies@.len() == old(self).enemies@.len(),
            forall|i: int| 0 <= i < old(self).enemies@.len()
                ==> final(self).enemies@[i] == enemy_feedback_ticked(old(self).enemies@[i], delta),
            final(self).projectiles == old(self).projectiles,
            final(self).wave == old(self).wave,
            final(self).score == old(self).score,
            final(self).next_id == old(self).next_id,
    {
        match self.player {
            None => {},
            Some(mut p) => {
                tick_feedback_slot(&mut p.feedback, delta);
                self.player = Some(p);
            },
        }
        let ghost mid = *self;
        let ghost orig = self.enemies@;
        let mut i: usize = 0;
        while i < self.enemies.len()
            invariant
                i <= self.enemies@.len(),
                self.enemies@.len() == orig.len(),
                self.player == mid.player,
                self.projectiles == mid.projectiles,
                self.wave == mid.wave,
                self.score == mid.score,
                self.next_id == mid.next_id,
                forall|j: int| 0 <= j < i
                    ==> self.enemies@[j] == enemy_feedback_ticked(orig[j], delta),
                forall|j: int| i <= j < orig.len() ==> self.enemies@[j] == orig[j],
            decreases self.enemies@.len() - i,
        {
            let mut e = self.enemies[i];
            tick_feedback_slot(&mut e.feedback, delta);
            self.enemies[i] = e;
            i = i + 1;
        }
    }
}

/// An enemy after its feedback timer advanced by `delta` milliseconds.
pub open spec fn enemy_feedback_ticked(e: EnemyState, delta: u64) -> EnemyState {
    EnemyState { feedback: feedback_ticked(e.feedback, delta), ..e }
}

} // verus!
