//! The two damage resolvers and the per-tick driver.
//!
//! Damage is edge-triggered: the external collision layer fires one
//! contact-begin event when two bodies start to overlap, and none while the
//! overlap merely persists, so sustained contact costs no further health.
//! Per tick, the resolvers drain the ordered event list: player–enemy
//! contacts cost the player one health point each; a projectile resolves on
//! its first contact, is removed unconditionally, and damages at most the
//! first matching enemy, whose death scores exactly one point.

use vstd::prelude::*;
use crate::feedback::HitFeedback;
use crate::feedback::HIT_FEEDBACK_MILLIS;
use crate::health::Health;
use crate::world::ContactEvent;
use crate::world::EnemyState;
use crate::world::PlayerState;
use crate::world::ProjectileState;
use crate::world::World;
use crate::world::WaveState;
use crate::world::CONTACT_DAMAGE;
use crate::world::WAVE_PERIOD_MILLIS;
use crate::world::enemy_feedback_ticked;
use crate::feedback::feedback_ticked;
use crate::wave::spawned_enemies;
use crate::wave_scale::is_growth_steps;
use crate::wave_scale::BASE_WAVE_ENEMIES;
use crate::wave_scale::MAX_WAVE_ENEMIES;

verus! {

/// Whether the event names this entity on either side of the pair.
pub open spec fn touches(id: u64, e: ContactEvent) -> bool {
    e.a == id || e.b == id
}

/// Whether the event names some live enemy.
pub open spec fn touches_some_enemy(enemies: Seq<EnemyState>, e: ContactEvent) -> bool {
    exists|i: int| 0 <= i < enemies.len() && touches(enemies[i].id, e)
}

/// A contact-begin event that damages the player: the player stands on one
/// side and a live enemy on the other.
pub open spec fn hits_player(enemies: Seq<EnemyState>, player_id: u64, e: ContactEvent) -> bool {
    touches(player_id, e) && touches_some_enemy(enemies, e)
}

/// How many events of the tick damage the player, in delivery order.
pub open spec fn player_hits(
    enemies: Seq<EnemyState>,
    player_id: u64,
    events: Seq<ContactEvent>,
) -> nat
    decreases events.len(),
{
    if events.len() == 0 {
        0
    } else {
        player_hits(enemies, player_id, events.drop_last()) + (
        if hits_player(enemies, player_id, events.last()) {
            1nat
        } else {
            0nat
        })
    }
}

/// Health after `hits` one-point hits, floored at zero.
pub open spec fn health_after_hits(h: Health, hits: nat) -> Health {
    (Health {
        total: h.total,
        current: if hits >= h.current {
            0u32
        } else {
            (h.current - hits) as u32
        },
    })
}

/// The player's combat state after taking `hits` contact hits this tick:
/// one health point lost per hit, and any hit restarts the hit feedback at
/// its full duration.
pub open spec fn player_after_hits(p: PlayerState, hits: nat) -> PlayerState {
    (PlayerState {
        health: health_after_hits(p.health, hits),
        feedback: if hits > 0 {
            Some(HitFeedback { remaining: HIT_FEEDBACK_MILLIS })
        } else {
            p.feedback
        },
        ..p
    })
}

impl World {
    /// Whether any live enemy stands on either side of the event.
    fn event_touches_enemy(&self, e: &ContactEvent) -> (r: bool)
        ensures
            r == touches_some_enemy(self.enemies@, *e),
    {
        let mut i: usize = 0;
        while i < self.enemies.len()
            invariant
                i <= self.enemies@.len(),
                forall|j: int| 0 <= j < i ==> !touches(self.enemies@[j].id, *e),
            decreases self.enemies@.len() - i,
        {
            let en = &self.enemies[i];
            if en.id == e.a || en.id == e.b {
                return true;
            }
            i = i + 1;
        }
        false
    }

    /// Drain the tick's contact-begin events into player damage: every event
    /// that pairs the player with a live enemy costs the player one health
    /// point and restarts the player's hit feedback. With no player present
    /// the resolver skips the tick. Nothing else changes; in particular,
    /// ticks whose event list carries no player–enemy contact leave the
    /// player's health untouched.
    #[verifier::loop_isolation(false)]
    pub fn resolve_player_contacts(&mut self, events: &Vec<ContactEvent>)
        requires
            old(self).wf(),
        ensures
            final(self).wf(),
            old(self).player is None ==> *final(self) == *old(self),
            old(self).player matches Some(p) ==> final(self).player == Some(
                player_after_hits(p, player_hits(old(self).enemies@, p.id, events@)),
            ),
            final(self).enemies == old(self).enemies,
            final(self).projectiles == old(self).projectiles,
            final(self).wave == old(self).wave,
            final(self).score == old(self).score,
            final(self).next_id == old(self).next_id,
    {
        let start = match self.player {
            None => {
                return ;
            },
            Some(p) => p,
        };
        let mut p = start;
        let mut i: usize = 0;
        while i < events.len()
            invariant
                i <= events@.len(),
                *self == *old(self),
                p == player_after_hits(
                    start,
                    player_hits(self.enemies@, start.id, events@.take(i as int)),
                ),
            decreases events@.len() - i,
        {
            let e = events[i];
            let ghost hits_before = player_hits(self.enemies@, start.id, events@.take(i as int));
            if (e.a == p.id || e.b == p.id) && self.event_touches_enemy(&e) {
                p.health.apply_damage(CONTACT_DAMAGE);
                p.feedback = Some(HitFeedback::begin());
            }
            proof {
                assert(events@.take(i + 1).drop_last() =~= events@.take(i as int));
                assert(events@.take(i + 1).last() == events@[i as int]);
            }
            i = i + 1;
        }
        proof {
            assert(events@.take(events@.len() as int) =~= events@);
        }
        self.player = Some(p);
    }
}

/// The parts of the world that projectile resolution reads and writes:
/// the enemy arena, the live projectiles, and the score.
pub ghost struct Battle {
    pub enemies: Seq<EnemyState>,
    pub projectiles: Seq<ProjectileState>,
    pub score: nat,
}

impl World {
    /// The projectile-resolution view of the world.
    pub open spec fn battle(self) -> Battle {
        Battle { enemies: self.enemies@, projectiles: self.projectiles@, score: self.score as nat }
    }
}

/// The first live projectile the event names, in stable cast order.
pub open spec fn first_projectile_hit(ps: Seq<ProjectileState>, e: ContactEvent) -> Option<int>
    decreases ps.len(),
{
    if ps.len() == 0 {
        None
    } else if touches(ps[0].id, e) {
        Some(0int)
    } else {
        match first_projectile_hit(ps.drop_first(), e) {
            None => None,
            Some(i) => Some(i + 1),
        }
    }
}

/// The first live enemy the event names, in stable spawn order.
pub open spec fn first_enemy_hit(enemies: Seq<EnemyState>, e: ContactEvent) -> Option<int>
    decreases enemies.len(),
{
    if enemies.len() == 0 {
        None
    } else if touches(enemies[0].id, e) {
        Some(0int)
    } else {
        match first_enemy_hit(enemies.drop_first(), e) {
            None => None,
            Some(i) => Some(i + 1),
        }
    }
}

/// What [`first_projectile_hit`] finds: the lowest matching index, or
/// nothing when no projectile matches.
pub proof fn lemma_first_projectile_hit(ps: Seq<ProjectileState>, e: ContactEvent)
    ensures
        match first_projectile_hit(ps, e) {
            Some(i) => 0 <= i < ps.len() && touches(ps[i].id, e) && (forall|j: int|
                0 <= j < i ==> !touches(ps[j].id, e)),
            None => forall|j: int| 0 <= j < ps.len() ==> !touches(ps[j].id, e),
        },
    decreases ps.len(),
{
    if ps.len() > 0 && !touches(ps[0].id, e) {
        let rest = ps.drop_first();
        lemma_first_projectile_hit(rest, e);
        match first_projectile_hit(rest, e) {
            None => {
                assert forall|j: int| 0 <= j < ps.len() implies !touches(ps[j].id, e) by {
                    if j > 0 {
                        assert(ps[j] == rest[j - 1]);
                    }
                }
            },
            Some(i) => {
                assert(first_projectile_hit(ps, e) == Some(i + 1));
                assert(ps[i + 1] == rest[i]);
                assert forall|j: int| 0 <= j < i + 1 implies !touches(ps[j].id, e) by {
                    if j > 0 {
                        assert(ps[j] == rest[j - 1]);
                    }
                }
            },
        }
    }
}

/// What [`first_enemy_hit`] finds: the lowest matching index, or nothing
/// when no enemy matches.
pub proof fn lemma_first_enemy_hit(enemies: Seq<EnemyState>, e: ContactEvent)
    ensures
        match first_enemy_hit(enemies, e) {
            Some(i) => 0 <= i < enemies.len() && touches(enemies[i].id, e) && (forall|j: int|
                0 <= j < i ==> !touches(enemies[j].id, e)),
            None => forall|j: int| 0 <= j < enemies.len() ==> !touches(enemies[j].id, e),
        },
    decreases enemies.len(),
{
    if enemies.len() > 0 && !touches(enemies[0].id, e) {
        let rest = enemies.drop_first();
        lemma_first_enemy_hit(rest, e);
        match first_enemy_hit(rest, e) {
            None => {
                assert forall|j: int| 0 <= j < enemies.len() implies !touches(enemies[j].id, e) by {
                    if j > 0 {
                        assert(enemies[j] == rest[j - 1]);
                    }
                }
            },
            Some(i) => {
                assert(first_enemy_hit(enemies, e) == Some(i + 1));
                assert(enemies[i + 1] == rest[i]);
                assert forall|j: int| 0 <= j < i + 1 implies !touches(enemies[j].id, e) by {
                    if j > 0 {
                        assert(enemies[j] == rest[j - 1]);
                    }
                }
            },
        }
    }
}

/// One contact-begin event, resolved against the projectiles: if the event
/// names a live projectile, that projectile is removed unconditionally; the
/// first live enemy the event also names — if any — takes the projectile's
/// damage and has its hit feedback restarted; an enemy brought to zero
/// health is removed and scores exactly one point.
pub open spec fn resolve_projectile_event(b: Battle, e: ContactEvent) -> Battle {
    match first_projectile_hit(b.projectiles, e) {
        None => b,
        Some(pi) => {
            let damage = b.projectiles[pi].damage;
            let b1 = Battle { projectiles: b.projectiles.remove(pi), ..b };
            match first_enemy_hit(b.enemies, e) {
                None => b1,
                Some(ei) => {
                    let hit = b.enemies[ei];
                    let h = hit.health.damaged(damage);
                    if h.current == 0 {
                        Battle { enemies: b1.enemies.remove(ei), score: b1.score + 1, ..b1 }
                    } else {
                        Battle {
                            enemies: b1.enemies.update(
                                ei,
                                EnemyState {
                                    health: h,
                                    feedback: Some(HitFeedback { remaining: HIT_FEEDBACK_MILLIS }),
                                    ..hit
                                },
                            ),
                            ..b1
                        }
                    }
                },
            }
        },
    }
}

/// The tick's whole event list resolved against the projectiles, in
/// delivery order.
pub open spec fn resolve_projectile_events(b: Battle, events: Seq<ContactEvent>) -> Battle
    decreases events.len(),
{
    if events.len() == 0 {
        b
    } else {
        resolve_projectile_event(resolve_projectile_events(b, events.drop_last()), events.last())
    }
}

impl World {
    /// The first live projectile the event names, in stable cast order.
    fn find_projectile(&self, e: &ContactEvent) -> (r: Option<usize>)
        ensures
            match r {
                Some(pi) => pi < self.projectiles@.len() && first_projectile_hit(
                    self.projectiles@,
                    *e,
                ) == Some(pi as int),
                None => first_projectile_hit(self.projectiles@, *e) is None,
            },
    {
        let mut i: usize = 0;
        while i < self.projectiles.len()
            invariant
                i <= self.projectiles@.len(),
                forall|j: int| 0 <= j < i ==> !touches(self.projectiles@[j].id, *e),
            decreases self.projectiles@.len() - i,
        {
            let p = &self.projectiles[i];
            if p.id == e.a || p.id == e.b {
                proof {
                    lemma_first_projectile_hit(self.projectiles@, *e);
                }
                return Some(i);
            }
            i = i + 1;
        }
        proof {
            lemma_first_projectile_hit(self.projectiles@, *e);
        }
        None
    }

    /// The first live enemy the event names, in stable spawn order.
    fn find_enemy(&self, e: &ContactEvent) -> (r: Option<usize>)
        ensures
            match r {
                Some(ei) => ei < self.enemies@.len() && first_enemy_hit(self.enemies@, *e) == Some(
                    ei as int,
                ),
                None => first_enemy_hit(self.enemies@, *e) is None,
            },
    {
        let mut i: usize = 0;
        while i < self.enemies.len()
            invariant
                i <= self.enemies@.len(),
                forall|j: int| 0 <= j < i ==> !touches(self.enemies@[j].id, *e),
            decreases self.enemies@.len() - i,
        {
            let en = &self.enemies[i];
            if en.id == e.a || en.id == e.b {
                proof {
                    lemma_first_enemy_hit(self.enemies@, *e);
                }
                return Some(i);
            }
            i = i + 1;
        }
        proof {
            lemma_first_enemy_hit(self.enemies@, *e);
        }
        None
    }

    /// Drain the tick's contact-begin events into projectile damage, in
    /// delivery order: per event, the first matching projectile is removed
    /// unconditionally — whatever it hit — and the first matching enemy, if
    /// any, takes its damage; a killed enemy is removed at once and scores
    /// exactly one point. Player, wave and identifier state are untouched.
    #[verifier::loop_isolation(false)]
    pub fn resolve_projectile_contacts(&mut self, events: &Vec<ContactEvent>)
        requires
            old(self).wf(),
        ensures
            final(self).wf(),
            final(self).battle() == resolve_projectile_events(old(self).battle(), events@),
            final(self).player == old(self).player,
            final(self).wave == old(self).wave,
            final(self).next_id == old(self).next_id,
    {
        let mut i: usize = 0;
        while i < events.len()
            invariant
                i <= events@.len(),
                self.wf(),
                self.player == old(self).player,
                self.wave == old(self).wave,
                self.next_id == old(self).next_id,
                self.battle() == resolve_projectile_events(
                    old(self).battle(),
                    events@.take(i as int),
                ),
            decreases events@.len() - i,
        {
            let ghost pre = *self;
            let e = events[i];
            match self.find_projectile(&e) {
                None => {},
                Some(pi) => {
                    let damage = self.projectiles[pi].damage;
                    self.projectiles.remove(pi);
                    match self.find_enemy(&e) {
                        None => {},
                        Some(ei) => {
                            let mut en = self.enemies[ei];
                            en.health.apply_damage(damage);
                            if en.health.is_dead() {
                                self.enemies.remove(ei);
                                self.score = self.score + 1;
                            } else {
                                en.feedback = Some(HitFeedback::begin());
                                self.enemies[ei] = en;
                            }
                        },
                    }
                },
            }
            proof {
                assert(self.battle() == resolve_projectile_event(pre.battle(), e));
                assert(events@.take(i + 1).drop_last() =~= events@.take(i as int));
                assert(events@.take(i + 1).last() == events@[i as int]);
            }
            i = i + 1;
        }
        proof {
            assert(events@.take(events@.len() as int) =~= events@);
        }
    }
}

/// Every enemy after its feedback timer advanced by `delta` milliseconds.
pub open spec fn enemies_feedback_ticked(es: Seq<EnemyState>, delta: u64) -> Seq<EnemyState> {
    Seq::new(es.len(), |i: int| enemy_feedback_ticked(es[i], delta))
}

impl World {
    /// One simulation tick, with the stages in their fixed order: drain the
    /// tick's contact-begin events through the contact damage resolver and
    /// then the projectile damage resolver, advance the hit-feedback timers,
    /// and finally advance the wave timer, spawning a burst on expiry.
    /// Returns how many enemies the wave spawned this tick.
    pub fn tick(&mut self, events: &Vec<ContactEvent>, delta: u64) -> (spawned: usize)
        requires
            old(self).wf(),
            old(self).wave.index < u32::MAX,
            old(self).next_id + MAX_WAVE_ENEMIES <= u64::MAX,
        ensures
            final(self).wf(),
            ({
                let b = resolve_projectile_events(old(self).battle(), events@);
                let fired = delta >= old(self).wave.remaining;
                &&& final(self).projectiles@ == b.projectiles
                &&& final(self).score == b.score
                &&& (old(self).player is None ==> final(self).player is None)
                &&& (old(self).player matches Some(p) ==> final(self).player == Some(
                    {
                        let hit = player_after_hits(
                            p,
                            player_hits(old(self).enemies@, p.id, events@),
                        );
                        PlayerState { feedback: feedback_ticked(hit.feedback, delta), ..hit }
                    },
                ))
                &&& !fired ==> {
                    &&& spawned == 0
                    &&& final(self).enemies@ == enemies_feedback_ticked(b.enemies, delta)
                    &&& final(self).wave == (WaveState {
                        index: old(self).wave.index,
                        remaining: (old(self).wave.remaining - delta) as u64,
                    })
                    &&& final(self).next_id == old(self).next_id
                }
                &&& fired ==> {
                    &&& final(self).enemies@ == enemies_feedback_ticked(b.enemies, delta)
                        + spawned_enemies(old(self).next_id, spawned as nat)
                    &&& final(self).wave == (WaveState {
                        index: (old(self).wave.index + 1) as u32,
                        remaining: WAVE_PERIOD_MILLIS,
                    })
                    &&& BASE_WAVE_ENEMIES <= spawned <= MAX_WAVE_ENEMIES
                    &&& is_growth_steps(
                        old(self).wave.index + 1,
                        (spawned - BASE_WAVE_ENEMIES) as nat,
                    )
                    &&& final(self).next_id == old(self).next_id + spawned
                }
            }),
    {
        self.resolve_player_contacts(events);
        proof {
            assert(self.battle() == old(self).battle());
        }
        self.resolve_projectile_contacts(events);
        let ghost b = self.battle();
        self.tick_feedback(delta);
        proof {
            assert(self.enemies@ =~= enemies_feedback_ticked(b.enemies, delta));
        }
        self.tick_wave(delta)
    }
}

/// Law: contact damage is edge-triggered. A single contact-begin event that
/// pairs the player with a live enemy costs the player exactly one health
/// point, while a tick that delivers no event costs none — sustained overlap
/// produces no new begin event and therefore no further damage.
pub proof fn lemma_contact_damage_edge_triggered(
    enemies: Seq<EnemyState>,
    p: PlayerState,
    e: ContactEvent,
)
    requires
        p.health.current >= 1,
        hits_player(enemies, p.id, e),
    ensures
        player_hits(enemies, p.id, seq![e]) == 1,
        player_after_hits(p, player_hits(enemies, p.id, seq![e])).health.current
            == p.health.current - 1,
        player_hits(enemies, p.id, Seq::<ContactEvent>::empty()) == 0,
        player_after_hits(p, 0) == p,
{
    assert(player_hits(enemies, p.id, Seq::<ContactEvent>::empty()) == 0);
    assert(seq![e].drop_last() =~= Seq::<ContactEvent>::empty());
    assert(seq![e].last() == e);
    assert(player_hits(enemies, p.id, seq![e])
        == player_hits(enemies, p.id, seq![e].drop_last()) + 1);
    assert(player_after_hits(p, 0) == p);
}

/// Law: ticks that deliver no player-enemy contact-begin event — however
/// many of them, and however long the bodies keep overlapping — apply no
/// contact damage at all.
pub proof fn lemma_no_begin_event_no_damage(
    enemies: Seq<EnemyState>,
    player_id: u64,
    events: Seq<ContactEvent>,
)
    requires
        forall|i: int| 0 <= i < events.len() ==> !hits_player(enemies, player_id, #[trigger] events[i]),
    ensures
        player_hits(enemies, player_id, events) == 0,
    decreases events.len(),
{
    if events.len() > 0 {
        assert(events.last() == events[events.len() - 1]);
        lemma_no_begin_event_no_damage(enemies, player_id, events.drop_last());
    }
}

/// Law: a projectile resolves at most one contact. The event removes the
/// projectile it names; a surviving matching enemy loses exactly the
/// projectile's damage; and a later event that names the spent projectile —
/// and no other — resolves nothing at all, so the same projectile can never
/// damage a second enemy.
pub proof fn lemma_projectile_resolves_once(
    b: Battle,
    e1: ContactEvent,
    e2: ContactEvent,
    pi: int,
    ei: int,
)
    requires
        first_projectile_hit(b.projectiles, e1) == Some(pi),
        first_enemy_hit(b.enemies, e1) == Some(ei),
        forall|i: int| 0 <= i < b.projectiles.len() && i != pi
            ==> !touches(b.projectiles[i].id, e2),
    ensures
        resolve_projectile_event(b, e1).projectiles == b.projectiles.remove(pi),
        b.enemies[ei].health.damaged(b.projectiles[pi].damage).current > 0
            ==> resolve_projectile_event(b, e1).enemies[ei].health == b.enemies[ei].health.damaged(
            b.projectiles[pi].damage,
        ),
        resolve_projectile_event(resolve_projectile_event(b, e1), e2)
            == resolve_projectile_event(b, e1),
{
    lemma_first_projectile_hit(b.projectiles, e1);
    lemma_first_enemy_hit(b.enemies, e1);
    let b1 = resolve_projectile_event(b, e1);
    assert(b1.projectiles == b.projectiles.remove(pi));
    lemma_first_projectile_hit(b1.projectiles, e2);
    match first_projectile_hit(b1.projectiles, e2) {
        None => {},
        Some(k) => {
            // Every projectile left is one of the others, which e2 does not
            // name.
            if k < pi {
                assert(b1.projectiles[k] == b.projectiles[k]);
            } else {
                assert(b1.projectiles[k] == b.projectiles[k + 1]);
            }
            assert(false);
        },
    }
}

/// Law: the score is monotone. No event of a tick ever decrements it: each
/// either leaves it alone or adds the single point of one enemy death.
pub proof fn lemma_score_never_decreases(b: Battle, events: Seq<ContactEvent>)
    ensures
        resolve_projectile_events(b, events).score >= b.score,
    decreases events.len(),
{
    if events.len() > 0 {
        lemma_score_never_decreases(b, events.drop_last());
    }
}

/// Law: a death scores exactly once. An enemy whose health a projectile hit
/// brings to zero is removed by that very event and the score increases by
/// exactly one; the dead enemy is gone from the arena, so no later event can
/// score it again.
pub proof fn lemma_death_scores_exactly_once(b: Battle, e: ContactEvent, pi: int, ei: int)
    requires
        first_projectile_hit(b.projectiles, e) == Some(pi),
        first_enemy_hit(b.enemies, e) == Some(ei),
        b.enemies[ei].health.current <= b.projectiles[pi].damage,
        forall|i: int, j: int|
            0 <= i < j < b.enemies.len() ==> b.enemies[i].id != b.enemies[j].id,
    ensures
        resolve_projectile_event(b, e).enemies == b.enemies.remove(ei),
        resolve_projectile_event(b, e).score == b.score + 1,
        forall|i: int| 0 <= i < resolve_projectile_event(b, e).enemies.len()
            ==> resolve_projectile_event(b, e).enemies[i].id != b.enemies[ei].id,
{
    lemma_first_projectile_hit(b.projectiles, e);
    lemma_first_enemy_hit(b.enemies, e);
    let b1 = resolve_projectile_event(b, e);
    assert forall|i: int| 0 <= i < b1.enemies.len() implies b1.enemies[i].id != b.enemies[ei].id
    by {
        if i < ei {
            assert(b1.enemies[i] == b.enemies[i]);
        } else {
            assert(b1.enemies[i] == b.enemies[i + 1]);
        }
    }
}

} // verus!
