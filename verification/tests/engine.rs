use wavecombat::feedback::HIT_FEEDBACK_MILLIS;
use wavecombat::health::Health;
use wavecombat::wave_scale::wave_enemy_count;
use wavecombat::world::ContactEvent;
use wavecombat::world::World;
use wavecombat::world::ENEMY_TOTAL_HEALTH;
use wavecombat::world::PROJECTILE_DAMAGE;
use wavecombat::world::WAVE_PERIOD_MILLIS;

#[test]
fn health_damage_clamps_at_zero_and_keeps_bounds() {
    let mut h = Health::new(10);
    assert_eq!(h.total, 10);
    assert_eq!(h.current, 10);
    let amounts = [3u32, 20, 5, 0, 1_000_000];
    for a in amounts {
        h.apply_damage(a);
        assert!(h.current <= h.total);
        assert_eq!(h.total, 10);
    }
    assert_eq!(h.current, 0);
    assert!(h.is_dead());
}

#[test]
fn health_damage_subtracts_exactly() {
    let mut h = Health::new(16);
    h.apply_damage(7);
    assert_eq!(h.current, 9);
    assert!(!h.is_dead());
    h.apply_damage(9);
    assert_eq!(h.current, 0);
    assert!(h.is_dead());
}

#[test]
fn single_contact_event_costs_player_one_point() {
    let mut w = World::new();
    let player = w.spawn_player(5);
    let enemy = w.spawn_enemy();
    let events = vec![ContactEvent { a: player, b: enemy }];
    w.resolve_player_contacts(&events);
    let p = w.player.unwrap();
    assert_eq!(p.health.current, 4);
    assert_eq!(p.health.total, 5);
    assert_eq!(p.feedback.unwrap().remaining, HIT_FEEDBACK_MILLIS);
}

#[test]
fn sustained_overlap_without_begin_events_costs_nothing() {
    let mut w = World::new();
    let player = w.spawn_player(5);
    let enemy = w.spawn_enemy();
    let hit = vec![ContactEvent { a: enemy, b: player }];
    w.resolve_player_contacts(&hit);
    assert_eq!(w.player.unwrap().health.current, 4);
    // The bodies stay overlapped for many ticks, but the collision layer is
    // edge-triggered and delivers no further begin event.
    let none: Vec<ContactEvent> = Vec::new();
    for _ in 0..10 {
        w.tick(&none, 16);
    }
    assert_eq!(w.player.unwrap().health.current, 4);
}

#[test]
fn contact_with_scenery_costs_player_nothing() {
    let mut w = World::new();
    let player = w.spawn_player(5);
    let _enemy = w.spawn_enemy();
    // The other side of the pair is no enemy.
    let events = vec![ContactEvent { a: player, b: 999 }];
    w.resolve_player_contacts(&events);
    let p = w.player.unwrap();
    assert_eq!(p.health.current, 5);
    assert!(p.feedback.is_none());
}

#[test]
fn resolver_skips_tick_without_player() {
    let mut w = World::new();
    let enemy = w.spawn_enemy();
    let events = vec![ContactEvent { a: enemy, b: 999 }];
    w.resolve_player_contacts(&events);
    assert!(w.player.is_none());
    assert_eq!(w.enemies.len(), 1);
}

#[test]
fn projectile_damages_contacted_enemy_and_is_removed() {
    let mut w = World::new();
    let enemy = w.spawn_enemy();
    let projectile = w.cast_projectile(0);
    assert_eq!(w.projectiles[0].damage, PROJECTILE_DAMAGE);
    let events = vec![ContactEvent { a: projectile, b: enemy }];
    w.resolve_projectile_contacts(&events);
    assert_eq!(w.projectiles.len(), 0);
    assert_eq!(w.enemies.len(), 1);
    assert_eq!(w.enemies[0].health.current, ENEMY_TOTAL_HEALTH - PROJECTILE_DAMAGE);
    assert_eq!(w.enemies[0].feedback.unwrap().remaining, HIT_FEEDBACK_MILLIS);
    assert_eq!(w.score, 0);
}

#[test]
fn projectile_cannot_damage_a_second_enemy() {
    let mut w = World::new();
    let first = w.spawn_enemy();
    let second = w.spawn_enemy();
    let projectile = w.cast_projectile(0);
    let events = vec![
        ContactEvent { a: projectile, b: first },
        ContactEvent { a: projectile, b: second },
    ];
    w.resolve_projectile_contacts(&events);
    // The projectile resolved its first contact and was removed; the second
    // event found no projectile.
    assert_eq!(w.projectiles.len(), 0);
    assert_eq!(w.enemies[0].health.current, ENEMY_TOTAL_HEALTH - PROJECTILE_DAMAGE);
    assert_eq!(w.enemies[1].health.current, ENEMY_TOTAL_HEALTH);
    assert_eq!(w.enemies[1].id, second);
}

#[test]
fn projectile_hitting_scenery_is_still_removed() {
    let mut w = World::new();
    let _enemy = w.spawn_enemy();
    let projectile = w.cast_projectile(0);
    let events = vec![ContactEvent { a: projectile, b: 999 }];
    w.resolve_projectile_contacts(&events);
    assert_eq!(w.projectiles.len(), 0);
    assert_eq!(w.enemies[0].health.current, ENEMY_TOTAL_HEALTH);
    assert_eq!(w.score, 0);
}

#[test]
fn enemy_death_removes_it_and_scores_exactly_once() {
    let mut w = World::new();
    let enemy = w.spawn_enemy();
    // Two projectiles with 8 damage each against 16 total health.
    let p1 = w.cast_projectile(0);
    let p2 = w.cast_projectile(0);
    let first = vec![ContactEvent { a: p1, b: enemy }];
    w.resolve_projectile_contacts(&first);
    assert_eq!(w.enemies[0].health.current, 8);
    assert_eq!(w.score, 0);
    let second = vec![ContactEvent { a: p2, b: enemy }];
    w.resolve_projectile_contacts(&second);
    assert_eq!(w.enemies.len(), 0);
    assert_eq!(w.score, 1);
    // Nothing is left to score: later events change nothing.
    let stray = vec![ContactEvent { a: p2, b: enemy }];
    w.resolve_projectile_contacts(&stray);
    assert_eq!(w.score, 1);
}

#[test]
fn wave_counts_match_the_logarithmic_formula() {
    assert_eq!(wave_enemy_count(1), 10);
    assert_eq!(wave_enemy_count(10), 34);
    assert_eq!(wave_enemy_count(100), 58);
}

#[test]
fn wave_count_guards_index_zero() {
    assert_eq!(wave_enemy_count(0), 10);
}

#[test]
fn wave_counts_more_samples() {
    assert_eq!(wave_enemy_count(2), 17);
    assert_eq!(wave_enemy_count(1000), 82);
    assert_eq!(wave_enemy_count(u32::MAX), 242);
}

#[test]
fn wave_timer_fires_after_its_period_and_spawns() {
    let mut w = World::new();
    let spawned = w.tick_wave(WAVE_PERIOD_MILLIS - 1);
    assert_eq!(spawned, 0);
    assert_eq!(w.wave.index, 0);
    assert_eq!(w.enemies.len(), 0);
    let spawned = w.tick_wave(1);
    assert_eq!(w.wave.index, 1);
    assert_eq!(w.wave.remaining, WAVE_PERIOD_MILLIS);
    assert_eq!(spawned, 10);
    assert_eq!(w.enemies.len(), 10);
    for e in &w.enemies {
        assert_eq!(e.health.total, ENEMY_TOTAL_HEALTH);
        assert_eq!(e.health.current, ENEMY_TOTAL_HEALTH);
        assert!(e.feedback.is_none());
    }
    // All spawned enemies carry distinct fresh identifiers.
    for i in 0..w.enemies.len() {
        for j in 0..i {
            assert_ne!(w.enemies[i].id, w.enemies[j].id);
        }
    }
}

#[test]
fn wave_index_increments_by_one_per_firing() {
    let mut w = World::new();
    let spawned = w.tick_wave(WAVE_PERIOD_MILLIS);
    assert_eq!(w.wave.index, 1);
    assert_eq!(spawned, wave_enemy_count(1));
    let spawned = w.tick_wave(WAVE_PERIOD_MILLIS);
    assert_eq!(w.wave.index, 2);
    assert_eq!(spawned, wave_enemy_count(2));
    assert_eq!(w.enemies.len(), wave_enemy_count(1) + wave_enemy_count(2));
}

#[test]
fn feedback_retrigger_resets_to_full_duration() {
    let mut w = World::new();
    let player = w.spawn_player(10);
    let enemy = w.spawn_enemy();
    let hit = vec![ContactEvent { a: player, b: enemy }];
    w.resolve_player_contacts(&hit);
    assert_eq!(w.player.unwrap().feedback.unwrap().remaining, HIT_FEEDBACK_MILLIS);
    // Let part of the flash elapse.
    w.tick_feedback(30);
    assert_eq!(w.player.unwrap().feedback.unwrap().remaining, HIT_FEEDBACK_MILLIS - 30);
    // A new hit while still active resets to the full duration — it never
    // stacks beyond it.
    w.resolve_player_contacts(&hit);
    assert_eq!(w.player.unwrap().feedback.unwrap().remaining, HIT_FEEDBACK_MILLIS);
    assert!(w.player.unwrap().feedback.unwrap().remaining <= HIT_FEEDBACK_MILLIS);
}

#[test]
fn feedback_expires_and_is_removed() {
    let mut w = World::new();
    let player = w.spawn_player(10);
    let enemy = w.spawn_enemy();
    let hit = vec![ContactEvent { a: player, b: enemy }];
    w.resolve_player_contacts(&hit);
    w.tick_feedback(HIT_FEEDBACK_MILLIS);
    assert!(w.player.unwrap().feedback.is_none());
    // Health is untouched by feedback expiry.
    assert_eq!(w.player.unwrap().health.current, 9);
}

#[test]
fn enemy_feedback_ticks_like_the_player_feedback() {
    let mut w = World::new();
    let enemy = w.spawn_enemy();
    let p = w.cast_projectile(0);
    let events = vec![ContactEvent { a: p, b: enemy }];
    w.resolve_projectile_contacts(&events);
    assert_eq!(w.enemies[0].feedback.unwrap().remaining, HIT_FEEDBACK_MILLIS);
    w.tick_feedback(40);
    assert_eq!(w.enemies[0].feedback.unwrap().remaining, HIT_FEEDBACK_MILLIS - 40);
    w.tick_feedback(60);
    assert!(w.enemies[0].feedback.is_none());
}

#[test]
fn two_projectile_hits_kill_one_enemy_and_score_one() {
    // End to end: one enemy with 16 of 16 health, two projectile contacts
    // of 8 damage each.
    let mut w = World::new();
    let enemy = w.spawn_enemy();
    assert_eq!(w.enemies[0].health.total, 16);
    assert_eq!(w.enemies[0].health.current, 16);
    let p1 = w.cast_projectile(0);
    let first = vec![ContactEvent { a: p1, b: enemy }];
    w.tick(&first, 16);
    assert_eq!(w.enemies[0].health.current, 8);
    assert_eq!(w.score, 0);
    let p2 = w.cast_projectile(0);
    let second = vec![ContactEvent { a: p2, b: enemy }];
    w.tick(&second, 16);
    assert!(w.enemies.iter().all(|e| e.id != enemy));
    assert_eq!(w.score, 1);
}

#[test]
fn tick_runs_all_stages_in_order() {
    let mut w = World::new();
    let player = w.spawn_player(20);
    let enemy = w.spawn_enemy();
    let p1 = w.cast_projectile(0);
    let events = vec![
        ContactEvent { a: player, b: enemy },
        ContactEvent { a: p1, b: enemy },
    ];
    let spawned = w.tick(&events, WAVE_PERIOD_MILLIS);
    // Contact damage applied.
    assert_eq!(w.player.unwrap().health.current, 19);
    // Projectile resolved against the enemy.
    assert_eq!(w.projectiles.len(), 0);
    // The wave fired and appended its burst after the damaged enemy.
    assert_eq!(spawned, 10);
    assert_eq!(w.enemies.len(), 11);
    assert_eq!(w.enemies[0].health.current, ENEMY_TOTAL_HEALTH - PROJECTILE_DAMAGE);
    assert_eq!(w.wave.index, 1);
    assert_eq!(w.wave.remaining, WAVE_PERIOD_MILLIS);
}
