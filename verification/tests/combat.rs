use combat_core::enemy::{death, Enemy, EnemyPlugin};
use combat_core::geom::Vec2;
use combat_core::player::{
    AnimationTimer, Direction, Melee, PlayerPlugin, SlashTimer, Weapon,
};
use combat_core::timer::Timer;
use combat_core::world::{ColliderBundle, Intersection, LevelBounds, SpawnKind, World};

fn enemy_at_pos(id: u64, pos: Vec2) -> Enemy {
    let mut e = Enemy::default();
    e.id = id;
    e.pos = pos;
    e
}

fn fresh_melee(id: u64) -> Melee {
    Melee {
        id,
        offset: Vec2::new(0, 0),
        slash: SlashTimer::default(),
        animation: AnimationTimer::default(),
        frame: 0,
    }
}

fn pair(attacker: u64, other: u64) -> Intersection {
    Intersection { attacker, other, other_is_wall: false }
}

fn wall_pair(attacker: u64) -> Intersection {
    Intersection { attacker, other: 0, other_is_wall: true }
}

#[test]
fn session_starts_with_defaults() {
    let w = World::new(Vec2::new(0, 0));
    assert_eq!(w.player.hp, 10_000);
    assert_eq!(w.player.velocity, 200_000);
    assert!(matches!(w.player.weapon, Weapon::Gun));
    assert!(!w.player.is_slashing);
    assert!(w.enemies.is_empty());
    assert!(w.bullets.is_empty());
    assert!(w.beam.is_none());
    assert!(w.melee.is_none());
    assert_eq!(w.spawn_timer.timer.duration_ms, 5_000);
}

#[test]
fn death_is_exhausted_hit_points() {
    let mut e = Enemy::default();
    assert!(!death(&e));
    e.hp = 1;
    assert!(!death(&e));
    e.hp = 0;
    assert!(death(&e));
    e.hp = -3;
    assert!(death(&e));
}

#[test]
fn movement_sets_facing_and_velocity() {
    let mut w = World::new(Vec2::new(0, 0));
    let vel = PlayerPlugin::player_movement(&mut w, false, false, false, true);
    assert!(matches!(w.player.direction, Direction::Right));
    assert!(w.player.is_moving);
    assert_eq!(vel, Vec2::new(200_000, 0));

    let diag = PlayerPlugin::player_movement(&mut w, true, false, false, true);
    assert_eq!(diag, Vec2::new(141_442, 141_442));

    let still = PlayerPlugin::player_movement(&mut w, false, false, false, false);
    assert!(matches!(w.player.direction, Direction::Still));
    assert!(!w.player.is_moving);
    assert_eq!(still, Vec2::new(0, 0));
}

#[test]
fn dash_is_an_impulse_along_the_facing() {
    let mut w = World::new(Vec2::new(0, 0));
    PlayerPlugin::player_movement(&mut w, true, false, false, false);
    let r = PlayerPlugin::player_dash(&w.player, true);
    assert_eq!(r, Some(Vec2::new(0, 3_000_000)));
    let none = PlayerPlugin::player_dash(&w.player, false);
    assert!(none.is_none());
}

#[test]
fn gun_fires_exactly_once_per_press() {
    let mut w = World::new(Vec2::new(0, 0));
    let cursor = Some(Vec2::new(10_000, 0));
    // Press on the first tick, then keep the trigger held for nine more.
    PlayerPlugin::player_shoot(&mut w, cursor, true, true, false, false, 16, None);
    for _ in 0..9 {
        PlayerPlugin::player_shoot(&mut w, cursor, false, true, false, false, 16, None);
    }
    assert_eq!(w.bullets.len(), 1);
    assert_eq!(w.bullets[0].velocity, Vec2::new(700_000, 0));
    assert_eq!(w.bullets[0].pos, Vec2::new(0, 0));
}

#[test]
fn gun_ignores_a_degenerate_aim() {
    let mut w = World::new(Vec2::new(0, 0));
    let cursor = Some(w.player.pos);
    PlayerPlugin::player_shoot(&mut w, cursor, true, true, false, false, 16, None);
    assert!(w.bullets.is_empty());
}

#[test]
fn no_cursor_means_no_shooting() {
    let mut w = World::new(Vec2::new(0, 0));
    PlayerPlugin::player_shoot(&mut w, None, true, true, false, true, 16, None);
    assert!(w.bullets.is_empty());
    assert!(w.melee.is_none());
    assert!(!w.player.is_slashing);
}

#[test]
fn bullet_hit_damages_and_despawns_bullet() {
    let mut w = World::new(Vec2::new(0, 0));
    w.enemies.push(enemy_at_pos(1, Vec2::new(5_000, 0)));
    w.bullets.push(combat_core::player::Bullet {
        id: 10,
        pos: Vec2::new(0, 0),
        velocity: Vec2::new(700_000, 0),
    });
    w.next_id = 11;
    PlayerPlugin::hit(&mut w, &vec![pair(10, 1)]);
    assert!(w.bullets.is_empty());
    assert_eq!(w.enemies.len(), 1);
    assert_eq!(w.enemies[0].hp, 5_000);
    assert!(w.enemies[0].flash.is_some());
    assert!(!w.enemies[0].slashed);
}

#[test]
fn bullet_despawns_on_wall_hit() {
    let mut w = World::new(Vec2::new(0, 0));
    w.bullets.push(combat_core::player::Bullet {
        id: 10,
        pos: Vec2::new(0, 0),
        velocity: Vec2::new(700_000, 0),
    });
    w.next_id = 11;
    PlayerPlugin::hit(&mut w, &vec![wall_pair(10)]);
    assert!(w.bullets.is_empty());
}

#[test]
fn dead_enemy_despawns_and_takes_no_further_damage() {
    let mut w = World::new(Vec2::new(0, 0));
    w.enemies.push(enemy_at_pos(1, Vec2::new(5_000, 0)));
    for id in 10..13 {
        w.bullets.push(combat_core::player::Bullet {
            id,
            pos: Vec2::new(0, 0),
            velocity: Vec2::new(700_000, 0),
        });
    }
    w.next_id = 13;
    // Two hits exhaust the enemy; the third pair finds it gone, so the
    // third bullet flies on.
    PlayerPlugin::hit(&mut w, &vec![pair(10, 1), pair(11, 1), pair(12, 1)]);
    assert!(w.enemies.is_empty());
    assert_eq!(w.bullets.len(), 1);
    assert_eq!(w.bullets[0].id, 12);
}

#[test]
fn enemy_hp_is_monotone_across_hits() {
    let mut w = World::new(Vec2::new(0, 0));
    w.enemies.push(enemy_at_pos(1, Vec2::new(5_000, 0)));
    w.bullets.push(combat_core::player::Bullet {
        id: 10,
        pos: Vec2::new(0, 0),
        velocity: Vec2::new(700_000, 0),
    });
    w.next_id = 11;
    let hp_before = w.enemies[0].hp;
    PlayerPlugin::hit(&mut w, &vec![pair(10, 1)]);
    assert!(w.enemies[0].hp < hp_before);
    let hp_mid = w.enemies[0].hp;
    // No attacker left: a further resolution changes nothing.
    PlayerPlugin::hit(&mut w, &vec![pair(10, 1)]);
    assert_eq!(w.enemies[0].hp, hp_mid);
}

#[test]
fn melee_swing_hits_an_enemy_at_most_once() {
    let mut w = World::new(Vec2::new(0, 0));
    w.enemies.push(enemy_at_pos(1, Vec2::new(5_000, 0)));
    w.melee = Some(fresh_melee(5));
    w.player.is_slashing = true;
    w.next_id = 6;
    // The swing overlaps the enemy for several ticks.
    for _ in 0..4 {
        PlayerPlugin::hit(&mut w, &vec![pair(5, 1)]);
    }
    assert_eq!(w.enemies.len(), 1);
    assert_eq!(w.enemies[0].hp, 5_000);
    assert!(w.enemies[0].slashed);
}

#[test]
fn rearming_clears_slashing_and_guards() {
    let mut w = World::new(Vec2::new(0, 0));
    let mut e = enemy_at_pos(1, Vec2::new(5_000, 0));
    e.slashed = true;
    e.hp = 5_000;
    w.enemies.push(e);
    w.melee = Some(fresh_melee(5));
    w.player.is_slashing = true;
    w.next_id = 6;
    // The tick that completes the slash timer also completes the animation
    // timer and despawns the swing entity.
    PlayerPlugin::animate_slash(&mut w, 500);
    assert!(w.melee.is_none());
    PlayerPlugin::check_slash(&mut w);
    assert!(!w.player.is_slashing);
    assert!(!w.enemies[0].slashed);
    // A new swing may now damage the same enemy again.
    w.melee = Some(fresh_melee(6));
    w.player.is_slashing = true;
    w.next_id = 7;
    PlayerPlugin::hit(&mut w, &vec![pair(6, 1)]);
    assert!(w.enemies.is_empty());
}

#[test]
fn melee_press_spawns_one_swing_and_is_ignored_while_active() {
    let mut w = World::new(Vec2::new(0, 0));
    let cursor = Some(Vec2::new(0, 10_000));
    PlayerPlugin::player_shoot(&mut w, cursor, false, false, false, true, 16, None);
    assert!(w.player.is_slashing);
    let m = w.melee.clone().unwrap();
    assert_eq!(m.offset, Vec2::new(0, 11_000));
    assert_eq!(m.slash.timer.duration_ms, 500);
    assert_eq!(m.animation.timer.duration_ms, 100);
    // A second press during the active swing is silently ignored.
    PlayerPlugin::player_shoot(&mut w, cursor, false, false, false, true, 16, None);
    assert_eq!(w.melee.clone().unwrap().id, m.id);
    assert_eq!(w.next_id, m.id + 1);
}

#[test]
fn laser_damage_is_proportional_to_elapsed_time() {
    let mut w = World::new(Vec2::new(0, 0));
    w.player.weapon = Weapon::Laser;
    w.enemies.push(enemy_at_pos(1, Vec2::new(20_000, 0)));
    w.next_id = 2;
    let cursor = Some(Vec2::new(20_000, 0));
    let hit = Some((1u64, 20_000i64));
    // First held tick only spawns the beam.
    PlayerPlugin::player_shoot(&mut w, cursor, false, true, false, false, 250, hit);
    assert!(w.beam.is_some());
    assert_eq!(w.enemies[0].hp, 10_000);
    // One simulated second on target at ten hit points per second, split
    // into four ticks, takes exactly the full ten hit points.
    for _ in 0..3 {
        PlayerPlugin::player_shoot(&mut w, cursor, false, true, false, false, 250, hit);
    }
    assert_eq!(w.enemies[0].hp, 10_000 - 3 * 2_500);
    PlayerPlugin::player_shoot(&mut w, cursor, false, true, false, false, 250, hit);
    assert!(w.enemies.is_empty());
}

#[test]
fn laser_miss_renders_at_maximum_range() {
    let mut w = World::new(Vec2::new(0, 0));
    w.player.weapon = Weapon::Laser;
    let cursor = Some(Vec2::new(20_000, 0));
    PlayerPlugin::player_shoot(&mut w, cursor, false, true, false, false, 16, None);
    PlayerPlugin::player_shoot(&mut w, cursor, false, true, false, false, 16, None);
    let beam = w.beam.clone().unwrap();
    assert_eq!(beam.length, 100_000);
    // Release despawns the beam.
    PlayerPlugin::player_shoot(&mut w, cursor, false, false, true, false, 16, None);
    assert!(w.beam.is_none());
}

#[test]
fn switching_to_gun_removes_the_beam_in_the_same_tick() {
    let mut w = World::new(Vec2::new(0, 0));
    w.player.weapon = Weapon::Laser;
    w.beam = Some(combat_core::player::Ray { length: 50_000, aim: Vec2::new(1_000, 0) });
    PlayerPlugin::switch_weapon(&mut w, true, false);
    assert!(matches!(w.player.weapon, Weapon::Gun));
    assert!(w.beam.is_none());
}

#[test]
fn switching_to_laser_keeps_the_beam_rule_sound() {
    let mut w = World::new(Vec2::new(0, 0));
    w.player.weapon = Weapon::Laser;
    w.beam = Some(combat_core::player::Ray { length: 50_000, aim: Vec2::new(1_000, 0) });
    // Both selection keys in one tick: the gun branch removes the beam
    // first, then the laser is selected; no beam survives the switch.
    PlayerPlugin::switch_weapon(&mut w, true, true);
    assert!(matches!(w.player.weapon, Weapon::Laser));
    assert!(w.beam.is_none());
}

#[test]
fn spawn_cadence_is_one_enemy_every_five_seconds() {
    let mut w = World::new(Vec2::new(0, 0));
    let level = Some(LevelBounds { width: 640_000, height: 480_000 });
    EnemyPlugin::spawn_enemies(&mut w, 5_000, level);
    assert_eq!(w.enemies.len(), 1);
    let e = &w.enemies[0];
    assert!(0 <= e.pos.x && e.pos.x < 640_000);
    assert!(0 <= e.pos.y && e.pos.y < 480_000);
    assert_eq!(e.hp, 10_000);
    // Half the interval spawns nothing; completing it spawns exactly one.
    EnemyPlugin::spawn_enemies(&mut w, 2_500, level);
    assert_eq!(w.enemies.len(), 1);
    EnemyPlugin::spawn_enemies(&mut w, 2_500, level);
    assert_eq!(w.enemies.len(), 2);
    assert_ne!(w.enemies[0].id, w.enemies[1].id);
}

#[test]
fn spawning_is_skipped_without_a_level() {
    let mut w = World::new(Vec2::new(0, 0));
    EnemyPlugin::spawn_enemies(&mut w, 5_000, None);
    assert!(w.enemies.is_empty());
    assert_eq!(w.spawn_timer.timer.elapsed_ms, 0);
}

#[test]
fn attraction_pulls_a_close_enemy_strictly_closer() {
    let mut w = World::new(Vec2::new(0, 0));
    // Exactly fifty world units away: within the hundred-unit radius.
    w.enemies.push(enemy_at_pos(1, Vec2::new(50_000, 0)));
    w.next_id = 2;
    EnemyPlugin::in_range(&mut w);
    assert_eq!(w.enemies[0].pos, Vec2::new(49_500, 0));
    EnemyPlugin::in_range(&mut w);
    assert_eq!(w.enemies[0].pos, Vec2::new(49_005, 0));
}

#[test]
fn attraction_ignores_a_distant_enemy() {
    let mut w = World::new(Vec2::new(0, 0));
    // Two hundred world units away: beyond the radius, unaffected.
    w.enemies.push(enemy_at_pos(1, Vec2::new(200_000, 0)));
    w.next_id = 2;
    EnemyPlugin::in_range(&mut w);
    assert_eq!(w.enemies[0].pos, Vec2::new(200_000, 0));
}

#[test]
fn contact_damage_scales_with_time_and_contacts() {
    let mut w = World::new(Vec2::new(0, 0));
    w.enemies.push(enemy_at_pos(1, Vec2::new(1_000, 0)));
    w.enemies.push(enemy_at_pos(2, Vec2::new(-1_000, 0)));
    w.enemies.push(enemy_at_pos(3, Vec2::new(90_000, 0)));
    w.next_id = 4;
    // Two enemies touch the player for half a second at one hit point per
    // second each.
    EnemyPlugin::hit(&mut w, &vec![1, 2], 500);
    assert_eq!(w.player.hp, 10_000 - 2 * 500);
    // An id that is no live enemy deals nothing.
    EnemyPlugin::hit(&mut w, &vec![99], 500);
    assert_eq!(w.player.hp, 10_000 - 2 * 500);
}

#[test]
fn flash_expires_and_is_removed() {
    let mut w = World::new(Vec2::new(0, 0));
    let mut e = enemy_at_pos(1, Vec2::new(5_000, 0));
    e.flash = Some(Timer::new(50, true));
    w.enemies.push(e);
    w.next_id = 2;
    PlayerPlugin::flashing(&mut w, 30);
    assert!(w.enemies[0].flash.is_some());
    assert_eq!(w.enemies[0].flash.clone().unwrap().elapsed_ms, 30);
    PlayerPlugin::flashing(&mut w, 30);
    assert!(w.enemies[0].flash.is_none());
}

#[test]
fn flash_does_not_block_further_damage() {
    let mut w = World::new(Vec2::new(0, 0));
    w.enemies.push(enemy_at_pos(1, Vec2::new(5_000, 0)));
    w.bullets.push(combat_core::player::Bullet {
        id: 10,
        pos: Vec2::new(0, 0),
        velocity: Vec2::new(700_000, 0),
    });
    w.bullets.push(combat_core::player::Bullet {
        id: 11,
        pos: Vec2::new(0, 0),
        velocity: Vec2::new(700_000, 0),
    });
    w.next_id = 12;
    PlayerPlugin::hit(&mut w, &vec![pair(10, 1)]);
    assert!(w.enemies[0].flash.is_some());
    // A hit from a different source lands while the flash still runs.
    PlayerPlugin::hit(&mut w, &vec![pair(11, 1)]);
    assert!(w.enemies.is_empty());
}

#[test]
fn swing_animation_advances_frames_then_despawns() {
    let mut w = World::new(Vec2::new(0, 0));
    w.melee = Some(fresh_melee(5));
    w.player.is_slashing = true;
    w.next_id = 6;
    for expected_frame in 1..5 {
        PlayerPlugin::animate_slash(&mut w, 100);
        let m = w.melee.clone().unwrap();
        assert_eq!(m.frame, expected_frame);
    }
    // The fifth firing coincides with the slash timer completing.
    PlayerPlugin::animate_slash(&mut w, 100);
    assert!(w.melee.is_none());
}

#[test]
fn arrow_spawns_then_follows_the_aim() {
    let mut w = World::new(Vec2::new(0, 0));
    PlayerPlugin::player_arrow(&mut w, None);
    assert_eq!(w.arrow.clone().unwrap().offset, Vec2::new(0, 0));
    PlayerPlugin::player_arrow(&mut w, Some(Vec2::new(10_000, 0)));
    assert_eq!(w.arrow.clone().unwrap().offset, Vec2::new(11_000, 0));
    // A degenerate aim leaves the arrow as it is.
    let at_player = w.player.pos;
    PlayerPlugin::player_arrow(&mut w, Some(at_player));
    assert_eq!(w.arrow.clone().unwrap().offset, Vec2::new(11_000, 0));
}

#[test]
fn positions_sync_back_from_physics() {
    let mut w = World::new(Vec2::new(0, 0));
    w.enemies.push(enemy_at_pos(1, Vec2::new(5_000, 0)));
    w.bullets.push(combat_core::player::Bullet {
        id: 10,
        pos: Vec2::new(0, 0),
        velocity: Vec2::new(700_000, 0),
    });
    w.next_id = 11;
    w.set_player_pos(Vec2::new(1_000, 2_000));
    assert_eq!(w.player.pos, Vec2::new(1_000, 2_000));
    w.set_enemy_pos(1, Vec2::new(6_000, 0));
    assert_eq!(w.enemies[0].pos, Vec2::new(6_000, 0));
    w.set_bullet_pos(10, Vec2::new(7_000, 0));
    assert_eq!(w.bullets[0].pos, Vec2::new(7_000, 0));
    // Unknown ids change nothing.
    w.set_enemy_pos(9, Vec2::new(1, 1));
    w.set_bullet_pos(9, Vec2::new(1, 1));
    assert_eq!(w.enemies[0].pos, Vec2::new(6_000, 0));
    assert_eq!(w.bullets[0].pos, Vec2::new(7_000, 0));
}

#[test]
fn drain_hp_clamps_at_the_bottom() {
    assert_eq!(combat_core::world::drain_hp(10_000, 4_000), 6_000);
    assert_eq!(combat_core::world::drain_hp(i64::MIN + 1, 5), i64::MIN);
    assert_eq!(combat_core::world::drain_hp(0, 0), 0);
}

#[test]
fn collider_bundles_follow_the_spawn_table() {
    let p = ColliderBundle::from_entity(SpawnKind::Player);
    assert_eq!(p.half_extent, 7_000);
    assert!(p.dynamic_body && p.rotation_locked && p.zero_gravity);
    let e = ColliderBundle::from_entity(SpawnKind::Enemy);
    assert_eq!(p, e);
    let o = ColliderBundle::from_entity(SpawnKind::Other);
    assert_eq!(o.half_extent, 0);
    assert!(!o.rotation_locked && !o.zero_gravity);
    let wall = ColliderBundle::from_int_cell(1);
    assert_eq!(wall.half_extent, 8_000);
    assert!(wall.rotation_locked && !wall.zero_gravity);
    assert_eq!(ColliderBundle::from_int_cell(0), o);
}
