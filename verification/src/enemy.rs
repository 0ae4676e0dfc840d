//! Enemies: periodic spawning, attraction toward the player, contact damage
//! and the death predicate.

use vstd::prelude::*;

use crate::geom::{attract_spec, dist_sq_spec, Vec2};
use crate::player::{Direction, Player, BASE_HP};
use crate::timer::Timer;
use crate::world::{drained, LevelBounds, World, WorldView};

verus! {

/// Enemy walking speed, in thousandths of a world unit per second.
pub const ENEMY_SPEED: i64 = 200_000;

/// Interval of the repeating enemy spawn timer, in milliseconds.
pub const SPAWN_PERIOD_MS: u32 = 5_000;

/// Squared attraction radius: enemies within a hundred world units of the
/// player are pulled toward it.
pub const ATTRACT_RADIUS_SQ: i64 = 10_000_000_000;

/// Damage rate of enemy contact, in thousandths of a hit point per
/// millisecond (one hit point per second).
pub const CONTACT_RATE: i64 = 1;

/// A spawned enemy.  Lives until a weapon brings its hit points to zero.
#[derive(Clone, Copy, Debug)]
pub struct Enemy {
    pub id: u64,
    /// Hit points, in thousandths.
    pub hp: i64,
    /// Walking speed, in thousandths of a world unit per second.
    pub velocity: i64,
    pub direction: Direction,
    pub is_moving: bool,
    /// Whether the ongoing melee swing already hit this enemy.
    pub slashed: bool,
    /// The damage flash, present while it runs.
    pub flash: Option<Timer>,
    /// Position in the world, in thousandths of a world unit.
    pub pos: Vec2,
}

impl Enemy {
    /// A live enemy has positive hit points, sits within the coordinate
    /// bounds, and carries a well-formed flash timer if any.
    pub open spec fn wf(self) -> bool {
        &&& 0 < self.hp
        &&& self.pos.in_bounds()
        &&& (self.flash matches Some(t) ==> t.wf())
    }

    /// The state an enemy spawns in, at the given position.
    pub open spec fn spawned(id: u64, pos: Vec2) -> Enemy {
        Enemy {
            id,
            hp: BASE_HP,
            velocity: ENEMY_SPEED,
            direction: Direction::Still,
            is_moving: false,
            slashed: false,
            flash: None,
            pos,
        }
    }
}

impl Default for Enemy {
    fn default() -> (e: Enemy)
        ensures
            e == Enemy::spawned(0, Vec2 { x: 0, y: 0 }),
    {
        Enemy {
            id: 0,
            hp: BASE_HP,
            velocity: ENEMY_SPEED,
            direction: Direction::Still,
            is_moving: false,
            slashed: false,
            flash: None,
            pos: Vec2 { x: 0, y: 0 },
        }
    }
}

/// The repeating timer that paces enemy spawning.
#[derive(Clone, Copy, Debug)]
pub struct EnemySpawnTimer {
    pub timer: Timer,
}

/// Relies on `rand::Rng::gen_range` on `rand::thread_rng()`: a uniform
/// sample from the half-open range `lo..hi`, which panics only when the
/// range is empty.
#[verifier::external_body]
fn gen_range_i64(lo: i64, hi: i64) -> (r: i64)
    requires
        lo < hi,
    ensures
        lo <= r < hi,
{
    rand::Rng::gen_range(&mut rand::thread_rng(), lo..hi)
}

/// The enemy behavior systems: spawning, attraction, and contact damage.
pub struct EnemyPlugin;

/// What the attraction tick leaves of one enemy: within a hundred world
/// units of the player it is pulled one soft step toward the player's
/// position; farther away it does not move.
pub open spec fn in_range_step(e: Enemy, player_pos: Vec2) -> Enemy {
    if dist_sq_spec(e.pos, player_pos) < ATTRACT_RADIUS_SQ {
        Enemy { pos: attract_spec(e.pos, player_pos), ..e }
    } else {
        e
    }
}

/// The player's hit points after one contact tick: for every live enemy
/// whose collider intersects the player's, the player loses hit points at
/// the contact rate over the elapsed time.
pub open spec fn contact_hp(enemies: Seq<Enemy>, touching: Seq<u64>, dt_ms: u32, hp: int) -> int
    decreases enemies.len(),
{
    if enemies.len() == 0 {
        hp
    } else {
        let hp1 = contact_hp(enemies.drop_last(), touching, dt_ms, hp);
        if touching.contains(enemies.last().id) {
            drained(hp1, CONTACT_RATE * dt_ms)
        } else {
            hp1
        }
    }
}

impl EnemyPlugin {
    /// Arm the spawn cadence: a repeating timer at the spawn interval.
    pub fn setup_enemy_spawning() -> (t: EnemySpawnTimer)
        ensures
            t.timer.wf(),
            t.timer.duration_ms == SPAWN_PERIOD_MS,
            t.timer.repeating,
            t.timer.elapsed_ms == 0,
            !t.timer.done,
    {
        EnemySpawnTimer { timer: Timer::new(SPAWN_PERIOD_MS, true) }
    }

    /// Tick the spawn cadence and, on each firing, create one enemy at a
    /// uniform-random position within the loaded level's bounds.  With no
    /// level loaded, spawning is skipped for the tick and nothing changes,
    /// the timer included.
    pub fn spawn_enemies(w: &mut World, dt_ms: u32, level: Option<LevelBounds>)
        requires
            old(w).wf(),
            old(w).next_id < u64::MAX,
            level matches Some(l) ==> l.wf(),
        ensures
            final(w).wf(),
            level is None ==> final(w)@ == old(w)@,
            level matches Some(l) ==> ({
                let t2 = old(w).spawn_timer.timer.ticked(dt_ms);
                &&& final(w)@.spawn_timer.timer == t2
                &&& !t2.done ==> final(w)@ == (WorldView {
                    spawn_timer: EnemySpawnTimer { timer: t2 },
                    ..old(w)@
                })
                &&& t2.done ==> ({
                    let e = final(w)@.enemies.last();
                    &&& final(w)@.enemies.len() == old(w)@.enemies.len() + 1
                    &&& final(w)@.enemies.drop_last() == old(w)@.enemies
                    &&& e == Enemy::spawned(old(w).next_id, e.pos)
                    &&& 0 <= e.pos.x < l.width
                    &&& 0 <= e.pos.y < l.height
                    &&& final(w)@ == (WorldView {
                        spawn_timer: EnemySpawnTimer { timer: t2 },
                        enemies: old(w)@.enemies.push(e),
                        next_id: (old(w).next_id + 1) as u64,
                        ..old(w)@
                    })
                })
            }),
    {
        match level {
            Some(l) => {
                w.spawn_timer.timer.tick(dt_ms);
                if w.spawn_timer.timer.finished() {
                    let x = gen_range_i64(0, l.width);
                    let y = gen_range_i64(0, l.height);
                    let e = Enemy {
                        id: w.next_id,
                        hp: BASE_HP,
                        velocity: ENEMY_SPEED,
                        direction: Direction::Still,
                        is_moving: false,
                        slashed: false,
                        flash: None,
                        pos: Vec2 { x, y },
                    };
                    w.enemies.push(e);
                    w.next_id = w.next_id + 1;
                    proof {
                        assert(w@.enemies.drop_last() =~= old(w)@.enemies);
                        assert(w@ =~= (WorldView {
                            spawn_timer: w@.spawn_timer,
                            enemies: old(w)@.enemies.push(e),
                            next_id: (old(w).next_id + 1) as u64,
                            ..old(w)@
                        }));
                    }
                }
            },
            None => {},
        }
    }

    /// Pull every enemy within a hundred world units of the player one soft
    /// step toward it; enemies farther away are unaffected.
    pub fn in_range(w: &mut World)
        requires
            old(w).wf(),
        ensures
            final(w).wf(),
            final(w)@ == (WorldView {
                enemies: old(w)@.enemies.map_values(
                    |e: Enemy| in_range_step(e, old(w).player.pos),
                ),
                ..old(w)@
            }),
    {
        let ghost w0 = w@;
        let n = w.enemies.len();
        let mut i: usize = 0;
        while i < n
            invariant
                n == w.enemies@.len() == w0.enemies.len(),
                i <= n,
                forall|j: int|
                    0 <= j < i ==> w.enemies@[j] == in_range_step(
                        #[trigger] w0.enemies[j],
                        w0.player.pos,
                    ),
                forall|j: int| i <= j < n ==> w.enemies@[j] == w0.enemies[j],
                w.player == w0.player,
                w.bullets@ == w0.bullets,
                w.beam == w0.beam,
                w.melee == w0.melee,
                w.arrow == w0.arrow,
                w.spawn_timer == w0.spawn_timer,
                w.next_id == w0.next_id,
                w0.wf(),
            decreases n - i,
        {
            let e = w.enemies[i];
            proof {
                assert(w0.enemies[i as int].wf());
            }
            let d = crate::geom::dist_sq(e.pos, w.player.pos);
            if d < ATTRACT_RADIUS_SQ {
                let mut e2 = e;
                e2.pos = crate::geom::attract_step(e.pos, w.player.pos);
                w.enemies.set(i, e2);
            }
            i = i + 1;
        }
        proof {
            assert(w@.enemies =~= w0.enemies.map_values(
                |e: Enemy| in_range_step(e, w0.player.pos),
            ));
            assert(w@ =~= (WorldView {
                enemies: w0.enemies.map_values(|e: Enemy| in_range_step(e, w0.player.pos)),
                ..w0
            }));
            assert forall|j: int| 0 <= j < w@.enemies.len() implies (#[trigger] w@.enemies[j]).wf()
                && w@.enemies[j].id < w@.next_id by {
                assert(w0.enemies[j].wf());
            }
            assert forall|i1: int, j1: int| 0 <= i1 < j1 < w@.enemies.len() implies w@.enemies[i1].id
                != w@.enemies[j1].id by {
                assert(w0.enemies[i1].wf());
            }
        }
    }

    /// Apply contact damage: for every live enemy whose collider the
    /// physics collaborator reports as intersecting the player's, the
    /// player loses hit points at the contact rate over the elapsed time,
    /// for as long as the contact persists.
    pub fn hit(w: &mut World, touching: &Vec<u64>, dt_ms: u32)
        requires
            old(w).wf(),
        ensures
            final(w).wf(),
            final(w)@ == (WorldView {
                player: Player {
                    hp: contact_hp(
                        old(w)@.enemies,
                        touching@,
                        dt_ms,
                        old(w).player.hp as int,
                    ) as i64,
                    ..old(w).player
                },
                ..old(w)@
            }),
            final(w).player.hp <= old(w).player.hp,
    {
        let ghost w0 = w@;
        let n = w.enemies.len();
        let mut i: usize = 0;
        while i < n
            invariant
                n == w.enemies@.len() == w0.enemies.len(),
                i <= n,
                w.enemies@ == w0.enemies,
                w.player == (Player {
                    hp: contact_hp(w0.enemies.take(i as int), touching@, dt_ms, w0.player.hp as int) as i64,
                    ..w0.player
                }),
                i64::MIN <= contact_hp(
                    w0.enemies.take(i as int),
                    touching@,
                    dt_ms,
                    w0.player.hp as int,
                ) <= w0.player.hp,
                w.bullets@ == w0.bullets,
                w.beam == w0.beam,
                w.melee == w0.melee,
                w.arrow == w0.arrow,
                w.spawn_timer == w0.spawn_timer,
                w.next_id == w0.next_id,
                w0.wf(),
            decreases n - i,
        {
            let e = w.enemies[i];
            proof {
                assert(w0.enemies.take(i + 1).drop_last() =~= w0.enemies.take(i as int));
                assert(w0.enemies.take(i + 1).last() == w0.enemies[i as int]);
            }
            if id_in(touching, e.id) {
                w.player.hp = crate::world::drain_hp(w.player.hp, CONTACT_RATE * dt_ms as i64);
            }
            i = i + 1;
        }
        proof {
            assert(w0.enemies.take(n as int) =~= w0.enemies);
            assert(w@ =~= (WorldView {
                player: Player {
                    hp: contact_hp(w0.enemies, touching@, dt_ms, w0.player.hp as int) as i64,
                    ..w0.player
                },
                ..w0
            }));
        }
    }
}

/// Whether an id occurs in a list of collider ids.
fn id_in(ids: &Vec<u64>, id: u64) -> (r: bool)
    ensures
        r == ids@.contains(id),
{
    let n = ids.len();
    let mut i: usize = 0;
    while i < n
        invariant
            i <= n == ids@.len(),
            forall|j: int| 0 <= j < i ==> ids@[j] != id,
        decreases n - i,
    {
        if ids[i] == id {
            proof {
                assert(ids@[i as int] == id);
            }
            return true;
        }
        i = i + 1;
    }
    proof {
        assert(!ids@.contains(id));
    }
    false
}

/// Whether the enemy list holds an enemy with the given id.
pub open spec fn enemy_present(s: Seq<Enemy>, id: u64) -> bool {
    exists|j: int| 0 <= j < s.len() && (#[trigger] s[j]).id == id
}

/// The index of the enemy with the given id (well defined whenever the ids
/// are unique and the id is present).
pub open spec fn enemy_at(s: Seq<Enemy>, id: u64) -> int {
    choose|j: int| 0 <= j < s.len() && (#[trigger] s[j]).id == id
}

/// With unique ids, `enemy_at` names exactly the index that holds the id.
pub proof fn lemma_enemy_at_unique(s: Seq<Enemy>, id: u64, i: int)
    requires
        forall|i1: int, j1: int| 0 <= i1 < j1 < s.len() ==> s[i1].id != s[j1].id,
        0 <= i < s.len(),
        s[i].id == id,
    ensures
        enemy_present(s, id),
        enemy_at(s, id) == i,
{
    assert(enemy_present(s, id));
    let j = enemy_at(s, id);
    if j < i {
        assert(s[j].id != s[i].id);
    } else if j > i {
        assert(s[i].id != s[j].id);
    }
}

/// The timer a fresh damage flash starts with.
pub open spec fn fresh_flash() -> Timer {
    Timer { duration_ms: crate::player::FLASH_MS, elapsed_ms: 0, repeating: true, done: false }
}

/// The enemy list after the enemy at index `i` takes `d` damage from a
/// weapon: despawned at once when its hit points are exhausted, otherwise
/// left with the reduced hit points and a fresh flash timer.  A melee hit
/// additionally sets the per-swing hit guard.
pub open spec fn damage_enemy(s: Seq<Enemy>, i: int, d: int, from_melee: bool) -> Seq<Enemy>
    recommends
        0 <= i < s.len(),
{
    let e = s[i];
    if e.hp - d <= 0 {
        s.remove(i)
    } else {
        s.update(
            i,
            Enemy {
                hp: (e.hp - d) as i64,
                slashed: e.slashed || from_melee,
                flash: Some(fresh_flash()),
                ..e
            },
        )
    }
}

/// A weapon hit preserves the well-formedness of the enemy list: every
/// surviving enemy is live, in bounds and uniquely identified.
pub proof fn lemma_damage_enemy_wf(s: Seq<Enemy>, i: int, d: int, from_melee: bool, next_id: u64)
    requires
        forall|j: int| 0 <= j < s.len() ==> (#[trigger] s[j]).wf(),
        forall|j: int| 0 <= j < s.len() ==> (#[trigger] s[j]).id < next_id,
        forall|i1: int, j1: int| 0 <= i1 < j1 < s.len() ==> s[i1].id != s[j1].id,
        0 <= i < s.len(),
        0 <= d,
        i64::MIN < s[i].hp - d,
    ensures
        ({
            let s2 = damage_enemy(s, i, d, from_melee);
            &&& forall|j: int| 0 <= j < s2.len() ==> (#[trigger] s2[j]).wf()
            &&& forall|j: int| 0 <= j < s2.len() ==> (#[trigger] s2[j]).id < next_id
            &&& forall|i1: int, j1: int| 0 <= i1 < j1 < s2.len() ==> s2[i1].id != s2[j1].id
        }),
{
    let s2 = damage_enemy(s, i, d, from_melee);
    if s[i].hp - d <= 0 {
        s.remove_ensures(i);
        assert forall|j: int| 0 <= j < s2.len() implies (#[trigger] s2[j]).wf() && s2[j].id
            < next_id by {
            if j < i {
                assert(s2[j] == s[j]);
            } else {
                assert(s2[j] == s[j + 1]);
            }
        }
        assert forall|i1: int, j1: int| 0 <= i1 < j1 < s2.len() implies s2[i1].id != s2[j1].id by {
            if j1 < i {
                assert(s2[i1] == s[i1] && s2[j1] == s[j1]);
            } else if i1 < i {
                assert(s2[i1] == s[i1] && s2[j1] == s[j1 + 1]);
            } else {
                assert(s2[i1] == s[i1 + 1] && s2[j1] == s[j1 + 1]);
            }
        }
    } else {
        assert(s[i].wf());
        assert(s2[i].wf());
        assert forall|i1: int, j1: int| 0 <= i1 < j1 < s2.len() implies s2[i1].id != s2[j1].id by {
            assert(s[i1].id != s[j1].id);
        }
    }
}

/// `e` descends from an enemy of `pre` with the same id and at least as
/// many hit points.
pub open spec fn damaged_from(pre: Seq<Enemy>, e: Enemy) -> bool {
    exists|i: int| 0 <= i < pre.len() && (#[trigger] pre[i]).id == e.id && e.hp <= pre[i].hp
}

/// Every enemy in `post` is an enemy of `pre`, under the same id, with hit
/// points no higher than before.
pub open spec fn only_damaged(pre: Seq<Enemy>, post: Seq<Enemy>) -> bool {
    forall|j: int| 0 <= j < post.len() ==> damaged_from(pre, #[trigger] post[j])
}

pub proof fn lemma_only_damaged_refl(s: Seq<Enemy>)
    ensures
        only_damaged(s, s),
{
    assert forall|j: int| 0 <= j < s.len() implies damaged_from(s, #[trigger] s[j]) by {
        assert(0 <= j < s.len() && s[j].id == s[j].id && s[j].hp <= s[j].hp);
    }
}

pub proof fn lemma_only_damaged_trans(a: Seq<Enemy>, b: Seq<Enemy>, c: Seq<Enemy>)
    requires
        only_damaged(a, b),
        only_damaged(b, c),
    ensures
        only_damaged(a, c),
{
    assert forall|j: int| 0 <= j < c.len() implies damaged_from(a, #[trigger] c[j]) by {
        assert(damaged_from(b, c[j]));
        let k = choose|k: int|
            0 <= k < b.len() && (#[trigger] b[k]).id == c[j].id && c[j].hp <= b[k].hp;
        assert(damaged_from(a, b[k]));
        let i = choose|i: int|
            0 <= i < a.len() && (#[trigger] a[i]).id == b[k].id && b[k].hp <= a[i].hp;
        assert(0 <= i < a.len() && a[i].id == c[j].id && c[j].hp <= a[i].hp);
    }
}

/// A weapon hit only damages: whatever survives it was already there, under
/// the same id, with no more hit points.
pub proof fn lemma_damage_enemy_only_damaged(s: Seq<Enemy>, i: int, d: int, from_melee: bool)
    requires
        0 <= i < s.len(),
        0 <= d,
    ensures
        only_damaged(s, damage_enemy(s, i, d, from_melee)),
{
    let s2 = damage_enemy(s, i, d, from_melee);
    if s[i].hp - d <= 0 {
        s.remove_ensures(i);
        assert forall|j: int| 0 <= j < s2.len() implies damaged_from(s, #[trigger] s2[j]) by {
            if j < i {
                assert(s[j].id == s2[j].id && s2[j].hp <= s[j].hp);
            } else {
                assert(s[j + 1].id == s2[j].id && s2[j].hp <= s[j + 1].hp);
            }
        }
    } else {
        assert forall|j: int| 0 <= j < s2.len() implies damaged_from(s, #[trigger] s2[j]) by {
            assert(s[j].id == s2[j].id && s2[j].hp <= s[j].hp);
        }
    }
}

/// A weapon hit on one enemy leaves every other enemy exactly as it was:
/// still present under its id, with an unchanged record.
pub proof fn lemma_damage_preserves_others(
    s: Seq<Enemy>,
    i: int,
    d: int,
    from_melee: bool,
    id2: u64,
)
    requires
        forall|i1: int, j1: int| 0 <= i1 < j1 < s.len() ==> s[i1].id != s[j1].id,
        0 <= i < s.len(),
        s[i].id != id2,
    ensures
        enemy_present(damage_enemy(s, i, d, from_melee), id2) == enemy_present(s, id2),
        enemy_present(s, id2) ==> damage_enemy(s, i, d, from_melee)[enemy_at(
            damage_enemy(s, i, d, from_melee),
            id2,
        )] == s[enemy_at(s, id2)],
{
    let s2 = damage_enemy(s, i, d, from_melee);
    if s[i].hp - d <= 0 {
        s.remove_ensures(i);
        assert forall|i1: int, j1: int| 0 <= i1 < j1 < s2.len() implies s2[i1].id
            != s2[j1].id by {
            if j1 < i {
                assert(s2[i1] == s[i1] && s2[j1] == s[j1]);
            } else if i1 < i {
                assert(s2[i1] == s[i1] && s2[j1] == s[j1 + 1]);
            } else {
                assert(s2[i1] == s[i1 + 1] && s2[j1] == s[j1 + 1]);
            }
        }
        if enemy_present(s, id2) {
            let j0 = enemy_at(s, id2);
            assert(s[j0].id == id2);
            assert(j0 != i);
            let j2 = if j0 < i {
                j0
            } else {
                j0 - 1
            };
            assert(s2[j2] == s[j0]);
            lemma_enemy_at_unique(s2, id2, j2);
        }
        if enemy_present(s2, id2) {
            let j2 = choose|j: int| 0 <= j < s2.len() && (#[trigger] s2[j]).id == id2;
            if j2 < i {
                assert(s[j2].id == id2);
            } else {
                assert(s[j2 + 1].id == id2);
            }
            assert(enemy_present(s, id2));
        }
    } else {
        assert forall|i1: int, j1: int| 0 <= i1 < j1 < s2.len() implies s2[i1].id
            != s2[j1].id by {
            assert(s[i1].id != s[j1].id);
        }
        if enemy_present(s, id2) {
            let j0 = enemy_at(s, id2);
            assert(s[j0].id == id2);
            assert(j0 != i);
            assert(s2[j0] == s[j0]);
            lemma_enemy_at_unique(s2, id2, j0);
        }
        if enemy_present(s2, id2) {
            let j2 = choose|j: int| 0 <= j < s2.len() && (#[trigger] s2[j]).id == id2;
            assert(j2 != i);
            assert(s[j2].id == id2);
            assert(enemy_present(s, id2));
        }
    }
}

/// Apply one weapon hit to the enemy at index `i`: despawn it at once when
/// its hit points are exhausted, otherwise reduce them and attach a fresh
/// flash timer; a melee hit also sets the per-swing hit guard.
pub fn apply_damage(enemies: &mut Vec<Enemy>, i: usize, d: i64, from_melee: bool)
    requires
        i < old(enemies)@.len(),
        0 <= d,
        i64::MIN < old(enemies)@[i as int].hp - d,
    ensures
        final(enemies)@ == damage_enemy(old(enemies)@, i as int, d as int, from_melee),
{
    let e = enemies[i];
    let hp2 = e.hp - d;
    if hp2 <= 0 {
        let _removed = enemies.remove(i);
    } else {
        let mut e2 = e;
        e2.hp = hp2;
        e2.slashed = e.slashed || from_melee;
        e2.flash = Some(Timer::new(crate::player::FLASH_MS, true));
        enemies.set(i, e2);
    }
}

/// Look an enemy up by its collider id.
pub fn find_enemy(enemies: &Vec<Enemy>, id: u64) -> (r: Option<usize>)
    ensures
        match r {
            Some(i) => i < enemies@.len() && enemies@[i as int].id == id,
            None => !enemy_present(enemies@, id),
        },
{
    let n = enemies.len();
    let mut i: usize = 0;
    while i < n
        invariant
            i <= n == enemies@.len(),
            forall|j: int| 0 <= j < i ==> (#[trigger] enemies@[j]).id != id,
        decreases n - i,
    {
        if enemies[i].id == id {
            return Some(i);
        }
        i = i + 1;
    }
    None
}

/// Attraction law: an enemy within the attraction radius and at least a
/// seventh of a world unit away — an enemy exactly fifty world units from
/// the player, say — ends every attraction tick strictly closer to the
/// player.
pub proof fn lemma_attraction_pulls_closer(e: Enemy, player_pos: Vec2)
    requires
        20_000 <= dist_sq_spec(e.pos, player_pos) < ATTRACT_RADIUS_SQ,
    ensures
        dist_sq_spec(in_range_step(e, player_pos).pos, player_pos) < dist_sq_spec(
            e.pos,
            player_pos,
        ),
{
    crate::geom::lemma_attract_strictly_closer(e.pos, player_pos);
}

/// Attraction law: an enemy at or beyond the attraction radius — two
/// hundred world units away, say — is not moved by this rule at all.
pub proof fn lemma_attraction_ignores_distant(e: Enemy, player_pos: Vec2)
    requires
        dist_sq_spec(e.pos, player_pos) >= ATTRACT_RADIUS_SQ,
    ensures
        in_range_step(e, player_pos) == e,
{
}

/// True exactly when the entity's hit points are exhausted.  Callers despawn
/// on true and otherwise attach a flash timer.
pub fn death(enemy: &Enemy) -> (r: bool)
    ensures
        r == (enemy.hp <= 0),
{
    if enemy.hp <= 0 {
        return true;
    }
    false
}

} // verus!
