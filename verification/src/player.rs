//! The player, the three attack modes, and their short-lived attack
//! entities: projectile, beam and melee swing.

use vstd::prelude::*;

use crate::geom::{scaled_spec, Vec2};
use crate::timer::Timer;
use crate::enemy::{apply_damage, damage_enemy, enemy_at, enemy_present, find_enemy, lemma_damage_enemy_only_damaged, lemma_damage_enemy_wf, lemma_damage_preserves_others, lemma_enemy_at_unique, lemma_only_damaged_refl, lemma_only_damaged_trans, only_damaged, Enemy};
use crate::world::{Intersection, World, WorldView};

verus! {

/// Hit points every damageable entity starts with, in thousandths.
pub const BASE_HP: i64 = 10_000;

/// Player walking speed, in thousandths of a world unit per second.
pub const PLAYER_SPEED: i64 = 200_000;

/// Speed impulse of a dash, in thousandths of a world unit per second.
pub const DASH_SPEED: i64 = 3_000_000;

/// Projectile speed, in thousandths of a world unit per second.
pub const BULLET_SPEED: i64 = 700_000;

/// Damage of one projectile hit or one melee hit, in thousandths of a hit
/// point.
pub const HIT_DAMAGE: i64 = 5_000;

/// Damage rate of the beam, in thousandths of a hit point per millisecond
/// (ten hit points per second).
pub const LASER_RATE: i64 = 10;

/// Maximum reach of the beam, in thousandths of a world unit.
pub const LASER_RANGE: i64 = 100_000;

/// Duration of one melee swing, in milliseconds.
pub const SLASH_MS: u32 = 500;

/// Cadence of the swing animation frames, in milliseconds.
pub const ANIMATION_MS: u32 = 100;

/// Duration of the damage flash, in milliseconds.
pub const FLASH_MS: u32 = 50;

/// How far from the player a melee swing is held, in thousandths of a world
/// unit.
pub const MELEE_OFFSET: i64 = 11_000;

/// How far from the player the aim arrow is held, in thousandths of a world
/// unit.
pub const ARROW_OFFSET: i64 = 11_000;

/// The facing of a moving entity.
#[derive(Clone, Copy, PartialEq, Eq, Structural, Debug)]
pub enum Direction {
    Still,
    Right,
    Left,
    Up,
    Down,
}

/// Which of the two selectable attack modes the player holds.
#[derive(Clone, Copy, PartialEq, Eq, Structural, Debug)]
pub enum Weapon {
    Gun,
    Laser,
}

/// The player: the sole persistent damageable entity.
#[derive(Clone, Copy, Debug)]
pub struct Player {
    /// Hit points, in thousandths.
    pub hp: i64,
    /// Walking speed, in thousandths of a world unit per second.
    pub velocity: i64,
    pub direction: Direction,
    pub is_moving: bool,
    pub weapon: Weapon,
    /// Whether a melee swing is in progress.
    pub is_slashing: bool,
    /// Position in the world, in thousandths of a world unit.
    pub pos: Vec2,
}

impl Player {
    /// The player sits within the coordinate bounds and walks at a positive
    /// speed no faster than a dash.
    pub open spec fn wf(self) -> bool {
        &&& self.pos.in_bounds()
        &&& 1 <= self.velocity <= DASH_SPEED
    }

    /// The state the player is created in.
    pub open spec fn initial() -> Player {
        Player {
            hp: BASE_HP,
            velocity: PLAYER_SPEED,
            direction: Direction::Right,
            is_moving: false,
            weapon: Weapon::Gun,
            is_slashing: false,
            pos: Vec2 { x: 0, y: 0 },
        }
    }
}

impl Default for Player {
    fn default() -> (p: Player)
        ensures
            p == Player::initial(),
    {
        Player {
            hp: BASE_HP,
            velocity: PLAYER_SPEED,
            direction: Direction::Right,
            is_moving: false,
            weapon: Weapon::Gun,
            is_slashing: false,
            pos: Vec2 { x: 0, y: 0 },
        }
    }
}

/// A projectile in flight.  Spawned by a gun trigger press, destroyed on its
/// first qualifying collision.
#[derive(Clone, Copy, Debug)]
pub struct Bullet {
    pub id: u64,
    pub pos: Vec2,
    /// Velocity, in thousandths of a world unit per second.
    pub velocity: Vec2,
}

impl Bullet {
    pub open spec fn wf(self) -> bool {
        self.pos.in_bounds()
    }
}

/// The beam visual.  At most one exists; it is re-targeted every tick while
/// the trigger is held and destroyed on release.
#[derive(Clone, Copy, Debug)]
pub struct Ray {
    /// Visual length: the ray-cast hit distance, or the maximum range.
    pub length: i64,
    /// The aim vector the beam points along.
    pub aim: Vec2,
}

impl Ray {
    pub open spec fn wf(self) -> bool {
        0 <= self.length <= LASER_RANGE
    }
}

/// The timer that spans one melee swing.
#[derive(Clone, Copy, Debug)]
pub struct SlashTimer {
    pub timer: Timer,
}

impl Default for SlashTimer {
    fn default() -> (t: SlashTimer)
        ensures
            t.timer.wf(),
            t.timer.duration_ms == SLASH_MS,
            t.timer.repeating,
            t.timer.elapsed_ms == 0,
            !t.timer.done,
    {
        SlashTimer { timer: Timer::new(SLASH_MS, true) }
    }
}

/// The timer that advances the swing's animation frames.
#[derive(Clone, Copy, Debug)]
pub struct AnimationTimer {
    pub timer: Timer,
}

impl Default for AnimationTimer {
    fn default() -> (t: AnimationTimer)
        ensures
            t.timer.wf(),
            t.timer.duration_ms == ANIMATION_MS,
            t.timer.repeating,
            t.timer.elapsed_ms == 0,
            !t.timer.done,
    {
        AnimationTimer { timer: Timer::new(ANIMATION_MS, true) }
    }
}

/// A melee swing in progress, held at a fixed offset from the player.
#[derive(Clone, Copy, Debug)]
pub struct Melee {
    pub id: u64,
    /// Offset from the player along the aim direction.
    pub offset: Vec2,
    pub slash: SlashTimer,
    pub animation: AnimationTimer,
    /// The sprite frame the swing animation currently shows.
    pub frame: u32,
}

impl Melee {
    pub open spec fn wf(self) -> bool {
        self.slash.timer.wf() && self.animation.timer.wf()
    }
}

/// The aim cursor sprite, held at a fixed offset from the player.
#[derive(Clone, Copy, Debug)]
pub struct Arrow {
    pub offset: Vec2,
}

/// The player-driven systems: movement, aiming, weapon selection, the three
/// attack modes, collision resolution, and the transient timers.
pub struct PlayerPlugin;

/// The facing that a set of held movement keys produces.  When several are
/// held, the one checked last wins.
pub open spec fn movement_direction(up: bool, down: bool, left: bool, right: bool) -> Direction {
    if right {
        Direction::Right
    } else if left {
        Direction::Left
    } else if down {
        Direction::Down
    } else if up {
        Direction::Up
    } else {
        Direction::Still
    }
}

/// The walking velocity that a set of held movement keys produces: the unit
/// vector of the axis sum, rescaled to the player's speed.
pub open spec fn movement_velocity(speed: int, up: bool, down: bool, left: bool, right: bool)
    -> Vec2 {
    let x: int = (if right { 1int } else { 0int }) - (if left { 1int } else { 0int });
    let y: int = (if up { 1int } else { 0int }) - (if down { 1int } else { 0int });
    if x == 0 && y == 0 {
        Vec2 { x: 0, y: 0 }
    } else {
        scaled_spec(Vec2 { x: (1000 * x) as i64, y: (1000 * y) as i64 }, speed)
    }
}

/// The unit vector of a facing, in thousandths of a world unit.
pub open spec fn direction_vector(dir: Direction) -> Vec2 {
    match dir {
        Direction::Right => Vec2 { x: 1000, y: 0 },
        Direction::Left => Vec2 { x: -1000i64, y: 0 },
        Direction::Up => Vec2 { x: 0, y: 1000 },
        Direction::Down => Vec2 { x: 0, y: -1000i64 },
        Direction::Still => Vec2 { x: 0, y: 0 },
    }
}

impl PlayerPlugin {
    /// Update the player's facing and movement state from the held movement
    /// keys and return the walking velocity to hand to the physics
    /// collaborator.
    pub fn player_movement(w: &mut World, up: bool, down: bool, left: bool, right: bool)
        -> (vel: Vec2)
        requires
            old(w).wf(),
        ensures
            final(w).wf(),
            final(w)@ == (WorldView {
                player: Player {
                    direction: movement_direction(up, down, left, right),
                    is_moving: up || down || left || right,
                    ..old(w).player
                },
                ..old(w)@
            }),
            vel == movement_velocity(old(w).player.velocity as int, up, down, left, right),
    {
        let moving = up || down || left || right;
        if right {
            w.player.direction = Direction::Right;
        } else if left {
            w.player.direction = Direction::Left;
        } else if down {
            w.player.direction = Direction::Down;
        } else if up {
            w.player.direction = Direction::Up;
        } else {
            w.player.direction = Direction::Still;
        }
        w.player.is_moving = moving;
        let x: i64 = (if right { 1i64 } else { 0i64 }) - (if left { 1i64 } else { 0i64 });
        let y: i64 = (if up { 1i64 } else { 0i64 }) - (if down { 1i64 } else { 0i64 });
        if x == 0 && y == 0 {
            Vec2 { x: 0, y: 0 }
        } else {
            crate::geom::scale_to_speed(Vec2 { x: 1000 * x, y: 1000 * y }, w.player.velocity)
        }
    }

    /// The velocity impulse of a dash along the player's facing, to hand to
    /// the physics collaborator on the tick the dash key is pressed.
    pub fn player_dash(player: &Player, dash_pressed: bool) -> (r: Option<Vec2>)
        ensures
            dash_pressed ==> r == Some(Vec2 {
                x: (direction_vector(player.direction).x * 3000) as i64,
                y: (direction_vector(player.direction).y * 3000) as i64,
            }),
            !dash_pressed ==> r is None,
    {
        if dash_pressed {
            let d = match player.direction {
                Direction::Right => Vec2 { x: DASH_SPEED, y: 0 },
                Direction::Left => Vec2 { x: -DASH_SPEED, y: 0 },
                Direction::Up => Vec2 { x: 0, y: DASH_SPEED },
                Direction::Down => Vec2 { x: 0, y: -DASH_SPEED },
                Direction::Still => Vec2 { x: 0, y: 0 },
            };
            Some(d)
        } else {
            None
        }
    }

    /// What a weapon switch leaves behind: selecting the gun also removes an
    /// active beam, so no beam outlives its mode.
    pub open spec fn switch_spec(v: WorldView, to_gun: bool, to_laser: bool) -> WorldView {
        let v1 = if to_gun {
            WorldView { player: Player { weapon: Weapon::Gun, ..v.player }, beam: None, ..v }
        } else {
            v
        };
        if to_laser {
            WorldView { player: Player { weapon: Weapon::Laser, ..v1.player }, ..v1 }
        } else {
            v1
        }
    }

    /// Toggle the selected weapon from the two selection keys.  Switching
    /// away from the laser despawns the beam in the same tick.
    pub fn switch_weapon(w: &mut World, to_gun: bool, to_laser: bool)
        requires
            old(w).wf(),
        ensures
            final(w).wf(),
            final(w)@ == Self::switch_spec(old(w)@, to_gun, to_laser),
            to_gun ==> final(w).beam is None,
            !to_gun ==> final(w).beam == old(w).beam,
    {
        if to_gun {
            w.player.weapon = Weapon::Gun;
            w.beam = None;
        }
        if to_laser {
            w.player.weapon = Weapon::Laser;
        }
    }

    /// What one flash tick leaves of an enemy: a running flash timer is
    /// advanced, and removed once it completes, restoring the normal tint.
    pub open spec fn flash_step(e: Enemy, dt_ms: u32) -> Enemy {
        match e.flash {
            Some(t) => {
                let t2 = t.ticked(dt_ms);
                Enemy { flash: if t2.done { None } else { Some(t2) }, ..e }
            },
            None => e,
        }
    }

    /// Advance every running damage flash and remove the completed ones.
    /// An expiring flash restores the normal tint and blocks nothing: the
    /// enemy's hit points and hit guard are untouched.
    pub fn flashing(w: &mut World, dt_ms: u32)
        requires
            old(w).wf(),
        ensures
            final(w).wf(),
            final(w)@ == (WorldView {
                enemies: old(w)@.enemies.map_values(|e: Enemy| Self::flash_step(e, dt_ms)),
                ..old(w)@
            }),
    {
        let ghost w0 = w@;
        let n = w.enemies.len();
        let mut i: usize = 0;
        while i < n
            invariant
                n == w.enemies@.len() == w0.enemies.len(),
                i <= n,
                forall|j: int|
                    0 <= j < i ==> w.enemies@[j] == Self::flash_step(
                        #[trigger] w0.enemies[j],
                        dt_ms,
                    ),
                forall|j: int| i <= j < n ==> w.enemies@[j] == w0.enemies[j],
                w.player == w0.player,
                w.bullets@ == w0.bullets,
                w.beam == w0.beam,
                w.melee == w0.melee,
                w.arrow == w0.arrow,
                w.spawn_timer == w0.spawn_timer,
                w.next_id == w0.next_id,
                w0.wf(),
            decreases n - i,
        {
            let e = w.enemies[i];
            match e.flash {
                Some(t) => {
                    proof {
                        assert(w0.enemies[i as int].wf());
                    }
                    let mut t2 = t;
                    t2.tick(dt_ms);
                    let mut e2 = e;
                    if t2.finished() {
                        e2.flash = None;
                    } else {
                        e2.flash = Some(t2);
                    }
                    w.enemies.set(i, e2);
                },
                None => {},
            }
            i = i + 1;
        }
        proof {
            assert(w@.enemies =~= w0.enemies.map_values(|e: Enemy| Self::flash_step(e, dt_ms)));
            assert(w@ =~= (WorldView {
                enemies: w0.enemies.map_values(|e: Enemy| Self::flash_step(e, dt_ms)),
                ..w0
            }));
            assert forall|j: int| 0 <= j < w@.enemies.len() implies (#[trigger] w@.enemies[j]).wf()
                && w@.enemies[j].id < w@.next_id by {
                assert(w0.enemies[j].wf());
            }
            assert forall|i1: int, j1: int| 0 <= i1 < j1 < w@.enemies.len() implies w@.enemies[i1].id
                != w@.enemies[j1].id by {
                assert(w0.enemies[i1].wf());
            }
        }
    }

    /// What the swing-animation tick leaves behind: both swing timers
    /// advance; each time the animation timer fires the frame advances, and
    /// once the slash timer has also completed the swing entity is removed.
    pub open spec fn animate_spec(v: WorldView, dt_ms: u32) -> WorldView {
        match v.melee {
            Some(m) => {
                let anim2 = m.animation.timer.ticked(dt_ms);
                let slash2 = m.slash.timer.ticked(dt_ms);
                if anim2.done && slash2.done {
                    WorldView { melee: None, ..v }
                } else {
                    WorldView {
                        melee: Some(Melee {
                            animation: AnimationTimer { timer: anim2 },
                            slash: SlashTimer { timer: slash2 },
                            frame: if anim2.done {
                                if m.frame == u32::MAX {
                                    m.frame
                                } else {
                                    (m.frame + 1) as u32
                                }
                            } else {
                                m.frame
                            },
                            ..m
                        }),
                        ..v
                    }
                }
            },
            None => v,
        }
    }

    /// Advance the swing timers, stepping the animation frame on each firing
    /// of the animation timer and despawning the swing once both timers have
    /// completed.
    pub fn animate_slash(w: &mut World, dt_ms: u32)
        requires
            old(w).wf(),
        ensures
            final(w).wf(),
            final(w)@ == Self::animate_spec(old(w)@, dt_ms),
    {
        match &(w.melee) {
            Some(m) => {
                let mut m2 = *m;
                m2.animation.timer.tick(dt_ms);
                m2.slash.timer.tick(dt_ms);
                if m2.animation.timer.finished() {
                    if m2.slash.timer.finished() {
                        w.melee = None;
                    } else {
                        if m2.frame < u32::MAX {
                            m2.frame = m2.frame + 1;
                        }
                        w.melee = Some(m2);
                    }
                } else {
                    w.melee = Some(m2);
                }
            },
            None => {},
        }
    }

    /// Whether the active swing is over, so that melee must be re-armed:
    /// its timer has completed, or its entity is already gone while the
    /// player still counts as slashing.
    pub open spec fn swing_over(v: WorldView) -> bool {
        match v.melee {
            Some(m) => m.slash.timer.done,
            None => v.player.is_slashing,
        }
    }

    /// What re-arming leaves behind: the player may swing again and every
    /// enemy may be hit by the next swing.
    pub open spec fn check_slash_spec(v: WorldView) -> WorldView {
        if Self::swing_over(v) {
            WorldView {
                player: Player { is_slashing: false, ..v.player },
                enemies: v.enemies.map_values(|e: Enemy| Enemy { slashed: false, ..e }),
                ..v
            }
        } else {
            v
        }
    }

    /// Once the active swing's timer has finished, clear `is_slashing` and
    /// reset every enemy's per-swing hit guard, re-arming melee for the next
    /// press.
    pub fn check_slash(w: &mut World)
        requires
            old(w).wf(),
        ensures
            final(w).wf(),
            final(w)@ == Self::check_slash_spec(old(w)@),
            Self::swing_over(old(w)@) ==> !final(w).player.is_slashing && forall|j: int|
                0 <= j < final(w)@.enemies.len() ==> !(#[trigger] final(w)@.enemies[j]).slashed,
    {
        let over = match &(w.melee) {
            Some(m) => m.slash.timer.done,
            None => w.player.is_slashing,
        };
        if over {
            let ghost w0 = w@;
            w.player.is_slashing = false;
            let n = w.enemies.len();
            let mut i: usize = 0;
            while i < n
                invariant
                    n == w.enemies@.len() == w0.enemies.len(),
                    i <= n,
                    forall|j: int|
                        0 <= j < i ==> w.enemies@[j] == (Enemy {
                            slashed: false,
                            ..#[trigger] w0.enemies[j]
                        }),
                    forall|j: int| i <= j < n ==> w.enemies@[j] == w0.enemies[j],
                    w.player == (Player { is_slashing: false, ..w0.player }),
                    w.bullets@ == w0.bullets,
                    w.beam == w0.beam,
                    w.melee == w0.melee,
                    w.arrow == w0.arrow,
                    w.spawn_timer == w0.spawn_timer,
                    w.next_id == w0.next_id,
                decreases n - i,
            {
                let mut e = w.enemies[i];
                e.slashed = false;
                w.enemies.set(i, e);
                i = i + 1;
            }
            proof {
                assert(w@.enemies =~= w0.enemies.map_values(
                    |e: Enemy| Enemy { slashed: false, ..e },
                ));
                assert(w@ =~= Self::check_slash_spec(old(w)@));
                assert forall|j: int| 0 <= j < w@.enemies.len() implies (
                #[trigger] w@.enemies[j]).wf() && w@.enemies[j].id < w@.next_id by {
                    assert(w0.enemies[j].wf());
                }
                assert forall|i1: int, j1: int| 0 <= i1 < j1 < w@.enemies.len() implies w@.enemies[i1].id != w@.enemies[j1].id by {
                    assert(w0.enemies[i1].wf());
                }
            }
        }
    }

    /// What the aim-arrow update leaves behind: an existing arrow follows
    /// the cursor at a fixed offset along the aim; a missing one is spawned.
    pub open spec fn arrow_spec(v: WorldView, cursor: Option<Vec2>) -> WorldView {
        match v.arrow {
            Some(a) => {
                match cursor {
                    Some(c) => {
                        let d = Vec2 {
                            x: (c.x - v.player.pos.x) as i64,
                            y: (c.y - v.player.pos.y) as i64,
                        };
                        if d.is_zero() {
                            v
                        } else {
                            WorldView {
                                arrow: Some(Arrow {
                                    offset: scaled_spec(d, ARROW_OFFSET as int),
                                }),
                                ..v
                            }
                        }
                    },
                    None => v,
                }
            },
            None => WorldView { arrow: Some(Arrow { offset: Vec2 { x: 0, y: 0 } }), ..v },
        }
    }

    /// Keep the aim cursor sprite at a fixed offset from the player along
    /// the aim direction, spawning it on first use.  A zero aim vector
    /// leaves the arrow as it is.
    pub fn player_arrow(w: &mut World, cursor: Option<Vec2>)
        requires
            old(w).wf(),
            cursor matches Some(c) ==> c.in_bounds(),
        ensures
            final(w).wf(),
            final(w)@ == Self::arrow_spec(old(w)@, cursor),
    {
        let arrow_present = w.arrow.is_some();
        if arrow_present {
            match cursor {
                Some(c) => {
                    let dx = c.x - w.player.pos.x;
                    let dy = c.y - w.player.pos.y;
                    if dx != 0 || dy != 0 {
                        let off = crate::geom::scale_to_speed(Vec2 { x: dx, y: dy }, ARROW_OFFSET);
                        w.arrow = Some(Arrow { offset: off });
                    }
                },
                None => {},
            }
        } else {
            w.arrow = Some(Arrow { offset: Vec2 { x: 0, y: 0 } });
        }
    }
}


/// The aim vector from the player to the cursor.
pub open spec fn aim_from(player_pos: Vec2, c: Vec2) -> Vec2 {
    Vec2 { x: (c.x - player_pos.x) as i64, y: (c.y - player_pos.y) as i64 }
}

/// The timer a fresh melee swing starts with.
pub open spec fn fresh_slash() -> SlashTimer {
    SlashTimer {
        timer: Timer { duration_ms: SLASH_MS, elapsed_ms: 0, repeating: true, done: false },
    }
}

/// The timer a fresh swing animation starts with.
pub open spec fn fresh_animation() -> AnimationTimer {
    AnimationTimer {
        timer: Timer { duration_ms: ANIMATION_MS, elapsed_ms: 0, repeating: true, done: false },
    }
}

impl PlayerPlugin {
    /// What a gun trigger press leaves behind: exactly one projectile is
    /// spawned at the player, flying toward the cursor at the fixed bullet
    /// speed.  Without a press — however long the trigger stays held — or
    /// with a degenerate aim vector, nothing changes.
    pub open spec fn gun_spec(v: WorldView, c: Vec2, fire_pressed: bool) -> WorldView {
        let aim = aim_from(v.player.pos, c);
        if fire_pressed && !aim.is_zero() {
            WorldView {
                bullets: v.bullets.push(
                    Bullet {
                        id: v.next_id,
                        pos: v.player.pos,
                        velocity: scaled_spec(aim, BULLET_SPEED as int),
                    },
                ),
                next_id: (v.next_id + 1) as u64,
                ..v
            }
        } else {
            v
        }
    }

    /// What one held-trigger laser tick leaves behind.  The beam entity is
    /// spawned on the first held tick; on later held ticks it is re-targeted
    /// to the ray-cast result, and the enemy the cast hits takes damage at
    /// the laser rate over the elapsed time.  A release removes the beam.
    pub open spec fn laser_spec(
        v: WorldView,
        c: Vec2,
        fire_held: bool,
        fire_released: bool,
        dt_ms: u32,
        ray_hit: Option<(u64, i64)>,
    ) -> WorldView {
        let aim = aim_from(v.player.pos, c);
        let v1 = if fire_held && !aim.is_zero() {
            match v.beam {
                Some(_b) => match ray_hit {
                    Some((eid, dist)) => {
                        let vb = WorldView { beam: Some(Ray { length: dist, aim }), ..v };
                        if enemy_present(v.enemies, eid) {
                            WorldView {
                                enemies: damage_enemy(
                                    v.enemies,
                                    enemy_at(v.enemies, eid),
                                    LASER_RATE * dt_ms,
                                    false,
                                ),
                                ..vb
                            }
                        } else {
                            vb
                        }
                    },
                    None => WorldView { beam: Some(Ray { length: LASER_RANGE, aim }), ..v },
                },
                None => WorldView { beam: Some(Ray { length: 0, aim }), ..v },
            }
        } else {
            v
        };
        if fire_released {
            WorldView { beam: None, ..v1 }
        } else {
            v1
        }
    }

    /// What a melee trigger press leaves behind: if no swing is active and
    /// the aim is not degenerate, one swing entity is spawned at a fixed
    /// offset along the aim, both swing timers fresh, and the player is
    /// marked as slashing.  A press during an active swing is ignored.
    pub open spec fn melee_spec(v: WorldView, c: Vec2, melee_pressed: bool) -> WorldView {
        let aim = aim_from(v.player.pos, c);
        if melee_pressed && !aim.is_zero() && !v.player.is_slashing {
            WorldView {
                player: Player { is_slashing: true, ..v.player },
                melee: Some(
                    Melee {
                        id: v.next_id,
                        offset: scaled_spec(aim, MELEE_OFFSET as int),
                        slash: fresh_slash(),
                        animation: fresh_animation(),
                        frame: 0,
                    },
                ),
                next_id: (v.next_id + 1) as u64,
                ..v
            }
        } else {
            v
        }
    }

    /// What the whole shooting tick leaves behind: with no cursor available
    /// every aiming-dependent action is skipped; otherwise the selected
    /// weapon acts on its trigger, and the independent melee trigger acts
    /// after it.
    pub open spec fn shoot_spec(
        v: WorldView,
        cursor: Option<Vec2>,
        fire_pressed: bool,
        fire_held: bool,
        fire_released: bool,
        melee_pressed: bool,
        dt_ms: u32,
        ray_hit: Option<(u64, i64)>,
    ) -> WorldView {
        match cursor {
            Some(c) => {
                let v1 = match v.player.weapon {
                    Weapon::Gun => Self::gun_spec(v, c, fire_pressed),
                    Weapon::Laser => Self::laser_spec(
                        v,
                        c,
                        fire_held,
                        fire_released,
                        dt_ms,
                        ray_hit,
                    ),
                };
                Self::melee_spec(v1, c, melee_pressed)
            },
            None => v,
        }
    }

    /// One shooting tick: gun, laser and melee, each on its own trigger.
    ///
    /// `cursor` is the pointer's world position, if the pointer is inside
    /// the viewport; `ray_hit` is the physics collaborator's ray-cast result
    /// along the aim (nearest hit entity and distance, the player's own
    /// collider excluded), consulted only while the laser is held.
    pub fn player_shoot(
        w: &mut World,
        cursor: Option<Vec2>,
        fire_pressed: bool,
        fire_held: bool,
        fire_released: bool,
        melee_pressed: bool,
        dt_ms: u32,
        ray_hit: Option<(u64, i64)>,
    )
        requires
            old(w).wf(),
            old(w).next_id < u64::MAX - 1,
            cursor matches Some(c) ==> c.in_bounds(),
            ray_hit matches Some(h) ==> 0 <= h.1 <= LASER_RANGE,
        ensures
            final(w).wf(),
            final(w)@ == Self::shoot_spec(
                old(w)@,
                cursor,
                fire_pressed,
                fire_held,
                fire_released,
                melee_pressed,
                dt_ms,
                ray_hit,
            ),
    {
        let ghost v0 = w@;
        let c = match cursor {
            Some(c) => c,
            None => {
                return ;
            },
        };
        match w.player.weapon {
            Weapon::Gun => {
                if fire_pressed {
                    let dx = c.x - w.player.pos.x;
                    let dy = c.y - w.player.pos.y;
                    if dx != 0 || dy != 0 {
                        let vel = crate::geom::scale_to_speed(Vec2 { x: dx, y: dy }, BULLET_SPEED);
                        let b = Bullet { id: w.next_id, pos: w.player.pos, velocity: vel };
                        w.bullets.push(b);
                        w.next_id = w.next_id + 1;
                        proof {
                            assert forall|j: int| 0 <= j < w@.bullets.len() implies (
                            #[trigger] w@.bullets[j]).wf() && w@.bullets[j].id < w@.next_id by {
                                if j < v0.bullets.len() {
                                    assert(v0.bullets[j].wf());
                                }
                            }
                            assert forall|i1: int, j1: int|
                                0 <= i1 < j1 < w@.bullets.len() implies w@.bullets[i1].id
                                != w@.bullets[j1].id by {
                                if j1 < v0.bullets.len() {
                                    assert(v0.bullets[i1].id != v0.bullets[j1].id);
                                } else {
                                    assert(v0.bullets[i1].id < v0.next_id);
                                }
                            }
                        }
                    }
                }
                proof {
                    assert(w@ =~= Self::gun_spec(v0, c, fire_pressed));
                }
            },
            Weapon::Laser => {
                if fire_held {
                    let dx = c.x - w.player.pos.x;
                    let dy = c.y - w.player.pos.y;
                    if dx != 0 || dy != 0 {
                        let aim = Vec2 { x: dx, y: dy };
                        if w.beam.is_some() {
                            match ray_hit {
                                Some((eid, dist)) => {
                                    w.beam = Some(Ray { length: dist, aim });
                                    match find_enemy(&w.enemies, eid) {
                                        Some(ei) => {
                                            proof {
                                                lemma_enemy_at_unique(w@.enemies, eid, ei as int);
                                                assert(v0.enemies[ei as int].wf());
                                            }
                                            let dmg = LASER_RATE * (dt_ms as i64);
                                            proof {
                                                lemma_damage_enemy_wf(
                                                    w@.enemies,
                                                    ei as int,
                                                    dmg as int,
                                                    false,
                                                    w.next_id,
                                                );
                                            }
                                            apply_damage(&mut w.enemies, ei, dmg, false);
                                        },
                                        None => {},
                                    }
                                },
                                None => {
                                    w.beam = Some(Ray { length: LASER_RANGE, aim });
                                },
                            }
                        } else {
                            w.beam = Some(Ray { length: 0, aim });
                        }
                    }
                }
                if fire_released {
                    w.beam = None;
                }
                proof {
                    assert(w@ =~= Self::laser_spec(
                        v0,
                        c,
                        fire_held,
                        fire_released,
                        dt_ms,
                        ray_hit,
                    ));
                }
            },
        }
        let ghost v1 = w@;
        if melee_pressed {
            let dx = c.x - w.player.pos.x;
            let dy = c.y - w.player.pos.y;
            if (dx != 0 || dy != 0) && !w.player.is_slashing {
                w.player.is_slashing = true;
                let m = Melee {
                    id: w.next_id,
                    offset: crate::geom::scale_to_speed(Vec2 { x: dx, y: dy }, MELEE_OFFSET),
                    slash: SlashTimer::default(),
                    animation: AnimationTimer::default(),
                    frame: 0,
                };
                w.melee = Some(m);
                w.next_id = w.next_id + 1;
                proof {
                    assert forall|j: int| 0 <= j < w@.enemies.len() implies (
                    #[trigger] w@.enemies[j]).wf() && w@.enemies[j].id < w@.next_id by {
                        assert(v1.enemies[j].wf() && v1.enemies[j].id < v1.next_id);
                    }
                    assert forall|j: int| 0 <= j < w@.bullets.len() implies (
                    #[trigger] w@.bullets[j]).wf() && w@.bullets[j].id < w@.next_id by {
                        assert(v1.bullets[j].wf() && v1.bullets[j].id < v1.next_id);
                    }
                }
            }
        }
        proof {
            assert(w@ =~= Self::melee_spec(v1, c, melee_pressed));
        }
    }
}


/// Whether the bullet list holds a bullet with the given id.
pub open spec fn bullet_present(s: Seq<Bullet>, id: u64) -> bool {
    exists|j: int| 0 <= j < s.len() && (#[trigger] s[j]).id == id
}

/// The index of the bullet with the given id (well defined whenever the
/// ids are unique and the id is present).
pub open spec fn bullet_at(s: Seq<Bullet>, id: u64) -> int {
    choose|j: int| 0 <= j < s.len() && (#[trigger] s[j]).id == id
}

/// With unique ids, `bullet_at` names exactly the index that holds the id.
pub proof fn lemma_bullet_at_unique(s: Seq<Bullet>, id: u64, i: int)
    requires
        forall|i1: int, j1: int| 0 <= i1 < j1 < s.len() ==> s[i1].id != s[j1].id,
        0 <= i < s.len(),
        s[i].id == id,
    ensures
        bullet_present(s, id),
        bullet_at(s, id) == i,
{
    assert(bullet_present(s, id));
    let j = bullet_at(s, id);
    if j < i {
        assert(s[j].id != s[i].id);
    } else if j > i {
        assert(s[i].id != s[j].id);
    }
}

/// Despawning a bullet preserves the well-formedness of the bullet list.
proof fn lemma_remove_bullet_wf(s: Seq<Bullet>, i: int, next_id: u64)
    requires
        forall|j: int| 0 <= j < s.len() ==> (#[trigger] s[j]).wf(),
        forall|j: int| 0 <= j < s.len() ==> (#[trigger] s[j]).id < next_id,
        forall|i1: int, j1: int| 0 <= i1 < j1 < s.len() ==> s[i1].id != s[j1].id,
        0 <= i < s.len(),
    ensures
        ({
            let s2 = s.remove(i);
            &&& forall|j: int| 0 <= j < s2.len() ==> (#[trigger] s2[j]).wf()
            &&& forall|j: int| 0 <= j < s2.len() ==> (#[trigger] s2[j]).id < next_id
            &&& forall|i1: int, j1: int| 0 <= i1 < j1 < s2.len() ==> s2[i1].id != s2[j1].id
        }),
{
    let s2 = s.remove(i);
    s.remove_ensures(i);
    assert forall|j: int| 0 <= j < s2.len() implies (#[trigger] s2[j]).wf() && s2[j].id
        < next_id by {
        if j < i {
            assert(s2[j] == s[j]);
        } else {
            assert(s2[j] == s[j + 1]);
        }
    }
    assert forall|i1: int, j1: int| 0 <= i1 < j1 < s2.len() implies s2[i1].id != s2[j1].id by {
        if j1 < i {
            assert(s2[i1] == s[i1] && s2[j1] == s[j1]);
        } else if i1 < i {
            assert(s2[i1] == s[i1] && s2[j1] == s[j1 + 1]);
        } else {
            assert(s2[i1] == s[i1 + 1] && s2[j1] == s[j1 + 1]);
        }
    }
}

/// Look a bullet up by its collider id.
fn find_bullet(bullets: &Vec<Bullet>, id: u64) -> (r: Option<usize>)
    ensures
        match r {
            Some(i) => i < bullets@.len() && bullets@[i as int].id == id,
            None => !bullet_present(bullets@, id),
        },
{
    let n = bullets.len();
    let mut i: usize = 0;
    while i < n
        invariant
            i <= n == bullets@.len(),
            forall|j: int| 0 <= j < i ==> (#[trigger] bullets@[j]).id != id,
        decreases n - i,
    {
        if bullets[i].id == id {
            return Some(i);
        }
        i = i + 1;
    }
    None
}

impl PlayerPlugin {
    /// What one collider-intersection pair resolves to.
    ///
    /// A pair of a live projectile: a live enemy in the pair takes the fixed
    /// hit damage (dying enemies despawn at once, survivors flash) and the
    /// projectile despawns on this first qualifying collision; a wall in the
    /// pair also despawns the projectile.
    ///
    /// A pair of the live melee swing: a live enemy in the pair takes the
    /// fixed hit damage only if this swing has not hit it yet — the
    /// surviving enemy's guard is set, so one swing hits each enemy at most
    /// once however long the overlap persists.
    ///
    /// Any other pair resolves to nothing.
    pub open spec fn hit_one(v: WorldView, p: Intersection) -> WorldView {
        if bullet_present(v.bullets, p.attacker) {
            let bi = bullet_at(v.bullets, p.attacker);
            if enemy_present(v.enemies, p.other) {
                WorldView {
                    enemies: damage_enemy(
                        v.enemies,
                        enemy_at(v.enemies, p.other),
                        HIT_DAMAGE as int,
                        false,
                    ),
                    bullets: v.bullets.remove(bi),
                    ..v
                }
            } else if p.other_is_wall {
                WorldView { bullets: v.bullets.remove(bi), ..v }
            } else {
                v
            }
        } else if v.melee matches Some(m) && m.id == p.attacker {
            if enemy_present(v.enemies, p.other) && !v.enemies[enemy_at(
                v.enemies,
                p.other,
            )].slashed {
                WorldView {
                    enemies: damage_enemy(
                        v.enemies,
                        enemy_at(v.enemies, p.other),
                        HIT_DAMAGE as int,
                        true,
                    ),
                    ..v
                }
            } else {
                v
            }
        } else {
            v
        }
    }

    /// The resolution of a whole tick's intersection pairs, in the order the
    /// physics collaborator reports them.
    pub open spec fn hit_pairs(v: WorldView, ps: Seq<Intersection>) -> WorldView
        decreases ps.len(),
    {
        if ps.len() == 0 {
            v
        } else {
            Self::hit_one(Self::hit_pairs(v, ps.drop_last()), ps.last())
        }
    }

    /// Resolve every collider-intersection pair of this tick, for every
    /// live projectile and for the live melee swing.
    pub fn hit(w: &mut World, pairs: &Vec<Intersection>)
        requires
            old(w).wf(),
        ensures
            final(w).wf(),
            final(w)@ == Self::hit_pairs(old(w)@, pairs@),
    {
        let ghost v0 = w@;
        let n = pairs.len();
        let mut k: usize = 0;
        while k < n
            invariant
                n == pairs@.len(),
                k <= n,
                w@ == Self::hit_pairs(v0, pairs@.take(k as int)),
                w@.wf(),
            decreases n - k,
        {
            let ghost vpre = w@;
            let p = pairs[k];
            match find_bullet(&w.bullets, p.attacker) {
                Some(bi) => {
                    proof {
                        lemma_bullet_at_unique(vpre.bullets, p.attacker, bi as int);
                        lemma_remove_bullet_wf(vpre.bullets, bi as int, vpre.next_id);
                    }
                    match find_enemy(&w.enemies, p.other) {
                        Some(ei) => {
                            proof {
                                lemma_enemy_at_unique(vpre.enemies, p.other, ei as int);
                                assert(vpre.enemies[ei as int].wf());
                                lemma_damage_enemy_wf(
                                    vpre.enemies,
                                    ei as int,
                                    HIT_DAMAGE as int,
                                    false,
                                    vpre.next_id,
                                );
                            }
                            apply_damage(&mut w.enemies, ei, HIT_DAMAGE, false);
                            let _b = w.bullets.remove(bi);
                        },
                        None => {
                            if p.other_is_wall {
                                let _b = w.bullets.remove(bi);
                            }
                        },
                    }
                },
                None => {
                    let is_melee = match &(w.melee) {
                        Some(m) => m.id == p.attacker,
                        None => false,
                    };
                    if is_melee {
                        match find_enemy(&w.enemies, p.other) {
                            Some(ei) => {
                                let e = w.enemies[ei];
                                if !e.slashed {
                                    proof {
                                        lemma_enemy_at_unique(vpre.enemies, p.other, ei as int);
                                        assert(vpre.enemies[ei as int].wf());
                                        lemma_damage_enemy_wf(
                                            vpre.enemies,
                                            ei as int,
                                            HIT_DAMAGE as int,
                                            true,
                                            vpre.next_id,
                                        );
                                    }
                                    apply_damage(&mut w.enemies, ei, HIT_DAMAGE, true);
                                }
                            },
                            None => {},
                        }
                    }
                },
            }
            proof {
                assert(w@ =~= Self::hit_one(vpre, p));
                assert(pairs@.take(k + 1).drop_last() =~= pairs@.take(k as int));
                assert(pairs@.take(k + 1).last() == pairs@[k as int]);
            }
            k = k + 1;
        }
        proof {
            assert(pairs@.take(n as int) =~= pairs@);
        }
    }
}


/// The per-swing account of one enemy relative to its hit points `hp0` at
/// the start of the swing: either the swing has not hit it (guard clear,
/// hit points untouched) or it has hit it exactly once (guard set, exactly
/// one hit's damage taken).
pub open spec fn swing_hit_state(s: Seq<Enemy>, id: u64, hp0: int) -> bool {
    enemy_present(s, id) ==> ({
        let e = s[enemy_at(s, id)];
        (!e.slashed && e.hp == hp0) || (e.slashed && e.hp == hp0 - HIT_DAMAGE)
    })
}

impl PlayerPlugin {
    /// One resolution step preserves well-formedness, only damages enemies,
    /// and touches nothing besides enemies and projectiles.
    pub proof fn lemma_hit_one_preserves(v: WorldView, p: Intersection)
        requires
            v.wf(),
        ensures
            Self::hit_one(v, p).wf(),
            only_damaged(v.enemies, Self::hit_one(v, p).enemies),
            Self::hit_one(v, p).player == v.player,
            Self::hit_one(v, p).melee == v.melee,
            Self::hit_one(v, p).bullets.len() <= v.bullets.len(),
    {
        if bullet_present(v.bullets, p.attacker) {
            let bi = bullet_at(v.bullets, p.attacker);
            assert(0 <= bi < v.bullets.len() && v.bullets[bi].id == p.attacker);
            lemma_remove_bullet_wf(v.bullets, bi, v.next_id);
            v.bullets.remove_ensures(bi);
            if enemy_present(v.enemies, p.other) {
                let ei = enemy_at(v.enemies, p.other);
                assert(0 <= ei < v.enemies.len() && v.enemies[ei].id == p.other);
                assert(v.enemies[ei].wf());
                lemma_damage_enemy_wf(v.enemies, ei, HIT_DAMAGE as int, false, v.next_id);
                lemma_damage_enemy_only_damaged(v.enemies, ei, HIT_DAMAGE as int, false);
            } else {
                lemma_only_damaged_refl(v.enemies);
            }
        } else if v.melee matches Some(m) && m.id == p.attacker {
            if enemy_present(v.enemies, p.other) && !v.enemies[enemy_at(
                v.enemies,
                p.other,
            )].slashed {
                let ei = enemy_at(v.enemies, p.other);
                assert(0 <= ei < v.enemies.len() && v.enemies[ei].id == p.other);
                assert(v.enemies[ei].wf());
                lemma_damage_enemy_wf(v.enemies, ei, HIT_DAMAGE as int, true, v.next_id);
                lemma_damage_enemy_only_damaged(v.enemies, ei, HIT_DAMAGE as int, true);
            } else {
                lemma_only_damaged_refl(v.enemies);
            }
        } else {
            lemma_only_damaged_refl(v.enemies);
        }
    }

    /// Law: across any sequence of resolution steps, every enemy's hit
    /// points are monotonically non-increasing: whatever enemy remains
    /// descends from an input enemy of the same id with at least as many
    /// hit points, and is still live — an enemy whose hit points are
    /// exhausted was despawned within the very step that exhausted them.
    pub proof fn lemma_hit_monotone(v: WorldView, ps: Seq<Intersection>)
        requires
            v.wf(),
        ensures
            Self::hit_pairs(v, ps).wf(),
            only_damaged(v.enemies, Self::hit_pairs(v, ps).enemies),
            forall|j: int|
                0 <= j < Self::hit_pairs(v, ps).enemies.len() ==> 0 < (#[trigger] Self::hit_pairs(
                    v,
                    ps,
                ).enemies[j]).hp,
        decreases ps.len(),
    {
        if ps.len() == 0 {
            lemma_only_damaged_refl(v.enemies);
        } else {
            Self::lemma_hit_monotone(v, ps.drop_last());
            let vmid = Self::hit_pairs(v, ps.drop_last());
            Self::lemma_hit_one_preserves(vmid, ps.last());
            lemma_only_damaged_trans(
                v.enemies,
                vmid.enemies,
                Self::hit_one(vmid, ps.last()).enemies,
            );
        }
        let vend = Self::hit_pairs(v, ps);
        assert forall|j: int| 0 <= j < vend.enemies.len() implies 0 < (
        #[trigger] vend.enemies[j]).hp by {
            assert(vend.enemies[j].wf());
        }
    }

    /// One resolution step keeps the per-swing account of an enemy: with no
    /// live projectiles, an enemy the swing has already hit is not hit
    /// again, and one it has not hit yet is hit at most once, setting its
    /// guard.
    pub proof fn lemma_swing_step(v: WorldView, p: Intersection, id: u64, hp0: int)
        requires
            v.wf(),
            v.bullets.len() == 0,
            swing_hit_state(v.enemies, id, hp0),
        ensures
            Self::hit_one(v, p).wf(),
            Self::hit_one(v, p).bullets.len() == 0,
            swing_hit_state(Self::hit_one(v, p).enemies, id, hp0),
    {
        Self::lemma_hit_one_preserves(v, p);
        let v2 = Self::hit_one(v, p);
        assert(!bullet_present(v.bullets, p.attacker));
        if v.melee matches Some(m) && m.id == p.attacker {
            if enemy_present(v.enemies, p.other) && !v.enemies[enemy_at(
                v.enemies,
                p.other,
            )].slashed {
                let ei = enemy_at(v.enemies, p.other);
                assert(0 <= ei < v.enemies.len() && v.enemies[ei].id == p.other);
                if p.other == id {
                    let e = v.enemies[ei];
                    assert(enemy_present(v.enemies, id));
                    assert(e.hp == hp0);
                    if e.hp - HIT_DAMAGE <= 0 {
                        v.enemies.remove_ensures(ei);
                        if enemy_present(v2.enemies, id) {
                            let j2 = choose|j: int|
                                0 <= j < v2.enemies.len() && (#[trigger] v2.enemies[j]).id == id;
                            if j2 < ei {
                                assert(v.enemies[j2].id == id);
                                assert(v.enemies[j2].id != v.enemies[ei].id);
                            } else {
                                assert(v.enemies[j2 + 1].id == id);
                                assert(v.enemies[ei].id != v.enemies[j2 + 1].id);
                            }
                        }
                        assert(!enemy_present(v2.enemies, id));
                    } else {
                        assert forall|i1: int, j1: int|
                            0 <= i1 < j1 < v2.enemies.len() implies v2.enemies[i1].id
                            != v2.enemies[j1].id by {
                            assert(v.enemies[i1].id != v.enemies[j1].id);
                        }
                        lemma_enemy_at_unique(v2.enemies, id, ei);
                        assert(v2.enemies[ei].slashed && v2.enemies[ei].hp == hp0 - HIT_DAMAGE);
                    }
                } else {
                    lemma_damage_preserves_others(
                        v.enemies,
                        ei,
                        HIT_DAMAGE as int,
                        true,
                        id,
                    );
                }
            }
        }
    }

    /// Law: a single melee swing damages a given enemy at most once,
    /// however many ticks the overlap persists.  With no live projectiles,
    /// any sequence of resolution steps leaves the enemy either untouched
    /// with its guard clear, or hit exactly once with its guard set, or
    /// despawned — never hit twice.  (The guard is reset only when the
    /// swing's timer completes and melee is re-armed.)
    pub proof fn lemma_swing_hits_once(v: WorldView, ps: Seq<Intersection>, id: u64, hp0: int)
        requires
            v.wf(),
            v.bullets.len() == 0,
            swing_hit_state(v.enemies, id, hp0),
        ensures
            Self::hit_pairs(v, ps).wf(),
            Self::hit_pairs(v, ps).bullets.len() == 0,
            swing_hit_state(Self::hit_pairs(v, ps).enemies, id, hp0),
        decreases ps.len(),
    {
        if ps.len() == 0 {
        } else {
            Self::lemma_swing_hits_once(v, ps.drop_last(), id, hp0);
            Self::lemma_swing_step(Self::hit_pairs(v, ps.drop_last()), ps.last(), id, hp0);
        }
    }

    /// Law: gun mode fires exactly once per discrete trigger press: a press
    /// with a usable aim adds exactly one projectile, and however many
    /// ticks the trigger then stays held without a new press, the
    /// projectiles are unchanged.
    pub proof fn lemma_gun_fires_once(v: WorldView, c: Vec2, fire_pressed: bool)
        ensures
            fire_pressed && !aim_from(v.player.pos, c).is_zero() ==> Self::gun_spec(
                v,
                c,
                true,
            ).bullets.len() == v.bullets.len() + 1,
            !fire_pressed ==> Self::gun_spec(v, c, false) == v,
    {
    }

    /// Law: the beam, too, only damages: across a held-trigger laser tick
    /// every enemy that remains is live and descends from an input enemy of
    /// the same id with at least as many hit points — one exhausted by the
    /// beam is despawned within the same tick.
    #[verifier::rlimit(30)]
    pub proof fn lemma_laser_only_damages(
        v: WorldView,
        c: Vec2,
        fire_held: bool,
        fire_released: bool,
        dt_ms: u32,
        ray_hit: Option<(u64, i64)>,
    )
        requires
            v.wf(),
            ray_hit matches Some(h) ==> 0 <= h.1 <= LASER_RANGE,
        ensures
            ({
                let v2 = Self::laser_spec(v, c, fire_held, fire_released, dt_ms, ray_hit);
                &&& v2.wf()
                &&& only_damaged(v.enemies, v2.enemies)
                &&& forall|j: int|
                    0 <= j < v2.enemies.len() ==> 0 < (#[trigger] v2.enemies[j]).hp
            }),
    {
        let v2 = Self::laser_spec(v, c, fire_held, fire_released, dt_ms, ray_hit);
        let aim = aim_from(v.player.pos, c);
        lemma_only_damaged_refl(v.enemies);
        if fire_held && !aim.is_zero() && v.beam is Some {
            match ray_hit {
                Some((eid, _d)) => {
                    if enemy_present(v.enemies, eid) {
                        let ei = enemy_at(v.enemies, eid);
                        assert(0 <= ei < v.enemies.len() && v.enemies[ei].id == eid);
                        assert(v.enemies[ei].wf());
                        lemma_damage_enemy_wf(v.enemies, ei, LASER_RATE * dt_ms, false, v.next_id);
                        lemma_damage_enemy_only_damaged(v.enemies, ei, LASER_RATE * dt_ms, false);
                    }
                },
                None => {},
            }
        }
        assert forall|j: int| 0 <= j < v2.enemies.len() implies 0 < (
        #[trigger] v2.enemies[j]).hp by {
            assert(v2.enemies[j].wf());
        }
    }

    /// Law: sustained beam damage is proportional to elapsed time: two
    /// consecutive held ticks on the same target take away the laser rate
    /// times the total elapsed time, however the time is split across the
    /// ticks, and exhaust the target's hit points exactly when that total
    /// reaches them.
    pub proof fn lemma_laser_damage_accumulates(
        v: WorldView,
        c: Vec2,
        dt1: u32,
        dt2: u32,
        eid: u64,
        d1: i64,
        d2: i64,
    )
        requires
            v.wf(),
            v.beam is Some,
            !aim_from(v.player.pos, c).is_zero(),
            enemy_present(v.enemies, eid),
            v.enemies[enemy_at(v.enemies, eid)].hp - LASER_RATE * dt1 > 0,
        ensures
            ({
                let hp0 = v.enemies[enemy_at(v.enemies, eid)].hp;
                let v1 = Self::laser_spec(v, c, true, false, dt1, Some((eid, d1)));
                let v2 = Self::laser_spec(v1, c, true, false, dt2, Some((eid, d2)));
                &&& enemy_present(v1.enemies, eid)
                &&& v1.enemies[enemy_at(v1.enemies, eid)].hp == hp0 - LASER_RATE * dt1
                &&& (hp0 - LASER_RATE * (dt1 + dt2) > 0 ==> enemy_present(v2.enemies, eid)
                    && v2.enemies[enemy_at(v2.enemies, eid)].hp == hp0 - LASER_RATE * (dt1
                    + dt2))
                &&& (hp0 - LASER_RATE * (dt1 + dt2) <= 0 ==> !enemy_present(v2.enemies, eid))
            }),
    {
        let ei = enemy_at(v.enemies, eid);
        assert(0 <= ei < v.enemies.len() && v.enemies[ei].id == eid);
        let hp0 = v.enemies[ei].hp;
        let v1 = Self::laser_spec(v, c, true, false, dt1, Some((eid, d1)));
        assert(v1.enemies == damage_enemy(v.enemies, ei, LASER_RATE * dt1, false));
        assert forall|i1: int, j1: int| 0 <= i1 < j1 < v1.enemies.len() implies v1.enemies[i1].id
            != v1.enemies[j1].id by {
            assert(v.enemies[i1].id != v.enemies[j1].id);
        }
        lemma_enemy_at_unique(v1.enemies, eid, ei);
        assert(v1.enemies[ei].hp == hp0 - LASER_RATE * dt1);
        assert(v1.beam is Some && v1.player == v.player);
        let v2 = Self::laser_spec(v1, c, true, false, dt2, Some((eid, d2)));
        assert(v2.enemies == damage_enemy(v1.enemies, ei, LASER_RATE * dt2, false));
        if hp0 - LASER_RATE * (dt1 + dt2) > 0 {
            assert forall|i1: int, j1: int|
                0 <= i1 < j1 < v2.enemies.len() implies v2.enemies[i1].id
                != v2.enemies[j1].id by {
                assert(v1.enemies[i1].id != v1.enemies[j1].id);
            }
            lemma_enemy_at_unique(v2.enemies, eid, ei);
        } else {
            v1.enemies.remove_ensures(ei);
            if enemy_present(v2.enemies, eid) {
                let j2 = choose|j: int|
                    0 <= j < v2.enemies.len() && (#[trigger] v2.enemies[j]).id == eid;
                if j2 < ei {
                    assert(v1.enemies[j2].id == eid);
                    assert(v1.enemies[j2].id != v1.enemies[ei].id);
                } else {
                    assert(v1.enemies[j2 + 1].id == eid);
                    assert(v1.enemies[ei].id != v1.enemies[j2 + 1].id);
                }
            }
        }
    }

    /// Law: re-arming follows the swing's completion.  If a swing is active
    /// and the player counts as slashing, then in the tick whose animation
    /// step completes the swing's slash timer, the re-arm check clears
    /// `is_slashing` and every enemy's per-swing guard, whether or not the
    /// swing entity itself was despawned in that same step.
    pub proof fn lemma_swing_rearms(v: WorldView, dt_ms: u32)
        requires
            v.melee matches Some(m) && m.slash.timer.elapsed_ms + dt_ms
                >= m.slash.timer.duration_ms,
            v.player.is_slashing,
        ensures
            ({
                let v2 = Self::check_slash_spec(Self::animate_spec(v, dt_ms));
                &&& !v2.player.is_slashing
                &&& forall|j: int|
                    0 <= j < v2.enemies.len() ==> !(#[trigger] v2.enemies[j]).slashed
            }),
    {
        let v1 = Self::animate_spec(v, dt_ms);
        assert(Self::swing_over(v1));
    }
}


} // verus!
