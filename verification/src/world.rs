//! The registry of live combat entities: the player, the enemies, and the
//! short-lived attack entities, indexed by id and queried by kind each tick.

use vstd::prelude::*;

use crate::enemy::{Enemy, EnemyPlugin, EnemySpawnTimer};
use crate::geom::{Vec2, COORD_LIMIT};
use crate::player::{Arrow, Bullet, Melee, Player, Ray};

verus! {

/// Hit points left after losing `d` of them, clamped at the bottom of the
/// representable range so that damage can never wrap around.
pub open spec fn drained(hp: int, d: int) -> int {
    if hp - d >= i64::MIN {
        hp - d
    } else {
        i64::MIN as int
    }
}

/// Subtract `d` hit points, clamping at the bottom of the range.
pub fn drain_hp(hp: i64, d: i64) -> (r: i64)
    requires
        0 <= d,
    ensures
        r == drained(hp as int, d as int),
        r <= hp,
{
    if hp >= i64::MIN + d {
        hp - d
    } else {
        i64::MIN
    }
}

/// The pixel extent of the loaded level, in thousandths of a world unit.
/// Enemies spawn within it.
#[derive(Clone, Copy, Debug)]
pub struct LevelBounds {
    pub width: i64,
    pub height: i64,
}

impl LevelBounds {
    pub open spec fn wf(self) -> bool {
        &&& 1 <= self.width <= COORD_LIMIT
        &&& 1 <= self.height <= COORD_LIMIT
    }
}

/// The combat role a loaded level entity carries.
#[derive(Clone, Copy, PartialEq, Eq, Structural, Debug)]
pub enum SpawnKind {
    Player,
    Enemy,
    Other,
}

/// What a level entity is handed to the physics collaborator with: the
/// square collider's half-extent and the body flags.  The defaults mirror
/// the physics engine's: a dynamic body with gravity and free rotation and
/// no collider extent.
#[derive(Clone, Copy, PartialEq, Eq, Structural, Debug)]
pub struct ColliderBundle {
    /// Half the side of the square collider, in thousandths of a world
    /// unit.
    pub half_extent: i64,
    /// Whether the body is moved by velocities rather than fixed in place.
    pub dynamic_body: bool,
    pub rotation_locked: bool,
    pub zero_gravity: bool,
}

impl ColliderBundle {
    pub open spec fn default_spec() -> ColliderBundle {
        ColliderBundle { half_extent: 0, dynamic_body: true, rotation_locked: false, zero_gravity: false }
    }

    /// The collider a spawned level entity gets: player and enemy carry a
    /// seven-unit dynamic body with rotation locked and gravity off;
    /// anything else keeps the defaults.
    pub fn from_entity(kind: SpawnKind) -> (c: ColliderBundle)
        ensures
            kind is Player || kind is Enemy ==> c == (ColliderBundle {
                half_extent: 7_000,
                dynamic_body: true,
                rotation_locked: true,
                zero_gravity: true,
            }),
            kind is Other ==> c == Self::default_spec(),
    {
        match kind {
            SpawnKind::Player | SpawnKind::Enemy => ColliderBundle {
                half_extent: 7_000,
                dynamic_body: true,
                rotation_locked: true,
                zero_gravity: true,
            },
            SpawnKind::Other => ColliderBundle {
                half_extent: 0,
                dynamic_body: true,
                rotation_locked: false,
                zero_gravity: false,
            },
        }
    }

    /// The collider an int-grid cell gets: the wall value gives an
    /// eight-unit collider with rotation locked; any other value keeps the
    /// defaults.
    pub fn from_int_cell(value: i32) -> (c: ColliderBundle)
        ensures
            value == 1 ==> c == (ColliderBundle {
                half_extent: 8_000,
                dynamic_body: true,
                rotation_locked: true,
                zero_gravity: false,
            }),
            value != 1 ==> c == Self::default_spec(),
    {
        if value == 1 {
            ColliderBundle {
                half_extent: 8_000,
                dynamic_body: true,
                rotation_locked: true,
                zero_gravity: false,
            }
        } else {
            ColliderBundle {
                half_extent: 0,
                dynamic_body: true,
                rotation_locked: false,
                zero_gravity: false,
            }
        }
    }
}

/// One collider-intersection pair reported by the physics collaborator:
/// the attack entity it involves, the other collider, and whether that
/// collider is tagged as a wall.
#[derive(Clone, Copy, PartialEq, Eq, Structural, Debug)]
pub struct Intersection {
    pub attacker: u64,
    pub other: u64,
    pub other_is_wall: bool,
}

/// All combat state of one session.
pub struct World {
    pub player: Player,
    pub enemies: Vec<Enemy>,
    pub bullets: Vec<Bullet>,
    /// The beam visual, present while the laser trigger is held.
    pub beam: Option<Ray>,
    /// The melee swing, present while one is in progress.
    pub melee: Option<Melee>,
    /// The aim cursor sprite, spawned on first use.
    pub arrow: Option<Arrow>,
    pub spawn_timer: EnemySpawnTimer,
    /// The id the next spawned entity will get.
    pub next_id: u64,
}

/// The mathematical model of a `World`: the same state with the entity
/// vectors abstracted to sequences.  The step functions' contracts are
/// stated as transitions over this model.
#[verifier::ext_equal]
pub ghost struct WorldView {
    pub player: Player,
    pub enemies: Seq<Enemy>,
    pub bullets: Seq<Bullet>,
    pub beam: Option<Ray>,
    pub melee: Option<Melee>,
    pub arrow: Option<Arrow>,
    pub spawn_timer: EnemySpawnTimer,
    pub next_id: u64,
}

impl View for World {
    type V = WorldView;

    open spec fn view(&self) -> WorldView {
        WorldView {
            player: self.player,
            enemies: self.enemies@,
            bullets: self.bullets@,
            beam: self.beam,
            melee: self.melee,
            arrow: self.arrow,
            spawn_timer: self.spawn_timer,
            next_id: self.next_id,
        }
    }
}

impl WorldView {
    pub open spec fn enemies_wf(self) -> bool {
        &&& forall|i: int| 0 <= i < self.enemies.len() ==> (#[trigger] self.enemies[i]).wf()
        &&& forall|i: int|
            0 <= i < self.enemies.len() ==> (#[trigger] self.enemies[i]).id < self.next_id
        &&& forall|i: int, j: int|
            0 <= i < j < self.enemies.len() ==> self.enemies[i].id != self.enemies[j].id
    }

    pub open spec fn bullets_wf(self) -> bool {
        &&& forall|i: int| 0 <= i < self.bullets.len() ==> (#[trigger] self.bullets[i]).wf()
        &&& forall|i: int|
            0 <= i < self.bullets.len() ==> (#[trigger] self.bullets[i]).id < self.next_id
        &&& forall|i: int, j: int|
            0 <= i < j < self.bullets.len() ==> self.bullets[i].id != self.bullets[j].id
    }

    /// Every entity of the registry is well formed and every id was handed
    /// out by the id counter, no two entities sharing one.
    pub open spec fn wf(self) -> bool {
        &&& self.player.wf()
        &&& self.spawn_timer.timer.wf()
        &&& self.enemies_wf()
        &&& self.bullets_wf()
        &&& (self.melee matches Some(m) ==> m.wf() && m.id < self.next_id)
        &&& (self.beam matches Some(b) ==> b.wf())
    }
}

impl World {
    pub open spec fn wf(self) -> bool {
        self@.wf()
    }

    /// Set up a session: the player at its starting position, no enemies,
    /// no attack entities, and the spawn cadence armed.
    pub fn new(player_pos: Vec2) -> (w: World)
        requires
            player_pos.in_bounds(),
        ensures
            w.wf(),
            w.player == (Player { pos: player_pos, ..Player::initial() }),
            w@.enemies.len() == 0,
            w@.bullets.len() == 0,
            w.beam is None,
            w.melee is None,
            w.arrow is None,
            w.spawn_timer.timer.wf(),
            w.spawn_timer.timer.duration_ms == crate::enemy::SPAWN_PERIOD_MS,
            w.spawn_timer.timer.repeating,
            w.spawn_timer.timer.elapsed_ms == 0,
            !w.spawn_timer.timer.done,
            w.next_id == 0,
    {
        let mut player = Player::default();
        player.pos = player_pos;
        World {
            player,
            enemies: Vec::new(),
            bullets: Vec::new(),
            beam: None,
            melee: None,
            arrow: None,
            spawn_timer: EnemyPlugin::setup_enemy_spawning(),
            next_id: 0,
        }
    }

    /// Adopt the position the physics collaborator integrated for the
    /// player this tick.
    pub fn set_player_pos(&mut self, pos: Vec2)
        requires
            old(self).wf(),
            pos.in_bounds(),
        ensures
            final(self).wf(),
            final(self)@ == (WorldView {
                player: Player { pos, ..old(self).player },
                ..old(self)@
            }),
    {
        self.player.pos = pos;
    }

    /// Adopt the position the physics collaborator integrated for the enemy
    /// with the given id; an unknown id changes nothing.
    pub fn set_enemy_pos(&mut self, id: u64, pos: Vec2)
        requires
            old(self).wf(),
            pos.in_bounds(),
        ensures
            final(self).wf(),
            crate::enemy::enemy_present(old(self)@.enemies, id) ==> final(self)@ == (WorldView {
                enemies: old(self)@.enemies.update(
                    crate::enemy::enemy_at(old(self)@.enemies, id),
                    Enemy {
                        pos,
                        ..old(self)@.enemies[crate::enemy::enemy_at(old(self)@.enemies, id)]
                    },
                ),
                ..old(self)@
            }),
            !crate::enemy::enemy_present(old(self)@.enemies, id) ==> final(self)@ == old(self)@,
    {
        match crate::enemy::find_enemy(&self.enemies, id) {
            Some(i) => {
                proof {
                    crate::enemy::lemma_enemy_at_unique(old(self)@.enemies, id, i as int);
                    assert(old(self)@.enemies[i as int].wf());
                }
                let mut e = self.enemies[i];
                e.pos = pos;
                self.enemies.set(i, e);
                proof {
                    assert forall|j: int|
                        0 <= j < self@.enemies.len() implies (#[trigger] self@.enemies[j]).wf()
                        && self@.enemies[j].id < self@.next_id by {
                        assert(old(self)@.enemies[j].wf());
                    }
                    assert forall|i1: int, j1: int|
                        0 <= i1 < j1 < self@.enemies.len() implies self@.enemies[i1].id
                        != self@.enemies[j1].id by {
                        assert(old(self)@.enemies[i1].id != old(self)@.enemies[j1].id);
                    }
                }
            },
            None => {},
        }
    }

    /// Adopt the position the physics collaborator integrated for the
    /// projectile with the given id; an unknown id changes nothing.
    pub fn set_bullet_pos(&mut self, id: u64, pos: Vec2)
        requires
            old(self).wf(),
            pos.in_bounds(),
        ensures
            final(self).wf(),
            crate::player::bullet_present(old(self)@.bullets, id) ==> final(self)@ == (WorldView {
                bullets: old(self)@.bullets.update(
                    crate::player::bullet_at(old(self)@.bullets, id),
                    Bullet {
                        pos,
                        ..old(self)@.bullets[crate::player::bullet_at(old(self)@.bullets, id)]
                    },
                ),
                ..old(self)@
            }),
            !crate::player::bullet_present(old(self)@.bullets, id) ==> final(self)@ == old(
                self,
            )@,
    {
        let n = self.bullets.len();
        let mut i: usize = 0;
        while i < n
            invariant
                i <= n == self@.bullets.len(),
                *self == *old(self),
                old(self).wf(),
                pos.in_bounds(),
                forall|j: int| 0 <= j < i ==> (#[trigger] self@.bullets[j]).id != id,
            decreases n - i,
        {
            if self.bullets[i].id == id {
                proof {
                    crate::player::lemma_bullet_at_unique(old(self)@.bullets, id, i as int);
                    assert(old(self)@.bullets[i as int].wf());
                }
                let mut b = self.bullets[i];
                b.pos = pos;
                self.bullets.set(i, b);
                proof {
                    assert forall|j: int|
                        0 <= j < self@.bullets.len() implies (#[trigger] self@.bullets[j]).wf()
                        && self@.bullets[j].id < self@.next_id by {
                        assert(old(self)@.bullets[j].wf());
                    }
                    assert forall|i1: int, j1: int|
                        0 <= i1 < j1 < self@.bullets.len() implies self@.bullets[i1].id
                        != self@.bullets[j1].id by {
                        assert(old(self)@.bullets[i1].id != old(self)@.bullets[j1].id);
                    }
                }
                return ;
            }
            i = i + 1;
        }
        proof {
            assert(!crate::player::bullet_present(old(self)@.bullets, id));
        }
    }
}

} // verus!
