use vstd::prelude::*;
use crate::level::{LevelMarker, MarkerKind, Point};

verus! {

/// Collider radius of the player's coin.
pub const PLAYER_RADIUS: u32 = 20;

/// How far a goal's sensor volume sits inside the goal's drawn circle.
pub const END_POINT_SENSOR_INSET: u32 = 50;

/// What the materializer attaches to a marker so that it takes part in play.
#[derive(Clone, Copy, Debug, PartialEq, Eq)]
pub struct RuntimeParts {
    /// Radius of the collision volume.
    pub collider_radius: u32,
    /// The volume detects overlap without exerting force.
    pub sensor: bool,
    /// A dynamic rigid body that takes impulses and has a velocity.
    pub dynamic_body: bool,
    /// The entity is the one the player shoots.
    pub player_controlled: bool,
    /// Side of the square sprite drawn for it.
    pub sprite_size: u64,
}

/// An entity of the scene: a level marker, with what the materializer has
/// attached to it once it has run over it.
#[derive(Clone, Copy, Debug, PartialEq, Eq)]
pub struct SceneEntity {
    pub marker: LevelMarker,
    pub runtime: Option<RuntimeParts>,
}

/// The entities of a level, each under a stable index. A removed entity
/// leaves an empty slot, so other indices keep naming the same entities.
#[derive(Debug)]
pub struct Scene {
    pub entities: Vec<Option<SceneEntity>>,
}

/// What a marker of kind `k` is equipped with.
pub open spec fn runtime_for(k: MarkerKind) -> RuntimeParts {
    match k {
        MarkerKind::PlayerSpawnPoint => RuntimeParts {
            collider_radius: PLAYER_RADIUS,
            sensor: false,
            dynamic_body: true,
            player_controlled: true,
            sprite_size: (2 * PLAYER_RADIUS) as u64,
        },
        MarkerKind::EndPoint { radius } => RuntimeParts {
            collider_radius: if radius >= END_POINT_SENSOR_INSET {
                (radius - END_POINT_SENSOR_INSET) as u32
            } else {
                0
            },
            sensor: true,
            dynamic_body: false,
            player_controlled: false,
            sprite_size: (2 * radius) as u64,
        },
        MarkerKind::Obstacle { radius } => RuntimeParts {
            collider_radius: radius,
            sensor: false,
            dynamic_body: false,
            player_controlled: false,
            sprite_size: (2 * radius) as u64,
        },
    }
}

/// A slot that holds an entity not yet equipped.
pub open spec fn is_bare(slot: Option<SceneEntity>) -> bool {
    slot matches Some(e) && e.runtime is None
}

/// A slot after the materializer has passed over it.
pub open spec fn equip(slot: Option<SceneEntity>) -> Option<SceneEntity> {
    match slot {
        Some(e) => if e.runtime is None {
            Some(SceneEntity { marker: e.marker, runtime: Some(runtime_for(e.marker.kind)) })
        } else {
            slot
        },
        None => None,
    }
}

/// How many slots of `s` hold an entity not yet equipped.
pub open spec fn count_bare(s: Seq<Option<SceneEntity>>) -> nat
    decreases s.len(),
{
    if s.len() == 0 {
        0
    } else {
        count_bare(s.drop_last()) + if is_bare(s.last()) {
            1nat
        } else {
            0nat
        }
    }
}

/// The slot `id` holds an entity with a sensor volume.
pub open spec fn is_sensor_at(s: Seq<Option<SceneEntity>>, id: int) -> bool {
    0 <= id < s.len() && (s[id] matches Some(e) && (e.runtime matches Some(rt) && rt.sensor))
}

/// The slot `i` holds the player's entity.
pub open spec fn is_player_at(s: Seq<Option<SceneEntity>>, i: int) -> bool {
    0 <= i < s.len() && (s[i] matches Some(e) && (e.runtime matches Some(rt)
        && rt.player_controlled))
}

/// The runtime parts for a marker of kind `k`.
pub fn runtime_parts(k: MarkerKind) -> (r: RuntimeParts)
    ensures
        r == runtime_for(k),
{
    match k {
        MarkerKind::PlayerSpawnPoint => RuntimeParts {
            collider_radius: PLAYER_RADIUS,
            sensor: false,
            dynamic_body: true,
            player_controlled: true,
            sprite_size: 2 * PLAYER_RADIUS as u64,
        },
        MarkerKind::EndPoint { radius } => RuntimeParts {
            collider_radius: radius.saturating_sub(END_POINT_SENSOR_INSET),
            sensor: true,
            dynamic_body: false,
            player_controlled: false,
            sprite_size: 2 * radius as u64,
        },
        MarkerKind::Obstacle { radius } => RuntimeParts {
            collider_radius: radius,
            sensor: false,
            dynamic_body: false,
            player_controlled: false,
            sprite_size: 2 * radius as u64,
        },
    }
}

proof fn lemma_count_bare_step(s: Seq<Option<SceneEntity>>, i: int)
    requires
        0 <= i < s.len(),
    ensures
        count_bare(s.take(i + 1)) == count_bare(s.take(i)) + if is_bare(s[i]) {
            1nat
        } else {
            0nat
        },
{
    assert(s.take(i + 1).drop_last() =~= s.take(i));
}

proof fn lemma_count_bare_none(s: Seq<Option<SceneEntity>>)
    requires
        forall|i: int| 0 <= i < s.len() ==> !is_bare(#[trigger] s[i]),
    ensures
        count_bare(s) == 0,
    decreases s.len(),
{
    if s.len() > 0 {
        lemma_count_bare_none(s.drop_last());
    }
}

/// Running the materializer a second time over an unchanged scene changes
/// nothing and finds nothing left to equip: each marker is equipped once.
pub proof fn lemma_materialize_idempotent(s: Seq<Option<SceneEntity>>)
    ensures
        s.map_values(|x| equip(x)).map_values(|x| equip(x)) == s.map_values(|x| equip(x)),
        count_bare(s.map_values(|x| equip(x))) == 0,
{
    let once = s.map_values(|x| equip(x));
    assert(once.map_values(|x| equip(x)) =~= once);
    lemma_count_bare_none(once);
}

impl Scene {
    pub fn new() -> (r: Scene)
        ensures
            r.entities@ == Seq::<Option<SceneEntity>>::empty(),
    {
        Scene { entities: Vec::new() }
    }

    /// A scene that holds `markers`, in order, none of them equipped yet.
    pub fn from_markers(markers: &Vec<LevelMarker>) -> (r: Scene)
        ensures
            r.entities@ == markers@.map_values(
                |m: LevelMarker| Some(SceneEntity { marker: m, runtime: None }),
            ),
    {
        let mut entities: Vec<Option<SceneEntity>> = Vec::new();
        let mut i: usize = 0;
        while i < markers.len()
            invariant
                i <= markers.len(),
                entities@ == markers@.take(i as int).map_values(
                    |m: LevelMarker| Some(SceneEntity { marker: m, runtime: None }),
                ),
            decreases markers.len() - i,
        {
            entities.push(Some(SceneEntity { marker: markers[i], runtime: None }));
            i += 1;
            assert(markers@.take(i as int).drop_last() =~= markers@.take(i - 1));
        }
        assert(markers@.take(i as int) =~= markers@);
        Scene { entities }
    }

    /// Equips every marker entity that is not equipped yet, and returns how
    /// many it equipped. Entities already equipped are left as they are.
    pub fn add_elements(&mut self) -> (attached: usize)
        ensures
            final(self).entities@ == old(self).entities@.map_values(|x| equip(x)),
            attached == count_bare(old(self).entities@),
    {
        let ghost start = self.entities@;
        let mut attached: usize = 0;
        let mut i: usize = 0;
        while i < self.entities.len()
            invariant
                self.entities@.len() == start.len(),
                i <= start.len(),
                forall|j: int| 0 <= j < i ==> self.entities@[j] == equip(#[trigger] start[j]),
                forall|j: int| i <= j < start.len() ==> self.entities@[j] == start[j],
                attached == count_bare(start.take(i as int)),
            decreases start.len() - i,
        {
            proof {
                lemma_count_bare_step(start, i as int);
                assert(count_bare(start.take(i as int)) <= i) by {
                    lemma_count_bare_le_len(start.take(i as int));
                }
            }
            match self.entities[i] {
                Some(e) => {
                    if e.runtime.is_none() {
                        let parts = runtime_parts(e.marker.kind);
                        self.entities.set(i, Some(SceneEntity { marker: e.marker, runtime: Some(parts) }));
                        attached += 1;
                    }
                },
                None => {},
            }
            i += 1;
        }
        assert(start.take(start.len() as int) =~= start);
        assert(self.entities@ =~= start.map_values(|x| equip(x)));
        attached
    }

    /// Whether entity `id` carries a sensor volume.
    pub fn is_sensor(&self, id: usize) -> (r: bool)
        ensures
            r == is_sensor_at(self.entities@, id as int),
    {
        if id >= self.entities.len() {
            return false;
        }
        match self.entities[id] {
            Some(e) => match e.runtime {
                Some(rt) => rt.sensor,
                None => false,
            },
            None => false,
        }
    }

    /// The first entity that the player controls, if any.
    pub fn find_player(&self) -> (r: Option<usize>)
        ensures
            r matches Some(i) ==> is_player_at(self.entities@, i as int) && forall|j: int|
                0 <= j < i ==> !is_player_at(self.entities@, j),
            r is None ==> forall|j: int|
                0 <= j < self.entities@.len() ==> !is_player_at(self.entities@, j),
    {
        let mut i: usize = 0;
        while i < self.entities.len()
            invariant
                i <= self.entities@.len(),
                forall|j: int| 0 <= j < i ==> !is_player_at(self.entities@, j),
            decreases self.entities@.len() - i,
        {
            match self.entities[i] {
                Some(e) => match e.runtime {
                    Some(rt) => {
                        if rt.player_controlled {
                            return Some(i);
                        }
                    },
                    None => {},
                },
                None => {},
            }
            i += 1;
        }
        None
    }

    /// Where entity `id` stands, if the slot holds one.
    pub fn position_of(&self, id: usize) -> (r: Option<Point>)
        ensures
            r == (if id < self.entities@.len() && self.entities@[id as int] is Some {
                Some(self.entities@[id as int]->Some_0.marker.pos)
            } else {
                None
            }),
    {
        if id >= self.entities.len() {
            return None;
        }
        match self.entities[id] {
            Some(e) => Some(e.marker.pos),
            None => None,
        }
    }
}

/// The level that a play session starts from where none was authored: the
/// coin above two candles, and the goal below them.
pub fn setup_world() -> (r: Scene)
    ensures
        r.entities@ == seq![
            Some(SceneEntity { marker: LevelMarker { kind: MarkerKind::Obstacle { radius: 45 }, pos: Point { x: 0i32, y: -24i32 } }, runtime: None }),
            Some(SceneEntity { marker: LevelMarker { kind: MarkerKind::Obstacle { radius: 45 }, pos: Point { x: 100i32, y: -24i32 } }, runtime: None }),
            Some(SceneEntity { marker: LevelMarker { kind: MarkerKind::EndPoint { radius: 80 }, pos: Point { x: 45i32, y: -190i32 } }, runtime: None }),
            Some(SceneEntity { marker: LevelMarker { kind: MarkerKind::PlayerSpawnPoint, pos: Point { x: 0, y: 260 } }, runtime: None }),
        ],
{
    let mut entities: Vec<Option<SceneEntity>> = Vec::new();
    entities.push(Some(SceneEntity { marker: LevelMarker::obstacle(Point::new(0, -24), 45), runtime: None }));
    entities.push(Some(SceneEntity { marker: LevelMarker::obstacle(Point::new(100, -24), 45), runtime: None }));
    entities.push(Some(SceneEntity { marker: LevelMarker::end_point(Point::new(45, -190), 80), runtime: None }));
    entities.push(Some(SceneEntity { marker: LevelMarker::spawn_point(Point::new(0, 260)), runtime: None }));
    let r = Scene { entities };
    assert(r.entities@ =~= seq![
        Some(SceneEntity { marker: LevelMarker { kind: MarkerKind::Obstacle { radius: 45 }, pos: Point { x: 0i32, y: -24i32 } }, runtime: None }),
        Some(SceneEntity { marker: LevelMarker { kind: MarkerKind::Obstacle { radius: 45 }, pos: Point { x: 100i32, y: -24i32 } }, runtime: None }),
        Some(SceneEntity { marker: LevelMarker { kind: MarkerKind::EndPoint { radius: 80 }, pos: Point { x: 45i32, y: -190i32 } }, runtime: None }),
        Some(SceneEntity { marker: LevelMarker { kind: MarkerKind::PlayerSpawnPoint, pos: Point { x: 0, y: 260 } }, runtime: None }),
    ]);
    r
}

proof fn lemma_count_bare_le_len(s: Seq<Option<SceneEntity>>)
    ensures
        count_bare(s) <= s.len(),
    decreases s.len(),
{
    if s.len() > 0 {
        lemma_count_bare_le_len(s.drop_last());
    }
}

} // verus!
