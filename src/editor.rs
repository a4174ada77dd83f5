use vstd::prelude::*;
use crate::level::{dist2, LevelMarker, MarkerKind, Point, END_POINT_RADIUS, OBSTACLE_RADIUS};
use crate::scene::{Scene, SceneEntity};

verus! {

/// What a release of the pointer does on the editor's canvas.
#[derive(Clone, Copy, Debug, PartialEq, Eq)]
pub enum ActionToDo {
    MoveObject,
    SetPlayerSpawnPoint,
    SetEndPoint,
    AddObstacleToMap,
    RemoveObject,
    DoNothing,
}

impl Default for ActionToDo {
    fn default() -> (r: ActionToDo)
        ensures
            r == ActionToDo::DoNothing,
    {
        ActionToDo::DoNothing
    }
}

/// Which entities a nearest-object query looks at.
#[derive(Clone, Copy, Debug, PartialEq, Eq)]
pub enum ObjectFilter {
    AnyObject,
    SpawnPoints,
    EndPoints,
    Obstacles,
}

/// The editor's own state: the selected action, and whether the pointer is
/// over the editor's panel, where a release does not touch the canvas.
#[derive(Clone, Copy, Debug, PartialEq, Eq)]
pub struct EditorState {
    pub action: ActionToDo,
    pub pointer_over_ui: bool,
}

/// The filter takes markers of kind `k`.
pub open spec fn kind_matches(k: MarkerKind, f: ObjectFilter) -> bool {
    match f {
        ObjectFilter::AnyObject => true,
        ObjectFilter::SpawnPoints => k is PlayerSpawnPoint,
        ObjectFilter::EndPoints => k is EndPoint,
        ObjectFilter::Obstacles => k is Obstacle,
    }
}

/// The slot holds an entity that the filter takes.
pub open spec fn selected(slot: Option<SceneEntity>, f: ObjectFilter) -> bool {
    match slot {
        None => false,
        Some(e) => kind_matches(e.marker.kind, f),
    }
}

pub open spec fn slot_pos(slot: Option<SceneEntity>) -> Point {
    slot->Some_0.marker.pos
}

/// Slot `i` holds the selected entity nearest to `p`, and the first such in
/// slot order where several are equally near.
pub open spec fn is_closest(s: Seq<Option<SceneEntity>>, f: ObjectFilter, p: Point, i: int) -> bool {
    &&& 0 <= i < s.len()
    &&& selected(s[i], f)
    &&& forall|j: int|
        0 <= j < s.len() && selected(#[trigger] s[j], f) ==> dist2(slot_pos(s[i]), p) <= dist2(
            slot_pos(s[j]),
            p,
        )
    &&& forall|j: int|
        0 <= j < i && selected(#[trigger] s[j], f) ==> dist2(slot_pos(s[i]), p) < dist2(
            slot_pos(s[j]),
            p,
        )
}

/// The nearest selected entity to `p`, or `None` where the filter takes none.
pub open spec fn closest(s: Seq<Option<SceneEntity>>, f: ObjectFilter, p: Point) -> Option<int> {
    if exists|i: int| is_closest(s, f, p, i) {
        Some(choose|i: int| is_closest(s, f, p, i))
    } else {
        None
    }
}

/// The slot moved to `p`, with its kind and what it is equipped with kept.
pub open spec fn moved_to(slot: Option<SceneEntity>, p: Point) -> Option<SceneEntity> {
    Some(
        SceneEntity {
            marker: LevelMarker { kind: slot->Some_0.marker.kind, pos: p },
            runtime: slot->Some_0.runtime,
        },
    )
}

pub open spec fn fresh(kind: MarkerKind, p: Point) -> Option<SceneEntity> {
    Some(SceneEntity { marker: LevelMarker { kind, pos: p }, runtime: None })
}

/// Move the nearest selected entity to `p`, or add a new one there.
pub open spec fn place(
    s: Seq<Option<SceneEntity>>,
    f: ObjectFilter,
    kind: MarkerKind,
    p: Point,
) -> Seq<Option<SceneEntity>> {
    match closest(s, f, p) {
        Some(i) => s.update(i, moved_to(s[i], p)),
        None => s.push(fresh(kind, p)),
    }
}

/// The scene after `a` is carried out at the pointer position `p`.
pub open spec fn after_action(s: Seq<Option<SceneEntity>>, a: ActionToDo, p: Point) -> Seq<
    Option<SceneEntity>,
> {
    match a {
        ActionToDo::SetPlayerSpawnPoint => place(
            s,
            ObjectFilter::SpawnPoints,
            MarkerKind::PlayerSpawnPoint,
            p,
        ),
        ActionToDo::SetEndPoint => place(
            s,
            ObjectFilter::EndPoints,
            MarkerKind::EndPoint { radius: END_POINT_RADIUS },
            p,
        ),
        ActionToDo::AddObstacleToMap => s.push(fresh(MarkerKind::Obstacle { radius: OBSTACLE_RADIUS }, p)),
        ActionToDo::MoveObject => match closest(s, ObjectFilter::AnyObject, p) {
            Some(i) => s.update(i, moved_to(s[i], p)),
            None => s,
        },
        ActionToDo::RemoveObject => match closest(s, ObjectFilter::AnyObject, p) {
            Some(i) => s.update(i, None),
            None => s,
        },
        ActionToDo::DoNothing => s,
    }
}

/// The markers of the scene's entities, in slot order.
pub open spec fn markers_of(s: Seq<Option<SceneEntity>>) -> Seq<LevelMarker>
    decreases s.len(),
{
    if s.len() == 0 {
        Seq::empty()
    } else {
        match s.last() {
            Some(e) => markers_of(s.drop_last()).push(e.marker),
            None => markers_of(s.drop_last()),
        }
    }
}

proof fn lemma_closest_unique(s: Seq<Option<SceneEntity>>, f: ObjectFilter, p: Point, i: int)
    requires
        is_closest(s, f, p, i),
    ensures
        closest(s, f, p) == Some(i),
{
    let c = choose|k: int| is_closest(s, f, p, k);
    assert(is_closest(s, f, p, c));
    if c < i {
        assert(selected(s[c], f));
    } else if c > i {
        assert(selected(s[i], f));
    }
}

fn kind_selected(kind: MarkerKind, f: ObjectFilter) -> (r: bool)
    ensures
        r == kind_matches(kind, f),
{
    match f {
        ObjectFilter::AnyObject => true,
        ObjectFilter::SpawnPoints => matches!(kind, MarkerKind::PlayerSpawnPoint),
        ObjectFilter::EndPoints => matches!(kind, MarkerKind::EndPoint { .. }),
        ObjectFilter::Obstacles => matches!(kind, MarkerKind::Obstacle { .. }),
    }
}

/// The entity nearest to `pointer` among those that `filter` takes, the
/// first in slot order among equally near ones; `None` where there is none.
pub fn get_closest_object_with_type(scene: &Scene, filter: ObjectFilter, pointer: Point) -> (r:
    Option<usize>)
    ensures
        r matches Some(i) ==> closest(scene.entities@, filter, pointer) == Some(i as int),
        r is None ==> closest(scene.entities@, filter, pointer) is None,
        r is None <==> forall|j: int|
            0 <= j < scene.entities@.len() ==> !selected(#[trigger] scene.entities@[j], filter),
{
    let ghost s = scene.entities@;
    let mut best: Option<usize> = None;
    let mut best_d: u128 = 0;
    let mut i: usize = 0;
    while i < scene.entities.len()
        invariant
            i <= s.len(),
            s == scene.entities@,
            best is None ==> forall|j: int| 0 <= j < i ==> !selected(#[trigger] s[j], filter),
            best matches Some(b) ==> {
                &&& b < i
                &&& selected(s[b as int], filter)
                &&& best_d == dist2(slot_pos(s[b as int]), pointer)
                &&& forall|j: int|
                    0 <= j < i && selected(#[trigger] s[j], filter) ==> best_d <= dist2(
                        slot_pos(s[j]),
                        pointer,
                    )
                &&& forall|j: int|
                    0 <= j < b && selected(#[trigger] s[j], filter) ==> best_d < dist2(
                        slot_pos(s[j]),
                        pointer,
                    )
            },
        decreases s.len() - i,
    {
        match scene.entities[i] {
            Some(e) => {
                if kind_selected(e.marker.kind, filter) {
                    let d = e.marker.pos.distance_squared(&pointer);
                    match best {
                        None => {
                            best = Some(i);
                            best_d = d;
                        },
                        Some(_) => {
                            if d < best_d {
                                best = Some(i);
                                best_d = d;
                            }
                        },
                    }
                }
            },
            None => {},
        }
        i += 1;
    }
    match best {
        Some(b) => {
            proof {
                lemma_closest_unique(s, filter, pointer, b as int);
            }
        },
        None => {},
    }
    best
}

fn move_slot(scene: &mut Scene, i: usize, pointer: Point)
    requires
        i < old(scene).entities@.len(),
        old(scene).entities@[i as int] is Some,
    ensures
        final(scene).entities@ == old(scene).entities@.update(
            i as int,
            moved_to(old(scene).entities@[i as int], pointer),
        ),
{
    match scene.entities[i] {
        Some(e) => {
            scene.entities.set(
                i,
                Some(SceneEntity { marker: LevelMarker { kind: e.marker.kind, pos: pointer }, runtime: e.runtime }),
            );
        },
        None => {},
    }
}

fn place_marker(scene: &mut Scene, filter: ObjectFilter, kind: MarkerKind, pointer: Point)
    ensures
        final(scene).entities@ == place(old(scene).entities@, filter, kind, pointer),
{
    match get_closest_object_with_type(scene, filter, pointer) {
        Some(i) => move_slot(scene, i, pointer),
        None => {
            scene.entities.push(Some(SceneEntity { marker: LevelMarker { kind, pos: pointer }, runtime: None }));
        },
    }
}

/// Carries out `action` at the pointer position: a spawn point or a goal is
/// moved there if one exists and added there otherwise, an obstacle is
/// always added, and the nearest object is moved there or removed.
pub fn apply_action(scene: &mut Scene, action: ActionToDo, pointer: Point)
    ensures
        final(scene).entities@ == after_action(old(scene).entities@, action, pointer),
{
    match action {
        ActionToDo::SetPlayerSpawnPoint => {
            place_marker(scene, ObjectFilter::SpawnPoints, MarkerKind::PlayerSpawnPoint, pointer);
        },
        ActionToDo::SetEndPoint => {
            place_marker(
                scene,
                ObjectFilter::EndPoints,
                MarkerKind::EndPoint { radius: END_POINT_RADIUS },
                pointer,
            );
        },
        ActionToDo::AddObstacleToMap => {
            scene.entities.push(
                Some(
                    SceneEntity {
                        marker: LevelMarker {
                            kind: MarkerKind::Obstacle { radius: OBSTACLE_RADIUS },
                            pos: pointer,
                        },
                        runtime: None,
                    },
                ),
            );
        },
        ActionToDo::MoveObject => {
            match get_closest_object_with_type(scene, ObjectFilter::AnyObject, pointer) {
                Some(i) => move_slot(scene, i, pointer),
                None => {},
            }
        },
        ActionToDo::RemoveObject => {
            match get_closest_object_with_type(scene, ObjectFilter::AnyObject, pointer) {
                Some(i) => {
                    scene.entities.set(i, None);
                },
                None => {},
            }
        },
        ActionToDo::DoNothing => {},
    }
}

impl EditorState {
    pub fn new() -> (r: EditorState)
        ensures
            r == (EditorState { action: ActionToDo::DoNothing, pointer_over_ui: false }),
    {
        EditorState { action: ActionToDo::DoNothing, pointer_over_ui: false }
    }

    /// A release of the pointer at `pointer`: the selected action is carried
    /// out, unless the pointer is over the editor's panel.
    pub fn pointer_released(&self, scene: &mut Scene, pointer: Point)
        ensures
            final(scene).entities@ == (if self.pointer_over_ui {
                old(scene).entities@
            } else {
                after_action(old(scene).entities@, self.action, pointer)
            }),
    {
        if !self.pointer_over_ui {
            apply_action(scene, self.action, pointer);
        }
    }
}

/// The markers that a save takes from the scene: those of its entities, in
/// slot order.
pub fn collect_markers(scene: &Scene) -> (r: Vec<LevelMarker>)
    ensures
        r@ == markers_of(scene.entities@),
{
    let mut out: Vec<LevelMarker> = Vec::new();
    let mut i: usize = 0;
    while i < scene.entities.len()
        invariant
            i <= scene.entities@.len(),
            out@ == markers_of(scene.entities@.take(i as int)),
        decreases scene.entities@.len() - i,
    {
        assert(scene.entities@.take(i + 1).drop_last() =~= scene.entities@.take(i as int));
        match scene.entities[i] {
            Some(e) => out.push(e.marker),
            None => {},
        }
        i += 1;
    }
    assert(scene.entities@.take(i as int) =~= scene.entities@);
    out
}

} // verus!
