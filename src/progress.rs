use vstd::prelude::*;
use crate::scene::{is_sensor_at, Scene, SceneEntity};

verus! {

/// Speed, in thousandths of a world unit per second, below which the
/// player's coin counts as at rest.
pub const STILL_SPEED: i64 = 100;

/// A linear velocity, in thousandths of a world unit per second.
#[derive(Clone, Copy, Debug, PartialEq, Eq)]
pub struct Velocity {
    pub x: i32,
    pub y: i32,
}

/// Counters of one play session.
#[derive(Clone, Copy, Debug, PartialEq, Eq)]
pub struct GameplayProgress {
    /// Collisions with solid volumes.
    pub touches: u64,
    /// Shots fired.
    pub moves: u64,
    /// The player overlaps a goal's sensor volume.
    pub is_inside_end_place: bool,
}

/// A collision notification between two entities of the scene.
#[derive(Clone, Copy, Debug, PartialEq, Eq)]
pub enum CollisionEvent {
    Started(usize, usize),
    Stopped(usize, usize),
}

/// Remembers whether the last velocity sample was at rest, so that a win is
/// reported when the coin comes to rest, not on every sample while it rests.
#[derive(Clone, Copy, Debug, PartialEq, Eq)]
pub struct WinDetector {
    pub was_at_rest: bool,
}

/// What a velocity sample gives.
#[derive(Clone, Copy, Debug, PartialEq, Eq)]
pub struct VelocityOutcome {
    /// The progress display should be refreshed.
    pub progress_changed: bool,
    /// The coin has just come to rest inside the goal.
    pub win: bool,
}

pub open spec fn speed2(v: Velocity) -> int {
    v.x * v.x + v.y * v.y
}

/// The speed is below the stillness threshold.
pub open spec fn at_rest(v: Velocity) -> bool {
    speed2(v) < STILL_SPEED * STILL_SPEED
}

/// The speed is above the stillness threshold.
pub open spec fn is_moving(v: Velocity) -> bool {
    speed2(v) > STILL_SPEED * STILL_SPEED
}

pub open spec fn zero_progress() -> GameplayProgress {
    GameplayProgress { touches: 0, moves: 0, is_inside_end_place: false }
}

/// One of the two entities carries a sensor volume.
pub open spec fn involves_sensor(s: Seq<Option<SceneEntity>>, a: usize, b: usize) -> bool {
    is_sensor_at(s, a as int) || is_sensor_at(s, b as int)
}

/// Progress after one collision notification.
pub open spec fn after_collision(
    p: GameplayProgress,
    ev: CollisionEvent,
    s: Seq<Option<SceneEntity>>,
) -> GameplayProgress {
    match ev {
        CollisionEvent::Started(a, b) => if involves_sensor(s, a, b) {
            GameplayProgress { is_inside_end_place: true, ..p }
        } else {
            GameplayProgress { touches: (p.touches + 1) as u64, ..p }
        },
        CollisionEvent::Stopped(a, b) => if involves_sensor(s, a, b) {
            GameplayProgress { is_inside_end_place: false, ..p }
        } else {
            p
        },
    }
}

/// Progress after the notifications `evs`, in order.
pub open spec fn after_collisions(
    p: GameplayProgress,
    evs: Seq<CollisionEvent>,
    s: Seq<Option<SceneEntity>>,
) -> GameplayProgress
    decreases evs.len(),
{
    if evs.len() == 0 {
        p
    } else {
        after_collision(after_collisions(p, evs.drop_last(), s), evs.last(), s)
    }
}

/// Whether a sample `v` reports a win, after a sample that was at rest or not.
pub open spec fn wins(was_at_rest: bool, v: Velocity, inside: bool) -> bool {
    at_rest(v) && !was_at_rest && inside
}

/// How many of the samples `vs`, taken in order from a detector that
/// remembers `was_at_rest`, report a win while `inside` holds.
pub open spec fn count_wins(was_at_rest: bool, vs: Seq<Velocity>, inside: bool) -> nat
    decreases vs.len(),
{
    if vs.len() == 0 {
        0
    } else {
        (if wins(was_at_rest, vs[0], inside) {
            1nat
        } else {
            0nat
        }) + count_wins(at_rest(vs[0]), vs.drop_first(), inside)
    }
}

proof fn lemma_no_win_while_resting(vs: Seq<Velocity>, inside: bool)
    requires
        forall|i: int| 0 <= i < vs.len() ==> at_rest(#[trigger] vs[i]),
    ensures
        count_wins(true, vs, inside) == 0,
    decreases vs.len(),
{
    if vs.len() > 0 {
        let rest = vs.drop_first();
        assert forall|i: int| 0 <= i < rest.len() implies at_rest(#[trigger] rest[i]) by {
            assert(rest[i] == vs[i + 1]);
        }
        lemma_no_win_while_resting(rest, inside);
    }
}

/// A coin inside the goal that is moving and then stays at rest for any
/// number of samples is reported as a winner exactly once: on the first
/// sample at rest.
pub proof fn lemma_win_reported_once(was_at_rest: bool, vs: Seq<Velocity>)
    requires
        vs.len() >= 2,
        !at_rest(vs[0]),
        forall|i: int| 1 <= i < vs.len() ==> at_rest(#[trigger] vs[i]),
    ensures
        count_wins(was_at_rest, vs, true) == 1,
        wins(false, vs[1], true),
{
    let rest = vs.drop_first();
    let tail = rest.drop_first();
    assert forall|i: int| 0 <= i < tail.len() implies at_rest(#[trigger] tail[i]) by {
        assert(tail[i] == vs[i + 2]);
    }
    lemma_no_win_while_resting(tail, true);
    assert(rest[0] == vs[1]);
    assert(count_wins(false, rest, true) == 1 + count_wins(true, tail, true));
}

/// A collision that starts against a goal's sensor puts the player inside
/// the goal and counts no touch; one that starts against solid volumes counts
/// exactly one touch and leaves the inside flag as it was.
pub proof fn lemma_collision_classification(
    p: GameplayProgress,
    a: usize,
    b: usize,
    s: Seq<Option<SceneEntity>>,
)
    requires
        p.touches < u64::MAX,
    ensures
        involves_sensor(s, a, b) ==> {
            let q = after_collision(p, CollisionEvent::Started(a, b), s);
            q.is_inside_end_place && q.touches == p.touches && q.moves == p.moves
        },
        !involves_sensor(s, a, b) ==> {
            let q = after_collision(p, CollisionEvent::Started(a, b), s);
            q.touches == p.touches + 1 && q.is_inside_end_place == p.is_inside_end_place
                && q.moves == p.moves
        },
{
}

impl GameplayProgress {
    pub fn new() -> (r: GameplayProgress)
        ensures
            r == zero_progress(),
    {
        GameplayProgress { touches: 0, moves: 0, is_inside_end_place: false }
    }

    /// Back to the state of a session that has just begun.
    pub fn reset(&mut self)
        ensures
            *final(self) == zero_progress(),
    {
        self.touches = 0;
        self.moves = 0;
        self.is_inside_end_place = false;
    }

    /// Applies one collision notification: a start against a sensor puts the
    /// player inside the goal, a start against a solid volume counts a touch,
    /// and a stop against a sensor takes the player out of the goal.
    pub fn on_collision(&mut self, ev: CollisionEvent, scene: &Scene)
        requires
            old(self).touches < u64::MAX,
        ensures
            *final(self) == after_collision(*old(self), ev, scene.entities@),
    {
        match ev {
            CollisionEvent::Started(a, b) => {
                if scene.is_sensor(a) || scene.is_sensor(b) {
                    self.is_inside_end_place = true;
                } else {
                    self.touches = self.touches + 1;
                }
            },
            CollisionEvent::Stopped(a, b) => {
                if scene.is_sensor(a) || scene.is_sensor(b) {
                    self.is_inside_end_place = false;
                }
            },
        }
    }

    /// Applies the notifications of one tick in order, and says whether the
    /// progress display should be refreshed: whenever there was any.
    pub fn display_events(&mut self, events: &Vec<CollisionEvent>, scene: &Scene) -> (changed:
        bool)
        requires
            old(self).touches + events@.len() <= u64::MAX,
        ensures
            *final(self) == after_collisions(*old(self), events@, scene.entities@),
            changed == (events@.len() > 0),
    {
        let ghost start = *self;
        let mut i: usize = 0;
        while i < events.len()
            invariant
                i <= events@.len(),
                *self == after_collisions(start, events@.take(i as int), scene.entities@),
                self.touches <= start.touches + i,
                start.touches + events@.len() <= u64::MAX,
            decreases events@.len() - i,
        {
            assert(events@.take(i + 1).drop_last() =~= events@.take(i as int));
            self.on_collision(events[i], scene);
            i += 1;
        }
        assert(events@.take(i as int) =~= events@);
        events.len() > 0
    }
}

impl WinDetector {
    pub fn new() -> (r: WinDetector)
        ensures
            r.was_at_rest == false,
    {
        WinDetector { was_at_rest: false }
    }

    /// Takes a velocity sample of the player's coin. A sample at rest asks
    /// for a refresh of the progress display; it reports a win only where the
    /// coin has just come to rest and is inside the goal.
    pub fn velocity_changed(&mut self, progress: &GameplayProgress, v: Velocity) -> (r:
        VelocityOutcome)
        ensures
            r.progress_changed == at_rest(v),
            r.win == wins(old(self).was_at_rest, v, progress.is_inside_end_place),
            final(self).was_at_rest == at_rest(v),
    {
        let still = speed_squared(v) < (STILL_SPEED * STILL_SPEED) as u64;
        let win = still && !self.was_at_rest && progress.is_inside_end_place;
        self.was_at_rest = still;
        VelocityOutcome { progress_changed: still, win }
    }
}

/// Square of the speed of `v`.
pub fn speed_squared(v: Velocity) -> (r: u64)
    ensures
        r as int == speed2(v),
{
    let x: i64 = v.x as i64;
    let y: i64 = v.y as i64;
    proof {
        assert(x * x <= 0x4000_0000_0000_0000int) by (nonlinear_arith)
            requires
                -0x8000_0000int <= x <= 0x8000_0000int,
        ;
        assert(y * y <= 0x4000_0000_0000_0000int) by (nonlinear_arith)
            requires
                -0x8000_0000int <= y <= 0x8000_0000int,
        ;
        assert(x * x >= 0 && y * y >= 0) by (nonlinear_arith);
    }
    ((x * x) as u64) + ((y * y) as u64)
}

} // verus!
