use vstd::prelude::*;

verus! {

/// A point of the plane, in whole world units.
#[derive(Clone, Copy, Debug, PartialEq, Eq)]
pub struct Point {
    pub x: i32,
    pub y: i32,
}

/// Square of the Euclidean distance between two points.
pub open spec fn dist2(a: Point, b: Point) -> int {
    (a.x - b.x) * (a.x - b.x) + (a.y - b.y) * (a.y - b.y)
}

/// The three kinds of level marker, with the radius where the kind has one.
#[derive(Clone, Copy, Debug, PartialEq, Eq)]
pub enum MarkerKind {
    PlayerSpawnPoint,
    EndPoint { radius: u32 },
    Obstacle { radius: u32 },
}

/// A level marker: its kind and where it stands (always at depth zero).
#[derive(Clone, Copy, Debug, PartialEq, Eq)]
pub struct LevelMarker {
    pub kind: MarkerKind,
    pub pos: Point,
}

/// Radius that the editor gives a new goal.
pub const END_POINT_RADIUS: u32 = 80;

/// Radius that the editor gives a new obstacle.
pub const OBSTACLE_RADIUS: u32 = 45;

impl Point {
    pub fn new(x: i32, y: i32) -> (r: Point)
        ensures
            r == (Point { x, y }),
    {
        Point { x, y }
    }

    /// Square of the distance to `o`.
    pub fn distance_squared(&self, o: &Point) -> (r: u128)
        ensures
            r as int == dist2(*self, *o),
            r < 0x4_0000_0000_0000_0000u128,
    {
        let dx: i64 = self.x as i64 - o.x as i64;
        let dy: i64 = self.y as i64 - o.y as i64;
        let ax: u128 = if dx < 0 { (-dx) as u128 } else { dx as u128 };
        let ay: u128 = if dy < 0 { (-dy) as u128 } else { dy as u128 };
        proof {
            assert(ax * ax <= 0x1_0000_0000_0000_0000u128) by (nonlinear_arith)
                requires
                    ax <= 0xffff_ffffu128,
            ;
            assert(ay * ay <= 0x1_0000_0000_0000_0000u128) by (nonlinear_arith)
                requires
                    ay <= 0xffff_ffffu128,
            ;
            assert(ax * ax == dx * dx) by (nonlinear_arith)
                requires
                    ax == dx || ax == -dx,
            ;
            assert(ay * ay == dy * dy) by (nonlinear_arith)
                requires
                    ay == dy || ay == -dy,
            ;
        }
        ax * ax + ay * ay
    }
}

impl LevelMarker {
    pub fn spawn_point(pos: Point) -> (r: LevelMarker)
        ensures
            r == (LevelMarker { kind: MarkerKind::PlayerSpawnPoint, pos }),
    {
        LevelMarker { kind: MarkerKind::PlayerSpawnPoint, pos }
    }

    pub fn end_point(pos: Point, radius: u32) -> (r: LevelMarker)
        ensures
            r == (LevelMarker { kind: MarkerKind::EndPoint { radius }, pos }),
    {
        LevelMarker { kind: MarkerKind::EndPoint { radius }, pos }
    }

    pub fn obstacle(pos: Point, radius: u32) -> (r: LevelMarker)
        ensures
            r == (LevelMarker { kind: MarkerKind::Obstacle { radius }, pos }),
    {
        LevelMarker { kind: MarkerKind::Obstacle { radius }, pos }
    }
}

} // verus!
