use vstd::prelude::*;
use crate::level::{dist2, Point};
use crate::progress::{is_moving, speed_squared, GameplayProgress, Velocity, STILL_SPEED};

verus! {

/// How a pointer pull is turned into a launch strength.
///
/// A pull shorter than `min_distance` does not shoot; a pull of
/// `max_distance` or more gives `max_strength`; in between the strength grows
/// linearly with the pull, from `min_strength` at no pull at all.
#[derive(Clone, Copy, Debug, PartialEq, Eq)]
pub struct GameplaySettings {
    pub min_distance: u32,
    pub min_strength: u32,
    pub max_distance: u32,
    pub max_strength: u32,
}

/// The strength that a pull of `distance` gives, or `None` where the pull is
/// too short to shoot.
pub open spec fn force_map(s: GameplaySettings, distance: nat) -> Option<nat> {
    if distance < s.min_distance {
        None
    } else {
        let pull: nat = if distance < s.max_distance { distance } else { s.max_distance as nat };
        Some(
            (pull * ((s.max_strength - s.min_strength) as nat) / (s.max_distance as nat)
                + s.min_strength) as nat,
        )
    }
}

/// Spin given to the coin by every shot, in thousandths of a unit.
pub const SHOT_TORQUE: u32 = 300;

/// The state of the pointer's main button in this tick.
#[derive(Clone, Copy, Debug, PartialEq, Eq)]
pub struct PointerButtons {
    pub pressed: bool,
    pub just_released: bool,
}

/// Where the player's coin stands and how fast it moves.
#[derive(Clone, Copy, Debug, PartialEq, Eq)]
pub struct PlayerBody {
    pub pos: Point,
    pub vel: Velocity,
}

/// A displacement of the plane; as a direction it stands for the unit
/// vector along it.
#[derive(Clone, Copy, Debug, PartialEq, Eq)]
pub struct Offset {
    pub dx: i64,
    pub dy: i64,
}

/// Aiming in progress: where the coin is, where the shot would go, and how
/// hard.
#[derive(Clone, Copy, Debug, PartialEq, Eq)]
pub struct AimingEvent {
    pub player_pos: Point,
    pub direction: Offset,
    pub strength: u64,
}

/// Aiming is over, with a shot fired or not.
#[derive(Clone, Copy, Debug, PartialEq, Eq)]
pub struct AimingEndedEvent {
    pub shoot: bool,
}

/// A shot: an impulse of `strength` along `direction`, and a spin.
#[derive(Clone, Copy, Debug, PartialEq, Eq)]
pub struct Impulse {
    pub direction: Offset,
    pub strength: u64,
    pub torque: u32,
}

/// What the controller does in one tick.
#[derive(Clone, Copy, Debug, PartialEq, Eq)]
pub struct AimStep {
    pub aiming: Option<AimingEvent>,
    pub ended: Option<AimingEndedEvent>,
    pub impulse: Option<Impulse>,
}

/// `r` is the whole part of the square root of `n`.
pub open spec fn is_floor_sqrt(n: nat, r: nat) -> bool {
    r * r <= n && n < (r + 1) * (r + 1)
}

/// The whole part of the square root of `n`.
pub open spec fn floor_sqrt(n: nat) -> nat {
    choose|r: nat| #[trigger] is_floor_sqrt(n, r)
}

pub open spec fn idle_step() -> AimStep {
    AimStep { aiming: None, ended: None, impulse: None }
}

pub open spec fn no_shot_step(released: bool) -> AimStep {
    if released {
        AimStep { aiming: None, ended: Some(AimingEndedEvent { shoot: false }), impulse: None }
    } else {
        idle_step()
    }
}

/// The controller's decision for one tick: nothing without a player or
/// without the button; no aiming while the coin moves or the pull is too
/// short; otherwise live aiming while the button is held, and a shot toward
/// the pointer when it is released.
pub open spec fn aim_step(
    s: GameplaySettings,
    b: PointerButtons,
    pointer: Point,
    player: Option<PlayerBody>,
) -> AimStep {
    match player {
        None => idle_step(),
        Some(p) => if !(b.pressed || b.just_released) {
            idle_step()
        } else if is_moving(p.vel) {
            no_shot_step(b.just_released)
        } else {
            let dir = Offset { dx: (pointer.x - p.pos.x) as i64, dy: (pointer.y - p.pos.y) as i64 };
            match force_map(s, floor_sqrt(dist2(pointer, p.pos) as nat)) {
                None => no_shot_step(b.just_released),
                Some(st) => if b.just_released {
                    AimStep {
                        aiming: None,
                        ended: Some(AimingEndedEvent { shoot: true }),
                        impulse: Some(Impulse { direction: dir, strength: st as u64, torque: SHOT_TORQUE }),
                    }
                } else {
                    AimStep {
                        aiming: Some(AimingEvent { player_pos: p.pos, direction: dir, strength: st as u64 }),
                        ended: None,
                        impulse: None,
                    }
                },
            }
        },
    }
}

proof fn lemma_floor_sqrt_is(n: nat, r: nat)
    requires
        r * r <= n < (r + 1) * (r + 1),
    ensures
        floor_sqrt(n) == r,
{
    assert(is_floor_sqrt(n, r));
    let c = floor_sqrt(n);
    assert(c * c <= n && n < (c + 1) * (c + 1));
    if c < r {
        assert((c + 1) * (c + 1) <= r * r) by (nonlinear_arith)
            requires
                c + 1 <= r,
        ;
    } else if c > r {
        assert((r + 1) * (r + 1) <= c * c) by (nonlinear_arith)
            requires
                r + 1 <= c,
        ;
    }
}

/// The whole part of the square root of `n`.
pub fn isqrt(n: u128) -> (r: u64)
    requires
        n < 0x4_0000_0000_0000_0000u128,
    ensures
        r as nat == floor_sqrt(n as nat),
{
    let mut lo: u128 = 0;
    let mut hi: u128 = 0x2_0000_0000;
    assert(hi * hi == 0x4_0000_0000_0000_0000u128);
    while hi - lo > 1
        invariant
            lo < hi <= 0x2_0000_0000,
            lo * lo <= n,
            n < hi * hi,
        decreases hi - lo,
    {
        let mid: u128 = lo + (hi - lo) / 2;
        assert(mid * mid <= 0x4_0000_0000_0000_0000u128) by (nonlinear_arith)
            requires
                mid <= 0x2_0000_0000u128,
        ;
        if mid * mid <= n {
            lo = mid;
        } else {
            hi = mid;
        }
    }
    proof {
        lemma_floor_sqrt_is(n as nat, lo as nat);
    }
    lo as u64
}

/// What the force map states: no strength below the minimum pull; the full
/// strength from the full pull on; a strength that never falls as the pull
/// grows; and the minimum strength at the minimum pull, where the minimum
/// pull is short enough to count as no pull at all on the linear scale.
pub proof fn lemma_force_map_shape(s: GameplaySettings, d1: nat, d2: nat)
    requires
        s.wf(),
    ensures
        d1 < s.min_distance ==> force_map(s, d1) is None,
        d1 >= s.min_distance && d1 >= s.max_distance ==> force_map(s, d1) == Some(
            s.max_strength as nat,
        ),
        s.min_distance <= d1 <= d2 ==> force_map(s, d1)->Some_0 <= force_map(s, d2)->Some_0,
        s.min_distance * (s.max_strength - s.min_strength) < s.max_distance ==> force_map(
            s,
            s.min_distance as nat,
        ) == Some(s.min_strength as nat),
{
    let span: nat = (s.max_strength - s.min_strength) as nat;
    let full: nat = s.max_distance as nat;
    assert((full * span) / full == span) by (nonlinear_arith)
        requires
            full > 0,
    ;
    if s.min_distance <= d1 <= d2 {
        let p1: nat = if d1 < full { d1 } else { full };
        let p2: nat = if d2 < full { d2 } else { full };
        assert(p1 * span / full <= p2 * span / full) by (nonlinear_arith)
            requires
                p1 <= p2,
                full > 0,
        ;
    }
    if s.min_distance * span < full {
        let m: nat = s.min_distance as nat;
        let p: nat = if m < full { m } else { full };
        assert(p * span / full == 0) by (nonlinear_arith)
            requires
                p <= m,
                m * span < full,
                full > 0,
        ;
    }
}

impl GameplaySettings {
    /// Settings that can be used: a positive full-pull distance, and a
    /// strength that does not fall as the pull grows.
    pub open spec fn wf(self) -> bool {
        self.max_distance > 0 && self.min_strength <= self.max_strength
    }

    pub fn new(min_distance: u32, min_strength: u32, max_distance: u32, max_strength: u32) -> (r:
        GameplaySettings)
        ensures
            r == (GameplaySettings { min_distance, min_strength, max_distance, max_strength }),
    {
        GameplaySettings { min_distance, min_strength, max_distance, max_strength }
    }

    /// Launch strength for a pull of `distance` world units.
    pub fn get_shoot_strength(&self, distance: u64) -> (r: Option<u64>)
        requires
            self.wf(),
        ensures
            r matches Some(v) ==> force_map(*self, distance as nat) == Some(v as nat),
            r is None ==> force_map(*self, distance as nat) is None,
    {
        if distance < self.min_distance as u64 {
            return None;
        }
        let pull: u64 = if distance < self.max_distance as u64 {
            distance
        } else {
            self.max_distance as u64
        };
        let span: u64 = (self.max_strength - self.min_strength) as u64;
        assert(pull * span <= 0xffff_ffffu64 * 0xffff_ffffu64) by (nonlinear_arith)
            requires
                pull <= 0xffff_ffffu64,
                span <= 0xffff_ffffu64,
        ;
        let full: u64 = self.max_distance as u64;
        let scaled: u64 = pull * span / full;
        assert(scaled <= span) by (nonlinear_arith)
            requires
                scaled == (pull * span) as int / full as int,
                pull <= full,
                full > 0,
        ;
        Some(scaled + self.min_strength as u64)
    }
}

/// One tick of the aim-and-shoot controller. `player` is the coin, where
/// there is one. A fired shot counts a move in `progress`.
pub fn player_input(
    settings: &GameplaySettings,
    buttons: PointerButtons,
    pointer: Point,
    player: Option<PlayerBody>,
    progress: &mut GameplayProgress,
) -> (r: AimStep)
    requires
        settings.wf(),
        old(progress).moves < u64::MAX,
    ensures
        r == aim_step(*settings, buttons, pointer, player),
        *final(progress) == (if r.impulse is Some {
            GameplayProgress { moves: (old(progress).moves + 1) as u64, ..*old(progress) }
        } else {
            *old(progress)
        }),
{
    let p = match player {
        None => {
            return AimStep { aiming: None, ended: None, impulse: None };
        },
        Some(p) => p,
    };
    let released = buttons.just_released;
    if !(buttons.pressed || released) {
        return AimStep { aiming: None, ended: None, impulse: None };
    }
    let no_shot = if released {
        AimStep { aiming: None, ended: Some(AimingEndedEvent { shoot: false }), impulse: None }
    } else {
        AimStep { aiming: None, ended: None, impulse: None }
    };
    if speed_squared(p.vel) > (STILL_SPEED * STILL_SPEED) as u64 {
        return no_shot;
    }
    let d2 = pointer.distance_squared(&p.pos);
    let distance = isqrt(d2);
    let dir = Offset { dx: pointer.x as i64 - p.pos.x as i64, dy: pointer.y as i64 - p.pos.y as i64 };
    match settings.get_shoot_strength(distance) {
        None => no_shot,
        Some(strength) => {
            if released {
                progress.moves = progress.moves + 1;
                AimStep {
                    aiming: None,
                    ended: Some(AimingEndedEvent { shoot: true }),
                    impulse: Some(Impulse { direction: dir, strength, torque: SHOT_TORQUE }),
                }
            } else {
                AimStep {
                    aiming: Some(AimingEvent { player_pos: p.pos, direction: dir, strength }),
                    ended: None,
                    impulse: None,
                }
            }
        },
    }
}

impl Default for GameplaySettings {
    fn default() -> (r: GameplaySettings)
        ensures
            r == (GameplaySettings {
                min_distance: 25,
                min_strength: 1,
                max_distance: 150,
                max_strength: 200,
            }),
    {
        GameplaySettings { min_distance: 25, min_strength: 1, max_distance: 150, max_strength: 200 }
    }
}

} // verus!
