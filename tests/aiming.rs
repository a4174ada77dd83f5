use coin_puzzle::aim::{isqrt, player_input, GameplaySettings, Offset, PlayerBody, PointerButtons};
use coin_puzzle::level::Point;
use coin_puzzle::progress::{GameplayProgress, Velocity};

fn settings() -> GameplaySettings {
    GameplaySettings::new(25, 1, 150, 200)
}

fn still_player(x: i32, y: i32) -> Option<PlayerBody> {
    Some(PlayerBody { pos: Point::new(x, y), vel: Velocity { x: 0, y: 0 } })
}

const HELD: PointerButtons = PointerButtons { pressed: true, just_released: false };
const RELEASED: PointerButtons = PointerButtons { pressed: false, just_released: true };

#[test]
fn force_map_below_minimum_is_undefined() {
    assert_eq!(settings().get_shoot_strength(10), None);
    assert_eq!(settings().get_shoot_strength(24), None);
}

#[test]
fn force_map_at_minimum_distance_follows_linear_scale() {
    // 25 / 150 * 199 + 1, rounded down
    assert_eq!(settings().get_shoot_strength(25), Some(34));
}

#[test]
fn force_map_clamps_at_maximum() {
    assert_eq!(settings().get_shoot_strength(150), Some(200));
    assert_eq!(settings().get_shoot_strength(300), Some(200));
    assert_eq!(settings().get_shoot_strength(u64::MAX), Some(200));
}

#[test]
fn force_map_midway() {
    // 75 / 150 * 199 + 1 = 100.5, rounded down
    assert_eq!(settings().get_shoot_strength(75), Some(100));
}

#[test]
fn force_map_from_zero_pull_gives_minimum_strength() {
    let s = GameplaySettings::new(0, 1, 150, 200);
    assert_eq!(s.get_shoot_strength(0), Some(1));
}

#[test]
fn force_map_never_falls() {
    let s = settings();
    let mut last = 0;
    for d in 25..400u64 {
        let v = s.get_shoot_strength(d).unwrap();
        assert!(v >= last);
        last = v;
    }
}

#[test]
fn default_settings() {
    assert_eq!(GameplaySettings::default(), settings());
}

#[test]
fn integer_square_root() {
    assert_eq!(isqrt(0), 0);
    assert_eq!(isqrt(1), 1);
    assert_eq!(isqrt(24), 4);
    assert_eq!(isqrt(25), 5);
    assert_eq!(isqrt(26), 5);
    assert_eq!(isqrt(2 * 0xffff_ffffu128 * 0xffff_ffffu128), 6_074_000_998);
}

#[test]
fn no_player_does_nothing() {
    let mut p = GameplayProgress::new();
    let r = player_input(&settings(), RELEASED, Point::new(100, 0), None, &mut p);
    assert_eq!(r.aiming, None);
    assert_eq!(r.ended, None);
    assert_eq!(r.impulse, None);
    assert_eq!(p, GameplayProgress::new());
}

#[test]
fn no_button_does_nothing() {
    let mut p = GameplayProgress::new();
    let idle = PointerButtons { pressed: false, just_released: false };
    let r = player_input(&settings(), idle, Point::new(100, 0), still_player(0, 0), &mut p);
    assert_eq!((r.aiming, r.ended, r.impulse), (None, None, None));
}

#[test]
fn holding_the_button_aims() {
    let mut p = GameplayProgress::new();
    let r = player_input(&settings(), HELD, Point::new(0, 75), still_player(0, 0), &mut p);
    let a = r.aiming.unwrap();
    assert_eq!(a.player_pos, Point::new(0, 0));
    assert_eq!(a.direction, Offset { dx: 0, dy: 75 });
    assert_eq!(a.strength, 100);
    assert_eq!(r.ended, None);
    assert_eq!(r.impulse, None);
    assert_eq!(p.moves, 0);
}

#[test]
fn releasing_the_button_shoots() {
    let mut p = GameplayProgress::new();
    let r = player_input(&settings(), RELEASED, Point::new(30, 40), still_player(0, 0), &mut p);
    let i = r.impulse.unwrap();
    assert_eq!(i.direction, Offset { dx: 30, dy: 40 });
    // a pull of 50: 50 / 150 * 199 + 1, rounded down
    assert_eq!(i.strength, 67);
    assert_eq!(i.torque, 300);
    assert_eq!(r.ended.unwrap().shoot, true);
    assert_eq!(r.aiming, None);
    assert_eq!(p.moves, 1);
    assert_eq!(p.touches, 0);
}

#[test]
fn short_pull_release_ends_without_shot() {
    let mut p = GameplayProgress::new();
    let r = player_input(&settings(), RELEASED, Point::new(3, 4), still_player(0, 0), &mut p);
    assert_eq!(r.ended.unwrap().shoot, false);
    assert_eq!(r.impulse, None);
    assert_eq!(p.moves, 0);
    let held = player_input(&settings(), HELD, Point::new(3, 4), still_player(0, 0), &mut p);
    assert_eq!((held.aiming, held.ended, held.impulse), (None, None, None));
}

#[test]
fn moving_coin_cannot_be_shot() {
    let mut p = GameplayProgress::new();
    let moving = Some(PlayerBody { pos: Point::new(0, 0), vel: Velocity { x: 101, y: 0 } });
    let r = player_input(&settings(), RELEASED, Point::new(100, 0), moving, &mut p);
    assert_eq!(r.ended.unwrap().shoot, false);
    assert_eq!(r.impulse, None);
    assert_eq!(p.moves, 0);
    let held = player_input(&settings(), HELD, Point::new(100, 0), moving, &mut p);
    assert_eq!(held.aiming, None);
}

#[test]
fn coin_at_threshold_speed_can_still_be_shot() {
    let mut p = GameplayProgress::new();
    let slow = Some(PlayerBody { pos: Point::new(0, 0), vel: Velocity { x: 60, y: 80 } });
    let r = player_input(&settings(), RELEASED, Point::new(100, 0), slow, &mut p);
    assert!(r.impulse.is_some());
    assert_eq!(p.moves, 1);
}
