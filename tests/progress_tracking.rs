use coin_puzzle::level::{LevelMarker, Point};
use coin_puzzle::progress::{CollisionEvent, GameplayProgress, Velocity, WinDetector};
use coin_puzzle::scene::Scene;

/// A scene with the coin at 0, a goal at 1 and an obstacle at 2, equipped.
fn play_scene() -> Scene {
    let markers = vec![
        LevelMarker::spawn_point(Point::new(0, 260)),
        LevelMarker::end_point(Point::new(45, -190), 80),
        LevelMarker::obstacle(Point::new(0, -24), 45),
    ];
    let mut scene = Scene::from_markers(&markers);
    scene.add_elements();
    scene
}

#[test]
fn start_against_goal_sets_inside_and_keeps_touches() {
    let scene = play_scene();
    let mut p = GameplayProgress::new();
    let changed = p.display_events(&vec![CollisionEvent::Started(0, 1)], &scene);
    assert!(changed);
    assert!(p.is_inside_end_place);
    assert_eq!(p.touches, 0);
}

#[test]
fn start_against_obstacle_counts_one_touch() {
    let scene = play_scene();
    let mut p = GameplayProgress::new();
    p.on_collision(CollisionEvent::Started(0, 2), &scene);
    assert_eq!(p.touches, 1);
    assert!(!p.is_inside_end_place);
    p.on_collision(CollisionEvent::Started(2, 0), &scene);
    assert_eq!(p.touches, 2);
}

#[test]
fn start_against_obstacle_leaves_inside_flag() {
    let scene = play_scene();
    let mut p = GameplayProgress::new();
    p.on_collision(CollisionEvent::Started(1, 0), &scene);
    p.on_collision(CollisionEvent::Started(0, 2), &scene);
    assert!(p.is_inside_end_place);
    assert_eq!(p.touches, 1);
}

#[test]
fn stop_against_goal_clears_inside() {
    let scene = play_scene();
    let mut p = GameplayProgress::new();
    p.on_collision(CollisionEvent::Started(0, 2), &scene);
    p.on_collision(CollisionEvent::Started(0, 1), &scene);
    p.on_collision(CollisionEvent::Stopped(0, 1), &scene);
    assert!(!p.is_inside_end_place);
    assert_eq!(p.touches, 1);
    p.on_collision(CollisionEvent::Stopped(0, 2), &scene);
    assert_eq!(p.touches, 1);
}

#[test]
fn no_events_no_refresh() {
    let scene = play_scene();
    let mut p = GameplayProgress::new();
    assert!(!p.display_events(&Vec::new(), &scene));
    assert_eq!(p, GameplayProgress::new());
}

#[test]
fn unknown_entities_count_as_solid() {
    let scene = play_scene();
    let mut p = GameplayProgress::new();
    p.on_collision(CollisionEvent::Started(7, 9), &scene);
    assert_eq!(p.touches, 1);
}

#[test]
fn reset_clears_progress() {
    let mut p = GameplayProgress { touches: 4, moves: 3, is_inside_end_place: true };
    p.reset();
    assert_eq!(p, GameplayProgress { touches: 0, moves: 0, is_inside_end_place: false });
}

#[test]
fn win_is_reported_once_while_resting_in_goal() {
    let scene = play_scene();
    let mut p = GameplayProgress::new();
    let mut d = WinDetector::new();
    let first = d.velocity_changed(&p, Velocity { x: 5000, y: 0 });
    assert!(!first.win);
    assert!(!first.progress_changed);
    p.display_events(&vec![CollisionEvent::Started(0, 1)], &scene);
    let moving = d.velocity_changed(&p, Velocity { x: 900, y: 0 });
    assert!(!moving.win);
    let mut wins = 0;
    for tick in 0..10 {
        let out = d.velocity_changed(&p, Velocity { x: 0, y: 50 });
        assert!(out.progress_changed);
        if out.win {
            wins += 1;
            assert_eq!(tick, 0);
        }
    }
    assert_eq!(wins, 1);
}

#[test]
fn rest_outside_goal_is_no_win() {
    let p = GameplayProgress::new();
    let mut d = WinDetector::new();
    let out = d.velocity_changed(&p, Velocity { x: 0, y: 0 });
    assert!(out.progress_changed);
    assert!(!out.win);
}

#[test]
fn win_again_after_moving_again() {
    let p = GameplayProgress { touches: 0, moves: 2, is_inside_end_place: true };
    let mut d = WinDetector::new();
    assert!(d.velocity_changed(&p, Velocity { x: 10, y: 10 }).win);
    assert!(!d.velocity_changed(&p, Velocity { x: 0, y: 0 }).win);
    assert!(!d.velocity_changed(&p, Velocity { x: 300, y: 0 }).win);
    assert!(d.velocity_changed(&p, Velocity { x: 0, y: 99 }).win);
}

#[test]
fn threshold_speed_is_not_rest() {
    let p = GameplayProgress { touches: 0, moves: 1, is_inside_end_place: true };
    let mut d = WinDetector::new();
    let out = d.velocity_changed(&p, Velocity { x: 0, y: 100 });
    assert!(!out.win);
    assert!(!out.progress_changed);
}
