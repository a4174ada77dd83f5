use coin_puzzle::editor::{
    apply_action, collect_markers, get_closest_object_with_type, ActionToDo, EditorState, ObjectFilter,
};
use coin_puzzle::level::{LevelMarker, MarkerKind, Point};
use coin_puzzle::scene::{RuntimeParts, Scene, SceneEntity};

fn scene_of(markers: Vec<LevelMarker>) -> Scene {
    Scene::from_markers(&markers)
}

fn three_obstacles() -> Scene {
    scene_of(vec![
        LevelMarker::obstacle(Point::new(0, 0), 45),
        LevelMarker::obstacle(Point::new(10, 0), 45),
        LevelMarker::obstacle(Point::new(-5, 0), 45),
    ])
}

#[test]
fn nearest_object_is_found() {
    let scene = three_obstacles();
    assert_eq!(get_closest_object_with_type(&scene, ObjectFilter::AnyObject, Point::new(1, 0)), Some(0));
    assert_eq!(get_closest_object_with_type(&scene, ObjectFilter::Obstacles, Point::new(9, 3)), Some(1));
    assert_eq!(get_closest_object_with_type(&scene, ObjectFilter::AnyObject, Point::new(-4, 0)), Some(2));
}

#[test]
fn nearest_object_in_empty_scene_is_none() {
    let scene = Scene::new();
    assert_eq!(get_closest_object_with_type(&scene, ObjectFilter::AnyObject, Point::new(1, 0)), None);
}

#[test]
fn nearest_object_of_missing_kind_is_none() {
    let scene = three_obstacles();
    assert_eq!(get_closest_object_with_type(&scene, ObjectFilter::SpawnPoints, Point::new(1, 0)), None);
    assert_eq!(get_closest_object_with_type(&scene, ObjectFilter::EndPoints, Point::new(1, 0)), None);
}

#[test]
fn nearest_object_tie_goes_to_first() {
    let scene = scene_of(vec![
        LevelMarker::obstacle(Point::new(-2, 0), 45),
        LevelMarker::obstacle(Point::new(2, 0), 45),
    ]);
    assert_eq!(get_closest_object_with_type(&scene, ObjectFilter::AnyObject, Point::new(0, 0)), Some(0));
}

#[test]
fn nearest_object_skips_removed_slots() {
    let mut scene = three_obstacles();
    apply_action(&mut scene, ActionToDo::RemoveObject, Point::new(1, 0));
    assert_eq!(scene.entities[0], None);
    assert_eq!(get_closest_object_with_type(&scene, ObjectFilter::AnyObject, Point::new(1, 0)), Some(2));
}

#[test]
fn far_coordinates_do_not_overflow() {
    let scene = scene_of(vec![
        LevelMarker::obstacle(Point::new(i32::MIN, i32::MIN), 1),
        LevelMarker::obstacle(Point::new(i32::MAX, i32::MAX), 1),
    ]);
    assert_eq!(
        get_closest_object_with_type(&scene, ObjectFilter::AnyObject, Point::new(i32::MAX, i32::MAX - 1)),
        Some(1)
    );
}

#[test]
fn set_spawn_point_adds_then_moves() {
    let mut scene = Scene::new();
    apply_action(&mut scene, ActionToDo::SetPlayerSpawnPoint, Point::new(3, 4));
    assert_eq!(scene.entities.len(), 1);
    apply_action(&mut scene, ActionToDo::SetPlayerSpawnPoint, Point::new(-7, 8));
    assert_eq!(scene.entities.len(), 1);
    assert_eq!(
        scene.entities[0],
        Some(SceneEntity { marker: LevelMarker::spawn_point(Point::new(-7, 8)), runtime: None })
    );
}

#[test]
fn set_end_point_adds_then_moves() {
    let mut scene = three_obstacles();
    apply_action(&mut scene, ActionToDo::SetEndPoint, Point::new(45, -190));
    assert_eq!(scene.entities.len(), 4);
    assert_eq!(scene.entities[3].unwrap().marker, LevelMarker::end_point(Point::new(45, -190), 80));
    apply_action(&mut scene, ActionToDo::SetEndPoint, Point::new(1, 1));
    assert_eq!(scene.entities.len(), 4);
    assert_eq!(scene.entities[3].unwrap().marker, LevelMarker::end_point(Point::new(1, 1), 80));
    assert_eq!(scene.entities[0].unwrap().marker.pos, Point::new(0, 0));
}

#[test]
fn add_obstacle_always_adds() {
    let mut scene = Scene::new();
    apply_action(&mut scene, ActionToDo::AddObstacleToMap, Point::new(0, -24));
    apply_action(&mut scene, ActionToDo::AddObstacleToMap, Point::new(0, -24));
    assert_eq!(scene.entities.len(), 2);
    assert_eq!(scene.entities[1].unwrap().marker, LevelMarker::obstacle(Point::new(0, -24), 45));
}

#[test]
fn move_object_moves_nearest_and_keeps_kind() {
    let mut scene = three_obstacles();
    let parts = RuntimeParts { collider_radius: 45, sensor: false, dynamic_body: false, player_controlled: false, sprite_size: 90 };
    scene.entities[1] = Some(SceneEntity { marker: LevelMarker::obstacle(Point::new(10, 0), 45), runtime: Some(parts) });
    apply_action(&mut scene, ActionToDo::MoveObject, Point::new(11, 1));
    assert_eq!(
        scene.entities[1],
        Some(SceneEntity { marker: LevelMarker::obstacle(Point::new(11, 1), 45), runtime: Some(parts) })
    );
    assert_eq!(scene.entities[0].unwrap().marker.pos, Point::new(0, 0));
}

#[test]
fn move_and_remove_in_empty_scene_do_nothing() {
    let mut scene = Scene::new();
    apply_action(&mut scene, ActionToDo::MoveObject, Point::new(1, 1));
    apply_action(&mut scene, ActionToDo::RemoveObject, Point::new(1, 1));
    assert!(scene.entities.is_empty());
}

#[test]
fn do_nothing_changes_nothing() {
    let mut scene = three_obstacles();
    apply_action(&mut scene, ActionToDo::DoNothing, Point::new(1, 1));
    assert_eq!(collect_markers(&scene), collect_markers(&three_obstacles()));
    assert_eq!(ActionToDo::default(), ActionToDo::DoNothing);
}

#[test]
fn release_over_panel_is_ignored() {
    let mut scene = Scene::new();
    let over = EditorState { action: ActionToDo::AddObstacleToMap, pointer_over_ui: true };
    over.pointer_released(&mut scene, Point::new(0, 0));
    assert!(scene.entities.is_empty());
    let on_canvas = EditorState { action: ActionToDo::AddObstacleToMap, pointer_over_ui: false };
    on_canvas.pointer_released(&mut scene, Point::new(0, 0));
    assert_eq!(scene.entities.len(), 1);
    assert_eq!(EditorState::new().action, ActionToDo::DoNothing);
}

#[test]
fn collected_markers_skip_removed() {
    let mut scene = three_obstacles();
    apply_action(&mut scene, ActionToDo::RemoveObject, Point::new(10, 0));
    assert_eq!(
        collect_markers(&scene),
        vec![LevelMarker::obstacle(Point::new(0, 0), 45), LevelMarker::obstacle(Point::new(-5, 0), 45)]
    );
}

#[test]
fn materializer_equips_each_marker_once() {
    let mut scene = scene_of(vec![
        LevelMarker::spawn_point(Point::new(0, 260)),
        LevelMarker::end_point(Point::new(45, -190), 80),
        LevelMarker::obstacle(Point::new(0, -24), 45),
    ]);
    assert_eq!(scene.add_elements(), 3);
    let once: Vec<Option<SceneEntity>> = scene.entities.clone();
    assert_eq!(scene.add_elements(), 0);
    assert_eq!(scene.entities, once);
    assert_eq!(
        once[0].unwrap().runtime,
        Some(RuntimeParts { collider_radius: 20, sensor: false, dynamic_body: true, player_controlled: true, sprite_size: 40 })
    );
    assert_eq!(
        once[1].unwrap().runtime,
        Some(RuntimeParts { collider_radius: 30, sensor: true, dynamic_body: false, player_controlled: false, sprite_size: 160 })
    );
    assert_eq!(
        once[2].unwrap().runtime,
        Some(RuntimeParts { collider_radius: 45, sensor: false, dynamic_body: false, player_controlled: false, sprite_size: 90 })
    );
    assert_eq!(scene.find_player(), Some(0));
    assert!(scene.is_sensor(1));
    assert!(!scene.is_sensor(2));
    assert!(!scene.is_sensor(5));
}

#[test]
fn materializer_only_equips_new_markers() {
    let mut scene = scene_of(vec![LevelMarker::obstacle(Point::new(0, -24), 45)]);
    assert_eq!(scene.add_elements(), 1);
    apply_action(&mut scene, ActionToDo::AddObstacleToMap, Point::new(100, -24));
    assert_eq!(scene.add_elements(), 1);
    assert_eq!(scene.add_elements(), 0);
}

#[test]
fn small_goal_gets_empty_sensor() {
    let mut scene = scene_of(vec![LevelMarker::end_point(Point::new(0, 0), 20)]);
    scene.add_elements();
    assert_eq!(scene.entities[0].unwrap().runtime.unwrap().collider_radius, 0);
    assert_eq!(scene.find_player(), None);
    assert_eq!(scene.position_of(0), Some(Point::new(0, 0)));
    assert_eq!(scene.position_of(1), None);
    let _ = MarkerKind::PlayerSpawnPoint;
}

#[test]
fn built_in_level_has_four_markers() {
    let mut scene = coin_puzzle::scene::setup_world();
    assert_eq!(
        collect_markers(&scene),
        vec![
            LevelMarker::obstacle(Point::new(0, -24), 45),
            LevelMarker::obstacle(Point::new(100, -24), 45),
            LevelMarker::end_point(Point::new(45, -190), 80),
            LevelMarker::spawn_point(Point::new(0, 260)),
        ]
    );
    assert_eq!(scene.add_elements(), 4);
    assert_eq!(scene.find_player(), Some(3));
}
