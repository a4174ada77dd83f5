use coin_puzzle::codec::{decode_level, encode_level};
use coin_puzzle::level::{LevelMarker, Point};

fn sample_level() -> Vec<LevelMarker> {
    vec![
        LevelMarker::spawn_point(Point::new(0, 260)),
        LevelMarker::end_point(Point::new(45, -190), 80),
        LevelMarker::obstacle(Point::new(0, -24), 45),
        LevelMarker::obstacle(Point::new(100, -24), 45),
    ]
}

#[test]
fn record_text_is_readable() {
    let text = String::from_utf8(encode_level(&sample_level())).unwrap();
    assert_eq!(
        text,
        "spawn x=0 y=260\ngoal x=45 y=-190 radius=80\nobstacle x=0 y=-24 radius=45\nobstacle x=100 y=-24 radius=45\n"
    );
}

#[test]
fn saved_level_loads_back() {
    let level = sample_level();
    let bytes = encode_level(&level);
    assert_eq!(decode_level(&bytes), Some(level));
}

#[test]
fn loaded_level_is_the_same_set_in_any_order() {
    let mut level = sample_level();
    level.reverse();
    let back = decode_level(&encode_level(&level)).unwrap();
    for m in sample_level() {
        assert!(back.contains(&m));
    }
    assert_eq!(back.len(), 4);
}

#[test]
fn empty_level_round_trips() {
    let bytes = encode_level(&Vec::new());
    assert!(bytes.is_empty());
    assert_eq!(decode_level(&bytes), Some(Vec::new()));
}

#[test]
fn extreme_values_round_trip() {
    let level = vec![
        LevelMarker::obstacle(Point::new(i32::MIN, i32::MAX), u32::MAX),
        LevelMarker::end_point(Point::new(-1, 0), 0),
    ];
    assert_eq!(decode_level(&encode_level(&level)), Some(level));
}

#[test]
fn malformed_records_are_refused() {
    for text in [
        "spawn x=0 y=260",
        "spawn x=0 y=260 radius=3\n",
        "goal x=45 y=-190\n",
        "goal x=045 y=-190 radius=80\n",
        "goal x=-0 y=-190 radius=80\n",
        "goal x=4 y=-190 radius=-80\n",
        "obstacle x=2147483648 y=0 radius=1\n",
        "obstacle x=1 y=0 radius=4294967296\n",
        "obstacle x=1 y=0 radius=99999999999999999999\n",
        "candle x=1 y=0 radius=1\n",
        "spawn x= y=1\n",
        "spawn  x=1 y=1\n",
        "spawn x=1 y=1\nrest",
    ] {
        assert_eq!(decode_level(&text.as_bytes().to_vec()), None, "{text}");
    }
}

#[test]
fn hand_written_record_loads() {
    let text = "obstacle x=-2147483648 y=7 radius=0\nspawn x=1 y=-1\n";
    assert_eq!(
        decode_level(&text.as_bytes().to_vec()),
        Some(vec![
            LevelMarker::obstacle(Point::new(i32::MIN, 7), 0),
            LevelMarker::spawn_point(Point::new(1, -1)),
        ])
    );
}
