use term_raster::mesh::{cube_triangles, CUBE_CORNERS};
use term_raster::pacing::{frame_interval_micros, poll_due, rest_micros, POLL_INTERVAL};
use term_raster::shade::{intensity_of_level, MAX_INTENSITY};

#[test]
fn poll_is_due_every_sixth_frame() {
    assert_eq!(POLL_INTERVAL, 6);
    let due: Vec<u64> = (0..20).filter(|t| poll_due(*t)).collect();
    assert_eq!(due, vec![0, 6, 12, 18]);
    assert!(!poll_due(u64::MAX));
    assert!(poll_due(u64::MAX - 3));
}

#[test]
fn frame_interval_of_a_rate() {
    assert_eq!(frame_interval_micros(30), Some(33333));
    assert_eq!(frame_interval_micros(60), Some(16666));
    assert_eq!(frame_interval_micros(1), Some(1000000));
    assert_eq!(frame_interval_micros(2000000), Some(0));
    assert_eq!(frame_interval_micros(0), None);
}

#[test]
fn rest_is_what_the_frame_left() {
    assert_eq!(rest_micros(33333, 10000), 23333);
    assert_eq!(rest_micros(33333, 0), 33333);
    assert_eq!(rest_micros(33333, 33332), 1);
}

#[test]
fn rest_is_never_negative() {
    assert_eq!(rest_micros(33333, 33333), 0);
    assert_eq!(rest_micros(33333, 40000), 0);
    assert_eq!(rest_micros(0, u64::MAX), 0);
}

#[test]
fn level_becomes_a_byte() {
    assert_eq!(MAX_INTENSITY, 255);
    assert_eq!(intensity_of_level(0), 0);
    assert_eq!(intensity_of_level(155), 155);
    assert_eq!(intensity_of_level(255), 255);
}

#[test]
fn level_above_a_byte_is_held_at_the_top() {
    assert_eq!(intensity_of_level(256), 255);
    assert_eq!(intensity_of_level(100000), 255);
    assert_eq!(intensity_of_level(usize::MAX), 255);
}

#[test]
fn cube_has_twelve_triangles_on_eight_corners() {
    let triangles = cube_triangles();
    assert_eq!(CUBE_CORNERS, 8);
    assert_eq!(triangles.len(), 12);
    assert_eq!(triangles[0], (0, 2, 1));
    assert_eq!(triangles[11], (3, 7, 6));
    let mut uses = [0usize; 8];
    for (a, b, c) in triangles {
        assert!(a < 8 && b < 8 && c < 8);
        assert!(a != b && b != c && c != a);
        uses[a] += 1;
        uses[b] += 1;
        uses[c] += 1;
    }
    assert_eq!(uses.iter().sum::<usize>(), 36);
    assert!(uses.iter().all(|n| *n >= 3));
}
