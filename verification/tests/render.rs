use aphelion::render::{grow_capacity, needs_reconfigure, track_line_indices};

#[test]
fn staging_buffers_grow_to_the_next_power_of_two() {
    assert_eq!(grow_capacity(64, 65), 128);
    assert_eq!(grow_capacity(64, 64), 64);
    assert_eq!(grow_capacity(64, 3), 64);
    assert_eq!(grow_capacity(8192, 10_000), 16_384);
    assert_eq!(grow_capacity(0, 1), 1);
    assert_eq!(grow_capacity(0, 0), 0);
    assert_eq!(grow_capacity(100, 1000), 1024);
}

#[test]
fn a_closed_track_joins_its_last_point_to_the_first() {
    assert_eq!(track_line_indices(4, true), vec![0, 1, 1, 2, 2, 3, 3, 0]);
}

#[test]
fn an_open_track_stops_at_its_last_point() {
    assert_eq!(track_line_indices(4, false), vec![0, 1, 1, 2, 2, 3]);
    assert_eq!(track_line_indices(2, false), vec![0, 1]);
}

#[test]
fn a_track_needs_two_points() {
    assert!(track_line_indices(1, true).is_empty());
    assert!(track_line_indices(0, false).is_empty());
}

#[test]
fn resizing_ignores_empty_and_unchanged_sizes() {
    assert!(needs_reconfigure(800, 600, 1440, 900));
    assert!(needs_reconfigure(1440, 901, 1440, 900));
    assert!(!needs_reconfigure(1440, 900, 1440, 900));
    assert!(!needs_reconfigure(0, 900, 1440, 900));
    assert!(!needs_reconfigure(1440, 0, 1440, 900));
}
