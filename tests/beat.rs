use shortforge::beat::{beats_in_range, find_nearest_beat, snap_to_beat};

fn sample_beats() -> Vec<u64> {
    vec![500, 1000, 1500, 2000]
}

#[test]
fn test_find_nearest_beat() {
    let beats = sample_beats();
    assert_eq!(beats[find_nearest_beat(&beats, 600).unwrap()], 500);
    assert_eq!(beats[find_nearest_beat(&beats, 800).unwrap()], 1000);
    assert_eq!(beats[find_nearest_beat(&beats, 1500).unwrap()], 1500);
}

#[test]
fn test_find_nearest_beat_empty() {
    let beats: Vec<u64> = vec![];
    assert!(find_nearest_beat(&beats, 500).is_none());
}

#[test]
fn test_snap_to_beat_within_threshold() {
    let beats = sample_beats();
    assert_eq!(snap_to_beat(&beats, 520, 50), 500);
    assert_eq!(snap_to_beat(&beats, 960, 50), 1000);
}

#[test]
fn test_snap_to_beat_outside_threshold() {
    let beats = sample_beats();
    assert_eq!(snap_to_beat(&beats, 700, 50), 700);
}

#[test]
fn test_beats_in_range() {
    let beats = sample_beats();
    let in_range = beats_in_range(&beats, 800, 1600);
    assert_eq!(in_range.len(), 2);
    assert_eq!(beats[in_range[0]], 1000);
    assert_eq!(beats[in_range[1]], 1500);
}

#[test]
fn test_beats_in_range_empty() {
    let beats = sample_beats();
    let in_range = beats_in_range(&beats, 2500, 3000);
    assert!(in_range.is_empty());
}

#[test]
fn nearest_beat_tie_takes_the_first() {
    let beats = vec![900, 1100];
    assert_eq!(find_nearest_beat(&beats, 1000), Some(0));
    assert_eq!(snap_to_beat(&beats, 1000, 100), 900);
    assert_eq!(snap_to_beat(&beats, 1000, 99), 1000);
}
