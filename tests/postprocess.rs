use vit_tracker::postprocess::{
    find_max, locate_peak, map_index, order_key, process_outputs, score_bits, Peak, TrackingResult,
    NAN_KEY, NEG_INF_KEY, SCORE_CELLS, ZERO_KEY,
};

fn key(v: f32) -> u32 {
    order_key(v.to_bits())
}

fn score(k: u32) -> f32 {
    f32::from_bits(score_bits(k))
}

#[test]
fn test_find_max() {
    let arr = vec![0.1f32, 0.5, 0.3, 0.9, 0.2];
    let keys: Vec<u32> = arr.iter().map(|&v| key(v)).collect();
    let (idx, val) = find_max(&keys);
    assert_eq!(idx, 3);
    assert!((score(val) - 0.9).abs() < 1e-6);
}

#[test]
fn find_max_first_of_equal_wins() {
    let keys: Vec<u32> = [0.2f32, 0.7, 0.1, 0.7].iter().map(|&v| key(v)).collect();
    assert_eq!(find_max(&keys), (1, key(0.7)));
}

#[test]
fn find_max_of_nothing() {
    assert_eq!(find_max(&[]), (0, NEG_INF_KEY));
    let keys = vec![key(f32::NEG_INFINITY), key(f32::NAN), key(f32::NEG_INFINITY)];
    assert_eq!(find_max(&keys), (0, NEG_INF_KEY));
    assert_eq!(score(NEG_INF_KEY), f32::NEG_INFINITY);
}

#[test]
fn find_max_skips_nan() {
    let keys = vec![key(-3.0), key(f32::NAN), key(-1.0), key(-2.0)];
    assert_eq!(find_max(&keys), (2, key(-1.0)));
}

#[test]
fn order_keys_follow_float_order() {
    let values = [f32::NEG_INFINITY, -1e30, -2.5, -1e-40, 0.0, 1e-40, 0.25, 0.9, 3.0e38, f32::INFINITY];
    for pair in values.windows(2) {
        assert!(key(pair[0]) < key(pair[1]), "{} {}", pair[0], pair[1]);
    }
    assert_eq!(key(-0.0), ZERO_KEY);
    assert_eq!(key(0.0), ZERO_KEY);
    assert_eq!(key(f32::NAN), NAN_KEY);
    assert_eq!(key(0.25), 0xbe00_0001);
    assert_eq!(key(-1.0), ZERO_KEY - 0x3f80_0000);
}

#[test]
fn score_bits_round_trip() {
    for v in [0.0f32, 0.25, -7.5, 1e-40, f32::INFINITY, f32::NEG_INFINITY, 123.456] {
        assert_eq!(score(key(v)), v);
    }
    assert!(score(NAN_KEY).is_nan());
    assert_eq!(score_bits(ZERO_KEY), 0);
}

#[test]
fn peak_row_and_column() {
    let mut keys = vec![key(0.0); SCORE_CELLS];
    keys[8 * 16 + 5] = key(0.6);
    let peak = locate_peak(&keys);
    assert_eq!((peak.index, peak.row, peak.col), (133, 8, 5));
    assert_eq!(peak.score_key, key(0.6));
}

#[test]
fn map_positions() {
    assert_eq!(map_index(0, 0, 0), 0);
    assert_eq!(map_index(0, 8, 8), 136);
    assert_eq!(map_index(1, 8, 8), 392);
    assert_eq!(map_index(1, 15, 15), 511);
}

fn peak_with(score: f32) -> Peak {
    Peak { index: 136, row: 8, col: 8, score_key: key(score) }
}

#[test]
fn score_at_threshold_succeeds() {
    let r = process_outputs(&peak_with(0.25), key(0.25), [1, 2, 3, 4], [5, 6, 7, 8]);
    assert!(r.success);
    assert_eq!(r.bbox, [1, 2, 3, 4]);
    assert_eq!(score(r.score_key), 0.25);
}

#[test]
fn low_score_keeps_previous_box() {
    let r = process_outputs(&peak_with(0.2499), key(0.25), [1, 2, 3, 4], [5, 6, 7, 8]);
    assert!(!r.success);
    assert_eq!(r.bbox, [5, 6, 7, 8]);
    assert_eq!(score(r.score_key), 0.2499);
}

#[test]
fn default_result_is_idle() {
    let r = TrackingResult::default();
    assert!(!r.success);
    assert_eq!(r.bbox, [0, 0, 0, 0]);
    assert_eq!(score(r.score_key), 0.0);
}
