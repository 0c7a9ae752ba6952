use audio_io::pipeline::{
    append_reference_history, build_reference_frame, reference_capacity, samples_from_ms,
};
use std::collections::VecDeque;

#[test]
fn samples_from_ms_values() {
    assert_eq!(samples_from_ms(10, 48_000), 480);
    assert_eq!(samples_from_ms(120, 16_000), 1920);
    assert_eq!(samples_from_ms(1, 44_100), 44);
    assert_eq!(samples_from_ms(0, 48_000), 0);
    assert_eq!(samples_from_ms(u32::MAX, u32::MAX) as u64, (u32::MAX as u64 * u32::MAX as u64) / 1000);
}

#[test]
fn reference_capacity_values() {
    // one second dominates
    assert_eq!(reference_capacity(48_000, 120, 0, 480), 48_000);
    // delay + tail + two frames dominate
    assert_eq!(reference_capacity(1_000, 900, 200, 100), 900 + 200 + 200);
    assert_eq!(reference_capacity(10, 0, 0, usize::MAX), usize::MAX);
}

#[test]
fn history_keeps_newest_samples() {
    let mut h: VecDeque<i32> = VecDeque::new();
    let frame: Vec<i32> = (0..700).collect();
    append_reference_history(&mut h, &frame, 1_000, 0, 0);
    assert_eq!(h.len(), 700);
    let frame2: Vec<i32> = (700..1_400).collect();
    append_reference_history(&mut h, &frame2, 1_000, 0, 0);
    assert_eq!(h.len(), 1_400);
    let frame3: Vec<i32> = (1_400..1_500).collect();
    // capacity: max(1000, 0 + 0 + 200) = 1000
    append_reference_history(&mut h, &frame3, 1_000, 0, 0);
    assert_eq!(h.len(), 1_000);
    assert_eq!(h.front(), Some(&500));
    assert_eq!(h.back(), Some(&1_499));
}

#[test]
fn reference_frame_window() {
    let h: VecDeque<i32> = (0..10).collect();
    assert_eq!(build_reference_frame(&h, 3, 0), Some(vec![7, 8, 9]));
    assert_eq!(build_reference_frame(&h, 3, 2), Some(vec![5, 6, 7]));
    assert_eq!(build_reference_frame(&h, 10, 0), Some((0..10).collect()));
    assert_eq!(build_reference_frame(&h, 9, 2), None);
    assert_eq!(build_reference_frame(&h, usize::MAX, 1), None);
    let single: VecDeque<f32> = VecDeque::from(vec![0.4f32]);
    assert_eq!(build_reference_frame(&single, 1, 0), Some(vec![0.4]));
}
