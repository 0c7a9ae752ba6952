use audio_io::converter::{convert_to_mono, fill_silence_from, write_samples, write_samples_from};

#[test]
fn write_samples_copies_to_every_channel() {
    let mut out = [0i16; 7];
    let consumed = write_samples(&mut out, &[1i16, 2, 3, 4], 2, &|s: i16| s * 10);
    assert_eq!(consumed, 3);
    assert_eq!(out, [10, 10, 20, 20, 30, 30, 0]);
}

#[test]
fn write_samples_short_source() {
    let mut out = [9u16; 6];
    let consumed = write_samples(&mut out, &[1u16], 3, &|s: u16| s + 1);
    assert_eq!(consumed, 1);
    assert_eq!(out, [2, 2, 2, 9, 9, 9]);
}

#[test]
fn write_samples_from_offset() {
    let mut out = [0u8; 6];
    let consumed = write_samples_from(&mut out, 2, &[5u8, 6, 7], 2, &|s: u8| s);
    assert_eq!(consumed, 2);
    assert_eq!(out, [0, 0, 5, 5, 6, 6]);
}

#[test]
fn fill_silence_from_start() {
    let mut out = [1i16, 2, 3, 4];
    fill_silence_from(&mut out, 1, 0);
    assert_eq!(out, [1, 0, 0, 0]);
}

#[test]
fn mono_averages_frames() {
    let data = [1.0f32, 3.0, 2.0, 4.0, 9.0];
    let mono = convert_to_mono(&data, 2, |f: &[f32]| f.iter().sum::<f32>() / f.len() as f32);
    assert_eq!(mono, vec![2.0, 3.0]);
    let same = convert_to_mono(&[1i16, -2], 1, |f: &[i16]| f[0] as i32);
    assert_eq!(same, vec![1, -2]);
}
