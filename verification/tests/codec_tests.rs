use audio_io::codec::{
    bitrate_value, check_frame_size, concat_frames, split_frames, to_opus_sample_rate,
    Application, AudioCodecBuilder, Bitrate, CodecError, OpusSampleRate,
};

#[test]
fn opus_rates() {
    assert_eq!(to_opus_sample_rate(8000), Ok(OpusSampleRate::Hz8000));
    assert_eq!(to_opus_sample_rate(12000), Ok(OpusSampleRate::Hz12000));
    assert_eq!(to_opus_sample_rate(16000), Ok(OpusSampleRate::Hz16000));
    assert_eq!(to_opus_sample_rate(24000), Ok(OpusSampleRate::Hz24000));
    assert_eq!(to_opus_sample_rate(48000), Ok(OpusSampleRate::Hz48000));
    assert_eq!(to_opus_sample_rate(44100), Err(CodecError::UnsupportedSampleRate(44100)));
}

#[test]
fn builder_defaults_and_config() {
    let c = AudioCodecBuilder::new().config().unwrap();
    assert_eq!(c.sample_rate, 48000);
    assert_eq!(c.frame_size, 480);
    assert_eq!(c.bitrate, 64000);
    assert_eq!(c.application, Application::LowDelay);
    let c = AudioCodecBuilder::default()
        .sample_rate(16000)
        .frame_size(320)
        .bitrate(32000)
        .application(Application::Voip)
        .config()
        .unwrap();
    assert_eq!(c.rate, OpusSampleRate::Hz16000);
    assert_eq!(c.frame_size, 320);
    assert_eq!(c.bitrate, 32000);
    assert_eq!(c.application, Application::Voip);
    assert!(matches!(
        AudioCodecBuilder::new().sample_rate(22050).config(),
        Err(CodecError::UnsupportedSampleRate(22050))
    ));
}

#[test]
fn frame_size_check() {
    assert_eq!(check_frame_size(960, 960), Ok(()));
    assert_eq!(
        check_frame_size(960, 959),
        Err(CodecError::FrameSizeMismatch { expected: 960, actual: 959 })
    );
}

#[test]
fn bitrate_values() {
    assert_eq!(bitrate_value(Bitrate::BitsPerSecond(64000)), 64000);
    assert_eq!(bitrate_value(Bitrate::Auto), 0);
    assert_eq!(bitrate_value(Bitrate::Max), i32::MAX);
}

#[test]
fn split_and_concat_frames() {
    let frames = split_frames(&[1.0f32, 2.0, 3.0, 4.0, 5.0], 2, 0.0);
    assert_eq!(frames, vec![vec![1.0, 2.0], vec![3.0, 4.0], vec![5.0, 0.0]]);
    assert_eq!(concat_frames(&frames), vec![1.0, 2.0, 3.0, 4.0, 5.0, 0.0]);
    assert!(split_frames::<f32>(&[], 4, 0.0).is_empty());
    assert_eq!(split_frames(&[1u8, 2, 3, 4], 4, 0), vec![vec![1, 2, 3, 4]]);
}
