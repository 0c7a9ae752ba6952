use audio_io::control::{device_choice, AudioCaptureSettings, AudioPlaybackSettings, DeviceControl};
use audio_io::resampler::{needs_resampling, resampled_or_input, ResampleOutcome};
use audio_io::session::{SessionCore, SessionError, StartAction, TrackRegistry};
use std::sync::atomic::Ordering;

#[test]
fn session_start_stop() {
    let mut s: SessionCore<&str> = SessionCore::new(false, true);
    assert!(!s.is_running());
    assert!(!s.stop());
    assert!(s.check_start().is_ok());
    let plan = s.commit_start();
    assert!(!plan.create_raw_channel);
    assert!(plan.create_processed_channel);
    assert!(s.is_running());
    assert!(matches!(s.check_start(), Err(SessionError::AlreadyRunning)));
    assert_eq!(s.create_track(|_| Ok::<&str, ()>("a")), Ok(1));
    assert!(s.has_track(1));
    assert!(s.stop());
    assert!(!s.is_running());
    assert!(!s.has_track(1));
}

#[test]
fn session_tracks() {
    let mut s: SessionCore<u32> = SessionCore::new(true, false);
    assert_eq!(s.create_track(|id| Ok::<u32, String>(id as u32 * 10)), Ok(1));
    assert_eq!(s.create_track(|id| Ok::<u32, String>(id as u32 * 10)), Ok(2));
    assert_eq!(s.create_track(|_| Err::<u32, String>("no".to_string())), Err("no".to_string()));
    assert_eq!(s.create_track(|id| Ok::<u32, String>(id as u32 * 10 + 1)), Ok(4));
    let mut ids = s.track_ids();
    ids.sort();
    assert_eq!(ids, vec![1, 2, 4]);
    assert!(matches!(s.track_source(1), Ok(&10)));
    assert!(matches!(s.track_source(4), Ok(&41)));
    assert!(matches!(s.track_source(3), Err(SessionError::TrackNotFound(3))));
    assert!(matches!(s.track_source(9_999), Err(SessionError::TrackNotFound(9_999))));
    assert!(!s.stop());
    assert!(s.has_track(2));
}

#[test]
fn registry_basics() {
    let mut r: TrackRegistry<char> = TrackRegistry::new();
    assert!(r.ids().is_empty());
    r.insert(5, 'x');
    assert_eq!(r.get(5), Some(&'x'));
    assert_eq!(r.get(6), None);
    assert!(r.contains(5));
    r.clear();
    assert!(!r.contains(5));
}

#[test]
fn device_control_lifecycle() {
    let mut c: DeviceControl<&str, u32> = DeviceControl::new("mic");
    assert!(!c.is_running());
    assert!(!c.stop());
    c.switch_device("usb", None);
    assert_eq!(*c.device(), "usb");
    assert!(!c.is_running());
    assert!(c.check_start().is_ok());
    c.set_running(1);
    assert!(c.check_start().is_err());
    c.switch_device("hdmi", Some(2));
    assert_eq!(*c.device(), "hdmi");
    assert_eq!(c.stream(), Some(&2));
    assert!(c.stop());
    assert_eq!(c.stream(), None);
}

#[test]
fn device_menu_choice() {
    assert_eq!(device_choice(1, 3), Some(0));
    assert_eq!(device_choice(3, 3), Some(2));
    assert_eq!(device_choice(0, 3), None);
    assert_eq!(device_choice(4, 3), None);
}

#[test]
fn settings_hold_values() {
    let s = AudioCaptureSettings::new(16_000, 320, 0.5f32.to_bits(), true);
    assert_eq!(s.target_sample_rate, 16_000);
    assert_eq!(s.frame_size, 320);
    assert_eq!(f32::from_bits(s.volume.load(Ordering::Relaxed)), 0.5);
    assert!(s.muted.load(Ordering::Relaxed));
    let p = AudioPlaybackSettings::new(48_000, 480, 1.0f32.to_bits(), false);
    assert_eq!(p.source_sample_rate, 48_000);
    assert_eq!(p.frame_size, 480);
    assert!(!p.muted.load(Ordering::Relaxed));
}

#[test]
fn resampling_choice() {
    assert!(!needs_resampling(48_000, 48_000));
    assert!(needs_resampling(16_000, 48_000));
    let data = [1i16, 2, 3];
    assert_eq!(resampled_or_input(&data, ResampleOutcome::NotConfigured), vec![1, 2, 3]);
    assert_eq!(resampled_or_input(&data, ResampleOutcome::Busy), vec![1, 2, 3]);
    assert_eq!(resampled_or_input(&data, ResampleOutcome::Failed), vec![1, 2, 3]);
    assert_eq!(
        resampled_or_input(&data, ResampleOutcome::Produced(vec![vec![9], vec![4, 5]])),
        vec![4, 5]
    );
    assert_eq!(resampled_or_input(&data, ResampleOutcome::Produced(vec![])), vec![1, 2, 3]);
}

#[test]
fn device_switch_keeps_state_on_error() {
    let mut c: DeviceControl<&str, u32> = DeviceControl::new("mic");
    c.set_running(1);
    let r = c.finish_switch(Err::<(&str, Option<u32>), String>("未找到设备: usb".to_string()));
    assert_eq!(r, Err("未找到设备: usb".to_string()));
    assert_eq!(*c.device(), "mic");
    assert_eq!(c.stream(), Some(&1));
    assert_eq!(c.finish_switch::<String>(Ok(("usb", Some(2)))), Ok(()));
    assert_eq!(*c.device(), "usb");
    assert_eq!(c.stream(), Some(&2));
}

#[test]
fn session_start_outcome() {
    let mut s: SessionCore<u8> = SessionCore::new(true, true);
    assert!(matches!(s.finish_start(false), StartAction::StopCapture));
    assert!(!s.is_running());
    match s.finish_start(true) {
        StartAction::Run(plan) => {
            assert!(plan.create_raw_channel);
            assert!(plan.create_processed_channel);
        }
        StartAction::StopCapture => panic!("expected run"),
    }
    assert!(s.is_running());
}
