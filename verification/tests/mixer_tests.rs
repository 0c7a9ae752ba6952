use audio_io::mixer::{
    frame_duration, normalize_frame, MixerCommand, MixerCore, MixerQueues, MixerSlots,
    MixerStartError, MixerTick, SourceIdAllocator, SourceStates,
};

#[test]
fn test_normalize_frame_pads_and_truncates() {
    let padded = normalize_frame(vec![1.0f32, 2.0], 4, 0.0);
    assert_eq!(padded, vec![1.0, 2.0, 0.0, 0.0]);
    let truncated = normalize_frame(vec![1.0f32, 2.0, 3.0, 4.0], 2, 0.0);
    assert_eq!(truncated, vec![1.0, 2.0]);
}

#[test]
fn normalize_frame_keeps_exact_size() {
    let same = normalize_frame(vec![7i16, 8, 9], 3, 0);
    assert_eq!(same, vec![7, 8, 9]);
    let empty = normalize_frame(Vec::<i16>::new(), 2, 5);
    assert_eq!(empty, vec![5, 5]);
}

#[test]
fn queues_are_first_in_first_out_per_source() {
    let mut q: MixerQueues<u8> = MixerQueues::new();
    assert!(q.is_empty());
    q.submit(7, vec![1]);
    q.submit(3, vec![2]);
    q.submit(7, vec![3]);
    let (frames, ids) = q.pop_round();
    let mut round: Vec<(usize, Vec<u8>)> = ids.into_iter().zip(frames).collect();
    round.sort();
    assert_eq!(round, vec![(3, vec![2]), (7, vec![1])]);
    let (frames, ids) = q.pop_round();
    assert_eq!(frames, vec![vec![3]]);
    assert_eq!(ids, vec![7]);
    assert!(q.is_empty());
    let (frames, ids) = q.pop_round();
    assert!(frames.is_empty());
    assert!(ids.is_empty());
}

#[test]
fn source_states_default_and_independent() {
    let mut s: SourceStates<f32> = SourceStates::new(1.0);
    assert_eq!(s.get(4), (1.0, false));
    s.set_volume(4, 0.5);
    s.set_muted(9, true);
    assert_eq!(s.get(4), (0.5, false));
    assert_eq!(s.get(9), (1.0, true));
    s.set_muted(4, true);
    assert_eq!(s.get(4), (0.5, true));
    assert_eq!(s.get(1), (1.0, false));
}

#[test]
fn mixer_core_ticks() {
    let mut m: MixerCore<f32, f32> = MixerCore::new(2, 0.0, 1.0);
    match m.tick() {
        MixerTick::Idle => {}
        _ => panic!("expected idle"),
    }
    m.handle_command(Some(MixerCommand::Submit { source_id: 1, frame: vec![0.5] }));
    m.handle_command(Some(MixerCommand::SetVolume { source_id: 1, volume: 0.25 }));
    m.handle_command(Some(MixerCommand::Submit { source_id: 2, frame: vec![0.1, 0.2, 0.3] }));
    m.handle_command(Some(MixerCommand::SetMuted { source_id: 2, muted: true }));
    match m.tick() {
        MixerTick::Mix { frames, source_ids, states } => {
            assert_eq!(frames.len(), 2);
            for i in 0..2 {
                match source_ids[i] {
                    1 => {
                        assert_eq!(frames[i], vec![0.5, 0.0]);
                        assert_eq!(states[i], (0.25, false));
                    }
                    2 => {
                        assert_eq!(frames[i], vec![0.1, 0.2]);
                        assert_eq!(states[i], (1.0, true));
                    }
                    other => panic!("unexpected source {other}"),
                }
            }
            assert_ne!(source_ids[0], source_ids[1]);
        }
        _ => panic!("expected a mix"),
    }
    assert!(!m.finished());
    m.handle_command(None);
    assert!(m.finished());
    match m.tick() {
        MixerTick::Finish => {}
        _ => panic!("expected finish"),
    }
}

#[test]
fn frame_duration_values() {
    assert_eq!(frame_duration(480, 48_000), (0, 10_000_000));
    assert_eq!(frame_duration(960, 48_000), (0, 20_000_000));
    assert_eq!(frame_duration(0, 0), (1, 0));
    assert_eq!(frame_duration(3, 2), (1, 500_000_000));
    assert_eq!(frame_duration(1, 3), (0, 333_333_333));
    assert_eq!(frame_duration(320, 48_000), (0, 6_666_667));
    assert_eq!(frame_duration(2, 3), (0, 666_666_667));
}

#[test]
fn source_ids_start_at_one() {
    let mut a = SourceIdAllocator::new();
    assert_eq!(a.allocate(), 1);
    assert_eq!(a.allocate(), 2);
    assert_eq!(a.allocate(), 3);
}

#[test]
fn mixer_slots_lifecycle() {
    let mut slots: MixerSlots<u32, &str> = MixerSlots::new("rx");
    let rx = slots.take_for_start();
    assert!(matches!(rx, Ok("rx")));
    slots.set_task(5);
    assert!(matches!(slots.take_for_start(), Err(MixerStartError::AlreadyRunning)));
    let (task, needs_channel) = slots.stop();
    assert_eq!(task, Some(5));
    assert!(needs_channel);
    assert!(matches!(slots.take_for_start(), Err(MixerStartError::ChannelUninitialized)));
    slots.install_receiver("rx2");
    assert!(matches!(slots.take_for_start(), Ok("rx2")));
}

#[test]
fn source_ids_count_up_from_one() {
    let mut a = SourceIdAllocator::new();
    let ids: Vec<usize> = (0..5).map(|_| a.allocate()).collect();
    assert_eq!(ids, vec![1, 2, 3, 4, 5]);
}
