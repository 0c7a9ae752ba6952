use audio_io::stream::{
    input_ring, output_ring, pop_available, push_samples, render_output, EmitOutcome, FrameSender,
    FrameAssembler,
};

#[test]
fn ring_push_and_pop() {
    let (mut p, mut c) = output_ring::<i16>(2);
    assert_eq!(push_samples(&mut p, &[1, 2, 3, 4, 5, 6]), 4);
    assert_eq!(pop_available(&mut c, 0), vec![1, 2, 3, 4]);
    assert_eq!(pop_available(&mut c, 0), Vec::<i16>::new());
    let (mut p, mut c) = input_ring::<u8>();
    let data = vec![3u8; 1000];
    assert_eq!(push_samples(&mut p, &data), 960);
    assert_eq!(pop_available(&mut c, 0).len(), 960);
}

#[test]
fn render_output_branches() {
    let (mut p, mut c) = output_ring::<i16>(4);
    let mut out = [7i16; 5];
    // empty ring: silence
    assert_eq!(render_output(&mut out, &mut c, 2, false, 0, &|s: i16| s), 0);
    assert_eq!(out, [0; 5]);
    push_samples(&mut p, &[1, 2, 3]);
    let mut out = [7i16; 5];
    // two frames fit; the third sample stays
    assert_eq!(render_output(&mut out, &mut c, 2, false, 0, &|s: i16| s * 2), 2);
    assert_eq!(out, [2, 2, 4, 4, 0]);
    // muted: silence and the sample is dropped
    let mut out = [7i16; 4];
    assert_eq!(render_output(&mut out, &mut c, 2, true, 0, &|s: i16| s), 0);
    assert_eq!(out, [0; 4]);
    assert_eq!(pop_available(&mut c, 0), Vec::<i16>::new());
}

#[test]
fn render_output_wraps_around() {
    let (mut p, mut c) = output_ring::<i16>(2);
    push_samples(&mut p, &[1, 2, 3]);
    assert_eq!(pop_available(&mut c, 0), vec![1, 2, 3]);
    // the ring now wraps: its samples lie in two slices
    push_samples(&mut p, &[4, 5, 6]);
    let mut out = [0i16; 3];
    assert_eq!(render_output(&mut out, &mut c, 1, false, -1, &|s: i16| s), 3);
    assert_eq!(out, [4, 5, 6]);
}

#[test]
fn assembler_cuts_frames() {
    let mut a: FrameAssembler<i16> = FrameAssembler::new(3);
    a.push_samples(&[1, 2]);
    assert_eq!(a.take_frame(), None);
    a.push_samples(&[3, 4]);
    assert_eq!(a.take_frame(), Some(vec![1, 2, 3]));
    assert_eq!(a.take_frame(), None);
}

#[test]
fn assembler_emits_until_full() {
    let rt = tokio::runtime::Builder::new_current_thread().build().unwrap();
    rt.block_on(async {
        let (tx, mut rx) = tokio::sync::mpsc::channel::<Vec<i16>>(2);
        let mut sender = FrameSender::new(tx);
        let mut a: FrameAssembler<i16> = FrameAssembler::new(2);
        a.push_samples(&[1, 2, 3, 4, 5, 6, 7, 8, 9]);
        let outcome = a.emit_frames(&mut sender);
        assert!(matches!(outcome, EmitOutcome::Dropped));
        assert_eq!(rx.recv().await, Some(vec![1, 2]));
        assert_eq!(rx.recv().await, Some(vec![3, 4]));
        // [5, 6] was dropped; [7, 8] and 9 remain
        let outcome = a.emit_frames(&mut sender);
        assert!(matches!(outcome, EmitOutcome::Drained));
        assert_eq!(rx.recv().await, Some(vec![7, 8]));
        drop(rx);
        a.push_samples(&[10]);
        let outcome = a.emit_frames(&mut sender);
        assert!(matches!(outcome, EmitOutcome::ChannelClosed));
    });
}

#[test]
fn render_takes_what_fits_and_keeps_the_rest() {
    let (mut p, mut c) = output_ring::<i16>(4);
    push_samples(&mut p, &[1, 2, 3, 4, 5]);
    let mut out = [0i16; 6];
    // two channels: three frames fit
    assert_eq!(render_output(&mut out, &mut c, 2, false, -1, &|s: i16| s * 10), 3);
    assert_eq!(out, [10, 10, 20, 20, 30, 30]);
    assert_eq!(pop_available(&mut c, 0), vec![4, 5]);
}

#[test]
fn muted_render_drops_what_would_have_played() {
    let (mut p, mut c) = output_ring::<i16>(4);
    push_samples(&mut p, &[1, 2, 3]);
    let mut out = [7i16; 4];
    assert_eq!(render_output(&mut out, &mut c, 2, true, 0, &|s: i16| s), 0);
    assert_eq!(out, [0, 0, 0, 0]);
    assert_eq!(pop_available(&mut c, 0), vec![3]);
}
