use vstd::prelude::*;
use std::collections::VecDeque;

verus! {

/// `a + b`, clipped at `usize::MAX` (what `usize::saturating_add` computes).
pub open spec fn sat_add(a: int, b: int) -> int {
    if a + b > usize::MAX { usize::MAX as int } else { a + b }
}

/// `a - b`, clipped at zero (what `usize::saturating_sub` computes).
pub open spec fn sat_sub(a: int, b: int) -> int {
    if a - b < 0 { 0 } else { a - b }
}

/// `a * b`, clipped at `usize::MAX` (what `usize::saturating_mul` computes).
pub open spec fn sat_mul(a: int, b: int) -> int {
    if a * b > usize::MAX { usize::MAX as int } else { a * b }
}

/// Number of samples spanned by `ms` milliseconds at `sample_rate` Hz, rounded down.
pub open spec fn spec_samples_from_ms(ms: int, sample_rate: int) -> int {
    (ms * sample_rate) / 1000
}

/// Number of samples that `ms` milliseconds span at `sample_rate` Hz, rounded down.
pub fn samples_from_ms(ms: u32, sample_rate: u32) -> (n: usize)
    ensures
        n == spec_samples_from_ms(ms as int, sample_rate as int) as usize,
        ms as int * sample_rate as int / 1000 <= usize::MAX ==> n as int == ms as int
            * sample_rate as int / 1000,
        spec_samples_from_ms(ms as int, sample_rate as int) <= usize::MAX ==> n as int
            == spec_samples_from_ms(ms as int, sample_rate as int),
{
    assert((ms as int) * (sample_rate as int) <= 0xffff_ffffint * 0xffff_ffffint) by (nonlinear_arith);
    let prod: u64 = (ms as u64) * (sample_rate as u64);
    (prod / 1000) as usize
}

} // verus!

verus! {

/// Size of the far-end reference history, in samples: at least one second of audio, and
/// enough to cover the configured delay, the echo tail and two frames.
pub open spec fn spec_reference_capacity(
    sample_rate: int,
    tail_ms: int,
    delay_ms: int,
    frame_len: int,
) -> int {
    let delay = (spec_samples_from_ms(delay_ms, sample_rate) as usize) as int;
    let tail = (spec_samples_from_ms(tail_ms, sample_rate) as usize) as int;
    let need = sat_add(sat_add(delay, tail), sat_mul(frame_len, 2));
    if sample_rate >= need { sample_rate } else { need }
}

/// The last `cap` elements of `s` (all of `s` when it is not longer than `cap`).
pub open spec fn keep_last<T>(s: Seq<T>, cap: int) -> Seq<T> {
    if s.len() > cap { s.subrange(s.len() - cap, s.len() as int) } else { s }
}

/// The reference window for a frame of `frame_len` samples, `delay` samples behind the newest
/// sample of `history`; `None` when the history is too short.
pub open spec fn spec_reference_window<T>(history: Seq<T>, frame_len: int, delay: int) -> Option<
    Seq<T>,
> {
    if history.len() < sat_add(frame_len, delay) {
        None
    } else {
        let end = sat_sub(history.len() as int, delay);
        let start = sat_sub(end, frame_len);
        Some(history.subrange(start, end))
    }
}

/// Size of the far-end reference history for the given AEC timing and frame length.
pub fn reference_capacity(sample_rate: u32, tail_ms: u32, delay_ms: u32, frame_len: usize) -> (cap:
    usize)
    ensures
        cap as int == spec_reference_capacity(
            sample_rate as int,
            tail_ms as int,
            delay_ms as int,
            frame_len as int,
        ),
{
    let delay = samples_from_ms(delay_ms, sample_rate);
    let tail = samples_from_ms(tail_ms, sample_rate);
    let two_frames: usize = if frame_len > usize::MAX / 2 {
        usize::MAX
    } else {
        frame_len * 2
    };
    let need = delay.saturating_add(tail).saturating_add(two_frames);
    let rate = sample_rate as usize;
    if rate >= need {
        rate
    } else {
        need
    }
}

/// Appends a far-end frame to the reference history and drops the oldest samples so that at
/// most `reference_capacity(..)` samples remain.
pub fn append_reference_history<T: Copy>(
    history: &mut VecDeque<T>,
    frame: &[T],
    sample_rate: u32,
    tail_ms: u32,
    delay_ms: u32,
)
    ensures
        final(history)@ == keep_last(
            old(history)@ + frame@,
            spec_reference_capacity(
                sample_rate as int,
                tail_ms as int,
                delay_ms as int,
                frame@.len() as int,
            ),
        ),
{
    let max_history = reference_capacity(sample_rate, tail_ms, delay_ms, frame.len());
    let ghost all = old(history)@ + frame@;
    let mut i: usize = 0;
    while i < frame.len()
        invariant
            i <= frame@.len(),
            all == old(history)@ + frame@,
            history@ == old(history)@ + frame@.subrange(0, i as int),
        decreases frame@.len() - i,
    {
        history.push_back(frame[i]);
        proof {
            assert(frame@.subrange(0, i as int).push(frame@[i as int]) =~= frame@.subrange(
                0,
                i + 1,
            ));
        }
        i = i + 1;
    }
    proof {
        assert(frame@.subrange(0, frame@.len() as int) =~= frame@);
    }
    let ghost dropped: int = 0;
    while history.len() > max_history
        invariant
            0 <= dropped <= all.len(),
            history@ == all.subrange(dropped, all.len() as int),
            dropped > 0 ==> all.len() - dropped >= max_history,
        decreases history@.len(),
    {
        let _ = history.pop_front();
        proof {
            dropped = dropped + 1;
        }
    }
    proof {
        if all.len() > max_history {
            assert(dropped == all.len() - max_history);
        } else {
            assert(dropped == 0);
            assert(all.subrange(0, all.len() as int) =~= all);
        }
    }
}

/// Copies the reference window for a capture frame of `frame_len` samples out of the history:
/// the `frame_len` samples that end `delay_samples` before the newest one. `None` when the
/// history holds fewer than `frame_len + delay_samples` samples.
pub fn build_reference_frame<T: Copy>(history: &VecDeque<T>, frame_len: usize, delay_samples: usize) -> (r:
    Option<Vec<T>>)
    ensures
        match r {
            None => spec_reference_window(history@, frame_len as int, delay_samples as int) is None,
            Some(v) => spec_reference_window(history@, frame_len as int, delay_samples as int)
                == Some(v@),
        },
{
    let required_len = frame_len.saturating_add(delay_samples);
    if history.len() < required_len {
        return None;
    }
    let end = history.len().saturating_sub(delay_samples);
    let start = end.saturating_sub(frame_len);
    let mut reference: Vec<T> = Vec::new();
    let mut i = start;
    while i < end
        invariant
            start <= i <= end,
            end <= history@.len(),
            reference@ == history@.subrange(start as int, i as int),
        decreases end - i,
    {
        reference.push(history[i]);
        proof {
            assert(history@.subrange(start as int, i as int).push(history@[i as int])
                =~= history@.subrange(start as int, i + 1));
        }
        i = i + 1;
    }
    Some(reference)
}

} // verus!

verus! {

/// The reference history never grows past its capacity, and a newly appended far-end frame is
/// always kept whole at its end (the capacity holds at least two frames).
pub proof fn lemma_reference_history_bounded<T>(
    history: Seq<T>,
    frame: Seq<T>,
    sample_rate: u32,
    tail_ms: u32,
    delay_ms: u32,
)
    requires
        frame.len() <= usize::MAX,
    ensures
        ({
            let cap = spec_reference_capacity(
                sample_rate as int,
                tail_ms as int,
                delay_ms as int,
                frame.len() as int,
            );
            let all = history + frame;
            let h = keep_last(all, cap);
            &&& h.len() <= cap
            &&& frame.len() <= cap
            &&& h.subrange(h.len() - frame.len(), h.len() as int) == frame
            &&& h.len() == if all.len() > cap {
                cap
            } else {
                all.len() as int
            }
            &&& h == all.subrange(all.len() - h.len(), all.len() as int)
        }),
{
    let cap = spec_reference_capacity(
        sample_rate as int,
        tail_ms as int,
        delay_ms as int,
        frame.len() as int,
    );
    let all = history + frame;
    let h = keep_last(all, cap);
    assert(sat_mul(frame.len() as int, 2) >= frame.len());
    assert(frame.len() <= cap);
    if all.len() > cap {
        assert(h.subrange(h.len() - frame.len(), h.len() as int) =~= frame);
    } else {
        assert(h.subrange(h.len() - frame.len(), h.len() as int) =~= frame);
        assert(all.subrange(0, all.len() as int) =~= all);
    }
}

/// When the history holds at least `frame_len + delay` samples, the reference window has
/// `frame_len` samples, and its last sample is the one `delay` places before the newest.
pub proof fn lemma_reference_window_alignment<T>(history: Seq<T>, frame_len: usize, delay: usize)
    requires
        frame_len + delay <= usize::MAX,
        history.len() >= frame_len + delay,
    ensures
        spec_reference_window(history, frame_len as int, delay as int) is Some,
        spec_reference_window(history, frame_len as int, delay as int)->0.len() == frame_len,
        forall|i: int|
            0 <= i < frame_len ==> #[trigger] spec_reference_window(
                history,
                frame_len as int,
                delay as int,
            )->0[i] == history[history.len() - delay - frame_len + i],
{
}

/// The reference history's capacity is the larger of one second of audio and what covers
/// the configured delay, the echo tail (each `ms * sample_rate / 1000` samples) and two frames;
/// it is never below one second.
pub proof fn lemma_reference_capacity_covers(
    sample_rate: u32,
    tail_ms: u32,
    delay_ms: u32,
    frame_len: usize,
)
    ensures
        spec_reference_capacity(sample_rate as int, tail_ms as int, delay_ms as int, frame_len as int)
            >= sample_rate,
        ({
            let delay = delay_ms as int * sample_rate as int / 1000;
            let tail = tail_ms as int * sample_rate as int / 1000;
            let need = delay + tail + 2 * frame_len as int;
            need <= usize::MAX ==> {
                &&& spec_reference_capacity(
                    sample_rate as int,
                    tail_ms as int,
                    delay_ms as int,
                    frame_len as int,
                ) >= need
                &&& spec_reference_capacity(
                    sample_rate as int,
                    tail_ms as int,
                    delay_ms as int,
                    frame_len as int,
                ) == if need > sample_rate {
                    need
                } else {
                    sample_rate as int
                }
            }
        }),
{
    let delay = delay_ms as int * sample_rate as int / 1000;
    let tail = tail_ms as int * sample_rate as int / 1000;
    assert(delay >= 0 && tail >= 0) by (nonlinear_arith)
        requires
            delay == delay_ms as int * sample_rate as int / 1000,
            tail == tail_ms as int * sample_rate as int / 1000,
    ;
    if delay + tail + 2 * frame_len as int <= usize::MAX {
        assert(spec_samples_from_ms(delay_ms as int, sample_rate as int) == delay);
        assert(spec_samples_from_ms(tail_ms as int, sample_rate as int) == tail);
    }
}

/// The reference window is missing exactly when the history holds fewer than
/// `frame_len + delay` samples (whatever the delay, zero included); otherwise it holds exactly
/// `frame_len` samples, the ones that end `delay` samples before the newest.
pub proof fn lemma_reference_window_exact<T>(history: Seq<T>, frame_len: usize, delay: usize)
    requires
        history.len() <= usize::MAX,
        history.len() < usize::MAX || frame_len + delay <= usize::MAX,
    ensures
        spec_reference_window(history, frame_len as int, delay as int) is None <==> history.len()
            < frame_len + delay,
        spec_reference_window(history, frame_len as int, delay as int) matches Some(w) ==> {
            &&& w.len() == frame_len
            &&& w == history.subrange(
                history.len() - delay - frame_len,
                history.len() - delay,
            )
        },
{
}

} // verus!
