use vstd::prelude::*;

verus! {

/// A resampler is needed exactly when the two rates differ.
pub fn needs_resampling(actual_sample_rate: u32, target_sample_rate: u32) -> (b: bool)
    ensures
        b <==> actual_sample_rate != target_sample_rate,
{
    actual_sample_rate != target_sample_rate
}

/// What an attempt to resample one block gave.
pub enum ResampleOutcome<T> {
    /// No resampler is configured (the rates are equal).
    NotConfigured,
    /// The resampler was in use by another thread.
    Busy,
    /// The resampler reported an error.
    Failed,
    /// The resampler produced these output channels.
    Produced(Vec<Vec<T>>),
}

/// A copy of `data`.
pub fn copy_samples<T: Copy>(data: &[T]) -> (out: Vec<T>)
    ensures
        out@ == data@,
{
    let mut out: Vec<T> = Vec::new();
    let mut i: usize = 0;
    while i < data.len()
        invariant
            i <= data@.len(),
            out@ == data@.subrange(0, i as int),
        decreases data@.len() - i,
    {
        out.push(data[i]);
        proof {
            assert(data@.subrange(0, i as int).push(data@[i as int]) =~= data@.subrange(0, i + 1));
        }
        i = i + 1;
    }
    proof {
        assert(data@.subrange(0, data@.len() as int) =~= data@);
    }
    out
}

/// The block to use after a resampling attempt: the last channel the resampler produced, or
/// the input block unchanged when there is no resampler, it was busy, it failed, or it
/// produced no channel (real-time audio never waits for the resampler).
pub fn resampled_or_input<T: Copy>(data: &[T], outcome: ResampleOutcome<T>) -> (out: Vec<T>)
    ensures
        match outcome {
            ResampleOutcome::Produced(waves) => if waves@.len() > 0 {
                out == waves@.last()
            } else {
                out@ == data@
            },
            _ => out@ == data@,
        },
{
    match outcome {
        ResampleOutcome::Produced(waves) => {
            let mut waves = waves;
            match waves.pop() {
                Some(w) => w,
                None => copy_samples(data),
            }
        },
        _ => copy_samples(data),
    }
}

} // verus!
