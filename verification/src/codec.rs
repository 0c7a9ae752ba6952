use vstd::prelude::*;
use crate::mixer::spec_normalize;

verus! {

/// Opus application mode.
#[derive(Clone, Copy, Debug, PartialEq, Eq, Structural)]
pub enum Application {
    Voip,
    Audio,
    LowDelay,
}

/// A sample rate that Opus accepts.
#[derive(Clone, Copy, Debug, PartialEq, Eq, Structural)]
pub enum OpusSampleRate {
    Hz8000,
    Hz12000,
    Hz16000,
    Hz24000,
    Hz48000,
}

/// Why a codec request was refused.
#[derive(Clone, Copy, Debug, PartialEq, Eq, Structural)]
pub enum CodecError {
    /// The sample rate is not one of 8000, 12000, 16000, 24000, 48000 Hz.
    UnsupportedSampleRate(u32),
    /// A frame to encode does not hold `expected` samples.
    FrameSizeMismatch { expected: usize, actual: usize },
}

/// The rate in Hz.
pub open spec fn rate_hz(r: OpusSampleRate) -> u32 {
    match r {
        OpusSampleRate::Hz8000 => 8000,
        OpusSampleRate::Hz12000 => 12000,
        OpusSampleRate::Hz16000 => 16000,
        OpusSampleRate::Hz24000 => 24000,
        OpusSampleRate::Hz48000 => 48000,
    }
}

/// The rates Opus accepts.
pub open spec fn is_opus_rate(hz: u32) -> bool {
    hz == 8000 || hz == 12000 || hz == 16000 || hz == 24000 || hz == 48000
}

/// The Opus rate for `sample_rate` Hz; any other rate than the five Opus ones is refused.
pub fn to_opus_sample_rate(sample_rate: u32) -> (r: Result<OpusSampleRate, CodecError>)
    ensures
        r is Ok <==> is_opus_rate(sample_rate),
        r matches Ok(rate) ==> rate_hz(rate) == sample_rate,
        r matches Err(e) ==> e == CodecError::UnsupportedSampleRate(sample_rate),
{
    if sample_rate == 8000 {
        Ok(OpusSampleRate::Hz8000)
    } else if sample_rate == 12000 {
        Ok(OpusSampleRate::Hz12000)
    } else if sample_rate == 16000 {
        Ok(OpusSampleRate::Hz16000)
    } else if sample_rate == 24000 {
        Ok(OpusSampleRate::Hz24000)
    } else if sample_rate == 48000 {
        Ok(OpusSampleRate::Hz48000)
    } else {
        Err(CodecError::UnsupportedSampleRate(sample_rate))
    }
}

/// A checked codec configuration.
pub struct CodecConfig {
    pub rate: OpusSampleRate,
    pub sample_rate: u32,
    pub frame_size: usize,
    pub bitrate: i32,
    pub application: Application,
}

/// Builder of an audio codec's configuration; defaults 48000 Hz, 480-sample frames,
/// 64000 bps, low-delay mode.
pub struct AudioCodecBuilder {
    sample_rate: u32,
    frame_size: usize,
    bitrate: i32,
    application: Application,
}

impl AudioCodecBuilder {
    /// The configured rate in Hz.
    pub closed spec fn spec_sample_rate(&self) -> u32 {
        self.sample_rate
    }

    /// The configured frame size.
    pub closed spec fn spec_frame_size(&self) -> usize {
        self.frame_size
    }

    /// The configured bitrate.
    pub closed spec fn spec_bitrate(&self) -> i32 {
        self.bitrate
    }

    /// The configured application mode.
    pub closed spec fn spec_application(&self) -> Application {
        self.application
    }

    /// A builder holding the defaults.
    pub fn new() -> (b: Self)
        ensures
            b.spec_sample_rate() == 48000,
            b.spec_frame_size() == 480,
            b.spec_bitrate() == 64000,
            b.spec_application() == Application::LowDelay,
    {
        AudioCodecBuilder {
            sample_rate: 48000,
            frame_size: 480,
            bitrate: 64000,
            application: Application::LowDelay,
        }
    }

    /// Sets the sample rate in Hz (8000, 12000, 16000, 24000 or 48000 are accepted by `config`).
    pub fn sample_rate(self, sample_rate: u32) -> (b: Self)
        ensures
            b.spec_sample_rate() == sample_rate,
            b.spec_frame_size() == self.spec_frame_size(),
            b.spec_bitrate() == self.spec_bitrate(),
            b.spec_application() == self.spec_application(),
    {
        AudioCodecBuilder { sample_rate, ..self }
    }

    /// Sets the frame size in samples.
    pub fn frame_size(self, frame_size: usize) -> (b: Self)
        ensures
            b.spec_sample_rate() == self.spec_sample_rate(),
            b.spec_frame_size() == frame_size,
            b.spec_bitrate() == self.spec_bitrate(),
            b.spec_application() == self.spec_application(),
    {
        AudioCodecBuilder { frame_size, ..self }
    }

    /// Sets the bitrate in bits per second.
    pub fn bitrate(self, bitrate: i32) -> (b: Self)
        ensures
            b.spec_sample_rate() == self.spec_sample_rate(),
            b.spec_frame_size() == self.spec_frame_size(),
            b.spec_bitrate() == bitrate,
            b.spec_application() == self.spec_application(),
    {
        AudioCodecBuilder { bitrate, ..self }
    }

    /// Sets the application mode.
    pub fn application(self, application: Application) -> (b: Self)
        ensures
            b.spec_sample_rate() == self.spec_sample_rate(),
            b.spec_frame_size() == self.spec_frame_size(),
            b.spec_bitrate() == self.spec_bitrate(),
            b.spec_application() == application,
    {
        AudioCodecBuilder { application, ..self }
    }

    /// The checked configuration: refused exactly when the sample rate is not an Opus rate.
    pub fn config(&self) -> (r: Result<CodecConfig, CodecError>)
        ensures
            r is Ok <==> is_opus_rate(self.spec_sample_rate()),
            r matches Err(e) ==> e == CodecError::UnsupportedSampleRate(self.spec_sample_rate()),
            r matches Ok(c) ==> {
                &&& rate_hz(c.rate) == self.spec_sample_rate()
                &&& c.sample_rate == self.spec_sample_rate()
                &&& c.frame_size == self.spec_frame_size()
                &&& c.bitrate == self.spec_bitrate()
                &&& c.application == self.spec_application()
            },
    {
        let rate = to_opus_sample_rate(self.sample_rate)?;
        Ok(
            CodecConfig {
                rate,
                sample_rate: self.sample_rate,
                frame_size: self.frame_size,
                bitrate: self.bitrate,
                application: self.application,
            },
        )
    }
}

impl Default for AudioCodecBuilder {
    fn default() -> (b: Self)
        ensures
            b.spec_sample_rate() == 48000,
            b.spec_frame_size() == 480,
            b.spec_bitrate() == 64000,
            b.spec_application() == Application::LowDelay,
    {
        Self::new()
    }
}

/// A frame to encode must hold exactly `expected` samples.
pub fn check_frame_size(expected: usize, actual: usize) -> (r: Result<(), CodecError>)
    ensures
        r is Ok <==> expected == actual,
        r matches Err(e) ==> e == (CodecError::FrameSizeMismatch { expected, actual }),
{
    if actual != expected {
        Err(CodecError::FrameSizeMismatch { expected, actual })
    } else {
        Ok(())
    }
}

/// An encoder bitrate setting.
#[derive(Clone, Copy, Debug, PartialEq, Eq, Structural)]
pub enum Bitrate {
    BitsPerSecond(i32),
    Auto,
    Max,
}

/// The bitrate as a number: bits per second as is, 0 for automatic, `i32::MAX` for maximum.
pub fn bitrate_value(bitrate: Bitrate) -> (bps: i32)
    ensures
        bps == match bitrate {
            Bitrate::BitsPerSecond(b) => b,
            Bitrate::Auto => 0,
            Bitrate::Max => i32::MAX,
        },
{
    match bitrate {
        Bitrate::BitsPerSecond(b) => b,
        Bitrate::Auto => 0,
        Bitrate::Max => i32::MAX,
    }
}

/// Number of frames of `frame_size` samples needed to hold `len` samples.
pub open spec fn frame_count(len: int, frame_size: int) -> int {
    (len + frame_size - 1) / frame_size
}

/// Frame `i` of `pcm`: its `frame_size` samples from `i * frame_size`, the last frame padded
/// with `fill`.
pub open spec fn spec_frame_at<T>(pcm: Seq<T>, frame_size: int, fill: T, i: int) -> Seq<T> {
    let start = i * frame_size;
    let end = if start + frame_size <= pcm.len() { start + frame_size } else { pcm.len() as int };
    spec_normalize(pcm.subrange(start, end), frame_size, fill)
}

/// Cuts `pcm` into frames of `frame_size` samples, in order; the last frame, when short, is
/// padded with `fill`.
pub fn split_frames<T: Copy>(pcm: &[T], frame_size: usize, fill: T) -> (frames: Vec<Vec<T>>)
    requires
        frame_size > 0,
    ensures
        frames@.len() == frame_count(pcm@.len() as int, frame_size as int),
        forall|i: int|
            0 <= i < frames@.len() ==> #[trigger] frames@[i]@ == spec_frame_at(
                pcm@,
                frame_size as int,
                fill,
                i,
            ),
{
    let len = pcm.len();
    let mut frames: Vec<Vec<T>> = Vec::new();
    let mut start: usize = 0;
    let ghost mut i: int = 0;
    assert(frame_count(0, frame_size as int) == 0) by (nonlinear_arith)
        requires
            frame_size > 0,
    ;
    while start < len
        invariant
            len == pcm@.len(),
            frame_size > 0,
            start <= len,
            0 <= i,
            i == frames@.len(),
            i == frame_count(start as int, frame_size as int),
            start < len ==> start == i * frame_size,
            forall|k: int|
                0 <= k < frames@.len() ==> #[trigger] frames@[k]@ == spec_frame_at(
                    pcm@,
                    frame_size as int,
                    fill,
                    k,
                ),
        decreases len - start,
    {
        let end = if len - start >= frame_size {
            start + frame_size
        } else {
            len
        };
        let mut chunk: Vec<T> = Vec::new();
        let mut k = start;
        while k < end
            invariant
                start <= k <= end <= len,
                len == pcm@.len(),
                chunk@ == pcm@.subrange(start as int, k as int),
            decreases end - k,
        {
            chunk.push(pcm[k]);
            proof {
                assert(pcm@.subrange(start as int, k as int).push(pcm@[k as int]) =~= pcm@.subrange(
                    start as int,
                    k + 1,
                ));
            }
            k = k + 1;
        }
        let frame = crate::mixer::normalize_frame(chunk, frame_size, fill);
        let ghost before = frames@;
        frames.push(frame);
        proof {
            assert(frames@[i]@ == spec_frame_at(pcm@, frame_size as int, fill, i));
            assert forall|k: int|
                0 <= k < frames@.len() implies #[trigger] frames@[k]@ == spec_frame_at(
                pcm@,
                frame_size as int,
                fill,
                k,
            ) by {
                if k < i {
                    assert(frames@[k] == before[k]);
                }
            }
            let ii = i;
            if end < len || end == start + frame_size {
                assert(end == (ii + 1) * frame_size) by (nonlinear_arith)
                    requires
                        end == start + frame_size,
                        start == ii * frame_size,
                ;
                assert(frame_count(end as int, frame_size as int) == ii + 1) by (nonlinear_arith)
                    requires
                        end == (ii + 1) * frame_size,
                        frame_size > 0,
                {
                    assert(end + frame_size - 1 == (ii + 1) * frame_size + (frame_size - 1));
                }
            } else {
                assert(frame_count(end as int, frame_size as int) == ii + 1) by (nonlinear_arith)
                    requires
                        ii * frame_size < end,
                        end < ii * frame_size + frame_size,
                        frame_size > 0,
                {
                    assert(end + frame_size - 1 >= (ii + 1) * frame_size);
                    assert(end + frame_size - 1 < (ii + 2) * frame_size);
                }
            }
            i = i + 1;
        }
        start = end;
    }
    frames
}

/// All samples of `frames`, frame after frame.
pub open spec fn concat_all<T>(frames: Seq<Vec<T>>) -> Seq<T>
    decreases frames.len(),
{
    if frames.len() == 0 {
        Seq::empty()
    } else {
        concat_all(frames.drop_last()) + frames.last()@
    }
}

/// Appends the samples of each frame, in order.
pub fn concat_frames<T: Copy>(frames: &Vec<Vec<T>>) -> (pcm: Vec<T>)
    ensures
        pcm@ == concat_all(frames@),
{
    let mut pcm: Vec<T> = Vec::new();
    let mut i: usize = 0;
    while i < frames.len()
        invariant
            i <= frames@.len(),
            pcm@ == concat_all(frames@.take(i as int)),
        decreases frames@.len() - i,
    {
        let frame = &frames[i];
        let ghost before = pcm@;
        let mut k: usize = 0;
        while k < frame.len()
            invariant
                k <= frame@.len(),
                pcm@ == before + frame@.subrange(0, k as int),
            decreases frame@.len() - k,
        {
            pcm.push(frame[k]);
            proof {
                assert(frame@.subrange(0, k as int).push(frame@[k as int]) =~= frame@.subrange(
                    0,
                    k + 1,
                ));
            }
            k = k + 1;
        }
        proof {
            assert(frame@.subrange(0, frame@.len() as int) =~= frame@);
            assert(frames@.take(i + 1).drop_last() =~= frames@.take(i as int));
        }
        i = i + 1;
    }
    proof {
        assert(frames@.take(frames@.len() as int) =~= frames@);
    }
    pcm
}

} // verus!

verus! {

/// Cutting a stream into frames keeps every sample in place: sample `k` becomes sample
/// `k % frame_size` of frame `k / frame_size`, and that frame exists.
pub proof fn lemma_split_frames_keep_samples<T>(pcm: Seq<T>, frame_size: int, fill: T, k: int)
    requires
        frame_size > 0,
        0 <= k < pcm.len(),
    ensures
        0 <= k / frame_size < frame_count(pcm.len() as int, frame_size),
        spec_frame_at(pcm, frame_size, fill, k / frame_size)[k % frame_size] == pcm[k],
        spec_frame_at(pcm, frame_size, fill, k / frame_size).len() == frame_size,
{
    let i = k / frame_size;
    let j = k % frame_size;
    assert(k == i * frame_size + j && 0 <= j < frame_size && i >= 0) by (nonlinear_arith)
        requires
            frame_size > 0,
            k >= 0,
            i == k / frame_size,
            j == k % frame_size,
    ;
    assert(i < frame_count(pcm.len() as int, frame_size)) by (nonlinear_arith)
        requires
            frame_size > 0,
            k == i * frame_size + j,
            0 <= j < frame_size,
            k < pcm.len(),
    {
        assert(pcm.len() + frame_size - 1 >= (i + 1) * frame_size);
        assert(frame_count(pcm.len() as int, frame_size) == (pcm.len() + frame_size - 1)
            / frame_size);
    }
    let start = i * frame_size;
    let end = if start + frame_size <= pcm.len() { start + frame_size } else { pcm.len() as int };
    let sub = pcm.subrange(start, end);
    assert(sub[j] == pcm[k]);
}

/// Joining decoded frames keeps every sample of every frame, in order: joining nothing gives
/// nothing, joining one frame gives all of that frame, and joining two runs of frames gives the
/// first run's samples followed by the second's.
pub proof fn lemma_concat_frames_whole<T>(a: Seq<Vec<T>>, b: Seq<Vec<T>>, f: Vec<T>)
    ensures
        concat_all(Seq::<Vec<T>>::empty()) == Seq::<T>::empty(),
        concat_all(seq![f]) == f@,
        concat_all(a.push(f)) == concat_all(a) + f@,
        concat_all(a + b) == concat_all(a) + concat_all(b),
    decreases b.len(),
{
    assert(seq![f].drop_last() =~= Seq::<Vec<T>>::empty());
    assert(Seq::<T>::empty() + f@ =~= f@);
    assert(a.push(f).drop_last() =~= a);
    if b.len() == 0 {
        assert(a + b =~= a);
        assert(concat_all(a) + Seq::<T>::empty() =~= concat_all(a));
    } else {
        lemma_concat_frames_whole(a, b.drop_last(), f);
        assert((a + b).drop_last() =~= a + b.drop_last());
        assert((a + b).last() == b.last());
        assert(concat_all(a) + concat_all(b.drop_last()) + b.last()@ =~= concat_all(a) + (
        concat_all(b.drop_last()) + b.last()@));
    }
}

} // verus!
