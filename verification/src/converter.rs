use vstd::prelude::*;

verus! {

/// Number of source samples that fit, one per frame, into a buffer of `target_len`
/// interleaved samples with `channels` channels.
pub open spec fn spec_consumed(target_len: int, channels: int, source_len: int) -> int {
    let frames = target_len / channels;
    if frames < source_len { frames } else { source_len }
}

/// Writes one frame of `channels` interleaved samples into `target`, starting at sample
/// `start`, for each source sample, as many as fit; every channel of a frame holds `convert`
/// of that source sample, and samples outside the written frames are left as they were.
/// Returns the number of source samples consumed.
pub fn write_samples_from<S: Copy, D: Copy, F: Fn(S) -> D>(
    target: &mut [D],
    start: usize,
    source: &[S],
    channels: usize,
    convert: &F,
) -> (consumed: usize)
    requires
        channels > 0,
        start <= old(target)@.len(),
        forall|s: S| #[trigger] convert.requires((s,)),
    ensures
        consumed as int == spec_consumed(
            old(target)@.len() - start,
            channels as int,
            source@.len() as int,
        ),
        final(target)@.len() == old(target)@.len(),
        start + consumed * channels <= old(target)@.len(),
        forall|i: int, c: int|
            0 <= i < consumed && 0 <= c < channels ==> #[trigger] final(target)@[start + i * channels
                + c] == final(target)@[start + i * channels],
        forall|i: int|
            0 <= i < consumed ==> convert.ensures(
                (source@[i],),
                #[trigger] final(target)@[start + i * channels],
            ),
        forall|k: int|
            0 <= k < start || start + consumed * channels <= k < old(target)@.len()
                ==> #[trigger] final(target)@[k] == old(target)@[k],
{
    let tlen = target.len();
    let avail = tlen - start;
    let frames = avail / channels;
    let consumed = if frames < source.len() {
        frames
    } else {
        source.len()
    };
    assert(consumed * channels <= avail) by (nonlinear_arith)
        requires
            consumed as int <= (avail as int) / (channels as int),
            channels > 0,
    ;
    let ghost orig = target@;
    let mut i: usize = 0;
    while i < consumed
        invariant
            i <= consumed,
            orig.len() == tlen,
            avail == tlen - start,
            consumed * channels <= avail,
            target@.len() == orig.len(),
            consumed <= source@.len(),
            channels > 0,
            forall|s: S| #[trigger] convert.requires((s,)),
            forall|a: int, c: int|
                0 <= a < i && 0 <= c < channels ==> #[trigger] target@[start + a * channels + c]
                    == target@[start + a * channels],
            forall|a: int|
                0 <= a < i ==> convert.ensures(
                    (source@[a],),
                    #[trigger] target@[start + a * channels],
                ),
            forall|k: int|
                0 <= k < start || start + i * channels <= k < orig.len() ==> #[trigger] target@[k]
                    == orig[k],
        decreases consumed - i,
    {
        let v = convert(source[i]);
        assert((i + 1) * channels <= consumed * channels) by (nonlinear_arith)
            requires
                i < consumed,
                channels > 0,
        ;
        assert(i * channels + channels == (i + 1) * channels) by (nonlinear_arith);
        assert(i * channels <= (i + 1) * channels) by (nonlinear_arith)
            requires
                channels > 0,
                i >= 0,
        ;
        let base = start + i * channels;
        let ghost before = target@;
        let mut c: usize = 0;
        while c < channels
            invariant
                c <= channels,
                base == start + i * channels,
                base + channels <= orig.len(),
                target@.len() == orig.len(),
                forall|k: int| 0 <= k < base ==> #[trigger] target@[k] == before[k],
                forall|k: int| base + channels <= k < orig.len() ==> #[trigger] target@[k] == before[k],
                forall|k: int| base <= k < base + c ==> #[trigger] target@[k] == v,
            decreases channels - c,
        {
            target[base + c] = v;
            c = c + 1;
        }
        proof {
            assert forall|a: int, cc: int|
                0 <= a < i + 1 && 0 <= cc < channels implies #[trigger] target@[start + a * channels
                + cc] == target@[start + a * channels] by {
                if a < i {
                    assert(a * channels + cc < i * channels) by (nonlinear_arith)
                        requires
                            a < i,
                            cc < channels,
                    ;
                    assert(a * channels >= 0) by (nonlinear_arith)
                        requires
                            a >= 0,
                            channels > 0,
                    ;
                } else {
                    assert(a == i);
                }
            }
            assert forall|a: int|
                0 <= a < i + 1 implies convert.ensures(
                (source@[a],),
                #[trigger] target@[start + a * channels],
            ) by {
                if a < i {
                    assert(a * channels < i * channels) by (nonlinear_arith)
                        requires
                            a < i,
                            channels > 0,
                    ;
                    assert(a * channels >= 0) by (nonlinear_arith)
                        requires
                            a >= 0,
                            channels > 0,
                    ;
                    assert(target@[start + a * channels] == before[start + a * channels]);
                } else {
                    assert(target@[start + a * channels] == v);
                }
            }
        }
        i = i + 1;
    }
    consumed
}

/// Writes one frame of `channels` interleaved samples into `target` for each source sample,
/// as many as fit, every channel of a frame holding `convert` of that source sample; samples
/// of `target` past the written frames are left as they were. Returns the number of source
/// samples consumed.
pub fn write_samples<S: Copy, D: Copy, F: Fn(S) -> D>(
    target: &mut [D],
    source: &[S],
    channels: usize,
    convert: &F,
) -> (consumed: usize)
    requires
        channels > 0,
        forall|s: S| #[trigger] convert.requires((s,)),
    ensures
        consumed as int == spec_consumed(
            old(target)@.len() as int,
            channels as int,
            source@.len() as int,
        ),
        final(target)@.len() == old(target)@.len(),
        consumed * channels <= old(target)@.len(),
        forall|i: int, c: int|
            0 <= i < consumed && 0 <= c < channels ==> #[trigger] final(target)@[i * channels + c]
                == final(target)@[i * channels],
        forall|i: int|
            0 <= i < consumed ==> convert.ensures((source@[i],), #[trigger] final(target)@[i * channels]),
        forall|k: int|
            consumed * channels <= k < old(target)@.len() ==> #[trigger] final(target)@[k] == old(
                target,
            )@[k],
{
    let consumed = write_samples_from(target, 0, source, channels, convert);
    proof {
        assert forall|i: int, c: int|
            0 <= i < consumed && 0 <= c < channels implies #[trigger] target@[i * channels + c]
            == target@[i * channels] by {
            assert(target@[0 + i * channels + c] == target@[0 + i * channels]);
        }
        assert forall|i: int|
            0 <= i < consumed implies convert.ensures((source@[i],), #[trigger] target@[i * channels]) by {
            assert(convert.ensures((source@[i],), target@[0 + i * channels]));
        }
    }
    consumed
}

/// Sets every sample from `start` to the end of the buffer to the silence sample.
pub fn fill_silence_from<T: Copy>(target: &mut [T], start: usize, silence: T)
    ensures
        final(target)@.len() == old(target)@.len(),
        forall|k: int| 0 <= k < start && k < old(target)@.len() ==> #[trigger] final(target)@[k] == old(target)@[k],
        forall|k: int| start <= k < final(target)@.len() ==> #[trigger] final(target)@[k] == silence,
{
    let mut k: usize = start;
    while k < target.len()
        invariant
            start <= k,
            target@.len() == old(target)@.len(),
            forall|j: int| 0 <= j < start && j < old(target)@.len() ==> #[trigger] target@[j] == old(target)@[j],
            forall|j: int| start <= j < k && j < target@.len() ==> #[trigger] target@[j] == silence,
        decreases target@.len() - k,
    {
        target[k] = silence;
        k = k + 1;
    }
}

/// Fills the whole buffer with the silence sample.
pub fn fill_silence<T: Copy>(target: &mut [T], silence: T)
    ensures
        final(target)@.len() == old(target)@.len(),
        forall|k: int| 0 <= k < final(target)@.len() ==> #[trigger] final(target)@[k] == silence,
{
    let mut k: usize = 0;
    while k < target.len()
        invariant
            k <= target@.len(),
            target@.len() == old(target)@.len(),
            forall|j: int| 0 <= j < k ==> #[trigger] target@[j] == silence,
        decreases target@.len() - k,
    {
        target[k] = silence;
        k = k + 1;
    }
}

} // verus!

verus! {

/// `v` is a value that `combine` may give for frame `i` (the `channels` samples starting at
/// `i * channels`) of `data`.
pub open spec fn combined_frame<T, U, F: Fn(&[T]) -> U>(
    data: Seq<T>,
    channels: int,
    combine: F,
    i: int,
    v: U,
) -> bool {
    exists|s: &[T]|
        #![trigger combine.ensures((s,), v)]
        s@ == data.subrange(i * channels, i * channels + channels) && combine.ensures((s,), v)
}

/// Groups interleaved samples into frames of `channels` samples (a trailing partial frame is
/// ignored) and combines each frame into one mono value with `combine`.
pub fn convert_to_mono<T: Copy, U, F: Fn(&[T]) -> U>(data: &[T], channels: usize, combine: F) -> (out:
    Vec<U>)
    requires
        channels > 0,
        forall|s: &[T]| #[trigger] combine.requires((s,)),
    ensures
        out@.len() == (data@.len() as int) / (channels as int),
        forall|i: int|
            0 <= i < out@.len() ==> combined_frame(data@, channels as int, combine, i, #[trigger] out@[i]),
{
    let dlen = data.len();
    let frame_count = dlen / channels;
    let mut out: Vec<U> = Vec::new();
    let mut i: usize = 0;
    while i < frame_count
        invariant
            i <= frame_count,
            data@.len() == dlen,
            frame_count == (data@.len() as int) / (channels as int),
            channels > 0,
            out@.len() == i,
            forall|s: &[T]| #[trigger] combine.requires((s,)),
            forall|a: int|
                0 <= a < i ==> combined_frame(data@, channels as int, combine, a, #[trigger] out@[a]),
        decreases frame_count - i,
    {
        assert((i + 1) * channels <= frame_count * channels) by (nonlinear_arith)
            requires
                i < frame_count,
                channels > 0,
        ;
        assert(frame_count * channels <= data@.len()) by (nonlinear_arith)
            requires
                frame_count == (data@.len() as int) / (channels as int),
                channels > 0,
        ;
        assert(i * channels + channels == (i + 1) * channels) by (nonlinear_arith);
        assert(i * channels <= (i + 1) * channels) by (nonlinear_arith)
            requires
                channels > 0,
                i >= 0,
        ;
        let start = i * channels;
        let frame = &data[start..start + channels];
        let v = combine(frame);
        let ghost before = out@;
        out.push(v);
        proof {
            assert(frame@ == data@.subrange(i * channels, i * channels + channels));
            assert(combined_frame(data@, channels as int, combine, i as int, v));
            assert forall|a: int|
                0 <= a < i + 1 implies combined_frame(data@, channels as int, combine, a, #[trigger] out@[a]) by {
                if a < i {
                    assert(out@[a] == before[a]);
                }
            }
        }
        i = i + 1;
    }
    out
}

} // verus!
