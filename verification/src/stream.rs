use vstd::prelude::*;
use crate::converter::{fill_silence_from, spec_consumed, write_samples_from};
use ringbuf::traits::{Consumer, Observer, Producer, Split};
use ringbuf::{HeapCons, HeapProd, HeapRb};
use tokio::sync::mpsc::error::TrySendError;
use tokio::sync::mpsc::Sender;

verus! {

/// Capacity of the capture ring, in samples (about 20 ms of 48 kHz mono audio).
pub const BUFFER_CAPACITY: usize = 960;

#[verifier::external_type_specification]
#[verifier::external_body]
#[verifier::reject_recursive_types(T)]
pub struct ExSender<T>(Sender<T>);

/// The `ringbuf` writing half of a heap ring.
#[verifier::external_body]
#[verifier::reject_recursive_types(T)]
pub struct RingWriter<T> {
    inner: HeapProd<T>,
}

/// The `ringbuf` reading half of a heap ring.
#[verifier::external_body]
#[verifier::reject_recursive_types(T)]
pub struct RingReader<T> {
    inner: HeapCons<T>,
}

/// Writing half of a single-producer single-consumer sample ring, with the capacity the ring
/// was made with and, as a model, every sample this half has put into the ring, in order.
/// The reading half lives on another thread, so how full the ring is cannot be known here.
#[verifier::reject_recursive_types(T)]
pub struct SampleProducer<T> {
    ring: RingWriter<T>,
    capacity: usize,
    pushed: Ghost<Seq<T>>,
}

/// Reading half of a single-producer single-consumer sample ring, with the capacity the ring
/// was made with and, as a model, every sample that has left the ring through this half, in
/// order, and the oldest samples the ring was last seen to hold. Only this half removes
/// samples, so the ring keeps holding those at least, first, until this half takes them; the
/// writing half, on another thread, may add more behind them at any time.
#[verifier::reject_recursive_types(T)]
pub struct SampleConsumer<T> {
    ring: RingReader<T>,
    capacity: usize,
    taken: Ghost<Seq<T>>,
    seen: Ghost<Seq<T>>,
}

impl<T> SampleProducer<T> {
    /// Number of slots of the ring.
    pub closed spec fn capacity(&self) -> nat {
        self.capacity as nat
    }

    /// Every sample pushed into the ring through this half, oldest first.
    pub closed spec fn pushed(&self) -> Seq<T> {
        self.pushed@
    }
}

impl<T> SampleConsumer<T> {
    /// Number of slots of the ring.
    pub closed spec fn capacity(&self) -> nat {
        self.capacity as nat
    }

    /// Every sample that left the ring through this half, oldest first.
    pub closed spec fn taken(&self) -> Seq<T> {
        self.taken@
    }

    /// The oldest samples the ring is known to hold, oldest first.
    pub closed spec fn seen(&self) -> Seq<T> {
        self.seen@
    }
}

/// `after` is `before` followed by more samples.
pub open spec fn extends<T>(before: Seq<T>, after: Seq<T>) -> bool {
    before.len() <= after.len() && after.subrange(0, before.len() as int) == before
}

/// The samples that `after` adds behind `before`.
pub open spec fn added<T>(before: Seq<T>, after: Seq<T>) -> Seq<T> {
    after.subrange(before.len() as int, after.len() as int)
}

/// The smaller of two integers.
pub open spec fn min_int(a: int, b: int) -> int {
    if a < b { a } else { b }
}

/// What is known to be stored after `n` of the known samples `seen` left the ring.
pub open spec fn seen_after<T>(seen: Seq<T>, n: int) -> Seq<T> {
    if n <= seen.len() { seen.subrange(n, seen.len() as int) } else { Seq::empty() }
}

/// `ringbuf`'s `HeapRb::new` followed by `Split::split`: an empty ring of `capacity` slots and
/// its two halves, nothing pushed or taken yet. `HeapRb::new` panics on a zero capacity, hence
/// the precondition.
#[verifier::external_body]
fn ring_new<T>(capacity: usize) -> (r: (SampleProducer<T>, SampleConsumer<T>))
    requires
        capacity > 0,
    ensures
        r.0.capacity() == capacity,
        r.1.capacity() == capacity,
        r.0.pushed() == Seq::<T>::empty(),
        r.1.taken() == Seq::<T>::empty(),
        r.1.seen() == Seq::<T>::empty(),
{
    let (p, c) = HeapRb::<T>::new(capacity).split();
    (
        SampleProducer { ring: RingWriter { inner: p }, capacity, pushed: Ghost(Seq::empty()) },
        SampleConsumer { ring: RingReader { inner: c }, capacity, taken: Ghost(Seq::empty()), seen: Ghost(Seq::empty()) },
    )
}

/// `ringbuf`'s `Producer::push_slice`: copies the leading samples of `data` into the ring, as
/// many as there are vacant slots (`min(data.len(), vacant_len)`), and returns
/// how many. The number of stored samples never exceeds the number ever pushed, so when fewer
/// than `data.len()` go in, the ring is full and at least `capacity` samples have been pushed
/// in all. How much room there is otherwise depends on the consumer thread.
#[verifier::external_body]
fn ring_push_slice<T: Copy>(producer: &mut SampleProducer<T>, data: &[T]) -> (n: usize)
    ensures
        n <= data@.len(),
        final(producer).capacity() == old(producer).capacity(),
        final(producer).pushed() == old(producer).pushed() + data@.subrange(0, n as int),
        n < data@.len() ==> final(producer).pushed().len() >= old(producer).capacity(),
{
    producer.ring.inner.push_slice(data)
}

/// `ringbuf`'s `Observer::occupied_len` on the reading half: how many samples the ring holds,
/// at most its capacity. Only this half removes samples, so the count is at least what was
/// known stored before; the known samples now are that many, the earlier known ones first.
/// The producer thread may add more at any time.
#[verifier::external_body]
fn ring_occupied_len<T>(consumer: &mut SampleConsumer<T>) -> (n: usize)
    ensures
        n <= old(consumer).capacity(),
        n >= old(consumer).seen().len(),
        final(consumer).seen().len() == n,
        extends(old(consumer).seen(), final(consumer).seen()),
        final(consumer).taken() == old(consumer).taken(),
        final(consumer).capacity() == old(consumer).capacity(),
{
    consumer.ring.inner.occupied_len()
}

/// `ringbuf`'s `Consumer::pop_slice`: moves the oldest stored samples into the front of `buf`,
/// `min(buf.len(), stored)` of them, and returns how many; they leave the ring. So at least
/// as many as fit of the known stored samples come out, those first; `buf` past `n` is left
/// as it was. How many more come out depends on the producer thread.
#[verifier::external_body]
fn ring_pop_slice<T: Copy>(consumer: &mut SampleConsumer<T>, buf: &mut [T]) -> (n: usize)
    ensures
        n <= old(buf)@.len(),
        n >= min_int(old(buf)@.len() as int, old(consumer).seen().len() as int),
        final(buf)@.len() == old(buf)@.len(),
        forall|k: int| n <= k < old(buf)@.len() ==> #[trigger] final(buf)@[k] == old(buf)@[k],
        final(buf)@.subrange(0, min_int(n as int, old(consumer).seen().len() as int))
            == old(consumer).seen().subrange(0, min_int(n as int, old(consumer).seen().len() as int)),
        final(consumer).capacity() == old(consumer).capacity(),
        final(consumer).taken() == old(consumer).taken() + final(buf)@.subrange(0, n as int),
        final(consumer).seen() == seen_after(old(consumer).seen(), n as int),
{
    consumer.ring.inner.pop_slice(buf)
}

/// `ringbuf`'s `Consumer::skip`: drops the oldest `min(count, stored)` samples and returns how
/// many; they leave the ring. So at least as many as `count` allows of the known stored
/// samples leave, those first.
#[verifier::external_body]
fn ring_skip<T>(consumer: &mut SampleConsumer<T>, count: usize) -> (n: usize)
    ensures
        n <= count,
        n >= min_int(count as int, old(consumer).seen().len() as int),
        final(consumer).capacity() == old(consumer).capacity(),
        final(consumer).taken().len() == old(consumer).taken().len() + n,
        extends(old(consumer).taken(), final(consumer).taken()),
        added(old(consumer).taken(), final(consumer).taken()).subrange(
            0,
            min_int(n as int, old(consumer).seen().len() as int),
        ) == old(consumer).seen().subrange(0, min_int(n as int, old(consumer).seen().len() as int)),
        final(consumer).seen() == seen_after(old(consumer).seen(), n as int),
{
    consumer.ring.inner.skip(count)
}

/// `ringbuf`'s `Consumer::as_slices`: the stored samples, oldest first, as two slices (the
/// ring may wrap around): the known stored samples first, and at most the capacity in all.
#[verifier::external_body]
fn ring_as_slices<T>(consumer: &SampleConsumer<T>) -> (r: (&[T], &[T]))
    ensures
        consumer.seen().len() <= r.0@.len() + r.1@.len() <= consumer.capacity(),
        (r.0@ + r.1@).subrange(0, consumer.seen().len() as int) == consumer.seen(),
{
    consumer.ring.inner.as_slices()
}

/// The ring between the capture callback and the capture task: an empty ring of
/// `BUFFER_CAPACITY` samples, nothing pushed or taken yet.
pub fn input_ring<T>() -> (r: (SampleProducer<T>, SampleConsumer<T>))
    ensures
        r.0.capacity() == BUFFER_CAPACITY,
        r.1.capacity() == BUFFER_CAPACITY,
        r.0.pushed() == Seq::<T>::empty(),
        r.1.taken() == Seq::<T>::empty(),
{
    ring_new(BUFFER_CAPACITY)
}

/// The ring between the playback task and the output callback: an empty ring with room for
/// two frames, nothing pushed or taken yet.
pub fn output_ring<T>(frame_size: usize) -> (r: (SampleProducer<T>, SampleConsumer<T>))
    requires
        0 < frame_size * 2 <= usize::MAX,
    ensures
        r.0.capacity() == frame_size * 2,
        r.1.capacity() == frame_size * 2,
        r.0.pushed() == Seq::<T>::empty(),
        r.1.taken() == Seq::<T>::empty(),
{
    ring_new(frame_size * 2)
}

/// Pushes `data` into the ring until it is all in or the ring is full; the rest is dropped.
/// Returns how many samples went in: the leading `written` samples of `data`, in order. When
/// not all went in, the ring was full, so at least its capacity has been pushed in all.
pub fn push_samples<T: Copy>(producer: &mut SampleProducer<T>, data: &[T]) -> (written: usize)
    ensures
        written <= data@.len(),
        final(producer).capacity() == old(producer).capacity(),
        final(producer).pushed() == old(producer).pushed() + data@.subrange(0, written as int),
        written < data@.len() ==> final(producer).pushed().len() >= old(producer).capacity(),
{
    let mut written: usize = 0;
    let mut full = false;
    while written < data.len() && !full
        invariant
            written <= data@.len(),
            producer.capacity() == old(producer).capacity(),
            producer.pushed() == old(producer).pushed() + data@.subrange(0, written as int),
            full ==> producer.pushed().len() >= old(producer).capacity(),
        decreases data@.len() - written, if full { 0int } else { 1int },
    {
        let rest = vstd::slice::slice_subrange(data, written, data.len());
        let ghost before = producer.pushed();
        let n = ring_push_slice(producer, rest);
        if n == 0 {
            full = true;
        } else {
            proof {
                assert(data@.subrange(0, written as int) + rest@.subrange(0, n as int)
                    =~= data@.subrange(0, written + n));
            }
            written = written + n;
        }
        proof {
            assert(rest@.subrange(0, 0) =~= Seq::<T>::empty());
            assert(before + Seq::<T>::empty() =~= before);
        }
    }
    written
}

/// Takes every sample the ring holds at the moment of the call, oldest first (`fill` is only
/// used to size the scratch buffer). What comes back is exactly what left the ring, at most
/// its capacity: every sample known stored before the call and all others stored when it
/// looked, so afterwards no stored sample is known.
pub fn pop_available<T: Copy>(consumer: &mut SampleConsumer<T>, fill: T) -> (out: Vec<T>)
    ensures
        out@.len() <= old(consumer).capacity(),
        final(consumer).capacity() == old(consumer).capacity(),
        final(consumer).taken() == old(consumer).taken() + out@,
        extends(old(consumer).seen(), out@),
        final(consumer).seen().len() == 0,
{
    let available = ring_occupied_len(consumer);
    let mut buffer: Vec<T> = Vec::new();
    if available == 0 {
        proof {
            assert(consumer.taken() + buffer@ =~= consumer.taken());
            assert(old(consumer).seen().len() == 0);
            assert(buffer@.subrange(0, 0) =~= old(consumer).seen());
        }
        return buffer;
    }
    let mut k: usize = 0;
    while k < available
        invariant
            k <= available,
            buffer@.len() == k,
        decreases available - k,
    {
        buffer.push(fill);
        k = k + 1;
    }
    let ghost seen = consumer.seen();
    let read = ring_pop_slice(consumer, buffer.as_mut_slice());
    buffer.truncate(read);
    proof {
        assert(read == available);
        assert(buffer@ =~= seen);
        assert(seen.subrange(0, old(consumer).seen().len() as int) == old(consumer).seen());
        assert(seen.subrange(available as int, available as int) =~= Seq::<T>::empty());
    }
    buffer
}

/// Fills an interleaved output buffer of `channels` channels from the ring.
/// The ring is looked at once: the samples it then holds, up to one per frame of `out`, are
/// the ones played. An empty ring gives silence. When muted, the buffer is silenced and the
/// samples that would have played leave the ring unplayed. Otherwise each of those samples
/// becomes one frame whose channels all hold `convert` of it, in order, they leave the ring,
/// and the rest of the buffer is silenced. Returns the number of frames written from the ring.
pub fn render_output<S: Copy, D: Copy, F: Fn(S) -> D>(
    out: &mut [D],
    consumer: &mut SampleConsumer<S>,
    channels: usize,
    muted: bool,
    silence: D,
    convert: &F,
) -> (frames: usize)
    requires
        channels > 0,
        forall|s: S| #[trigger] convert.requires((s,)),
    ensures
        final(out)@.len() == old(out)@.len(),
        frames * channels <= old(out)@.len(),
        muted ==> frames == 0,
        final(consumer).capacity() == old(consumer).capacity(),
        extends(old(consumer).taken(), final(consumer).taken()),
        ({
            let left = added(old(consumer).taken(), final(consumer).taken());
            let per_channel = old(out)@.len() as int / channels as int;
            &&& left.len() <= per_channel
            &&& left.len() >= min_int(per_channel, old(consumer).seen().len() as int)
            &&& left.len() == per_channel || final(consumer).seen().len() == 0
            &&& left.subrange(0, min_int(left.len() as int, old(consumer).seen().len() as int))
                == old(consumer).seen().subrange(
                0,
                min_int(left.len() as int, old(consumer).seen().len() as int),
            )
            &&& !muted ==> left.len() == frames
            &&& forall|i: int|
                0 <= i < frames ==> convert.ensures((left[i],), #[trigger] final(out)@[i * channels])
        }),
        forall|i: int, c: int|
            0 <= i < frames && 0 <= c < channels ==> #[trigger] final(out)@[i * channels + c]
                == final(out)@[i * channels],
        forall|k: int|
            frames * channels <= k < final(out)@.len() ==> #[trigger] final(out)@[k] == silence,
{
    let olen = out.len();
    let per_channel = olen / channels;
    let ghost taken0 = consumer.taken();
    let stored = ring_occupied_len(consumer);
    let ghost seen = consumer.seen();
    let want = if per_channel < stored {
        per_channel
    } else {
        stored
    };
    assert(want * channels <= olen) by (nonlinear_arith)
        requires
            want <= per_channel,
            per_channel == olen / channels,
            channels > 0,
    ;
    if stored == 0 || muted {
        fill_silence_from(out, 0, silence);
        let n = ring_skip(consumer, want);
        proof {
            assert(n == want);
            assert(added(taken0, consumer.taken()).subrange(0, want as int) =~= seen.subrange(
                0,
                want as int,
            ));
        }
        return 0;
    }
    let (first, second) = ring_as_slices(consumer);
    let n1 = if first.len() < want {
        first.len()
    } else {
        want
    };
    let n2 = want - n1;
    proof {
        assert(n2 <= second@.len());
    }
    let part1 = vstd::slice::slice_subrange(first, 0, n1);
    let part2 = vstd::slice::slice_subrange(second, 0, n2);
    proof {
        assert(part1@ + part2@ =~= (first@ + second@).subrange(0, want as int));
        assert(seen.subrange(0, want as int) =~= (first@ + second@).subrange(0, want as int));
    }
    let c1 = write_samples_from(out, 0, part1, channels, convert);
    assert(c1 == n1) by (nonlinear_arith)
        requires
            c1 as int == spec_consumed(olen as int, channels as int, n1 as int),
            n1 <= want,
            want <= per_channel,
            per_channel as int == olen as int / channels as int,
            channels > 0,
    ;
    let ghost after1 = out@;
    let offset = n1 * channels;
    let c2 = write_samples_from(out, offset, part2, channels, convert);
    assert(c2 == n2) by (nonlinear_arith)
        requires
            c2 as int == spec_consumed(olen as int - offset as int, channels as int, n2 as int),
            offset as int == n1 as int * channels as int,
            n1 + n2 == want,
            want <= per_channel,
            per_channel as int == olen as int / channels as int,
            channels > 0,
    ;
    proof {
        assert forall|i: int, c: int|
            0 <= i < want && 0 <= c < channels implies #[trigger] out@[i * channels + c]
            == out@[i * channels] by {
            if i < n1 {
                assert(i * channels + c < n1 * channels) by (nonlinear_arith)
                    requires
                        i < n1,
                        c < channels,
                ;
                assert(i * channels >= 0) by (nonlinear_arith)
                    requires
                        i >= 0,
                        channels > 0,
                ;
                assert(out@[i * channels + c] == after1[i * channels + c]);
                assert(out@[i * channels] == after1[i * channels]);
                assert(after1[0 + i * channels + c] == after1[0 + i * channels]);
            } else {
                let j = i - n1;
                assert(offset + j * channels + c == i * channels + c) by (nonlinear_arith)
                    requires
                        offset == n1 * channels,
                        j == i - n1,
                ;
                assert(offset + j * channels == i * channels) by (nonlinear_arith)
                    requires
                        offset == n1 * channels,
                        j == i - n1,
                ;
            }
        }
        assert forall|i: int| 0 <= i < want implies convert.ensures(
            (seen[i],),
            #[trigger] out@[i * channels],
        ) by {
            assert(seen[i] == (part1@ + part2@)[i]);
            if i < n1 {
                assert(i * channels < n1 * channels) by (nonlinear_arith)
                    requires
                        i < n1,
                        channels > 0,
                ;
                assert(i * channels >= 0) by (nonlinear_arith)
                    requires
                        i >= 0,
                        channels > 0,
                ;
                assert(out@[i * channels] == after1[i * channels]);
                assert(convert.ensures((part1@[i],), after1[0 + i * channels]));
            } else {
                let j = i - n1;
                assert(offset + j * channels == i * channels) by (nonlinear_arith)
                    requires
                        offset == n1 * channels,
                        j == i - n1,
                ;
                assert(convert.ensures((part2@[j],), out@[offset + j * channels]));
            }
        }
    }
    let n = ring_skip(consumer, want);
    let ghost before_fill = out@;
    let end = want * channels;
    fill_silence_from(out, end, silence);
    proof {
        assert(n == want);
        let left = added(taken0, consumer.taken());
        assert(left =~= seen.subrange(0, want as int));
        assert forall|i: int, c: int|
            0 <= i < want && 0 <= c < channels implies #[trigger] out@[i * channels + c]
            == out@[i * channels] by {
            assert(i * channels + c < want * channels) by (nonlinear_arith)
                requires
                    i < want,
                    c < channels,
            ;
            assert(i * channels >= 0) by (nonlinear_arith)
                requires
                    i >= 0,
                    channels > 0,
            ;
            assert(out@[i * channels + c] == before_fill[i * channels + c]);
            assert(out@[i * channels] == before_fill[i * channels]);
        }
        assert forall|i: int| 0 <= i < want implies convert.ensures(
            (left[i],),
            #[trigger] out@[i * channels],
        ) by {
            assert(i * channels < want * channels) by (nonlinear_arith)
                requires
                    i < want,
                    channels > 0,
            ;
            assert(i * channels >= 0) by (nonlinear_arith)
                requires
                    i >= 0,
                    channels > 0,
            ;
            assert(out@[i * channels] == before_fill[i * channels]);
            assert(left[i] == seen[i]);
        }
    }
    want
}

} // verus!

verus! {

/// What `Sender::try_send` reported.
pub enum TrySendOutcome {
    Sent,
    Full,
    Closed,
}

/// Sending half of the capture frame channel (a tokio `mpsc::Sender`), with, as a model, the
/// log of every frame handed to `try_send` through it and what `try_send` reported, in order.
#[verifier::reject_recursive_types(T)]
pub struct FrameSender<T> {
    inner: Sender<Vec<T>>,
    log: Ghost<Seq<(Seq<T>, TrySendOutcome)>>,
}

impl<T> FrameSender<T> {
    /// Every frame handed to `try_send` so far, with what was reported, oldest first.
    pub closed spec fn log(&self) -> Seq<(Seq<T>, TrySendOutcome)> {
        self.log@
    }

    /// Wraps a channel sender; nothing has been handed to it yet.
    pub fn new(sender: Sender<Vec<T>>) -> (s: Self)
        ensures
            s.log() == Seq::<(Seq<T>, TrySendOutcome)>::empty(),
    {
        FrameSender { inner: sender, log: Ghost(Seq::empty()) }
    }
}

/// tokio's `mpsc::Sender::try_send`, its two errors told apart: the frame is handed over and
/// what was reported is logged behind it. Whether the channel has room or a receiver depends
/// on other tasks, so nothing is stated of the outcome itself.
#[verifier::external_body]
fn channel_try_send<T>(sender: &mut FrameSender<T>, frame: Vec<T>) -> (r: TrySendOutcome)
    ensures
        final(sender).log() == old(sender).log().push((frame@, r)),
{
    match sender.inner.try_send(frame) {
        Ok(()) => TrySendOutcome::Sent,
        Err(TrySendError::Full(_)) => TrySendOutcome::Full,
        Err(TrySendError::Closed(_)) => TrySendOutcome::Closed,
    }
}

/// How a round of sending whole frames ended.
pub enum EmitOutcome {
    /// Every whole frame was sent; fewer than a frame of samples remain.
    Drained,
    /// The channel was full: the frame in hand was dropped and the rest kept for later.
    Dropped,
    /// The receiver is gone: capturing should stop.
    ChannelClosed,
}

/// Frame `j` of a stream of samples cut into frames of `fs`.
pub open spec fn block<T>(samples: Seq<T>, fs: int, j: int) -> Seq<T> {
    samples.subrange(j * fs, (j + 1) * fs)
}

/// The capture frames so far agree with the samples collected: the frames handed to
/// `try_send` are the collected samples cut into whole frames, in order, and the samples not
/// handed over yet are the rest.
pub open spec fn capture_consistent<T>(
    collected: Seq<T>,
    pending: Seq<T>,
    log: Seq<(Seq<T>, TrySendOutcome)>,
    fs: int,
) -> bool {
    &&& log.len() * fs <= collected.len()
    &&& forall|j: int| 0 <= j < log.len() ==> #[trigger] log[j].0 == block(collected, fs, j)
    &&& pending == collected.subrange(log.len() * fs, collected.len() as int)
}

/// Handing the pending samples over as whole frames, in order, keeps the frames handed over in
/// agreement with the samples collected.
proof fn lemma_consistent_after_handing<T>(
    collected: Seq<T>,
    pending: Seq<T>,
    log0: Seq<(Seq<T>, TrySendOutcome)>,
    handed: Seq<(Seq<T>, TrySendOutcome)>,
    fs: int,
)
    requires
        fs > 0,
        capture_consistent(collected, pending, log0, fs),
        handed.len() * fs <= pending.len(),
        forall|j: int| 0 <= j < handed.len() ==> #[trigger] handed[j].0 == block(pending, fs, j),
    ensures
        capture_consistent(
            collected,
            pending.subrange(handed.len() * fs, pending.len() as int),
            log0 + handed,
            fs,
        ),
{
    let l0 = log0.len() as int;
    let h = handed.len() as int;
    let log = log0 + handed;
    assert((l0 + h) * fs == l0 * fs + h * fs) by (nonlinear_arith);
    assert forall|j: int| 0 <= j < log.len() implies #[trigger] log[j].0 == block(
        collected,
        fs,
        j,
    ) by {
        if j >= l0 {
            let i = j - l0;
            assert(log[j] == handed[i]);
            assert(j * fs == l0 * fs + i * fs) by (nonlinear_arith)
                requires
                    i == j - l0,
            ;
            assert((j + 1) * fs == l0 * fs + (i + 1) * fs) by (nonlinear_arith)
                requires
                    i == j - l0,
            ;
            assert((i + 1) * fs <= h * fs) by (nonlinear_arith)
                requires
                    i + 1 <= h,
                    fs > 0,
            ;
            assert(i * fs >= 0) by (nonlinear_arith)
                requires
                    i >= 0,
                    fs > 0,
            ;
            assert((i + 1) * fs == i * fs + fs) by (nonlinear_arith);
            assert((j + 1) * fs == j * fs + fs) by (nonlinear_arith);
            assert(pending == collected.subrange(l0 * fs, collected.len() as int));
            assert(l0 * fs + h * fs <= collected.len());
            assert forall|t: int| 0 <= t < fs implies #[trigger] block(pending, fs, i)[t] == block(
                collected,
                fs,
                j,
            )[t] by {
                assert(block(pending, fs, i)[t] == pending[i * fs + t]);
                assert(pending[i * fs + t] == collected[l0 * fs + i * fs + t]);
            }
            assert(block(pending, fs, i) =~= block(collected, fs, j));
        }
    }
    assert(pending.subrange(h * fs, pending.len() as int) =~= collected.subrange(
        (l0 + h) * fs,
        collected.len() as int,
    ));
}

/// The samples of every frame in `log`, joined in order.
pub open spec fn joined<T>(log: Seq<(Seq<T>, TrySendOutcome)>) -> Seq<T>
    decreases log.len(),
{
    if log.len() == 0 {
        Seq::empty()
    } else {
        joined(log.drop_last()) + log.last().0
    }
}

/// Capture law: while the frames handed to the channel agree with the samples collected,
/// every frame handed over holds exactly `fs` samples, and the frames handed over, joined and
/// followed by the samples still pending, are every sample collected, in order. A frame
/// reached the channel exactly when `Sent` was reported for it; the others were dropped.
pub proof fn lemma_capture_frames<T>(
    collected: Seq<T>,
    pending: Seq<T>,
    log: Seq<(Seq<T>, TrySendOutcome)>,
    fs: int,
)
    requires
        fs > 0,
        capture_consistent(collected, pending, log, fs),
    ensures
        forall|j: int| 0 <= j < log.len() ==> (#[trigger] log[j]).0.len() == fs,
        joined(log) + pending == collected,
    decreases log.len(),
{
    assert forall|j: int| 0 <= j < log.len() implies (#[trigger] log[j]).0.len() == fs by {
        assert(log[j].0 == block(collected, fs, j));
        assert((j + 1) * fs <= log.len() * fs) by (nonlinear_arith)
            requires
                j + 1 <= log.len(),
                fs > 0,
        ;
        assert(j * fs >= 0) by (nonlinear_arith)
            requires
                j >= 0,
                fs > 0,
        ;
        assert((j + 1) * fs == j * fs + fs) by (nonlinear_arith);
    }
    if log.len() > 0 {
        let l = log.len() as int;
        let prev = log.drop_last();
        let rest = collected.subrange((l - 1) * fs, collected.len() as int);
        assert((l - 1) * fs + fs == l * fs) by (nonlinear_arith);
        assert((l - 1) * fs >= 0) by (nonlinear_arith)
            requires
                l >= 1,
                fs > 0,
        ;
        assert(capture_consistent(collected, rest, prev, fs)) by {
            assert forall|j: int| 0 <= j < prev.len() implies #[trigger] prev[j].0 == block(
                collected,
                fs,
                j,
            ) by {
                assert(prev[j] == log[j]);
            }
        }
        lemma_capture_frames(collected, rest, prev, fs);
        assert(log.last().0 == block(collected, fs, l - 1));
        assert(rest =~= log.last().0 + pending);
        assert(joined(log) + pending =~= joined(prev) + rest);
    } else {
        assert(pending =~= collected);
        assert(joined(log) + pending =~= pending);
    }
}

/// Collects processed capture samples and cuts them into frames of a fixed size.
pub struct FrameAssembler<T> {
    pending: Vec<T>,
    frame_size: usize,
    collected: Ghost<Seq<T>>,
}

impl<T: Copy> FrameAssembler<T> {
    /// Samples collected and not yet cut into a frame.
    pub closed spec fn pending(&self) -> Seq<T> {
        self.pending@
    }

    /// Samples per frame.
    pub closed spec fn spec_frame_size(&self) -> usize {
        self.frame_size
    }

    /// Every sample collected so far, oldest first.
    pub closed spec fn collected(&self) -> Seq<T> {
        self.collected@
    }

    /// Whether the frames handed to `sender` are this assembler's samples cut into frames.
    pub open spec fn consistent_with(&self, sender: FrameSender<T>) -> bool {
        capture_consistent(
            self.collected(),
            self.pending(),
            sender.log(),
            self.spec_frame_size() as int,
        )
    }

    /// An assembler with nothing collected. A frame must hold at least one sample.
    pub fn new(frame_size: usize) -> (a: Self)
        requires
            frame_size > 0,
        ensures
            a.pending() == Seq::<T>::empty(),
            a.collected() == Seq::<T>::empty(),
            a.spec_frame_size() == frame_size,
    {
        FrameAssembler { pending: Vec::new(), frame_size, collected: Ghost(Seq::empty()) }
    }

    /// Appends samples behind the ones collected so far.
    pub fn push_samples(&mut self, data: &[T])
        ensures
            final(self).pending() == old(self).pending() + data@,
            final(self).collected() == old(self).collected() + data@,
            final(self).spec_frame_size() == old(self).spec_frame_size(),
            forall|sender: FrameSender<T>|
                old(self).consistent_with(sender) ==> #[trigger] final(self).consistent_with(
                    sender,
                ),
    {
        let ghost c0 = self.collected@;
        let ghost p0 = self.pending@;
        let mut i: usize = 0;
        while i < data.len()
            invariant
                i <= data@.len(),
                self.frame_size == old(self).frame_size,
                self.collected == old(self).collected,
                self.pending@ == old(self).pending@ + data@.subrange(0, i as int),
            decreases data@.len() - i,
        {
            self.pending.push(data[i]);
            proof {
                assert(data@.subrange(0, i as int).push(data@[i as int]) =~= data@.subrange(
                    0,
                    i + 1,
                ));
            }
            i = i + 1;
        }
        self.collected = Ghost(c0 + data@);
        proof {
            assert(data@.subrange(0, data@.len() as int) =~= data@);
            assert forall|sender: FrameSender<T>|
                old(self).consistent_with(sender) implies #[trigger] self.consistent_with(
                sender,
            ) by {
                let log = sender.log();
                let fs = self.frame_size as int;
                assert forall|j: int| 0 <= j < log.len() implies #[trigger] log[j].0 == block(
                    self.collected@,
                    fs,
                    j,
                ) by {
                    assert(log[j].0 == block(c0, fs, j));
                    assert((j + 1) * fs <= log.len() * fs) by (nonlinear_arith)
                        requires
                            j + 1 <= log.len(),
                            fs >= 0,
                    ;
                    assert(j * fs >= 0) by (nonlinear_arith)
                        requires
                            j >= 0,
                            fs >= 0,
                    ;
                    assert((j + 1) * fs <= c0.len());
                    assert((j + 1) * fs == j * fs + fs) by (nonlinear_arith);
                    assert(block(c0, fs, j) =~= block(c0 + data@, fs, j)) by {
                        assert forall|t: int| 0 <= t < fs implies #[trigger] block(c0, fs, j)[t]
                            == block(c0 + data@, fs, j)[t] by {
                            assert(j * fs + t < c0.len());
                        }
                    }
                }
                assert(self.pending@ =~= (c0 + data@).subrange(
                    log.len() * fs,
                    (c0 + data@).len() as int,
                ));
            }
        }
    }

    /// Cuts the oldest `frame_size` samples off as a frame, when that many are collected.
    pub fn take_frame(&mut self) -> (r: Option<Vec<T>>)
        requires
            old(self).spec_frame_size() > 0,
        ensures
            final(self).spec_frame_size() == old(self).spec_frame_size(),
            final(self).collected() == old(self).collected(),
            old(self).pending().len() < old(self).spec_frame_size() ==> {
                &&& r is None
                &&& final(self).pending() == old(self).pending()
            },
            old(self).pending().len() >= old(self).spec_frame_size() ==> {
                &&& r is Some
                &&& r->0@ == old(self).pending().subrange(0, old(self).spec_frame_size() as int)
                &&& final(self).pending() == old(self).pending().subrange(
                    old(self).spec_frame_size() as int,
                    old(self).pending().len() as int,
                )
            },
    {
        if self.pending.len() < self.frame_size {
            return None;
        }
        let mut frame = self.pending.split_off(self.frame_size);
        std::mem::swap(&mut frame, &mut self.pending);
        Some(frame)
    }

    /// Sends every whole frame collected, oldest first, with `try_send`: the frames handed over
    /// are the pending samples cut into frames, in order. Every one of them but the last was
    /// reported sent. It stops at the first full channel (that frame, the newest handed over,
    /// is dropped, and the samples behind it are kept) or closed channel; otherwise it sends
    /// until less than a frame remains. The agreement between the frames handed to `sender`
    /// and the samples collected is kept.
    pub fn emit_frames(&mut self, sender: &mut FrameSender<T>) -> (r: EmitOutcome)
        requires
            old(self).spec_frame_size() > 0,
        ensures
            final(self).spec_frame_size() == old(self).spec_frame_size(),
            final(self).collected() == old(self).collected(),
            extends(old(sender).log(), final(sender).log()),
            ({
                let handed = added(old(sender).log(), final(sender).log());
                let fs = old(self).spec_frame_size() as int;
                &&& handed.len() * fs <= old(self).pending().len()
                &&& forall|j: int|
                    0 <= j < handed.len() ==> #[trigger] handed[j].0 == block(
                        old(self).pending(),
                        fs,
                        j,
                    )
                &&& final(self).pending() == old(self).pending().subrange(
                    handed.len() * fs,
                    old(self).pending().len() as int,
                )
                &&& forall|j: int|
                    0 <= j < handed.len() - 1 ==> #[trigger] handed[j].1 == TrySendOutcome::Sent
                &&& match r {
                    EmitOutcome::Drained => {
                        &&& final(self).pending().len() < fs
                        &&& forall|j: int|
                            0 <= j < handed.len() ==> #[trigger] handed[j].1
                                == TrySendOutcome::Sent
                    },
                    EmitOutcome::Dropped => handed.len() >= 1 && handed.last().1
                        == TrySendOutcome::Full,
                    EmitOutcome::ChannelClosed => handed.len() >= 1 && handed.last().1
                        == TrySendOutcome::Closed,
                }
            }),
            old(self).consistent_with(*old(sender)) ==> final(self).consistent_with(
                *final(sender),
            ),
    {
        let ghost orig = self.pending@;
        let ghost log0 = sender.log();
        let ghost fs = self.frame_size as int;
        proof {
            assert(log0.subrange(0, log0.len() as int) =~= log0);
            assert(added(log0, log0) =~= Seq::<(Seq<T>, TrySendOutcome)>::empty());
            assert(orig.subrange(0, orig.len() as int) =~= orig);
        }
        while self.pending.len() >= self.frame_size
            invariant
                self.frame_size == fs,
                fs == old(self).frame_size,
                self.collected == old(self).collected,
                orig == old(self).pending@,
                log0 == old(sender).log(),
                fs > 0,
                extends(log0, sender.log()),
                added(log0, sender.log()).len() * fs <= orig.len(),
                forall|j: int|
                    0 <= j < added(log0, sender.log()).len() ==> #[trigger] added(
                        log0,
                        sender.log(),
                    )[j].0 == block(orig, fs, j),
                forall|j: int|
                    0 <= j < added(log0, sender.log()).len() ==> #[trigger] added(
                        log0,
                        sender.log(),
                    )[j].1 == TrySendOutcome::Sent,
                self.pending@ == orig.subrange(
                    added(log0, sender.log()).len() * fs,
                    orig.len() as int,
                ),
            decreases self.pending@.len(),
        {
            let ghost k: int = added(log0, sender.log()).len() as int;
            let ghost log_before = sender.log();
            let frame = self.take_frame();
            proof {
                assert(orig.subrange(k * fs, orig.len() as int).subrange(fs, orig.len() - k * fs)
                    =~= orig.subrange((k + 1) * fs, orig.len() as int)) by {
                    assert((k + 1) * fs == k * fs + fs) by (nonlinear_arith);
                }
                assert((k + 1) * fs == k * fs + fs) by (nonlinear_arith);
            }
            match frame {
                Some(f) => {
                    proof {
                        assert(f@ =~= block(orig, fs, k));
                    }
                    let outcome = channel_try_send(sender, f);
                    proof {
                        let a = added(log0, sender.log());
                        let b = added(log0, log_before);
                        assert(a =~= b.push((f@, outcome)));
                        assert(sender.log().subrange(0, log0.len() as int) =~= log0);
                        assert(a.len() == k + 1);
                        assert forall|j: int| 0 <= j < a.len() implies #[trigger] a[j].0 == block(
                            orig,
                            fs,
                            j,
                        ) by {
                            if j < k {
                                assert(a[j] == b[j]);
                            }
                        }
                    }
                    match outcome {
                        TrySendOutcome::Sent => {},
                        TrySendOutcome::Full => {
                            proof {
                                let a = added(log0, sender.log());
                                assert forall|j: int| 0 <= j < a.len() - 1 implies #[trigger] a[j].1
                                    == TrySendOutcome::Sent by {
                                    assert(a[j] == added(log0, log_before)[j]);
                                }
                                assert(log0 + a =~= sender.log());
                                if old(self).consistent_with(*old(sender)) {
                                    lemma_consistent_after_handing(
                                        self.collected@,
                                        orig,
                                        log0,
                                        a,
                                        fs,
                                    );
                                }
                            }
                            return EmitOutcome::Dropped;
                        },
                        TrySendOutcome::Closed => {
                            proof {
                                let a = added(log0, sender.log());
                                assert forall|j: int| 0 <= j < a.len() - 1 implies #[trigger] a[j].1
                                    == TrySendOutcome::Sent by {
                                    assert(a[j] == added(log0, log_before)[j]);
                                }
                                assert(log0 + a =~= sender.log());
                                if old(self).consistent_with(*old(sender)) {
                                    lemma_consistent_after_handing(
                                        self.collected@,
                                        orig,
                                        log0,
                                        a,
                                        fs,
                                    );
                                }
                            }
                            return EmitOutcome::ChannelClosed;
                        },
                    }
                    proof {
                        let a = added(log0, sender.log());
                        assert forall|j: int| 0 <= j < a.len() implies #[trigger] a[j].1
                            == TrySendOutcome::Sent by {
                            if j < k {
                                assert(a[j] == added(log0, log_before)[j]);
                            }
                        }
                    }
                },
                None => {
                    proof {
                        assert(false);
                    }
                },
            }
        }
        proof {
            let a = added(log0, sender.log());
            assert(log0 + a =~= sender.log());
            if old(self).consistent_with(*old(sender)) {
                lemma_consistent_after_handing(self.collected@, orig, log0, a, fs);
            }
        }
        EmitOutcome::Drained
    }
}

} // verus!
