use vstd::prelude::*;
use std::collections::HashMap;
use std::collections::VecDeque;
use vstd::std_specs::iter::IteratorSpec;

verus! {

/// Pending frames of the sources: for each source with frames waiting, its frames, oldest
/// first.
pub type Pending<T> = Map<usize, Seq<Vec<T>>>;

/// Finitely many sources are pending, and none with an empty queue.
pub open spec fn pending_wf<T>(p: Pending<T>) -> bool {
    &&& p.dom().finite()
    &&& forall|id: usize| #[trigger] p.contains_key(id) ==> p[id].len() > 0
}

/// The frames pending for source `id`, oldest first (empty when it has none).
pub open spec fn queue_of<T>(p: Pending<T>, id: usize) -> Seq<Vec<T>> {
    if p.contains_key(id) {
        p[id]
    } else {
        Seq::empty()
    }
}

/// The pending queues after `frame` was submitted by source `id`: appended to its queue.
pub open spec fn spec_submit<T>(p: Pending<T>, id: usize, frame: Vec<T>) -> Pending<T> {
    p.insert(id, queue_of(p, id).push(frame))
}

/// `ids` and `frames` are a round taken from `p`: every source with pending frames once, in
/// some order, each beside its oldest frame.
pub open spec fn is_round<T>(p: Pending<T>, ids: Seq<usize>, frames: Seq<Vec<T>>) -> bool {
    &&& ids.no_duplicates()
    &&& ids.len() == frames.len()
    &&& ids.to_set() == p.dom()
    &&& forall|i: int| 0 <= i < ids.len() ==> #[trigger] frames[i] == p[ids[i]][0]
}

/// The pending queues after one frame was taken from every source; queues that became empty
/// are dropped.
pub open spec fn after_round<T>(p: Pending<T>) -> Pending<T> {
    Map::new(|id: usize| p.contains_key(id) && p[id].len() > 1, |id: usize| p[id].drop_first())
}

/// `frame` padded with `fill` or truncated so that it holds exactly `frame_size` samples.
pub open spec fn spec_normalize<T>(frame: Seq<T>, frame_size: int, fill: T) -> Seq<T> {
    if frame.len() < frame_size {
        frame + Seq::new((frame_size - frame.len()) as nat, |i: int| fill)
    } else {
        frame.subrange(0, frame_size)
    }
}

/// Pads `frame` with `fill` up to `frame_size` samples, or cuts it down to `frame_size`.
pub fn normalize_frame<T: Copy>(frame: Vec<T>, frame_size: usize, fill: T) -> (r: Vec<T>)
    ensures
        r@ == spec_normalize(frame@, frame_size as int, fill),
        r@.len() == frame_size,
{
    let mut frame = frame;
    if frame.len() < frame_size {
        let ghost orig = frame@;
        while frame.len() < frame_size
            invariant
                orig.len() <= frame@.len() <= frame_size,
                frame@ == orig + Seq::new((frame@.len() - orig.len()) as nat, |i: int| fill),
            decreases frame_size - frame@.len(),
        {
            frame.push(fill);
            proof {
                assert(frame@ =~= orig + Seq::new(
                    (frame@.len() - orig.len()) as nat,
                    |i: int| fill,
                ));
            }
        }
    } else if frame.len() > frame_size {
        frame.truncate(frame_size);
    } else {
        proof {
            assert(frame@.subrange(0, frame_size as int) =~= frame@);
        }
    }
    frame
}

/// Frames waiting to be mixed, one first-in first-out queue per source, keyed by source id.
pub struct MixerQueues<T> {
    map: HashMap<usize, VecDeque<Vec<T>>>,
}

impl<T> View for MixerQueues<T> {
    type V = Pending<T>;

    closed spec fn view(&self) -> Pending<T> {
        self.map@.map_values(|q: VecDeque<Vec<T>>| q@)
    }
}

/// The queues part-way through a round: the sources in `done` have lost their oldest frame
/// (and are gone when nothing was left), the others are as in `p`.
pub open spec fn part_round<T>(p: Pending<T>, done: Set<usize>) -> Pending<T> {
    Map::new(
        |id: usize| p.contains_key(id) && (done.contains(id) ==> p[id].len() > 1),
        |id: usize|
            if done.contains(id) {
                p[id].drop_first()
            } else {
                p[id]
            },
    )
}

impl<T> MixerQueues<T> {
    /// No queue is empty.
    pub open spec fn wf(&self) -> bool {
        pending_wf(self@)
    }

    /// Creates an empty set of queues.
    pub fn new() -> (q: Self)
        ensures
            q.wf(),
            q@ == Map::<usize, Seq<Vec<T>>>::empty(),
    {
        let q = MixerQueues { map: HashMap::new() };
        proof {
            assert(q@ =~= Map::<usize, Seq<Vec<T>>>::empty());
        }
        q
    }

    /// Whether no frame is pending.
    pub fn is_empty(&self) -> (b: bool)
        ensures
            b <==> self@.dom().len() == 0,
            b <==> self@ == Map::<usize, Seq<Vec<T>>>::empty(),
    {
        proof {
            assert(self@.dom() =~= self.map@.dom());
            if self.map@.dom().len() == 0 && self.map@.dom().finite() {
                assert(self@ =~= Map::<usize, Seq<Vec<T>>>::empty());
            }
        }
        self.map.is_empty()
    }

    /// Queues `frame` behind the earlier frames of source `source_id`.
    pub fn submit(&mut self, source_id: usize, frame: Vec<T>)
        requires
            old(self).wf(),
        ensures
            final(self).wf(),
            final(self)@ == spec_submit(old(self)@, source_id, frame),
    {
        broadcast use vstd::std_specs::hash::group_hash_axioms;

        let ghost p = self@;
        let mut q = match self.map.remove(&source_id) {
            Some(q) => q,
            None => VecDeque::new(),
        };
        proof {
            assert(q@ == queue_of(p, source_id));
        }
        q.push_back(frame);
        let _ = self.map.insert(source_id, q);
        proof {
            assert(self@ =~= spec_submit(p, source_id, frame));
            assert(self@.dom() =~= p.dom().insert(source_id));
        }
    }

    /// Takes the oldest frame of every source, each source once in some order, with the source
    /// ids beside them; sources whose queue became empty are dropped.
    pub fn pop_round(&mut self) -> (r: (Vec<Vec<T>>, Vec<usize>))
        requires
            old(self).wf(),
        ensures
            final(self).wf(),
            is_round(old(self)@, r.1@, r.0@),
            final(self)@ == after_round(old(self)@),
    {
        broadcast use vstd::std_specs::hash::group_hash_axioms;

        let ghost p = self@;
        let mut keys: Vec<usize> = Vec::new();
        let key_iter = self.map.keys();
        let ghost all = key_iter.remaining();
        for k in it: key_iter
            invariant
                all == it.seq(),
                all.unref().to_set() == self.map@.dom(),
                all.no_duplicates(),
                keys@ == all.take(it.index() as int).unref(),
        {
            keys.push(*k);
            proof {
                assert(all.take(it.index() + 1).unref() =~= all.take(it.index() as int).unref().push(
                    *all[it.index() as int],
                ));
            }
        }
        proof {
            assert(keys@ =~= all.unref());
            assert(keys@.no_duplicates()) by {
                assert forall|a: int, b: int|
                    0 <= a < keys@.len() && 0 <= b < keys@.len() && a != b implies keys@[a]
                    != keys@[b] by {
                    assert(all[a] != all[b]);
                }
            }
            assert(keys@.to_set() =~= p.dom());
        }
        let mut frames: Vec<Vec<T>> = Vec::new();
        let mut ids: Vec<usize> = Vec::new();
        let mut i: usize = 0;
        proof {
            assert(keys@.take(0).to_set() =~= Set::<usize>::empty());
            assert(self@ =~= part_round(p, Set::<usize>::empty()));
        }
        while i < keys.len()
            invariant
                pending_wf(p),
                i <= keys@.len(),
                keys@.no_duplicates(),
                keys@.to_set() == p.dom(),
                ids@ == keys@.take(i as int),
                frames@.len() == i,
                forall|k: int| 0 <= k < i ==> #[trigger] frames@[k] == p[keys@[k]][0],
                self@ == part_round(p, keys@.take(i as int).to_set()),
            decreases keys@.len() - i,
        {
            let id = keys[i];
            let ghost done = keys@.take(i as int).to_set();
            proof {
                assert(keys@.to_set().contains(id));
                assert(!done.contains(id)) by {
                    if done.contains(id) {
                        let k = choose|k: int| 0 <= k < i && keys@.take(i as int)[k] == id;
                        assert(keys@[k] == keys@[i as int]);
                    }
                }
                assert(self@.contains_key(id));
                assert(self@[id] == p[id]);
            }
            let ghost before_view = self@;
            let removed = self.map.remove(&id);
            proof {
                assert(self@ =~= before_view.remove(id));
            }
            match removed {
                Some(mut q) => {
                    proof {
                        assert(q@ == p[id]);
                    }
                    let first = q.pop_front();
                    match first {
                        Some(f) => {
                            frames.push(f);
                            ids.push(id);
                        },
                        None => {
                            proof {
                                assert(false);
                            }
                        },
                    }
                    let ghost rest = q@;
                    proof {
                        assert(rest =~= p[id].drop_first());
                    }
                    if q.len() > 0 {
                        let _ = self.map.insert(id, q);
                        proof {
                            assert(self@ =~= before_view.insert(id, rest));
                        }
                    }
                },
                None => {
                    proof {
                        assert(false);
                    }
                },
            }
            proof {
                let done2 = keys@.take(i + 1).to_set();
                assert(keys@.take(i + 1) =~= keys@.take(i as int).push(id));
                keys@.take(i as int).lemma_push_to_set_commute(id);
                assert(done2 =~= done.insert(id));
                let target = part_round(p, done2);
                if p[id].len() > 1 {
                    assert(self@ =~= before_view.insert(id, p[id].drop_first()));
                    assert forall|x: usize| #[trigger] target.contains_key(x) <==> self@.contains_key(x) by {}
                    assert(self@ =~= target);
                } else {
                    assert(self@ =~= before_view.remove(id));
                    assert(self@ =~= target);
                }
                assert(ids@ =~= keys@.take(i + 1));
            }
            i = i + 1;
        }
        proof {
            assert(keys@.take(keys@.len() as int) =~= keys@);
            assert(self@ =~= after_round(p));
            assert(ids@ =~= keys@);
            lemma_after_round_wf(p);
        }
        (frames, ids)
    }
}

/// Taking a round keeps the queues well formed, and every source left in them was there before.
pub proof fn lemma_after_round_wf<T>(p: Pending<T>)
    requires
        pending_wf(p),
    ensures
        pending_wf(after_round(p)),
        after_round(p).dom().subset_of(p.dom()),
{
    vstd::set_lib::lemma_set_subset_finite(p.dom(), after_round(p).dom());
}

} // verus!

verus! {

/// `x` raised to at least one.
pub open spec fn at_least_one(x: int) -> int {
    if x < 1 { 1 } else { x }
}

/// Length of one mixer tick, split into whole seconds and nanoseconds: `frame_size` samples at
/// `source_sample_rate` Hz, both taken as at least one, rounded to the nearest nanosecond
/// (halves up).
pub fn frame_duration(frame_size: usize, source_sample_rate: u32) -> (d: (u64, u32))
    ensures
        d.1 < 1_000_000_000,
        d.0 as int * 1_000_000_000 + d.1 as int == (2 * at_least_one(frame_size as int)
            * 1_000_000_000 + at_least_one(source_sample_rate as int)) / (2 * at_least_one(
            source_sample_rate as int,
        )),
{
    let sample_rate: u64 = if source_sample_rate < 1 {
        1
    } else {
        source_sample_rate as u64
    };
    let frames: u64 = if frame_size < 1 {
        1
    } else {
        frame_size as u64
    };
    let secs = frames / sample_rate;
    let rem = frames % sample_rate;
    assert(2 * rem * 1_000_000_000 + sample_rate < 2 * sample_rate * 1_000_000_000 + sample_rate)
        by (nonlinear_arith)
        requires
            rem < sample_rate,
    ;
    assert(2 * sample_rate * 1_000_000_000 + sample_rate <= 0xffff_ffffint * 2_000_000_001)
        by (nonlinear_arith)
        requires
            sample_rate <= 0xffff_ffff,
    ;
    let rounded = (2 * rem * 1_000_000_000 + sample_rate) / (2 * sample_rate);
    let rest = (2 * rem * 1_000_000_000 + sample_rate) % (2 * sample_rate);
    assert(rounded <= 1_000_000_000) by (nonlinear_arith)
        requires
            rounded as int == (2 * rem as int * 1_000_000_000 + sample_rate as int) / (2
                * sample_rate as int),
            rem < sample_rate,
            sample_rate > 0,
    ;
    proof {
        let x = 2 * frames as int * 1_000_000_000 + sample_rate as int;
        let dd = 2 * sample_rate as int;
        vstd::arithmetic::div_mod::lemma_fundamental_div_mod(frames as int, sample_rate as int);
        vstd::arithmetic::div_mod::lemma_fundamental_div_mod(
            2 * rem as int * 1_000_000_000 + sample_rate as int,
            dd,
        );
        assert(frames as int == secs as int * sample_rate as int + rem as int) by (nonlinear_arith)
            requires
                frames as int == sample_rate as int * secs as int + rem as int,
        ;
        assert(2 * rem as int * 1_000_000_000 + sample_rate as int == rounded as int * dd
            + rest as int) by (nonlinear_arith)
            requires
                2 * rem as int * 1_000_000_000 + sample_rate as int == dd * rounded as int
                    + rest as int,
        ;
        assert(x == (secs as int * 1_000_000_000 + rounded as int) * dd + rest as int)
            by (nonlinear_arith)
            requires
                x == 2 * frames as int * 1_000_000_000 + sample_rate as int,
                dd == 2 * sample_rate as int,
                frames as int == secs as int * sample_rate as int + rem as int,
                2 * rem as int * 1_000_000_000 + sample_rate as int == rounded as int * dd
                    + rest as int,
        ;
        vstd::arithmetic::div_mod::lemma_fundamental_div_mod_converse(
            x,
            dd,
            secs as int * 1_000_000_000 + rounded as int,
            rest as int,
        );
    }
    if rounded == 1_000_000_000 {
        assert(rem > 0 && sample_rate > 1) by {
            if rem == 0 {
                assert(sample_rate as int / (2 * sample_rate as int) == 0) by (nonlinear_arith)
                    requires
                        sample_rate > 0,
                ;
            }
        }
        assert(secs < frames) by (nonlinear_arith)
            requires
                frames as int == secs as int * sample_rate as int + rem as int,
                sample_rate > 1,
                rem > 0,
        ;
        (secs + 1, 0)
    } else {
        (secs, rounded as u32)
    }
}

} // verus!

verus! {

/// Volume and mute state of each mixer source, keyed by source id; a source that never changed
/// them plays at the default volume, unmuted.
pub struct SourceStates<V> {
    map: HashMap<usize, (V, bool)>,
    default_volume: V,
}

impl<V: Copy> SourceStates<V> {
    /// The `(volume, muted)` settings stored per source.
    pub closed spec fn entries(&self) -> Map<usize, (V, bool)> {
        self.map@
    }

    /// The volume of a source that never set one.
    pub closed spec fn default_volume(&self) -> V {
        self.default_volume
    }

    /// Settings of source `id`.
    pub open spec fn state_of(&self, id: usize) -> (V, bool) {
        if self.entries().contains_key(id) {
            self.entries()[id]
        } else {
            (self.default_volume(), false)
        }
    }

    /// Creates the settings with no source changed yet.
    pub fn new(default_volume: V) -> (s: Self)
        ensures
            s.default_volume() == default_volume,
            forall|id: usize| #[trigger] s.state_of(id) == (default_volume, false),
    {
        SourceStates { map: HashMap::new(), default_volume }
    }

    /// Sets the volume of source `id`, keeping its mute state.
    pub fn set_volume(&mut self, id: usize, volume: V)
        ensures
            final(self).default_volume() == old(self).default_volume(),
            final(self).state_of(id) == (volume, old(self).state_of(id).1),
            forall|x: usize| x != id ==> #[trigger] final(self).state_of(x) == old(self).state_of(x),
    {
        broadcast use vstd::std_specs::hash::group_hash_axioms;

        let muted = self.get(id).1;
        let _ = self.map.insert(id, (volume, muted));
    }

    /// Sets the mute state of source `id`, keeping its volume.
    pub fn set_muted(&mut self, id: usize, muted: bool)
        ensures
            final(self).default_volume() == old(self).default_volume(),
            final(self).state_of(id) == (old(self).state_of(id).0, muted),
            forall|x: usize| x != id ==> #[trigger] final(self).state_of(x) == old(self).state_of(x),
    {
        broadcast use vstd::std_specs::hash::group_hash_axioms;

        let volume = self.get(id).0;
        let _ = self.map.insert(id, (volume, muted));
    }

    /// The `(volume, muted)` settings of source `id`.
    pub fn get(&self, id: usize) -> (r: (V, bool))
        ensures
            r == self.state_of(id),
    {
        broadcast use vstd::std_specs::hash::group_hash_axioms;

        match self.map.get(&id) {
            Some(state) => *state,
            None => (self.default_volume, false),
        }
    }
}

} // verus!

verus! {

/// Every pending frame holds exactly `frame_size` samples.
pub open spec fn frames_sized<T>(p: Pending<T>, frame_size: int) -> bool {
    forall|id: usize, j: int|
        p.contains_key(id) && 0 <= j < p[id].len() ==> #[trigger] p[id][j]@.len() == frame_size
}

/// A command to the mixer: a frame for a source, or a change of a source's settings.
pub enum MixerCommand<T, V> {
    Submit { source_id: usize, frame: Vec<T> },
    SetVolume { source_id: usize, volume: V },
    SetMuted { source_id: usize, muted: bool },
}

/// What the mixer does on a tick.
pub enum MixerTick<T, V> {
    /// Mix these frames (the oldest of every source), taken from the sources `source_ids`,
    /// whose `(volume, muted)` settings are `states`, all three in the same order.
    Mix { frames: Vec<Vec<T>>, source_ids: Vec<usize>, states: Vec<(V, bool)> },
    /// Nothing is pending; wait for the next tick.
    Idle,
    /// Nothing is pending and no more commands can come: stop.
    Finish,
}

/// The mixer's state between ticks: the frames queued per source, the settings of each source,
/// and whether the command channel has closed.
pub struct MixerCore<T, V> {
    queues: MixerQueues<T>,
    states: SourceStates<V>,
    frame_size: usize,
    silence: T,
    command_closed: bool,
}

impl<T: Copy, V: Copy> MixerCore<T, V> {
    /// Frames waiting to be mixed.
    pub closed spec fn pending(&self) -> Pending<T> {
        self.queues@
    }

    /// Settings of source `id`.
    pub closed spec fn state_of(&self, id: usize) -> (V, bool) {
        self.states.state_of(id)
    }

    /// Whether the command channel has closed.
    pub closed spec fn is_closed(&self) -> bool {
        self.command_closed
    }

    /// Samples per mixed frame.
    pub closed spec fn spec_frame_size(&self) -> usize {
        self.frame_size
    }

    /// The sample that pads short frames.
    pub closed spec fn spec_silence(&self) -> T {
        self.silence
    }

    /// Internal consistency: queues and settings well formed, queued frames of the right size.
    pub closed spec fn wf(&self) -> bool {
        &&& self.queues.wf()
        &&& frames_sized(self.queues@, self.frame_size as int)
    }

    /// A mixer with nothing pending, all sources at `default_volume` and unmuted.
    pub fn new(frame_size: usize, silence: T, default_volume: V) -> (m: Self)
        ensures
            m.wf(),
            m.pending() == Map::<usize, Seq<Vec<T>>>::empty(),
            !m.is_closed(),
            m.spec_frame_size() == frame_size,
            m.spec_silence() == silence,
            forall|id: usize| #[trigger] m.state_of(id) == (default_volume, false),
    {
        let m = MixerCore {
            queues: MixerQueues::new(),
            states: SourceStates::new(default_volume),
            frame_size,
            silence,
            command_closed: false,
        };
        m
    }

    /// Applies one received command; `None` means the command channel has closed.
    /// A submitted frame is padded or cut to the frame size first.
    pub fn handle_command(&mut self, command: Option<MixerCommand<T, V>>)
        requires
            old(self).wf(),
        ensures
            final(self).wf(),
            final(self).spec_frame_size() == old(self).spec_frame_size(),
            final(self).spec_silence() == old(self).spec_silence(),
            match command {
                None => {
                    &&& final(self).is_closed()
                    &&& final(self).pending() == old(self).pending()
                    &&& forall|x: usize| #[trigger] final(self).state_of(x) == old(self).state_of(x)
                },
                Some(MixerCommand::Submit { source_id, frame }) => {
                    &&& final(self).is_closed() == old(self).is_closed()
                    &&& spec_normalize(
                        frame@,
                        old(self).spec_frame_size() as int,
                        old(self).spec_silence(),
                    ).len() == old(self).spec_frame_size()
                    &&& exists|f: Vec<T>|
                        f@ == spec_normalize(
                            frame@,
                            old(self).spec_frame_size() as int,
                            old(self).spec_silence(),
                        ) && final(self).pending() == spec_submit(old(self).pending(), source_id, f)
                    &&& forall|x: usize| #[trigger] final(self).state_of(x) == old(self).state_of(x)
                },
                Some(MixerCommand::SetVolume { source_id, volume }) => {
                    &&& final(self).is_closed() == old(self).is_closed()
                    &&& final(self).pending() == old(self).pending()
                    &&& final(self).state_of(source_id) == (volume, old(self).state_of(source_id).1)
                    &&& forall|x: usize|
                        x != source_id ==> #[trigger] final(self).state_of(x) == old(self).state_of(x)
                },
                Some(MixerCommand::SetMuted { source_id, muted }) => {
                    &&& final(self).is_closed() == old(self).is_closed()
                    &&& final(self).pending() == old(self).pending()
                    &&& final(self).state_of(source_id) == (old(self).state_of(source_id).0, muted)
                    &&& forall|x: usize|
                        x != source_id ==> #[trigger] final(self).state_of(x) == old(self).state_of(x)
                },
            },
    {
        match command {
            Some(MixerCommand::Submit { source_id, frame }) => {
                let f = normalize_frame(frame, self.frame_size, self.silence);
                let ghost p = self.queues@;
                self.queues.submit(source_id, f);
                proof {
                    let q = self.queues@;
                    let fs = self.frame_size as int;
                    assert(frames_sized(q, fs)) by {
                        assert forall|id: usize, j: int|
                            q.contains_key(id) && 0 <= j < q[id].len() implies #[trigger] q[id][j]@.len()
                            == fs by {
                            if id == source_id && j == queue_of(p, source_id).len() {
                                assert(q[id][j] == f);
                            } else if id == source_id {
                                assert(q[id][j] == p[id][j]);
                            }
                        }
                    }
                }
            },
            Some(MixerCommand::SetVolume { source_id, volume }) => {
                self.states.set_volume(source_id, volume);
            },
            Some(MixerCommand::SetMuted { source_id, muted }) => {
                self.states.set_muted(source_id, muted);
            },
            None => {
                self.command_closed = true;
            },
        }
    }

    /// One tick: takes the oldest frame of every source together with the sources' settings,
    /// or says to wait (nothing pending) or to stop (nothing pending and the channel closed).
    pub fn tick(&mut self) -> (r: MixerTick<T, V>)
        requires
            old(self).wf(),
        ensures
            final(self).wf(),
            final(self).spec_frame_size() == old(self).spec_frame_size(),
            final(self).spec_silence() == old(self).spec_silence(),
            final(self).is_closed() == old(self).is_closed(),
            final(self).pending() == after_round(old(self).pending()),
            forall|x: usize| #[trigger] final(self).state_of(x) == old(self).state_of(x),
            match r {
                MixerTick::Mix { frames, source_ids, states } => {
                    &&& old(self).pending() != Map::<usize, Seq<Vec<T>>>::empty()
                    &&& is_round(old(self).pending(), source_ids@, frames@)
                    &&& states@.len() == source_ids@.len()
                    &&& forall|i: int|
                        0 <= i < states@.len() ==> #[trigger] states@[i] == old(self).state_of(
                            source_ids@[i],
                        )
                    &&& forall|i: int|
                        0 <= i < frames@.len() ==> #[trigger] frames@[i]@.len()
                            == old(self).spec_frame_size()
                },
                MixerTick::Idle => old(self).pending() == Map::<usize, Seq<Vec<T>>>::empty()
                    && !old(self).is_closed(),
                MixerTick::Finish => old(self).pending() == Map::<usize, Seq<Vec<T>>>::empty()
                    && old(self).is_closed(),
            },
    {
        let ghost p = self.queues@;
        let (frames, ids) = self.queues.pop_round();
        proof {
            lemma_after_round_sized(p, self.frame_size as int);
            if ids@.len() == 0 {
                assert(p.dom() =~= ids@.to_set());
                assert(p =~= Map::<usize, Seq<Vec<T>>>::empty());
            } else {
                assert(ids@.to_set().contains(ids@[0]));
                assert(p.contains_key(ids@[0]));
            }
        }
        if frames.len() > 0 {
            let mut states: Vec<(V, bool)> = Vec::new();
            let mut i: usize = 0;
            while i < ids.len()
                invariant
                    i <= ids@.len(),
                    states@.len() == i,
                    forall|k: int|
                        0 <= k < i ==> #[trigger] states@[k] == self.states.state_of(ids@[k]),
                decreases ids@.len() - i,
            {
                let s = self.states.get(ids[i]);
                states.push(s);
                i = i + 1;
            }
            proof {
                assert forall|i: int| 0 <= i < frames@.len() implies #[trigger] frames@[i]@.len()
                    == self.frame_size by {
                    assert(frames@[i] == p[ids@[i]][0]);
                    assert(ids@.to_set().contains(ids@[i]));
                    assert(p.contains_key(ids@[i]));
                }
            }
            MixerTick::Mix { frames, source_ids: ids, states }
        } else if self.command_closed {
            MixerTick::Finish
        } else {
            MixerTick::Idle
        }
    }

    /// Whether the mixer loop ends: the command channel has closed and nothing is pending.
    pub fn finished(&self) -> (b: bool)
        requires
            self.wf(),
        ensures
            b <==> (self.is_closed() && self.pending() == Map::<usize, Seq<Vec<T>>>::empty()),
    {
        self.command_closed && self.queues.is_empty()
    }
}

/// Taking a round keeps every pending frame at the frame size.
pub proof fn lemma_after_round_sized<T>(p: Pending<T>, frame_size: int)
    requires
        frames_sized(p, frame_size),
    ensures
        frames_sized(after_round(p), frame_size),
{
    let q = after_round(p);
    assert forall|id: usize, j: int|
        q.contains_key(id) && 0 <= j < q[id].len() implies #[trigger] q[id][j]@.len()
        == frame_size by {
        assert(q[id][j] == p[id][j + 1]);
    }
}

} // verus!

verus! {

/// Submitting appends the frame to the submitting source's queue and leaves every other
/// source's queue as it was.
pub proof fn lemma_submit_appends<T>(p: Pending<T>, id: usize, frame: Vec<T>, other: usize)
    requires
        pending_wf(p),
    ensures
        pending_wf(spec_submit(p, id, frame)),
        queue_of(spec_submit(p, id, frame), id) == queue_of(p, id).push(frame),
        other != id ==> queue_of(spec_submit(p, id, frame), other) == queue_of(p, other),
{
    let q = spec_submit(p, id, frame);
    assert(q.dom() =~= p.dom().insert(id));
}

/// A round takes exactly one frame from every source with pending frames, the oldest one:
/// the source is in the round beside that frame, and afterwards its queue is its former queue
/// without it. A source with nothing pending is not in the round and stays without frames.
pub proof fn lemma_round_takes_oldest<T>(
    p: Pending<T>,
    ids: Seq<usize>,
    frames: Seq<Vec<T>>,
    id: usize,
)
    requires
        pending_wf(p),
        is_round(p, ids, frames),
    ensures
        queue_of(after_round(p), id) == queue_of(p, id).drop_first() || !p.contains_key(id),
        p.contains_key(id) ==> exists|i: int|
            0 <= i < ids.len() && #[trigger] ids[i] == id && frames[i] == queue_of(p, id)[0],
        !p.contains_key(id) ==> queue_of(after_round(p), id) == Seq::<Vec<T>>::empty(),
        !p.contains_key(id) ==> !ids.contains(id),
{
    if p.contains_key(id) {
        assert(ids.to_set().contains(id));
        let i = choose|i: int| 0 <= i < ids.len() && ids[i] == id;
        assert(frames[i] == p[ids[i]][0]);
        if p[id].len() <= 1 {
            assert(p[id].drop_first() =~= Seq::<Vec<T>>::empty());
        }
    } else {
        if ids.contains(id) {
            assert(ids.to_set().contains(id));
        }
    }
}

} // verus!

verus! {

/// A mixer run as a sequence of steps: `Some((source_id, frame))` is a frame accepted from a
/// source (already padded or cut), `None` a tick that mixed a round.
pub type MixerRun<T> = Seq<Option<(usize, Vec<T>)>>;

/// The frames pending after the steps of `run`, starting from none.
pub open spec fn run_pending<T>(run: MixerRun<T>) -> Pending<T>
    decreases run.len(),
{
    if run.len() == 0 {
        Map::empty()
    } else {
        let p = run_pending(run.drop_last());
        match run.last() {
            Some((id, frame)) => spec_submit(p, id, frame),
            None => after_round(p),
        }
    }
}

/// The frames of source `id` that the ticks of `run` mixed, in order: at each tick, its
/// oldest pending frame, if it had one (the frame `is_round` puts beside it).
pub open spec fn run_mixed<T>(run: MixerRun<T>, id: usize) -> Seq<Vec<T>>
    decreases run.len(),
{
    if run.len() == 0 {
        Seq::empty()
    } else {
        let m = run_mixed(run.drop_last(), id);
        let p = run_pending(run.drop_last());
        match run.last() {
            Some(_) => m,
            None => if p.contains_key(id) {
                m.push(p[id][0])
            } else {
                m
            },
        }
    }
}

/// The frames accepted from source `id` in `run`, in order.
pub open spec fn run_submitted<T>(run: MixerRun<T>, id: usize) -> Seq<Vec<T>>
    decreases run.len(),
{
    if run.len() == 0 {
        Seq::empty()
    } else {
        let s = run_submitted(run.drop_last(), id);
        match run.last() {
            Some((x, frame)) => if x == id {
                s.push(frame)
            } else {
                s
            },
            None => s,
        }
    }
}

/// Whole-run mixer law: over any run of accepted frames and ticks, each source's frames are
/// mixed in the order they were accepted, each once: the frames of a source mixed so far,
/// followed by those still pending for it, are exactly the frames accepted from it. The
/// pending queues stay well formed throughout.
pub proof fn lemma_mixer_run<T>(run: MixerRun<T>, id: usize)
    ensures
        pending_wf(run_pending(run)),
        run_mixed(run, id) + queue_of(run_pending(run), id) == run_submitted(run, id),
    decreases run.len(),
{
    if run.len() == 0 {
        assert(run_pending(run).dom() =~= Set::<usize>::empty());
        assert(Seq::<Vec<T>>::empty() + Seq::<Vec<T>>::empty() =~= Seq::<Vec<T>>::empty());
    } else {
        let prev = run.drop_last();
        lemma_mixer_run(prev, id);
        let p = run_pending(prev);
        let m = run_mixed(prev, id);
        let q = queue_of(p, id);
        match run.last() {
            Some((x, frame)) => {
                lemma_submit_appends(p, x, frame, id);
                if x == id {
                    assert(m + q.push(frame) =~= (m + q).push(frame));
                }
            },
            None => {
                lemma_after_round_wf(p);
                if p.contains_key(id) {
                    assert(q.len() > 0);
                    if q.len() > 1 {
                        assert(queue_of(after_round(p), id) == q.drop_first());
                    } else {
                        assert(queue_of(after_round(p), id) =~= q.drop_first());
                    }
                    assert(m.push(q[0]) + q.drop_first() =~= m + q);
                } else {
                    assert(queue_of(after_round(p), id) == q);
                }
            },
        }
    }
}

} // verus!

verus! {

/// Hands out mixer source ids: 1, 2, 3, ... (wrapping to 0 after `usize::MAX`, as an atomic
/// `fetch_add` does), with, as a model, every id handed out so far.
pub struct SourceIdAllocator {
    next: usize,
    issued: Ghost<Seq<usize>>,
}

/// The ids `1, 2, ..., k`.
pub open spec fn first_ids(k: nat) -> Seq<usize> {
    Seq::new(k, |i: int| (i + 1) as usize)
}

impl SourceIdAllocator {
    /// The id the next allocation returns.
    pub closed spec fn next_id(&self) -> usize {
        self.next
    }

    /// Every id handed out so far, in order.
    pub closed spec fn issued(&self) -> Seq<usize> {
        self.issued@
    }

    /// Until the counter wraps, the ids handed out are 1, 2, ..., in order, and the next one
    /// follows them.
    #[verifier::type_invariant]
    spec fn wf(&self) -> bool {
        self.issued@.len() < usize::MAX ==> {
            &&& self.issued@ == first_ids(self.issued@.len())
            &&& self.next == self.issued@.len() + 1
        }
    }

    /// An allocator whose first id is 1.
    pub fn new() -> (a: Self)
        ensures
            a.next_id() == 1,
            a.issued() == Seq::<usize>::empty(),
    {
        proof {
            assert(first_ids(0) =~= Seq::<usize>::empty());
        }
        SourceIdAllocator { next: 1, issued: Ghost(Seq::empty()) }
    }

    /// Returns the next id and moves on by one. The `k`-th id handed out by a new allocator is
    /// `k` (until the counter wraps), so the ids are distinct and increasing.
    pub fn allocate(&mut self) -> (id: usize)
        ensures
            id == old(self).next_id(),
            final(self).next_id() == if old(self).next_id() == usize::MAX {
                0
            } else {
                (old(self).next_id() + 1) as usize
            },
            final(self).issued() == old(self).issued().push(id),
            final(self).issued().len() < usize::MAX ==> final(self).issued() == first_ids(
                final(self).issued().len(),
            ),
            final(self).issued().len() < usize::MAX ==> final(self).next_id() == final(self).issued().len() + 1,
    {
        proof {
            use_type_invariant(&*self);
        }
        let id = self.next;
        let next = if self.next == usize::MAX {
            0
        } else {
            self.next + 1
        };
        let ghost issued = self.issued@.push(id);
        proof {
            if issued.len() < usize::MAX {
                assert(issued =~= first_ids(issued.len()));
            }
        }
        *self = SourceIdAllocator { next, issued: Ghost(issued) };
        id
    }
}

/// Why the mixer task could not start.
pub enum MixerStartError {
    /// The mixer task is already running.
    AlreadyRunning,
    /// The command receiver is not there (it went to a task that was not stopped).
    ChannelUninitialized,
}

/// The mixer's running task handle (type `H`) and its command receiver (type `R`): the receiver
/// goes to the task on start, and a fresh channel replaces it on stop.
pub struct MixerSlots<H, R> {
    task: Option<H>,
    receiver: Option<R>,
}

impl<H, R> MixerSlots<H, R> {
    /// Whether a mixer task is recorded.
    pub closed spec fn has_task(&self) -> bool {
        self.task is Some
    }

    /// Whether a command receiver is waiting for a task.
    pub closed spec fn has_receiver(&self) -> bool {
        self.receiver is Some
    }

    /// No task yet, the receiver in place.
    pub fn new(receiver: R) -> (s: Self)
        ensures
            !s.has_task(),
            s.has_receiver(),
    {
        MixerSlots { task: None, receiver: Some(receiver) }
    }

    /// Hands out the command receiver for a new mixer task. Refused while a task is recorded,
    /// or when no receiver is there; a refusal changes nothing.
    pub fn take_for_start(&mut self) -> (r: Result<R, MixerStartError>)
        ensures
            old(self).has_task() ==> (r matches Err(e) && e is AlreadyRunning),
            !old(self).has_task() && !old(self).has_receiver() ==> (r matches Err(e)
                && e is ChannelUninitialized),
            !old(self).has_task() && old(self).has_receiver() ==> r is Ok,
            r is Ok ==> !final(self).has_receiver() && !final(self).has_task(),
            r is Err ==> final(self).has_receiver() == old(self).has_receiver()
                && final(self).has_task() == old(self).has_task(),
    {
        if self.task.is_some() {
            return Err(MixerStartError::AlreadyRunning);
        }
        match self.receiver.take() {
            Some(r) => Ok(r),
            None => Err(MixerStartError::ChannelUninitialized),
        }
    }

    /// Records the started task.
    pub fn set_task(&mut self, task: H)
        ensures
            final(self).has_task(),
            final(self).has_receiver() == old(self).has_receiver(),
    {
        self.task = Some(task);
    }

    /// Stops: hands back the recorded task (to abort) and says whether a fresh command channel
    /// is needed (the receiver went to a task).
    pub fn stop(&mut self) -> (r: (Option<H>, bool))
        ensures
            r.0 is Some == old(self).has_task(),
            r.1 == !old(self).has_receiver(),
            !final(self).has_task(),
            final(self).has_receiver() == old(self).has_receiver(),
    {
        let task = self.task.take();
        (task, self.receiver.is_none())
    }

    /// Puts a fresh command receiver in place.
    pub fn install_receiver(&mut self, receiver: R)
        ensures
            final(self).has_receiver(),
            final(self).has_task() == old(self).has_task(),
    {
        self.receiver = Some(receiver);
    }
}

} // verus!
