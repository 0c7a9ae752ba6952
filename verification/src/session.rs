use vstd::prelude::*;
use crate::mixer::{first_ids, SourceIdAllocator};
use std::collections::HashMap;
use vstd::std_specs::iter::IteratorSpec;

verus! {

/// The playback tracks of a session: each source id with its source, keyed by the id.
pub struct TrackRegistry<S> {
    map: HashMap<usize, S>,
}

impl<S> TrackRegistry<S> {
    /// The registered tracks, by id.
    pub closed spec fn tracks(&self) -> Map<usize, S> {
        self.map@
    }

    /// The source registered under `id`, if any.
    pub open spec fn lookup(&self, id: usize) -> Option<S> {
        if self.tracks().contains_key(id) {
            Some(self.tracks()[id])
        } else {
            None
        }
    }

    /// A registry with no track.
    pub fn new() -> (r: Self)
        ensures
            forall|id: usize| #[trigger] r.lookup(id) is None,
    {
        TrackRegistry { map: HashMap::new() }
    }

    /// Registers `source` under `id`, replacing the source registered there before.
    pub fn insert(&mut self, id: usize, source: S)
        ensures
            final(self).lookup(id) == Some(source),
            forall|x: usize| x != id ==> #[trigger] final(self).lookup(x) == old(self).lookup(x),
    {
        broadcast use vstd::std_specs::hash::group_hash_axioms;

        let _ = self.map.insert(id, source);
    }

    /// The source registered under `id`.
    pub fn get(&self, id: usize) -> (r: Option<&S>)
        ensures
            match r {
                Some(s) => self.lookup(id) == Some(*s),
                None => self.lookup(id) is None,
            },
    {
        broadcast use vstd::std_specs::hash::group_hash_axioms;

        self.map.get(&id)
    }

    /// Whether a track is registered under `id`.
    pub fn contains(&self, id: usize) -> (b: bool)
        ensures
            b <==> self.lookup(id) is Some,
    {
        broadcast use vstd::std_specs::hash::group_hash_axioms;

        self.map.contains_key(&id)
    }

    /// The ids of all registered tracks, each once.
    pub fn ids(&self) -> (r: Vec<usize>)
        ensures
            forall|id: usize| #[trigger] r@.contains(id) <==> self.lookup(id) is Some,
            forall|i: int, j: int| 0 <= i < j < r@.len() ==> r@[i] != r@[j],
    {
        broadcast use vstd::std_specs::hash::group_hash_axioms;

        let mut r: Vec<usize> = Vec::new();
        let keys = self.map.keys();
        let ghost all = keys.remaining();
        for k in it: keys
            invariant
                all == it.seq(),
                all.unref().to_set() == self.map@.dom(),
                all.no_duplicates(),
                r@ == all.take(it.index() as int).unref(),
        {
            r.push(*k);
            proof {
                assert(all.take(it.index() + 1).unref() =~= all.take(it.index() as int).unref().push(*all[it.index() as int]));
            }
        }
        proof {
            assert(r@ =~= all.unref());
            assert forall|id: usize| #[trigger] r@.contains(id) <==> self.lookup(id) is Some by {
                assert(all.unref().to_set().contains(id) <==> all.unref().contains(id));
            }
        }
        r
    }

    /// Removes every track.
    pub fn clear(&mut self)
        ensures
            forall|id: usize| #[trigger] final(self).lookup(id) is None,
    {
        self.map.clear();
    }
}

} // verus!

verus! {

/// Why a session request was refused.
pub enum SessionError {
    /// `start` while the session runs.
    AlreadyRunning,
    /// No playback track has this id.
    TrackNotFound(usize),
}

/// Which exposed channels a start has to create.
pub struct StartPlan {
    pub create_raw_channel: bool,
    pub create_processed_channel: bool,
}

/// What a session start does once capture has started and playback start was tried.
pub enum StartAction {
    /// Both started: the session runs; create these exposed channels.
    Run(StartPlan),
    /// Playback did not start: stop the capture that did, and report playback's error.
    StopCapture,
}

/// The decisions of an audio session: whether it runs, which capture streams it exposes, its
/// playback tracks (their sources of type `S`), and the allocator their ids come from.
pub struct SessionCore<S> {
    running: bool,
    expose_raw_capture: bool,
    expose_processed_capture: bool,
    tracks: TrackRegistry<S>,
    ids: SourceIdAllocator,
}

impl<S> SessionCore<S> {
    /// Every registered track id was handed out by the session's allocator, which counts up
    /// from 1 (until it wraps).
    #[verifier::type_invariant]
    spec fn inv(&self) -> bool {
        &&& forall|x: usize| #[trigger] self.tracks.lookup(x) is Some ==> self.ids.issued().contains(x)
        &&& self.ids.issued().len() < usize::MAX ==> {
            &&& self.ids.issued() == first_ids(self.ids.issued().len())
            &&& self.ids.next_id() == self.ids.issued().len() + 1
        }
    }

    /// Whether the session runs.
    pub closed spec fn spec_running(&self) -> bool {
        self.running
    }

    /// Whether raw capture frames are exposed.
    pub closed spec fn spec_expose_raw(&self) -> bool {
        self.expose_raw_capture
    }

    /// Whether processed capture frames are exposed.
    pub closed spec fn spec_expose_processed(&self) -> bool {
        self.expose_processed_capture
    }

    /// The source of playback track `id`, if registered.
    pub closed spec fn track(&self, id: usize) -> Option<S> {
        self.tracks.lookup(id)
    }

    /// How many track ids have been handed out.
    pub closed spec fn issued_count(&self) -> nat {
        self.ids.issued().len()
    }

    /// A stopped session without tracks; no track id handed out yet.
    pub fn new(expose_raw_capture: bool, expose_processed_capture: bool) -> (s: Self)
        ensures
            !s.spec_running(),
            s.spec_expose_raw() == expose_raw_capture,
            s.spec_expose_processed() == expose_processed_capture,
            forall|id: usize| #[trigger] s.track(id) is None,
            s.issued_count() == 0,
    {
        let tracks = TrackRegistry::new();
        let ids = SourceIdAllocator::new();
        proof {
            assert(first_ids(0) =~= Seq::<usize>::empty());
        }
        SessionCore { running: false, expose_raw_capture, expose_processed_capture, tracks, ids }
    }

    /// Whether the session runs.
    pub fn is_running(&self) -> (b: bool)
        ensures
            b == self.spec_running(),
    {
        self.running
    }

    /// Whether a start may go ahead: refused while the session runs.
    pub fn check_start(&self) -> (r: Result<(), SessionError>)
        ensures
            r is Err <==> self.spec_running(),
            r matches Err(e) ==> e is AlreadyRunning,
    {
        if self.running {
            Err(SessionError::AlreadyRunning)
        } else {
            Ok(())
        }
    }

    /// Records that capture and playback have started: the session now runs. Says which
    /// exposed channels to create.
    pub fn commit_start(&mut self) -> (plan: StartPlan)
        requires
            !old(self).spec_running(),
        ensures
            final(self).spec_running(),
            plan.create_raw_channel == old(self).spec_expose_raw(),
            plan.create_processed_channel == old(self).spec_expose_processed(),
            final(self).spec_expose_raw() == old(self).spec_expose_raw(),
            final(self).spec_expose_processed() == old(self).spec_expose_processed(),
            final(self).issued_count() == old(self).issued_count(),
            forall|id: usize| #[trigger] final(self).track(id) == old(self).track(id),
    {
        proof {
            use_type_invariant(&*self);
        }
        self.running = true;
        StartPlan {
            create_raw_channel: self.expose_raw_capture,
            create_processed_channel: self.expose_processed_capture,
        }
    }

    /// The last step of a start, once capture has started: when playback started too the
    /// session runs (as `commit_start`); otherwise nothing changes and the capture that started
    /// has to be stopped.
    pub fn finish_start(&mut self, playback_started: bool) -> (action: StartAction)
        requires
            !old(self).spec_running(),
        ensures
            final(self).spec_running() == playback_started,
            final(self).spec_expose_raw() == old(self).spec_expose_raw(),
            final(self).spec_expose_processed() == old(self).spec_expose_processed(),
            final(self).issued_count() == old(self).issued_count(),
            forall|id: usize| #[trigger] final(self).track(id) == old(self).track(id),
            match action {
                StartAction::Run(plan) => {
                    &&& playback_started
                    &&& plan.create_raw_channel == old(self).spec_expose_raw()
                    &&& plan.create_processed_channel == old(self).spec_expose_processed()
                },
                StartAction::StopCapture => !playback_started,
            },
    {
        if playback_started {
            StartAction::Run(self.commit_start())
        } else {
            StartAction::StopCapture
        }
    }

    /// Stops the session. Returns whether it was running; stopping a running session drops
    /// every playback track, stopping a stopped one changes nothing.
    pub fn stop(&mut self) -> (was_running: bool)
        ensures
            was_running == old(self).spec_running(),
            !final(self).spec_running(),
            final(self).spec_expose_raw() == old(self).spec_expose_raw(),
            final(self).spec_expose_processed() == old(self).spec_expose_processed(),
            final(self).issued_count() == old(self).issued_count(),
            was_running ==> forall|id: usize| #[trigger] final(self).track(id) is None,
            !was_running ==> forall|id: usize| #[trigger] final(self).track(id) == old(self).track(id),
    {
        proof {
            use_type_invariant(&*self);
        }
        if !self.running {
            return false;
        }
        self.tracks = TrackRegistry::new();
        self.running = false;
        true
    }

    /// Creates a playback track: hands out the next track id, has `make` build the track's
    /// source for it, and registers the source under that id. The `k`-th id handed out is `k`,
    /// so (until the counter wraps) the new id is positive and not registered before, and the
    /// registered ids become the old ones plus it. When `make` fails, its error is handed back
    /// and no track is registered; the id stays used, as the mixer's counter does.
    pub fn create_track<E, F: FnOnce(usize) -> Result<S, E>>(&mut self, make: F) -> (r: Result<
        usize,
        E,
    >)
        requires
            forall|i: usize| #[trigger] make.requires((i,)),
        ensures
            final(self).spec_running() == old(self).spec_running(),
            final(self).spec_expose_raw() == old(self).spec_expose_raw(),
            final(self).spec_expose_processed() == old(self).spec_expose_processed(),
            final(self).issued_count() == old(self).issued_count() + 1,
            match r {
                Ok(id) => {
                    &&& old(self).issued_count() + 1 < usize::MAX ==> {
                        &&& id == old(self).issued_count() + 1
                        &&& old(self).track(id) is None
                    }
                    &&& exists|s: S|
                        make.ensures((id,), Ok::<S, E>(s)) && #[trigger] final(self).track(id)
                            == Some(s)
                    &&& forall|x: usize|
                        x != id ==> #[trigger] final(self).track(x) == old(self).track(x)
                },
                Err(e) => {
                    &&& forall|x: usize| #[trigger] final(self).track(x) == old(self).track(x)
                    &&& old(self).issued_count() + 1 < usize::MAX ==> make.ensures(
                        ((old(self).issued_count() + 1) as usize,),
                        Err::<S, E>(e),
                    )
                },
            },
    {
        proof {
            use_type_invariant(&*self);
        }
        let mut this = SessionCore::new(false, false);
        std::mem::swap(&mut this, self);
        proof {
            use_type_invariant(&this);
        }
        let SessionCore { running, expose_raw_capture, expose_processed_capture, mut tracks, mut ids } =
            this;
        let ghost issued0 = ids.issued();
        let ghost tracks0 = tracks;
        let id = ids.allocate();
        proof {
            if issued0.len() + 1 < usize::MAX {
                if tracks0.lookup(id) is Some {
                    assert(issued0.contains(id));
                    let i = choose|i: int| 0 <= i < issued0.len() && issued0[i] == id;
                    assert(issued0[i] == (i + 1) as usize);
                }
            }
            assert forall|x: usize| #[trigger] tracks0.lookup(x) is Some implies ids.issued().contains(
                x,
            ) by {
                let i = choose|i: int| 0 <= i < issued0.len() && issued0[i] == x;
                assert(ids.issued()[i] == x);
            }
        }
        let r = match make(id) {
            Ok(source) => {
                proof {
                    assert(ids.issued()[issued0.len() as int] == id);
                }
                tracks.insert(id, source);
                Ok(id)
            },
            Err(e) => Err(e),
        };
        *self = SessionCore { running, expose_raw_capture, expose_processed_capture, tracks, ids };
        r
    }

    /// The source of playback track `id`, or `TrackNotFound(id)`.
    pub fn track_source(&self, id: usize) -> (r: Result<&S, SessionError>)
        ensures
            match r {
                Ok(s) => self.track(id) == Some(*s),
                Err(e) => self.track(id) is None && e == SessionError::TrackNotFound(id),
            },
    {
        match self.tracks.get(id) {
            Some(s) => Ok(s),
            None => Err(SessionError::TrackNotFound(id)),
        }
    }

    /// Whether playback track `id` is registered.
    pub fn has_track(&self, id: usize) -> (b: bool)
        ensures
            b <==> self.track(id) is Some,
    {
        self.tracks.contains(id)
    }

    /// The ids of the registered playback tracks, each once.
    pub fn track_ids(&self) -> (r: Vec<usize>)
        ensures
            forall|id: usize| #[trigger] r@.contains(id) <==> self.track(id) is Some,
            forall|i: int, j: int| 0 <= i < j < r@.len() ==> r@[i] != r@[j],
    {
        self.tracks.ids()
    }
}

} // verus!
