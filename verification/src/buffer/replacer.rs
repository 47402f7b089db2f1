//! The replacer: it keeps, for every frame, the times of its last `k`
//! accesses, and picks the frame to evict among those marked evictable.
//!
//! The backward k-distance of a frame is the time that has passed since its
//! k-th most recent access, and infinite for a frame with fewer than `k`
//! recorded accesses. The frame with the largest distance is evicted first.
//! Among frames at infinite distance the one whose earliest recorded access
//! is oldest goes first. A frame's history holds its last `k` accesses at
//! most, oldest first, so in both groups the frame whose history starts
//! earliest goes first; where two histories start at the same time, the
//! frame with the lower index does.

use vstd::prelude::*;
use vstd::set_lib::lemma_int_range;
use vstd::set_lib::lemma_len_subset;
use vstd::set_lib::set_int_range;

verus! {

/// What the replacer knows of one frame.
pub struct RecordView {
    /// The times of the frame's last accesses, oldest first.
    pub history: Seq<u64>,
    /// Whether the frame may be evicted.
    pub evictable: bool,
}

impl RecordView {
    /// The record of a frame that the replacer does not track.
    pub open spec fn untracked() -> RecordView {
        RecordView { history: Seq::empty(), evictable: false }
    }
}

/// What a replacer holds.
pub struct ReplacerView {
    /// The history depth.
    pub k: nat,
    /// The logical time of the next access.
    pub clock: u64,
    /// One record for each frame.
    pub records: Seq<RecordView>,
}

impl ReplacerView {
    /// A replacer for `num_frames` frames that has seen no access.
    pub open spec fn fresh(num_frames: nat, k: nat) -> ReplacerView {
        ReplacerView {
            k,
            clock: 0,
            records: Seq::new(num_frames, |f: int| RecordView::untracked()),
        }
    }

    /// No history is longer than `k`, and only a tracked frame is evictable.
    pub open spec fn wf(self) -> bool {
        &&& self.k >= 1
        &&& forall|f: int|
            0 <= f < self.records.len() ==> {
                &&& (#[trigger] self.records[f]).history.len() <= self.k
                &&& self.records[f].evictable ==> self.records[f].history.len() >= 1
            }
    }

    /// Whether `f` is a frame with a recorded access.
    pub open spec fn tracks(self, f: int) -> bool {
        0 <= f < self.records.len() && self.records[f].history.len() >= 1
    }

    /// Whether `f` is a frame that may be evicted.
    pub open spec fn is_evictable(self, f: int) -> bool {
        0 <= f < self.records.len() && self.records[f].evictable
    }

    /// The time after the next access. The clock stops at `u64::MAX`.
    pub open spec fn next_tick(self) -> u64 {
        if self.clock < u64::MAX {
            (self.clock + 1) as u64
        } else {
            self.clock
        }
    }

    /// A history with one more access at time `now`, cut to its last `k`
    /// entries.
    pub open spec fn extended(history: Seq<u64>, now: u64, k: nat) -> Seq<u64> {
        let longer = history.push(now);
        if longer.len() > k {
            longer.remove(0)
        } else {
            longer
        }
    }

    /// The replacer after an access to frame `f` at the current time. A
    /// frame that the replacer has no record for changes nothing.
    pub open spec fn record_access(self, f: int) -> ReplacerView {
        if 0 <= f < self.records.len() {
            ReplacerView {
                clock: self.next_tick(),
                records: self.records.update(
                    f,
                    RecordView {
                        history: Self::extended(self.records[f].history, self.clock, self.k),
                        ..self.records[f]
                    },
                ),
                ..self
            }
        } else {
            self
        }
    }

    /// The replacer after frame `f` was marked. Only a tracked frame can be
    /// marked; any other changes nothing.
    pub open spec fn set_evictable(self, f: int, evictable: bool) -> ReplacerView {
        if self.tracks(f) {
            ReplacerView {
                records: self.records.update(f, RecordView { evictable, ..self.records[f] }),
                ..self
            }
        } else {
            self
        }
    }

    /// The replacer after it forgot frame `f`: its history and its mark.
    pub open spec fn remove(self, f: int) -> ReplacerView {
        if 0 <= f < self.records.len() {
            ReplacerView { records: self.records.update(f, RecordView::untracked()), ..self }
        } else {
            self
        }
    }

    /// The frames that may be evicted.
    pub open spec fn evictable_frames(self) -> Set<int> {
        Set::new(|f: int| self.is_evictable(f))
    }

    /// Number of frames that may be evicted.
    pub open spec fn size(self) -> nat {
        self.evictable_frames().len()
    }

    /// Whether the backward k-distance of frame `f` is infinite.
    pub open spec fn has_infinite_distance(self, f: int) -> bool {
        self.records[f].history.len() < self.k
    }

    /// The backward k-distance of a frame with `k` recorded accesses.
    pub open spec fn backward_distance(self, f: int) -> int
        recommends
            self.tracks(f),
            !self.has_infinite_distance(f),
    {
        self.clock - self.records[f].history[0]
    }

    /// Whether frame `f` is evicted in preference to frame `g`, both being
    /// tracked.
    pub open spec fn outranks(self, f: int, g: int) -> bool {
        if self.has_infinite_distance(f) != self.has_infinite_distance(g) {
            self.has_infinite_distance(f)
        } else if self.records[f].history[0] != self.records[g].history[0] {
            self.records[f].history[0] < self.records[g].history[0]
        } else {
            f <= g
        }
    }

    /// Whether `f` is the frame to evict: it may be evicted, and no other
    /// such frame comes before it.
    pub open spec fn is_victim(self, f: int) -> bool {
        &&& self.is_evictable(f)
        &&& forall|g: int| self.is_evictable(g) ==> #[trigger] self.outranks(f, g)
    }

    /// The frame to evict; `None` where no frame may be evicted.
    pub open spec fn victim(self) -> Option<int> {
        if exists|f: int| self.is_victim(f) {
            Some(choose|f: int| self.is_victim(f))
        } else {
            None
        }
    }

    /// The replacer after it evicted its victim, if it has one.
    pub open spec fn evict(self) -> ReplacerView {
        match self.victim() {
            Some(f) => self.remove(f),
            None => self,
        }
    }

    /// The frames that may be evicted are finitely many, no more than there
    /// are frames.
    pub proof fn lemma_size_bound(self)
        ensures
            self.evictable_frames().finite(),
            self.size() <= self.records.len(),
    {
        let all = set_int_range(0, self.records.len() as int);
        lemma_int_range(0, self.records.len() as int);
        assert(self.evictable_frames().subset_of(all));
        lemma_len_subset(self.evictable_frames(), all);
    }

    /// The order of eviction in terms of the backward k-distance. A frame at
    /// infinite distance goes before one at a finite distance. Of two
    /// frames at a finite distance the one with the larger distance goes
    /// first; of two at infinite distance the one whose earliest recorded
    /// access is older. The lower index decides what is left.
    pub proof fn law_outranks_by_distance(self, f: int, g: int)
        requires
            self.tracks(f),
            self.tracks(g),
        ensures
            self.has_infinite_distance(f) && !self.has_infinite_distance(g) ==> self.outranks(f, g),
            !self.has_infinite_distance(f) && self.has_infinite_distance(g) ==> !self.outranks(
                f,
                g,
            ),
            !self.has_infinite_distance(f) && !self.has_infinite_distance(g)
                && self.backward_distance(f) > self.backward_distance(g) ==> self.outranks(f, g),
            self.has_infinite_distance(f) && self.has_infinite_distance(g)
                && self.records[f].history[0] < self.records[g].history[0] ==> self.outranks(f, g),
            self.outranks(f, g) || self.outranks(g, f),
            self.outranks(f, g) && self.outranks(g, f) ==> f == g,
    {
    }

    /// There is at most one frame to evict.
    pub proof fn lemma_victim_unique(self, f: int, g: int)
        requires
            self.is_victim(f),
            self.is_victim(g),
        ensures
            f == g,
    {
        assert(self.outranks(f, g));
        assert(self.outranks(g, f));
    }

    /// The frame that `victim` names is the frame to evict, and there is
    /// one exactly where a frame may be evicted.
    pub proof fn lemma_victim(self)
        ensures
            self.victim() matches Some(f) ==> self.is_victim(f),
            self.victim() is None ==> forall|f: int| !self.is_victim(f),
    {
    }

    /// Marking, forgetting and recording keep a replacer well formed.
    pub proof fn lemma_wf_preserved(self, f: int, evictable: bool)
        requires
            self.wf(),
        ensures
            self.record_access(f).wf(),
            self.set_evictable(f, evictable).wf(),
            self.remove(f).wf(),
            self.evict().wf(),
    {
    }
}

/// The record of one frame.
struct AccessRecord {
    history: Vec<u64>,
    evictable: bool,
}

impl View for AccessRecord {
    type V = RecordView;

    closed spec fn view(&self) -> RecordView {
        RecordView { history: self.history@, evictable: self.evictable }
    }
}

/// The LRU-K replacer.
pub struct LruKReplacer {
    k: usize,
    clock: u64,
    records: Vec<AccessRecord>,
    evictable_count: usize,
}

impl View for LruKReplacer {
    type V = ReplacerView;

    closed spec fn view(&self) -> ReplacerView {
        ReplacerView {
            k: self.k as nat,
            clock: self.clock,
            records: Seq::new(self.records@.len(), |f: int| self.records@[f]@),
        }
    }
}

impl LruKReplacer {
    /// The replacer is well formed: so is what it holds.
    pub closed spec fn wf(&self) -> bool {
        &&& self@.wf()
        &&& self.evictable_count == self@.size()
    }

    /// A well-formed replacer holds a well-formed state.
    pub proof fn lemma_view_wf(&self)
        requires
            self.wf(),
        ensures
            self@.wf(),
    {
    }

    /// A replacer for `num_frames` frames with history depth `k` that has
    /// seen no access.
    pub fn new(num_frames: usize, k: usize) -> (replacer: Self)
        requires
            k >= 1,
        ensures
            replacer.wf(),
            replacer@ == ReplacerView::fresh(num_frames as nat, k as nat),
    {
        let mut records: Vec<AccessRecord> = Vec::new();
        let mut f: usize = 0;
        while f < num_frames
            invariant
                f <= num_frames,
                records@.len() == f,
                forall|g: int| 0 <= g < f ==> (#[trigger] records@[g])@ == RecordView::untracked(),
            decreases num_frames - f,
        {
            records.push(AccessRecord { history: Vec::new(), evictable: false });
            f = f + 1;
        }
        let replacer = Self { k, clock: 0, records, evictable_count: 0 };
        proof {
            assert(replacer@.records =~= ReplacerView::fresh(num_frames as nat, k as nat).records);
            assert(replacer@.evictable_frames() =~= Set::<int>::empty());
        }
        replacer
    }

    /// Number of frames that the replacer keeps a record for.
    pub fn num_frames(&self) -> (n: usize)
        ensures
            n == self@.records.len(),
    {
        self.records.len()
    }

    /// Records an access to `frame` at the current time and advances the
    /// clock. The frame's history keeps its last `k` accesses.
    pub fn record_access(&mut self, frame: usize)
        requires
            old(self).wf(),
        ensures
            final(self).wf(),
            final(self)@ == old(self)@.record_access(frame as int),
    {
        if frame >= self.records.len() {
            return ;
        }
        let now = self.clock;
        self.records[frame].history.push(now);
        if self.records[frame].history.len() > self.k {
            self.records[frame].history.remove(0);
        }
        if self.clock < u64::MAX {
            self.clock = self.clock + 1;
        }
        proof {
            let before = old(self)@;
            let after = before.record_access(frame as int);
            assert(self@.records =~= after.records);
            assert(self@.evictable_frames() =~= before.evictable_frames());
        }
    }

    /// Marks `frame` as evictable or not. A frame without a recorded access
    /// cannot be marked: the call changes nothing.
    pub fn set_evictable(&mut self, frame: usize, evictable: bool)
        requires
            old(self).wf(),
        ensures
            final(self).wf(),
            final(self)@ == old(self)@.set_evictable(frame as int, evictable),
    {
        if frame >= self.records.len() || self.records[frame].history.len() == 0 {
            return ;
        }
        let was = self.records[frame].evictable;
        self.records[frame].evictable = evictable;
        proof {
            let before = old(self)@;
            let after = before.set_evictable(frame as int, evictable);
            assert(self@.records =~= after.records);
            before.lemma_size_bound();
            if was == evictable {
                assert(self@.evictable_frames() =~= before.evictable_frames());
            } else if evictable {
                assert(self@.evictable_frames() =~= before.evictable_frames().insert(frame as int));
                self@.lemma_size_bound();
            } else {
                assert(self@.evictable_frames() =~= before.evictable_frames().remove(frame as int));
            }
        }
        if was != evictable {
            if evictable {
                self.evictable_count = self.evictable_count + 1;
            } else {
                self.evictable_count = self.evictable_count - 1;
            }
        }
    }

    /// Forgets `frame`: its history and its mark.
    pub fn remove(&mut self, frame: usize)
        requires
            old(self).wf(),
        ensures
            final(self).wf(),
            final(self)@ == old(self)@.remove(frame as int),
    {
        if frame >= self.records.len() {
            return ;
        }
        let was = self.records[frame].evictable;
        self.records[frame].history.clear();
        self.records[frame].evictable = false;
        proof {
            let before = old(self)@;
            let after = before.remove(frame as int);
            assert(self@.records[frame as int].history =~= Seq::<u64>::empty());
            assert(self@.records =~= after.records);
            before.lemma_size_bound();
            if was {
                assert(self@.evictable_frames() =~= before.evictable_frames().remove(frame as int));
            } else {
                assert(self@.evictable_frames() =~= before.evictable_frames());
            }
        }
        if was {
            self.evictable_count = self.evictable_count - 1;
        }
    }

    /// Whether frame `f` is evicted in preference to frame `g`.
    fn outranks(&self, f: usize, g: usize) -> (first: bool)
        requires
            self@.tracks(f as int),
            self@.tracks(g as int),
        ensures
            first == self@.outranks(f as int, g as int),
    {
        let f_infinite = self.records[f].history.len() < self.k;
        let g_infinite = self.records[g].history.len() < self.k;
        let f_start = self.records[f].history[0];
        let g_start = self.records[g].history[0];
        if f_infinite != g_infinite {
            f_infinite
        } else if f_start != g_start {
            f_start < g_start
        } else {
            f <= g
        }
    }

    /// The frame to evict, if any frame may be evicted.
    pub fn peek_victim(&self) -> (victim: Option<usize>)
        requires
            self.wf(),
        ensures
            match victim {
                Some(f) => self@.victim() == Some(f as int),
                None => self@.victim() is None,
            },
    {
        let mut best: Option<usize> = None;
        let mut i: usize = 0;
        while i < self.records.len()
            invariant
                i <= self.records@.len(),
                self.wf(),
                match best {
                    Some(b) => {
                        &&& b < i
                        &&& self@.is_evictable(b as int)
                        &&& forall|g: int|
                            0 <= g < i && self@.is_evictable(g) ==> #[trigger] self@.outranks(
                                b as int,
                                g,
                            )
                    },
                    None => forall|g: int| 0 <= g < i ==> !self@.is_evictable(g),
                },
            decreases self.records@.len() - i,
        {
            if self.records[i].evictable {
                match best {
                    Some(b) => {
                        if self.outranks(i, b) {
                            proof {
                                assert forall|g: int|
                                    0 <= g < i + 1 && self@.is_evictable(
                                        g,
                                    ) implies #[trigger] self@.outranks(i as int, g) by {
                                    if g < i {
                                        assert(self@.outranks(b as int, g));
                                    }
                                }
                            }
                            best = Some(i);
                        } else {
                            assert(self@.outranks(b as int, i as int));
                        }
                    },
                    None => {
                        best = Some(i);
                    },
                }
            }
            i = i + 1;
        }
        proof {
            match best {
                Some(b) => {
                    assert(self@.is_victim(b as int));
                    self@.lemma_victim();
                    self@.lemma_victim_unique(b as int, self@.victim().unwrap());
                },
                None => {
                    assert forall|f: int| !self@.is_victim(f) by {}
                },
            }
        }
        best
    }

    /// Picks the frame to evict and forgets it. `None`, and nothing
    /// changes, where no frame may be evicted.
    pub fn evict(&mut self) -> (victim: Option<usize>)
        requires
            old(self).wf(),
        ensures
            final(self).wf(),
            final(self)@ == old(self)@.evict(),
            match victim {
                Some(f) => old(self)@.victim() == Some(f as int),
                None => old(self)@.victim() is None,
            },
    {
        let victim = self.peek_victim();
        if let Some(f) = victim {
            self.remove(f);
        }
        victim
    }

    /// Number of frames that may be evicted.
    pub fn size(&self) -> (n: usize)
        requires
            self.wf(),
        ensures
            n == self@.size(),
    {
        self.evictable_count
    }
}

} // verus!
