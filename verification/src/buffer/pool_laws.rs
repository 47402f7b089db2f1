//! What holds of every buffer pool, whatever is asked of it.
//!
//! The laws speak of `PoolView` and its operations, by which the pool
//! manager's functions are specified. A pin count is the number of guards
//! that are out; a frame is evicted only without a pin; and the content of
//! a page is what was written to it last, wherever the page happens to
//! be: in a frame or in the store.

use crate::buffer::page::zeroed_data;
use crate::buffer::page::Page;
use crate::buffer::page::PageData;
use crate::buffer::page::PageId;
use crate::buffer::page::INVALID_PAGE_ID;
use crate::buffer::pool_state::BufferPoolError;
use crate::buffer::pool_state::PoolView;
use crate::storage::disk_manager::StorageError;
use vstd::prelude::*;

verus! {

/// A request to the pool.
pub enum PoolOp {
    Fetch(PageId),
    NewPage,
    Unpin(PageId, bool),
    Flush(PageId),
    FlushAll,
    Delete(PageId),
    Write(PageId, PageData),
}

impl PoolOp {
    /// Whether the request is to write or to delete the page: the two
    /// requests that change what a page holds.
    pub open spec fn changes(self, page_id: PageId) -> bool {
        match self {
            PoolOp::Write(p, _) => p == page_id,
            PoolOp::Delete(p) => p == page_id,
            _ => false,
        }
    }
}

impl PoolView {
    /// The pool after a request.
    pub open spec fn apply(self, op: PoolOp) -> PoolView {
        match op {
            PoolOp::Fetch(p) => self.fetch(p).0,
            PoolOp::NewPage => self.new_page().0,
            PoolOp::Unpin(p, is_dirty) => self.unpin(p, is_dirty).0,
            PoolOp::Flush(p) => self.flush(p).0,
            PoolOp::FlushAll => self.flush_all().0,
            PoolOp::Delete(p) => self.delete(p).0,
            PoolOp::Write(p, data) => self.write(p, data).0,
        }
    }

    /// Number of guards on `page_id` that a request hands out: one where it
    /// fetches or makes that page and succeeds.
    pub open spec fn guards_issued(self, op: PoolOp, page_id: PageId) -> int {
        match op {
            PoolOp::Fetch(p) => if p == page_id && self.fetch(p).1 is Ok {
                1
            } else {
                0
            },
            PoolOp::NewPage => if self.new_page().1 == Ok::<PageId, BufferPoolError>(page_id) {
                1
            } else {
                0
            },
            _ => 0,
        }
    }

    /// Number of guards on `page_id` that a request takes back: one where
    /// it unpins that page and succeeds.
    pub open spec fn guards_released(self, op: PoolOp, page_id: PageId) -> int {
        match op {
            PoolOp::Unpin(p, is_dirty) => if p == page_id && self.unpin(p, is_dirty).1 is Ok {
                1
            } else {
                0
            },
            _ => 0,
        }
    }

    /// The pool after a sequence of requests.
    pub open spec fn run(self, ops: Seq<PoolOp>) -> PoolView
        decreases ops.len(),
    {
        if ops.len() == 0 {
            self
        } else {
            self.run(ops.drop_last()).apply(ops.last())
        }
    }

    /// Number of guards on `page_id` that a sequence of requests handed
    /// out and did not take back.
    pub open spec fn outstanding(self, ops: Seq<PoolOp>, page_id: PageId) -> int
        decreases ops.len(),
    {
        if ops.len() == 0 {
            0
        } else {
            let before = self.run(ops.drop_last());
            self.outstanding(ops.drop_last(), page_id) + before.guards_issued(ops.last(), page_id)
                - before.guards_released(ops.last(), page_id)
        }
    }

    /// Two well-formed pools whose frames differ in frame `f` alone agree on
    /// every page that this frame holds in neither.
    proof fn lemma_elsewhere(self, after: PoolView, f: int, page_id: PageId)
        requires
            self.wf(),
            after.wf(),
            after.frames.len() == self.frames.len(),
            forall|g: int|
                0 <= g < self.frames.len() && g != f ==> #[trigger] after.frames[g]
                    == self.frames[g],
            0 <= f < self.frames.len() && page_id != INVALID_PAGE_ID ==> self.frames[f].page_id
                != page_id && after.frames[f].page_id != page_id,
        ensures
            after.is_resident(page_id) == self.is_resident(page_id),
            after.is_resident(page_id) ==> after.page(page_id) == self.page(page_id),
            after.pin_count(page_id) == self.pin_count(page_id),
    {
        if page_id == INVALID_PAGE_ID {
            if self.is_resident(page_id) {
                assert(self.holds(self.frame_of(page_id), page_id));
            }
            if after.is_resident(page_id) {
                assert(after.holds(after.frame_of(page_id), page_id));
            }
        } else if self.is_resident(page_id) {
            let g = self.frame_of(page_id);
            assert(self.holds(g, page_id));
            assert(after.frames[g] == self.frames[g]);
            assert(after.holds(g, page_id));
            after.lemma_frame_of(g, page_id);
        } else if after.is_resident(page_id) {
            let g = after.frame_of(page_id);
            assert(after.holds(g, page_id));
            assert(after.frames[g] == self.frames[g]);
            assert(self.holds(g, page_id));
        }
    }

    /// What bringing in a page does to any page: the page brought in has
    /// one pin, no other pin count changes, and every page keeps its
    /// content. The page that is evicted, if one is, had no pin.
    proof fn lemma_step_load(self, p: PageId, data: PageData, page_id: PageId)
        requires
            self.wf(),
            self.has_frame(),
            self.can_vacate(),
            !self.is_resident(p),
            self.disk.pages.contains_key(p),
            self.disk.pages[p] == data,
        ensures
            self.load(p, data).wf(),
            self.load(p, data).pin_count(page_id) == self.pin_count(page_id) + if page_id == p {
                1int
            } else {
                0int
            },
            self.exists_page(page_id) ==> self.load(p, data).exists_page(page_id)
                && self.load(p, data).content(page_id) == self.content(page_id),
            !self.exists_page(page_id) ==> !self.load(p, data).exists_page(page_id),
    {
        let f = self.next_frame();
        let t = self.load(p, data);
        self.lemma_load_wf(p, data);
        self.lemma_next_frame();
        self.lemma_not_resident(p);
        assert(self.frame_ok(f));
        assert(t.frames =~= self.frames.update(f, t.frames[f]));
        t.lemma_frame_of(f, p);
        let v = self.frames[f].page_id;
        if page_id == p {
        } else if page_id == v && v != INVALID_PAGE_ID {
            self.lemma_frame_of(f, v);
            assert(!t.is_resident(v)) by {
                if t.is_resident(v) {
                    let g = t.frame_of(v);
                    assert(t.holds(g, v));
                    assert(self.holds(g, v));
                    self.lemma_frame_of(g, v);
                }
            }
        } else {
            self.lemma_elsewhere(t, f, page_id);
        }
    }

    /// What a change to the page in frame `f` that keeps its identity does
    /// to another page: nothing.
    proof fn lemma_step_update(self, after: PoolView, f: int, page_id: PageId)
        requires
            self.wf(),
            after.wf(),
            0 <= f < self.frames.len(),
            self.frames[f].page_id != INVALID_PAGE_ID,
            after.frames == self.frames.update(f, after.frames[f]),
            after.frames[f].page_id == self.frames[f].page_id,
            page_id != self.frames[f].page_id,
            forall|p: PageId|
                p != self.frames[f].page_id ==> after.disk.pages.contains_key(p)
                    == self.disk.pages.contains_key(p) && #[trigger] after.disk.pages[p]
                    == self.disk.pages[p],
        ensures
            after.pin_count(page_id) == self.pin_count(page_id),
            after.exists_page(page_id) == self.exists_page(page_id),
            self.exists_page(page_id) ==> after.content(page_id) == self.content(page_id),
    {
        self.lemma_elsewhere(after, f, page_id);
        assert(after.disk.pages[page_id] == self.disk.pages[page_id]);
    }

    /// What fetching page `p` does to any page.
    proof fn lemma_step_fetch(self, p: PageId, page_id: PageId)
        requires
            self.wf(),
        ensures
            self.fetch(p).0.wf(),
            self.fetch(p).0.pin_count(page_id) == self.pin_count(page_id) + self.guards_issued(
                PoolOp::Fetch(p),
                page_id,
            ),
            self.exists_page(page_id) ==> self.fetch(p).0.exists_page(page_id) && self.fetch(
                p,
            ).0.content(page_id) == self.content(page_id),
    {
        let t = self.fetch(p).0;
        self.lemma_fetch_wf(p);
        if self.is_resident(p) {
            let f = self.frame_of(p);
            assert(self.holds(f, p));
            if self.frames[f].pin_count < u32::MAX {
                assert(t.frames =~= self.frames.update(f, t.frames[f]));
                if page_id == p {
                    assert(t.holds(f, p));
                    t.lemma_frame_of(f, p);
                } else {
                    self.lemma_step_update(t, f, page_id);
                }
            }
        } else if self.has_frame() && self.disk.pages.contains_key(p) && self.can_vacate() {
            self.lemma_step_load(p, self.disk.pages[p], page_id);
        }
    }

    /// What making a new page does to any page.
    proof fn lemma_step_new_page(self, page_id: PageId)
        requires
            self.wf(),
        ensures
            self.new_page().0.wf(),
            self.new_page().0.pin_count(page_id) == self.pin_count(page_id) + self.guards_issued(
                PoolOp::NewPage,
                page_id,
            ),
            self.exists_page(page_id) ==> self.new_page().0.exists_page(page_id)
                && self.new_page().0.content(page_id) == self.content(page_id),
            self.new_page().1 matches Ok(p) ==> !self.exists_page(p) && self.new_page().0.content(
                p,
            ) == zeroed_data(),
    {
        self.lemma_new_page_wf();
        if self.has_frame() && self.disk.can_allocate() && self.can_vacate() {
            let p = self.disk.next_page_id as PageId;
            let allocated = PoolView { disk: self.disk.allocate(), ..self };
            self.lemma_allocate_wf();
            self.lemma_next_frame();
            assert(self.frame_ok(self.next_frame()));
            assert(forall|f: int| allocated.holds(f, page_id) == self.holds(f, page_id));
            assert(forall|f: int| allocated.holds(f, p) == self.holds(f, p));
            assert(allocated.has_frame());
            assert(allocated.can_vacate());
            allocated.lemma_step_load(p, zeroed_data(), page_id);
            allocated.lemma_step_load(p, zeroed_data(), p);
            if self.is_resident(page_id) {
                let g = self.frame_of(page_id);
                assert(self.holds(g, page_id));
                assert(self.frame_ok(g));
            }
        }
    }

    /// What giving up a pin of page `p` does to any page.
    proof fn lemma_step_unpin(self, p: PageId, is_dirty: bool, page_id: PageId)
        requires
            self.wf(),
        ensures
            self.unpin(p, is_dirty).0.wf(),
            self.unpin(p, is_dirty).0.pin_count(page_id) == self.pin_count(page_id)
                - self.guards_released(PoolOp::Unpin(p, is_dirty), page_id),
            self.exists_page(page_id) ==> self.unpin(p, is_dirty).0.exists_page(page_id)
                && self.unpin(p, is_dirty).0.content(page_id) == self.content(page_id),
    {
        let t = self.unpin(p, is_dirty).0;
        self.lemma_unpin_wf(p, is_dirty);
        if self.is_resident(p) && self.page(p).pin_count > 0 {
            let f = self.frame_of(p);
            assert(self.holds(f, p));
            if page_id == p {
                assert(t.holds(f, p));
                t.lemma_frame_of(f, p);
            } else {
                self.lemma_step_update(t, f, page_id);
            }
        }
    }

    /// What flushing page `p` does to any page.
    proof fn lemma_step_flush(self, p: PageId, page_id: PageId)
        requires
            self.wf(),
        ensures
            self.flush(p).0.wf(),
            self.flush(p).0.pin_count(page_id) == self.pin_count(page_id),
            self.exists_page(page_id) ==> self.flush(p).0.exists_page(page_id) && self.flush(
                p,
            ).0.content(page_id) == self.content(page_id),
    {
        let t = self.flush(p).0;
        self.lemma_flush_wf(p);
        if self.is_resident(p) {
            let f = self.frame_of(p);
            assert(self.holds(f, p));
            if self.frames[f].is_dirty && self.disk.can_write(p) {
                if page_id == p {
                    assert(t.holds(f, p));
                    t.lemma_frame_of(f, p);
                } else {
                    self.lemma_step_update(t, f, page_id);
                }
            }
        }
    }

    /// What flushing the dirty pages of the first `n` frames does to any
    /// page.
    proof fn lemma_step_flush_frames(self, n: nat, page_id: PageId)
        requires
            self.wf(),
            n <= self.frames.len(),
        ensures
            self.flush_frames(n).wf(),
            self.flush_frames(n).pin_count(page_id) == self.pin_count(page_id),
            self.exists_page(page_id) ==> self.flush_frames(n).exists_page(page_id)
                && self.flush_frames(n).content(page_id) == self.content(page_id),
        decreases n,
    {
        if n > 0 {
            let before = self.flush_frames((n - 1) as nat);
            self.lemma_step_flush_frames((n - 1) as nat, page_id);
            before.lemma_step_flush(before.frames[n - 1].page_id, page_id);
        }
    }

    /// Flushing every page changes no page but for its dirty flag, and
    /// neither the free list nor the replacer. Where it succeeds, each
    /// resident page is clean afterwards and the store holds its content.
    pub proof fn law_flush_all_cleans(self, page_id: PageId)
        requires
            self.wf(),
            self.is_resident(page_id),
        ensures
            self.flush_all().0.wf(),
            self.flush_all().0.is_resident(page_id),
            self.flush_all().0.page(page_id).data == self.page(page_id).data,
            self.flush_all().0.page(page_id).pin_count == self.page(page_id).pin_count,
            self.flush_all().0.free_list == self.free_list,
            self.flush_all().0.replacer == self.replacer,
            self.flush_all().1 is Ok ==> !self.flush_all().0.page(page_id).is_dirty
                && self.flush_all().0.disk.pages[page_id] == self.page(page_id).data,
    {
        let t = self.flush_all().0;
        self.lemma_flush_frames(self.frames.len());
        let f = self.frame_of(page_id);
        assert(self.holds(f, page_id));
        assert(t.frames[f].page_id == page_id);
        assert(t.holds(f, page_id));
        t.lemma_frame_of(f, page_id);
        assert(t.frame_ok(f));
        if t.frames[f].is_dirty {
            assert(t.has_dirty_page());
        }
    }

    /// What writing to page `p` does to any page.
    proof fn lemma_step_write(self, p: PageId, data: PageData, page_id: PageId)
        requires
            self.wf(),
        ensures
            self.write(p, data).0.wf(),
            self.write(p, data).0.pin_count(page_id) == self.pin_count(page_id),
            self.exists_page(page_id) && p != page_id ==> self.write(p, data).0.exists_page(
                page_id,
            ) && self.write(p, data).0.content(page_id) == self.content(page_id),
            self.write(p, data).1 ==> self.write(p, data).0.content(p) == data,
    {
        let t = self.write(p, data).0;
        self.lemma_write_wf(p, data);
        if self.is_resident(p) && self.page(p).pin_count > 0 {
            let f = self.frame_of(p);
            assert(self.holds(f, p));
            assert(t.holds(f, p));
            t.lemma_frame_of(f, p);
            if page_id != p {
                self.lemma_step_update(t, f, page_id);
            }
        }
    }

    /// What deleting page `p` does to any page.
    proof fn lemma_step_delete(self, p: PageId, page_id: PageId)
        requires
            self.wf(),
        ensures
            self.delete(p).0.wf(),
            self.delete(p).0.pin_count(page_id) == self.pin_count(page_id),
            self.exists_page(page_id) && p != page_id ==> self.delete(p).0.exists_page(page_id)
                && self.delete(p).0.content(page_id) == self.content(page_id),
    {
        let t = self.delete(p).0;
        self.lemma_delete_wf(p);
        if self.is_resident(p) {
            let f = self.frame_of(p);
            assert(self.holds(f, p));
            if self.frames[f].pin_count == 0 {
                if page_id == p {
                    assert(!t.is_resident(p)) by {
                        if t.is_resident(p) {
                            let g = t.frame_of(p);
                            assert(t.holds(g, p));
                            assert(self.holds(g, p));
                            self.lemma_frame_of(g, p);
                        }
                    }
                } else {
                    self.lemma_elsewhere(t, f, page_id);
                }
            }
        } else {
            self.lemma_elsewhere(t, -1, page_id);
        }
    }

    /// Every request keeps the pool well formed. It changes the pin count
    /// of a page by the guards that it hands out and takes back, and no
    /// request but a write to the page or its deletion changes what a page
    /// holds.
    pub proof fn lemma_step(self, op: PoolOp, page_id: PageId)
        requires
            self.wf(),
        ensures
            self.apply(op).wf(),
            self.apply(op).pin_count(page_id) == self.pin_count(page_id) + self.guards_issued(
                op,
                page_id,
            ) - self.guards_released(op, page_id),
            self.exists_page(page_id) && !op.changes(page_id) ==> self.apply(op).exists_page(
                page_id,
            ) && self.apply(op).content(page_id) == self.content(page_id),
    {
        match op {
            PoolOp::Fetch(p) => self.lemma_step_fetch(p, page_id),
            PoolOp::NewPage => self.lemma_step_new_page(page_id),
            PoolOp::Unpin(p, is_dirty) => self.lemma_step_unpin(p, is_dirty, page_id),
            PoolOp::Flush(p) => self.lemma_step_flush(p, page_id),
            PoolOp::FlushAll => self.lemma_step_flush_frames(self.frames.len(), page_id),
            PoolOp::Delete(p) => self.lemma_step_delete(p, page_id),
            PoolOp::Write(p, data) => self.lemma_step_write(p, data, page_id),
        }
    }

    /// After any sequence of requests the pool is well formed, and the pin
    /// count of every page has changed by the number of guards on it that
    /// were handed out and not taken back. So in a pool that started
    /// without pins a pin count is the number of guards that are out: it
    /// is never negative, and never more than that number.
    pub proof fn law_pin_count_counts_guards(self, ops: Seq<PoolOp>, page_id: PageId)
        requires
            self.wf(),
        ensures
            self.run(ops).wf(),
            self.run(ops).pin_count(page_id) == self.pin_count(page_id) + self.outstanding(
                ops,
                page_id,
            ),
            self.pin_count(page_id) == 0 ==> self.outstanding(ops, page_id) >= 0,
        decreases ops.len(),
    {
        if ops.len() > 0 {
            self.law_pin_count_counts_guards(ops.drop_last(), page_id);
            self.run(ops.drop_last()).lemma_step(ops.last(), page_id);
        }
    }

    /// The frame that the replacer picks for eviction holds a page without
    /// a pin.
    pub proof fn law_victim_has_no_pin(self)
        requires
            self.wf(),
        ensures
            self.replacer.victim() matches Some(f) ==> 0 <= f < self.frames.len()
                && self.frames[f].page_id != INVALID_PAGE_ID && self.frames[f].pin_count == 0,
    {
        self.replacer.lemma_victim();
        if let Some(f) = self.replacer.victim() {
            assert(self.replacer.is_victim(f));
            assert(self.frame_ok(f));
        }
    }

    /// A page that a request other than its deletion drives out of the
    /// pool had no pin, and the store then holds what the frame held: no
    /// frame is reused before its content is written back.
    pub proof fn law_eviction_writes_back(self, op: PoolOp, page_id: PageId)
        requires
            self.wf(),
            self.is_resident(page_id),
            !self.apply(op).is_resident(page_id),
            !(op matches PoolOp::Delete(p) && p == page_id),
        ensures
            self.pin_count(page_id) == 0,
            self.apply(op).disk.pages.contains_key(page_id),
            self.apply(op).disk.pages[page_id] == self.page(page_id).data,
    {
        self.lemma_step(op, page_id);
        match op {
            PoolOp::Write(p, data) => {
                if p == page_id {
                    self.lemma_step_write(p, data, page_id);
                    if self.page(p).pin_count > 0 {
                        let f = self.frame_of(p);
                        assert(self.holds(f, p));
                        assert(self.write(p, data).0.holds(f, p));
                    }
                }
            },
            PoolOp::Unpin(p, is_dirty) => {
                if p == page_id && self.page(p).pin_count > 0 {
                    let f = self.frame_of(p);
                    assert(self.holds(f, p));
                    assert(self.unpin(p, is_dirty).0.holds(f, p));
                }
            },
            _ => {},
        }
    }

    /// Flushing a resident page succeeds or fails. Where it succeeds, the
    /// page is clean and the store holds its content. Where it fails, the
    /// store could not take the page: nothing has changed, and the page is
    /// still dirty.
    pub proof fn law_flush_writes_content(self, page_id: PageId)
        requires
            self.wf(),
            self.is_resident(page_id),
        ensures
            self.flush(page_id).1 is Ok ==> {
                &&& self.flush(page_id).1 == Ok::<bool, BufferPoolError>(true)
                &&& self.flush(page_id).0.disk.pages.contains_key(page_id)
                &&& self.flush(page_id).0.disk.pages[page_id] == self.page(page_id).data
                &&& self.flush(page_id).0.is_resident(page_id)
                &&& !self.flush(page_id).0.page(page_id).is_dirty
                &&& self.flush(page_id).0.page(page_id).data == self.page(page_id).data
            },
            self.flush(page_id).1 is Err ==> {
                &&& self.flush(page_id).1 == Err::<bool, BufferPoolError>(
                    BufferPoolError::StorageIoError(StorageError::OutOfSpace),
                )
                &&& self.flush(page_id).0 == self
                &&& self.page(page_id).is_dirty
                &&& !self.disk.can_write(page_id)
            },
    {
        let f = self.frame_of(page_id);
        assert(self.holds(f, page_id));
        assert(self.frame_ok(f));
        let t = self.flush(page_id).0;
        self.lemma_flush_wf(page_id);
        if self.frames[f].is_dirty && self.disk.can_write(page_id) {
            assert(t.holds(f, page_id));
            t.lemma_frame_of(f, page_id);
        }
    }

    /// A page that was just made did not exist before; it is resident,
    /// zeroed, clean and pinned once.
    pub proof fn law_new_page_made(self)
        requires
            self.wf(),
        ensures
            self.new_page().1 matches Ok(page_id) ==> {
                &&& page_id != INVALID_PAGE_ID
                &&& !self.exists_page(page_id)
                &&& self.new_page().0.is_resident(page_id)
                &&& self.new_page().0.page(page_id) == (Page {
                    page_id,
                    data: zeroed_data(),
                    pin_count: 1,
                    is_dirty: false,
                })
            },
            self.new_page().1 is Err ==> self.new_page().0 == self,
    {
        if self.has_frame() && self.disk.can_allocate() && self.can_vacate() {
            let page_id = self.disk.next_page_id as PageId;
            let allocated = PoolView { disk: self.disk.allocate(), ..self };
            let made = self.new_page().0;
            self.lemma_step_new_page(page_id);
            self.lemma_allocate_wf();
            self.lemma_next_frame();
            assert(self.frame_ok(self.next_frame()));
            assert(forall|f: int| allocated.holds(f, page_id) == self.holds(f, page_id));
            assert(allocated.can_vacate());
            allocated.lemma_load_wf(page_id, zeroed_data());
            made.lemma_frame_of(allocated.next_frame(), page_id);
        }
    }

    /// Unpinning succeeds exactly on a page with a pin. It takes one pin
    /// off the page and or-s its dirty flag with the caller's.
    pub proof fn law_unpin_gives_up_one_pin(self, page_id: PageId, is_dirty: bool)
        requires
            self.wf(),
        ensures
            self.unpin(page_id, is_dirty).1 is Ok <==> self.pin_count(page_id) > 0,
            self.unpin(page_id, is_dirty).1 is Err ==> self.unpin(page_id, is_dirty).0 == self,
            self.unpin(page_id, is_dirty).1 is Ok ==> {
                let after = self.unpin(page_id, is_dirty).0;
                &&& after.is_resident(page_id)
                &&& after.pin_count(page_id) == self.pin_count(page_id) - 1
                &&& after.page(page_id).is_dirty == (self.page(page_id).is_dirty || is_dirty)
                &&& after.page(page_id).data == self.page(page_id).data
            },
    {
        if self.is_resident(page_id) && self.page(page_id).pin_count > 0 {
            let f = self.frame_of(page_id);
            let after = self.unpin(page_id, is_dirty).0;
            assert(self.holds(f, page_id));
            self.lemma_unpin_wf(page_id, is_dirty);
            assert(after.holds(f, page_id));
            after.lemma_frame_of(f, page_id);
        }
    }

    /// Writing succeeds exactly on a page with a pin. The page then holds
    /// what was written and is dirty; nothing else about it changes.
    pub proof fn law_write_sets_content(self, page_id: PageId, data: PageData)
        requires
            self.wf(),
        ensures
            self.write(page_id, data).1 <==> self.pin_count(page_id) > 0,
            !self.write(page_id, data).1 ==> self.write(page_id, data).0 == self,
            self.write(page_id, data).1 ==> {
                let after = self.write(page_id, data).0;
                &&& after.is_resident(page_id)
                &&& after.page(page_id) == (Page { data, is_dirty: true, ..self.page(page_id) })
                &&& after.content(page_id) == data
            },
    {
        if self.is_resident(page_id) && self.page(page_id).pin_count > 0 {
            let f = self.frame_of(page_id);
            let after = self.write(page_id, data).0;
            assert(self.holds(f, page_id));
            self.lemma_write_wf(page_id, data);
            assert(after.holds(f, page_id));
            after.lemma_frame_of(f, page_id);
        }
    }

    /// A page that was just made is resident with one pin, and fetching it
    /// gives the same content with two pins. What is written to it before
    /// the fetch is what the fetch gives.
    pub proof fn law_new_page_then_fetch(self, data: PageData)
        requires
            self.wf(),
            self.new_page().1 is Ok,
        ensures
            ({
                let page_id = self.new_page().1->Ok_0;
                let made = self.new_page().0;
                let written = made.write(page_id, data).0;
                &&& made.pin_count(page_id) == 1
                &&& made.content(page_id) == zeroed_data()
                &&& made.fetch(page_id).1 is Ok
                &&& made.fetch(page_id).0.pin_count(page_id) == 2
                &&& made.fetch(page_id).0.content(page_id) == zeroed_data()
                &&& made.write(page_id, data).1
                &&& written.fetch(page_id).1 is Ok
                &&& written.fetch(page_id).0.pin_count(page_id) == 2
                &&& written.fetch(page_id).0.content(page_id) == data
            }),
    {
        let page_id = self.new_page().1->Ok_0;
        let made = self.new_page().0;
        self.lemma_step_new_page(page_id);
        if self.is_resident(page_id) {
            let g = self.frame_of(page_id);
            assert(self.holds(g, page_id));
            assert(self.frame_ok(g));
        }
        assert(self.pin_count(page_id) == 0);
        assert(made.is_resident(page_id));
        made.lemma_step_fetch(page_id, page_id);
        made.lemma_step_write(page_id, data, page_id);
        let written = made.write(page_id, data).0;
        assert(written.is_resident(page_id)) by {
            let f = made.frame_of(page_id);
            assert(made.holds(f, page_id));
            assert(written.holds(f, page_id));
        }
        written.lemma_step_fetch(page_id, page_id);
    }

    /// A page that was deleted is gone from the pool and from the store,
    /// and the deletion reports whether there was such a page.
    pub proof fn law_delete_removes(self, page_id: PageId)
        requires
            self.wf(),
            self.delete(page_id).1 is Ok,
        ensures
            !self.delete(page_id).0.exists_page(page_id),
            self.delete(page_id).1 == Ok::<bool, BufferPoolError>(self.exists_page(page_id)),
    {
        let t = self.delete(page_id).0;
        if self.is_resident(page_id) {
            let f = self.frame_of(page_id);
            assert(self.holds(f, page_id));
            assert(self.frame_ok(f));
            if t.is_resident(page_id) {
                let g = t.frame_of(page_id);
                assert(t.holds(g, page_id));
                assert(self.holds(g, page_id));
                self.lemma_frame_of(g, page_id);
            }
        } else {
            assert(forall|f: int| t.holds(f, page_id) == self.holds(f, page_id));
        }
    }

    /// Deleting a pinned page fails with `PageStillPinned` and leaves the
    /// pool as it was.
    pub proof fn law_delete_pinned(self, page_id: PageId)
        requires
            self.pin_count(page_id) > 0,
        ensures
            self.delete(page_id) == (self, Err::<bool, BufferPoolError>(
                BufferPoolError::PageStillPinned,
            )),
    {
    }

    /// With every frame pinned, a request for a page that is not resident
    /// fails with `NoFrameAvailable` and leaves the pool, its store
    /// included, as it was.
    pub proof fn law_all_pinned(self, page_id: PageId)
        requires
            self.wf(),
            forall|f: int| 0 <= f < self.frames.len() ==> (#[trigger] self.frames[f]).pin_count > 0,
            !self.is_resident(page_id),
        ensures
            self.fetch(page_id) == (self, Err::<(), BufferPoolError>(
                BufferPoolError::NoFrameAvailable,
            )),
            self.new_page() == (self, Err::<PageId, BufferPoolError>(
                BufferPoolError::NoFrameAvailable,
            )),
    {
        if self.free_list.len() > 0 {
            let f = self.free_list[0] as int;
            assert(self.frame_ok(f));
        }
        self.replacer.lemma_victim();
        if let Some(f) = self.replacer.victim() {
            assert(self.replacer.is_victim(f));
            assert(self.frame_ok(f));
        }
    }

    /// A page holds what was written to it last. After a write, whatever is
    /// asked of the pool that neither writes to the page nor deletes it,
    /// the page still exists and holds what was written, be it in a frame
    /// or, once evicted, in the store; and a fetch that succeeds then gives
    /// that content.
    pub proof fn law_round_trip(self, page_id: PageId, data: PageData, ops: Seq<PoolOp>)
        requires
            self.wf(),
            self.write(page_id, data).1,
            forall|i: int| 0 <= i < ops.len() ==> !(#[trigger] ops[i]).changes(page_id),
        ensures
            ({
                let later = self.write(page_id, data).0.run(ops);
                &&& later.wf()
                &&& later.exists_page(page_id)
                &&& later.content(page_id) == data
                &&& later.fetch(page_id).1 is Ok ==> later.fetch(page_id).0.is_resident(page_id)
                    && later.fetch(page_id).0.page(page_id).data == data
            }),
        decreases ops.len(),
    {
        let written = self.write(page_id, data).0;
        self.lemma_step_write(page_id, data, page_id);
        assert(written.is_resident(page_id)) by {
            let f = self.frame_of(page_id);
            assert(self.holds(f, page_id));
            assert(written.holds(f, page_id));
        }
        written.lemma_content_kept(ops, page_id);
        let later = written.run(ops);
        later.lemma_step_fetch(page_id, page_id);
        later.law_pin_count_counts_guards(Seq::empty(), page_id);
        if later.fetch(page_id).1 is Ok {
            let fetched = later.fetch(page_id).0;
            assert(fetched.pin_count(page_id) >= 1);
        }
    }

    /// Whatever is asked of the pool that neither writes to a page nor
    /// deletes it, the page still exists and holds what it held.
    pub proof fn lemma_content_kept(self, ops: Seq<PoolOp>, page_id: PageId)
        requires
            self.wf(),
            self.exists_page(page_id),
            forall|i: int| 0 <= i < ops.len() ==> !(#[trigger] ops[i]).changes(page_id),
        ensures
            self.run(ops).wf(),
            self.run(ops).exists_page(page_id),
            self.run(ops).content(page_id) == self.content(page_id),
        decreases ops.len(),
    {
        if ops.len() > 0 {
            let front = ops.drop_last();
            assert forall|i: int| 0 <= i < front.len() implies !(#[trigger] front[i]).changes(
                page_id,
            ) by {
                assert(front[i] == ops[i]);
            }
            self.lemma_content_kept(front, page_id);
            assert(!ops[ops.len() - 1].changes(page_id));
            self.run(front).lemma_step(ops.last(), page_id);
        }
    }
}

} // verus!
