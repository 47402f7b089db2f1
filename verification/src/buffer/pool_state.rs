//! What a buffer pool holds, as a mathematical value, and what each of its
//! operations makes of it.
//!
//! The pool manager's functions are specified by the functions of
//! `PoolView`: each returns the state after the operation and what the
//! operation reports. A request that fails leaves the state as it was.

use crate::buffer::page::zeroed_data;
use crate::buffer::page::Page;
use crate::buffer::page::PageData;
use crate::buffer::page::PageId;
use crate::buffer::page::INVALID_PAGE_ID;
use crate::buffer::replacer::ReplacerView;
use crate::storage::disk_manager::DiskView;
use crate::storage::disk_manager::StorageError;
use vstd::prelude::*;

verus! {

/// Why the pool refused a request.
#[derive(Debug, Clone, Copy, PartialEq, Eq, Structural)]
pub enum BufferPoolError {
    /// Every frame is pinned: none is free and none can be evicted.
    NoFrameAvailable,
    /// The page cannot be deleted while it is pinned.
    PageStillPinned,
    /// The page is not resident, or it has no pin to give up.
    InvalidUnpin,
    /// The backing store refused the request.
    StorageIoError(StorageError),
    /// The page has as many pins as its counter can hold.
    TooManyPins,
}

/// What a buffer pool holds.
pub struct PoolView {
    /// The frames. A frame whose page has the invalid identifier holds
    /// nothing.
    pub frames: Seq<Page>,
    /// The frames that hold nothing; the last one is taken first.
    pub free_list: Seq<usize>,
    /// The replacer's records, one for each frame.
    pub replacer: ReplacerView,
    /// The backing store.
    pub disk: DiskView,
}

impl PoolView {
    /// A pool of `capacity` empty frames over a store.
    pub open spec fn fresh(capacity: nat, k: nat, disk: DiskView) -> PoolView {
        PoolView {
            frames: Seq::new(capacity, |f: int| Page::fresh(INVALID_PAGE_ID)),
            free_list: Seq::new(capacity, |i: int| (capacity - 1 - i) as usize),
            replacer: ReplacerView::fresh(capacity, k),
            disk,
        }
    }

    /// Whether frame `f` holds the page `page_id`.
    pub open spec fn holds(self, f: int, page_id: PageId) -> bool {
        &&& 0 <= f < self.frames.len()
        &&& page_id != INVALID_PAGE_ID
        &&& self.frames[f].page_id == page_id
    }

    /// Whether some frame holds the page.
    pub open spec fn is_resident(self, page_id: PageId) -> bool {
        exists|f: int| self.holds(f, page_id)
    }

    /// The frame that holds a resident page.
    pub open spec fn frame_of(self, page_id: PageId) -> int {
        choose|f: int| self.holds(f, page_id)
    }

    /// The page as its frame holds it.
    pub open spec fn page(self, page_id: PageId) -> Page
        recommends
            self.is_resident(page_id),
    {
        self.frames[self.frame_of(page_id)]
    }

    /// The pin count of a page; 0 for a page that is not resident.
    pub open spec fn pin_count(self, page_id: PageId) -> nat {
        if self.is_resident(page_id) {
            self.page(page_id).pin_count as nat
        } else {
            0
        }
    }

    /// Whether a page exists: it is resident or the store holds it.
    pub open spec fn exists_page(self, page_id: PageId) -> bool {
        self.is_resident(page_id) || self.disk.pages.contains_key(page_id)
    }

    /// The content of a page as a reader of the pool sees it: that of its
    /// frame where the page is resident, that of the store where it is not.
    pub open spec fn content(self, page_id: PageId) -> PageData
        recommends
            self.exists_page(page_id),
    {
        if self.is_resident(page_id) {
            self.page(page_id).data
        } else {
            self.disk.pages[page_id]
        }
    }

    /// What holds of frame `f`. An empty frame is zeroed, unpinned, clean
    /// and unknown to the replacer. A frame with a page is tracked by the
    /// replacer and evictable exactly while it has no pin; the store holds
    /// its page, with the same content as long as the page is clean.
    pub open spec fn frame_ok(self, f: int) -> bool {
        let page = self.frames[f];
        let record = self.replacer.records[f];
        if page.page_id == INVALID_PAGE_ID {
            &&& page == Page::fresh(INVALID_PAGE_ID)
            &&& record.history.len() == 0
            &&& !record.evictable
        } else {
            &&& record.history.len() >= 1
            &&& record.evictable <==> page.pin_count == 0
            &&& self.disk.pages.contains_key(page.page_id)
            &&& !page.is_dirty ==> self.disk.pages[page.page_id] == page.data
        }
    }

    /// What holds of the free list: its entries are empty frames, no frame
    /// stands in it twice, and every empty frame stands in it.
    pub open spec fn free_list_ok(self) -> bool {
        &&& forall|i: int|
            0 <= i < self.free_list.len() ==> {
                &&& (#[trigger] self.free_list[i]) < self.frames.len()
                &&& self.frames[self.free_list[i] as int].page_id == INVALID_PAGE_ID
            }
        &&& forall|i: int, j: int|
            0 <= i < j < self.free_list.len() ==> #[trigger] self.free_list[i]
                != #[trigger] self.free_list[j]
        &&& forall|f: int|
            0 <= f < self.frames.len() && (#[trigger] self.frames[f]).page_id == INVALID_PAGE_ID
                ==> self.free_list.contains(f as usize)
    }

    /// The pool is well formed: no page is held by two frames, the free
    /// list holds the empty frames, and every frame agrees with the
    /// replacer and the store.
    pub open spec fn wf(self) -> bool {
        &&& self.frames.len() == self.replacer.records.len()
        &&& self.frames.len() <= usize::MAX
        &&& self.replacer.wf()
        &&& self.disk.wf()
        &&& forall|f: int, g: int|
            #![trigger self.frames[f], self.frames[g]]
            0 <= f < self.frames.len() && 0 <= g < self.frames.len() && self.frames[f].page_id
                != INVALID_PAGE_ID && self.frames[f].page_id == self.frames[g].page_id ==> f == g
        &&& self.free_list_ok()
        &&& forall|f: int| 0 <= f < self.frames.len() ==> #[trigger] self.frame_ok(f)
    }

    /// Whether a frame can be had for another page: one is free, or one
    /// can be evicted.
    pub open spec fn has_frame(self) -> bool {
        self.free_list.len() > 0 || self.replacer.victim() is Some
    }

    /// The frame that the next page is put in: the last of the free list,
    /// or else the replacer's victim.
    pub open spec fn next_frame(self) -> int
        recommends
            self.has_frame(),
    {
        if self.free_list.len() > 0 {
            self.free_list.last() as int
        } else {
            self.replacer.victim().unwrap()
        }
    }

    /// Whether the next frame can be made ready for another page: it is
    /// free, or its page is clean, or the store can take the page.
    pub open spec fn can_vacate(self) -> bool
        recommends
            self.has_frame(),
    {
        self.free_list.len() > 0 || !self.frames[self.next_frame()].is_dirty
            || self.disk.can_write(self.frames[self.next_frame()].page_id)
    }

    /// The pool after the next frame was made ready for another page: it
    /// left the free list, or its page was evicted, written to the store
    /// first if it was dirty.
    pub open spec fn vacate(self) -> PoolView
        recommends
            self.has_frame(),
            self.can_vacate(),
    {
        if self.free_list.len() > 0 {
            PoolView { free_list: self.free_list.drop_last(), ..self }
        } else {
            let f = self.replacer.victim().unwrap();
            let page = self.frames[f];
            PoolView {
                frames: self.frames.update(f, Page::fresh(INVALID_PAGE_ID)),
                replacer: self.replacer.remove(f),
                disk: if page.is_dirty {
                    self.disk.write(page.page_id, page.data)
                } else {
                    self.disk
                },
                ..self
            }
        }
    }

    /// The pool after a page was put in frame `f`: pinned once, clean, its
    /// access recorded, not evictable.
    pub open spec fn install(self, f: int, page_id: PageId, data: PageData) -> PoolView {
        PoolView {
            frames: self.frames.update(f, Page { page_id, data, pin_count: 1, is_dirty: false }),
            replacer: self.replacer.record_access(f).set_evictable(f, false),
            ..self
        }
    }

    /// The pool after a page that was not resident was brought in.
    pub open spec fn load(self, page_id: PageId, data: PageData) -> PoolView
        recommends
            self.has_frame(),
    {
        self.vacate().install(self.next_frame(), page_id, data)
    }

    /// The pool after the page in frame `f` got one more pin: the access is
    /// recorded and the frame is not evictable.
    pub open spec fn pin(self, f: int) -> PoolView {
        PoolView {
            frames: self.frames.update(
                f,
                Page { pin_count: (self.frames[f].pin_count + 1) as u32, ..self.frames[f] },
            ),
            replacer: self.replacer.record_access(f).set_evictable(f, false),
            ..self
        }
    }

    /// Fetching a page. A resident page gets one more pin, unless its
    /// counter is full. Any other page needs a frame, and must be in the
    /// store: it is then brought in, pinned once. Where a dirty page has to
    /// make room and the store cannot take it, the request fails.
    pub open spec fn fetch(self, page_id: PageId) -> (PoolView, Result<(), BufferPoolError>) {
        if self.is_resident(page_id) {
            let f = self.frame_of(page_id);
            if self.frames[f].pin_count == u32::MAX {
                (self, Err(BufferPoolError::TooManyPins))
            } else {
                (self.pin(f), Ok(()))
            }
        } else if !self.has_frame() {
            (self, Err(BufferPoolError::NoFrameAvailable))
        } else if !self.disk.pages.contains_key(page_id) {
            (self, Err(BufferPoolError::StorageIoError(StorageError::PageNotAllocated)))
        } else if !self.can_vacate() {
            (self, Err(BufferPoolError::StorageIoError(StorageError::OutOfSpace)))
        } else {
            (self.load(page_id, self.disk.pages[page_id]), Ok(()))
        }
    }

    /// Making a new page. It needs a frame, and an identifier from the
    /// store: the page is then put in the frame, zeroed and pinned once.
    /// Where a dirty page has to make room and the store cannot take it,
    /// the request fails.
    pub open spec fn new_page(self) -> (PoolView, Result<PageId, BufferPoolError>) {
        if !self.has_frame() {
            (self, Err(BufferPoolError::NoFrameAvailable))
        } else if !self.disk.can_allocate() || !self.can_vacate() {
            (self, Err(BufferPoolError::StorageIoError(StorageError::OutOfSpace)))
        } else {
            let page_id = self.disk.next_page_id as PageId;
            let allocated = PoolView { disk: self.disk.allocate(), ..self };
            (allocated.load(page_id, zeroed_data()), Ok(page_id))
        }
    }

    /// Giving up a pin. The page must be resident and pinned. Its dirty
    /// flag is or-ed with `is_dirty`; with its last pin gone the frame is
    /// evictable.
    pub open spec fn unpin(self, page_id: PageId, is_dirty: bool) -> (
        PoolView,
        Result<(), BufferPoolError>,
    ) {
        if !self.is_resident(page_id) || self.page(page_id).pin_count == 0 {
            (self, Err(BufferPoolError::InvalidUnpin))
        } else {
            let f = self.frame_of(page_id);
            let page = self.frames[f];
            let pins = (page.pin_count - 1) as u32;
            (
                PoolView {
                    frames: self.frames.update(
                        f,
                        Page { pin_count: pins, is_dirty: page.is_dirty || is_dirty, ..page },
                    ),
                    replacer: if pins == 0 {
                        self.replacer.set_evictable(f, true)
                    } else {
                        self.replacer
                    },
                    ..self
                },
                Ok(()),
            )
        }
    }

    /// Flushing a page. A resident page that is dirty is written to the
    /// store and is clean afterwards; where the store cannot take it, the
    /// request fails and the page stays dirty. Nothing is written for a
    /// clean page: the store has its content. Reports whether the page was
    /// resident.
    pub open spec fn flush(self, page_id: PageId) -> (PoolView, Result<bool, BufferPoolError>) {
        if !self.is_resident(page_id) {
            (self, Ok(false))
        } else {
            let f = self.frame_of(page_id);
            let page = self.frames[f];
            if !page.is_dirty {
                (self, Ok(true))
            } else if !self.disk.can_write(page_id) {
                (self, Err(BufferPoolError::StorageIoError(StorageError::OutOfSpace)))
            } else {
                (
                    PoolView {
                        frames: self.frames.update(f, Page { is_dirty: false, ..page }),
                        disk: self.disk.write(page_id, page.data),
                        ..self
                    },
                    Ok(true),
                )
            }
        }
    }

    /// The pool after the pages in the first `n` frames were flushed, one
    /// after the other.
    pub open spec fn flush_frames(self, n: nat) -> PoolView
        decreases n,
    {
        if n == 0 {
            self
        } else {
            let before = self.flush_frames((n - 1) as nat);
            before.flush(before.frames[n - 1].page_id).0
        }
    }

    /// Whether a page is dirty.
    pub open spec fn has_dirty_page(self) -> bool {
        exists|f: int| 0 <= f < self.frames.len() && (#[trigger] self.frames[f]).is_dirty
    }

    /// Flushing every page, frame by frame. The request fails where a page
    /// is still dirty afterwards: the store could not take it.
    pub open spec fn flush_all(self) -> (PoolView, Result<(), BufferPoolError>) {
        let after = self.flush_frames(self.frames.len());
        (
            after,
            if after.has_dirty_page() {
                Err(BufferPoolError::StorageIoError(StorageError::OutOfSpace))
            } else {
                Ok(())
            },
        )
    }

    /// Deleting a page. A pinned page is not deleted. Any other resident
    /// page leaves its frame, which is free afterwards, and the replacer
    /// forgets the frame. The store gives the page up. Reports whether the
    /// page existed.
    pub open spec fn delete(self, page_id: PageId) -> (PoolView, Result<bool, BufferPoolError>) {
        if self.is_resident(page_id) {
            let f = self.frame_of(page_id);
            if self.frames[f].pin_count > 0 {
                (self, Err(BufferPoolError::PageStillPinned))
            } else {
                (
                    PoolView {
                        frames: self.frames.update(f, Page::fresh(INVALID_PAGE_ID)),
                        free_list: self.free_list.push(f as usize),
                        replacer: self.replacer.remove(f),
                        disk: self.disk.deallocate(page_id),
                    },
                    Ok(true),
                )
            }
        } else {
            (
                PoolView { disk: self.disk.deallocate(page_id), ..self },
                Ok(self.disk.pages.contains_key(page_id)),
            )
        }
    }

    /// Writing the content of a page. The page must be resident and
    /// pinned; it is dirty afterwards. Reports whether it was written.
    pub open spec fn write(self, page_id: PageId, data: PageData) -> (PoolView, bool) {
        if self.is_resident(page_id) && self.page(page_id).pin_count > 0 {
            let f = self.frame_of(page_id);
            (
                PoolView {
                    frames: self.frames.update(f, Page { data, is_dirty: true, ..self.frames[f] }),
                    ..self
                },
                true,
            )
        } else {
            (self, false)
        }
    }

    /// In a well-formed pool the frame that holds a page is the only one.
    pub proof fn lemma_frame_of(self, f: int, page_id: PageId)
        requires
            self.wf(),
            self.holds(f, page_id),
        ensures
            self.is_resident(page_id),
            self.frame_of(page_id) == f,
    {
        let g = self.frame_of(page_id);
        assert(self.holds(g, page_id));
    }

    /// A page that no frame holds is in no frame.
    pub proof fn lemma_not_resident(self, page_id: PageId)
        requires
            !self.is_resident(page_id),
        ensures
            forall|f: int|
                0 <= f < self.frames.len() && page_id != INVALID_PAGE_ID ==> (
                #[trigger] self.frames[f]).page_id != page_id,
    {
        assert forall|f: int|
            0 <= f < self.frames.len() && page_id != INVALID_PAGE_ID implies (
        #[trigger] self.frames[f]).page_id != page_id by {
            if self.frames[f].page_id == page_id {
                assert(self.holds(f, page_id));
            }
        }
    }

    /// A pool of empty frames is well formed.
    pub proof fn lemma_fresh_wf(capacity: nat, k: nat, disk: DiskView)
        requires
            capacity <= usize::MAX,
            k >= 1,
            disk.wf(),
        ensures
            Self::fresh(capacity, k, disk).wf(),
    {
        let s = Self::fresh(capacity, k, disk);
        assert forall|f: int| 0 <= f < s.frames.len() && (#[trigger] s.frames[f]).page_id
            == INVALID_PAGE_ID implies s.free_list.contains(f as usize) by {
            assert(s.free_list[capacity - 1 - f] == f as usize);
        }
        assert forall|f: int| 0 <= f < s.frames.len() implies #[trigger] s.frame_ok(f) by {}
    }

    /// The next frame of a well-formed pool is one of its frames. Where it
    /// comes from the replacer, its page has no pin.
    pub proof fn lemma_next_frame(self)
        requires
            self.wf(),
            self.has_frame(),
        ensures
            0 <= self.next_frame() < self.frames.len(),
            self.free_list.len() > 0 ==> self.frames[self.next_frame()].page_id
                == INVALID_PAGE_ID,
            self.free_list.len() == 0 ==> self.frames[self.next_frame()].page_id
                != INVALID_PAGE_ID && self.frames[self.next_frame()].pin_count == 0,
    {
        if self.free_list.len() > 0 {
            assert(self.free_list[self.free_list.len() - 1] < self.frames.len());
        } else {
            self.replacer.lemma_victim();
            let f = self.replacer.victim().unwrap();
            assert(self.replacer.is_victim(f));
            assert(self.frame_ok(f));
        }
    }

    /// Bringing in a page that is not resident keeps the pool well formed.
    pub proof fn lemma_load_wf(self, page_id: PageId, data: PageData)
        requires
            self.wf(),
            self.has_frame(),
            self.can_vacate(),
            !self.is_resident(page_id),
            self.disk.pages.contains_key(page_id),
            self.disk.pages[page_id] == data,
        ensures
            self.load(page_id, data).wf(),
            self.load(page_id, data).holds(self.next_frame(), page_id),
    {
        let f = self.next_frame();
        let v = self.vacate();
        let s = self.load(page_id, data);
        self.lemma_next_frame();
        self.disk.lemma_wf_preserved(self.frames[f].page_id, self.frames[f].data);
        self.lemma_not_resident(page_id);
        self.replacer.lemma_wf_preserved(f, false);
        v.replacer.lemma_wf_preserved(f, false);
        v.replacer.record_access(f).lemma_wf_preserved(f, false);
        assert(page_id != INVALID_PAGE_ID);
        assert(0 <= f < self.frames.len());
        assert(self.frame_ok(f));
        assert(s.frames.len() == self.frames.len());
        assert(s.replacer.records.len() == self.replacer.records.len());
        assert(s.replacer.wf());
        assert(s.disk.wf());
        assert forall|g: int| 0 <= g < s.frames.len() implies #[trigger] s.frame_ok(g) by {
            assert(self.frame_ok(g));
            if g != f && self.frames[g].page_id != INVALID_PAGE_ID {
                assert(self.frames[g].page_id != self.frames[f].page_id);
            }
        }
        assert forall|g: int, h: int|
            #![trigger s.frames[g], s.frames[h]]
            0 <= g < s.frames.len() && 0 <= h < s.frames.len() && s.frames[g].page_id
                != INVALID_PAGE_ID && s.frames[g].page_id == s.frames[h].page_id implies g
            == h by {
            if g != f && h != f {
                assert(self.frames[g].page_id == self.frames[h].page_id);
            } else if g != f {
                assert(self.frames[g].page_id != page_id);
            } else if h != f {
                assert(self.frames[h].page_id != page_id);
            }
        }
        assert(s.free_list_ok()) by {
            assert forall|i: int| 0 <= i < s.free_list.len() implies {
                &&& (#[trigger] s.free_list[i]) < s.frames.len()
                &&& s.frames[s.free_list[i] as int].page_id == INVALID_PAGE_ID
            } by {
                assert(s.free_list[i] == self.free_list[i]);
                if self.free_list.len() > 0 {
                    assert(self.free_list[i] != self.free_list[self.free_list.len() - 1]);
                }
            }
            assert forall|g: int|
                0 <= g < s.frames.len() && (#[trigger] s.frames[g]).page_id
                    == INVALID_PAGE_ID implies s.free_list.contains(g as usize) by {
                assert(g != f);
                assert(self.frames[g].page_id == INVALID_PAGE_ID);
                assert(self.free_list.contains(g as usize));
                let i = choose|i: int|
                    0 <= i < self.free_list.len() && self.free_list[i] == g as usize;
                assert(i < self.free_list.len() - 1);
                assert(s.free_list[i] == g as usize);
            }
        }
    }

    /// One more pin on a resident page keeps the pool well formed.
    pub proof fn lemma_pin_wf(self, f: int)
        requires
            self.wf(),
            0 <= f < self.frames.len(),
            self.frames[f].page_id != INVALID_PAGE_ID,
            self.frames[f].pin_count < u32::MAX,
        ensures
            self.pin(f).wf(),
    {
        let s = self.pin(f);
        self.replacer.lemma_wf_preserved(f, false);
        self.replacer.record_access(f).lemma_wf_preserved(f, false);
        assert forall|g: int| 0 <= g < s.frames.len() implies #[trigger] s.frame_ok(g) by {
            assert(self.frame_ok(g));
        }
        assert forall|g: int, h: int|
            #![trigger s.frames[g], s.frames[h]]
            0 <= g < s.frames.len() && 0 <= h < s.frames.len() && s.frames[g].page_id
                != INVALID_PAGE_ID && s.frames[g].page_id == s.frames[h].page_id implies g
            == h by {
            assert(self.frames[g].page_id == self.frames[h].page_id);
        }
        assert(s.free_list_ok()) by {
            assert forall|g: int|
                0 <= g < s.frames.len() && (#[trigger] s.frames[g]).page_id
                    == INVALID_PAGE_ID implies s.free_list.contains(g as usize) by {
                assert(self.frames[g].page_id == INVALID_PAGE_ID);
            }
        }
    }

    /// A change to the page in frame `f` that keeps its identity, and to
    /// the store at that page alone, keeps the pool well formed as long as
    /// the frame still agrees with the replacer and the store.
    pub proof fn lemma_update_wf(self, after: PoolView, f: int)
        requires
            self.wf(),
            0 <= f < self.frames.len(),
            self.frames[f].page_id != INVALID_PAGE_ID,
            after.frames == self.frames.update(f, after.frames[f]),
            after.frames[f].page_id == self.frames[f].page_id,
            after.free_list == self.free_list,
            after.replacer.wf(),
            after.replacer.records.len() == self.replacer.records.len(),
            forall|g: int|
                0 <= g < self.frames.len() && g != f ==> #[trigger] after.replacer.records[g]
                    == self.replacer.records[g],
            after.disk.wf(),
            after.disk.pages.dom() == self.disk.pages.dom(),
            forall|p: PageId|
                p != self.frames[f].page_id && self.disk.pages.contains_key(p)
                    ==> #[trigger] after.disk.pages[p] == self.disk.pages[p],
            after.frame_ok(f),
        ensures
            after.wf(),
    {
        assert forall|g: int| 0 <= g < after.frames.len() implies #[trigger] after.frame_ok(
            g,
        ) by {
            assert(self.frame_ok(g));
            if g != f && self.frames[g].page_id != INVALID_PAGE_ID {
                assert(self.frames[g].page_id != self.frames[f].page_id);
                assert(after.disk.pages.dom().contains(self.frames[g].page_id));
            }
        }
        assert forall|g: int, h: int|
            #![trigger after.frames[g], after.frames[h]]
            0 <= g < after.frames.len() && 0 <= h < after.frames.len() && after.frames[g].page_id
                != INVALID_PAGE_ID && after.frames[g].page_id
                == after.frames[h].page_id implies g == h by {
            assert(self.frames[g].page_id == self.frames[h].page_id);
        }
        assert(after.free_list_ok()) by {
            assert forall|g: int|
                0 <= g < after.frames.len() && (#[trigger] after.frames[g]).page_id
                    == INVALID_PAGE_ID implies after.free_list.contains(g as usize) by {
                assert(self.frames[g].page_id == INVALID_PAGE_ID);
            }
        }
    }

    /// Writing the dirty page of the next frame back first, and bringing a
    /// page in then, is bringing the page in; and so it is where a new page
    /// is allocated in between.
    pub proof fn lemma_write_back_then_load(self, page_id: PageId, data: PageData)
        requires
            self.wf(),
            self.has_frame(),
            self.can_vacate(),
            self.free_list.len() == 0,
        ensures
            ({
                let f = self.next_frame();
                let cleaned = self.flush(self.frames[f].page_id).0;
                &&& cleaned.wf()
                &&& cleaned.has_frame()
                &&& cleaned.next_frame() == f
                &&& !cleaned.frames[f].is_dirty
                &&& cleaned.can_vacate()
                &&& cleaned.free_list == self.free_list
                &&& cleaned.disk.can_allocate() == self.disk.can_allocate()
                &&& cleaned.disk.next_page_id == self.disk.next_page_id
                &&& !self.is_resident(page_id) ==> !cleaned.is_resident(page_id)
                &&& !self.is_resident(page_id) && self.disk.pages.contains_key(page_id)
                    ==> cleaned.disk.pages.contains_key(page_id) && cleaned.disk.pages[page_id]
                    == self.disk.pages[page_id]
                &&& cleaned.load(page_id, data) == self.load(page_id, data)
                &&& self.disk.can_allocate() ==> (PoolView {
                    disk: cleaned.disk.allocate(),
                    ..cleaned
                }).load(page_id, data) == (PoolView { disk: self.disk.allocate(), ..self }).load(
                    page_id,
                    data,
                )
            }),
    {
        let f = self.next_frame();
        let victim = self.frames[f].page_id;
        let cleaned = self.flush(victim).0;
        self.lemma_next_frame();
        self.lemma_frame_of(f, victim);
        self.lemma_flush_wf(victim);
        assert(self.frame_ok(f));
        if cleaned.is_resident(page_id) {
            let g = cleaned.frame_of(page_id);
            assert(cleaned.holds(g, page_id));
            assert(self.holds(g, page_id));
        }
        if !self.is_resident(page_id) {
            self.lemma_not_resident(page_id);
        }
        let a = cleaned.load(page_id, data);
        let b = self.load(page_id, data);
        assert(a.frames =~= b.frames);
        assert(a == b);
        if self.disk.can_allocate() {
            let c = (PoolView { disk: cleaned.disk.allocate(), ..cleaned }).load(page_id, data);
            let d = (PoolView { disk: self.disk.allocate(), ..self }).load(page_id, data);
            assert(self.disk.pages.contains_key(victim));
            assert(victim != self.disk.next_page_id as PageId);
            assert(c.frames =~= d.frames);
            assert(c.disk.pages =~= d.disk.pages);
            assert(c.disk.stored =~= d.disk.stored);
            assert(c.disk == d.disk);
            assert(c == d);
        }
    }

    /// Fetching a page keeps the pool well formed.
    pub proof fn lemma_fetch_wf(self, page_id: PageId)
        requires
            self.wf(),
        ensures
            self.fetch(page_id).0.wf(),
    {
        if self.is_resident(page_id) {
            let f = self.frame_of(page_id);
            assert(self.holds(f, page_id));
            if self.frames[f].pin_count < u32::MAX {
                self.lemma_pin_wf(f);
            }
        } else if self.has_frame() && self.disk.pages.contains_key(page_id) && self.can_vacate() {
            self.lemma_load_wf(page_id, self.disk.pages[page_id]);
        }
    }

    /// The pool with a new page allocated in its store is well formed, and
    /// the new page is not resident.
    pub proof fn lemma_allocate_wf(self)
        requires
            self.wf(),
            self.disk.can_allocate(),
        ensures
            (PoolView { disk: self.disk.allocate(), ..self }).wf(),
            !self.is_resident(self.disk.next_page_id as PageId),
            !self.disk.pages.contains_key(self.disk.next_page_id as PageId),
    {
        let s = PoolView { disk: self.disk.allocate(), ..self };
        let page_id = self.disk.next_page_id as PageId;
        self.disk.lemma_wf_preserved(page_id, zeroed_data());
        if self.is_resident(page_id) {
            let f = self.frame_of(page_id);
            assert(self.holds(f, page_id));
            assert(self.frame_ok(f));
        }
        assert forall|g: int| 0 <= g < s.frames.len() implies #[trigger] s.frame_ok(g) by {
            assert(self.frame_ok(g));
        }
    }

    /// Making a new page keeps the pool well formed.
    pub proof fn lemma_new_page_wf(self)
        requires
            self.wf(),
        ensures
            self.new_page().0.wf(),
    {
        if self.has_frame() && self.disk.can_allocate() && self.can_vacate() {
            let page_id = self.disk.next_page_id as PageId;
            let allocated = PoolView { disk: self.disk.allocate(), ..self };
            self.lemma_allocate_wf();
            self.lemma_next_frame();
            assert(self.frame_ok(self.next_frame()));
            assert(!allocated.is_resident(page_id)) by {
                if allocated.is_resident(page_id) {
                    let f = allocated.frame_of(page_id);
                    assert(allocated.holds(f, page_id));
                    assert(self.holds(f, page_id));
                }
            }
            assert(allocated.has_frame());
            assert(allocated.can_vacate());
            allocated.lemma_load_wf(page_id, zeroed_data());
        }
    }

    /// Giving up a pin keeps the pool well formed.
    pub proof fn lemma_unpin_wf(self, page_id: PageId, is_dirty: bool)
        requires
            self.wf(),
        ensures
            self.unpin(page_id, is_dirty).0.wf(),
    {
        if self.is_resident(page_id) && self.page(page_id).pin_count > 0 {
            let f = self.frame_of(page_id);
            assert(self.holds(f, page_id));
            assert(self.frame_ok(f));
            let after = self.unpin(page_id, is_dirty).0;
            self.replacer.lemma_wf_preserved(f, true);
            self.lemma_update_wf(after, f);
        }
    }

    /// Flushing a page keeps the pool well formed.
    pub proof fn lemma_flush_wf(self, page_id: PageId)
        requires
            self.wf(),
        ensures
            self.flush(page_id).0.wf(),
    {
        if self.is_resident(page_id) {
            let f = self.frame_of(page_id);
            assert(self.holds(f, page_id));
            assert(self.frame_ok(f));
            if self.frames[f].is_dirty && self.disk.can_write(page_id) {
                let after = self.flush(page_id).0;
                self.disk.lemma_wf_preserved(page_id, self.frames[f].data);
                assert(after.disk.pages.dom() =~= self.disk.pages.dom());
                self.lemma_update_wf(after, f);
            }
        }
    }

    /// Writing to a page keeps the pool well formed.
    pub proof fn lemma_write_wf(self, page_id: PageId, data: PageData)
        requires
            self.wf(),
        ensures
            self.write(page_id, data).0.wf(),
    {
        if self.is_resident(page_id) && self.page(page_id).pin_count > 0 {
            let f = self.frame_of(page_id);
            assert(self.holds(f, page_id));
            assert(self.frame_ok(f));
            let after = self.write(page_id, data).0;
            self.lemma_update_wf(after, f);
        }
    }

    /// Flushing the first `n` frames keeps the pool well formed. It changes
    /// no frame but for its dirty flag, which it may clear, and leaves the
    /// other frames, the free list and the replacer as they were.
    pub proof fn lemma_flush_frames(self, n: nat)
        requires
            self.wf(),
            n <= self.frames.len(),
        ensures
            self.flush_frames(n).wf(),
            self.flush_frames(n).frames.len() == self.frames.len(),
            self.flush_frames(n).free_list == self.free_list,
            self.flush_frames(n).replacer == self.replacer,
            forall|f: int|
                0 <= f < self.frames.len() ==> {
                    let page = #[trigger] self.flush_frames(n).frames[f];
                    &&& page == (Page { is_dirty: page.is_dirty, ..self.frames[f] })
                    &&& page.is_dirty ==> self.frames[f].is_dirty
                    &&& f >= n ==> page == self.frames[f]
                },
        decreases n,
    {
        if n > 0 {
            let before = self.flush_frames((n - 1) as nat);
            self.lemma_flush_frames((n - 1) as nat);
            let page_id = before.frames[n - 1].page_id;
            before.lemma_flush_wf(page_id);
            assert(before.frame_ok(n - 1));
            if before.is_resident(page_id) {
                assert(before.holds(before.frame_of(page_id), page_id));
                assert(before.holds(n - 1, page_id));
                before.lemma_frame_of(n - 1, page_id);
            }
        }
    }

    /// Deleting a page keeps the pool well formed.
    pub proof fn lemma_delete_wf(self, page_id: PageId)
        requires
            self.wf(),
        ensures
            self.delete(page_id).0.wf(),
    {
        let s = self.delete(page_id).0;
        self.disk.lemma_wf_preserved(page_id, zeroed_data());
        if self.is_resident(page_id) {
            let f = self.frame_of(page_id);
            assert(self.holds(f, page_id));
            if self.frames[f].pin_count == 0 {
                self.replacer.lemma_wf_preserved(f, false);
                assert forall|g: int| 0 <= g < s.frames.len() implies #[trigger] s.frame_ok(
                    g,
                ) by {
                    assert(self.frame_ok(g));
                    if g != f && self.frames[g].page_id != INVALID_PAGE_ID {
                        assert(self.frames[g].page_id != self.frames[f].page_id);
                    }
                }
                assert forall|g: int, h: int|
                    #![trigger s.frames[g], s.frames[h]]
                    0 <= g < s.frames.len() && 0 <= h < s.frames.len() && s.frames[g].page_id
                        != INVALID_PAGE_ID && s.frames[g].page_id
                        == s.frames[h].page_id implies g == h by {
                    assert(self.frames[g].page_id == self.frames[h].page_id);
                }
                assert(s.free_list_ok()) by {
                    assert forall|i: int, j: int| 0 <= i < j < s.free_list.len() implies (
                    #[trigger] s.free_list[i]) != #[trigger] s.free_list[j] by {
                        if j == self.free_list.len() {
                            assert(self.frames[self.free_list[i] as int].page_id
                                == INVALID_PAGE_ID);
                        }
                    }
                    assert forall|g: int|
                        0 <= g < s.frames.len() && (#[trigger] s.frames[g]).page_id
                            == INVALID_PAGE_ID implies s.free_list.contains(g as usize) by {
                        if g == f {
                            assert(s.free_list[self.free_list.len() as int] == f as usize);
                        } else {
                            assert(self.frames[g].page_id == INVALID_PAGE_ID);
                            let i = choose|i: int|
                                0 <= i < self.free_list.len() && self.free_list[i] == g as usize;
                            assert(s.free_list[i] == g as usize);
                        }
                    }
                }
            }
        } else {
            self.lemma_not_resident(page_id);
            assert forall|g: int| 0 <= g < s.frames.len() implies #[trigger] s.frame_ok(g) by {
                assert(self.frame_ok(g));
            }
        }
    }
}

} // verus!
