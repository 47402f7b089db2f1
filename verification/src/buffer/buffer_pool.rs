//! The buffer pool manager: it resolves page requests to frames, drives
//! eviction and write-back, and keeps the pin counts.
//!
//! The manager holds the frames, the frame table that tells where each
//! resident page is and which frames are free, the replacer that picks the
//! page to evict, and the disk manager that stores the pages.
//!
//! What each operation does is stated by the function of the same name of
//! `PoolView`. The manager is the sequential core of the pool: a caller
//! that shares it among threads wraps it in a lock.

use crate::buffer::frame_table::FrameTable;
use crate::buffer::page::zeroed_data;
use crate::buffer::page::Page;
use crate::buffer::page::PageData;
use crate::buffer::page::PageId;
use crate::buffer::page::BUSTUBX_PAGE_SIZE;
use crate::buffer::page::INVALID_PAGE_ID;
use crate::buffer::pool_laws::PoolOp;
use crate::buffer::pool_state::BufferPoolError;
use crate::buffer::pool_state::PoolView;
use crate::buffer::replacer::LruKReplacer;
use crate::storage::disk_manager::DiskManager;
use crate::storage::disk_manager::StorageError;
use vstd::prelude::*;

verus! {

/// What a guard lets its holder do with the page.
#[derive(Debug, Clone, Copy, PartialEq, Eq, Structural)]
pub enum AccessMode {
    /// Shared access: the content can be read.
    Read,
    /// Exclusive access: the content can be read and written.
    Write,
}

/// A handle on a pinned page. It stands for one pin, which `release` gives
/// up; a write guard marks the page dirty when it is released.
#[derive(Debug)]
pub struct PageGuard {
    page_id: PageId,
    mode: AccessMode,
}

impl PageGuard {
    /// The page that the guard is for.
    pub closed spec fn id(&self) -> PageId {
        self.page_id
    }

    /// The access that the guard grants.
    pub closed spec fn access(&self) -> AccessMode {
        self.mode
    }

    /// The page that the guard is for.
    pub fn page_id(&self) -> (page_id: PageId)
        ensures
            page_id == self.id(),
    {
        self.page_id
    }

    /// The access that the guard grants.
    pub fn mode(&self) -> (mode: AccessMode)
        ensures
            mode == self.access(),
    {
        self.mode
    }
}

/// The buffer pool manager.
pub struct BufferPoolManager {
    frames: Vec<Page>,
    table: FrameTable,
    replacer: LruKReplacer,
    disk: DiskManager,
}

impl View for BufferPoolManager {
    type V = PoolView;

    closed spec fn view(&self) -> PoolView {
        PoolView {
            frames: self.frames@,
            free_list: self.table@.free_list,
            replacer: self.replacer@,
            disk: self.disk@,
        }
    }
}

/// The page table names, for every resident page and no other, the frame
/// that holds it.
spec fn table_ok(table: Map<PageId, usize>, frames: Seq<Page>) -> bool {
    &&& forall|page_id: PageId| #[trigger]
        table.contains_key(page_id) ==> {
            &&& page_id != INVALID_PAGE_ID
            &&& table[page_id] < frames.len()
            &&& frames[table[page_id] as int].page_id == page_id
        }
    &&& forall|f: int|
        0 <= f < frames.len() && (#[trigger] frames[f]).page_id != INVALID_PAGE_ID
            ==> table.contains_key(frames[f].page_id)
}

/// A change to one frame that keeps its identity keeps the page table
/// right.
proof fn lemma_table_same_ids(table: Map<PageId, usize>, before: Seq<Page>, after: Seq<Page>)
    requires
        table_ok(table, before),
        after.len() == before.len(),
        forall|f: int| 0 <= f < before.len() ==> (#[trigger] after[f]).page_id == before[f].page_id,
    ensures
        table_ok(table, after),
{
    assert forall|f: int|
        0 <= f < after.len() && (#[trigger] after[f]).page_id
            != INVALID_PAGE_ID implies table.contains_key(after[f].page_id) by {
        assert(before[f].page_id != INVALID_PAGE_ID);
    }
}

impl BufferPoolManager {
    /// The manager is well formed: so is what it holds, and the page table
    /// agrees with the frames.
    pub closed spec fn wf(&self) -> bool {
        &&& self@.wf()
        &&& self.replacer.wf()
        &&& self.disk.wf()
        &&& self.table@.wf()
        &&& self.table@.num_frames == self.frames@.len()
        &&& table_ok(self.table@.frame_of, self.frames@)
    }

    /// A well-formed manager holds a well-formed pool.
    pub proof fn lemma_view_wf(&self)
        requires
            self.wf(),
        ensures
            self@.wf(),
    {
    }

    /// A pool of `capacity` empty frames over `disk`, with a replacer of
    /// history depth `k`.
    pub fn new(capacity: usize, k: usize, disk: DiskManager) -> (pool: Self)
        requires
            k >= 1,
            disk.wf(),
        ensures
            pool.wf(),
            pool@ == PoolView::fresh(capacity as nat, k as nat, disk@),
    {
        let mut frames: Vec<Page> = Vec::new();
        let mut f: usize = 0;
        while f < capacity
            invariant
                f <= capacity,
                frames@.len() == f,
                forall|g: int| 0 <= g < f ==> #[trigger] frames@[g] == Page::fresh(INVALID_PAGE_ID),
            decreases capacity - f,
        {
            frames.push(Page::new(INVALID_PAGE_ID));
            f = f + 1;
        }
        let table = FrameTable::new(capacity);
        let replacer = LruKReplacer::new(capacity, k);
        let pool = Self { frames, table, replacer, disk };
        proof {
            let fresh = PoolView::fresh(capacity as nat, k as nat, disk@);
            assert(pool@.frames =~= fresh.frames);
            assert(pool@.free_list =~= fresh.free_list);
            disk.lemma_view_wf();
            PoolView::lemma_fresh_wf(capacity as nat, k as nat, disk@);
        }
        pool
    }

    /// Number of frames.
    pub fn capacity(&self) -> (capacity: usize)
        ensures
            capacity == self@.frames.len(),
    {
        self.frames.len()
    }

    /// Number of frames that hold nothing.
    pub fn free_frame_count(&self) -> (count: usize)
        ensures
            count == self@.free_list.len(),
    {
        self.table.free_count()
    }

    /// Number of frames that may be evicted.
    pub fn evictable_count(&self) -> (count: usize)
        requires
            self.wf(),
        ensures
            count == self@.replacer.size(),
    {
        self.replacer.size()
    }

    /// The backing store.
    pub fn disk(&self) -> (disk: &DiskManager)
        requires
            self.wf(),
        ensures
            disk.wf(),
            disk@ == self@.disk,
    {
        &self.disk
    }

    /// Gives up the pool and hands back the store as it is: what was not
    /// flushed is not in it.
    pub fn into_disk(self) -> (disk: DiskManager)
        requires
            self.wf(),
        ensures
            disk.wf(),
            disk@ == self@.disk,
    {
        self.disk
    }

    /// The frame that holds a page, if the page is resident.
    fn frame_index(&self, page_id: PageId) -> (frame: Option<usize>)
        requires
            self.wf(),
        ensures
            match frame {
                Some(f) => self@.holds(f as int, page_id) && self@.is_resident(page_id)
                    && self@.frame_of(page_id) == f,
                None => !self@.is_resident(page_id),
            },
    {
        match self.table.lookup(page_id) {
            Some(f) => {
                proof {
                    assert(self.table@.frame_of.contains_key(page_id));
                    self@.lemma_frame_of(f as int, page_id);
                }
                Some(f)
            },
            None => {
                proof {
                    if self@.is_resident(page_id) {
                        let g = self@.frame_of(page_id);
                        assert(self@.holds(g, page_id));
                        assert(self.frames@[g].page_id != INVALID_PAGE_ID);
                    }
                }
                None
            },
        }
    }

    /// Whether a page is resident.
    pub fn is_resident(&self, page_id: PageId) -> (resident: bool)
        requires
            self.wf(),
        ensures
            resident == self@.is_resident(page_id),
    {
        self.frame_index(page_id).is_some()
    }

    /// The pin count of a page; `None` for a page that is not resident.
    pub fn pin_count(&self, page_id: PageId) -> (pins: Option<u32>)
        requires
            self.wf(),
        ensures
            pins is Some <==> self@.is_resident(page_id),
            pins matches Some(n) ==> n == self@.page(page_id).pin_count,
    {
        match self.frame_index(page_id) {
            Some(f) => Some(self.frames[f].pin_count),
            None => None,
        }
    }

    /// Whether a page is dirty; `None` for a page that is not resident.
    pub fn is_dirty(&self, page_id: PageId) -> (dirty: Option<bool>)
        requires
            self.wf(),
        ensures
            dirty is Some <==> self@.is_resident(page_id),
            dirty matches Some(d) ==> d == self@.page(page_id).is_dirty,
    {
        match self.frame_index(page_id) {
            Some(f) => Some(self.frames[f].is_dirty),
            None => None,
        }
    }

    /// The frame that the next page is put in, if one can be had.
    fn next_frame(&self) -> (frame: Option<usize>)
        requires
            self.wf(),
        ensures
            match frame {
                Some(f) => self@.has_frame() && f == self@.next_frame(),
                None => !self@.has_frame(),
            },
    {
        match self.table.peek_free() {
            Some(f) => Some(f),
            None => self.replacer.peek_victim(),
        }
    }

    /// Writes the page of the next frame back if it is dirty, so that the
    /// frame can take another page. Fails, and changes nothing, where the
    /// store cannot take the page.
    fn make_room(&mut self, f: usize) -> (result: Result<(), BufferPoolError>)
        requires
            old(self).wf(),
            old(self)@.has_frame(),
            f == old(self)@.next_frame(),
        ensures
            final(self).wf(),
            match result {
                Ok(()) => old(self)@.can_vacate() && final(self)@ == (if old(self)@.free_list.len()
                    > 0 {
                    old(self)@
                } else {
                    old(self)@.flush(old(self)@.frames[f as int].page_id).0
                }),
                Err(e) => !old(self)@.can_vacate() && e == BufferPoolError::StorageIoError(
                    StorageError::OutOfSpace,
                ) && final(self)@ == old(self)@,
            },
    {
        if self.table.free_count() > 0 {
            return Ok(());
        }
        proof {
            self@.lemma_next_frame();
            self@.lemma_frame_of(f as int, self@.frames[f as int].page_id);
            assert(self@.frame_ok(f as int));
        }
        match self.flush_frame(f) {
            Ok(_) => Ok(()),
            Err(e) => Err(e),
        }
    }

    /// Brings a page that is not resident into the next frame: the frame
    /// leaves the free list, or its page, which is clean, is evicted.
    fn load(&mut self, f: usize, page_id: PageId, data: PageData)
        requires
            old(self).wf(),
            old(self)@.has_frame(),
            f == old(self)@.next_frame(),
            old(self)@.free_list.len() > 0 || !old(self)@.frames[f as int].is_dirty,
            !old(self)@.is_resident(page_id),
            old(self)@.disk.pages.contains_key(page_id),
            old(self)@.disk.pages[page_id] == data,
        ensures
            final(self).wf(),
            final(self)@ == old(self)@.load(page_id, data),
    {
        proof {
            old(self)@.lemma_load_wf(page_id, data);
            old(self)@.lemma_next_frame();
            old(self)@.lemma_not_resident(page_id);
        }
        let ghost before = self@;
        let ghost table = self.table@.frame_of;
        assert(!table.contains_key(page_id));
        if self.table.free_count() > 0 {
            let taken = self.table.take_free();
            assert(taken == Some(f));
        } else {
            let victim_id = self.frames[f].page_id;
            assert(before.frame_ok(f as int));
            proof {
                assert(table.contains_key(victim_id));
                assert(before.holds(table[victim_id] as int, victim_id));
                before.lemma_frame_of(f as int, victim_id);
                before.lemma_frame_of(table[victim_id] as int, victim_id);
            }
            let removed = self.table.remove(victim_id);
            assert(removed == Some(f));
            self.replacer.remove(f);
        }
        self.frames[f] = Page { page_id, data, pin_count: 1, is_dirty: false };
        self.table.insert(page_id, f);
        self.replacer.record_access(f);
        self.replacer.set_evictable(f, false);
        proof {
            let after = before.load(page_id, data);
            assert(self@.frames =~= after.frames);
            assert(self@.free_list =~= after.free_list);
            assert(self@ == after);
            assert(table_ok(self.table@.frame_of, self.frames@)) by {
                assert forall|p: PageId| #[trigger]
                    self.table@.frame_of.contains_key(p) implies p != INVALID_PAGE_ID
                    && self.table@.frame_of[p] < self.frames@.len()
                    && self.frames@[self.table@.frame_of[p] as int].page_id == p by {
                    if p != page_id {
                        assert(table.contains_key(p));
                        assert(table[p] != f);
                    }
                }
                assert forall|g: int|
                    0 <= g < self.frames@.len() && (#[trigger] self.frames@[g]).page_id
                        != INVALID_PAGE_ID implies self.table@.frame_of.contains_key(
                    self.frames@[g].page_id,
                ) by {
                    if g != f {
                        assert(before.frames[g].page_id != INVALID_PAGE_ID);
                        assert(table.contains_key(before.frames[g].page_id));
                    }
                }
            }
        }
    }

    /// Fetches a page and pins it: `PoolView::fetch` says what becomes of
    /// the pool and when the request fails. The guard stands for the pin.
    pub fn fetch_page(&mut self, page_id: PageId, mode: AccessMode) -> (result: Result<
        PageGuard,
        BufferPoolError,
    >)
        requires
            old(self).wf(),
        ensures
            final(self).wf(),
            final(self)@ == old(self)@.fetch(page_id).0,
            match result {
                Ok(guard) => old(self)@.fetch(page_id).1 is Ok && guard.id() == page_id
                    && guard.access() == mode,
                Err(e) => old(self)@.fetch(page_id).1 == Err::<(), BufferPoolError>(e),
            },
            result is Ok ==> {
                &&& final(self)@.is_resident(page_id)
                &&& final(self)@.pin_count(page_id) == old(self)@.pin_count(page_id) + 1
                &&& final(self)@.content(page_id) == old(self)@.content(page_id)
            },
            result is Err ==> final(self)@ == old(self)@,
    {
        proof {
            old(self)@.lemma_fetch_wf(page_id);
            old(self)@.lemma_step(PoolOp::Fetch(page_id), page_id);
        }
        match self.frame_index(page_id) {
            Some(f) => {
                if self.frames[f].pin_count == u32::MAX {
                    return Err(BufferPoolError::TooManyPins);
                }
                self.frames[f].pin_count = self.frames[f].pin_count + 1;
                self.replacer.record_access(f);
                self.replacer.set_evictable(f, false);
                proof {
                    assert(self@.frames =~= old(self)@.pin(f as int).frames);
                    lemma_table_same_ids(self.table@.frame_of, old(self).frames@, self.frames@);
                }
                Ok(PageGuard { page_id, mode })
            },
            None => {
                let f = match self.next_frame() {
                    Some(f) => f,
                    None => {
                        return Err(BufferPoolError::NoFrameAvailable);
                    },
                };
                let data = match self.disk.read_page(page_id) {
                    Ok(data) => data,
                    Err(e) => {
                        return Err(BufferPoolError::StorageIoError(e));
                    },
                };
                match self.make_room(f) {
                    Ok(()) => {},
                    Err(e) => {
                        return Err(e);
                    },
                }
                proof {
                    if old(self)@.free_list.len() == 0 {
                        old(self)@.lemma_write_back_then_load(page_id, data);
                    }
                }
                self.load(f, page_id, data);
                Ok(PageGuard { page_id, mode })
            },
        }
    }

    /// Makes a new page and pins it: `PoolView::new_page` says what becomes
    /// of the pool and when the request fails. The guard is a write guard.
    pub fn new_page(&mut self) -> (result: Result<(PageId, PageGuard), BufferPoolError>)
        requires
            old(self).wf(),
        ensures
            final(self).wf(),
            final(self)@ == old(self)@.new_page().0,
            match result {
                Ok((page_id, guard)) => old(self)@.new_page().1 == Ok::<PageId, BufferPoolError>(
                    page_id,
                ) && guard.id() == page_id && guard.access() == AccessMode::Write,
                Err(e) => old(self)@.new_page().1 == Err::<PageId, BufferPoolError>(e),
            },
            result matches Ok((page_id, _)) ==> {
                &&& page_id != INVALID_PAGE_ID
                &&& !old(self)@.exists_page(page_id)
                &&& final(self)@.is_resident(page_id)
                &&& final(self)@.page(page_id) == (Page {
                    page_id,
                    data: zeroed_data(),
                    pin_count: 1,
                    is_dirty: false,
                })
            },
            result is Err ==> final(self)@ == old(self)@,
    {
        proof {
            old(self)@.lemma_new_page_wf();
            old(self).disk.lemma_view_wf();
            old(self)@.law_new_page_made();
        }
        let f = match self.next_frame() {
            Some(f) => f,
            None => {
                return Err(BufferPoolError::NoFrameAvailable);
            },
        };
        if !self.disk.can_allocate() {
            return Err(BufferPoolError::StorageIoError(StorageError::OutOfSpace));
        }
        match self.make_room(f) {
            Ok(()) => {},
            Err(e) => {
                return Err(e);
            },
        }
        let ghost cleaned = self@;
        proof {
            if old(self)@.free_list.len() == 0 {
                old(self)@.lemma_write_back_then_load(
                    old(self)@.disk.next_page_id as PageId,
                    zeroed_data(),
                );
            }
            self.disk.lemma_view_wf();
        }
        let page_id = match self.disk.allocate_page() {
            Ok(page_id) => page_id,
            Err(e) => {
                return Err(BufferPoolError::StorageIoError(e));
            },
        };
        proof {
            cleaned.lemma_allocate_wf();
            cleaned.lemma_next_frame();
            assert(!self@.is_resident(page_id)) by {
                if self@.is_resident(page_id) {
                    let g = self@.frame_of(page_id);
                    assert(self@.holds(g, page_id));
                    assert(cleaned.holds(g, page_id));
                }
            }
        }
        self.load(f, page_id, [0;BUSTUBX_PAGE_SIZE]);
        Ok((page_id, PageGuard { page_id, mode: AccessMode::Write }))
    }

    /// Gives up one pin of a page: `PoolView::unpin` says what becomes of
    /// the pool. Fails with `InvalidUnpin`, and changes nothing, where the
    /// page is not resident or has no pin.
    pub fn unpin_page(&mut self, page_id: PageId, is_dirty: bool) -> (result: Result<
        (),
        BufferPoolError,
    >)
        requires
            old(self).wf(),
        ensures
            final(self).wf(),
            final(self)@ == old(self)@.unpin(page_id, is_dirty).0,
            result == old(self)@.unpin(page_id, is_dirty).1,
            result is Ok <==> old(self)@.pin_count(page_id) > 0,
            result is Ok ==> {
                &&& final(self)@.is_resident(page_id)
                &&& final(self)@.pin_count(page_id) == old(self)@.pin_count(page_id) - 1
                &&& final(self)@.page(page_id).is_dirty == (old(self)@.page(page_id).is_dirty
                    || is_dirty)
            },
            result is Err ==> final(self)@ == old(self)@,
    {
        proof {
            old(self)@.lemma_unpin_wf(page_id, is_dirty);
            old(self)@.law_unpin_gives_up_one_pin(page_id, is_dirty);
        }
        let f = match self.frame_index(page_id) {
            Some(f) => f,
            None => {
                return Err(BufferPoolError::InvalidUnpin);
            },
        };
        if self.frames[f].pin_count == 0 {
            return Err(BufferPoolError::InvalidUnpin);
        }
        self.frames[f].pin_count = self.frames[f].pin_count - 1;
        if is_dirty {
            self.frames[f].is_dirty = true;
        }
        if self.frames[f].pin_count == 0 {
            self.replacer.set_evictable(f, true);
        }
        proof {
            assert(self@.frames =~= old(self)@.unpin(page_id, is_dirty).0.frames);
            lemma_table_same_ids(self.table@.frame_of, old(self).frames@, self.frames@);
        }
        Ok(())
    }

    /// Gives up the pin that a guard stands for. A write guard marks the
    /// page dirty.
    pub fn release(&mut self, guard: PageGuard) -> (result: Result<(), BufferPoolError>)
        requires
            old(self).wf(),
        ensures
            final(self).wf(),
            final(self)@ == old(self)@.unpin(guard.id(), guard.access() == AccessMode::Write).0,
            result == old(self)@.unpin(guard.id(), guard.access() == AccessMode::Write).1,
    {
        let is_dirty = match guard.mode {
            AccessMode::Write => true,
            AccessMode::Read => false,
        };
        self.unpin_page(guard.page_id, is_dirty)
    }

    /// The content of the page that a guard is for; `None` where the page
    /// is not resident or has no pin.
    pub fn read(&self, guard: &PageGuard) -> (data: Option<&PageData>)
        requires
            self.wf(),
        ensures
            data is Some <==> self@.pin_count(guard.id()) > 0,
            data matches Some(d) ==> *d == self@.content(guard.id()),
    {
        match self.frame_index(guard.page_id) {
            Some(f) => {
                if self.frames[f].pin_count > 0 {
                    Some(&self.frames[f].data)
                } else {
                    None
                }
            },
            None => None,
        }
    }

    /// Replaces the content of the page that a write guard is for, and
    /// marks the page dirty. Nothing is written through a read guard, nor
    /// to a page that is not resident or has no pin. Returns whether the
    /// content was written.
    pub fn write(&mut self, guard: &PageGuard, data: &PageData) -> (written: bool)
        requires
            old(self).wf(),
        ensures
            final(self).wf(),
            guard.access() == AccessMode::Write ==> (final(self)@, written) == old(self)@.write(
                guard.id(),
                *data,
            ),
            guard.access() == AccessMode::Read ==> final(self)@ == old(self)@ && !written,
            written <==> guard.access() == AccessMode::Write && old(self)@.pin_count(guard.id()) > 0,
            !written ==> final(self)@ == old(self)@,
            written ==> {
                &&& final(self)@.is_resident(guard.id())
                &&& final(self)@.page(guard.id()) == (Page {
                    data: *data,
                    is_dirty: true,
                    ..old(self)@.page(guard.id())
                })
                &&& final(self)@.content(guard.id()) == *data
            },
    {
        proof {
            old(self)@.lemma_write_wf(guard.id(), *data);
            old(self)@.law_write_sets_content(guard.id(), *data);
        }
        match guard.mode {
            AccessMode::Read => {
                return false;
            },
            AccessMode::Write => {},
        }
        let f = match self.frame_index(guard.page_id) {
            Some(f) => f,
            None => {
                return false;
            },
        };
        if self.frames[f].pin_count == 0 {
            return false;
        }
        self.frames[f].data = *data;
        self.frames[f].is_dirty = true;
        proof {
            assert(self@.frames =~= old(self)@.write(guard.id(), *data).0.frames);
            lemma_table_same_ids(self.table@.frame_of, old(self).frames@, self.frames@);
        }
        true
    }

    /// Writes the page in frame `f` to the store if it is dirty.
    fn flush_frame(&mut self, f: usize) -> (result: Result<bool, BufferPoolError>)
        requires
            old(self).wf(),
            f < old(self)@.frames.len(),
        ensures
            final(self).wf(),
            (final(self)@, result) == old(self)@.flush(old(self)@.frames[f as int].page_id),
    {
        let page_id = self.frames[f].page_id;
        proof {
            old(self)@.lemma_flush_wf(page_id);
            if page_id == INVALID_PAGE_ID {
                assert(!self@.is_resident(page_id)) by {
                    if self@.is_resident(page_id) {
                        assert(self@.holds(self@.frame_of(page_id), page_id));
                    }
                }
            } else {
                assert(self@.holds(f as int, page_id));
                self@.lemma_frame_of(f as int, page_id);
                assert(self@.frame_ok(f as int));
            }
        }
        if page_id == INVALID_PAGE_ID {
            return Ok(false);
        }
        if !self.frames[f].is_dirty {
            return Ok(true);
        }
        let content = self.frames[f].data;
        match self.disk.write_page(page_id, &content) {
            Ok(()) => {},
            Err(e) => {
                return Err(BufferPoolError::StorageIoError(e));
            },
        }
        self.frames[f].is_dirty = false;
        proof {
            assert(self@.frames =~= old(self)@.flush(page_id).0.frames);
            lemma_table_same_ids(self.table@.frame_of, old(self).frames@, self.frames@);
        }
        Ok(true)
    }

    /// Writes a resident page to the store if it is dirty; the page is
    /// clean afterwards. Returns whether the page was resident: nothing is
    /// done for a page that is not. Fails where the store cannot take the
    /// page: the page is then still dirty, and nothing has changed.
    pub fn flush_page(&mut self, page_id: PageId) -> (result: Result<bool, BufferPoolError>)
        requires
            old(self).wf(),
        ensures
            final(self).wf(),
            (final(self)@, result) == old(self)@.flush(page_id),
            result matches Ok(flushed) ==> flushed == old(self)@.is_resident(page_id),
            final(self)@.is_resident(page_id) == old(self)@.is_resident(page_id),
            final(self)@.pin_count(page_id) == old(self)@.pin_count(page_id),
            old(self)@.exists_page(page_id) ==> final(self)@.content(page_id) == old(self)@.content(
                page_id,
            ),
            result == Ok::<bool, BufferPoolError>(true) ==> final(self)@.disk.pages[page_id] == old(
                self,
            )@.page(page_id).data && !final(self)@.page(page_id).is_dirty,
            result matches Err(e) ==> e == BufferPoolError::StorageIoError(StorageError::OutOfSpace)
                && final(self)@ == old(self)@ && old(self)@.page(page_id).is_dirty,
    {
        proof {
            old(self)@.lemma_step(PoolOp::Flush(page_id), page_id);
            if old(self)@.is_resident(page_id) {
                old(self)@.law_flush_writes_content(page_id);
            }
        }
        match self.frame_index(page_id) {
            Some(f) => self.flush_frame(f),
            None => Ok(false),
        }
    }

    /// Writes every dirty page to the store; each page that was written is
    /// clean afterwards. Fails where the store could not take every page:
    /// those that it could not take are still dirty.
    pub fn flush_all_pages(&mut self) -> (result: Result<(), BufferPoolError>)
        requires
            old(self).wf(),
        ensures
            final(self).wf(),
            (final(self)@, result) == old(self)@.flush_all(),
            result is Ok <==> !final(self)@.has_dirty_page(),
    {
        let mut f: usize = 0;
        let mut failed = false;
        let n = self.frames.len();
        while f < n
            invariant
                f <= n,
                n == old(self)@.frames.len(),
                n == self@.frames.len(),
                self.wf(),
                self@ == old(self)@.flush_frames(f as nat),
                failed <==> exists|g: int| 0 <= g < f && (#[trigger] self@.frames[g]).is_dirty,
            decreases n - f,
        {
            let ghost before = self@;
            proof {
                let page_id = before.frames[f as int].page_id;
                assert(before.frame_ok(f as int));
                if page_id != INVALID_PAGE_ID {
                    assert(before.holds(f as int, page_id));
                    before.lemma_frame_of(f as int, page_id);
                    before.law_flush_writes_content(page_id);
                } else if before.is_resident(page_id) {
                    assert(before.holds(before.frame_of(page_id), page_id));
                }
            }
            let flushed = self.flush_frame(f);
            proof {
                assert(forall|g: int| 0 <= g < f ==> self@.frames[g] == before.frames[g]);
                assert(flushed is Err <==> self@.frames[f as int].is_dirty);
                if flushed is Err {
                    assert(self@.frames[f as int].is_dirty);
                }
            }
            if flushed.is_err() {
                failed = true;
            }
            f = f + 1;
        }
        if failed {
            Err(BufferPoolError::StorageIoError(StorageError::OutOfSpace))
        } else {
            Ok(())
        }
    }

    /// Deletes a page: `PoolView::delete` says what becomes of the pool.
    /// Fails with `PageStillPinned`, and changes nothing, where the page is
    /// pinned. Returns whether the page existed.
    pub fn delete_page(&mut self, page_id: PageId) -> (result: Result<bool, BufferPoolError>)
        requires
            old(self).wf(),
        ensures
            final(self).wf(),
            final(self)@ == old(self)@.delete(page_id).0,
            result == old(self)@.delete(page_id).1,
            result is Err <==> old(self)@.pin_count(page_id) > 0,
            result is Err ==> result == Err::<bool, BufferPoolError>(
                BufferPoolError::PageStillPinned,
            ) && final(self)@ == old(self)@,
            result matches Ok(existed) ==> {
                &&& existed == old(self)@.exists_page(page_id)
                &&& !final(self)@.exists_page(page_id)
            },
    {
        proof {
            old(self)@.lemma_delete_wf(page_id);
            if old(self)@.delete(page_id).1 is Ok {
                old(self)@.law_delete_removes(page_id);
            }
        }
        let ghost before = self@;
        let ghost table = self.table@.frame_of;
        match self.frame_index(page_id) {
            Some(f) => {
                if self.frames[f].pin_count > 0 {
                    return Err(BufferPoolError::PageStillPinned);
                }
                proof {
                    assert(table.contains_key(page_id));
                    assert(before.holds(table[page_id] as int, page_id));
                    before.lemma_frame_of(table[page_id] as int, page_id);
                }
                let removed = self.table.remove(page_id);
                assert(removed == Some(f));
                self.frames[f] = Page::new(INVALID_PAGE_ID);
                self.table.give_back(f);
                self.replacer.remove(f);
                self.disk.deallocate_page(page_id);
                proof {
                    let after = before.delete(page_id).0;
                    assert(self@.frames =~= after.frames);
                    assert(self@.free_list =~= after.free_list);
                    assert(table_ok(self.table@.frame_of, self.frames@)) by {
                        assert forall|p: PageId| #[trigger]
                            self.table@.frame_of.contains_key(p) implies p != INVALID_PAGE_ID
                            && self.table@.frame_of[p] < self.frames@.len()
                            && self.frames@[self.table@.frame_of[p] as int].page_id == p by {
                            assert(table.contains_key(p));
                            assert(table[p] != f);
                        }
                        assert forall|g: int|
                            0 <= g < self.frames@.len() && (#[trigger] self.frames@[g]).page_id
                                != INVALID_PAGE_ID implies self.table@.frame_of.contains_key(
                            self.frames@[g].page_id,
                        ) by {
                            assert(before.frames[g].page_id != INVALID_PAGE_ID);
                            assert(table.contains_key(before.frames[g].page_id));
                        }
                    }
                }
                Ok(true)
            },
            None => {
                let held = self.disk.deallocate_page(page_id);
                Ok(held)
            },
        }
    }
}

} // verus!
