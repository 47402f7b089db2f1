//! The disk manager: a store of fixed-size page slots, addressed by page
//! identifier, that also hands out the identifiers of new pages.
//!
//! Identifiers are handed out in ascending order, starting at one, and never
//! twice; the store has a fixed number of them. A new page is zeroed and
//! takes no slot. It takes one when it is first written, and the store has
//! a fixed number of slots too: a write that needs a slot when none is left
//! fails, and leaves the store as it was.

use crate::buffer::page::zeroed_data;
use crate::buffer::page::PageData;
use crate::buffer::page::PageId;
use crate::buffer::page::BUSTUBX_PAGE_SIZE;
use vstd::prelude::*;

verus! {

/// Why the store refused a request.
#[derive(Debug, Clone, Copy, PartialEq, Eq, Structural)]
pub enum StorageError {
    /// No identifier is left for a new page, or no slot for a page that is
    /// written for the first time.
    OutOfSpace,
    /// The store holds no page with the identifier.
    PageNotAllocated,
}

/// What a store holds.
pub struct DiskView {
    /// The content of every allocated page.
    pub pages: Map<PageId, PageData>,
    /// The pages that take a slot: those that were written.
    pub stored: Set<PageId>,
    /// The identifier that the next allocation hands out.
    pub next_page_id: nat,
    /// The number of identifiers that the store can hand out.
    pub capacity: nat,
    /// The number of slots.
    pub space: nat,
}

impl DiskView {
    /// An empty store with `capacity` identifiers and `space` slots.
    pub open spec fn empty(capacity: nat, space: nat) -> DiskView {
        DiskView { pages: Map::empty(), stored: Set::empty(), next_page_id: 1, capacity, space }
    }

    /// Identifiers start at one, stay within what the store can hand out,
    /// and those of the allocated pages were all handed out already. Only
    /// allocated pages take slots, and no more than there are.
    pub open spec fn wf(self) -> bool {
        &&& 1 <= self.next_page_id <= self.capacity + 1
        &&& self.capacity <= u32::MAX
        &&& forall|page_id: PageId| #[trigger]
            self.pages.contains_key(page_id) ==> 1 <= page_id < self.next_page_id
        &&& forall|page_id: PageId| #[trigger]
            self.stored.contains(page_id) ==> self.pages.contains_key(page_id)
        &&& self.stored.finite()
        &&& self.stored.len() <= self.space
    }

    /// Whether an identifier is left to hand out.
    pub open spec fn can_allocate(self) -> bool {
        self.next_page_id <= self.capacity
    }

    /// The store after the next identifier was handed out: the new page is
    /// zeroed and takes no slot.
    pub open spec fn allocate(self) -> DiskView {
        DiskView {
            pages: self.pages.insert(self.next_page_id as PageId, zeroed_data()),
            next_page_id: self.next_page_id + 1,
            ..self
        }
    }

    /// What a write to the page reports: the page must be allocated, and
    /// have a slot or get one.
    pub open spec fn write_result(self, page_id: PageId) -> Result<(), StorageError> {
        if !self.pages.contains_key(page_id) {
            Err(StorageError::PageNotAllocated)
        } else if !self.stored.contains(page_id) && self.stored.len() >= self.space {
            Err(StorageError::OutOfSpace)
        } else {
            Ok(())
        }
    }

    /// Whether the page can be written.
    pub open spec fn can_write(self, page_id: PageId) -> bool {
        self.write_result(page_id) is Ok
    }

    /// The store after `data` was written to a page: the page takes a slot.
    pub open spec fn write(self, page_id: PageId, data: PageData) -> DiskView {
        DiskView {
            pages: self.pages.insert(page_id, data),
            stored: self.stored.insert(page_id),
            ..self
        }
    }

    /// The store after a page was given up, and its slot with it.
    pub open spec fn deallocate(self, page_id: PageId) -> DiskView {
        DiskView {
            pages: self.pages.remove(page_id),
            stored: self.stored.remove(page_id),
            ..self
        }
    }

    /// Allocating, writing where the store can, and giving up a page keep a
    /// store well formed.
    pub proof fn lemma_wf_preserved(self, page_id: PageId, data: PageData)
        requires
            self.wf(),
        ensures
            self.can_allocate() ==> self.allocate().wf(),
            self.can_write(page_id) ==> self.write(page_id, data).wf(),
            self.deallocate(page_id).wf(),
    {
    }
}

/// A set of identifiers below a bound is finite, with no more elements than
/// the bound.
proof fn lemma_bounded_set(s: Set<PageId>, bound: nat)
    requires
        forall|page_id: PageId| s.contains(page_id) ==> page_id < bound,
    ensures
        s.finite(),
        s.len() <= bound,
    decreases bound,
{
    if bound == 0 {
        assert(s =~= Set::<PageId>::empty());
    } else {
        let top = (bound - 1) as PageId;
        if bound - 1 <= u32::MAX && s.contains(top) {
            let rest = s.remove(top);
            lemma_bounded_set(rest, (bound - 1) as nat);
            assert(s =~= rest.insert(top));
        } else {
            lemma_bounded_set(s, (bound - 1) as nat);
        }
    }
}

/// One slot of the store.
struct Slot {
    allocated: bool,
    stored: bool,
    data: PageData,
}

/// The disk manager.
pub struct DiskManager {
    /// The slot of page `i` is `slots[i]`; slot 0 is never allocated.
    slots: Vec<Slot>,
    capacity: u32,
    space: usize,
    used: usize,
}

impl View for DiskManager {
    type V = DiskView;

    closed spec fn view(&self) -> DiskView {
        DiskView {
            pages: Map::new(
                |page_id: PageId|
                    page_id < self.slots@.len() && self.slots@[page_id as int].allocated,
                |page_id: PageId| self.slots@[page_id as int].data,
            ),
            stored: Set::new(
                |page_id: PageId|
                    page_id < self.slots@.len() && self.slots@[page_id as int].stored,
            ),
            next_page_id: self.slots@.len(),
            capacity: self.capacity as nat,
            space: self.space as nat,
        }
    }
}

impl DiskManager {
    /// The manager is well formed: so is what it holds.
    pub closed spec fn wf(&self) -> bool {
        &&& 1 <= self.slots@.len() <= self.capacity + 1
        &&& !self.slots@[0].allocated
        &&& forall|i: int|
            0 <= i < self.slots@.len() && (#[trigger] self.slots@[i]).stored
                ==> self.slots@[i].allocated
        &&& self.used == self@.stored.len()
        &&& self.used <= self.space
    }

    /// A well-formed manager holds a well-formed store.
    pub proof fn lemma_view_wf(&self)
        requires
            self.wf(),
        ensures
            self@.wf(),
    {
        lemma_bounded_set(self@.stored, self.slots@.len());
    }

    /// An empty store with `capacity` identifiers and `space` slots.
    pub fn new(capacity: u32, space: usize) -> (disk: Self)
        ensures
            disk.wf(),
            disk@ == DiskView::empty(capacity as nat, space as nat),
    {
        let mut slots: Vec<Slot> = Vec::new();
        slots.push(Slot { allocated: false, stored: false, data: [0;BUSTUBX_PAGE_SIZE] });
        let disk = Self { slots, capacity, space, used: 0 };
        assert(disk@.pages =~= Map::empty());
        assert(disk@.stored =~= Set::empty());
        disk
    }

    /// The number of identifiers that the store can hand out.
    pub fn capacity(&self) -> (capacity: u32)
        ensures
            capacity == self@.capacity,
    {
        self.capacity
    }

    /// The number of slots.
    pub fn space(&self) -> (space: usize)
        ensures
            space == self@.space,
    {
        self.space
    }

    /// The number of slots that are taken.
    pub fn used_space(&self) -> (used: usize)
        requires
            self.wf(),
        ensures
            used == self@.stored.len(),
    {
        self.used
    }

    /// The identifier that the next allocation hands out, whether or not
    /// the store has it to hand out.
    pub fn next_page_id(&self) -> (next: u64)
        requires
            self.wf(),
        ensures
            next == self@.next_page_id,
    {
        self.slots.len() as u64
    }

    /// Whether the store holds a page with the identifier.
    pub fn is_allocated(&self, page_id: PageId) -> (allocated: bool)
        ensures
            allocated == self@.pages.contains_key(page_id),
    {
        (page_id as usize) < self.slots.len() && self.slots[page_id as usize].allocated
    }

    /// Whether an identifier is left to hand out.
    pub fn can_allocate(&self) -> (room: bool)
        requires
            self.wf(),
        ensures
            room == self@.can_allocate(),
    {
        self.slots.len() <= self.capacity as usize
    }

    /// Whether the page can be written: it is allocated, and has a slot or
    /// can get one.
    pub fn can_write(&self, page_id: PageId) -> (writable: bool)
        requires
            self.wf(),
        ensures
            writable == self@.can_write(page_id),
    {
        self.is_allocated(page_id) && (self.slots[page_id as usize].stored || self.used
            < self.space)
    }

    /// Hands out a fresh identifier, one that no page ever had, and
    /// allocates a zeroed page under it. Fails with `OutOfSpace`, and
    /// changes nothing, where none is left.
    pub fn allocate_page(&mut self) -> (result: Result<PageId, StorageError>)
        requires
            old(self).wf(),
        ensures
            final(self).wf(),
            match result {
                Ok(page_id) => {
                    &&& old(self)@.can_allocate()
                    &&& page_id == old(self)@.next_page_id
                    &&& !old(self)@.pages.contains_key(page_id)
                    &&& final(self)@ == old(self)@.allocate()
                },
                Err(e) => {
                    &&& e == StorageError::OutOfSpace
                    &&& !old(self)@.can_allocate()
                    &&& final(self)@ == old(self)@
                },
            },
    {
        let next: usize = self.slots.len();
        if next > self.capacity as usize {
            return Err(StorageError::OutOfSpace);
        }
        self.slots.push(Slot { allocated: true, stored: false, data: [0;BUSTUBX_PAGE_SIZE] });
        assert(self@.pages =~= old(self)@.allocate().pages);
        assert(self@.stored =~= old(self)@.stored);
        Ok(next as PageId)
    }

    /// The content of a page. Fails with `PageNotAllocated` where the store
    /// holds no such page.
    pub fn read_page(&self, page_id: PageId) -> (result: Result<PageData, StorageError>)
        ensures
            match result {
                Ok(data) => self@.pages.contains_key(page_id) && data == self@.pages[page_id],
                Err(e) => e == StorageError::PageNotAllocated && !self@.pages.contains_key(
                    page_id,
                ),
            },
    {
        if self.is_allocated(page_id) {
            Ok(self.slots[page_id as usize].data)
        } else {
            Err(StorageError::PageNotAllocated)
        }
    }

    /// Replaces the content of a page. Fails with `PageNotAllocated` where
    /// the store holds no such page, and with `OutOfSpace` where the page
    /// has no slot yet and none is left. A write that fails changes
    /// nothing.
    pub fn write_page(&mut self, page_id: PageId, data: &PageData) -> (result: Result<
        (),
        StorageError,
    >)
        requires
            old(self).wf(),
        ensures
            final(self).wf(),
            result == old(self)@.write_result(page_id),
            result is Ok ==> final(self)@ == old(self)@.write(page_id, *data),
            result is Err ==> final(self)@ == old(self)@,
    {
        if !self.is_allocated(page_id) {
            return Err(StorageError::PageNotAllocated);
        }
        proof {
            self.lemma_view_wf();
        }
        if !self.slots[page_id as usize].stored {
            if self.used >= self.space {
                return Err(StorageError::OutOfSpace);
            }
            self.slots[page_id as usize].stored = true;
            self.used = self.used + 1;
        }
        self.slots[page_id as usize].data = *data;
        proof {
            assert(self@.pages =~= old(self)@.write(page_id, *data).pages);
            assert(self@.stored =~= old(self)@.stored.insert(page_id));
        }
        Ok(())
    }

    /// Gives up a page and its slot: the store no longer holds the page,
    /// and its identifier is not handed out again. Returns whether the
    /// store held the page.
    pub fn deallocate_page(&mut self, page_id: PageId) -> (held: bool)
        requires
            old(self).wf(),
        ensures
            final(self).wf(),
            held == old(self)@.pages.contains_key(page_id),
            final(self)@ == old(self)@.deallocate(page_id),
    {
        proof {
            self.lemma_view_wf();
        }
        if !self.is_allocated(page_id) {
            assert(self@.pages =~= old(self)@.deallocate(page_id).pages);
            assert(self@.stored =~= old(self)@.deallocate(page_id).stored);
            return false;
        }
        if self.slots[page_id as usize].stored {
            proof {
                assert(self@.stored.contains(page_id));
                vstd::set::axiom_set_contains_len(self@.stored, page_id);
            }
            self.slots[page_id as usize].stored = false;
            self.used = self.used - 1;
        }
        self.slots[page_id as usize].allocated = false;
        self.slots[page_id as usize].data = [0;BUSTUBX_PAGE_SIZE];
        proof {
            assert(self@.pages =~= old(self)@.deallocate(page_id).pages);
            assert(self@.stored =~= old(self)@.stored.remove(page_id));
        }
        true
    }
}

} // verus!
