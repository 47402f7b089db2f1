//! The frame table: which frame holds which page, and which frames hold
//! nothing.
//!
//! A frame is in one of three states. It is free: it stands in the free
//! list. It is used: the page table names it for one page. Or it is
//! reserved: it was taken out of the free list, or its page was removed, and
//! its holder has yet to give it a page or to give it back.

use crate::buffer::page::PageId;
use crate::buffer::page::INVALID_PAGE_ID;
use std::collections::HashMap;
use vstd::prelude::*;

verus! {

broadcast use vstd::std_specs::hash::group_hash_axioms;

/// What a frame table holds.
pub struct FrameTableView {
    /// The frame of every resident page.
    pub frame_of: Map<PageId, usize>,
    /// The frames that hold nothing; the last one is taken first.
    pub free_list: Seq<usize>,
    /// The number of frames.
    pub num_frames: nat,
}

impl FrameTableView {
    /// A table of `num_frames` free frames. Frame 0 is taken first.
    pub open spec fn fresh(num_frames: nat) -> FrameTableView {
        FrameTableView {
            frame_of: Map::empty(),
            free_list: Seq::new(num_frames, |i: int| (num_frames - 1 - i) as usize),
            num_frames,
        }
    }

    /// Whether the frame stands in the free list.
    pub open spec fn is_free(self, frame: usize) -> bool {
        self.free_list.contains(frame)
    }

    /// Whether the page table names the frame for a page.
    pub open spec fn is_used(self, frame: usize) -> bool {
        exists|page_id: PageId|
            self.frame_of.contains_key(page_id) && #[trigger] self.frame_of[page_id] == frame
    }

    /// Whether the frame is neither free nor used.
    pub open spec fn is_reserved(self, frame: usize) -> bool {
        frame < self.num_frames && !self.is_free(frame) && !self.is_used(frame)
    }

    /// The page table maps valid pages to frames, one to one; the free list
    /// holds frames, none twice and none that is used.
    pub open spec fn wf(self) -> bool {
        &&& forall|page_id: PageId| #[trigger]
            self.frame_of.contains_key(page_id) ==> page_id != INVALID_PAGE_ID
                && self.frame_of[page_id] < self.num_frames
        &&& forall|p: PageId, q: PageId|
            self.frame_of.contains_key(p) && self.frame_of.contains_key(q) && #[trigger]
            self.frame_of[p] == #[trigger] self.frame_of[q] ==> p == q
        &&& forall|i: int|
            0 <= i < self.free_list.len() ==> (#[trigger] self.free_list[i]) < self.num_frames
        &&& forall|i: int, j: int|
            0 <= i < j < self.free_list.len() ==> #[trigger] self.free_list[i]
                != #[trigger] self.free_list[j]
        &&& forall|i: int, page_id: PageId|
            0 <= i < self.free_list.len() && self.frame_of.contains_key(page_id)
                ==> #[trigger] self.free_list[i] != #[trigger] self.frame_of[page_id]
    }

    /// The table after a page was given a frame.
    pub open spec fn insert(self, page_id: PageId, frame: usize) -> FrameTableView {
        FrameTableView { frame_of: self.frame_of.insert(page_id, frame), ..self }
    }

    /// The table after a page lost its frame.
    pub open spec fn remove(self, page_id: PageId) -> FrameTableView {
        FrameTableView { frame_of: self.frame_of.remove(page_id), ..self }
    }

    /// The table after the last frame of the free list was taken.
    pub open spec fn take_free(self) -> FrameTableView {
        FrameTableView { free_list: self.free_list.drop_last(), ..self }
    }

    /// The table after a frame was put at the end of the free list.
    pub open spec fn give_back(self, frame: usize) -> FrameTableView {
        FrameTableView { free_list: self.free_list.push(frame), ..self }
    }

    /// A table of free frames is well formed.
    pub proof fn lemma_fresh_wf(num_frames: nat)
        requires
            num_frames <= usize::MAX,
        ensures
            Self::fresh(num_frames).wf(),
    {
    }
}

/// The frame table.
pub struct FrameTable {
    page_table: HashMap<PageId, usize>,
    free_list: Vec<usize>,
    num_frames: usize,
}

impl View for FrameTable {
    type V = FrameTableView;

    closed spec fn view(&self) -> FrameTableView {
        FrameTableView {
            frame_of: self.page_table@,
            free_list: self.free_list@,
            num_frames: self.num_frames as nat,
        }
    }
}

impl FrameTable {
    /// A table of `num_frames` free frames.
    pub fn new(num_frames: usize) -> (table: Self)
        ensures
            table@ == FrameTableView::fresh(num_frames as nat),
            table@.wf(),
    {
        let mut free_list: Vec<usize> = Vec::new();
        let mut i: usize = 0;
        while i < num_frames
            invariant
                i <= num_frames,
                free_list@.len() == i,
                forall|j: int|
                    0 <= j < i ==> #[trigger] free_list@[j] == (num_frames - 1 - j) as usize,
            decreases num_frames - i,
        {
            free_list.push(num_frames - 1 - i);
            i = i + 1;
        }
        let table = Self { page_table: HashMap::new(), free_list, num_frames };
        proof {
            assert(table@.free_list =~= FrameTableView::fresh(num_frames as nat).free_list);
            FrameTableView::lemma_fresh_wf(num_frames as nat);
        }
        table
    }

    /// Number of frames.
    pub fn num_frames(&self) -> (n: usize)
        ensures
            n == self@.num_frames,
    {
        self.num_frames
    }

    /// Number of free frames.
    pub fn free_count(&self) -> (n: usize)
        ensures
            n == self@.free_list.len(),
    {
        self.free_list.len()
    }

    /// The frame of a page; `None` for a page that has none.
    pub fn lookup(&self, page_id: PageId) -> (frame: Option<usize>)
        ensures
            match frame {
                Some(f) => self@.frame_of.contains_key(page_id) && f == self@.frame_of[page_id],
                None => !self@.frame_of.contains_key(page_id),
            },
    {
        match self.page_table.get(&page_id) {
            Some(f) => Some(*f),
            None => None,
        }
    }

    /// The free frame that is taken next; `None` where no frame is free.
    pub fn peek_free(&self) -> (frame: Option<usize>)
        ensures
            match frame {
                Some(f) => self@.free_list.len() > 0 && f == self@.free_list.last(),
                None => self@.free_list.len() == 0,
            },
    {
        if self.free_list.len() > 0 {
            Some(self.free_list[self.free_list.len() - 1])
        } else {
            None
        }
    }

    /// Takes a frame out of the free list: it is reserved afterwards.
    /// `None`, and nothing changes, where no frame is free.
    pub fn take_free(&mut self) -> (frame: Option<usize>)
        requires
            old(self)@.wf(),
        ensures
            final(self)@.wf(),
            match frame {
                Some(f) => {
                    &&& old(self)@.free_list.len() > 0
                    &&& f == old(self)@.free_list.last()
                    &&& final(self)@ == old(self)@.take_free()
                    &&& final(self)@.is_reserved(f)
                },
                None => old(self)@.free_list.len() == 0 && final(self)@ == old(self)@,
            },
    {
        let frame = self.free_list.pop();
        proof {
            if let Some(f) = frame {
                let before = old(self)@;
                let last = before.free_list.len() - 1;
                assert(self@.free_list =~= before.free_list.drop_last());
                assert(before.free_list[last] == f);
                assert(self@.frame_of == before.frame_of);
                assert forall|i: int| 0 <= i < self@.free_list.len() implies #[trigger]
                self@.free_list[i] == before.free_list[i] by {}
                assert(!self@.is_free(f)) by {
                    if self@.is_free(f) {
                        let i = choose|i: int|
                            0 <= i < self@.free_list.len() && self@.free_list[i] == f;
                        assert(before.free_list[i] == f);
                    }
                }
                assert(!self@.is_used(f)) by {
                    if self@.is_used(f) {
                        let p = choose|p: PageId|
                            self@.frame_of.contains_key(p) && #[trigger] self@.frame_of[p] == f;
                        assert(before.free_list[last] != before.frame_of[p]);
                    }
                }
                assert forall|i: int, p: PageId|
                    0 <= i < self@.free_list.len() && self@.frame_of.contains_key(
                        p,
                    ) implies #[trigger] self@.free_list[i] != #[trigger] self@.frame_of[p] by {
                    assert(before.free_list[i] != before.frame_of[p]);
                }
            }
        }
        frame
    }

    /// Gives a page a reserved frame.
    pub fn insert(&mut self, page_id: PageId, frame: usize)
        requires
            old(self)@.wf(),
            page_id != INVALID_PAGE_ID,
            !old(self)@.frame_of.contains_key(page_id),
            old(self)@.is_reserved(frame),
        ensures
            final(self)@.wf(),
            final(self)@ == old(self)@.insert(page_id, frame),
    {
        self.page_table.insert(page_id, frame);
        proof {
            let before = old(self)@;
            assert forall|p: PageId, q: PageId|
                self@.frame_of.contains_key(p) && self@.frame_of.contains_key(q) && #[trigger]
                self@.frame_of[p] == #[trigger] self@.frame_of[q] implies p == q by {
                if p == page_id && q != page_id {
                    assert(before.frame_of[q] == frame);
                }
                if q == page_id && p != page_id {
                    assert(before.frame_of[p] == frame);
                }
            }
            assert forall|i: int, p: PageId|
                0 <= i < self@.free_list.len() && self@.frame_of.contains_key(
                    p,
                ) implies #[trigger] self@.free_list[i] != #[trigger] self@.frame_of[p] by {
                if p == page_id {
                    assert(before.free_list[i] != frame);
                } else {
                    assert(before.free_list[i] != before.frame_of[p]);
                }
            }
        }
    }

    /// Takes the frame of a page away: the frame is reserved afterwards.
    /// `None`, and nothing changes, for a page without a frame.
    pub fn remove(&mut self, page_id: PageId) -> (frame: Option<usize>)
        requires
            old(self)@.wf(),
        ensures
            final(self)@.wf(),
            match frame {
                Some(f) => {
                    &&& old(self)@.frame_of.contains_key(page_id)
                    &&& f == old(self)@.frame_of[page_id]
                    &&& final(self)@ == old(self)@.remove(page_id)
                    &&& final(self)@.is_reserved(f)
                },
                None => !old(self)@.frame_of.contains_key(page_id) && final(self)@ == old(self)@,
            },
    {
        let frame = self.page_table.remove(&page_id);
        proof {
            let before = old(self)@;
            assert(self@.free_list == before.free_list);
            match frame {
                Some(f) => {
                    assert(self@.frame_of == before.frame_of.remove(page_id));
                    assert forall|p: PageId| #[trigger]
                        self@.frame_of.contains_key(p) implies before.frame_of.contains_key(p)
                        && self@.frame_of[p] == before.frame_of[p] by {}
                    assert(!self@.is_used(f)) by {
                        if self@.is_used(f) {
                            let p = choose|p: PageId|
                                self@.frame_of.contains_key(p) && #[trigger] self@.frame_of[p]
                                    == f;
                            assert(before.frame_of[p] == before.frame_of[page_id]);
                        }
                    }
                    assert(!self@.is_free(f)) by {
                        if self@.is_free(f) {
                            let i = choose|i: int|
                                0 <= i < self@.free_list.len() && self@.free_list[i] == f;
                            assert(before.free_list[i] != before.frame_of[page_id]);
                        }
                    }
                    assert forall|p: PageId, q: PageId|
                        self@.frame_of.contains_key(p) && self@.frame_of.contains_key(q)
                            && #[trigger] self@.frame_of[p]
                            == #[trigger] self@.frame_of[q] implies p == q by {
                        assert(before.frame_of[p] == before.frame_of[q]);
                    }
                    assert forall|i: int, p: PageId|
                        0 <= i < self@.free_list.len() && self@.frame_of.contains_key(
                            p,
                        ) implies #[trigger] self@.free_list[i] != #[trigger] self@.frame_of[p] by {
                        assert(before.free_list[i] != before.frame_of[p]);
                    }
                },
                None => {
                    assert(self@.frame_of =~= before.frame_of);
                },
            }
        }
        frame
    }

    /// Puts a reserved frame at the end of the free list.
    pub fn give_back(&mut self, frame: usize)
        requires
            old(self)@.wf(),
            old(self)@.is_reserved(frame),
        ensures
            final(self)@.wf(),
            final(self)@ == old(self)@.give_back(frame),
    {
        self.free_list.push(frame);
        proof {
            let before = old(self)@;
            let n = before.free_list.len() as int;
            assert(self@.frame_of == before.frame_of);
            assert(self@.free_list =~= before.free_list.push(frame));
            assert(self@.free_list[n] == frame);
            assert forall|i: int| 0 <= i < n implies #[trigger] self@.free_list[i]
                == before.free_list[i] && before.free_list[i] != frame by {
                assert(before.free_list.contains(before.free_list[i]));
            }
            assert forall|i: int, p: PageId|
                0 <= i < self@.free_list.len() && self@.frame_of.contains_key(
                    p,
                ) implies #[trigger] self@.free_list[i] != #[trigger] self@.frame_of[p] by {
                if i < n {
                    assert(before.free_list[i] != before.frame_of[p]);
                } else if before.frame_of[p] == frame {
                    assert(before.is_used(frame));
                }
            }
        }
    }
}

} // verus!
