//! A page: a fixed-size byte buffer with the metadata the buffer pool keeps
//! for it.

use vstd::prelude::*;

verus! {

broadcast use vstd::array::group_array_axioms;

/// Identifier of a page in the backing store.
pub type PageId = u32;

/// The reserved identifier that names no page.
pub const INVALID_PAGE_ID: PageId = 0;

/// Size of every page, in bytes.
pub const BUSTUBX_PAGE_SIZE: usize = 4096;

/// The content of a page.
pub type PageData = [u8; BUSTUBX_PAGE_SIZE];

/// The content of a page that holds nothing: every byte is zero.
pub open spec fn zeroed_data() -> PageData {
    vstd::array::spec_array_fill_for_copy_type::<u8, BUSTUBX_PAGE_SIZE>(0u8)
}

/// Every byte of `zeroed_data()` is zero.
pub proof fn lemma_zeroed_data()
    ensures
        zeroed_data()@ == Seq::new(BUSTUBX_PAGE_SIZE as nat, |i: int| 0u8),
{
    assert(zeroed_data()@ =~= Seq::new(BUSTUBX_PAGE_SIZE as nat, |i: int| 0u8));
}

/// A page held in memory.
#[derive(Debug, Clone)]
pub struct Page {
    pub page_id: PageId,
    pub data: PageData,
    /// Number of holders that currently reference the page.
    pub pin_count: u32,
    /// Whether the content was modified since it was last written out.
    pub is_dirty: bool,
}

impl Page {
    /// A freshly constructed page with identity `page_id`: zeroed content,
    /// no pins, clean.
    pub open spec fn fresh(page_id: PageId) -> Page {
        Page { page_id, data: zeroed_data(), pin_count: 0, is_dirty: false }
    }

    /// A page that holds nothing.
    pub fn empty() -> (page: Self)
        ensures
            page == Page::fresh(INVALID_PAGE_ID),
    {
        Self::new(INVALID_PAGE_ID)
    }

    /// A page with the given identity and zeroed content.
    pub fn new(page_id: PageId) -> (page: Self)
        ensures
            page == Page::fresh(page_id),
            forall|i: int| 0 <= i < BUSTUBX_PAGE_SIZE ==> page.data@[i] == 0,
    {
        proof {
            lemma_zeroed_data();
        }
        Self { page_id, data: [0; BUSTUBX_PAGE_SIZE], pin_count: 0, is_dirty: false }
    }

    /// Clears the page: it afterwards holds nothing.
    pub fn destroy(&mut self)
        ensures
            *final(self) == Page::fresh(INVALID_PAGE_ID),
    {
        self.page_id = 0;
        self.data = [0; BUSTUBX_PAGE_SIZE];
        self.pin_count = 0;
        self.is_dirty = false;
    }

    /// Reinitialises content and metadata for reuse under another identity.
    pub fn reset(&mut self, new_id: PageId)
        ensures
            *final(self) == Page::fresh(new_id),
            forall|i: int| 0 <= i < BUSTUBX_PAGE_SIZE ==> final(self).data@[i] == 0,
    {
        proof {
            lemma_zeroed_data();
        }
        self.page_id = new_id;
        self.data = [0; BUSTUBX_PAGE_SIZE];
        self.pin_count = 0;
        self.is_dirty = false;
    }

    /// Takes over identity, content and metadata of `other`.
    pub fn replace(&mut self, other: Page)
        ensures
            *final(self) == other,
    {
        self.page_id = other.page_id;
        self.data = other.data;
        self.pin_count = other.pin_count;
        self.is_dirty = other.is_dirty;
    }
}

} // verus!
