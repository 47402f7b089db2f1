//! The disk scheduler: the queue of read and write requests between the
//! callers and the worker that performs them.
//!
//! A request is scheduled under a ticket, handed to the worker in the order
//! of scheduling, and completed under its ticket once the worker is done
//! with it. Requests may complete in any order. A ticket is used once: a
//! request completes exactly once.

use crate::buffer::page::PageData;
use crate::buffer::page::PageId;
use crate::buffer::page::BUSTUBX_PAGE_SIZE;
use crate::storage::disk_manager::DiskManager;
use crate::storage::disk_manager::DiskView;
use crate::storage::disk_manager::StorageError;
use std::collections::HashMap;
use std::collections::VecDeque;
use vstd::prelude::*;

verus! {

broadcast use vstd::std_specs::hash::group_hash_axioms;

/// What a request asks of the store.
#[derive(Debug, Clone, Copy, PartialEq, Eq, Structural)]
pub enum DiskOperation {
    Read,
    Write,
}

/// A request to the store.
#[derive(Debug, Clone, Copy)]
pub struct DiskRequest {
    /// The ticket under which the request completes.
    pub ticket: u64,
    pub page_id: PageId,
    pub operation: DiskOperation,
    /// The content to write; zeroed for a read.
    pub buffer: PageData,
}

/// The end of a request.
#[derive(Debug, Clone, Copy)]
pub struct Completion {
    pub ticket: u64,
    pub page_id: PageId,
    pub operation: DiskOperation,
    /// The content that was read or written, or why the store refused.
    pub result: Result<PageData, StorageError>,
}

/// What a scheduler holds.
pub struct SchedulerView {
    /// The requests that wait for the worker, oldest first.
    pub queued: Seq<DiskRequest>,
    /// The requests that the worker has taken and not completed, by ticket.
    pub in_flight: Map<u64, DiskRequest>,
    /// The ticket of the next request.
    pub next_ticket: u64,
}

impl SchedulerView {
    /// A scheduler without requests.
    pub open spec fn empty() -> SchedulerView {
        SchedulerView { queued: Seq::empty(), in_flight: Map::empty(), next_ticket: 0 }
    }

    /// Whether a request with the ticket waits for the worker.
    pub open spec fn is_queued(self, ticket: u64) -> bool {
        exists|i: int| 0 <= i < self.queued.len() && (#[trigger] self.queued[i]).ticket == ticket
    }

    /// Whether a request with the ticket is not completed yet.
    pub open spec fn is_pending(self, ticket: u64) -> bool {
        self.is_queued(ticket) || self.in_flight.contains_key(ticket)
    }

    /// Tickets were handed out in ascending order, and no two pending
    /// requests share one.
    pub open spec fn wf(self) -> bool {
        &&& forall|i: int|
            0 <= i < self.queued.len() ==> (#[trigger] self.queued[i]).ticket < self.next_ticket
        &&& forall|i: int, j: int|
            0 <= i < j < self.queued.len() ==> (#[trigger] self.queued[i]).ticket < (
            #[trigger] self.queued[j]).ticket
        &&& forall|ticket: u64| #[trigger]
            self.in_flight.contains_key(ticket) ==> {
                &&& ticket < self.next_ticket
                &&& self.in_flight[ticket].ticket == ticket
                &&& !self.is_queued(ticket)
            }
    }

    /// Whether a ticket is left for another request.
    pub open spec fn can_schedule(self) -> bool {
        self.next_ticket < u64::MAX
    }

    /// The request that is scheduled next.
    pub open spec fn request(
        self,
        page_id: PageId,
        operation: DiskOperation,
        buffer: PageData,
    ) -> DiskRequest {
        DiskRequest { ticket: self.next_ticket, page_id, operation, buffer }
    }

    /// The scheduler after a request was scheduled.
    pub open spec fn schedule(
        self,
        page_id: PageId,
        operation: DiskOperation,
        buffer: PageData,
    ) -> SchedulerView {
        SchedulerView {
            queued: self.queued.push(self.request(page_id, operation, buffer)),
            next_ticket: (self.next_ticket + 1) as u64,
            ..self
        }
    }

    /// The scheduler after the worker took the oldest waiting request.
    pub open spec fn dispatch(self) -> SchedulerView
        recommends
            self.queued.len() > 0,
    {
        SchedulerView {
            queued: self.queued.drop_first(),
            in_flight: self.in_flight.insert(self.queued[0].ticket, self.queued[0]),
            ..self
        }
    }

    /// The scheduler after the request with the ticket completed.
    pub open spec fn complete(self, ticket: u64) -> SchedulerView {
        SchedulerView { in_flight: self.in_flight.remove(ticket), ..self }
    }

    /// Scheduling, dispatching and completing keep a scheduler well formed.
    pub proof fn lemma_wf_preserved(
        self,
        page_id: PageId,
        operation: DiskOperation,
        buffer: PageData,
        ticket: u64,
    )
        requires
            self.wf(),
        ensures
            self.can_schedule() ==> self.schedule(page_id, operation, buffer).wf(),
            self.queued.len() > 0 ==> self.dispatch().wf(),
            self.complete(ticket).wf(),
    {
        if self.can_schedule() {
            let s = self.schedule(page_id, operation, buffer);
            assert forall|t: u64| #[trigger] s.in_flight.contains_key(t) implies !s.is_queued(
                t,
            ) by {
                if s.is_queued(t) {
                    let i = choose|i: int|
                        0 <= i < s.queued.len() && (#[trigger] s.queued[i]).ticket == t;
                    if i < self.queued.len() {
                        assert(self.queued[i].ticket == t);
                    }
                }
            }
        }
        if self.queued.len() > 0 {
            let s = self.dispatch();
            let first = self.queued[0];
            assert forall|i: int| 0 <= i < s.queued.len() implies (#[trigger] s.queued[i]).ticket
                < s.next_ticket by {
                assert(s.queued[i] == self.queued[i + 1]);
            }
            assert forall|i: int, j: int| 0 <= i < j < s.queued.len() implies (
            #[trigger] s.queued[i]).ticket < (#[trigger] s.queued[j]).ticket by {
                assert(s.queued[i] == self.queued[i + 1]);
                assert(s.queued[j] == self.queued[j + 1]);
            }
            assert forall|t: u64| #[trigger] s.in_flight.contains_key(t) implies t
                < s.next_ticket && s.in_flight[t].ticket == t && !s.is_queued(t) by {
                if s.is_queued(t) {
                    let i = choose|i: int|
                        0 <= i < s.queued.len() && (#[trigger] s.queued[i]).ticket == t;
                    assert(s.queued[i] == self.queued[i + 1]);
                    assert(self.queued[i + 1].ticket == t);
                    assert(self.queued[0].ticket < self.queued[i + 1].ticket);
                }
            }
        }
    }

    /// A request completes once: a ticket that was handed out and is no
    /// longer pending is never pending again, whatever is scheduled,
    /// dispatched or completed afterwards.
    pub proof fn law_completed_once(
        self,
        done: u64,
        page_id: PageId,
        operation: DiskOperation,
        buffer: PageData,
        ticket: u64,
    )
        requires
            self.wf(),
            done < self.next_ticket,
            !self.is_pending(done),
        ensures
            self.can_schedule() ==> !self.schedule(page_id, operation, buffer).is_pending(done),
            self.queued.len() > 0 ==> !self.dispatch().is_pending(done),
            !self.complete(ticket).is_pending(done),
            self.in_flight.contains_key(ticket) ==> !self.complete(ticket).is_pending(ticket),
    {
        if self.can_schedule() {
            let s = self.schedule(page_id, operation, buffer);
            if s.is_queued(done) {
                let i = choose|i: int|
                    0 <= i < s.queued.len() && (#[trigger] s.queued[i]).ticket == done;
                if i < self.queued.len() {
                    assert(self.queued[i].ticket == done);
                }
            }
        }
        if self.queued.len() > 0 {
            let s = self.dispatch();
            if s.is_queued(done) {
                let i = choose|i: int|
                    0 <= i < s.queued.len() && (#[trigger] s.queued[i]).ticket == done;
                assert(s.queued[i] == self.queued[i + 1]);
                assert(self.queued[i + 1].ticket == done);
            }
            assert(self.queued[0].ticket != done);
        }
    }
}

impl DiskView {
    /// What a request makes of the store, and what it reports: a read
    /// gives the content of the page, a write replaces it and gives what
    /// was written. A request that the store refuses changes nothing.
    pub open spec fn perform(self, request: DiskRequest) -> (
        DiskView,
        Result<PageData, StorageError>,
    ) {
        match request.operation {
            DiskOperation::Read => if self.pages.contains_key(request.page_id) {
                (self, Ok(self.pages[request.page_id]))
            } else {
                (self, Err(StorageError::PageNotAllocated))
            },
            DiskOperation::Write => match self.write_result(request.page_id) {
                Ok(()) => (self.write(request.page_id, request.buffer), Ok(request.buffer)),
                Err(e) => (self, Err(e)),
            },
        }
    }
}

impl DiskManager {
    /// Performs a request on the store.
    pub fn perform(&mut self, request: &DiskRequest) -> (result: Result<PageData, StorageError>)
        requires
            old(self).wf(),
        ensures
            final(self).wf(),
            (final(self)@, result) == old(self)@.perform(*request),
    {
        match request.operation {
            DiskOperation::Read => self.read_page(request.page_id),
            DiskOperation::Write => {
                match self.write_page(request.page_id, &request.buffer) {
                    Ok(()) => Ok(request.buffer),
                    Err(e) => Err(e),
                }
            },
        }
    }
}

/// The disk scheduler.
pub struct DiskScheduler {
    queued: VecDeque<DiskRequest>,
    in_flight: HashMap<u64, DiskRequest>,
    next_ticket: u64,
}

impl View for DiskScheduler {
    type V = SchedulerView;

    closed spec fn view(&self) -> SchedulerView {
        SchedulerView {
            queued: self.queued@,
            in_flight: self.in_flight@,
            next_ticket: self.next_ticket,
        }
    }
}

impl DiskScheduler {
    /// A scheduler without requests.
    pub fn new() -> (scheduler: Self)
        ensures
            scheduler@ == SchedulerView::empty(),
            scheduler@.wf(),
    {
        Self { queued: VecDeque::new(), in_flight: HashMap::new(), next_ticket: 0 }
    }

    /// Number of requests that wait for the worker.
    pub fn queued_count(&self) -> (count: usize)
        ensures
            count == self@.queued.len(),
    {
        self.queued.len()
    }

    /// Number of requests that the worker has taken and not completed.
    pub fn in_flight_count(&self) -> (count: usize)
        ensures
            count == self@.in_flight.len(),
    {
        self.in_flight.len()
    }

    fn schedule(&mut self, page_id: PageId, operation: DiskOperation, buffer: PageData) -> (ticket:
        Option<u64>)
        requires
            old(self)@.wf(),
        ensures
            final(self)@.wf(),
            match ticket {
                Some(t) => old(self)@.can_schedule() && t == old(self)@.next_ticket && final(self)@
                    == old(self)@.schedule(page_id, operation, buffer),
                None => !old(self)@.can_schedule() && final(self)@ == old(self)@,
            },
    {
        if self.next_ticket == u64::MAX {
            return None;
        }
        proof {
            self@.lemma_wf_preserved(page_id, operation, buffer, 0);
        }
        let ticket = self.next_ticket;
        self.queued.push_back(DiskRequest { ticket, page_id, operation, buffer });
        self.next_ticket = ticket + 1;
        Some(ticket)
    }

    /// Schedules the read of a page and returns the ticket under which it
    /// completes. `None`, and nothing is scheduled, where no ticket is
    /// left.
    pub fn schedule_read(&mut self, page_id: PageId) -> (ticket: Option<u64>)
        requires
            old(self)@.wf(),
        ensures
            final(self)@.wf(),
            match ticket {
                Some(t) => old(self)@.can_schedule() && t == old(self)@.next_ticket && final(self)@
                    == old(self)@.schedule(
                    page_id,
                    DiskOperation::Read,
                    crate::buffer::page::zeroed_data(),
                ),
                None => !old(self)@.can_schedule() && final(self)@ == old(self)@,
            },
    {
        self.schedule(page_id, DiskOperation::Read, [0;BUSTUBX_PAGE_SIZE])
    }

    /// Schedules the write of `data` to a page and returns the ticket
    /// under which it completes. `None`, and nothing is scheduled, where no
    /// ticket is left.
    pub fn schedule_write(&mut self, page_id: PageId, data: &PageData) -> (ticket: Option<u64>)
        requires
            old(self)@.wf(),
        ensures
            final(self)@.wf(),
            match ticket {
                Some(t) => old(self)@.can_schedule() && t == old(self)@.next_ticket && final(self)@
                    == old(self)@.schedule(page_id, DiskOperation::Write, *data),
                None => !old(self)@.can_schedule() && final(self)@ == old(self)@,
            },
    {
        self.schedule(page_id, DiskOperation::Write, *data)
    }

    /// Hands the oldest waiting request to the worker: it is in flight
    /// afterwards. `None` where no request waits.
    pub fn next_request(&mut self) -> (request: Option<DiskRequest>)
        requires
            old(self)@.wf(),
        ensures
            final(self)@.wf(),
            match request {
                Some(r) => old(self)@.queued.len() > 0 && r == old(self)@.queued[0] && final(self)@
                    == old(self)@.dispatch(),
                None => old(self)@.queued.len() == 0 && final(self)@ == old(self)@,
            },
    {
        proof {
            self@.lemma_wf_preserved(0, DiskOperation::Read, crate::buffer::page::zeroed_data(), 0);
        }
        match self.queued.pop_front() {
            Some(request) => {
                self.in_flight.insert(request.ticket, request);
                assert(self.queued@ =~= old(self)@.queued.drop_first());
                Some(request)
            },
            None => None,
        }
    }

    /// Completes the request in flight under `ticket` with what the worker
    /// reports. `None`, and nothing changes, where no request is in flight
    /// under the ticket: none was dispatched under it, or it completed
    /// already.
    pub fn complete(&mut self, ticket: u64, result: Result<PageData, StorageError>) -> (completion:
        Option<Completion>)
        requires
            old(self)@.wf(),
        ensures
            final(self)@.wf(),
            match completion {
                Some(c) => {
                    &&& old(self)@.in_flight.contains_key(ticket)
                    &&& c.ticket == ticket
                    &&& c.page_id == old(self)@.in_flight[ticket].page_id
                    &&& c.operation == old(self)@.in_flight[ticket].operation
                    &&& c.result == result
                    &&& final(self)@ == old(self)@.complete(ticket)
                },
                None => !old(self)@.in_flight.contains_key(ticket) && final(self)@ == old(self)@,
            },
    {
        proof {
            self@.lemma_wf_preserved(
                0,
                DiskOperation::Read,
                crate::buffer::page::zeroed_data(),
                ticket,
            );
        }
        match self.in_flight.remove(&ticket) {
            Some(request) => Some(
                Completion {
                    ticket,
                    page_id: request.page_id,
                    operation: request.operation,
                    result,
                },
            ),
            None => {
                assert(self.in_flight@ =~= old(self).in_flight@);
                None
            },
        }
    }

    /// Takes the oldest waiting request, performs it on `disk` and
    /// completes it. `None` where no request waits.
    pub fn service_next(&mut self, disk: &mut DiskManager) -> (completion: Option<Completion>)
        requires
            old(self)@.wf(),
            old(disk).wf(),
        ensures
            final(self)@.wf(),
            final(disk).wf(),
            match completion {
                Some(c) => {
                    let request = old(self)@.queued[0];
                    &&& old(self)@.queued.len() > 0
                    &&& c.ticket == request.ticket
                    &&& c.page_id == request.page_id
                    &&& c.operation == request.operation
                    &&& final(self)@.queued == old(self)@.queued.drop_first()
                    &&& final(self)@.in_flight == old(self)@.in_flight
                    &&& final(self)@.next_ticket == old(self)@.next_ticket
                    &&& (final(disk)@, c.result) == old(disk)@.perform(request)
                },
                None => old(self)@.queued.len() == 0 && final(self)@ == old(self)@ && final(disk)@
                    == old(disk)@,
            },
    {
        let request = match self.next_request() {
            Some(request) => request,
            None => {
                return None;
            },
        };
        let result = disk.perform(&request);
        let completion = self.complete(request.ticket, result);
        proof {
            assert(old(self)@.queued[0].ticket == request.ticket);
            assert(!old(self)@.in_flight.contains_key(request.ticket)) by {
                if old(self)@.in_flight.contains_key(request.ticket) {
                    assert(old(self)@.is_queued(request.ticket));
                }
            }
            assert(self@.in_flight =~= old(self)@.in_flight);
        }
        completion
    }
}

} // verus!
