use bustubx::storage::DiskManager;
use bustubx::storage::DiskOperation;
use bustubx::storage::DiskScheduler;
use bustubx::storage::StorageError;

fn filled(byte: u8) -> [u8; 4096] {
    [byte; 4096]
}

#[test]
fn identifiers_start_at_one_and_ascend() {
    let mut disk = DiskManager::new(3, 3);
    assert_eq!(disk.capacity(), 3);
    assert!(disk.can_allocate());
    assert_eq!(disk.allocate_page(), Ok(1));
    assert_eq!(disk.allocate_page(), Ok(2));
    assert_eq!(disk.allocate_page(), Ok(3));
    assert!(!disk.can_allocate());
    assert_eq!(disk.allocate_page(), Err(StorageError::OutOfSpace));
}

#[test]
fn invalid_identifier_is_never_allocated() {
    let mut disk = DiskManager::new(2, 2);
    assert!(!disk.is_allocated(0));
    assert_eq!(disk.read_page(0), Err(StorageError::PageNotAllocated));
    assert_eq!(disk.write_page(0, &filled(1)), Err(StorageError::PageNotAllocated));
    assert_eq!(disk.allocate_page(), Ok(1));
    assert!(!disk.is_allocated(0));
}

#[test]
fn new_page_on_disk_is_zeroed() {
    let mut disk = DiskManager::new(2, 2);
    let id = disk.allocate_page().unwrap();
    assert!(disk.is_allocated(id));
    assert_eq!(disk.read_page(id), Ok(filled(0)));
}

#[test]
fn write_then_read_gives_what_was_written() {
    let mut disk = DiskManager::new(4, 4);
    let a = disk.allocate_page().unwrap();
    let b = disk.allocate_page().unwrap();
    let mut content = filled(0);
    content[0] = 1;
    content[4095] = 2;
    assert_eq!(disk.write_page(a, &content), Ok(()));
    assert_eq!(disk.read_page(a), Ok(content));
    assert_eq!(disk.read_page(b), Ok(filled(0)));
}

#[test]
fn unallocated_page_is_refused() {
    let mut disk = DiskManager::new(4, 4);
    assert_eq!(disk.read_page(1), Err(StorageError::PageNotAllocated));
    assert_eq!(disk.write_page(1, &filled(3)), Err(StorageError::PageNotAllocated));
    assert!(!disk.deallocate_page(1));
}

#[test]
fn deallocated_identifier_is_not_handed_out_again() {
    let mut disk = DiskManager::new(4, 4);
    let a = disk.allocate_page().unwrap();
    assert_eq!(disk.write_page(a, &filled(7)), Ok(()));
    assert!(disk.deallocate_page(a));
    assert!(!disk.is_allocated(a));
    assert_eq!(disk.read_page(a), Err(StorageError::PageNotAllocated));
    assert!(!disk.deallocate_page(a));
    assert_eq!(disk.allocate_page(), Ok(2));
}

#[test]
fn store_without_room_allocates_nothing() {
    let mut disk = DiskManager::new(0, 0);
    assert!(!disk.can_allocate());
    assert_eq!(disk.allocate_page(), Err(StorageError::OutOfSpace));
}

#[test]
fn requests_are_dispatched_in_order_of_scheduling() {
    let mut scheduler = DiskScheduler::new();
    assert_eq!(scheduler.schedule_read(5), Some(0));
    assert_eq!(scheduler.schedule_write(6, &filled(9)), Some(1));
    assert_eq!(scheduler.queued_count(), 2);
    let first = scheduler.next_request().unwrap();
    assert_eq!(first.ticket, 0);
    assert_eq!(first.page_id, 5);
    assert_eq!(first.operation, DiskOperation::Read);
    assert_eq!(first.buffer, filled(0));
    let second = scheduler.next_request().unwrap();
    assert_eq!(second.ticket, 1);
    assert_eq!(second.page_id, 6);
    assert_eq!(second.operation, DiskOperation::Write);
    assert_eq!(second.buffer, filled(9));
    assert!(scheduler.next_request().is_none());
    assert_eq!(scheduler.queued_count(), 0);
    assert_eq!(scheduler.in_flight_count(), 2);
}

#[test]
fn request_completes_exactly_once_and_in_any_order() {
    let mut scheduler = DiskScheduler::new();
    let a = scheduler.schedule_read(1).unwrap();
    let b = scheduler.schedule_read(2).unwrap();
    // Not in flight yet.
    assert!(scheduler.complete(a, Ok(filled(0))).is_none());
    scheduler.next_request().unwrap();
    scheduler.next_request().unwrap();
    let done_b = scheduler.complete(b, Err(StorageError::PageNotAllocated)).unwrap();
    assert_eq!(done_b.ticket, b);
    assert_eq!(done_b.page_id, 2);
    assert_eq!(done_b.result, Err(StorageError::PageNotAllocated));
    let done_a = scheduler.complete(a, Ok(filled(4))).unwrap();
    assert_eq!(done_a.ticket, a);
    assert_eq!(done_a.page_id, 1);
    assert_eq!(done_a.result, Ok(filled(4)));
    assert!(scheduler.complete(a, Ok(filled(4))).is_none());
    assert!(scheduler.complete(b, Ok(filled(4))).is_none());
    assert_eq!(scheduler.in_flight_count(), 0);
}

#[test]
fn service_performs_requests_on_the_store() {
    let mut disk = DiskManager::new(4, 4);
    let page = disk.allocate_page().unwrap();
    let mut scheduler = DiskScheduler::new();
    let w = scheduler.schedule_write(page, &filled(8)).unwrap();
    let r = scheduler.schedule_read(page).unwrap();
    let missing = scheduler.schedule_read(3).unwrap();
    let first = scheduler.service_next(&mut disk).unwrap();
    assert_eq!(first.ticket, w);
    assert_eq!(first.operation, DiskOperation::Write);
    assert_eq!(first.result, Ok(filled(8)));
    let second = scheduler.service_next(&mut disk).unwrap();
    assert_eq!(second.ticket, r);
    assert_eq!(second.result, Ok(filled(8)));
    let third = scheduler.service_next(&mut disk).unwrap();
    assert_eq!(third.ticket, missing);
    assert_eq!(third.result, Err(StorageError::PageNotAllocated));
    assert!(scheduler.service_next(&mut disk).is_none());
    assert_eq!(disk.read_page(page), Ok(filled(8)));
}

#[test]
fn perform_reads_and_writes() {
    let mut disk = DiskManager::new(4, 4);
    let page = disk.allocate_page().unwrap();
    let mut scheduler = DiskScheduler::new();
    scheduler.schedule_write(page, &filled(2)).unwrap();
    scheduler.schedule_read(page).unwrap();
    let write = scheduler.next_request().unwrap();
    let read = scheduler.next_request().unwrap();
    assert_eq!(disk.perform(&read), Ok(filled(0)));
    assert_eq!(disk.perform(&write), Ok(filled(2)));
    assert_eq!(disk.perform(&read), Ok(filled(2)));
}

#[test]
fn new_page_takes_no_slot_until_it_is_written() {
    let mut disk = DiskManager::new(4, 1);
    assert_eq!(disk.space(), 1);
    let a = disk.allocate_page().unwrap();
    let b = disk.allocate_page().unwrap();
    assert_eq!(disk.used_space(), 0);
    assert!(disk.can_write(a));
    assert!(disk.can_write(b));
    assert_eq!(disk.write_page(a, &filled(1)), Ok(()));
    assert_eq!(disk.used_space(), 1);
    // A page with a slot can be written again; one without cannot get one.
    assert!(disk.can_write(a));
    assert!(!disk.can_write(b));
    assert_eq!(disk.write_page(a, &filled(2)), Ok(()));
    assert_eq!(disk.write_page(b, &filled(3)), Err(StorageError::OutOfSpace));
    assert_eq!(disk.read_page(a), Ok(filled(2)));
    assert_eq!(disk.read_page(b), Ok(filled(0)));
    assert_eq!(disk.used_space(), 1);
}

#[test]
fn giving_up_a_page_gives_up_its_slot() {
    let mut disk = DiskManager::new(4, 1);
    let a = disk.allocate_page().unwrap();
    let b = disk.allocate_page().unwrap();
    assert_eq!(disk.write_page(a, &filled(1)), Ok(()));
    assert_eq!(disk.write_page(b, &filled(2)), Err(StorageError::OutOfSpace));
    assert!(disk.deallocate_page(a));
    assert_eq!(disk.used_space(), 0);
    assert_eq!(disk.write_page(b, &filled(2)), Ok(()));
    assert_eq!(disk.read_page(b), Ok(filled(2)));
}

#[test]
fn store_without_slots_takes_no_write() {
    let mut disk = DiskManager::new(2, 0);
    let a = disk.allocate_page().unwrap();
    assert!(!disk.can_write(a));
    assert!(!disk.can_write(7));
    assert_eq!(disk.write_page(a, &filled(1)), Err(StorageError::OutOfSpace));
    assert_eq!(disk.write_page(7, &filled(1)), Err(StorageError::PageNotAllocated));
    assert_eq!(disk.read_page(a), Ok(filled(0)));
}

#[test]
fn failed_write_is_reported_on_its_completion() {
    let mut disk = DiskManager::new(2, 0);
    let page = disk.allocate_page().unwrap();
    let mut scheduler = DiskScheduler::new();
    let w = scheduler.schedule_write(page, &filled(8)).unwrap();
    let done = scheduler.service_next(&mut disk).unwrap();
    assert_eq!(done.ticket, w);
    assert_eq!(done.result, Err(StorageError::OutOfSpace));
    assert_eq!(disk.read_page(page), Ok(filled(0)));
}
