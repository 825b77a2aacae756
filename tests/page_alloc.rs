use krabby::page_alloc::{PageAllocError, Record, RecordsPage};

const PAGE_SIZE: usize = 2048;

#[test]
fn to_from() {
    for byte in [0x00, 0xff, 0xba, 0xdd, 0xec, 0xaf] {
        let records = Record::from_byte(byte);
        assert_eq!(byte, Record::to_byte(records));
    }
}

#[test]
fn from_byte_layout() {
    // Record i sits in bits 2i (last) and 2i + 1 (taken)
    let records = Record::from_byte(0b1001_0010);
    assert_eq!(records[0], Record { taken: true, last: false });
    assert_eq!(records[1], Record { taken: false, last: false });
    assert_eq!(records[2], Record { taken: false, last: true });
    assert_eq!(records[3], Record { taken: true, last: false });
}

#[test]
fn allocate() {
    const PAGES: usize = 1024;

    let mut records_page = RecordsPage::new(PAGE_SIZE);

    let mut sum = 0;
    for num_pages_to_allocate in [1, 5, 3, 4, 100, 1] {
        assert_eq!(
            records_page
                .allocate_slice(0, PAGES, num_pages_to_allocate)
                .unwrap(),
            PAGE_SIZE * sum
        );
        sum += num_pages_to_allocate;
    }
}

#[test]
fn alloc_dealloc() {
    const PAGES: usize = 1024;

    let mut records_page = RecordsPage::new(PAGE_SIZE);

    let tv = [1, 5, 3, 4, 100, 1];
    let mut addresses = Vec::new();

    let mut sum = 0;
    for num_pages_to_allocate in tv {
        let address = records_page
            .allocate_slice(0, PAGES, num_pages_to_allocate)
            .unwrap();
        addresses.push(address);
        assert_eq!(address, PAGE_SIZE * sum);
        sum += num_pages_to_allocate;
    }

    // Now deallocate everything
    for (index, address) in addresses.iter().enumerate().rev() {
        assert_eq!(records_page.deallocate(0, PAGES, *address), Ok(tv[index]));
    }
}

#[test]
fn run_boundary_scenario() {
    let mut page = RecordsPage::new(4096);
    assert_eq!(page.allocate_pages(1024, 1), Ok(0));
    assert_eq!(page.allocate_pages(1024, 5), Ok(1));
    assert_eq!(page.allocate_pages(1024, 3), Ok(6));
    assert!(page.is_last(5));
    assert!(page.is_last(8));
    assert_eq!(page.deallocate_pages(1024, 6), Ok(3));
    // The freed run is free again and no longer bounded
    for i in 6..9 {
        assert!(!page.is_taken(i));
    }
    assert!(!page.is_last(8));
    // The run before it keeps its own boundary
    assert!(page.is_taken(5));
    assert!(page.is_last(5));
    assert_eq!(page.allocate_pages(1024, 3), Ok(6));
}

#[test]
fn round_trip_restores_records() {
    let mut page = RecordsPage::new(64);
    assert_eq!(page.allocate_pages(200, 4), Ok(0));
    assert_eq!(page.allocate_pages(200, 2), Ok(4));
    let before: Vec<Record> = (0..256).map(|i| page.get_record(i)).collect();
    let start = page.allocate_pages(200, 7).unwrap();
    assert_eq!(start, 6);
    assert_eq!(page.deallocate_pages(200, start), Ok(7));
    let after: Vec<Record> = (0..256).map(|i| page.get_record(i)).collect();
    assert_eq!(before, after);
}

#[test]
fn exhaust_heap() {
    let mut page = RecordsPage::new(64);
    assert_eq!(page.allocate_pages(100, 100), Ok(0));
    assert_eq!(page.allocate_pages(100, 1), Err(PageAllocError::OutOfMemory));
    let mut page = RecordsPage::new(64);
    assert_eq!(page.allocate_pages(100, 101), Err(PageAllocError::OutOfMemory));
}

#[test]
fn double_free_is_refused() {
    let mut page = RecordsPage::new(64);
    assert_eq!(page.allocate_pages(100, 3), Ok(0));
    assert_eq!(page.deallocate_pages(100, 0), Ok(3));
    assert_eq!(page.deallocate_pages(100, 0), Err(PageAllocError::DoubleFree));
    assert_eq!(page.deallocate(0, 100, 64 * 5), Err(PageAllocError::DoubleFree));
}

#[test]
fn freed_gap_is_reused_first() {
    let mut page = RecordsPage::new(64);
    assert_eq!(page.allocate_slice(4096, 100, 2), Ok(4096));
    assert_eq!(page.allocate_slice(4096, 100, 2), Ok(4096 + 2 * 64));
    assert_eq!(page.deallocate(4096, 100, 4096), Ok(2));
    // A run of three does not fit in the two-page gap
    assert_eq!(page.allocate_slice(4096, 100, 3), Ok(4096 + 4 * 64));
    assert_eq!(page.allocate_slice(4096, 100, 2), Ok(4096));
}
