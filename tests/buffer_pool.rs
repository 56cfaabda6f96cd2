use rudb::buffer_pool::{first_error, BufferPoolManager, DefaultBufferPoolManager, Either, Grant, Lookup};
use rudb::config::{PageId, HEADER_PAGE_ID, PAGE_SIZE};
use rudb::checksum::CHECKSUM_SIZE;
use rudb::disk_manager::{extend_for_read, DiskManager};
use rudb::error::{DbError, DbErrorKind};
use rudb::reinterpret::{read_i32, read_str, write_i32, write_str};

/// A database file and its bitmap file, held in memory.
#[derive(Default)]
struct Disk {
    db: Vec<u8>,
    bitmap: Vec<u8>,
    /// Frames whose next write-back fails.
    fail_writes: Vec<usize>,
}

fn open(size: usize, disk: &Disk) -> DefaultBufferPoolManager {
    let dm = DiskManager::new(disk.bitmap.clone()).expect("Failed to create");
    BufferPoolManager::new(size, dm)
}

fn write_back(pool: &mut DefaultBufferPoolManager, disk: &mut Disk, idx: usize) -> Result<(), DbError> {
    if let Some(k) = disk.fail_writes.iter().position(|&f| f == idx) {
        disk.fail_writes.remove(k);
        return Err(DbError::new(DbErrorKind::Other, "injected write failure"));
    }
    let offset = pool.seal_frame(idx)? as usize;
    if disk.db.len() < offset + PAGE_SIZE {
        disk.db.resize(offset + PAGE_SIZE, 0);
    }
    disk.db[offset..offset + PAGE_SIZE].copy_from_slice(&pool.frame(idx).data);
    Ok(())
}

fn complete(
    pool: &mut DefaultBufferPoolManager,
    disk: &mut Disk,
    grant: Grant,
    requested: Option<PageId>,
    need_reset: bool,
) -> Result<usize, DbError> {
    let flushed = match grant.write_back {
        Some(_) => write_back(pool, disk, *grant.source.borrow()),
        None => Ok(()),
    };
    pool.complete_acquire(grant, flushed, requested, need_reset)
}

fn read_page(dm: &DiskManager, disk: &mut Disk, page_id: PageId) -> Result<Vec<u8>, DbError> {
    let offset = dm.check_read(page_id)?;
    if let Some(len) = extend_for_read(offset, disk.db.len() as u64) {
        disk.db.resize(len as usize, 0);
    }
    let offset = offset as usize;
    if disk.db.len() < offset + PAGE_SIZE {
        return Err(DbError::new(DbErrorKind::UnexpectedEof, "I/O error: read 0 byte"));
    }
    Ok(disk.db[offset..offset + PAGE_SIZE].to_vec())
}

fn new_page(pool: &mut DefaultBufferPoolManager, disk: &mut Disk) -> Result<usize, DbError> {
    let grant = pool.begin_new_page()?;
    complete(pool, disk, grant, None, true)
}

fn fetch_page(pool: &mut DefaultBufferPoolManager, disk: &mut Disk, page_id: PageId) -> Result<usize, DbError> {
    match pool.begin_fetch_page(page_id)? {
        Lookup::Resident(idx) => Ok(idx),
        Lookup::Missing(grant) => {
            let idx = complete(pool, disk, grant, Some(page_id), false)?;
            let page = read_page(pool.disk_manager(), disk, page_id);
            pool.finish_load(idx, page)?;
            Ok(idx)
        }
    }
}

fn flush_page(pool: &mut DefaultBufferPoolManager, disk: &mut Disk, page_id: PageId) -> Result<(), DbError> {
    if let Some(idx) = pool.flush_target(page_id)? {
        let written = write_back(pool, disk, idx);
        pool.finish_flush(idx, written)?;
    }
    Ok(())
}

fn flush_all_pages(pool: &mut DefaultBufferPoolManager, disk: &mut Disk) -> Result<(), DbError> {
    let mut result = Ok(());
    for idx in pool.dirty_frames() {
        let written = write_back(pool, disk, idx);
        result = first_error(result, pool.finish_flush(idx, written));
    }
    result
}

fn close(mut pool: DefaultBufferPoolManager, disk: &mut Disk) {
    let _ = flush_all_pages(&mut pool, disk);
    pool.sync_disk_manager();
    disk.bitmap = pool.disk_manager().bitmap_image().to_vec();
}

fn page_id_of(pool: &DefaultBufferPoolManager, idx: usize) -> PageId {
    pool.frame(idx).page_id
}

#[test]
fn buffer_pool_manager() {
    let mut disk = Disk::default();
    let mut bpm = open(10, &disk);
    let maybe_page = new_page(&mut bpm, &mut disk);
    assert!(maybe_page.is_ok());

    let page = maybe_page.unwrap();
    assert_eq!(HEADER_PAGE_ID, page_id_of(&bpm, page));

    // Change content in page one.
    write_str(bpm.frame_data_mut(page), CHECKSUM_SIZE, "Hello");

    // Create 9 new pages.
    for i in 1..10 {
        let idx = new_page(&mut bpm, &mut disk).unwrap();
        assert_eq!(i + HEADER_PAGE_ID, page_id_of(&bpm, idx));
    }

    // All the pages are pinned, the buffer pool is full.
    for _ in 10..15 {
        assert!(new_page(&mut bpm, &mut disk).is_err());
    }

    // Upin the first five pages, add them to LRU list, set as dirty.
    for i in 0..5 {
        assert!(bpm.unpin_page(i + HEADER_PAGE_ID, true).is_ok());
    }

    // We have 5 empty slots in LRU list, evict page zero out of buffer pool.
    for i in 10..14 {
        let idx = new_page(&mut bpm, &mut disk).unwrap();
        assert_eq!(i + HEADER_PAGE_ID, page_id_of(&bpm, idx));
    }

    // Fetch page one again.
    let maybe_page = fetch_page(&mut bpm, &mut disk, HEADER_PAGE_ID);
    assert!(maybe_page.is_ok());

    // Check read content.
    let page = maybe_page.unwrap();
    assert_eq!(b"Hello".to_vec(), read_str(&bpm.frame(page).data, CHECKSUM_SIZE));
}

#[test]
fn new_and_delete() {
    let mut disk = Disk::default();
    let mut bpm = open(10, &disk);
    for i in 0..10 {
        let idx = new_page(&mut bpm, &mut disk).unwrap();
        assert_eq!(i + HEADER_PAGE_ID, page_id_of(&bpm, idx));
    }
    assert!(new_page(&mut bpm, &mut disk).is_err());
    assert!(bpm.delete_page(HEADER_PAGE_ID - 1).is_err());
    assert!(bpm.delete_page(HEADER_PAGE_ID).is_err());

    // Unpin page |HEADER_PAGE_ID| and it gets replaced to disk, but its page ID is
    // still occupied, therefore, page |10 + HEADER_PAGE_ID| is allocated.
    assert!(bpm.unpin_page(HEADER_PAGE_ID, true).is_ok());
    let idx = new_page(&mut bpm, &mut disk).unwrap();
    assert_eq!(10 + HEADER_PAGE_ID, page_id_of(&bpm, idx));

    // Delete page |HEADER_PAGE_ID| and unpin page |10 + HEADER_PAGE_ID|; when
    // |new_page| is called, page |10 + HEADER_PAGE_ID| gets replaced to disk. Since
    // page |HEADER_PAGE_ID| is deallocated, its page ID is reused.
    assert!(bpm.delete_page(HEADER_PAGE_ID).is_ok());
    assert!(bpm.unpin_page(10 + HEADER_PAGE_ID, true).is_ok());
    let idx = new_page(&mut bpm, &mut disk).unwrap();
    assert_eq!(HEADER_PAGE_ID, page_id_of(&bpm, idx));

    assert!(bpm.delete_page(10 + HEADER_PAGE_ID).is_ok());
    for i in 5..10 {
        assert!(bpm.unpin_page(i + HEADER_PAGE_ID, true).is_ok());
        assert!(bpm.delete_page(i + HEADER_PAGE_ID).is_ok());
    }
    for i in 5..10 {
        assert!(fetch_page(&mut bpm, &mut disk, i + HEADER_PAGE_ID).is_err());
        let idx = new_page(&mut bpm, &mut disk).unwrap();
        assert_eq!(i + HEADER_PAGE_ID, page_id_of(&bpm, idx));
    }
}

#[test]
fn drop_flushes_all_pages() {
    let mut disk = Disk::default();
    {
        let mut bpm = open(10, &disk);
        for idx in 0..10 as PageId {
            let id = idx + HEADER_PAGE_ID;
            let page = new_page(&mut bpm, &mut disk).unwrap();
            assert_eq!(id, page_id_of(&bpm, page));

            // Only flush pages with |ID % 2 == 0|;
            if id % 2 == 0 {
                write_i32(bpm.frame_data_mut(page), CHECKSUM_SIZE, id);
            }
            assert!(bpm.unpin_page(id, id % 2 == 0).is_ok());
        }

        // Delete pages with |ID >= 5 + HEADER_PAGE_ID|.
        for idx in 5..10 {
            assert!(bpm.delete_page(idx + HEADER_PAGE_ID).is_ok());
        }
        close(bpm, &mut disk);
    }

    {
        let mut bpm = open(10, &disk);
        for idx in 0..5 as PageId {
            let id = idx + HEADER_PAGE_ID;
            let page = fetch_page(&mut bpm, &mut disk, id).unwrap();
            assert_eq!(
                if id % 2 == 0 { id } else { 0 },
                read_i32(&bpm.frame(page).data, CHECKSUM_SIZE)
            );
        }
        for idx in 5..10 {
            assert!(fetch_page(&mut bpm, &mut disk, idx + HEADER_PAGE_ID).is_err());
        }
        close(bpm, &mut disk);
    }
}

#[test]
fn fetch_below_header_is_invalid_input() {
    let mut disk = Disk::default();
    let mut bpm = open(4, &disk);
    let err = fetch_page(&mut bpm, &mut disk, HEADER_PAGE_ID - 1).unwrap_err();
    assert_eq!(DbErrorKind::InvalidInput, err.kind);
    assert_eq!(DbErrorKind::InvalidInput, bpm.flush_target(HEADER_PAGE_ID - 1).unwrap_err().kind);
}

#[test]
fn unpin_unpinned_page_is_invalid_data() {
    let mut disk = Disk::default();
    let mut bpm = open(4, &disk);
    let idx = new_page(&mut bpm, &mut disk).unwrap();
    let id = page_id_of(&bpm, idx);
    assert!(bpm.unpin_page(id, false).is_ok());
    assert_eq!(DbErrorKind::InvalidData, bpm.unpin_page(id, false).unwrap_err().kind);
    assert_eq!(DbErrorKind::NotFound, bpm.unpin_page(id + 100, false).unwrap_err().kind);
}

#[test]
fn delete_pinned_page_is_invalid_data() {
    let mut disk = Disk::default();
    let mut bpm = open(4, &disk);
    let idx = new_page(&mut bpm, &mut disk).unwrap();
    let id = page_id_of(&bpm, idx);
    assert_eq!(DbErrorKind::InvalidData, bpm.delete_page(id).unwrap_err().kind);
    assert!(bpm.unpin_page(id, false).is_ok());
    assert!(bpm.delete_page(id).is_ok());
    assert!(!bpm.disk_manager().is_allocated(id));
    // Deleting a page that is not resident still deallocates it.
    assert!(bpm.delete_page(id).is_ok());
}

#[test]
fn delete_then_new_reuses_identifier() {
    let mut disk = Disk::default();
    let mut bpm = open(10, &disk);
    for i in 0..10 {
        let idx = new_page(&mut bpm, &mut disk).unwrap();
        assert_eq!(i + 1, page_id_of(&bpm, idx));
    }
    assert_eq!(DbErrorKind::NotFound, new_page(&mut bpm, &mut disk).unwrap_err().kind);
    assert!(bpm.unpin_page(1, true).is_ok());
    let idx = new_page(&mut bpm, &mut disk).unwrap();
    assert_eq!(11, page_id_of(&bpm, idx));
    assert!(bpm.delete_page(1).is_ok());
    assert!(bpm.unpin_page(11, true).is_ok());
    let idx = new_page(&mut bpm, &mut disk).unwrap();
    assert_eq!(1, page_id_of(&bpm, idx));
}

#[test]
fn flush_page_clears_dirty_and_writes_bytes() {
    let mut disk = Disk::default();
    let mut bpm = open(4, &disk);
    let idx = new_page(&mut bpm, &mut disk).unwrap();
    let id = page_id_of(&bpm, idx);
    write_i32(bpm.frame_data_mut(idx), CHECKSUM_SIZE, 4242);
    assert!(bpm.unpin_page(id, true).is_ok());
    assert!(bpm.frame(idx).is_dirty);
    assert!(flush_page(&mut bpm, &mut disk, id).is_ok());
    assert!(!bpm.frame(idx).is_dirty);
    let off = id as usize * PAGE_SIZE;
    assert_eq!(bpm.frame(idx).data[..], disk.db[off..off + PAGE_SIZE]);
    assert_eq!(DbErrorKind::NotFound, bpm.flush_target(id + 1).unwrap_err().kind);
    // A clean page needs no write.
    assert_eq!(None, bpm.flush_target(id).unwrap());
}

#[test]
fn flush_all_returns_first_error_and_keeps_going() {
    let mut disk = Disk::default();
    let mut bpm = open(3, &disk);
    let mut frames = Vec::new();
    for _ in 0..3 {
        let idx = new_page(&mut bpm, &mut disk).unwrap();
        let id = page_id_of(&bpm, idx);
        write_i32(bpm.frame_data_mut(idx), CHECKSUM_SIZE, id * 10);
        assert!(bpm.unpin_page(id, true).is_ok());
        frames.push(idx);
    }
    let dirty = bpm.dirty_frames();
    assert_eq!(3, dirty.len());
    disk.fail_writes.push(dirty[1]);
    let err = flush_all_pages(&mut bpm, &mut disk).unwrap_err();
    assert_eq!(DbErrorKind::Other, err.kind);
    assert!(!bpm.frame(dirty[0]).is_dirty);
    assert!(bpm.frame(dirty[1]).is_dirty);
    assert!(!bpm.frame(dirty[2]).is_dirty);
    assert_eq!(vec![dirty[1]], bpm.dirty_frames());
}

#[test]
fn failed_write_back_returns_victim_to_replacer() {
    let mut disk = Disk::default();
    let mut bpm = open(1, &disk);
    let idx = new_page(&mut bpm, &mut disk).unwrap();
    let id = page_id_of(&bpm, idx);
    assert!(bpm.unpin_page(id, true).is_ok());
    disk.fail_writes.push(idx);
    assert_eq!(DbErrorKind::Other, new_page(&mut bpm, &mut disk).unwrap_err().kind);
    // The dirty page is still resident and can be evicted later.
    assert!(bpm.frame(idx).is_dirty);
    assert_eq!(id, page_id_of(&bpm, idx));
    let idx2 = new_page(&mut bpm, &mut disk).unwrap();
    assert_eq!(idx, idx2);
    assert_eq!(id + 1, page_id_of(&bpm, idx2));
    // The evicted page reads back from disk.
    assert!(bpm.unpin_page(id + 1, false).is_ok());
    assert!(fetch_page(&mut bpm, &mut disk, id).is_ok());
}

#[test]
fn stale_grant_is_refused() {
    let mut disk = Disk::default();
    let mut bpm = open(2, &disk);
    let grant = bpm.begin_new_page().unwrap();
    let i = *grant.source.borrow();
    let _ = new_page(&mut bpm, &mut disk).unwrap();
    let stale = Grant { source: Either::FromFreeList(i), write_back: None };
    let err = bpm.complete_acquire(stale, Ok(()), None, true).unwrap_err();
    assert_eq!(DbErrorKind::InvalidInput, err.kind);
    assert!(matches!(grant.source, Either::FromFreeList(_)));
}

#[test]
fn fetch_resident_page_pins_again() {
    let mut disk = Disk::default();
    let mut bpm = open(2, &disk);
    let idx = new_page(&mut bpm, &mut disk).unwrap();
    let id = page_id_of(&bpm, idx);
    assert_eq!(1, bpm.frame(idx).pin_count);
    assert!(bpm.unpin_page(id, false).is_ok());
    assert_eq!(idx, fetch_page(&mut bpm, &mut disk, id).unwrap());
    assert_eq!(1, bpm.frame(idx).pin_count);
    // Pinned again, the frame is no longer a candidate for eviction.
    let other = new_page(&mut bpm, &mut disk).unwrap();
    assert_ne!(idx, other);
    assert_eq!(DbErrorKind::NotFound, new_page(&mut bpm, &mut disk).unwrap_err().kind);
}

#[test]
fn corrupted_page_is_not_loaded() {
    let mut disk = Disk::default();
    let mut bpm = open(1, &disk);
    let idx = new_page(&mut bpm, &mut disk).unwrap();
    let id = page_id_of(&bpm, idx);
    write_i32(bpm.frame_data_mut(idx), CHECKSUM_SIZE, 77);
    assert!(bpm.unpin_page(id, true).is_ok());
    assert!(flush_page(&mut bpm, &mut disk, id).is_ok());
    assert!(bpm.delete_page(id).is_ok());
    // The page left the pool; its identifier is free again, so allocate it anew and
    // corrupt its bytes on disk.
    let idx = new_page(&mut bpm, &mut disk).unwrap();
    assert_eq!(id, page_id_of(&bpm, idx));
    assert!(bpm.unpin_page(id, false).is_ok());
    let off = id as usize * PAGE_SIZE;
    disk.db[off + 100] ^= 0xff;
    let other = new_page(&mut bpm, &mut disk).unwrap();
    assert!(bpm.unpin_page(page_id_of(&bpm, other), false).is_ok());
    let err = fetch_page(&mut bpm, &mut disk, id).unwrap_err();
    assert_eq!(DbErrorKind::InvalidData, err.kind);
    assert!(bpm.dirty_frames().is_empty());
}

#[test]
fn fetch_of_unallocated_page_changes_nothing() {
    let mut disk = Disk::default();
    let mut bpm = open(1, &disk);
    let idx = new_page(&mut bpm, &mut disk).unwrap();
    let id = page_id_of(&bpm, idx);
    assert!(bpm.unpin_page(id, true).is_ok());
    let err = bpm.begin_fetch_page(id + 5).err().unwrap();
    assert_eq!(DbErrorKind::InvalidInput, err.kind);
    // The resident dirty page was not evicted.
    assert_eq!(id, page_id_of(&bpm, idx));
    assert!(bpm.frame(idx).is_dirty);
    assert!(disk.db.is_empty());
}

#[test]
fn failed_flush_keeps_page_dirty() {
    let mut disk = Disk::default();
    let mut bpm = open(2, &disk);
    let idx = new_page(&mut bpm, &mut disk).unwrap();
    let id = page_id_of(&bpm, idx);
    assert!(bpm.unpin_page(id, true).is_ok());
    disk.fail_writes.push(idx);
    let err = flush_page(&mut bpm, &mut disk, id).unwrap_err();
    assert_eq!(DbErrorKind::Other, err.kind);
    assert!(bpm.frame(idx).is_dirty);
    assert!(flush_page(&mut bpm, &mut disk, id).is_ok());
    assert!(!bpm.frame(idx).is_dirty);
}
