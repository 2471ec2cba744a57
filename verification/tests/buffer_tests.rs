use std::io::{Read, Seek, SeekFrom, Write};

use pagepool::buffer::{
    Buffer, BufferId, BufferPool, BufferPoolManager, Error, FetchOutcome, Replacement,
};
use pagepool::disk::{DiskManager, PageId, PAGE_SIZE};

fn padded(word: &[u8]) -> Vec<u8> {
    let page_size = PAGE_SIZE as usize;
    let mut v = Vec::with_capacity(page_size);
    v.extend_from_slice(word);
    v.resize(page_size, 0);
    v
}

fn do_write_back<F: Write + Seek>(f: &mut F, rep: &Replacement) {
    if let Some(wb) = &rep.write_back {
        f.seek(SeekFrom::Start(DiskManager::page_offset(wb.page_id))).unwrap();
        f.write_all(&wb.data).unwrap();
    }
}

/// The driver loop for a fetch: hit, or write back and read in.
fn fetch<F: Read + Write + Seek>(
    m: &mut BufferPoolManager,
    f: &mut F,
    page_id: PageId,
) -> Result<BufferId, Error> {
    match m.fetch_page(page_id)? {
        FetchOutcome::Hit(b) => Ok(b),
        FetchOutcome::Miss(rep) => {
            do_write_back(f, &rep);
            let mut buf = vec![0u8; PAGE_SIZE as usize];
            f.seek(SeekFrom::Start(DiskManager::page_offset(page_id))).unwrap();
            f.read_exact(&mut buf).unwrap();
            let b = rep.buffer_id;
            m.complete_fetch(b, page_id, buf);
            Ok(b)
        }
    }
}

/// The driver loop for a create: write back the victim, then install.
fn create<F: Write + Seek>(
    m: &mut BufferPoolManager,
    f: &mut F,
) -> Result<(PageId, BufferId), Error> {
    let rep = m.create_page()?;
    do_write_back(f, &rep);
    let b = rep.buffer_id;
    let page_id = m.complete_create(b);
    Ok((page_id, b))
}

fn new_manager(pool_size: usize) -> (BufferPoolManager, impl Read + Write + Seek) {
    // A fresh temporary heap file is empty, so the allocator starts at 0.
    let file = tempfile::tempfile().unwrap();
    let disk = DiskManager::new(0).unwrap();
    let pool = BufferPool::new(pool_size);
    (BufferPoolManager::new(disk, pool), file)
}

#[test]
fn buffer_test() {
    let mut hello = Vec::with_capacity(PAGE_SIZE as usize);
    hello.extend_from_slice(b"hello");
    hello.resize(PAGE_SIZE as usize, 0);
    let mut world = Vec::with_capacity(PAGE_SIZE as usize);
    world.extend_from_slice(b"world");
    world.resize(PAGE_SIZE as usize, 0);

    let (mut bufmgr, mut file) = new_manager(1);
    let page1_id = {
        let (page1_id, b) = create(&mut bufmgr, &mut file).unwrap();
        assert!(bufmgr.create_page().is_err());
        bufmgr.set_page_bytes(b, hello.clone());
        bufmgr.mark_dirty(b);
        bufmgr.unpin(b);
        page1_id
    };
    {
        let b = fetch(&mut bufmgr, &mut file, page1_id).unwrap();
        assert_eq!(&hello, &bufmgr.buffer(b).page);
        bufmgr.unpin(b);
    }
    let page2_id = {
        let (page2_id, b) = create(&mut bufmgr, &mut file).unwrap();
        bufmgr.set_page_bytes(b, world.clone());
        bufmgr.mark_dirty(b);
        bufmgr.unpin(b);
        page2_id
    };
    {
        let b = fetch(&mut bufmgr, &mut file, page1_id).unwrap();
        assert_eq!(&hello, &bufmgr.buffer(b).page);
        bufmgr.unpin(b);
    }
    {
        let b = fetch(&mut bufmgr, &mut file, page2_id).unwrap();
        assert_eq!(&world, &bufmgr.buffer(b).page);
        bufmgr.unpin(b);
    }
}

#[test]
fn hit_returns_same_frame_and_grows_usage() {
    let (mut bufmgr, mut file) = new_manager(1);
    let (page_id, b1) = create(&mut bufmgr, &mut file).unwrap();
    let usage0 = bufmgr.usage_count(b1);
    let b2 = fetch(&mut bufmgr, &mut file, page_id).unwrap();
    assert_eq!(b1, b2);
    let usage1 = bufmgr.usage_count(b1);
    let b3 = fetch(&mut bufmgr, &mut file, page_id).unwrap();
    assert_eq!(b1, b3);
    let usage2 = bufmgr.usage_count(b1);
    assert!(usage0 <= usage1 && usage1 <= usage2);
    assert_eq!(usage2, usage0 + 2);
    assert_eq!(bufmgr.pin_count(b1), 3);
    bufmgr.unpin(b1);
    bufmgr.unpin(b1);
    bufmgr.unpin(b1);
    assert_eq!(bufmgr.pin_count(b1), 0);
}

#[test]
fn pinned_frame_is_never_overwritten() {
    let (mut bufmgr, mut file) = new_manager(2);
    let (p0, b0) = create(&mut bufmgr, &mut file).unwrap();
    let seed = padded(b"keep me");
    bufmgr.set_page_bytes(b0, seed.clone());
    bufmgr.mark_dirty(b0);
    // b0 stays pinned while misses churn through the rest of the pool.
    for _ in 0..5 {
        let (_, b) = create(&mut bufmgr, &mut file).unwrap();
        assert_ne!(b, b0);
        bufmgr.unpin(b);
    }
    assert_eq!(bufmgr.lookup(p0), Some(b0));
    assert_eq!(&bufmgr.buffer(b0).page, &seed);
    bufmgr.unpin(b0);
}

#[test]
fn starvation_bound() {
    // With at most pool_size - 1 handles outstanding, fetch and create
    // succeed; with every frame pinned, both fail with NoFreeBuffer.
    let (mut bufmgr, mut file) = new_manager(2);
    let (p0, b0) = create(&mut bufmgr, &mut file).unwrap();
    // One handle outstanding in a pool of two: create must succeed.
    let (_p1, b1) = create(&mut bufmgr, &mut file).unwrap();
    // Two handles on two distinct frames: everything is pinned.
    assert_eq!(bufmgr.create_page().unwrap_err(), Error::NoFreeBuffer);
    assert_eq!(
        bufmgr.fetch_page(PageId(99)).unwrap_err(),
        Error::NoFreeBuffer
    );
    // A hit is still answered while the pool is full.
    let b = fetch(&mut bufmgr, &mut file, p0).unwrap();
    assert_eq!(b, b0);
    bufmgr.unpin(b);
    // Releasing one handle makes room again.
    bufmgr.unpin(b1);
    let (_, b2) = create(&mut bufmgr, &mut file).unwrap();
    assert_eq!(b2, b1);
    bufmgr.unpin(b2);
    bufmgr.unpin(b0);
}

#[test]
fn create_counter_advances_only_on_success() {
    let (mut bufmgr, mut file) = new_manager(1);
    let (p0, b0) = create(&mut bufmgr, &mut file).unwrap();
    assert_eq!(p0, PageId(0));
    assert_eq!(bufmgr.next_page_id(), 1);
    // Full pool: the failed create must not issue an id.
    assert_eq!(bufmgr.create_page().unwrap_err(), Error::NoFreeBuffer);
    assert_eq!(bufmgr.next_page_id(), 1);
    bufmgr.unpin(b0);
    let (p1, b1) = create(&mut bufmgr, &mut file).unwrap();
    assert_eq!(p1, PageId(1));
    assert_eq!(bufmgr.next_page_id(), 2);
    bufmgr.unpin(b1);
}

#[test]
fn pool_of_one_evicts_the_sole_resident_page_on_every_miss() {
    let (mut bufmgr, mut file) = new_manager(1);
    let (p0, b0) = create(&mut bufmgr, &mut file).unwrap();
    bufmgr.unpin(b0);
    assert_eq!(bufmgr.lookup(p0), Some(b0));
    let (p1, _) = create(&mut bufmgr, &mut file).unwrap();
    assert_eq!(bufmgr.lookup(p0), None);
    assert_eq!(bufmgr.lookup(p1), Some(BufferId(0)));
    bufmgr.unpin(BufferId(0));
    let b = fetch(&mut bufmgr, &mut file, p0).unwrap();
    assert_eq!(bufmgr.lookup(p1), None);
    assert_eq!(bufmgr.lookup(p0), Some(b));
    bufmgr.unpin(b);
}

#[test]
fn round_trip_through_eviction() {
    let (mut bufmgr, mut file) = new_manager(1);
    let (p0, b0) = create(&mut bufmgr, &mut file).unwrap();
    let pattern = vec![0xABu8; PAGE_SIZE as usize];
    bufmgr.set_page_bytes(b0, pattern.clone());
    bufmgr.mark_dirty(b0);
    bufmgr.unpin(b0);
    // Enough unrelated traffic to evict p0.
    while bufmgr.lookup(p0).is_some() {
        let (_, b) = create(&mut bufmgr, &mut file).unwrap();
        bufmgr.unpin(b);
    }
    // Durability at eviction: the bytes sit in the heap file at p0's offset.
    let mut on_disk = vec![0u8; PAGE_SIZE as usize];
    file.seek(SeekFrom::Start(DiskManager::page_offset(p0))).unwrap();
    file.read_exact(&mut on_disk).unwrap();
    assert_eq!(on_disk, pattern);
    // And a fresh fetch sees them again.
    let b = fetch(&mut bufmgr, &mut file, p0).unwrap();
    assert_eq!(&bufmgr.buffer(b).page, &pattern);
    bufmgr.unpin(b);
}

#[test]
fn unmarked_writes_are_lost_at_eviction() {
    // Pool of two; the pool relies on the caller to mark dirtiness.
    let (mut bufmgr, mut file) = new_manager(2);
    let (p, b_first) = create(&mut bufmgr, &mut file).unwrap();
    bufmgr.unpin(b_first);
    // Flush p to disk and out of the pool, so that it is resident clean
    // (a page fresh from create_page is dirty on creation).
    while bufmgr.lookup(p).is_some() {
        let (_, b) = create(&mut bufmgr, &mut file).unwrap();
        bufmgr.unpin(b);
    }
    // Fetch p twice, mutate through the first handle without mark_dirty.
    let b1 = fetch(&mut bufmgr, &mut file, p).unwrap();
    let b2 = fetch(&mut bufmgr, &mut file, p).unwrap();
    assert_eq!(b1, b2);
    bufmgr.set_page_bytes(b1, padded(b"scribble"));
    bufmgr.unpin(b1);
    bufmgr.unpin(b2);
    // Evict p, then re-fetch: the mutation was lost.
    while bufmgr.lookup(p).is_some() {
        let (_, b) = create(&mut bufmgr, &mut file).unwrap();
        bufmgr.unpin(b);
    }
    let b = fetch(&mut bufmgr, &mut file, p).unwrap();
    assert_eq!(&bufmgr.buffer(b).page, &vec![0u8; PAGE_SIZE as usize]);
    bufmgr.unpin(b);
}

#[test]
fn clock_sweep_decays_counters_before_choosing() {
    let (mut bufmgr, mut file) = new_manager(3);
    let (p0, b0) = create(&mut bufmgr, &mut file).unwrap();
    let (p1, b1) = create(&mut bufmgr, &mut file).unwrap();
    let (p2, b2) = create(&mut bufmgr, &mut file).unwrap();
    bufmgr.unpin(b0);
    bufmgr.unpin(b1);
    bufmgr.unpin(b2);
    assert_eq!(bufmgr.usage_count(b0), 1);
    assert_eq!(bufmgr.usage_count(b1), 1);
    assert_eq!(bufmgr.usage_count(b2), 1);
    // A miss must sweep every counter down to zero before it finds a
    // victim; exactly one of the three pages is evicted.
    let (_, victim) = create(&mut bufmgr, &mut file).unwrap();
    bufmgr.unpin(victim);
    let mut evicted = 0;
    for (p, b) in [(p0, b0), (p1, b1), (p2, b2)] {
        match bufmgr.lookup(p) {
            None => {
                evicted += 1;
                assert_eq!(b, victim);
            }
            Some(still) => {
                assert_eq!(still, b);
                assert_eq!(bufmgr.usage_count(b), 0);
            }
        }
    }
    assert_eq!(evicted, 1);
}

#[test]
fn page_table_has_one_exact_entry_per_bound_frame() {
    let (mut bufmgr, mut file) = new_manager(3);
    let (p0, b0) = create(&mut bufmgr, &mut file).unwrap();
    let (_p1, b1) = create(&mut bufmgr, &mut file).unwrap();
    bufmgr.unpin(b0);
    bufmgr.unpin(b1);
    let b = fetch(&mut bufmgr, &mut file, p0).unwrap();
    bufmgr.unpin(b);
    let (_, b) = create(&mut bufmgr, &mut file).unwrap();
    bufmgr.unpin(b);
    // Every bound frame is found under exactly its own page id; unbound
    // frames are absent from the table.
    let mut bound = 0;
    for i in 0..bufmgr.pool_size() {
        let bid = BufferId(i);
        if bufmgr.is_bound(bid) {
            bound += 1;
            let pid = bufmgr.buffer(bid).page_id;
            assert_eq!(bufmgr.lookup(pid), Some(bid));
        }
    }
    assert_eq!(bound, 3);
}

#[test]
fn default_buffer_is_a_clean_zero_page() {
    let b = Buffer::default();
    assert_eq!(b.page_id, PageId(0));
    assert_eq!(b.page, vec![0u8; PAGE_SIZE as usize]);
    assert!(!b.is_dirty);
}

#[test]
fn create_starts_zeroed_and_dirty() {
    let (mut bufmgr, mut file) = new_manager(1);
    let (_, b) = create(&mut bufmgr, &mut file).unwrap();
    assert_eq!(&bufmgr.buffer(b).page, &vec![0u8; PAGE_SIZE as usize]);
    assert!(bufmgr.buffer(b).is_dirty);
    bufmgr.unpin(b);
}
