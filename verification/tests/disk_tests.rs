use std::io::{Read, Seek, SeekFrom, Write};

use pagepool::buffer::Error;
use pagepool::disk::{DiskManager, PageId, PAGE_SIZE};

fn padded(word: &[u8]) -> Vec<u8> {
    let page_size = PAGE_SIZE as usize;
    let mut v = Vec::with_capacity(page_size);
    v.extend_from_slice(word);
    v.resize(page_size, 0);
    v
}

fn write_page<F: Write + Seek>(f: &mut F, page_id: PageId, data: &[u8]) {
    f.seek(SeekFrom::Start(DiskManager::page_offset(page_id))).unwrap();
    f.write_all(data).unwrap();
}

fn read_page<F: Read + Seek>(f: &mut F, page_id: PageId, data: &mut [u8]) {
    f.seek(SeekFrom::Start(DiskManager::page_offset(page_id))).unwrap();
    f.read_exact(data).unwrap();
}

#[test]
fn disk_test() {
    let page_size = PAGE_SIZE as usize;

    let mut data_file = tempfile::tempfile().unwrap();
    let mut disk = DiskManager::new(data_file.metadata().unwrap().len()).unwrap();
    let hello = padded(b"hello");
    let hello_page_id = disk.allocate_page();
    write_page(&mut data_file, hello_page_id, &hello);
    let world = padded(b"world");
    let world_page_id = disk.allocate_page();
    write_page(&mut data_file, world_page_id, &world);
    drop(disk);
    let disk2 = DiskManager::new(data_file.metadata().unwrap().len()).unwrap();
    let mut buf = vec![0; page_size];
    read_page(&mut data_file, hello_page_id, &mut buf);
    assert_eq!(hello, buf);
    read_page(&mut data_file, world_page_id, &mut buf);
    assert_eq!(world, buf);
    assert_eq!(disk2.next_page_id(), 2);
}

#[test]
fn unaligned_file_length_is_a_format_error() {
    assert_eq!(DiskManager::new(1).unwrap_err(), Error::Io);
    assert_eq!(DiskManager::new(4097).unwrap_err(), Error::Io);
    assert_eq!(DiskManager::new(PAGE_SIZE - 1).unwrap_err(), Error::Io);
    assert!(DiskManager::new(0).is_ok());
    assert!(DiskManager::new(PAGE_SIZE).is_ok());
    assert!(DiskManager::new(3 * PAGE_SIZE).is_ok());
}

#[test]
fn next_id_counter_comes_from_file_length() {
    assert_eq!(DiskManager::new(0).unwrap().next_page_id(), 0);
    assert_eq!(DiskManager::new(PAGE_SIZE).unwrap().next_page_id(), 1);
    assert_eq!(DiskManager::new(5 * PAGE_SIZE).unwrap().next_page_id(), 5);
}

#[test]
fn allocate_page_is_monotonic_from_zero() {
    let mut disk = DiskManager::new(0).unwrap();
    assert_eq!(disk.allocate_page(), PageId(0));
    assert_eq!(disk.allocate_page(), PageId(1));
    assert_eq!(disk.allocate_page(), PageId(2));
    assert_eq!(disk.next_page_id(), 3);
}

#[test]
fn page_offset_is_id_times_page_size() {
    assert_eq!(DiskManager::page_offset(PageId(0)), 0);
    assert_eq!(DiskManager::page_offset(PageId(1)), 4096);
    assert_eq!(DiskManager::page_offset(PageId(7)), 7 * 4096);
}
