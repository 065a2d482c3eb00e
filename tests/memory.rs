use rustcore::frame::{align_down, SimpleFrameAllocator};
use rustcore::manager::{
    resolve_from_store, handle_page_fault, hash_page_addr, page_fault_flags, FaultSource, MemoryManager, PAGE_SIZE,
};
use rustcore::paging::{MemoryError, PageTable, PRESENT, USER_ACCESSIBLE, WRITABLE};
use rustcore::ramdisk::RamDisk;
use rustcore::storage::{BlockDevice, BlockStorage, StorageBackend};

fn store(blocks: usize) -> BlockStorage<RamDisk> {
    BlockStorage::new(RamDisk::new(vec![0u8; blocks * PAGE_SIZE], PAGE_SIZE), PAGE_SIZE)
}

fn pattern(seed: u8) -> Vec<u8> {
    (0..PAGE_SIZE).map(|i| (i as u8).wrapping_mul(31).wrapping_add(seed)).collect()
}

#[test]
fn test_frame_allocator() {
    let mut allocator = SimpleFrameAllocator::new(0x1000, 0x3000);
    assert!(allocator.allocate_frame().is_some());
    assert!(allocator.allocate_frame().is_some());
    assert!(allocator.allocate_frame().is_none());
}

#[test]
fn freed_frames_are_reused_first() {
    let mut allocator = SimpleFrameAllocator::new(0x1000, 0x4000);
    assert_eq!(allocator.allocate_frame(), Some(0x1000));
    allocator.deallocate_frame(0x1000);
    assert_eq!(allocator.allocate_frame(), Some(0x1000));
    assert_eq!(allocator.allocate_frame(), Some(0x2000));
    assert_eq!(allocator.allocate_frame(), Some(0x3000));
    assert_eq!(allocator.allocate_frame(), None);
}

#[test]
fn unaligned_start_begins_at_next_boundary() {
    let mut allocator = SimpleFrameAllocator::new(0x1800, 0x3000);
    assert_eq!(allocator.allocate_frame(), Some(0x2000));
    assert_eq!(allocator.allocate_frame(), None);
    let mut top = SimpleFrameAllocator::new(u64::MAX - 10, u64::MAX);
    assert_eq!(top.allocate_frame(), None);
    assert_eq!(align_down(0x1fff), 0x1000);
}

#[test]
fn block_hash_formula() {
    assert_eq!(hash_page_addr(0x5000, 16), (5u64 * 2654435761) % 16);
    assert_eq!(hash_page_addr(0x5fff, 16), hash_page_addr(0x5000, 16));
    let big = 0xffff_ffff_ffff_f000u64;
    assert_eq!(hash_page_addr(big, 1000), (big / 4096).wrapping_mul(2654435761) % 1000);
}

#[test]
fn fault_flags_by_address_range() {
    assert_eq!(page_fault_flags(0x1000), PRESENT | WRITABLE | USER_ACCESSIBLE);
    assert_eq!(page_fault_flags(0x7fff_ffff_ffff), 7);
    assert_eq!(page_fault_flags(0x8000_0000_0000), PRESENT | WRITABLE);
    assert_eq!(page_fault_flags(0xffff_8000_0000_0000), 3);
}

#[test]
fn ramdisk_reads_back_what_was_written() {
    let mut disk = RamDisk::new(vec![0u8; 3 * 8], 8);
    assert_eq!(disk.capacity(), 24);
    assert_eq!(disk.sector_size(), 8);
    let data = [1u8, 2, 3, 4, 5, 6, 7, 8];
    assert_eq!(disk.write_sector(2, &data), Ok(()));
    let mut buf = [0u8; 8];
    assert_eq!(disk.read_sector(2, &mut buf), Ok(()));
    assert_eq!(buf, data);
    assert_eq!(disk.read_sector(1, &mut buf), Ok(()));
    assert_eq!(buf, [0u8; 8]);
    assert_eq!(disk.read_sector(3, &mut buf), Err(()));
    assert_eq!(disk.write_sector(0, &data[..4]), Err(()));
}

#[test]
fn block_storage_counts_whole_blocks() {
    let mut s = store(4);
    assert_eq!(s.num_blocks(), 4);
    let page = pattern(7);
    assert_eq!(s.write_block(3, &page), Ok(()));
    let mut buf = vec![0u8; PAGE_SIZE];
    assert_eq!(s.read_block(3, &mut buf), Ok(()));
    assert_eq!(buf, page);
    assert_eq!(s.write_block(4, &page), Err(()));
    let partial = BlockStorage::new(RamDisk::new(vec![0u8; PAGE_SIZE + 10], PAGE_SIZE), PAGE_SIZE);
    assert_eq!(partial.num_blocks(), 1);
}

#[test]
fn page_table_maps_once() {
    let mut table = PageTable::new();
    assert_eq!(table.map_to(0x4000, 0x9000, 3), Ok(()));
    assert_eq!(table.map_to(0x4000, 0xa000, 3), Err(MemoryError::MappingFailed));
    assert_eq!(table.translate_page(0x4000).map(|m| m.frame), Some(0x9000));
    assert_eq!(table.unmap(0x4000).map(|m| m.frame), Ok(0x9000));
    assert_eq!(table.unmap(0x4000).map(|m| m.frame), Err(MemoryError::MappingFailed));
}

#[test]
fn fault_round_trip_restores_written_bytes() {
    let mut mm = MemoryManager::new(SimpleFrameAllocator::new(0x10_0000, 0x10_2000), 4, store(16));
    let addr = 0x4000_0000u64;
    let frame = mm.map_page(addr, PRESENT | WRITABLE).unwrap();
    assert_eq!(mm.translate_addr(addr + 0x10), Some(frame + 0x10));
    let bytes = pattern(3);
    mm.cache_page(addr, PAGE_SIZE, bytes.clone());
    assert_eq!(mm.evict_and_deallocate(addr, PAGE_SIZE), Ok(()));
    assert_eq!(mm.translate_addr(addr), None);
    assert_eq!(mm.get_cached_page(addr, PAGE_SIZE), None);
    let res = handle_page_fault(addr, &mut mm).unwrap();
    assert_eq!(res.source, FaultSource::Store);
    assert_eq!(res.data, bytes);
    assert_eq!(res.page, addr);
    assert_eq!(res.flags, 7);
    assert_eq!(mm.translate_addr(addr), Some(res.frame));
}

#[test]
fn fault_hit_uses_cached_image() {
    let mut mm = MemoryManager::new(SimpleFrameAllocator::new(0x10_0000, 0x10_4000), 4, store(16));
    let addr = 0x1234_5000u64;
    mm.cache_page(addr, PAGE_SIZE, pattern(9));
    let res = handle_page_fault(addr, &mut mm).unwrap();
    assert_eq!(res.source, FaultSource::Cache);
    assert_eq!(res.data, pattern(9));
    assert_eq!(res.frame, 0x10_0000);
}

#[test]
fn fault_on_unwritten_block_gives_zero_page_and_caches_it() {
    let mut mm = MemoryManager::new(SimpleFrameAllocator::new(0x10_0000, 0x10_4000), 4, store(16));
    let addr = 0x8000_0000_1000u64;
    let res = handle_page_fault(addr, &mut mm).unwrap();
    assert_eq!(res.source, FaultSource::Store);
    assert_eq!(res.data, vec![0u8; PAGE_SIZE]);
    assert_eq!(res.flags, PRESENT | WRITABLE);
    assert_eq!(mm.get_cached_page(addr, PAGE_SIZE), Some(&vec![0u8; PAGE_SIZE][..]));
}

#[test]
fn fault_without_store_blocks_gives_blank_page() {
    let mut mm = MemoryManager::new(SimpleFrameAllocator::new(0x10_0000, 0x10_4000), 4, store(0));
    let res = handle_page_fault(0x7000, &mut mm).unwrap();
    assert_eq!(res.source, FaultSource::Blank);
    assert_eq!(res.data, vec![0u8; PAGE_SIZE]);
    assert_eq!(res.page, 0x7000);
}

#[test]
fn exhausted_frames_evict_the_least_recent_page() {
    let mut mm = MemoryManager::new(SimpleFrameAllocator::new(0x10_0000, 0x10_1000), 4, store(16));
    let a = 0x1000u64;
    let b = 0x2000u64;
    let frame = mm.map_page(a, 7).unwrap();
    assert_eq!(mm.map_page(b, 7), Err(MemoryError::ResourceExhausted));
    mm.cache_page(a, PAGE_SIZE, pattern(1));
    assert_eq!(mm.map_page(b, 7), Ok(frame));
    assert_eq!(mm.translate_addr(a), None);
    assert_eq!(mm.translate_addr(b + 5), Some(frame + 5));
    let res = handle_page_fault(a, &mut mm);
    assert!(res.is_err());
}

#[test]
fn memory_errors() {
    let mut mm = MemoryManager::new(SimpleFrameAllocator::new(0x10_0000, 0x10_4000), 4, store(16));
    assert_eq!(mm.evict_and_deallocate(0x1000, PAGE_SIZE), Err(MemoryError::PageNotMapped));
    mm.map_page(0x1000, 7).unwrap();
    assert_eq!(mm.map_page(0x1000, 7), Err(MemoryError::MappingFailed));
    assert_eq!(mm.map_page(0x1fff, 7), Err(MemoryError::MappingFailed));
    mm.cache_page(0x9000, PAGE_SIZE, pattern(2));
    assert_eq!(mm.evict_and_deallocate(0x9000, PAGE_SIZE), Err(MemoryError::MappingFailed));
    assert_eq!(mm.get_cached_page(0x9000, PAGE_SIZE), None);
    assert_eq!(mm.unmap_page(0x1000), Ok(0x10_0000));
    assert_eq!(mm.unmap_page(0x1000), Err(MemoryError::MappingFailed));

    let mut bare = MemoryManager::new(SimpleFrameAllocator::new(0x10_0000, 0x10_4000), 4, store(0));
    bare.map_page(0x1000, 7).unwrap();
    bare.cache_page(0x1000, PAGE_SIZE, pattern(4));
    assert_eq!(bare.evict_and_deallocate(0x1000, PAGE_SIZE), Err(MemoryError::StorageUnavailable));
    assert_eq!(bare.get_cached_page(0x1000, PAGE_SIZE), Some(&pattern(4)[..]));
    assert_eq!(bare.remove_cached_page(0x1000, PAGE_SIZE), Some(pattern(4)));
}

#[test]
fn range_lookup_needs_every_page() {
    let mut mm = MemoryManager::new(SimpleFrameAllocator::new(0x10_0000, 0x10_4000), 4, store(4));
    let f1 = mm.map_page(0x1000, 7).unwrap();
    let f2 = mm.map_page(0x2000, 7).unwrap();
    assert_eq!(mm.translate_addr_range(0x1800, 0x1000), Some(f1 + 0x800));
    assert_eq!(mm.translate_addr_range(0x2000, 0x1000), Some(f2));
    assert_eq!(mm.translate_addr_range(0x1800, 0x1801), None);
    assert_eq!(mm.translate_addr_range(0x1000, 0), None);
    assert_eq!(mm.translate_addr_range(u64::MAX, 2), None);
}

#[test]
fn finish_eviction_follows_the_write_outcome() {
    let mut mm = MemoryManager::new(SimpleFrameAllocator::new(0x10_0000, 0x10_4000), 4, store(16));
    let frame = mm.map_page(0x5000, 7).unwrap();
    mm.cache_page(0x5000, PAGE_SIZE, pattern(5));
    assert_eq!(mm.finish_eviction(Err(()), 0x5000, PAGE_SIZE), Err(MemoryError::StorageUnavailable));
    assert_eq!(mm.translate_addr(0x5000), Some(frame));
    assert!(mm.get_cached_page(0x5000, PAGE_SIZE).is_some());
    assert_eq!(mm.finish_eviction(Ok(()), 0x5000, PAGE_SIZE), Ok(()));
    assert_eq!(mm.translate_addr(0x5000), None);
    assert_eq!(mm.get_cached_page(0x5000, PAGE_SIZE), None);
    mm.cache_page(0x9000, PAGE_SIZE, pattern(6));
    assert_eq!(mm.finish_eviction(Ok(()), 0x9000, PAGE_SIZE), Err(MemoryError::MappingFailed));
    assert_eq!(mm.get_cached_page(0x9000, PAGE_SIZE), None);
}

#[test]
fn resolve_from_store_follows_the_read_outcome() {
    let mut mm = MemoryManager::new(SimpleFrameAllocator::new(0x10_0000, 0x10_4000), 4, store(16));
    let res = resolve_from_store(0x3000, Ok(()), pattern(8), &mut mm).unwrap();
    assert_eq!(res.source, FaultSource::Store);
    assert_eq!(res.data, pattern(8));
    assert_eq!(mm.get_cached_page(0x3000, PAGE_SIZE), Some(&pattern(8)[..]));
    let res = resolve_from_store(0x4000, Err(()), pattern(8), &mut mm).unwrap();
    assert_eq!(res.source, FaultSource::Blank);
    assert_eq!(res.data, vec![0u8; PAGE_SIZE]);
}

#[test]
fn refreshed_image_is_what_eviction_persists() {
    let mut mm = MemoryManager::new(SimpleFrameAllocator::new(0x10_0000, 0x10_1000), 4, store(16));
    let a = 0x1000u64;
    mm.map_page(a, 7).unwrap();
    mm.cache_page(a, PAGE_SIZE, pattern(1));
    mm.cache_page(0x7000, PAGE_SIZE, pattern(2));
    assert!(mm.refresh_cached_page(a, PAGE_SIZE, pattern(9)));
    assert!(!mm.refresh_cached_page(0x8000, PAGE_SIZE, pattern(9)));
    // The refresh kept `a` least recently used, so the next fault evicts it.
    let res = handle_page_fault(0x2000, &mut mm).unwrap();
    assert_eq!(mm.translate_addr(a), None);
    assert_eq!(mm.translate_addr(0x2000), Some(res.frame));
    let back = handle_page_fault(a, &mut mm);
    assert!(back.is_err());
    mm.unmap_page(0x2000).unwrap();
    let back = handle_page_fault(a, &mut mm).unwrap();
    assert_eq!(back.source, FaultSource::Store);
    assert_eq!(back.data, pattern(9));
}
