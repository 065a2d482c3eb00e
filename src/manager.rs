use crate::frame::{align_down, aligned, frame_start, SimpleFrameAllocator, FRAME_SIZE};
use crate::lru::{
    lemma_removed_absent, has_key, lemma_key_pos, lookup, put_entries, remove_entries, touch, PageCache,
    PageKey,
};
use crate::paging::{
    Mapping, MemoryError, PageTable, PRESENT, USER_ACCESSIBLE, USER_SPACE_END, WRITABLE,
};
use crate::storage::StorageBackend;
use vstd::prelude::*;

verus! {

/// Size in bytes of a page; one page fills one block of the backing store.
pub const PAGE_SIZE: usize = 4096;

/// Multiplier of the hash that spreads pages over the backing store.
pub const BLOCK_HASH_MULTIPLIER: u64 = 2654435761;

/// The block of a store with `num_blocks` blocks that holds the page of
/// `addr`: the page number times a fixed odd constant, modulo 2^64, modulo
/// the number of blocks.
pub open spec fn block_of(addr: u64, num_blocks: u64) -> u64 {
    (addr / 4096).wrapping_mul(BLOCK_HASH_MULTIPLIER) % num_blocks
}

/// The permission flags of a page mapped to resolve a fault at `addr`:
/// user-accessible below the end of user space, supervisor-only above.
pub open spec fn fault_flags(addr: u64) -> u64 {
    if addr < USER_SPACE_END {
        PRESENT | WRITABLE | USER_ACCESSIBLE
    } else {
        PRESENT | WRITABLE
    }
}

/// A page of zero bytes.
pub open spec fn zero_page() -> Seq<u8> {
    Seq::new(PAGE_SIZE as nat, |i: int| 0u8)
}

/// The cache key of the page image for a fault at `addr`.
pub open spec fn fault_key(addr: u64) -> PageKey {
    PageKey { address: addr, size: PAGE_SIZE }
}

/// Block of the backing store that holds the page of `addr`.
pub fn hash_page_addr(addr: u64, num_blocks: u64) -> (r: u64)
    requires
        num_blocks > 0,
    ensures
        r == block_of(addr, num_blocks),
        r < num_blocks,
{
    let page_num = addr / FRAME_SIZE;
    page_num.wrapping_mul(BLOCK_HASH_MULTIPLIER) % num_blocks
}

/// Flags for a page mapped to resolve a fault at `addr`.
pub fn page_fault_flags(addr: u64) -> (r: u64)
    ensures
        r == fault_flags(addr),
{
    if addr < USER_SPACE_END {
        PRESENT | WRITABLE | USER_ACCESSIBLE
    } else {
        PRESENT | WRITABLE
    }
}

/// A copy of `data`.
fn copy_bytes(data: &[u8]) -> (r: Vec<u8>)
    ensures
        r@ == data@,
{
    let mut r: Vec<u8> = Vec::new();
    let mut i: usize = 0;
    while i < data.len()
        invariant
            i <= data@.len(),
            r@ == data@.subrange(0, i as int),
        decreases data@.len() - i,
    {
        r.push(data[i]);
        i = i + 1;
        assert(r@ =~= data@.subrange(0, i as int));
    }
    assert(r@ =~= data@);
    r
}

/// A page of zero bytes.
fn zeroed_page() -> (r: Vec<u8>)
    ensures
        r@ == zero_page(),
{
    let mut r: Vec<u8> = Vec::new();
    let mut i: usize = 0;
    while i < PAGE_SIZE
        invariant
            i <= PAGE_SIZE,
            r@ == Seq::new(i as nat, |j: int| 0u8),
        decreases PAGE_SIZE - i,
    {
        r.push(0u8);
        i = i + 1;
        assert(r@ =~= Seq::new(i as nat, |j: int| 0u8));
    }
    r
}

proof fn lemma_frame_start_of(p: u64, a: u64)
    requires
        p % 4096 == 0,
        p <= a,
        a - p < 4096,
    ensures
        frame_start(a) == p,
{
    assert(a - a % 4096 == p) by (bit_vector)
        requires
            p % 4096 == 0,
            p <= a,
            a - p < 4096,
    ;
}

proof fn lemma_frame_start_mono(a: u64, b: u64)
    requires
        a <= b,
    ensures
        frame_start(a) <= frame_start(b),
        frame_start(b) % 4096 == 0,
{
    assert(a - a % 4096 <= b - b % 4096 && (b - b % 4096) % 4096 == 0) by (bit_vector)
        requires
            a <= b,
    ;
}

/// Where the bytes that resolve a page fault came from.
#[derive(Clone, Copy, Debug, PartialEq, Eq, Structural)]
pub enum FaultSource {
    /// The page cache held an image of the page.
    Cache,
    /// The backing store's block for the page.
    Store,
    /// A zero page, because the store has no blocks or could not be read.
    Blank,
}

/// A resolved page fault: the mapping made, and the bytes that the frame
/// must be filled with.
pub struct FaultResolution {
    pub page: u64,
    pub frame: u64,
    pub flags: u64,
    pub data: Vec<u8>,
    pub source: FaultSource,
}

/// Address-space mappings, the frames behind them, an LRU cache of page
/// images and the backing store that absorbs evicted pages.
pub struct MemoryManager<S: StorageBackend> {
    pub page_table: PageTable,
    pub frame_allocator: SimpleFrameAllocator,
    pub lru: PageCache,
    pub storage_backend: S,
}

impl<S: StorageBackend> MemoryManager<S> {
    pub open spec fn wf(&self) -> bool {
        &&& self.page_table.wf()
        &&& self.frame_allocator.wf()
        &&& self.lru.wf()
    }

    /// Cached page images, least recently used first.
    pub open spec fn cache(&self) -> Seq<(PageKey, Vec<u8>)> {
        self.lru.lru@
    }

    /// Capacity of the page cache.
    pub open spec fn cache_cap(&self) -> nat {
        self.lru.lru.cap()
    }

    /// The mapped pages.
    pub open spec fn maps(&self) -> Map<u64, Mapping> {
        self.page_table.mappings()
    }

    /// The blocks of the backing store.
    pub open spec fn blocks(&self) -> Seq<Seq<u8>> {
        self.storage_backend.blocks()
    }

    /// The cached image of `key` (meaningful when it is cached).
    pub open spec fn image(&self, key: PageKey) -> Seq<u8> {
        lookup(self.cache(), key)->Some_0@
    }

    /// The bytes that resolve a fault at `addr` from `src`.
    pub open spec fn fault_data(&self, addr: u64, src: FaultSource) -> Seq<u8> {
        match src {
            FaultSource::Cache => self.image(fault_key(addr)),
            FaultSource::Store => self.blocks()[block_of(addr, self.blocks().len() as u64) as int],
            FaultSource::Blank => zero_page(),
        }
    }

    /// Whether `self` is in the same state as `pre`.
    pub open spec fn unchanged(&self, pre: &Self) -> bool {
        &&& self.cache() == pre.cache()
        &&& self.cache_cap() == pre.cache_cap()
        &&& self.maps() == pre.maps()
        &&& self.frame_allocator.same(&pre.frame_allocator)
        &&& self.blocks() == pre.blocks()
    }

    /// Whether `self` is `pre` with the image of `key` written to its block
    /// of the store and dropped from the cache.
    pub open spec fn persisted(&self, pre: &Self, key: PageKey) -> bool {
        &&& pre.blocks().len() > 0
        &&& self.cache() == remove_entries(pre.cache(), key)
        &&& self.cache_cap() == pre.cache_cap()
        &&& self.blocks() == pre.blocks().update(
            block_of(key.address, pre.blocks().len() as u64) as int,
            pre.image(key),
        )
    }

    /// What `evict_and_deallocate(address, size)` does from `pre` to `post`.
    pub open spec fn evict_step(
        pre: &Self,
        post: &Self,
        address: u64,
        size: usize,
        r: Result<(), MemoryError>,
    ) -> bool {
        let key = PageKey { address, size };
        let p = frame_start(address);
        if !has_key(pre.cache(), key) {
            r == Err::<(), MemoryError>(MemoryError::PageNotMapped) && post.unchanged(pre)
        } else if r == Err::<(), MemoryError>(MemoryError::StorageUnavailable) {
            post.unchanged(pre)
        } else {
            &&& post.persisted(pre, key)
            &&& if pre.maps().contains_key(p) {
                &&& r is Ok
                &&& post.maps() == pre.maps().remove(p)
                &&& post.frame_allocator.free_frames() == pre.frame_allocator.free_frames().push(
                    pre.maps()[p].frame,
                )
                &&& post.frame_allocator.cursor() == pre.frame_allocator.cursor()
                &&& post.frame_allocator.limit() == pre.frame_allocator.limit()
            } else {
                &&& r == Err::<(), MemoryError>(MemoryError::MappingFailed)
                &&& post.maps() == pre.maps()
                &&& post.frame_allocator.same(&pre.frame_allocator)
            }
        }
    }

    /// What `map_page(page, flags)` does from `pre` to `post`.
    pub open spec fn map_step(
        pre: &Self,
        post: &Self,
        page: u64,
        flags: u64,
        r: Result<u64, MemoryError>,
    ) -> bool {
        let p = frame_start(page);
        if pre.maps().contains_key(p) {
            r == Err::<u64, MemoryError>(MemoryError::MappingFailed) && post.unchanged(pre)
        } else if pre.frame_allocator.can_allocate() {
            let f = pre.frame_allocator.next_frame();
            &&& r == Ok::<u64, MemoryError>(f)
            &&& post.frame_allocator.allocated_from(&pre.frame_allocator)
            &&& post.maps() == pre.maps().insert(p, Mapping { frame: f, flags })
            &&& post.cache() == pre.cache()
            &&& post.cache_cap() == pre.cache_cap()
            &&& post.blocks() == pre.blocks()
        } else if pre.cache().len() == 0 {
            r == Err::<u64, MemoryError>(MemoryError::ResourceExhausted) && post.unchanged(pre)
        } else {
            let victim = pre.cache()[0].0;
            let vp = frame_start(victim.address);
            ||| {
                &&& pre.maps().contains_key(vp)
                &&& r == Ok::<u64, MemoryError>(pre.maps()[vp].frame)
                &&& post.persisted(pre, victim)
                &&& post.maps() == pre.maps().remove(vp).insert(
                    p,
                    Mapping { frame: pre.maps()[vp].frame, flags },
                )
                &&& post.frame_allocator.same(&pre.frame_allocator)
            }
            ||| {
                &&& r == Err::<u64, MemoryError>(MemoryError::ResourceExhausted)
                &&& post.unchanged(pre)
            }
            ||| {
                &&& r == Err::<u64, MemoryError>(MemoryError::ResourceExhausted)
                &&& !pre.maps().contains_key(vp)
                &&& post.persisted(pre, victim)
                &&& post.maps() == pre.maps()
                &&& post.frame_allocator.same(&pre.frame_allocator)
            }
        }
    }

    pub fn new(frame_allocator: SimpleFrameAllocator, cache_capacity: usize, storage_backend: S) -> (r: Self)
        requires
            frame_allocator.wf(),
        ensures
            r.wf(),
            r.maps() == Map::<u64, Mapping>::empty(),
            r.cache() == Seq::<(PageKey, Vec<u8>)>::empty(),
            r.cache_cap() == cache_capacity,
            r.frame_allocator == frame_allocator,
            r.storage_backend == storage_backend,
    {
        MemoryManager {
            page_table: PageTable::new(),
            frame_allocator,
            lru: PageCache::new(cache_capacity),
            storage_backend,
        }
    }

    /// Physical address that `addr` translates to, if its page is mapped.
    pub fn translate_addr(&self, addr: u64) -> (r: Option<u64>)
        requires
            self.wf(),
        ensures
            r == (if self.maps().contains_key(frame_start(addr)) {
                Some((self.maps()[frame_start(addr)].frame + addr % 4096) as u64)
            } else {
                None
            }),
    {
        let p = align_down(addr);
        match self.page_table.translate_page(p) {
            Some(m) => {
                let off = addr % FRAME_SIZE;
                let f = m.frame;
                assert(f % 4096 == 0 ==> f <= 0xFFFF_FFFF_FFFF_F000u64) by (bit_vector);
                Some(m.frame + off)
            },
            None => None,
        }
    }

    /// Whether every byte of [`start`, `start + len`) lies in a mapped page.
    pub open spec fn range_mapped(&self, start: u64, len: u64) -> bool {
        forall|a: u64|
            start <= a < start + len ==> #[trigger] self.maps().contains_key(frame_start(a))
    }

    /// Physical address that `start` translates to, if every page that
    /// [`start`, `start + len`) touches is mapped and the range ends within
    /// the address space.
    pub fn translate_addr_range(&self, start: u64, len: u64) -> (r: Option<u64>)
        requires
            self.wf(),
        ensures
            r == (if start + len <= u64::MAX + 1 && self.range_mapped(start, len) && len > 0 {
                Some((self.maps()[frame_start(start)].frame + start % 4096) as u64)
            } else {
                None
            }),
    {
        if len == 0 || start > u64::MAX - (len - 1) {
            return None;
        }
        let last = start + (len - 1);
        let mut page = align_down(start);
        let end_page = align_down(last);
        let ghost hi = start + len;
        while page < end_page
            invariant
                self.wf(),
                aligned(page),
                aligned(end_page),
                frame_start(start) <= page <= end_page,
                end_page == frame_start(last),
                end_page <= last,
                last == start + len - 1,
                hi == start + len,
                forall|a: u64| start <= a < page ==> #[trigger] self.maps().contains_key(frame_start(a)),
            decreases end_page - page,
        {
            if self.page_table.translate_page(page).is_none() {
                proof {
                    let a = if page < start { start } else { page };
                    lemma_frame_start_of(page, a);
                    assert(start <= a < hi);
                }
                return None;
            }
            proof {
                assert forall|a: u64| start <= a < page + 4096 implies #[trigger] self.maps().contains_key(
                    frame_start(a),
                ) by {
                    if a >= page {
                        lemma_frame_start_of(page, a);
                    }
                }
                assert(end_page - page >= 4096) by (bit_vector)
                    requires
                        page % 4096 == 0,
                        end_page % 4096 == 0,
                        page < end_page,
                ;
            }
            page = page + 4096;
        }
        if self.page_table.translate_page(end_page).is_none() {
            proof {
                let a = if end_page < start { start } else { end_page };
                lemma_frame_start_of(end_page, a);
                assert(frame_start(last) == end_page);
            }
            return None;
        }
        proof {
            assert forall|a: u64| start <= a < hi implies #[trigger] self.maps().contains_key(
                frame_start(a),
            ) by {
                if a >= page {
                    lemma_frame_start_of(end_page, a);
                    lemma_frame_start_mono(a, last);
                }
            }
        }
        self.translate_addr(start)
    }

    /// Stores `data` as the image of page (`address`, `size`).
    pub fn cache_page(&mut self, address: u64, size: usize, data: Vec<u8>)
        requires
            old(self).wf(),
            data@.len() == size,
        ensures
            final(self).wf(),
            final(self).cache() == put_entries(
                old(self).cache(),
                old(self).cache_cap(),
                PageKey { address, size },
                data,
            ),
            final(self).cache_cap() == old(self).cache_cap(),
            final(self).maps() == old(self).maps(),
            final(self).frame_allocator == old(self).frame_allocator,
            final(self).storage_backend == old(self).storage_backend,
    {
        self.lru.insert_page(address, size, data);
    }

    /// Brings the cached image of page (`address`, `size`) up to date with
    /// `data`, the bytes of the page now, without changing its recency;
    /// returns whether the page was cached.
    pub fn refresh_cached_page(&mut self, address: u64, size: usize, data: Vec<u8>) -> (r: bool)
        requires
            old(self).wf(),
            data@.len() == size,
        ensures
            final(self).wf(),
            r == has_key(old(self).cache(), PageKey { address, size }),
            r ==> final(self).cache() == old(self).cache().update(
                crate::lru::key_pos(old(self).cache(), PageKey { address, size }),
                (PageKey { address, size }, data),
            ),
            !r ==> final(self).cache() == old(self).cache(),
            final(self).cache_cap() == old(self).cache_cap(),
            final(self).maps() == old(self).maps(),
            final(self).frame_allocator == old(self).frame_allocator,
            final(self).storage_backend == old(self).storage_backend,
    {
        self.lru.refresh_page(address, size, data)
    }

    /// The cached image of page (`address`, `size`), which becomes the most
    /// recently used.
    pub fn get_cached_page(&mut self, address: u64, size: usize) -> (r: Option<&[u8]>)
        requires
            old(self).wf(),
        ensures
            final(self).wf(),
            final(self).cache() == touch(old(self).cache(), PageKey { address, size }),
            final(self).cache_cap() == old(self).cache_cap(),
            final(self).maps() == old(self).maps(),
            final(self).frame_allocator == old(self).frame_allocator,
            final(self).storage_backend == old(self).storage_backend,
            match r {
                Some(d) => has_key(old(self).cache(), PageKey { address, size }) && d@ == old(
                    self,
                ).image(PageKey { address, size }),
                None => !has_key(old(self).cache(), PageKey { address, size }),
            },
    {
        self.lru.get_page(address, size)
    }

    /// Drops the cached image of page (`address`, `size`) and hands it back.
    pub fn remove_cached_page(&mut self, address: u64, size: usize) -> (r: Option<Vec<u8>>)
        requires
            old(self).wf(),
        ensures
            final(self).wf(),
            final(self).cache() == remove_entries(old(self).cache(), PageKey { address, size }),
            final(self).cache_cap() == old(self).cache_cap(),
            final(self).maps() == old(self).maps(),
            final(self).frame_allocator == old(self).frame_allocator,
            final(self).storage_backend == old(self).storage_backend,
            r == lookup(old(self).cache(), PageKey { address, size }),
    {
        self.lru.remove_page(address, size)
    }

    /// Unmaps the page that contains `page` and returns its frame to the
    /// allocator; fails if that page is not mapped.
    pub fn unmap_page(&mut self, page: u64) -> (r: Result<u64, MemoryError>)
        requires
            old(self).wf(),
        ensures
            final(self).wf(),
            final(self).cache() == old(self).cache(),
            final(self).cache_cap() == old(self).cache_cap(),
            final(self).blocks() == old(self).blocks(),
            old(self).maps().contains_key(frame_start(page)) ==> {
                &&& r == Ok::<u64, MemoryError>(old(self).maps()[frame_start(page)].frame)
                &&& final(self).maps() == old(self).maps().remove(frame_start(page))
                &&& final(self).frame_allocator.free_frames() == old(
                    self,
                ).frame_allocator.free_frames().push(old(self).maps()[frame_start(page)].frame)
                &&& final(self).frame_allocator.cursor() == old(self).frame_allocator.cursor()
                &&& final(self).frame_allocator.limit() == old(self).frame_allocator.limit()
            },
            !old(self).maps().contains_key(frame_start(page)) ==> r == Err::<u64, MemoryError>(
                MemoryError::MappingFailed,
            ) && final(self).unchanged(old(self)),
    {
        let p = align_down(page);
        match self.page_table.unmap(p) {
            Ok(m) => {
                self.frame_allocator.deallocate_frame(m.frame);
                Ok(m.frame)
            },
            Err(e) => Err(e),
        }
    }

    /// Writes the cached image of page (`address`, `size`) to its block of
    /// the backing store, drops it from the cache, unmaps the page that
    /// contains `address` and returns its frame to the allocator.
    pub fn evict_and_deallocate(&mut self, address: u64, size: usize) -> (r: Result<(), MemoryError>)
        requires
            old(self).wf(),
        ensures
            final(self).wf(),
            Self::evict_step(old(self), final(self), address, size, r),
            has_key(old(self).cache(), PageKey { address, size }) && old(self).blocks().len() == 0
                ==> r == Err::<(), MemoryError>(MemoryError::StorageUnavailable),
    {
        let n = self.storage_backend.num_blocks();
        let written = match self.lru.peek_page(address, size) {
            None => {
                return Err(MemoryError::PageNotMapped);
            },
            Some(img) => {
                if n == 0 {
                    return Err(MemoryError::StorageUnavailable);
                }
                let block = hash_page_addr(address, n);
                self.storage_backend.write_block(block, img)
            },
        };
        self.finish_eviction(written, address, size)
    }

    /// Whether `post` is `pre` after the rest of an eviction of (`address`,
    /// `size`) whose image is stored: the image leaves the cache, and the
    /// page that contains `address`, if mapped, is unmapped and its frame
    /// freed; `r` is `Ok` when it was mapped and `MappingFailed` when not.
    pub open spec fn eviction_finished(
        pre: &Self,
        post: &Self,
        address: u64,
        size: usize,
        r: Result<(), MemoryError>,
    ) -> bool {
        let p = frame_start(address);
        &&& post.cache() == remove_entries(pre.cache(), PageKey { address, size })
        &&& post.cache_cap() == pre.cache_cap()
        &&& post.blocks() == pre.blocks()
        &&& if pre.maps().contains_key(p) {
            &&& r is Ok
            &&& post.maps() == pre.maps().remove(p)
            &&& post.frame_allocator.free_frames() == pre.frame_allocator.free_frames().push(
                pre.maps()[p].frame,
            )
            &&& post.frame_allocator.cursor() == pre.frame_allocator.cursor()
            &&& post.frame_allocator.limit() == pre.frame_allocator.limit()
        } else {
            &&& r == Err::<(), MemoryError>(MemoryError::MappingFailed)
            &&& post.maps() == pre.maps()
            &&& post.frame_allocator.same(&pre.frame_allocator)
        }
    }

    /// The rest of an eviction of the cached page (`address`, `size`), given
    /// what writing its image to the store returned: a failed write changes
    /// nothing and reports `StorageUnavailable`; after a successful one the
    /// image leaves the cache and the page is unmapped and its frame freed.
    pub fn finish_eviction(&mut self, written: Result<(), ()>, address: u64, size: usize) -> (r:
        Result<(), MemoryError>)
        requires
            old(self).wf(),
            has_key(old(self).cache(), PageKey { address, size }),
        ensures
            final(self).wf(),
            written is Err ==> r == Err::<(), MemoryError>(MemoryError::StorageUnavailable)
                && final(self).unchanged(old(self)),
            written is Ok ==> Self::eviction_finished(old(self), final(self), address, size, r),
    {
        if written.is_err() {
            return Err(MemoryError::StorageUnavailable);
        }
        self.lru.remove_page(address, size);
        let p = align_down(address);
        match self.page_table.unmap(p) {
            Ok(m) => {
                self.frame_allocator.deallocate_frame(m.frame);
                Ok(())
            },
            Err(_) => Err(MemoryError::MappingFailed),
        }
    }

    /// Maps the page that contains `page` to a fresh frame. When no frame is
    /// free, the least recently used cached page is evicted (persisted,
    /// unmapped, its frame freed) and the allocation is tried once more.
    pub fn map_page(&mut self, page: u64, flags: u64) -> (r: Result<u64, MemoryError>)
        requires
            old(self).wf(),
        ensures
            final(self).wf(),
            Self::map_step(old(self), final(self), page, flags, r),
            r matches Ok(f) ==> aligned(f),
    {
        let p = align_down(page);
        if self.page_table.translate_page(p).is_some() {
            return Err(MemoryError::MappingFailed);
        }
        match self.frame_allocator.allocate_frame() {
            Some(f) => {
                let _ = self.page_table.map_to(p, f, flags);
                Ok(f)
            },
            None => {
                match self.lru.least_recent() {
                    None => Err(MemoryError::ResourceExhausted),
                    Some(k) => {
                        proof {
                            self.lru.lru.lemma_wf();
                            lemma_key_pos(self.cache(), 0);
                        }
                        let ghost before = self.frame_allocator.free_frames();
                        let _ = self.evict_and_deallocate(k.address, k.size);
                        match self.frame_allocator.allocate_frame() {
                            Some(f) => {
                                assert(before.len() == 0);
                                assert(self.frame_allocator.free_frames() =~= before);
                                let _ = self.page_table.map_to(p, f, flags);
                                Ok(f)
                            },
                            None => Err(MemoryError::ResourceExhausted),
                        }
                    },
                }
            },
        }
    }
}

/// A fault after an eviction restores what was written. Once `data` is
/// written as the image of (`address`, `PAGE_SIZE`) (`cache_page`, from
/// `before` to `written`) and that page is then evicted (`evict_and_deallocate`,
/// from `written` to `evicted`), the image is gone from the cache, so the next
/// fault at `address` does not take it from there, and the bytes that the
/// fault takes from the store are exactly `data`.
pub proof fn lemma_fault_round_trip<S: StorageBackend>(
    before: &MemoryManager<S>,
    written: &MemoryManager<S>,
    evicted: &MemoryManager<S>,
    address: u64,
    data: Vec<u8>,
)
    requires
        before.wf(),
        written.wf(),
        before.cache_cap() > 0,
        written.cache() == put_entries(before.cache(), before.cache_cap(), fault_key(address), data),
        MemoryManager::<S>::evict_step(written, evicted, address, PAGE_SIZE, Ok(())),
    ensures
        !has_key(evicted.cache(), fault_key(address)),
        evicted.blocks().len() > 0,
        evicted.fault_data(address, FaultSource::Store) == data@,
{
    before.lru.lru.lemma_wf();
    written.lru.lru.lemma_wf();
    crate::lru::lemma_put_then_lookup(before.cache(), before.cache_cap(), fault_key(address), data);
    lemma_removed_absent(written.cache(), fault_key(address));
    let n = written.blocks().len();
    assert(block_of(address, n as u64) < n);
    assert(evicted.blocks().len() == n);
}

/// The frame of a resolved fault, or its error.
pub open spec fn resolution_frame(r: Result<FaultResolution, MemoryError>) -> Result<u64, MemoryError> {
    match r {
        Ok(res) => Ok(res.frame),
        Err(e) => Err(e),
    }
}

/// Resolves a page fault at `addr`: maps the page that contains it, with
/// flags by address range, and returns the bytes to fill its frame with.
/// They are the cached image of (`addr`, `PAGE_SIZE`) on a cache hit;
/// otherwise the page's block of the backing store, which then enters the
/// cache, or a zero page when the store has no blocks or fails to read.
/// An error means that the page could not be mapped, which the faulting
/// context cannot recover from.
pub fn handle_page_fault<S: StorageBackend>(addr: u64, memory_manager: &mut MemoryManager<S>) -> (r:
    Result<FaultResolution, MemoryError>)
    requires
        old(memory_manager).wf(),
    ensures
        final(memory_manager).wf(),
        match r {
            Ok(res) => {
                &&& res.page == frame_start(addr)
                &&& res.flags == fault_flags(addr)
                &&& res.data@ == old(memory_manager).fault_data(addr, res.source)
                &&& (res.source == FaultSource::Cache <==> has_key(
                    old(memory_manager).cache(),
                    fault_key(addr),
                ))
                &&& (res.source == FaultSource::Store ==> old(memory_manager).blocks().len() > 0)
                &&& (old(memory_manager).blocks().len() == 0 ==> res.source != FaultSource::Store)
            },
            Err(e) => e == MemoryError::ResourceExhausted || e == MemoryError::MappingFailed,
        },
        has_key(old(memory_manager).cache(), fault_key(addr)) ==> exists|mid: MemoryManager<S>|
            {
                &&& mid.cache() == touch(old(memory_manager).cache(), fault_key(addr))
                &&& mid.cache_cap() == old(memory_manager).cache_cap()
                &&& mid.maps() == old(memory_manager).maps()
                &&& mid.frame_allocator.same(&old(memory_manager).frame_allocator)
                &&& mid.blocks() == old(memory_manager).blocks()
                &&& #[trigger] MemoryManager::<S>::map_step(
                    &mid,
                    final(memory_manager),
                    addr,
                    fault_flags(addr),
                    resolution_frame(r),
                )
            },
        !has_key(old(memory_manager).cache(), fault_key(addr)) ==> miss_resolved(
            old(memory_manager),
            final(memory_manager),
            addr,
            r,
        ),
{
    let page = align_down(addr);
    let flags = page_fault_flags(addr);
    let ghost hit = has_key(memory_manager.cache(), fault_key(addr));
    let cached = match memory_manager.get_cached_page(addr, PAGE_SIZE) {
        Some(d) => Some(copy_bytes(d)),
        None => None,
    };
    assert(cached is Some <==> hit);
    match cached {
        Some(data) => {
            let ghost mid = *memory_manager;
            let res = memory_manager.map_page(page, flags);
            assert(MemoryManager::<S>::map_step(&mid, memory_manager, addr, flags, res));
            match res {
                Ok(frame) => Ok(FaultResolution { page, frame, flags, data, source: FaultSource::Cache }),
                Err(e) => Err(e),
            }
        },
        None => {
            let n = memory_manager.storage_backend.num_blocks();
            let ghost pre = *memory_manager;
            let r = if n == 0 {
                resolve_from_store(addr, Err(()), zeroed_page(), memory_manager)
            } else {
                let block = hash_page_addr(addr, n);
                let mut buf = zeroed_page();
                let read = memory_manager.storage_backend.read_block(block, buf.as_mut_slice());
                resolve_from_store(addr, read, buf, memory_manager)
            };
            proof {
                lemma_miss_resolved_same_start(&pre, old(memory_manager), memory_manager, addr, r);
            }
            r
        },
    }
}

/// Whether `post` and `r` are what resolving a fault at `addr` that missed
/// the cache makes of `pre`: the page is mapped as `map_page` does, and on
/// success the bytes of the resolution enter the cache under
/// (`addr`, `PAGE_SIZE`).
pub open spec fn miss_resolved<S: StorageBackend>(
    pre: &MemoryManager<S>,
    post: &MemoryManager<S>,
    addr: u64,
    r: Result<FaultResolution, MemoryError>,
) -> bool {
    exists|mid: MemoryManager<S>|
        {
            &&& #[trigger] MemoryManager::<S>::map_step(
                pre,
                &mid,
                addr,
                fault_flags(addr),
                resolution_frame(r),
            )
            &&& r is Err ==> post.unchanged(&mid)
            &&& r matches Ok(res) ==> {
                &&& post.maps() == mid.maps()
                &&& post.frame_allocator.same(&mid.frame_allocator)
                &&& post.blocks() == mid.blocks()
                &&& post.cache_cap() == mid.cache_cap()
                &&& exists|v: Vec<u8>|
                    v@ == res.data@ && post.cache() == #[trigger] put_entries(
                        mid.cache(),
                        mid.cache_cap(),
                        fault_key(addr),
                        v,
                    )
            }
        }
}

proof fn lemma_miss_resolved_same_start<S: StorageBackend>(
    p1: &MemoryManager<S>,
    p2: &MemoryManager<S>,
    post: &MemoryManager<S>,
    addr: u64,
    r: Result<FaultResolution, MemoryError>,
)
    requires
        miss_resolved(p1, post, addr, r),
        p1.cache() == p2.cache(),
        p1.cache_cap() == p2.cache_cap(),
        p1.maps() == p2.maps(),
        p1.blocks() == p2.blocks(),
        p1.frame_allocator == p2.frame_allocator,
    ensures
        miss_resolved(p2, post, addr, r),
{
    let mid = choose|mid: MemoryManager<S>|
        {
            &&& #[trigger] MemoryManager::<S>::map_step(
                p1,
                &mid,
                addr,
                fault_flags(addr),
                resolution_frame(r),
            )
            &&& r is Err ==> post.unchanged(&mid)
            &&& r matches Ok(res) ==> {
                &&& post.maps() == mid.maps()
                &&& post.frame_allocator.same(&mid.frame_allocator)
                &&& post.blocks() == mid.blocks()
                &&& post.cache_cap() == mid.cache_cap()
                &&& exists|v: Vec<u8>|
                    v@ == res.data@ && post.cache() == #[trigger] put_entries(
                        mid.cache(),
                        mid.cache_cap(),
                        fault_key(addr),
                        v,
                    )
            }
        };
    assert(MemoryManager::<S>::map_step(p2, &mid, addr, fault_flags(addr), resolution_frame(r)));
}

/// Resolves a fault at `addr` that missed the cache, given what reading
/// the page's block of the store into `buf` returned: after a successful
/// read the page gets `buf` (source `Store`), after a failed one a zero
/// page (source `Blank`).
pub fn resolve_from_store<S: StorageBackend>(
    addr: u64,
    read: Result<(), ()>,
    buf: Vec<u8>,
    memory_manager: &mut MemoryManager<S>,
) -> (r: Result<FaultResolution, MemoryError>)
    requires
        old(memory_manager).wf(),
        !has_key(old(memory_manager).cache(), fault_key(addr)),
        buf@.len() == PAGE_SIZE,
    ensures
        final(memory_manager).wf(),
        match r {
            Ok(res) => {
                &&& res.page == frame_start(addr)
                &&& res.flags == fault_flags(addr)
                &&& res.source == (if read is Ok {
                    FaultSource::Store
                } else {
                    FaultSource::Blank
                })
                &&& res.data@ == (if read is Ok {
                    buf@
                } else {
                    zero_page()
                })
            },
            Err(e) => e == MemoryError::ResourceExhausted || e == MemoryError::MappingFailed,
        },
        miss_resolved(old(memory_manager), final(memory_manager), addr, r),
{
    let page = align_down(addr);
    let flags = page_fault_flags(addr);
    let (data, source) = if read.is_ok() {
        (buf, FaultSource::Store)
    } else {
        (zeroed_page(), FaultSource::Blank)
    };
    let res = memory_manager.map_page(page, flags);
    let ghost mid = *memory_manager;
    assert(MemoryManager::<S>::map_step(old(memory_manager), &mid, addr, flags, res));
    match res {
        Ok(frame) => {
            let copy = copy_bytes(data.as_slice());
            memory_manager.cache_page(addr, PAGE_SIZE, copy);
            let r = Ok(FaultResolution { page, frame, flags, data, source });
            assert(MemoryManager::<S>::map_step(old(memory_manager), &mid, addr, flags, resolution_frame(r)));
            r
        },
        Err(e) => {
            let r = Err(e);
            assert(MemoryManager::<S>::map_step(old(memory_manager), &mid, addr, flags, resolution_frame(r)));
            r
        },
    }
}

} // verus!
