use crate::frame::aligned;
use crate::lru::{has_key, key_pos, keys_distinct, lemma_key_pos, lemma_remove_distinct, lookup};
use vstd::prelude::*;

verus! {

/// The page is mapped.
pub const PRESENT: u64 = 1;

/// The page may be written.
pub const WRITABLE: u64 = 2;

/// Code running in user mode may reach the page.
pub const USER_ACCESSIBLE: u64 = 4;

/// The first address past the canonical lower half, where user space ends.
pub const USER_SPACE_END: u64 = 0x8000_0000_0000;

/// The ways in which a memory operation can fail.
#[derive(Clone, Copy, Debug, PartialEq, Eq, Structural)]
pub enum MemoryError {
    /// No free frame, and no page that could be evicted for one.
    ResourceExhausted,
    /// The page table refused the request (a page mapped twice, or one
    /// unmapped that was not mapped).
    MappingFailed,
    /// The page is not resident in the page cache.
    PageNotMapped,
    /// The backing store could not read or write a block.
    StorageUnavailable,
}

/// Where a virtual page points: a physical frame and permission flags.
#[derive(Clone, Copy, Debug, PartialEq, Eq, Structural)]
pub struct Mapping {
    pub frame: u64,
    pub flags: u64,
}

/// Virtual pages and the frames they are mapped to; a page has at most one
/// frame, and a page that has none is unmapped.
pub struct PageTable {
    entries: Vec<(u64, Mapping)>,
}

proof fn lemma_lookup_at(s: Seq<(u64, Mapping)>, i: int)
    requires
        keys_distinct(s),
        0 <= i < s.len(),
    ensures
        has_key(s, s[i].0),
        lookup(s, s[i].0) == Some(s[i].1),
{
    lemma_key_pos(s, i);
}

impl PageTable {
    /// The mapping of each mapped page.
    pub closed spec fn mappings(&self) -> Map<u64, Mapping> {
        Map::new(|p: u64| has_key(self.entries@, p), |p: u64| lookup(self.entries@, p)->Some_0)
    }

    /// Pages are distinct and every frame is frame-aligned.
    pub closed spec fn wf(&self) -> bool {
        &&& keys_distinct(self.entries@)
        &&& forall|i: int| 0 <= i < self.entries@.len() ==> aligned(#[trigger] self.entries@[i].1.frame)
    }

    pub fn new() -> (r: Self)
        ensures
            r.wf(),
            r.mappings() == Map::<u64, Mapping>::empty(),
    {
        let r = PageTable { entries: Vec::new() };
        assert(r.mappings() =~= Map::<u64, Mapping>::empty());
        r
    }

    fn find(&self, page: u64) -> (r: Option<usize>)
        requires
            self.wf(),
        ensures
            match r {
                Some(i) => i < self.entries@.len() && self.entries@[i as int].0 == page,
                None => !has_key(self.entries@, page),
            },
    {
        let mut i: usize = 0;
        while i < self.entries.len()
            invariant
                i <= self.entries@.len(),
                forall|j: int| 0 <= j < i ==> self.entries@[j].0 != page,
            decreases self.entries@.len() - i,
        {
            if self.entries[i].0 == page {
                return Some(i);
            }
            i = i + 1;
        }
        None
    }

    /// The mapping of `page`, if it is mapped.
    pub fn translate_page(&self, page: u64) -> (r: Option<Mapping>)
        requires
            self.wf(),
        ensures
            r == (if self.mappings().contains_key(page) {
                Some(self.mappings()[page])
            } else {
                None
            }),
            r matches Some(m) ==> aligned(m.frame),
    {
        match self.find(page) {
            Some(i) => {
                proof {
                    lemma_lookup_at(self.entries@, i as int);
                }
                Some(self.entries[i].1)
            },
            None => None,
        }
    }

    /// Maps `page` to `frame`; fails if `page` is already mapped.
    pub fn map_to(&mut self, page: u64, frame: u64, flags: u64) -> (r: Result<(), MemoryError>)
        requires
            old(self).wf(),
            aligned(frame),
        ensures
            final(self).wf(),
            !old(self).mappings().contains_key(page) ==> r is Ok && final(self).mappings()
                == old(self).mappings().insert(page, Mapping { frame, flags }),
            old(self).mappings().contains_key(page) ==> r == Err::<(), MemoryError>(
                MemoryError::MappingFailed,
            ) && final(self).mappings() == old(self).mappings(),
    {
        if self.find(page).is_some() {
            return Err(MemoryError::MappingFailed);
        }
        let ghost pre = self.entries@;
        let m = Mapping { frame, flags };
        self.entries.push((page, m));
        let ghost post = self.entries@;
        assert(forall|i: int| 0 <= i < pre.len() ==> post[i] == pre[i]);
        assert(keys_distinct(post));
        assert forall|p: u64| #[trigger] has_key(post, p) <==> has_key(pre, p) || p == page by {
            if has_key(pre, p) {
                let i = key_pos(pre, p);
                assert(post[i].0 == p);
            }
            if p == page {
                assert(post[pre.len() as int].0 == p);
            }
            if has_key(post, p) && p != page {
                let i = key_pos(post, p);
                assert(pre[i].0 == p);
            }
        }
        assert forall|p: u64| has_key(post, p) implies #[trigger] lookup(post, p) == if p == page {
            Some(m)
        } else {
            lookup(pre, p)
        } by {
            let i = key_pos(post, p);
            lemma_lookup_at(post, i);
            if p != page {
                lemma_lookup_at(pre, i);
            }
        }
        assert(self.mappings() =~= old(self).mappings().insert(page, m));
        Ok(())
    }

    /// Unmaps `page` and returns what it was mapped to; fails if it was not
    /// mapped.
    pub fn unmap(&mut self, page: u64) -> (r: Result<Mapping, MemoryError>)
        requires
            old(self).wf(),
        ensures
            final(self).wf(),
            old(self).mappings().contains_key(page) ==> r == Ok::<Mapping, MemoryError>(
                old(self).mappings()[page],
            ) && final(self).mappings() == old(self).mappings().remove(page),
            !old(self).mappings().contains_key(page) ==> r == Err::<Mapping, MemoryError>(
                MemoryError::MappingFailed,
            ) && final(self).mappings() == old(self).mappings(),
            r matches Ok(m) ==> aligned(m.frame),
    {
        match self.find(page) {
            None => Err(MemoryError::MappingFailed),
            Some(i) => {
                let ghost pre = self.entries@;
                proof {
                    lemma_lookup_at(pre, i as int);
                    lemma_remove_distinct(pre, i as int);
                }
                let e = self.entries.remove(i);
                let ghost post = self.entries@;
                assert(forall|j: int| 0 <= j < post.len() ==> #[trigger] post[j] == if j < i {
                    pre[j]
                } else {
                    pre[j + 1]
                });
                assert forall|p: u64| #[trigger] has_key(post, p) <==> has_key(pre, p) && p != page by {
                    if has_key(pre, p) && p != page {
                        let j = key_pos(pre, p);
                        if j < i {
                            assert(post[j].0 == p);
                        } else {
                            assert(post[j - 1].0 == p);
                        }
                    }
                    if has_key(post, p) {
                        let j = key_pos(post, p);
                        if j < i {
                            assert(pre[j].0 == p);
                        } else {
                            assert(pre[j + 1].0 == p);
                        }
                    }
                }
                assert forall|p: u64| has_key(post, p) implies #[trigger] lookup(post, p) == lookup(
                    pre,
                    p,
                ) by {
                    let j = key_pos(post, p);
                    lemma_lookup_at(post, j);
                    if j < i {
                        lemma_lookup_at(pre, j);
                    } else {
                        lemma_lookup_at(pre, j + 1);
                    }
                }
                assert(self.mappings() =~= old(self).mappings().remove(page));
                Ok(e.1)
            },
        }
    }
}

} // verus!
