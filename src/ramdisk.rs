use crate::storage::BlockDevice;
use vstd::prelude::*;

verus! {

/// A block device held in memory: a byte array cut into sectors.
pub struct RamDisk {
    storage: Vec<u8>,
    sector_size: usize,
}

/// Sector `i` of `bytes` cut into sectors of `ss` bytes.
pub open spec fn sector_of(bytes: Seq<u8>, ss: nat, i: int) -> Seq<u8> {
    bytes.subrange(i * ss, i * ss + ss)
}

proof fn lemma_whole_sectors(len: int, ss: int)
    requires
        0 <= len,
        0 < ss,
    ensures
        (len / ss) * ss <= len,
{
    vstd::arithmetic::div_mod::lemma_fundamental_div_mod(len, ss);
    assert((len / ss) * ss <= len) by (nonlinear_arith)
        requires
            len == ss * (len / ss) + len % ss,
            0 <= len % ss,
    ;
}

proof fn lemma_sector_in_bounds(lba: int, n: int, ss: int, len: int)
    requires
        0 <= lba < n,
        0 < ss,
        n == len / ss,
        0 <= len,
    ensures
        0 <= lba * ss,
        lba * ss + ss <= len,
{
    lemma_whole_sectors(len, ss);
    assert(lba * ss + ss <= n * ss) by (nonlinear_arith)
        requires
            lba + 1 <= n,
            0 < ss,
    ;
    assert(0 <= lba * ss) by (nonlinear_arith)
        requires
            0 <= lba,
            0 < ss,
    ;
}

proof fn lemma_sectors_disjoint(j: int, lba: int, ss: int, k: int)
    requires
        0 <= j,
        0 <= lba,
        j != lba,
        0 < ss,
        0 <= k < ss,
    ensures
        j * ss + k < lba * ss || j * ss + k >= lba * ss + ss,
{
    if j < lba {
        assert(j * ss + k < lba * ss) by (nonlinear_arith)
            requires
                j + 1 <= lba,
                0 <= k < ss,
        ;
    } else {
        assert(j * ss + k >= lba * ss + ss) by (nonlinear_arith)
            requires
                lba + 1 <= j,
                0 <= k < ss,
        ;
    }
}

impl RamDisk {
    /// A disk over `storage`, cut into sectors of `sector_size` bytes; bytes
    /// past the last whole sector are not addressable.
    pub fn new(storage: Vec<u8>, sector_size: usize) -> (r: Self)
        ensures
            r.sector_len() == sector_size,
            r.bytes() == storage@,
    {
        Self { storage, sector_size }
    }

    /// The bytes of the disk.
    pub closed spec fn bytes(&self) -> Seq<u8> {
        self.storage@
    }
}

impl BlockDevice for RamDisk {
    closed spec fn sectors(&self) -> Seq<Seq<u8>> {
        if self.sector_size == 0 {
            Seq::empty()
        } else {
            Seq::new(
                self.storage@.len() / (self.sector_size as nat),
                |i: int| sector_of(self.storage@, self.sector_size as nat, i),
            )
        }
    }

    closed spec fn sector_len(&self) -> nat {
        self.sector_size as nat
    }

    fn read_sector(&self, lba: u64, buf: &mut [u8]) -> (r: Result<(), ()>)
        ensures
            r is Ok <==> self.sector_len() > 0 && old(buf)@.len() == self.sector_len() && lba
                < self.sectors().len(),
    {
        let ss = self.sector_size;
        if ss == 0 || buf.len() != ss {
            return Err(());
        }
        let len = self.storage.len();
        let n = len / ss;
        if lba >= n as u64 {
            return Err(());
        }
        proof {
            lemma_sector_in_bounds(lba as int, n as int, ss as int, self.storage@.len() as int);
        }
        let off = lba as usize * ss;
        let mut i: usize = 0;
        while i < ss
            invariant
                ss == self.sector_size,
                ss > 0,
                off + ss <= self.storage@.len(),
                off == lba * ss,
                len == self.storage@.len(),
                i <= ss,
                buf@.len() == ss,
                forall|t: int| 0 <= t < i ==> buf@[t] == self.storage@[off + t],
            decreases ss - i,
        {
            buf[i] = self.storage[off + i];
            i = i + 1;
        }
        assert(buf@ =~= self.sectors()[lba as int]);
        Ok(())
    }

    fn write_sector(&mut self, lba: u64, buf: &[u8]) -> (r: Result<(), ()>)
        ensures
            r is Ok <==> old(self).sector_len() > 0 && buf@.len() == old(self).sector_len() && lba
                < old(self).sectors().len(),
    {
        let ss = self.sector_size;
        if ss == 0 || buf.len() != ss {
            return Err(());
        }
        let len = self.storage.len();
        let n = len / ss;
        if lba >= n as u64 {
            return Err(());
        }
        proof {
            lemma_sector_in_bounds(lba as int, n as int, ss as int, self.storage@.len() as int);
        }
        let ghost before = self.storage@;
        let off = lba as usize * ss;
        let mut i: usize = 0;
        while i < ss
            invariant
                ss == self.sector_size,
                ss > 0,
                off + ss <= before.len(),
                off == lba * ss,
                len == self.storage@.len(),
                i <= ss,
                buf@.len() == ss,
                self.storage@.len() == before.len(),
                forall|t: int|
                    0 <= t < before.len() ==> #[trigger] self.storage@[t] == if off <= t < off + i {
                        buf@[t - off]
                    } else {
                        before[t]
                    },
            decreases ss - i,
        {
            self.storage[off + i] = buf[i];
            i = i + 1;
        }
        let ghost old_sectors = Seq::new(
            before.len() / (ss as nat),
            |i: int| sector_of(before, ss as nat, i),
        );
        assert forall|j: int| 0 <= j < old_sectors.len() implies #[trigger] self.sectors()[j]
            == old_sectors.update(lba as int, buf@)[j] by {
            lemma_sector_in_bounds(j, n as int, ss as int, before.len() as int);
            if j == lba {
                assert(self.sectors()[j] =~= buf@);
            } else {
                assert forall|k: int| 0 <= k < ss implies #[trigger] self.sectors()[j][k]
                    == old_sectors[j][k] by {
                    lemma_sectors_disjoint(j, lba as int, ss as int, k);
                }
                assert(self.sectors()[j] =~= old_sectors[j]);
            }
        }
        assert(self.sectors() =~= old_sectors.update(lba as int, buf@));
        Ok(())
    }

    fn sector_size(&self) -> (r: usize) {
        self.sector_size
    }

    fn capacity(&self) -> (r: usize) {
        if self.sector_size == 0 {
            return 0;
        }
        let n = self.storage.len() / self.sector_size;
        proof {
            lemma_whole_sectors(self.storage@.len() as int, self.sector_size as int);
        }
        n * self.sector_size
    }
}

} // verus!
