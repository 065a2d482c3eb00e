use vstd::prelude::*;

verus! {

/// A device addressed by fixed-size sectors.
pub trait BlockDevice {
    /// The sectors of the device, by logical block address.
    spec fn sectors(&self) -> Seq<Seq<u8>>;

    /// Bytes per sector.
    spec fn sector_len(&self) -> nat;

    /// Fills `buf` with sector `lba`.
    fn read_sector(&self, lba: u64, buf: &mut [u8]) -> (r: Result<(), ()>)
        ensures
            r is Ok ==> lba < self.sectors().len() && final(buf)@ == self.sectors()[lba as int],
            final(buf)@.len() == old(buf)@.len(),
    ;

    /// Replaces sector `lba` with `buf`.
    fn write_sector(&mut self, lba: u64, buf: &[u8]) -> (r: Result<(), ()>)
        ensures
            final(self).sector_len() == old(self).sector_len(),
            r is Ok ==> lba < old(self).sectors().len() && buf@.len() == old(self).sector_len()
                && final(self).sectors() == old(self).sectors().update(lba as int, buf@),
            r is Err ==> final(self).sectors() == old(self).sectors(),
    ;

    /// Bytes per sector; a device with sectors of no bytes has no sectors.
    fn sector_size(&self) -> (r: usize)
        ensures
            r == self.sector_len(),
            r == 0 ==> self.sectors().len() == 0,
    ;

    /// Size of the device in bytes.
    fn capacity(&self) -> (r: usize)
        ensures
            r == self.sectors().len() * self.sector_len(),
    ;
}

/// A block store as the memory manager sees it: one block holds one page.
pub trait StorageBackend {
    /// The blocks of the store, by index.
    spec fn blocks(&self) -> Seq<Seq<u8>>;

    /// Fills `buf` with block `block_id`.
    fn read_block(&self, block_id: u64, buf: &mut [u8]) -> (r: Result<(), ()>)
        ensures
            r is Ok ==> block_id < self.blocks().len() && final(buf)@ == self.blocks()[block_id as int],
            final(buf)@.len() == old(buf)@.len(),
    ;

    /// Replaces block `block_id` with `buf`.
    fn write_block(&mut self, block_id: u64, buf: &[u8]) -> (r: Result<(), ()>)
        ensures
            r is Ok ==> block_id < old(self).blocks().len() && final(self).blocks() == old(
                self,
            ).blocks().update(block_id as int, buf@),
            r is Err ==> final(self).blocks() == old(self).blocks(),
    ;

    /// How many blocks the store has.
    fn num_blocks(&self) -> (r: u64)
        ensures
            r == self.blocks().len(),
    ;
}

/// A store whose blocks are the sectors of a device, one to one.
pub struct BlockStorage<B: BlockDevice> {
    device: B,
    block_size: usize,
}

impl<B: BlockDevice> BlockStorage<B> {
    pub closed spec fn device(&self) -> B {
        self.device
    }

    pub closed spec fn block_size(&self) -> nat {
        self.block_size as nat
    }

    pub fn new(device: B, block_size: usize) -> (r: Self)
        ensures
            r.device() == device,
            r.block_size() == block_size,
            r.blocks() == device.sectors(),
    {
        Self { device, block_size }
    }
}

impl<B: BlockDevice> StorageBackend for BlockStorage<B> {
    /// One block is one sector.
    closed spec fn blocks(&self) -> Seq<Seq<u8>> {
        self.device.sectors()
    }

    fn read_block(&self, block_id: u64, buf: &mut [u8]) -> (r: Result<(), ()>) {
        self.device.read_sector(block_id, buf)
    }

    fn write_block(&mut self, block_id: u64, buf: &[u8]) -> (r: Result<(), ()>) {
        self.device.write_sector(block_id, buf)
    }

    fn num_blocks(&self) -> (r: u64) {
        let size = self.device.sector_size();
        if size == 0 {
            return 0;
        }
        let cap = self.device.capacity();
        proof {
            vstd::arithmetic::div_mod::lemma_div_by_multiple(
                self.device.sectors().len() as int,
                size as int,
            );
        }
        (cap / size) as u64
    }
}

} // verus!
