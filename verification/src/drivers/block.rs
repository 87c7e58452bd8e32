//! Block device abstraction and an in-memory block device.
use vstd::prelude::*;

verus! {

/// Size of a disk sector in bytes.
pub const SECTOR_SIZE: usize = 512;

/// Errors of block device operations.
#[derive(Debug, Clone)]
pub enum BlockError {
    InvalidSector,
    DeviceNotReady,
    IoError,
    OutOfBounds,
    Custom(String),
}

/// Interface of block device drivers.
pub trait BlockDevice {
    /// Reads `count` sectors starting at `sector`.
    fn read_sectors(&mut self, sector: u64, count: usize) -> Result<Vec<u8>, BlockError>;

    /// Writes `data` (a whole number of sectors) starting at `sector`;
    /// returns the number of sectors written.
    fn write_sectors(&mut self, sector: u64, data: &[u8]) -> Result<usize, BlockError>;

    /// Total number of sectors of the device.
    fn sector_count(&self) -> u64;

    /// Size of the device in bytes.
    fn capacity(&self) -> u64;

    /// Flushes pending writes; devices without a write cache succeed at once.
    fn flush(&mut self) -> (r: Result<(), BlockError>) where Self: Sized
        default_ensures
            r is Ok,
            *final(self) == *old(self),
    {
        Ok(())
    }
}

/// A block device whose sectors live in memory.
pub struct MemoryBlockDevice {
    data: Vec<u8>,
    sectors: u64,
}

/// The contents after writing `bytes` at byte offset `start`.
pub open spec fn spec_write_bytes(contents: Seq<u8>, start: int, bytes: Seq<u8>) -> Seq<u8> {
    contents.subrange(0, start) + bytes + contents.subrange(start + bytes.len(), contents.len() as int)
}

impl MemoryBlockDevice {
    /// The bytes of the device.
    pub closed spec fn contents(&self) -> Seq<u8> {
        self.data@
    }

    /// The number of whole sectors of the device.
    pub closed spec fn sectors(&self) -> nat {
        self.sectors as nat
    }

    /// The sector count is the number of whole sectors the contents hold.
    pub closed spec fn wf(&self) -> bool {
        self.sectors as int == (self.data@.len() as int) / 512
    }

    /// A zero-filled device of `size_mb` MiB.
    pub fn new(size_mb: usize) -> (d: Self)
        requires
            size_mb * 1024 * 1024 <= usize::MAX,
        ensures
            d.wf(),
            d.contents() == Seq::new((size_mb * 1024 * 1024) as nat, |i: int| 0u8),
            d.sectors() == size_mb * 1024 * 1024 / 512,
    {
        let bytes = size_mb * 1024 * 1024;
        let sectors = (bytes / SECTOR_SIZE) as u64;
        let d = MemoryBlockDevice { data: vec![0u8; bytes], sectors };
        assert(d.contents() =~= Seq::new((size_mb * 1024 * 1024) as nat, |i: int| 0u8));
        d
    }
}

impl BlockDevice for MemoryBlockDevice {
    /// Out-of-range requests, including a range that runs past the end of
    /// the device, give `OutOfBounds`.
    fn read_sectors(&mut self, sector: u64, count: usize) -> (r: Result<Vec<u8>, BlockError>)
        ensures
            *final(self) == *old(self),
            ({
                let start = sector * 512;
                let end = start + count * 512;
                match r {
                    Ok(bytes) => sector < old(self).sectors() && end <= old(self).contents().len()
                        && bytes@ == old(self).contents().subrange(start, end),
                    Err(e) => (sector >= old(self).sectors() || end > old(self).contents().len())
                        && e is OutOfBounds,
                }
            }),
    {
        if sector >= self.sectors {
            return Err(BlockError::OutOfBounds);
        }
        if sector > (self.data.len() / SECTOR_SIZE) as u64 {
            return Err(BlockError::OutOfBounds);
        }
        let start = (sector as usize) * SECTOR_SIZE;
        let len = self.data.len();
        if count > (len - start) / SECTOR_SIZE {
            return Err(BlockError::OutOfBounds);
        }
        let end = start + count * SECTOR_SIZE;
        let mut out: Vec<u8> = Vec::with_capacity(end - start);
        let mut i = start;
        while i < end
            invariant
                start <= i <= end <= len,
                len == self.data@.len(),
                out@ == self.data@.subrange(start as int, i as int),
            decreases end - i,
        {
            out.push(self.data[i]);
            assert(out@ =~= self.data@.subrange(start as int, i + 1));
            i = i + 1;
        }
        Ok(out)
    }

    /// Requests that start past the last sector or run past the end give
    /// `OutOfBounds`; data that is not a whole number of sectors gives
    /// `InvalidSector`.
    fn write_sectors(&mut self, sector: u64, data: &[u8]) -> (r: Result<usize, BlockError>)
        ensures
            final(self).sectors() == old(self).sectors(),
            final(self).contents().len() == old(self).contents().len(),
            final(self).wf() == old(self).wf(),
            ({
                let start = sector * 512;
                let end = start + data@.len();
                match r {
                    Ok(n) => sector < old(self).sectors() && data@.len() % 512 == 0 && end
                        <= old(self).contents().len() && n == data@.len() / 512
                        && final(self).contents() == spec_write_bytes(
                        old(self).contents(),
                        start,
                        data@,
                    ),
                    Err(e) => *final(self) == *old(self) && if sector >= old(self).sectors() {
                        e is OutOfBounds
                    } else if data@.len() % 512 != 0 {
                        e is InvalidSector
                    } else {
                        end > old(self).contents().len() && e is OutOfBounds
                    },
                }
            }),
    {
        if sector >= self.sectors {
            return Err(BlockError::OutOfBounds);
        }
        if data.len() % SECTOR_SIZE != 0 {
            return Err(BlockError::InvalidSector);
        }
        if sector > (self.data.len() / SECTOR_SIZE) as u64 {
            return Err(BlockError::OutOfBounds);
        }
        let start = (sector as usize) * SECTOR_SIZE;
        let len = self.data.len();
        if data.len() > len - start {
            return Err(BlockError::OutOfBounds);
        }
        let ghost old_contents = self.data@;
        let mut i: usize = 0;
        while i < data.len()
            invariant
                start + data@.len() <= len,
                len == self.data@.len(),
                old_contents.len() == len,
                0 <= i <= data@.len(),
                self.sectors == old(self).sectors,
                self.data@ == spec_write_bytes(
                    old_contents,
                    start as int,
                    data@.subrange(0, i as int),
                ),
            decreases data@.len() - i,
        {
            self.data.set(start + i, data[i]);
            assert(self.data@ =~= spec_write_bytes(
                old_contents,
                start as int,
                data@.subrange(0, i + 1),
            )) by {
                assert forall|k: int| 0 <= k < len implies #[trigger] self.data@[k]
                    == spec_write_bytes(old_contents, start as int, data@.subrange(0, i + 1))[k] by {
                    if k < start {
                    } else if k < start + i {
                    } else if k == start + i {
                    } else {
                    }
                }
            }
            i = i + 1;
        }
        assert(data@.subrange(0, data@.len() as int) =~= data@);
        Ok(data.len() / SECTOR_SIZE)
    }

    fn sector_count(&self) -> (n: u64)
        ensures
            n == self.sectors(),
    {
        self.sectors
    }

    fn capacity(&self) -> (n: u64)
        ensures
            self.wf() ==> n == self.sectors() * 512,
    {
        proof {
            if self.wf() {
                vstd::arithmetic::div_mod::lemma_fundamental_div_mod(self.data@.len() as int, 512);
                vstd::arithmetic::div_mod::lemma_mod_pos_bound(self.data@.len() as int, 512);
                assert(self.sectors * 512 <= self.data@.len());
                assert(self.data.len() == self.data@.len());
                assert(self.sectors * 512 <= u64::MAX);
            }
        }
        match self.sectors.checked_mul(512u64) {
            Some(n) => n,
            None => u64::MAX,
        }
    }
}

/// What a write puts on the device is what a read of the same sectors gives
/// back, and the bytes outside the written range are left as they were.
pub proof fn law_read_after_write(contents: Seq<u8>, start: int, bytes: Seq<u8>)
    requires
        0 <= start,
        start + bytes.len() <= contents.len(),
    ensures
        spec_write_bytes(contents, start, bytes).len() == contents.len(),
        spec_write_bytes(contents, start, bytes).subrange(start, start + bytes.len()) == bytes,
        forall|k: int|
            0 <= k < contents.len() && !(start <= k < start + bytes.len()) ==> #[trigger] spec_write_bytes(
                contents,
                start,
                bytes,
            )[k] == contents[k],
{
    assert(spec_write_bytes(contents, start, bytes).subrange(start, start + bytes.len()) =~= bytes);
}

} // verus!
