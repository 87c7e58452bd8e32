//! The checks a VirtIO block device makes before it hands a request to the
//! device: whether the device is up, and how a request in sectors maps to
//! a transfer in bytes and blocks.
use vstd::prelude::*;
use crate::drivers::block::{BlockError, SECTOR_SIZE};

verus! {

/// The length of the buffer a read of `count` sectors fills, or
/// `DeviceNotReady` when no device is attached.
pub fn virtio_read_len(ready: bool, count: usize) -> (r: Result<usize, BlockError>)
    requires
        count * SECTOR_SIZE <= usize::MAX,
    ensures
        !ready ==> r == Err::<usize, BlockError>(BlockError::DeviceNotReady),
        ready ==> r == Ok::<usize, BlockError>((count * SECTOR_SIZE) as usize),
{
    if !ready {
        return Err(BlockError::DeviceNotReady);
    }
    Ok(count * SECTOR_SIZE)
}

/// The number of blocks a write of `data_len` bytes covers:
/// `DeviceNotReady` when no device is attached, `InvalidSector` when the
/// data is not a whole number of sectors.
pub fn virtio_write_blocks(ready: bool, data_len: usize) -> (r: Result<usize, BlockError>)
    ensures
        !ready ==> r == Err::<usize, BlockError>(BlockError::DeviceNotReady),
        ready && data_len % SECTOR_SIZE != 0 ==> r == Err::<usize, BlockError>(
            BlockError::InvalidSector,
        ),
        ready && data_len % SECTOR_SIZE == 0 ==> r == Ok::<usize, BlockError>(
            data_len / SECTOR_SIZE,
        ),
{
    if !ready {
        return Err(BlockError::DeviceNotReady);
    }
    if data_len % SECTOR_SIZE != 0 {
        return Err(BlockError::InvalidSector);
    }
    Ok(data_len / SECTOR_SIZE)
}

} // verus!
