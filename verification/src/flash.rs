//! Flash geometry and how an upload's target area is erased.

use vstd::prelude::*;
use crate::error::{OtaError, SystemError};

verus! {

/// Smallest unit a write covers (`FlashStorage::WRITE_SIZE`).
pub const WRITE_SIZE: usize = 4;
/// Smallest unit an erase covers (`FlashStorage::ERASE_SIZE`).
pub const ERASE_SIZE: usize = 4096;
/// A flash sector (`FlashStorage::SECTOR_SIZE`).
pub const SECTOR_SIZE: u32 = 4096;
/// A flash block, erased in one command (`FlashStorage::BLOCK_SIZE`).
pub const BLOCK_SIZE: u32 = 65536;

/// How an area of `size` bytes is erased in a partition of `max_size` bytes:
/// whole blocks, then sectors for the rest, unless one more block still fits
/// in the partition and covers the rest. The result is the number of blocks,
/// the number of sectors and the bytes erased.
pub open spec fn erase_plan(size: int, max_size: int) -> Result<(int, int, int), SystemError> {
    if size > max_size {
        Err(SystemError::OutOfMemory)
    } else {
        let blocks = size / (BLOCK_SIZE as int);
        let covered = blocks * BLOCK_SIZE;
        if size > covered && covered + BLOCK_SIZE < max_size {
            Ok((blocks + 1, 0, covered + BLOCK_SIZE))
        } else {
            let sectors = (size - covered + ERASE_SIZE - 1) / (ERASE_SIZE as int);
            let total = covered + sectors * ERASE_SIZE;
            if total > max_size {
                Err(SystemError::OTA(OtaError::NotSupported))
            } else {
                Ok((blocks, sectors, total))
            }
        }
    }
}

/// `size` rounded up to whole sectors.
pub open spec fn sector_rounded(size: int) -> int {
    ((size + 4095) / 4096) * 4096
}

proof fn lemma_sector_rounding_of_rest(size: int, blocks: int)
    requires
        0 <= size,
        blocks == size / 65536,
    ensures
        blocks * 65536 + ((size - blocks * 65536 + 4095) / 4096) * 4096 == sector_rounded(size),
        size <= sector_rounded(size) < size + 4096,
        blocks * 65536 <= size < blocks * 65536 + 65536,
{
    let r = size - blocks * 65536;
    assert(0 <= r < 65536 && blocks >= 0) by (nonlinear_arith)
        requires 0 <= size, blocks == size / 65536, r == size - blocks * 65536;
    assert((size + 4095) / 4096 == blocks * 16 + (r + 4095) / 4096) by (nonlinear_arith)
        requires size == blocks * 65536 + r, 0 <= r, blocks >= 0;
    assert(size <= ((size + 4095) / 4096) * 4096 < size + 4096) by (nonlinear_arith)
        requires 0 <= size;
}

/// What an erase plan is for: it fails with `OutOfMemory` exactly when the
/// image is larger than the partition, and succeeds exactly when the image,
/// rounded up to whole sectors, fits in the partition (otherwise
/// `NotSupported`). A plan erases its blocks and sectors, covers the image,
/// stays inside the partition, overshoots the image by less than a block, and
/// by less than a sector whenever it uses sectors.
pub proof fn lemma_erase_plan_succeeds(size: int, max_size: int)
    requires
        0 <= size,
    ensures
        (erase_plan(size, max_size) == Err::<(int, int, int), SystemError>(SystemError::OutOfMemory)) <==> size > max_size,
        erase_plan(size, max_size) is Ok <==> (size <= max_size && sector_rounded(size) <= max_size),
        size <= max_size && sector_rounded(size) > max_size
            ==> erase_plan(size, max_size) == Err::<(int, int, int), SystemError>(SystemError::OTA(OtaError::NotSupported)),
        erase_plan(size, max_size) matches Ok((b, s, t)) ==> {
            &&& 0 <= b && 0 <= s
            &&& t == b * 65536 + s * 4096
            &&& size <= t <= max_size
            &&& t < size + 65536
            &&& s > 0 ==> t == sector_rounded(size)
        },
{
    let blocks = size / 65536;
    lemma_sector_rounding_of_rest(size, blocks);
    if size <= max_size {
        let covered = blocks * 65536;
        if !(size > covered && covered + 65536 < max_size) {
            let sectors = (size - covered + 4095) / 4096;
            assert(sectors >= 0) by (nonlinear_arith)
                requires sectors == (size - covered + 4095) / 4096, size >= covered;
        }
    }
}

/// Blocks and sectors to erase so that an image of `size` bytes can be
/// written to a partition of `max_size` bytes, and the bytes that covers.
pub fn calculate_erase_distribution(size: usize, max_size: usize) -> (r: Result<([usize; 2], usize), SystemError>)
    ensures
        match erase_plan(size as int, max_size as int) {
            Ok((b, s, t)) => r matches Ok((d, total)) && d@ == seq![b as usize, s as usize] && total == t,
            Err(e) => r == Err::<([usize; 2], usize), SystemError>(e),
        },
        r matches Ok((d, total)) ==> {
            &&& total == d@[0] * BLOCK_SIZE + d@[1] * ERASE_SIZE
            &&& size <= total <= max_size
            &&& d@[1] * ERASE_SIZE < BLOCK_SIZE + ERASE_SIZE
        },
{
    let block: usize = BLOCK_SIZE as usize;
    if size > max_size {
        return Err(SystemError::OutOfMemory);
    }
    let blocks = size / block;
    let covered = blocks * block;
    if size > covered && max_size - covered > block {
        let d: [usize; 2] = [blocks + 1, 0];
        assert(d@ =~= seq![(blocks + 1) as usize, 0usize]);
        return Ok((d, covered + block));
    }
    let sectors = (size - covered + ERASE_SIZE - 1) / ERASE_SIZE;
    if sectors * ERASE_SIZE > max_size - covered {
        return Err(SystemError::OTA(OtaError::NotSupported));
    }
    let total = covered + sectors * ERASE_SIZE;
    let d: [usize; 2] = [blocks, sectors];
    assert(d@ =~= seq![blocks, sectors]);
    Ok((d, total))
}

} // verus!
