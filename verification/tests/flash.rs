use ayachi_door_access::error::{OtaError, SystemError};
use ayachi_door_access::flash::calculate_erase_distribution;

#[test]
fn one_more_block_when_it_fits() {
    assert_eq!(calculate_erase_distribution(100_000, 1 << 20), Ok(([2, 0], 131_072)));
}

#[test]
fn whole_blocks_exactly() {
    assert_eq!(calculate_erase_distribution(65_536, 1 << 20), Ok(([1, 0], 65_536)));
}

#[test]
fn sectors_for_the_rest_near_the_end() {
    assert_eq!(calculate_erase_distribution(70_000, 100_000), Ok(([1, 2], 73_728)));
    assert_eq!(calculate_erase_distribution(4, 4096), Ok(([0, 1], 4096)));
}

#[test]
fn larger_than_partition_is_out_of_memory() {
    assert_eq!(calculate_erase_distribution(100_001, 100_000), Err(SystemError::OutOfMemory));
}

#[test]
fn sector_rounding_past_the_end_is_not_supported() {
    assert_eq!(
        calculate_erase_distribution(70_000, 70_000),
        Err(SystemError::OTA(OtaError::NotSupported))
    );
}
