use ayachi_door_access::image::{Inspector, PartitionInfo, PartitionState};
use ayachi_door_access::text::CompactFormat;
use sha2::{Digest, Sha256};

const PROJECT: &[u8] = b"ayachi-door-access";

fn put(p: &mut [u8], at: usize, bytes: &[u8]) {
    p[at..at + bytes.len()].copy_from_slice(bytes);
}

/// An application image in a partition of `partition_len` bytes: one segment
/// of `segment_len` bytes holding the descriptor, then (optionally) the digest.
fn partition(project: &[u8], segment_len: u32, hash_appended: bool, partition_len: usize) -> (Vec<u8>, usize) {
    let mut p = vec![0xFFu8; partition_len];
    put(&mut p, 0, &[0xE9, 1, 2, 0x40]);
    put(&mut p, 4, &0x4037_5678u32.to_le_bytes());
    put(&mut p, 12, &9u16.to_le_bytes());
    p[23] = hash_appended as u8;
    put(&mut p, 24, &0x3C00_0000u32.to_le_bytes());
    put(&mut p, 28, &segment_len.to_le_bytes());
    put(&mut p, 32, &0xABCD_5432u32.to_le_bytes());
    put(&mut p, 36, &3u32.to_le_bytes());
    let mut text = [0u8; 112];
    text[..5].copy_from_slice(b"1.2.3");
    text[32..32 + project.len()].copy_from_slice(project);
    text[64..72].copy_from_slice(b"12:00:00");
    text[80..91].copy_from_slice(b"Jan 01 2025");
    put(&mut p, 48, &text);
    put(&mut p, 144, &[0u8; 32]);
    put(&mut p, 176, &[7u8; 32]);
    let cursor = 24 + 8 + segment_len as usize;
    let image_len = (cursor + 1 + 15) / 16 * 16;
    if hash_appended {
        let digest = Sha256::digest(&p[..image_len]);
        let digest: [u8; 32] = digest.into();
        put(&mut p, image_len, &digest);
    }
    (p, image_len)
}

fn inspect(p: &[u8], expected: Option<usize>, project: &[u8]) -> PartitionInfo {
    let mut inspector = Inspector::new(p.len() as u32, expected, project);
    while let Some((offset, length)) = inspector.next_read() {
        let offset = offset as usize;
        let data = if offset < p.len() && offset + length <= p.len() { Some(&p[offset..offset + length]) } else { None };
        inspector.feed(data);
    }
    assert!(inspector.is_done());
    inspector.info()
}

fn status_text(info: Option<PartitionInfo>) -> String {
    String::from_utf8(info.into_compact_format().text()).unwrap()
}

#[test]
fn verified_image_of_this_project_is_available() {
    let (p, image_len) = partition(PROJECT, 1000, true, 8192);
    assert_eq!(image_len, 1040);
    let info = inspect(&p, Some(1072), PROJECT);
    assert_eq!(info.state, PartitionState::Available);
    assert_eq!(info.segment_count, Some(1));
    assert_eq!(info.entry_address, Some(0x4037_5678));
    assert_eq!(info.chip_id, Some(9));
    assert_eq!(info.hash_appended, Some(true));
    assert_eq!(info.secure_version, Some(3));
    let expected: [u8; 32] = Sha256::digest(&p[..1040]).into();
    assert_eq!(info.digest_sha256, Some(expected));
    assert_eq!(info.sha256, Some([7u8; 32]));
    assert!(info.activatable());
}

#[test]
fn verified_image_of_another_project_is_foreign() {
    let (p, _) = partition(b"another-firmware", 1000, true, 8192);
    let info = inspect(&p, None, PROJECT);
    assert_eq!(info.state, PartitionState::Foreign);
    assert!(info.activatable());
}

#[test]
fn image_without_digest_is_unverified() {
    let (p, image_len) = partition(PROJECT, 5000, false, 8192);
    let info = inspect(&p, None, PROJECT);
    assert_eq!(info.state, PartitionState::Unverified);
    let expected: [u8; 32] = Sha256::digest(&p[..image_len]).into();
    assert_eq!(info.digest_sha256, Some(expected));
}

#[test]
fn wrong_appended_digest_is_broken() {
    let (mut p, image_len) = partition(PROJECT, 1000, true, 8192);
    p[image_len] ^= 1;
    let info = inspect(&p, None, PROJECT);
    assert_eq!(info.state, PartitionState::Broken);
    assert!(info.digest_sha256.is_some());
    assert!(!info.activatable());
}

#[test]
fn unexpected_length_is_broken() {
    let (p, _) = partition(PROJECT, 1000, true, 8192);
    assert_eq!(inspect(&p, Some(1040), PROJECT).state, PartitionState::Broken);
    assert_eq!(inspect(&p, Some(1072), PROJECT).state, PartitionState::Available);
}

#[test]
fn erased_partition_is_empty() {
    let p = vec![0xFFu8; 4096];
    let info = inspect(&p, None, PROJECT);
    assert_eq!(info.state, PartitionState::Empty);
    assert_eq!(status_text(Some(info)), "Empty|/|/|/|/|/|/|/|/|/|/|/");
}

#[test]
fn image_without_descriptor_is_unknown() {
    let (mut p, _) = partition(PROJECT, 1000, true, 8192);
    p[32] = 0;
    let info = inspect(&p, None, PROJECT);
    assert_eq!(info.state, PartitionState::Unknown);
    assert_eq!(info.segment_count, Some(1));
    assert!(info.version.is_none());
}

#[test]
fn too_many_segments_is_broken() {
    let (mut p, _) = partition(PROJECT, 1000, true, 8192);
    p[1] = 17;
    let info = inspect(&p, None, PROJECT);
    assert_eq!(info.state, PartitionState::Broken);
    assert!(info.version.is_some());
    assert_eq!(info.digest_sha256, None);
}

#[test]
fn unaligned_segment_is_broken() {
    let (p, _) = partition(PROJECT, 1001, true, 8192);
    assert_eq!(inspect(&p, None, PROJECT).state, PartitionState::Broken);
}

#[test]
fn image_longer_than_partition_is_broken() {
    let (p, _) = partition(PROJECT, 1000, false, 8192);
    let q = p[..1024].to_vec();
    assert_eq!(inspect(&q, None, PROJECT).state, PartitionState::Broken);
}

#[test]
fn unreadable_partition_is_unavailable() {
    let p = vec![0xE9u8; 100];
    let info = inspect(&p, None, PROJECT);
    assert_eq!(info.state, PartitionState::Unavailable);
    assert_eq!(status_text(None), "/");
}

#[test]
fn status_text_lists_all_fields() {
    let (p, _) = partition(PROJECT, 1000, true, 8192);
    let info = inspect(&p, None, PROJECT);
    let text = status_text(Some(info));
    let fields: Vec<&str> = text.split('|').collect();
    assert_eq!(fields.len(), 12);
    assert_eq!(fields[0], "Available");
    assert_eq!(fields[1], "1");
    assert_eq!(fields[2], &format!("{}", 0x4037_5678u32));
    assert_eq!(fields[3], "9");
    assert_eq!(fields[4], "1");
    assert_eq!(fields[5], "3");
    assert_eq!(fields[6], "1.2.3");
    assert_eq!(fields[7], "ayachi-door-access");
    assert_eq!(fields[8], "12:00:00");
    assert_eq!(fields[9], "Jan 01 2025");
    assert_eq!(fields[10], vec!["7"; 32].join(";"));
    assert_eq!(fields[11].split(';').count(), 32);
}
