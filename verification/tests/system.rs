use ayachi_door_access::error::{OtaError, SystemError};
use ayachi_door_access::http::progress_reply;
use ayachi_door_access::image::{PartitionInfo, PartitionState};
use ayachi_door_access::system::{PartitionSlot, System, Upload, UploadRequest, UploadState};
use sha2::{Digest, Sha256};

const PROJECT: &[u8] = b"ayachi-door-access";
const SLOT: u32 = 4 * 65536;

/// An application `.bin`: headers, one segment, padding, appended digest.
fn image_file(project: &[u8]) -> Vec<u8> {
    let segment_len = 1000u32;
    let mut p = vec![0u8; 1040];
    p[0] = 0xE9;
    p[1] = 1;
    p[23] = 1;
    p[28..32].copy_from_slice(&segment_len.to_le_bytes());
    p[32..36].copy_from_slice(&0xABCD_5432u32.to_le_bytes());
    p[80..80 + project.len()].copy_from_slice(project);
    let digest: [u8; 32] = Sha256::digest(&p).into();
    p.extend_from_slice(&digest);
    p
}

fn read(flash: &[u8], offset: u32, length: usize) -> Option<&[u8]> {
    let offset = offset as usize;
    if offset < flash.len() && offset + length <= flash.len() { Some(&flash[offset..offset + length]) } else { None }
}

/// Runs an upload against `flash`, feeding `file` in pieces of at most `piece` bytes.
fn run(system: &mut System, upload: &mut Upload, flash: &mut Vec<u8>, file: &[u8], piece: usize) {
    let mut sent = 0;
    loop {
        match upload.request(system) {
            UploadRequest::Erase { from, to } => {
                for b in &mut flash[from as usize..to as usize] {
                    *b = 0xFF;
                }
                upload.erased(system, Ok(()));
            }
            UploadRequest::Receive { capacity } => {
                let n = capacity.min(piece).min(file.len() - sent);
                upload.received(system, Ok(&file[sent..sent + n]));
                sent += n;
            }
            UploadRequest::Write { offset, length } => {
                let bytes = upload.pending().to_vec();
                assert_eq!(bytes.len(), length);
                flash[offset as usize..offset as usize + length].copy_from_slice(&bytes);
                upload.written(system, Ok(()));
            }
            UploadRequest::Read { offset, length } => {
                let data = read(flash, offset, length).map(|d| d.to_vec());
                upload.read(system, data.as_deref());
            }
            UploadRequest::Finished => break,
        }
    }
}

fn system() -> System {
    System::new(PROJECT, Some(SLOT), Some(SLOT), Some(SLOT))
}

fn state(info: Option<PartitionInfo>) -> Option<PartitionState> {
    info.map(|i| i.state)
}

#[test]
fn upload_writes_and_identifies_the_image() {
    let mut sys = system();
    let file = image_file(PROJECT);
    let mut flash = vec![0u8; SLOT as usize];
    let mut up = sys.begin_upload(file.len()).unwrap();
    assert!(sys.is_uploading());
    assert_eq!(sys.get_process().state, UploadState::Erasing);
    assert_eq!(sys.get_process().erase, [0, 65536]);
    run(&mut sys, &mut up, &mut flash, &file, 300);
    assert_eq!(up.result(), Some(Ok(())));
    assert!(!sys.is_uploading());
    let process = sys.get_process();
    assert_eq!(process.state, UploadState::Ready);
    assert_eq!(process.message, None);
    assert_eq!(process.erase, [65536, 65536]);
    assert_eq!(process.write, [1072, 1072]);
    assert_eq!(&flash[..1072], &file[..]);
    assert_eq!(flash[1072], 0xFF);
    assert_eq!(state(sys.get_partition_info(PartitionSlot::Next)), Some(PartitionState::Available));
    assert_eq!(progress_reply(sys.is_uploading(), sys.get_process()).as_str(), "false|Ready|/|65536;65536|1072;1072");
}

#[test]
fn upload_of_several_sectors() {
    let mut sys = system();
    // a longer image, without appended digest: one segment of 9000 bytes
    let segment_len = 9000u32;
    let mut file = vec![0u8; 9040];
    file[0] = 0xE9;
    file[1] = 1;
    file[28..32].copy_from_slice(&segment_len.to_le_bytes());
    file[32..36].copy_from_slice(&0xABCD_5432u32.to_le_bytes());
    let mut flash = vec![0u8; SLOT as usize];
    let mut up = sys.begin_upload(file.len()).unwrap();
    run(&mut sys, &mut up, &mut flash, &file, 4096);
    assert_eq!(up.result(), Some(Ok(())));
    assert_eq!(&flash[..9040], &file[..]);
    assert_eq!(sys.get_process().state, UploadState::Ready);
    assert_eq!(state(sys.get_partition_info(PartitionSlot::Next)), Some(PartitionState::Unverified));
}

#[test]
fn broken_upload_ends_failed() {
    let mut sys = system();
    let mut file = image_file(PROJECT);
    file[1000] ^= 0xFF;
    let mut flash = vec![0u8; SLOT as usize];
    let mut up = sys.begin_upload(file.len()).unwrap();
    run(&mut sys, &mut up, &mut flash, &file, 512);
    assert_eq!(up.result(), Some(Ok(())));
    assert_eq!(sys.get_process().state, UploadState::Failed);
    assert_eq!(state(sys.get_partition_info(PartitionSlot::Next)), Some(PartitionState::Broken));
    assert_eq!(sys.activate_next(), Err(SystemError::OTA(OtaError::InvalidImage)));
}

#[test]
fn upload_size_must_be_whole_words() {
    let mut sys = system();
    assert_eq!(sys.begin_upload(0).err(), Some(SystemError::OTA(OtaError::NotSupported)));
    assert_eq!(sys.begin_upload(1073).err(), Some(SystemError::OTA(OtaError::NotSupported)));
    assert_eq!(sys.get_process().state, UploadState::Idle);
    assert!(!sys.is_uploading());
}

#[test]
fn one_upload_at_a_time() {
    let mut sys = system();
    let _first = sys.begin_upload(1072).unwrap();
    assert_eq!(sys.begin_upload(1072).err(), Some(SystemError::Uploading));
    assert_eq!(sys.get_process().state, UploadState::Erasing);
}

#[test]
fn upload_without_next_slot_is_not_supported() {
    let mut sys = System::new(PROJECT, Some(SLOT), Some(SLOT), None);
    assert_eq!(sys.begin_upload(1072).err(), Some(SystemError::OTA(OtaError::NotSupported)));
    let p = sys.get_process();
    assert_eq!(p.state, UploadState::Received);
    assert_eq!(p.message, Some(SystemError::OTA(OtaError::NotSupported)));
    assert!(!sys.is_uploading());
}

#[test]
fn upload_larger_than_slot_is_out_of_memory() {
    let mut sys = system();
    assert_eq!(sys.begin_upload(SLOT as usize + 4).err(), Some(SystemError::OutOfMemory));
    assert_eq!(sys.get_process().message, Some(SystemError::OutOfMemory));
    assert!(!sys.is_uploading());
}

#[test]
fn short_stream_is_incomplete() {
    let mut sys = system();
    let file = image_file(PROJECT);
    let mut flash = vec![0u8; SLOT as usize];
    let mut up = sys.begin_upload(file.len() + 8).unwrap();
    run(&mut sys, &mut up, &mut flash, &file, 1024);
    assert_eq!(up.result(), Some(Err(SystemError::Incomplete)));
    let p = sys.get_process();
    assert_eq!(p.state, UploadState::Writing);
    assert_eq!(p.message, Some(SystemError::Incomplete));
    assert!(!sys.is_uploading());
    assert!(sys.get_partition_info(PartitionSlot::Next).is_some());
    assert_eq!(progress_reply(false, p).as_str(), "false|Writing|Incomplete|65536;65536|0;1080");
}

#[test]
fn long_stream_is_out_of_memory() {
    let mut sys = system();
    let file = image_file(PROJECT);
    let mut flash = vec![0u8; SLOT as usize];
    let mut up = sys.begin_upload(file.len() - 4).unwrap();
    run(&mut sys, &mut up, &mut flash, &file, 1024);
    assert_eq!(up.result(), Some(Err(SystemError::OutOfMemory)));
    assert_eq!(sys.get_process().message, Some(SystemError::OutOfMemory));
}

#[test]
fn failed_erase_is_reported_and_slot_reinspected() {
    let mut sys = system();
    let mut up = sys.begin_upload(1072).unwrap();
    match up.request(&sys) {
        UploadRequest::Erase { from, to } => {
            assert_eq!((from, to), (0, 65536));
        }
        other => panic!("unexpected request {:?}", other),
    }
    up.erased(&mut sys, Err(OtaError::WriteProtected));
    assert!(sys.is_uploading());
    assert_eq!(sys.activate_next(), Err(SystemError::Uploading));
    let flash = vec![0xFFu8; SLOT as usize];
    loop {
        match up.request(&sys) {
            UploadRequest::Read { offset, length } => {
                let data = read(&flash, offset, length).map(|d| d.to_vec());
                up.read(&mut sys, data.as_deref());
            }
            UploadRequest::Finished => break,
            other => panic!("unexpected request {:?}", other),
        }
    }
    assert_eq!(up.result(), Some(Err(SystemError::OTA(OtaError::WriteProtected))));
    assert!(!sys.is_uploading());
    assert_eq!(sys.get_process().state, UploadState::Erasing);
    assert_eq!(state(sys.get_partition_info(PartitionSlot::Next)), Some(PartitionState::Empty));
}

#[test]
fn activation_counts_down_then_reboots() {
    let mut sys = system();
    let file = image_file(PROJECT);
    let mut flash = vec![0u8; SLOT as usize];
    let mut up = sys.begin_upload(file.len()).unwrap();
    run(&mut sys, &mut up, &mut flash, &file, 2048);
    assert_eq!(sys.activate_countdown(), None);
    assert_eq!(sys.activate_next(), Ok(()));
    assert_eq!(sys.finish_activation(Ok(())), Ok(()));
    assert_eq!(sys.activate_countdown(), Some(5));
    for left in (0..5).rev() {
        sys.countdown_tick();
        assert_eq!(sys.activate_countdown(), Some(left));
    }
    assert!(sys.countdown_finish());
}

#[test]
fn failed_switch_starts_no_countdown() {
    let mut sys = system();
    assert_eq!(sys.finish_activation(Err(OtaError::InvalidPartition { expected_size: 8192 })),
        Err(SystemError::OTA(OtaError::InvalidPartition { expected_size: 8192 })));
    assert_eq!(sys.activate_countdown(), None);
}

#[test]
fn activation_refusals() {
    let sys = System::new(PROJECT, Some(SLOT), Some(SLOT), None);
    assert_eq!(sys.activate_next(), Err(SystemError::OTA(OtaError::NotSupported)));
    let mut sys = system();
    assert_eq!(sys.activate_next(), Err(SystemError::OTA(OtaError::InvalidImage)));
    let mut info = PartitionInfo::blank();
    info.state = PartitionState::Unverified;
    sys.set_info(PartitionSlot::Next, info);
    assert_eq!(sys.activate_next(), Ok(()));
    let _up = sys.begin_upload(1072).unwrap();
    assert_eq!(sys.check_activatable(), Err(SystemError::Uploading));
    assert_eq!(sys.activate_next(), Err(SystemError::Uploading));
    sys.set_info(PartitionSlot::Next, info);
    assert_eq!(sys.check_activatable(), Err(SystemError::Uploading));
}

#[test]
fn countdown_dropped_when_image_no_longer_bootable() {
    let mut sys = system();
    let mut info = PartitionInfo::blank();
    info.state = PartitionState::Available;
    sys.set_info(PartitionSlot::Next, info);
    assert_eq!(sys.finish_activation(Ok(())), Ok(()));
    sys.set_info(PartitionSlot::Next, PartitionInfo::blank());
    assert!(!sys.countdown_finish());
    assert_eq!(sys.activate_countdown(), None);
}

#[test]
fn partition_infos_and_inspectors() {
    let sys = System::new(PROJECT, Some(SLOT), None, Some(SLOT));
    let infos = sys.get_partition_infos();
    assert_eq!(infos.iter().map(|i| state(*i)).collect::<Vec<_>>(),
        vec![Some(PartitionState::Unavailable), None, Some(PartitionState::Unavailable)]);
    assert!(sys.inspector(PartitionSlot::Current).is_none());
    assert!(sys.inspector(PartitionSlot::Factory).is_some());
    assert_eq!(sys.project(), PROJECT);
}
