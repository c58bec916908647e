use ayachi_door_access::door::{DoorEvent, DoorState};
use ayachi_door_access::error::{OtaError, SystemError};
use ayachi_door_access::http::{
    activation_reply, countdown_reply, door_status_text, maintenance_redirect, open_once, partition_status_reply,
    progress_reply, set_open, upload_reply, MaintenanceRedirect, STATUS_BAD_REQUEST, STATUS_OK,
};
use ayachi_door_access::image::{PartitionInfo, PartitionState};
use ayachi_door_access::system::{UploadProcess, UploadState};
use ayachi_door_access::text::TextBytes;

#[test]
fn during_activation_only_reboot_paths_are_served() {
    for path in ["/system/resetting", "/system/activate/countdown", "/logo", "/favicon.ico"] {
        assert_eq!(maintenance_redirect(true, path), None);
    }
    for path in ["/", "/status", "/open", "/system/", "/system/upload", "/logo/"] {
        assert_eq!(maintenance_redirect(true, path), Some(MaintenanceRedirect::ToResetting));
    }
    assert_eq!(MaintenanceRedirect::ToResetting.location(), "/system/resetting");
}

#[test]
fn reboot_paths_redirect_when_not_activating() {
    for path in ["/system/resetting", "/system/activate/countdown"] {
        assert_eq!(maintenance_redirect(false, path), Some(MaintenanceRedirect::ToSystem));
    }
    for path in ["/", "/logo", "/favicon.ico", "/system/status", "/system/resetting/"] {
        assert_eq!(maintenance_redirect(false, path), None);
    }
    assert_eq!(MaintenanceRedirect::ToSystem.location(), "/system/");
}

#[test]
fn door_replies() {
    assert_eq!(door_status_text(DoorState::Open), "open");
    assert_eq!(door_status_text(DoorState::Lock), "lock");
    let r = set_open(0);
    assert_eq!((r.status, r.body, r.event), (STATUS_OK, "Door set to locked", Some(DoorEvent::Lock)));
    let r = set_open(1);
    assert_eq!((r.status, r.body, r.event), (STATUS_OK, "Door set to opened", Some(DoorEvent::Open)));
    let r = set_open(2);
    assert_eq!((r.status, r.body, r.event), (STATUS_BAD_REQUEST, "Invalid state", None));
    assert_eq!(open_once(), ("Successfully open door for once", DoorEvent::OpenOnce));
}

#[test]
fn activation_and_upload_replies() {
    let r = activation_reply(Ok(()));
    assert_eq!((r.status, r.body.as_str()), (STATUS_OK, "Activating"));
    let r = activation_reply(Err(SystemError::OTA(OtaError::InvalidImage)));
    assert_eq!((r.status, r.body.as_str()), (STATUS_BAD_REQUEST, "OTA(InvalidImage)"));
    let r = activation_reply(Err(SystemError::Uploading));
    assert_eq!(r.body.as_str(), "Uploading");
    let r = upload_reply(Ok(()));
    assert_eq!((r.status, r.body.as_str()), (STATUS_OK, "Upload successfully"));
    let r = upload_reply(Err(SystemError::Incomplete));
    assert_eq!((r.status, r.body.as_str()), (STATUS_BAD_REQUEST, "Incomplete"));
    let r = upload_reply(Err(SystemError::OTA(OtaError::InvalidPartition { expected_size: 8192 })));
    assert_eq!(r.body.as_str(), "OTA(InvalidPartition { expected_size: 8192, expected_type: Data(Ota) })");
    for e in [OtaError::Invalid, OtaError::OutOfBounds, OtaError::StorageError, OtaError::WriteProtected,
        OtaError::InvalidState, OtaError::InvalidArgument, OtaError::NotSupported] {
        let r = upload_reply(Err(SystemError::OTA(e)));
        assert_eq!(r.body.as_str(), format!("OTA({:?})", e));
    }
    assert_eq!(upload_reply(Err(SystemError::WriteFailure)).body.as_str(), "WriteFailure");
    assert_eq!(upload_reply(Err(SystemError::OutOfMemory)).body.as_str(), "OutOfMemory");
}

#[test]
fn countdown_and_status_replies() {
    assert_eq!(countdown_reply(Some(5)).as_str(), "5");
    assert_eq!(countdown_reply(None).as_str(), "/");
    assert_eq!(countdown_reply(Some(4294967294)).as_str(), "4294967294");
    assert_eq!(partition_status_reply(None).as_str(), "/");
}

#[test]
fn progress_replies() {
    let idle = UploadProcess::default();
    assert_eq!(progress_reply(false, idle).as_str(), "false|Idle|/|0;0|0;0");
    let p = UploadProcess {
        state: UploadState::Erasing,
        message: None,
        erase: [65536, 131072],
        write: [0, 0],
    };
    assert_eq!(progress_reply(true, p).as_str(), "true|Erasing|/|65536;131072|0;0");
    let long = UploadProcess {
        state: UploadState::Identifying,
        message: Some(SystemError::OTA(OtaError::WriteProtected)),
        erase: [4294967295, 4294967295],
        write: [4294967295, 4294967295],
    };
    assert_eq!(progress_reply(false, long).as_str(), "truncated");
}

#[test]
fn longest_status_text_fits_its_reply() {
    let info = PartitionInfo {
        state: PartitionState::Unavailable,
        segment_count: Some(255),
        entry_address: Some(u32::MAX),
        chip_id: Some(u16::MAX),
        hash_appended: Some(true),
        secure_version: Some(u32::MAX),
        version: Some(TextBytes([b'v'; 32])),
        project: Some(TextBytes([b'p'; 32])),
        time: Some(TextBytes([b't'; 16])),
        date: Some(TextBytes([b'd'; 16])),
        sha256: Some([255; 32]),
        digest_sha256: Some([200; 32]),
    };
    let reply = partition_status_reply(Some(info));
    assert_eq!(reply.as_str().len(), 401);
    assert!(reply.as_str().starts_with("Unavailable|255|4294967295|65535|1|4294967295|vvvv"));
    assert!(reply.as_str().ends_with("|200;200;200;200;200;200;200;200;200;200;200;200;200;200;200;200;200;200;200;200;200;200;200;200;200;200;200;200;200;200;200;200"));
}
