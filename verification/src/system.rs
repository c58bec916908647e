//! The firmware-update bookkeeping: the partitions and what is known of them,
//! the upload in progress, and the countdown to the reboot into a new image.
//!
//! Flash access is the caller's: an [`Upload`] says which erase, read or write
//! it needs next and takes the outcome.

use vstd::prelude::*;
use vstd::string::*;
use crate::error::{OtaError, SystemError};
use crate::flash::{BLOCK_SIZE, ERASE_SIZE, SECTOR_SIZE, WRITE_SIZE, calculate_erase_distribution, erase_plan};
use crate::image::{
    Inspector, InspectorView, InspectPhase, PartitionInfo, PartitionInfoView, PartitionState, blank_info, bar, inspect_request,
    inspect_start, inspect_step, opt_bytes, push_field, state_activatable, MAX_PARTITION_LENGTH,
};
use crate::text::{CompactFormat, is_ascii_bytes, lemma_ascii_str, push_all, push_str};

verus! {

/// Seconds between an activation and the reboot.
pub const COUNTDOWN_SECONDS: u32 = 5;

/// How far the current upload has come.
#[derive(Clone, Copy, Debug, PartialEq, Eq, Structural)]
pub enum UploadState {
    Idle,
    Received,
    Erasing,
    Writing,
    Identifying,
    Ready,
    Failed,
}

impl Default for UploadState {
    fn default() -> (r: Self)
        ensures
            r == UploadState::Idle,
    {
        UploadState::Idle
    }
}

/// The name of an upload state.
pub open spec fn upload_state_name(s: UploadState) -> Seq<u8> {
    match s {
        UploadState::Idle => "Idle".spec_bytes(),
        UploadState::Received => "Received".spec_bytes(),
        UploadState::Erasing => "Erasing".spec_bytes(),
        UploadState::Writing => "Writing".spec_bytes(),
        UploadState::Identifying => "Identifying".spec_bytes(),
        UploadState::Ready => "Ready".spec_bytes(),
        UploadState::Failed => "Failed".spec_bytes(),
    }
}

impl CompactFormat for UploadState {
    open spec fn compact_text(&self) -> Seq<u8> {
        upload_state_name(*self)
    }

    fn compact_format(&self, out: &mut Vec<u8>) {
        match self {
            UploadState::Idle => {
                proof { reveal_strlit("Idle"); lemma_ascii_str("Idle"); }
                push_str(out, "Idle");
            },
            UploadState::Received => {
                proof { reveal_strlit("Received"); lemma_ascii_str("Received"); }
                push_str(out, "Received");
            },
            UploadState::Erasing => {
                proof { reveal_strlit("Erasing"); lemma_ascii_str("Erasing"); }
                push_str(out, "Erasing");
            },
            UploadState::Writing => {
                proof { reveal_strlit("Writing"); lemma_ascii_str("Writing"); }
                push_str(out, "Writing");
            },
            UploadState::Identifying => {
                proof { reveal_strlit("Identifying"); lemma_ascii_str("Identifying"); }
                push_str(out, "Identifying");
            },
            UploadState::Ready => {
                proof { reveal_strlit("Ready"); lemma_ascii_str("Ready"); }
                push_str(out, "Ready");
            },
            UploadState::Failed => {
                proof { reveal_strlit("Failed"); lemma_ascii_str("Failed"); }
                push_str(out, "Failed");
            },
        }
    }
}

/// Progress of the current (or last) upload.
#[derive(Clone, Copy)]
pub struct UploadProcess {
    pub state: UploadState,
    /// The error the upload ended with.
    pub message: Option<SystemError>,
    /// Bytes erased so far, and bytes to erase.
    pub erase: [u32; 2],
    /// Bytes written so far, and bytes to write.
    pub write: [u32; 2],
}

/// No upload yet.
pub open spec fn idle_process() -> UploadProcess {
    UploadProcess { state: UploadState::Idle, message: None, erase: [0u32, 0u32], write: [0u32, 0u32] }
}

impl Default for UploadProcess {
    fn default() -> (r: Self)
        ensures
            r == idle_process(),
    {
        UploadProcess { state: UploadState::Idle, message: None, erase: [0u32, 0u32], write: [0u32, 0u32] }
    }
}

/// `state|message|erased;to_erase|written;to_write`
pub open spec fn upload_process_text(p: UploadProcess) -> Seq<u8> {
    p.state.compact_text() + bar() + p.message.compact_text() + bar() + p.erase.compact_text() + bar()
        + p.write.compact_text()
}

impl CompactFormat for UploadProcess {
    open spec fn compact_text(&self) -> Seq<u8> {
        upload_process_text(*self)
    }

    fn compact_format(&self, out: &mut Vec<u8>) {
        let mut text: Vec<u8> = Vec::new();
        self.state.compact_format(&mut text);
        assert(text@ =~= self.state.compact_text());
        push_field(&mut text, &self.message);
        push_field(&mut text, &self.erase);
        push_field(&mut text, &self.write);
        assert(text@ =~= upload_process_text(*self));
        push_all(out, text.as_slice());
    }
}

/// The application partitions of the partition table.
#[derive(Clone, Copy, Debug, PartialEq, Eq, Structural)]
pub enum PartitionSlot {
    /// The factory image.
    Factory,
    /// The image that is running.
    Current,
    /// The inactive slot that updates go to.
    Next,
}

/// An application partition and what is known of its image.
#[derive(Clone, Copy)]
pub struct Partition {
    /// Size of the partition in bytes.
    pub length: u32,
    pub info: PartitionInfo,
}

impl Partition {
    /// A partition of `length` bytes of which nothing is known yet.
    pub fn new(length: u32) -> (r: Self)
        ensures
            r.length == length,
            r.info@ == blank_info(),
    {
        Partition { length, info: PartitionInfo::blank() }
    }
}

/// A partition and what is known of its image.
pub struct PartitionView {
    pub length: u32,
    pub info: PartitionInfoView,
}

pub open spec fn partition_view(p: Option<Partition>) -> Option<PartitionView> {
    match p {
        Some(p) => Some(PartitionView { length: p.length, info: p.info@ }),
        None => None,
    }
}

/// The state of the update machinery.
pub struct SystemView {
    pub uploading: bool,
    /// Seconds left before the reboot; `u32::MAX` when no activation is pending.
    pub countdown: u32,
    pub process: UploadProcess,
    pub factory: Option<PartitionView>,
    pub current: Option<PartitionView>,
    pub next: Option<PartitionView>,
    /// The project name this firmware's images carry.
    pub project: Seq<u8>,
}

pub open spec fn slot_of(v: SystemView, slot: PartitionSlot) -> Option<PartitionView> {
    match slot {
        PartitionSlot::Factory => v.factory,
        PartitionSlot::Current => v.current,
        PartitionSlot::Next => v.next,
    }
}

pub open spec fn info_view(i: Option<PartitionInfo>) -> Option<PartitionInfoView> {
    match i {
        Some(i) => Some(i@),
        None => None,
    }
}

pub open spec fn info_of(p: Option<PartitionView>) -> Option<PartitionInfoView> {
    match p {
        Some(p) => Some(p.info),
        None => None,
    }
}

/// Why the next partition cannot be activated now, if it cannot: there is no
/// next slot, an upload is running, or the slot holds nothing bootable, in
/// that order.
pub open spec fn activation_refusal(v: SystemView) -> Option<SystemError> {
    match v.next {
        None => Some(SystemError::OTA(OtaError::NotSupported)),
        Some(next) => if v.uploading {
            Some(SystemError::Uploading)
        } else if !state_activatable(next.info.state) {
            Some(SystemError::OTA(OtaError::InvalidImage))
        } else {
            None
        },
    }
}

pub open spec fn with_countdown(v: SystemView, countdown: u32) -> SystemView {
    SystemView { countdown: countdown, ..v }
}

pub open spec fn with_next_info(v: SystemView, info: PartitionInfoView) -> SystemView {
    match v.next {
        Some(n) => SystemView { next: Some(PartitionView { info: info, ..n }), ..v },
        None => v,
    }
}

/// `slot` (where there is such a partition) with `info` as what is known of it.
pub open spec fn with_slot_info(v: SystemView, slot: PartitionSlot, info: PartitionInfoView) -> SystemView {
    match slot {
        PartitionSlot::Factory => match v.factory {
            Some(p) => SystemView { factory: Some(PartitionView { info: info, ..p }), ..v },
            None => v,
        },
        PartitionSlot::Current => match v.current {
            Some(p) => SystemView { current: Some(PartitionView { info: info, ..p }), ..v },
            None => v,
        },
        PartitionSlot::Next => with_next_info(v, info),
    }
}

/// The update machinery: partitions, upload progress, activation countdown.
pub struct System {
    uploading: bool,
    activate_countdown: u32,
    process: UploadProcess,
    factory: Option<Partition>,
    current: Option<Partition>,
    next: Option<Partition>,
    project: Vec<u8>,
}

impl View for System {
    type V = SystemView;

    closed spec fn view(&self) -> SystemView {
        SystemView {
            uploading: self.uploading,
            countdown: self.activate_countdown,
            process: self.process,
            factory: partition_view(self.factory),
            current: partition_view(self.current),
            next: partition_view(self.next),
            project: self.project@,
        }
    }
}

/// A partition of the given size (or none), of which nothing is known yet.
pub open spec fn fresh_slot(p: Option<PartitionView>, length: Option<u32>) -> bool {
    match length {
        Some(l) => p matches Some(p) && p.length == l && p.info == blank_info(),
        None => p is None,
    }
}

pub open spec fn slot_fits(p: Option<PartitionView>) -> bool {
    p matches Some(p) ==> p.length <= MAX_PARTITION_LENGTH
}

impl System {
    /// Partitions are small enough to be inspected.
    pub open spec fn wf(&self) -> bool {
        &&& slot_fits(self@.factory)
        &&& slot_fits(self@.current)
        &&& slot_fits(self@.next)
    }

    /// The machinery for the partitions found in the partition table (their
    /// sizes), before anything is known of their images; `project` is the name
    /// this firmware's images carry.
    pub fn new(project: &[u8], factory: Option<u32>, current: Option<u32>, next: Option<u32>) -> (r: Self)
        requires
            factory matches Some(l) ==> l <= MAX_PARTITION_LENGTH,
            current matches Some(l) ==> l <= MAX_PARTITION_LENGTH,
            next matches Some(l) ==> l <= MAX_PARTITION_LENGTH,
        ensures
            r.wf(),
            r@.uploading == false,
            r@.countdown == u32::MAX,
            r@.process == idle_process(),
            r@.project == project@,
            fresh_slot(r@.factory, factory),
            fresh_slot(r@.current, current),
            fresh_slot(r@.next, next),
    {
        let mut copy: Vec<u8> = Vec::new();
        push_all(&mut copy, project);
        assert(copy@ =~= project@);
        System {
            uploading: false,
            activate_countdown: u32::MAX,
            process: UploadProcess::default(),
            factory: match factory { Some(l) => Some(Partition::new(l)), None => None },
            current: match current { Some(l) => Some(Partition::new(l)), None => None },
            next: match next { Some(l) => Some(Partition::new(l)), None => None },
            project: copy,
        }
    }

    /// The project name this firmware's images carry.
    pub fn project(&self) -> (r: &[u8])
        ensures
            r@ == self@.project,
    {
        self.project.as_slice()
    }

    /// Whether an upload is running.
    pub fn is_uploading(&self) -> (r: bool)
        ensures
            r == self@.uploading,
    {
        self.uploading
    }

    /// Seconds left before the reboot, while an activation is pending.
    pub fn activate_countdown(&self) -> (r: Option<u32>)
        ensures
            r == (if self@.countdown != u32::MAX { Some(self@.countdown) } else { None }),
    {
        if self.activate_countdown != u32::MAX {
            Some(self.activate_countdown)
        } else {
            None
        }
    }

    /// Progress of the current (or last) upload.
    pub fn get_process(&self) -> (r: UploadProcess)
        ensures
            r == self@.process,
    {
        self.process
    }

    fn partition(&self, slot: PartitionSlot) -> (r: Option<Partition>)
        ensures
            partition_view(r) == slot_of(self@, slot),
    {
        match slot {
            PartitionSlot::Factory => self.factory,
            PartitionSlot::Current => self.current,
            PartitionSlot::Next => self.next,
        }
    }

    /// What is known of the image in `slot`; `None` when the partition table
    /// has no such partition.
    pub fn get_partition_info(&self, slot: PartitionSlot) -> (r: Option<PartitionInfo>)
        ensures
            info_view(r) == info_of(slot_of(self@, slot)),
    {
        match self.partition(slot) {
            Some(p) => Some(p.info),
            None => None,
        }
    }

    /// What is known of the factory, current and next images.
    pub fn get_partition_infos(&self) -> (r: [Option<PartitionInfo>; 3])
        ensures
            r@.map_values(|i: Option<PartitionInfo>| info_view(i))
                == seq![info_of(self@.factory), info_of(self@.current), info_of(self@.next)],
    {
        let r = [
            self.get_partition_info(PartitionSlot::Factory),
            self.get_partition_info(PartitionSlot::Current),
            self.get_partition_info(PartitionSlot::Next),
        ];
        assert(r@.map_values(|i: Option<PartitionInfo>| info_view(i))
            =~= seq![info_of(self@.factory), info_of(self@.current), info_of(self@.next)]);
        r
    }

    /// Records what is known of the image in `slot` (no effect when there is no
    /// such partition).
    pub fn set_info(&mut self, slot: PartitionSlot, info: PartitionInfo)
        ensures
            final(self).wf() == old(self).wf(),
            final(self)@ == with_slot_info(old(self)@, slot, info@),
    {
        match slot {
            PartitionSlot::Factory => {
                if let Some(p) = self.factory {
                    self.factory = Some(Partition { info, ..p });
                }
            },
            PartitionSlot::Current => {
                if let Some(p) = self.current {
                    self.current = Some(Partition { info, ..p });
                }
            },
            PartitionSlot::Next => {
                if let Some(p) = self.next {
                    self.next = Some(Partition { info, ..p });
                }
            },
        }
    }

    /// An inspection of the image in `slot`, or `None` when there is no such
    /// partition.
    pub fn inspector(&self, slot: PartitionSlot) -> (r: Option<Inspector>)
        requires
            self.wf(),
        ensures
            slot_of(self@, slot) is None ==> r is None,
            slot_of(self@, slot) matches Some(p) ==> r matches Some(i) && i.wf()
                && i@ == inspect_start(p.length as nat, None, self@.project),
    {
        match self.partition(slot) {
            Some(p) => Some(Inspector::new(p.length, None, self.project.as_slice())),
            None => None,
        }
    }

    /// Whether the next partition may be activated: there is one, no upload
    /// is running, and its image may be booted.
    pub fn check_activatable(&self) -> (r: Result<(), SystemError>)
        ensures
            match activation_refusal(self@) {
                Some(e) => r == Err::<(), SystemError>(e),
                None => r is Ok,
            },
    {
        let info = match self.get_partition_info(PartitionSlot::Next) {
            Some(info) => info,
            None => return Err(SystemError::OTA(OtaError::NotSupported)),
        };
        if self.is_uploading() {
            return Err(SystemError::Uploading);
        }
        if !info.activatable() {
            return Err(SystemError::OTA(OtaError::InvalidImage));
        }
        Ok(())
    }

    /// Asks to boot the next partition. `Ok` means the boot slot may be
    /// switched now; once it is, [`System::finish_activation`] starts the
    /// countdown.
    pub fn activate_next(&self) -> (r: Result<(), SystemError>)
        ensures
            match activation_refusal(self@) {
                Some(e) => r == Err::<(), SystemError>(e),
                None => r is Ok,
            },
    {
        self.check_activatable()
    }

    /// The boot slot switch ended with `switched`: on success the countdown
    /// to the reboot starts.
    pub fn finish_activation(&mut self, switched: Result<(), OtaError>) -> (r: Result<(), SystemError>)
        ensures
            switched matches Err(e) ==> r == Err::<(), SystemError>(SystemError::OTA(e)) && final(self)@ == old(self)@,
            switched is Ok ==> r is Ok && final(self)@ == with_countdown(old(self)@, COUNTDOWN_SECONDS),
            final(self).wf() == old(self).wf(),
    {
        match switched {
            Err(e) => Err(SystemError::OTA(e)),
            Ok(()) => {
                self.activate_countdown = COUNTDOWN_SECONDS;
                Ok(())
            },
        }
    }

    /// One second of the countdown has passed.
    pub fn countdown_tick(&mut self)
        requires
            0 < old(self)@.countdown < u32::MAX,
        ensures
            final(self)@ == with_countdown(old(self)@, (old(self)@.countdown - 1) as u32),
            final(self).wf() == old(self).wf(),
    {
        self.activate_countdown = self.activate_countdown - 1;
    }

    /// The countdown is over: reboot (`true`) when the next partition may
    /// still be activated; otherwise the activation is dropped.
    pub fn countdown_finish(&mut self) -> (r: bool)
        ensures
            r == (activation_refusal(old(self)@) is None),
            r ==> final(self)@ == old(self)@,
            !r ==> final(self)@ == with_countdown(old(self)@, u32::MAX),
            final(self).wf() == old(self).wf(),
    {
        if self.check_activatable().is_ok() {
            true
        } else {
            self.activate_countdown = u32::MAX;
            false
        }
    }
}


/// Where an upload stands.
#[derive(Clone, Copy, Debug, PartialEq, Eq, Structural)]
pub enum UploadPhase {
    /// Erasing the target area.
    Erasing,
    /// Waiting for the next piece of the image.
    Receiving,
    /// Writing the buffered bytes.
    Writing,
    /// Inspecting the written image.
    Identifying,
    /// Inspecting the slot again after a failure.
    Reinspecting,
    /// Over.
    Finished,
}

/// The flash or stream work an upload waits for.
#[derive(Clone, Copy, Debug, PartialEq, Eq, Structural)]
pub enum UploadRequest {
    /// Erase `[from, to)` of the target partition.
    Erase { from: u32, to: u32 },
    /// Read up to `capacity` bytes of the image from the request body.
    Receive { capacity: usize },
    /// Write the buffered bytes ([`Upload::pending`]) at `offset` of the target partition.
    Write { offset: u32, length: usize },
    /// Read `length` bytes at `offset` of the target partition for the inspection.
    Read { offset: u32, length: usize },
    /// Nothing: the upload is over.
    Finished,
}

/// The state of an upload.
pub struct UploadView {
    pub phase: UploadPhase,
    pub file_size: nat,
    pub target_length: nat,
    pub blocks_left: nat,
    pub sectors_left: nat,
    pub erased: nat,
    pub written: nat,
    pub buffered: Seq<u8>,
    pub error: Option<SystemError>,
    pub inspection: InspectorView,
    pub result: Option<Result<(), SystemError>>,
}

pub open spec fn with_process(s: SystemView, p: UploadProcess) -> SystemView {
    SystemView { process: p, ..s }
}

/// The upload is over with `result`; no upload runs any more.
pub open spec fn upload_finished(s: SystemView, u: UploadView, result: Result<(), SystemError>) -> (SystemView, UploadView) {
    (SystemView { uploading: false, ..s }, UploadView { phase: UploadPhase::Finished, result: Some(result), ..u })
}

/// The upload failed with `e`: the error is recorded, and where the target
/// was already touched, it is inspected again before the upload ends.
pub open spec fn upload_fail(s: SystemView, u: UploadView, e: SystemError) -> (SystemView, UploadView) {
    let s1 = with_process(s, UploadProcess { message: Some(e), ..s.process });
    match s.next {
        Some(n) => if s.process.state != UploadState::Received {
            (s1, UploadView {
                phase: UploadPhase::Reinspecting,
                error: Some(e),
                inspection: inspect_start(n.length as nat, None, s.project),
                ..u
            })
        } else {
            upload_finished(s1, u, Err(e))
        },
        None => upload_finished(s1, u, Err(e)),
    }
}

/// The image is written: it is inspected, expecting the uploaded length.
pub open spec fn upload_identify(s: SystemView, u: UploadView) -> (SystemView, UploadView) {
    (
        with_process(s, UploadProcess { state: UploadState::Identifying, ..s.process }),
        UploadView {
            phase: UploadPhase::Identifying,
            inspection: inspect_start(u.target_length, Some(u.file_size as usize), s.project),
            ..u
        },
    )
}

/// What an upload waits for.
pub open spec fn upload_request(u: UploadView) -> UploadRequest {
    match u.phase {
        UploadPhase::Erasing => if u.blocks_left > 0 {
            UploadRequest::Erase { from: u.erased as u32, to: (u.erased + BLOCK_SIZE) as u32 }
        } else {
            UploadRequest::Erase { from: u.erased as u32, to: (u.erased + ERASE_SIZE) as u32 }
        },
        UploadPhase::Receiving => UploadRequest::Receive { capacity: (SECTOR_SIZE - u.buffered.len()) as usize },
        UploadPhase::Writing => UploadRequest::Write { offset: u.written as u32, length: u.buffered.len() as usize },
        UploadPhase::Identifying | UploadPhase::Reinspecting => match inspect_request(u.inspection) {
            Some((o, l)) => UploadRequest::Read { offset: o as u32, length: l as usize },
            None => UploadRequest::Finished,
        },
        UploadPhase::Finished => UploadRequest::Finished,
    }
}

/// An erase ended with `r`. Erasing goes block by block, then sector by
/// sector; once all is erased, writing starts.
pub open spec fn upload_erased(s: SystemView, u: UploadView, r: Result<(), OtaError>) -> (SystemView, UploadView) {
    match r {
        Err(e) => upload_fail(s, u, SystemError::OTA(e)),
        Ok(()) => {
            let unit: nat = if u.blocks_left > 0 { BLOCK_SIZE as nat } else { ERASE_SIZE as nat };
            let erased = u.erased + unit;
            let u1 = UploadView {
                erased: erased,
                blocks_left: if u.blocks_left > 0 { (u.blocks_left - 1) as nat } else { u.blocks_left },
                sectors_left: if u.blocks_left > 0 { u.sectors_left } else { (u.sectors_left - 1) as nat },
                ..u
            };
            let p1 = UploadProcess { erase: [erased as u32, s.process.erase[1]], ..s.process };
            if u1.blocks_left == 0 && u1.sectors_left == 0 {
                (
                    with_process(s, UploadProcess { state: UploadState::Writing, write: [0u32, u.file_size as u32], ..p1 }),
                    UploadView { phase: UploadPhase::Receiving, ..u1 },
                )
            } else {
                (with_process(s, p1), u1)
            }
        },
    }
}

/// Reading the request body gave `r`: a piece of the image (empty at the
/// end of the body) or an error. Pieces are gathered into sectors; a stream
/// that ends early or runs long fails the upload.
pub open spec fn upload_received(s: SystemView, u: UploadView, r: Result<Seq<u8>, SystemError>) -> (SystemView, UploadView) {
    match r {
        Err(e) => upload_fail(s, u, e),
        Ok(c) => if c.len() == 0 {
            if u.written + u.buffered.len() < u.file_size {
                upload_fail(s, u, SystemError::Incomplete)
            } else if u.buffered.len() > 0 {
                (s, UploadView { phase: UploadPhase::Writing, ..u })
            } else {
                upload_identify(s, u)
            }
        } else {
            let u1 = UploadView { buffered: u.buffered + c, ..u };
            if u.written + u1.buffered.len() > u.file_size {
                upload_fail(s, u, SystemError::OutOfMemory)
            } else if u1.buffered.len() == SECTOR_SIZE {
                (s, UploadView { phase: UploadPhase::Writing, ..u1 })
            } else {
                (s, u1)
            }
        },
    }
}

/// A write ended with `r`. After a full sector the next piece is awaited;
/// after the last, partial one the image is inspected.
pub open spec fn upload_written(s: SystemView, u: UploadView, r: Result<(), OtaError>) -> (SystemView, UploadView) {
    match r {
        Err(e) => upload_fail(s, u, SystemError::OTA(e)),
        Ok(()) => if u.buffered.len() == SECTOR_SIZE {
            let written = u.written + SECTOR_SIZE;
            (
                with_process(s, UploadProcess { write: [written as u32, s.process.write[1]], ..s.process }),
                UploadView { phase: UploadPhase::Receiving, written: written as nat, buffered: Seq::empty(), ..u },
            )
        } else {
            let s1 = with_process(s, UploadProcess {
                write: [(u.written + u.buffered.len()) as u32, s.process.write[1]],
                ..s.process
            });
            upload_identify(s1, u)
        },
    }
}

/// An inspection read gave `d`. When the inspection has decided, the slot's
/// info is recorded and the upload ends: after identifying, `Ready` or
/// `Failed` by whether the image may be booted; after a failure, with that
/// failure.
pub open spec fn upload_read(s: SystemView, u: UploadView, d: Option<Seq<u8>>) -> (SystemView, UploadView) {
    let i = inspect_step(u.inspection, d);
    let u1 = UploadView { inspection: i, ..u };
    if i.phase != InspectPhase::Done {
        (s, u1)
    } else if u.phase == UploadPhase::Identifying {
        let state = if state_activatable(i.info.state) { UploadState::Ready } else { UploadState::Failed };
        upload_finished(
            with_next_info(with_process(s, UploadProcess { state: state, ..s.process }), i.info),
            u1,
            Ok(()),
        )
    } else {
        upload_finished(with_next_info(s, i.info), u1, Err(u.error.unwrap()))
    }
}

/// An upload in progress.
pub struct Upload {
    phase: UploadPhase,
    file_size: usize,
    target_length: u32,
    blocks_left: usize,
    sectors_left: usize,
    erased: u32,
    written: u32,
    buffer: Vec<u8>,
    error: Option<SystemError>,
    inspector: Inspector,
    result: Option<Result<(), SystemError>>,
}

impl View for Upload {
    type V = UploadView;

    closed spec fn view(&self) -> UploadView {
        UploadView {
            phase: self.phase,
            file_size: self.file_size as nat,
            target_length: self.target_length as nat,
            blocks_left: self.blocks_left as nat,
            sectors_left: self.sectors_left as nat,
            erased: self.erased as nat,
            written: self.written as nat,
            buffered: self.buffer@,
            error: self.error,
            inspection: self.inspector@,
            result: self.result,
        }
    }
}

impl Upload {
    /// The upload and the machinery `s` agree: the target is the next
    /// partition, the counters stay within the image and the partition.
    pub closed spec fn wf_with(&self, s: SystemView) -> bool {
        &&& s.next matches Some(n) && n.length == self.target_length
        &&& self.target_length <= MAX_PARTITION_LENGTH
        &&& 0 < self.file_size <= self.target_length
        &&& self.erased + self.blocks_left * BLOCK_SIZE + self.sectors_left * ERASE_SIZE <= self.target_length
        &&& self.written + self.buffer@.len() <= self.file_size
        &&& self.buffer@.len() <= SECTOR_SIZE
        &&& self.inspector.wf()
        &&& self.phase != UploadPhase::Finished ==> s.uploading && s.process.state != UploadState::Received
        &&& self.phase == UploadPhase::Erasing ==> self.blocks_left + self.sectors_left > 0 && self.written == 0 && self.buffer@.len() == 0
        &&& self.phase == UploadPhase::Receiving ==> self.buffer@.len() < SECTOR_SIZE
        &&& self.phase == UploadPhase::Writing ==> self.buffer@.len() > 0
        &&& (self.phase == UploadPhase::Identifying || self.phase == UploadPhase::Reinspecting) ==> {
            &&& self.inspector@.partition_length == self.target_length
            &&& self.inspector@.phase != InspectPhase::Done
            }
        &&& self.phase == UploadPhase::Reinspecting ==> self.error is Some
        &&& self.phase == UploadPhase::Finished <==> self.result is Some
    }

    /// What the upload waits for.
    pub fn request(&self, s: &System) -> (r: UploadRequest)
        requires
            self.wf_with(s@),
        ensures
            r == upload_request(self@),
    {
        match self.phase {
            UploadPhase::Erasing => {
                if self.blocks_left > 0 {
                    UploadRequest::Erase { from: self.erased, to: self.erased + BLOCK_SIZE }
                } else {
                    UploadRequest::Erase { from: self.erased, to: self.erased + ERASE_SIZE as u32 }
                }
            },
            UploadPhase::Receiving => UploadRequest::Receive { capacity: SECTOR_SIZE as usize - self.buffer.len() },
            UploadPhase::Writing => UploadRequest::Write { offset: self.written, length: self.buffer.len() },
            UploadPhase::Identifying | UploadPhase::Reinspecting => match self.inspector.next_read() {
                Some((o, l)) => UploadRequest::Read { offset: o, length: l },
                None => UploadRequest::Finished,
            },
            UploadPhase::Finished => UploadRequest::Finished,
        }
    }

    /// The bytes a [`UploadRequest::Write`] is to write.
    pub fn pending(&self) -> (r: &[u8])
        ensures
            r@ == self@.buffered,
    {
        self.buffer.as_slice()
    }

    /// How the upload ended, once it has.
    pub fn result(&self) -> (r: Option<Result<(), SystemError>>)
        ensures
            r == self@.result,
    {
        self.result
    }

    fn finish(&mut self, s: &mut System, result: Result<(), SystemError>)
        requires
            old(self).inspector.wf(),
            old(self).target_length <= MAX_PARTITION_LENGTH,
            0 < old(self).file_size <= old(self).target_length,
            old(self).erased + old(self).blocks_left * BLOCK_SIZE + old(self).sectors_left * ERASE_SIZE <= old(self).target_length,
            old(self).written + old(self).buffer@.len() <= old(self).file_size,
            old(self).buffer@.len() <= SECTOR_SIZE,
            old(s)@.next matches Some(n) && n.length == old(self).target_length,
        ensures
            (final(s)@, final(self)@) == upload_finished(old(s)@, old(self)@, result),
            final(self).wf_with(final(s)@),
            final(s).wf() == old(s).wf(),
    {
        s.uploading = false;
        self.result = Some(result);
        self.phase = UploadPhase::Finished;
    }

    fn fail(&mut self, s: &mut System, e: SystemError)
        requires
            old(self).inspector.wf(),
            old(self).target_length <= MAX_PARTITION_LENGTH,
            0 < old(self).file_size <= old(self).target_length,
            old(self).erased + old(self).blocks_left * BLOCK_SIZE + old(self).sectors_left * ERASE_SIZE <= old(self).target_length,
            old(self).written + old(self).buffer@.len() <= old(self).file_size,
            old(self).buffer@.len() <= SECTOR_SIZE,
            old(s)@.next matches Some(n) && n.length == old(self).target_length,
            old(self).result is None,
            old(s)@.uploading,
            old(s)@.process.state != UploadState::Received,
            old(s).wf(),
        ensures
            (final(s)@, final(self)@) == upload_fail(old(s)@, old(self)@, e),
            final(self).wf_with(final(s)@),
            final(s).wf(),
    {
        s.process.message = Some(e);
        let length = match s.next {
            Some(n) => n.length,
            None => 0,
        };
        self.inspector = Inspector::new(length, None, s.project.as_slice());
        self.error = Some(e);
        self.phase = UploadPhase::Reinspecting;
    }

    fn identify(&mut self, s: &mut System)
        requires
            old(self).inspector.wf(),
            old(self).target_length <= MAX_PARTITION_LENGTH,
            0 < old(self).file_size <= old(self).target_length,
            old(self).erased + old(self).blocks_left * BLOCK_SIZE + old(self).sectors_left * ERASE_SIZE <= old(self).target_length,
            old(self).written + old(self).buffer@.len() <= old(self).file_size,
            old(self).buffer@.len() <= SECTOR_SIZE,
            old(s)@.next matches Some(n) && n.length == old(self).target_length,
            old(self).result is None,
            old(s)@.uploading,
        ensures
            (final(s)@, final(self)@) == upload_identify(old(s)@, old(self)@),
            final(self).wf_with(final(s)@),
            final(s).wf() == old(s).wf(),
    {
        s.process.state = UploadState::Identifying;
        self.inspector = Inspector::new(self.target_length, Some(self.file_size), s.project.as_slice());
        self.phase = UploadPhase::Identifying;
    }

    /// An erase ended with `result`.
    pub fn erased(&mut self, s: &mut System, result: Result<(), OtaError>)
        requires
            old(self).wf_with(old(s)@),
            old(s).wf(),
            old(self)@.phase == UploadPhase::Erasing,
        ensures
            (final(s)@, final(self)@) == upload_erased(old(s)@, old(self)@, result),
            final(self).wf_with(final(s)@),
            final(s).wf(),
    {
        if let Err(e) = result {
            self.fail(s, SystemError::OTA(e));
            return;
        }
        if self.blocks_left > 0 {
            self.erased = self.erased + BLOCK_SIZE;
            self.blocks_left = self.blocks_left - 1;
        } else {
            self.erased = self.erased + ERASE_SIZE as u32;
            self.sectors_left = self.sectors_left - 1;
        }
        s.process.erase[0] = self.erased;
        if self.blocks_left == 0 && self.sectors_left == 0 {
            s.process.state = UploadState::Writing;
            s.process.write = [0u32, self.file_size as u32];
            self.phase = UploadPhase::Receiving;
        }
        proof {
            let ghost (s2, u2) = upload_erased(old(s)@, old(self)@, result);
            assert(s.process.erase@ =~= s2.process.erase@);
            assert(s.process.write@ =~= s2.process.write@);
            assert(s.process.erase == s2.process.erase);
            assert(s.process.write == s2.process.write);
            assert(s@.process == s2.process);
            assert(s@ == s2);
            assert(self@ == u2);
        }
    }

    /// Reading the request body gave `result`: bytes (none at the end of the
    /// body) or an error.
    pub fn received(&mut self, s: &mut System, result: Result<&[u8], SystemError>)
        requires
            old(self).wf_with(old(s)@),
            old(s).wf(),
            old(self)@.phase == UploadPhase::Receiving,
            result matches Ok(c) ==> c@.len() <= SECTOR_SIZE - old(self)@.buffered.len(),
        ensures
            (final(s)@, final(self)@) == upload_received(old(s)@, old(self)@, match result { Ok(c) => Ok(c@), Err(e) => Err(e) }),
            final(self).wf_with(final(s)@),
            final(s).wf(),
    {
        let chunk = match result {
            Err(e) => {
                self.fail(s, e);
                return;
            },
            Ok(c) => c,
        };
        if chunk.len() == 0 {
            if (self.written as usize) + self.buffer.len() < self.file_size {
                self.fail(s, SystemError::Incomplete);
            } else if self.buffer.len() > 0 {
                self.phase = UploadPhase::Writing;
            } else {
                self.identify(s);
            }
            return;
        }
        if (self.written as usize) + self.buffer.len() + chunk.len() > self.file_size {
            self.fail(s, SystemError::OutOfMemory);
            return;
        }
        let mut buffer = Vec::new();
        core::mem::swap(&mut buffer, &mut self.buffer);
        push_all(&mut buffer, chunk);
        self.buffer = buffer;
        if self.buffer.len() == SECTOR_SIZE as usize {
            self.phase = UploadPhase::Writing;
        }
    }

    /// A write ended with `result`.
    pub fn written(&mut self, s: &mut System, result: Result<(), OtaError>)
        requires
            old(self).wf_with(old(s)@),
            old(s).wf(),
            old(self)@.phase == UploadPhase::Writing,
        ensures
            (final(s)@, final(self)@) == upload_written(old(s)@, old(self)@, result),
            final(self).wf_with(final(s)@),
            final(s).wf(),
    {
        if let Err(e) = result {
            self.fail(s, SystemError::OTA(e));
            return;
        }
        if self.buffer.len() == SECTOR_SIZE as usize {
            self.written = self.written + SECTOR_SIZE;
            s.process.write[0] = self.written;
            self.buffer = Vec::new();
            self.phase = UploadPhase::Receiving;
            proof {
                let ghost (s2, u2) = upload_written(old(s)@, old(self)@, result);
                assert(s.process.write@ =~= s2.process.write@);
                assert(s.process.write == s2.process.write);
                assert(s@.process == s2.process);
                assert(s@ == s2);
                assert(self.buffer@ =~= u2.buffered);
                assert(self@ == u2);
            }
        } else {
            s.process.write[0] = self.written + self.buffer.len() as u32;
            proof {
                let ghost p1 = UploadProcess {
                    write: [(old(self)@.written + old(self)@.buffered.len()) as u32, old(s)@.process.write[1]],
                    ..old(s)@.process
                };
                assert(s.process.write@ =~= p1.write@);
                assert(s.process.write == p1.write);
                assert(s@ == with_process(old(s)@, p1));
            }
            self.identify(s);
        }
    }

    /// An inspection read gave `data` (`None`: the read failed).
    pub fn read(&mut self, s: &mut System, data: Option<&[u8]>)
        requires
            old(self).wf_with(old(s)@),
            old(s).wf(),
            old(self)@.phase == UploadPhase::Identifying || old(self)@.phase == UploadPhase::Reinspecting,
            data matches Some(d) ==> inspect_request(old(self)@.inspection) matches Some((_, length)) && d@.len() == length,
        ensures
            (final(s)@, final(self)@) == upload_read(old(s)@, old(self)@, opt_bytes(data)),
            final(self).wf_with(final(s)@),
            final(s).wf(),
    {
        self.inspector.feed(data);
        if !self.inspector.is_done() {
            return;
        }
        let info = self.inspector.info();
        if self.phase == UploadPhase::Identifying {
            s.process.state = if info.activatable() { UploadState::Ready } else { UploadState::Failed };
            s.set_info(PartitionSlot::Next, info);
            self.finish(s, Ok(()));
        } else {
            let e = match self.error {
                Some(e) => e,
                None => SystemError::Uploading,
            };
            s.set_info(PartitionSlot::Next, info);
            self.finish(s, Err(e));
        }
    }
}

impl System {
    /// Starts an upload of `file_size` bytes into the next partition.
    ///
    /// Refused, with nothing changed, for a size that is zero or not a
    /// multiple of [`WRITE_SIZE`] (`OTA(NotSupported)`) and while another
    /// upload runs (`Uploading`). Without a next partition (`OTA(NotSupported)`)
    /// or room for the image in it, the upload fails at once, with the error
    /// recorded. Otherwise erasing starts and nothing is known of the slot's
    /// image any more.
    pub fn begin_upload(&mut self, file_size: usize) -> (r: Result<Upload, SystemError>)
        requires
            old(self).wf(),
        ensures
            final(self).wf(),
            file_size == 0 || file_size % WRITE_SIZE != 0 ==>
                r == Err::<Upload, SystemError>(SystemError::OTA(OtaError::NotSupported)) && final(self)@ == old(self)@,
            !(file_size == 0 || file_size % WRITE_SIZE != 0) && old(self)@.uploading ==>
                r == Err::<Upload, SystemError>(SystemError::Uploading) && final(self)@ == old(self)@,
            !(file_size == 0 || file_size % WRITE_SIZE != 0) && !old(self)@.uploading ==> match old(self)@.next {
                None => r == Err::<Upload, SystemError>(SystemError::OTA(OtaError::NotSupported))
                    && final(self)@ == refused_upload(old(self)@, SystemError::OTA(OtaError::NotSupported)),
                Some(n) => match erase_plan(file_size as int, n.length as int) {
                    Err(e) => r == Err::<Upload, SystemError>(e) && final(self)@ == refused_upload(old(self)@, e),
                    Ok((blocks, sectors, total)) => r matches Ok(u) && u.wf_with(final(self)@)
                        && u@.phase == UploadPhase::Erasing && u@.file_size == file_size
                        && u@.target_length == n.length && u@.blocks_left == blocks && u@.sectors_left == sectors
                        && u@.erased == 0 && u@.written == 0 && u@.buffered == Seq::<u8>::empty()
                        && u@.error is None && u@.result is None
                        && final(self)@ == started_upload(old(self)@, total as u32),
                },
            },
    {
        if file_size == 0 || file_size % WRITE_SIZE != 0 {
            return Err(SystemError::OTA(OtaError::NotSupported));
        }
        if self.uploading {
            return Err(SystemError::Uploading);
        }
        self.process.state = UploadState::Received;
        self.process.message = None;
        let length = match self.next {
            Some(n) => n.length,
            None => {
                self.process.message = Some(SystemError::OTA(OtaError::NotSupported));
                return Err(SystemError::OTA(OtaError::NotSupported));
            },
        };
        let (distribution, total) = match calculate_erase_distribution(file_size, length as usize) {
            Ok(plan) => plan,
            Err(e) => {
                self.process.message = Some(e);
                return Err(e);
            },
        };
        self.uploading = true;
        self.process.state = UploadState::Erasing;
        self.process.erase = [0u32, total as u32];
        self.set_info(PartitionSlot::Next, PartitionInfo::blank());
        proof {
            let ghost p = started_upload(old(self)@, total as u32);
            assert(self.process.erase@ =~= p.process.erase@);
        }
        Ok(Upload {
            phase: UploadPhase::Erasing,
            file_size,
            target_length: length,
            blocks_left: distribution[0],
            sectors_left: distribution[1],
            erased: 0,
            written: 0,
            buffer: Vec::new(),
            error: None,
            inspector: Inspector::new(0, None, self.project.as_slice()),
            result: None,
        })
    }
}

/// An upload that could not start: the error is recorded.
pub open spec fn refused_upload(s: SystemView, e: SystemError) -> SystemView {
    with_process(s, UploadProcess { state: UploadState::Received, message: Some(e), ..s.process })
}

/// An upload started: erasing `total` bytes, nothing known of the next slot.
pub open spec fn started_upload(s: SystemView, total: u32) -> SystemView {
    with_next_info(
        SystemView {
            uploading: true,
            process: UploadProcess { state: UploadState::Erasing, message: None, erase: [0u32, total], ..s.process },
            ..s
        },
        blank_info(),
    )
}

/// An upload only ever erases and writes inside the next partition: every
/// erase and every write it asks for lies within the target's bytes.
pub proof fn lemma_upload_stays_in_target(u: Upload, s: SystemView)
    requires
        u.wf_with(s),
    ensures
        s.next matches Some(n) && n.length == u@.target_length,
        match upload_request(u@) {
            UploadRequest::Erase { from, to } => from < to && to <= u@.target_length,
            UploadRequest::Write { offset, length } => offset + length <= u@.target_length,
            _ => true,
        },
{
}

/// The same machinery apart from the upload's own records: the countdown,
/// the factory and current slots and the project name are untouched.
pub open spec fn upload_untouched(s: SystemView, t: SystemView) -> bool {
    &&& t.countdown == s.countdown
    &&& t.factory == s.factory
    &&& t.current == s.current
    &&& t.project == s.project
}

/// Nothing is switched by an upload: starting one and every step of it leave
/// the activation countdown, the factory and the running slot as they were.
pub proof fn lemma_upload_switches_nothing(
    s: SystemView,
    u: UploadView,
    e: SystemError,
    total: u32,
    erase: Result<(), OtaError>,
    piece: Result<Seq<u8>, SystemError>,
    write: Result<(), OtaError>,
    data: Option<Seq<u8>>,
)
    ensures
        upload_untouched(s, refused_upload(s, e)),
        upload_untouched(s, started_upload(s, total)),
        upload_untouched(s, upload_erased(s, u, erase).0),
        upload_untouched(s, upload_received(s, u, piece).0),
        upload_untouched(s, upload_written(s, u, write).0),
        upload_untouched(s, upload_read(s, u, data).0),
{
}

/// An upload that identified its image ends `Ready` exactly when the image
/// may be booted, and `Failed` otherwise; either way no upload runs any more
/// and the slot holds what the inspection found.
pub proof fn lemma_identified_upload_outcome(s: SystemView, u: UploadView, data: Option<Seq<u8>>)
    requires
        u.phase == UploadPhase::Identifying,
        s.next is Some,
        inspect_step(u.inspection, data).phase == InspectPhase::Done,
    ensures
        ({
            let (t, v) = upload_read(s, u, data);
            let info = inspect_step(u.inspection, data).info;
            &&& v.result == Some(Ok::<(), SystemError>(()))
            &&& !t.uploading
            &&& (t.process.state == UploadState::Ready) == state_activatable(info.state)
            &&& (t.process.state == UploadState::Failed) == !state_activatable(info.state)
            &&& t.next matches Some(n) && n.info == info
        }),
{
}

/// A failed upload keeps the state it had reached and records the error; the
/// slot it touched is inspected again before the upload reports the failure.
pub proof fn lemma_failed_upload_reports(s: SystemView, u: UploadView, e: SystemError)
    requires
        s.next is Some,
        s.process.state != UploadState::Received,
    ensures
        ({
            let (t, v) = upload_fail(s, u, e);
            &&& t.process.state == s.process.state
            &&& t.process.message == Some(e)
            &&& v.phase == UploadPhase::Reinspecting
            &&& v.error == Some(e)
            &&& v.inspection == inspect_start(s.next.unwrap().length as nat, None, s.project)
        }),
        ({
            let (t, v) = upload_fail(s, u, e);
            forall|d: Option<Seq<u8>>| inspect_step(v.inspection, d).phase == InspectPhase::Done ==> {
                let (t2, v2) = #[trigger] upload_read(t, v, d);
                &&& v2.result == Some(Err::<(), SystemError>(e))
                &&& !t2.uploading
                &&& t2.process.state == s.process.state
                &&& t2.process.message == Some(e)
            }
        }),
{
}

/// The device reboots into the next slot only when that slot's image may be
/// booted and no upload runs; an activation refused at the end of the
/// countdown is dropped.
pub proof fn lemma_reboot_only_into_bootable(s: SystemView)
    ensures
        activation_refusal(s) is None <==> (s.next matches Some(n) && state_activatable(n.info.state) && !s.uploading),
{
}

/// Activating while an upload runs is refused with `Uploading`, whatever the
/// next slot holds (the upload has blanked what was known of it).
pub proof fn lemma_activation_during_upload(s: SystemView)
    requires
        s.next is Some,
        s.uploading,
    ensures
        activation_refusal(s) == Some(SystemError::Uploading),
{
}

/// Starting an upload sets the uploading flag; a refused start leaves it as
/// it was.
pub proof fn lemma_upload_start_sets_flag(s: SystemView, e: SystemError, total: u32)
    ensures
        started_upload(s, total).uploading,
        refused_upload(s, e).uploading == s.uploading,
{
}

/// While an upload runs the flag stays set: every step that does not end the
/// upload keeps it, and the step that ends it (with a result) clears it.
pub proof fn lemma_upload_steps_keep_flag(
    s: SystemView,
    u: UploadView,
    erase: Result<(), OtaError>,
    piece: Result<Seq<u8>, SystemError>,
    write: Result<(), OtaError>,
    data: Option<Seq<u8>>,
)
    requires
        s.uploading,
        u.result is None,
    ensures
        ({ let (t, v) = upload_erased(s, u, erase); t.uploading <==> v.result is None }),
        ({ let (t, v) = upload_received(s, u, piece); t.uploading <==> v.result is None }),
        ({ let (t, v) = upload_written(s, u, write); t.uploading <==> v.result is None }),
        ({ let (t, v) = upload_read(s, u, data); t.uploading <==> v.result is None }),
{
}

/// An upload that has not ended has the machinery's uploading flag set.
pub proof fn lemma_running_upload_flag(u: Upload, s: SystemView)
    requires
        u.wf_with(s),
    ensures
        u@.result is None ==> s.uploading,
{
}

/// `n` seconds of the countdown: the machinery after `n` ticks.
pub open spec fn countdown_ticks(s: SystemView, n: nat) -> SystemView
    decreases n,
{
    if n == 0 {
        s
    } else {
        let t = countdown_ticks(s, (n - 1) as nat);
        with_countdown(t, (t.countdown - 1) as u32)
    }
}

/// The countdown runs down one second per tick: after `n` ticks it shows
/// `n` less, and whether the slot may be booted is unchanged, so once it
/// reaches zero the reboot happens exactly when the slot may still be
/// booted ([`System::countdown_finish`]).
pub proof fn lemma_countdown_runs_down(s: SystemView, n: nat)
    requires
        n <= s.countdown < u32::MAX,
    ensures
        countdown_ticks(s, n) == with_countdown(s, (s.countdown - n) as u32),
        activation_refusal(countdown_ticks(s, n)) == activation_refusal(s),
    decreases n,
{
    if n > 0 {
        lemma_countdown_runs_down(s, (n - 1) as nat);
    }
}

/// Recording what is known of a slot changes that slot's info and nothing
/// else: the slot keeps its length, an absent slot stays absent, and the
/// other slots, the flag, the countdown, the progress and the project name
/// are unchanged.
pub proof fn lemma_set_info_changes_that_slot(v: SystemView, i: PartitionInfoView)
    ensures
        ({
            let t = with_slot_info(v, PartitionSlot::Factory, i);
            &&& t.factory == (match v.factory { Some(p) => Some(PartitionView { length: p.length, info: i }), None => None })
            &&& t.current == v.current && t.next == v.next
            &&& t.uploading == v.uploading && t.countdown == v.countdown && t.process == v.process && t.project == v.project
        }),
        ({
            let t = with_slot_info(v, PartitionSlot::Current, i);
            &&& t.current == (match v.current { Some(p) => Some(PartitionView { length: p.length, info: i }), None => None })
            &&& t.factory == v.factory && t.next == v.next
            &&& t.uploading == v.uploading && t.countdown == v.countdown && t.process == v.process && t.project == v.project
        }),
        ({
            let t = with_slot_info(v, PartitionSlot::Next, i);
            &&& t.next == (match v.next { Some(p) => Some(PartitionView { length: p.length, info: i }), None => None })
            &&& t.factory == v.factory && t.current == v.current
            &&& t.uploading == v.uploading && t.countdown == v.countdown && t.process == v.process && t.project == v.project
        }),
        slot_of(v, PartitionSlot::Factory) == v.factory,
        slot_of(v, PartitionSlot::Current) == v.current,
        slot_of(v, PartitionSlot::Next) == v.next,
{
}

/// Reading a slot back gives what was last recorded for it, for every slot
/// that exists; recording for one slot leaves what the others read.
pub proof fn lemma_get_after_set_info(v: SystemView, slot: PartitionSlot, other: PartitionSlot, i: PartitionInfoView)
    requires
        slot != other,
    ensures
        info_of(slot_of(with_slot_info(v, slot, i), slot)) == (if slot_of(v, slot) is Some { Some(i) } else { None }),
        slot_of(with_slot_info(v, slot, i), other) == slot_of(v, other),
{
}

/// Whether the next slot may be activated, by what its inspection found:
/// with no upload running, `Available`, `Foreign` and `Unverified` images may
/// be activated, and every other state (`Empty`, `Unknown`, `Broken`,
/// `Unavailable`) is refused with `OTA(InvalidImage)`.
pub proof fn lemma_activation_by_state(v: SystemView)
    requires
        v.next is Some,
        !v.uploading,
    ensures
        activation_refusal(v) == match v.next.unwrap().info.state {
            PartitionState::Available | PartitionState::Foreign | PartitionState::Unverified => None,
            _ => Some(SystemError::OTA(OtaError::InvalidImage)),
        },
{
}

/// Erasing walks the target area from its start without gaps: each erase
/// starts where the area erased so far ends (at zero for a fresh upload),
/// blocks come first and span a block, sectors span a sector, and after the
/// erase the area erased so far ends where it ended, with the same total still
/// planned. The next erase starts there, and once nothing is left to erase the
/// erased area is the whole plan, which covers the image.
pub proof fn lemma_erase_requests_contiguous(s: SystemView, u: UploadView)
    requires
        u.phase == UploadPhase::Erasing,
        u.blocks_left + u.sectors_left > 0,
        u.erased + u.blocks_left * BLOCK_SIZE + u.sectors_left * ERASE_SIZE <= MAX_PARTITION_LENGTH,
    ensures
        ({
            let (t, v) = upload_erased(s, u, Ok(()));
            let planned = u.erased + u.blocks_left * BLOCK_SIZE + u.sectors_left * ERASE_SIZE;
            match upload_request(u) {
                UploadRequest::Erase { from, to } => {
                    &&& from == u.erased
                    &&& to == from + (if u.blocks_left > 0 { BLOCK_SIZE as int } else { ERASE_SIZE as int })
                    &&& v.erased == to
                    &&& t.process.erase[0] == to
                    &&& v.erased + v.blocks_left * BLOCK_SIZE + v.sectors_left * ERASE_SIZE == planned
                    &&& v.phase == UploadPhase::Erasing ==> (upload_request(v) matches UploadRequest::Erase { from: next, .. } && next == to)
                    &&& v.phase != UploadPhase::Erasing ==> v.phase == UploadPhase::Receiving && to == planned
                },
                _ => false,
            }
        }),
{
}

/// The target partition after erasing `[from, to)`.
pub open spec fn erased_flash(flash: Seq<u8>, from: int, to: int) -> Seq<u8> {
    Seq::new(flash.len(), |k: int| if from <= k < to { 0xFFu8 } else { flash[k] })
}

/// The target partition after writing `data` at `offset`.
pub open spec fn written_flash(flash: Seq<u8>, offset: int, data: Seq<u8>) -> Seq<u8> {
    Seq::new(flash.len(), |k: int| if offset <= k < offset + data.len() { data[k - offset] } else { flash[k] })
}

/// An upload of `file` whose first `sent` bytes the request body has handed
/// over is on course: the partition holds the file up to what was written,
/// the buffer holds the rest of what was handed over, and once the upload
/// identifies its image, the partition starts with the whole file.
pub open spec fn upload_on_course(u: UploadView, flash: Seq<u8>, file: Seq<u8>, sent: nat) -> bool {
    &&& u.file_size == file.len()
    &&& flash.len() == u.target_length
    &&& u.file_size <= u.target_length
    &&& sent <= file.len()
    &&& match u.phase {
        UploadPhase::Erasing => u.written == 0 && u.buffered.len() == 0 && sent == 0,
        UploadPhase::Receiving | UploadPhase::Writing => {
            &&& sent == u.written + u.buffered.len()
            &&& u.buffered == file.subrange(u.written as int, sent as int)
            &&& flash.subrange(0, u.written as int) == file.subrange(0, u.written as int)
            &&& u.phase == UploadPhase::Receiving ==> u.buffered.len() < SECTOR_SIZE
            &&& u.phase == UploadPhase::Writing ==> (u.buffered.len() == SECTOR_SIZE || sent == file.len())
            &&& u.phase == UploadPhase::Writing ==> u.buffered.len() > 0
        },
        UploadPhase::Identifying => sent == file.len() && flash.subrange(0, file.len() as int) == file,
        _ => false,
    }
}

/// A fresh upload is on course.
pub proof fn lemma_upload_starts_on_course(u: UploadView, flash: Seq<u8>, file: Seq<u8>)
    requires
        u.phase == UploadPhase::Erasing,
        u.written == 0,
        u.buffered.len() == 0,
        u.file_size == file.len(),
        flash.len() == u.target_length,
        u.file_size <= u.target_length,
    ensures
        upload_on_course(u, flash, file, 0),
{
}

/// An erase the partition carries out keeps the upload on course; once all
/// is erased, the upload waits for the body.
pub proof fn lemma_upload_erase_on_course(s: SystemView, u: UploadView, flash: Seq<u8>, file: Seq<u8>, sent: nat)
    requires
        upload_on_course(u, flash, file, sent),
        u.phase == UploadPhase::Erasing,
    ensures
        ({
            let (from, to) = match upload_request(u) {
                UploadRequest::Erase { from, to } => (from as int, to as int),
                _ => (0int, 0int),
            };
            let (t, v) = upload_erased(s, u, Ok(()));
            &&& v.phase == UploadPhase::Erasing || v.phase == UploadPhase::Receiving
            &&& upload_on_course(v, erased_flash(flash, from, to), file, sent)
        }),
{
    let (from, to) = match upload_request(u) {
        UploadRequest::Erase { from, to } => (from as int, to as int),
        _ => (0int, 0int),
    };
    let (t, v) = upload_erased(s, u, Ok(()));
    assert(file.subrange(0, 0) =~= Seq::<u8>::empty());
    assert(erased_flash(flash, from, to).subrange(0, 0) =~= Seq::<u8>::empty());
    assert(u.buffered =~= Seq::<u8>::empty());
    assert(upload_on_course(v, erased_flash(flash, from, to), file, sent));
}

/// The body handing over its next `n` bytes (none once it is all sent) keeps
/// the upload on course, and never fails it.
pub proof fn lemma_upload_receive_on_course(s: SystemView, u: UploadView, flash: Seq<u8>, file: Seq<u8>, sent: nat, n: nat)
    requires
        upload_on_course(u, flash, file, sent),
        u.phase == UploadPhase::Receiving,
        sent + n <= file.len(),
        n <= SECTOR_SIZE - u.buffered.len(),
        n == 0 ==> sent == file.len(),
    ensures
        ({
            let (t, v) = upload_received(s, u, Ok(file.subrange(sent as int, (sent + n) as int)));
            &&& v.phase == UploadPhase::Receiving || v.phase == UploadPhase::Writing || v.phase == UploadPhase::Identifying
            &&& upload_on_course(v, flash, file, (sent + n) as nat)
        }),
{
    let c = file.subrange(sent as int, (sent + n) as int);
    if n > 0 {
        assert(u.buffered + c =~= file.subrange(u.written as int, (sent + n) as int));
    } else {
        assert(u.written + u.buffered.len() == file.len());
        if u.buffered.len() == 0 {
            assert(flash.subrange(0, file.len() as int) =~= file);
        }
    }
}

/// A write the partition carries out keeps the upload on course; after the
/// last one, the partition starts with the whole file and the image is
/// inspected.
pub proof fn lemma_upload_write_on_course(s: SystemView, u: UploadView, flash: Seq<u8>, file: Seq<u8>, sent: nat)
    requires
        upload_on_course(u, flash, file, sent),
        u.phase == UploadPhase::Writing,
    ensures
        ({
            let (t, v) = upload_written(s, u, Ok(()));
            let after = written_flash(flash, u.written as int, u.buffered);
            &&& v.phase == UploadPhase::Receiving || v.phase == UploadPhase::Identifying
            &&& upload_on_course(v, after, file, sent)
            &&& v.phase == UploadPhase::Identifying ==> v.inspection == inspect_start(
                u.target_length,
                Some(file.len() as usize),
                s.project,
            )
        }),
{
    let after = written_flash(flash, u.written as int, u.buffered);
    let end = u.written + u.buffered.len();
    assert(after.subrange(0, end as int) =~= file.subrange(0, end as int)) by {
        assert forall|k: int| 0 <= k < end implies after.subrange(0, end as int)[k] == file.subrange(0, end as int)[k] by {
            if k < u.written {
                assert(flash.subrange(0, u.written as int)[k] == file.subrange(0, u.written as int)[k]);
            } else {
                assert(u.buffered[k - u.written] == file.subrange(u.written as int, sent as int)[k - u.written]);
            }
        }
    }
    if u.buffered.len() != SECTOR_SIZE {
        assert(file.subrange(0, end as int) =~= file);
    } else {
        assert(file.subrange(end as int, sent as int) =~= Seq::<u8>::empty());
    }
}
} // verus!
