//! What the HTTP endpoints answer, and the redirects around an activation.

use vstd::prelude::*;
use vstd::string::*;
use crate::door::{DoorEvent, DoorState};
use crate::error::{SystemError, lemma_error_name_bar_free};
use crate::image::{
    PartitionInfo, bar, bar_free, lemma_bar_free_concat, lemma_decimal_bar_free, lemma_name_bar_free, lemma_status_text_len,
};
use crate::system::{UploadProcess, UploadState};
use crate::text::{CompactFormat, FixedString, joined, formatted_into, is_ascii_bytes, lemma_ascii_str, push_all, push_str};

verus! {

/// `200 OK`.
pub const STATUS_OK: u16 = 200;
/// `400 Bad Request`.
pub const STATUS_BAD_REQUEST: u16 = 400;

/// Where a request is sent instead of its handler around an activation.
#[derive(Clone, Copy, Debug, PartialEq, Eq, Structural)]
pub enum MaintenanceRedirect {
    /// To the page shown while the device reboots.
    ToResetting,
    /// To the system page.
    ToSystem,
}

impl MaintenanceRedirect {
    /// The target of the redirect.
    pub fn location(&self) -> (r: &'static str)
        ensures
            *self == MaintenanceRedirect::ToResetting ==> r@ == "/system/resetting"@,
            *self == MaintenanceRedirect::ToSystem ==> r@ == "/system/"@,
    {
        match self {
            MaintenanceRedirect::ToResetting => "/system/resetting",
            MaintenanceRedirect::ToSystem => "/system/",
        }
    }
}

/// The paths that exist only during an activation: the reboot page and the
/// countdown.
pub open spec fn maintenance_dedicated(path: Seq<u8>) -> bool {
    path == "/system/resetting".spec_bytes() || path == "/system/activate/countdown".spec_bytes()
}

/// The paths still served during an activation: the dedicated ones and the
/// reboot page's two pictures.
pub open spec fn maintenance_whitelisted(path: Seq<u8>) -> bool {
    maintenance_dedicated(path) || path == "/logo".spec_bytes() || path == "/favicon.ico".spec_bytes()
}

/// The redirect a request for `path` gets: during an activation everything
/// but the whitelist goes to the reboot page; otherwise the activation-only
/// paths go to the system page.
pub open spec fn redirect_for(activating: bool, path: Seq<u8>) -> Option<MaintenanceRedirect> {
    if activating && !maintenance_whitelisted(path) {
        Some(MaintenanceRedirect::ToResetting)
    } else if !activating && maintenance_dedicated(path) {
        Some(MaintenanceRedirect::ToSystem)
    } else {
        None
    }
}

fn same_path(a: &str, b: &str) -> (r: bool)
    ensures
        r == (a.spec_bytes() == b.spec_bytes()),
{
    let x = a.as_bytes();
    let y = b.as_bytes();
    if x.len() != y.len() {
        return false;
    }
    let mut i: usize = 0;
    while i < x.len()
        invariant
            i <= x@.len(),
            x@.len() == y@.len(),
            x@ == a.spec_bytes(),
            y@ == b.spec_bytes(),
            forall|k: int| 0 <= k < i ==> x@[k] == y@[k],
        decreases x@.len() - i,
    {
        if x[i] != y[i] {
            assert(x@[i as int] != y@[i as int]);
            return false;
        }
        i = i + 1;
    }
    assert(x@ =~= y@);
    true
}

/// The redirect a request for `path` gets while an activation is
/// (`activating`) or is not pending; `None`: the handler answers.
pub fn maintenance_redirect(activating: bool, path: &str) -> (r: Option<MaintenanceRedirect>)
    ensures
        r == redirect_for(activating, path.spec_bytes()),
{
    let dedicated = same_path(path, "/system/resetting") || same_path(path, "/system/activate/countdown");
    let whitelisted = dedicated || same_path(path, "/logo") || same_path(path, "/favicon.ico");
    if activating && !whitelisted {
        Some(MaintenanceRedirect::ToResetting)
    } else if !activating && dedicated {
        Some(MaintenanceRedirect::ToSystem)
    } else {
        None
    }
}

/// The door's state as `/status` shows it.
pub fn door_status_text(state: DoorState) -> (r: &'static str)
    ensures
        state == DoorState::Open ==> r@ == "open"@,
        state == DoorState::Lock ==> r@ == "lock"@,
{
    match state {
        DoorState::Open => "open",
        DoorState::Lock => "lock",
    }
}

/// The answer to `/setopen?state=..`: its status, its text, and the request
/// it makes of the door.
pub struct SetOpenReply {
    pub status: u16,
    pub body: &'static str,
    pub event: Option<DoorEvent>,
}

/// `/setopen?state=0` locks, `state=1` holds the door open, anything else is
/// a bad request.
pub fn set_open(state: u8) -> (r: SetOpenReply)
    ensures
        state == 0 ==> r.status == STATUS_OK && r.body@ == "Door set to locked"@ && r.event == Some(DoorEvent::Lock),
        state == 1 ==> r.status == STATUS_OK && r.body@ == "Door set to opened"@ && r.event == Some(DoorEvent::Open),
        state > 1 ==> r.status == STATUS_BAD_REQUEST && r.body@ == "Invalid state"@ && r.event is None,
{
    match state {
        0 => SetOpenReply { status: STATUS_OK, body: "Door set to locked", event: Some(DoorEvent::Lock) },
        1 => SetOpenReply { status: STATUS_OK, body: "Door set to opened", event: Some(DoorEvent::Open) },
        _ => SetOpenReply { status: STATUS_BAD_REQUEST, body: "Invalid state", event: None },
    }
}

/// `/open`: the door is asked to open once.
pub fn open_once() -> (r: (&'static str, DoorEvent))
    ensures
        r.0@ == "Successfully open door for once"@,
        r.1 == DoorEvent::OpenOnce,
{
    ("Successfully open door for once", DoorEvent::OpenOnce)
}

/// The status and text of a reply of at most `N` bytes.
pub struct TextReply<const N: usize> {
    pub status: u16,
    pub body: FixedString<N>,
}

/// The reply to `POST /system/activate/`: `Activating`, or the name of the
/// reason it was refused.
pub fn activation_reply(result: Result<(), SystemError>) -> (r: TextReply<100>)
    ensures
        result is Ok ==> r.status == STATUS_OK && r.body@ == "Activating".spec_bytes(),
        result matches Err(e) ==> r.status == STATUS_BAD_REQUEST
            && r.body@ == formatted_into(Seq::empty(), e.compact_text(), 100),
{
    match result {
        Ok(()) => {
            proof { reveal_strlit("Activating"); lemma_ascii_str("Activating"); }
            TextReply { status: STATUS_OK, body: FixedString::new().write_format("Activating") }
        },
        Err(e) => TextReply { status: STATUS_BAD_REQUEST, body: FixedString::from_compact(e.into_compact_format()) },
    }
}

/// The reply to `POST /system/upload`: `Upload successfully`, or the name of
/// the error the upload ended with.
pub fn upload_reply(result: Result<(), SystemError>) -> (r: TextReply<250>)
    ensures
        result is Ok ==> r.status == STATUS_OK && r.body@ == "Upload successfully".spec_bytes(),
        result matches Err(e) ==> r.status == STATUS_BAD_REQUEST
            && r.body@ == formatted_into(Seq::empty(), e.compact_text(), 250),
{
    match result {
        Ok(()) => {
            proof { reveal_strlit("Upload successfully"); lemma_ascii_str("Upload successfully"); }
            TextReply { status: STATUS_OK, body: FixedString::new().write_format("Upload successfully") }
        },
        Err(e) => TextReply { status: STATUS_BAD_REQUEST, body: FixedString::from_compact(e.into_compact_format()) },
    }
}

/// The reply to `/system/activate/countdown`: the seconds left, or `/`.
pub fn countdown_reply(countdown: Option<u32>) -> (r: FixedString<10>)
    ensures
        r@ == formatted_into(Seq::empty(), countdown.compact_text(), 10),
{
    FixedString::from_compact(countdown.into_compact_format())
}

/// The reply to `/system/status?slot=..`: the partition's fields joined with
/// `|`, or `/` when there is no such partition. The text always fits: it is
/// never cut to `truncated`.
pub fn partition_status_reply(info: Option<PartitionInfo>) -> (r: FixedString<410>)
    ensures
        r@ == info.compact_text(),
        r@.len() <= 401,
{
    proof {
        if let Some(i) = info {
            lemma_status_text_len(i);
        }
    }
    FixedString::from_compact(info.into_compact_format())
}

/// `true` or `false`.
pub open spec fn bool_word(b: bool) -> Seq<u8> {
    if b { "true".spec_bytes() } else { "false".spec_bytes() }
}

/// `uploading|state|message|erased;to_erase|written;to_write`
pub open spec fn progress_text(uploading: bool, process: UploadProcess) -> Seq<u8> {
    bool_word(uploading) + bar() + process.compact_text()
}

/// The reply to `/system/progress`.
pub fn progress_reply(uploading: bool, process: UploadProcess) -> (r: FixedString<80>)
    ensures
        r@ == formatted_into(Seq::empty(), progress_text(uploading, process), 80),
{
    let mut text: Vec<u8> = Vec::new();
    if uploading {
        proof { reveal_strlit("true"); lemma_ascii_str("true"); }
        push_str(&mut text, "true");
    } else {
        proof { reveal_strlit("false"); lemma_ascii_str("false"); }
        push_str(&mut text, "false");
    }
    let ghost word = text@;
    text.push(0x7cu8);
    process.compact_format(&mut text);
    assert(text@ =~= progress_text(uploading, process));
    assert forall|i: int| 0 <= i < text@.len() implies #[trigger] text@[i] < 128 by {
        let c = process.compact_text();
        if i < word.len() {
            assert(text@[i] == word[i]);
        } else if i > word.len() {
            assert(text@[i] == c[i - word.len() - 1]);
        }
    }
    FixedString::new().write_ascii(text.as_slice())
}


proof fn lemma_joined_u32_bar_free(items: Seq<u32>)
    ensures
        bar_free(joined(items)),
    decreases items.len(),
{
    if items.len() == 1 {
        lemma_decimal_bar_free(items[0] as nat);
    } else if items.len() > 1 {
        lemma_joined_u32_bar_free(items.drop_last());
        lemma_decimal_bar_free(items.last() as nat);
        let a = joined(items.drop_last());
        let b = items.last().compact_text();
        assert(joined(items) == a + seq![59u8] + b);
        assert(bar_free(seq![59u8]));
        lemma_bar_free_concat(a, seq![59u8]);
        lemma_bar_free_concat(a + seq![59u8], b);
    }
}

/// No field of the progress text holds a `|`, so splitting it on `|` gives
/// back its five fields.
pub proof fn lemma_progress_fields_have_no_bar(uploading: bool, process: UploadProcess)
    ensures
        bar_free(bool_word(uploading)),
        bar_free(process.state.compact_text()),
        bar_free(process.message.compact_text()),
        bar_free(process.erase.compact_text()),
        bar_free(process.write.compact_text()),
{
    reveal_strlit("true");
    reveal_strlit("false");
    lemma_name_bar_free("true");
    lemma_name_bar_free("false");
    match process.state {
        UploadState::Idle => { reveal_strlit("Idle"); lemma_name_bar_free("Idle"); },
        UploadState::Received => { reveal_strlit("Received"); lemma_name_bar_free("Received"); },
        UploadState::Erasing => { reveal_strlit("Erasing"); lemma_name_bar_free("Erasing"); },
        UploadState::Writing => { reveal_strlit("Writing"); lemma_name_bar_free("Writing"); },
        UploadState::Identifying => { reveal_strlit("Identifying"); lemma_name_bar_free("Identifying"); },
        UploadState::Ready => { reveal_strlit("Ready"); lemma_name_bar_free("Ready"); },
        UploadState::Failed => { reveal_strlit("Failed"); lemma_name_bar_free("Failed"); },
    }
    if let Some(e) = process.message {
        lemma_error_name_bar_free(e);
    }
    lemma_joined_u32_bar_free(process.erase@);
    lemma_joined_u32_bar_free(process.write@);
}

/// During an activation only the reboot page, the countdown and their two
/// pictures reach their handlers; otherwise only the reboot page and the
/// countdown are redirected, to the system page.
pub proof fn lemma_redirects(path: Seq<u8>)
    ensures
        redirect_for(true, path) is None <==> maintenance_whitelisted(path),
        redirect_for(true, path) matches Some(r) ==> r == MaintenanceRedirect::ToResetting,
        redirect_for(false, path) is None <==> !maintenance_dedicated(path),
        redirect_for(false, path) matches Some(r) ==> r == MaintenanceRedirect::ToSystem,
{
}
} // verus!
