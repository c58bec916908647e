//! What an application partition holds: the image header, the application
//! descriptor, the segment table, and whether the image's digest checks out.
//!
//! Reading flash is the caller's work. An [`Inspector`] says which bytes it
//! needs next, takes what was read (or that the read failed), and decides.

use vstd::prelude::*;
use vstd::string::*;
use crate::text::{
    CompactFormat, TextBytes, decimal, is_ascii_bytes, joined, lemma_ascii_str, lemma_decimal_ascii, lemma_decimal_len_of_width,
    lemma_joined_bytes_len, lemma_shown_text_ascii, lemma_shown_text_len, push_all, push_str,
};
use crate::digest::{Sha256Stream, sha256, sha256_absorbed, sha256_finalize, sha256_new, sha256_update};
use crate::flash::SECTOR_SIZE;

verus! {

/// First byte of an application image.
pub const IMAGE_MAGIC: u8 = 0xE9;
/// Length of the image header.
pub const IMAGE_HEADER_LENGTH: u32 = 24;
/// Length of a segment header.
pub const SEGMENT_HEADER_LENGTH: u32 = 8;
/// Offset of the application descriptor: the image header and the first segment header.
pub const DESCRIPTOR_OFFSET: usize = 32;
/// Length of the application descriptor (`esp_app_desc_t`).
pub const APP_DESCRIPTOR_LENGTH: usize = 256;
/// Bytes read at the start of a partition: headers and descriptor.
pub const PARTITION_HEADER_LENGTH: usize = 288;
/// First word of the application descriptor.
pub const DESCRIPTOR_MAGIC: u32 = 0xABCD5432;
/// Most segments an image may have.
pub const MAX_SEGMENTS: u8 = 16;
/// Length of a SHA-256 digest.
pub const DIGEST_LENGTH: usize = 32;
/// Largest partition the segment arithmetic is done for (32-bit offsets
/// across sixteen segments of at most this length each).
pub const MAX_PARTITION_LENGTH: u32 = 0x0FFF_FFF0;

/// What became of the inspection of a partition.
#[derive(Clone, Copy, Debug, PartialEq, Eq, Structural)]
pub enum PartitionState {
    /// The partition could not be read.
    Unavailable,
    /// No image: the first byte is not the image magic.
    Empty,
    /// An image without an application descriptor.
    Unknown,
    /// The image is cut short, malformed, or fails its digest.
    Broken,
    /// A well-formed image without an appended digest to check.
    Unverified,
    /// A verified image of another project.
    Foreign,
    /// A verified image of this project.
    Available,
}

impl Default for PartitionState {
    fn default() -> (r: Self)
        ensures
            r == PartitionState::Unavailable,
    {
        PartitionState::Unavailable
    }
}

/// The name of a state, as the status text shows it.
pub open spec fn partition_state_name(s: PartitionState) -> Seq<u8> {
    match s {
        PartitionState::Unavailable => "Unavailable".spec_bytes(),
        PartitionState::Empty => "Empty".spec_bytes(),
        PartitionState::Unknown => "Unknown".spec_bytes(),
        PartitionState::Broken => "Broken".spec_bytes(),
        PartitionState::Unverified => "Unverified".spec_bytes(),
        PartitionState::Foreign => "Foreign".spec_bytes(),
        PartitionState::Available => "Available".spec_bytes(),
    }
}

impl CompactFormat for PartitionState {
    open spec fn compact_text(&self) -> Seq<u8> {
        partition_state_name(*self)
    }

    fn compact_format(&self, out: &mut Vec<u8>) {
        match self {
            PartitionState::Unavailable => {
                proof { reveal_strlit("Unavailable"); lemma_ascii_str("Unavailable"); }
                push_str(out, "Unavailable");
            },
            PartitionState::Empty => {
                proof { reveal_strlit("Empty"); lemma_ascii_str("Empty"); }
                push_str(out, "Empty");
            },
            PartitionState::Unknown => {
                proof { reveal_strlit("Unknown"); lemma_ascii_str("Unknown"); }
                push_str(out, "Unknown");
            },
            PartitionState::Broken => {
                proof { reveal_strlit("Broken"); lemma_ascii_str("Broken"); }
                push_str(out, "Broken");
            },
            PartitionState::Unverified => {
                proof { reveal_strlit("Unverified"); lemma_ascii_str("Unverified"); }
                push_str(out, "Unverified");
            },
            PartitionState::Foreign => {
                proof { reveal_strlit("Foreign"); lemma_ascii_str("Foreign"); }
                push_str(out, "Foreign");
            },
            PartitionState::Available => {
                proof { reveal_strlit("Available"); lemma_ascii_str("Available"); }
                push_str(out, "Available");
            },
        }
    }
}

/// What is known of the image in a partition.
#[derive(Clone, Copy)]
pub struct PartitionInfo {
    pub state: PartitionState,
    // Image header
    pub segment_count: Option<u8>,
    pub entry_address: Option<u32>,
    pub chip_id: Option<u16>,
    pub hash_appended: Option<bool>,
    // Application descriptor
    pub secure_version: Option<u32>,
    pub version: Option<TextBytes<32>>,
    pub project: Option<TextBytes<32>>,
    pub time: Option<TextBytes<16>>,
    pub date: Option<TextBytes<16>>,
    pub sha256: Option<[u8; 32]>,
    /// Digest of the image as it lies in flash.
    pub digest_sha256: Option<[u8; 32]>,
}

/// [`PartitionInfo`] with its byte fields as sequences.
pub struct PartitionInfoView {
    pub state: PartitionState,
    pub segment_count: Option<u8>,
    pub entry_address: Option<u32>,
    pub chip_id: Option<u16>,
    pub hash_appended: Option<bool>,
    pub secure_version: Option<u32>,
    pub version: Option<Seq<u8>>,
    pub project: Option<Seq<u8>>,
    pub time: Option<Seq<u8>>,
    pub date: Option<Seq<u8>>,
    pub sha256: Option<Seq<u8>>,
    pub digest_sha256: Option<Seq<u8>>,
}

pub open spec fn text_view<const N: usize>(t: Option<TextBytes<N>>) -> Option<Seq<u8>> {
    match t {
        Some(t) => Some(t.0@),
        None => None,
    }
}

pub open spec fn array_view<const N: usize>(a: Option<[u8; N]>) -> Option<Seq<u8>> {
    match a {
        Some(a) => Some(a@),
        None => None,
    }
}

impl View for PartitionInfo {
    type V = PartitionInfoView;

    open spec fn view(&self) -> PartitionInfoView {
        PartitionInfoView {
            state: self.state,
            segment_count: self.segment_count,
            entry_address: self.entry_address,
            chip_id: self.chip_id,
            hash_appended: self.hash_appended,
            secure_version: self.secure_version,
            version: text_view(self.version),
            project: text_view(self.project),
            time: text_view(self.time),
            date: text_view(self.date),
            sha256: array_view(self.sha256),
            digest_sha256: array_view(self.digest_sha256),
        }
    }
}

/// Nothing known: state `Unavailable`, every field absent.
pub open spec fn blank_info() -> PartitionInfoView {
    PartitionInfoView {
        state: PartitionState::Unavailable,
        segment_count: None,
        entry_address: None,
        chip_id: None,
        hash_appended: None,
        secure_version: None,
        version: None,
        project: None,
        time: None,
        date: None,
        sha256: None,
        digest_sha256: None,
    }
}

pub open spec fn with_state(info: PartitionInfoView, state: PartitionState) -> PartitionInfoView {
    PartitionInfoView { state: state, ..info }
}

/// The states from which a partition may be booted.
pub open spec fn state_activatable(s: PartitionState) -> bool {
    s == PartitionState::Available || s == PartitionState::Foreign || s == PartitionState::Unverified
}

impl PartitionInfo {
    /// Nothing known.
    pub fn blank() -> (r: Self)
        ensures
            r@ == blank_info(),
    {
        PartitionInfo {
            state: PartitionState::Unavailable,
            segment_count: None,
            entry_address: None,
            chip_id: None,
            hash_appended: None,
            secure_version: None,
            version: None,
            project: None,
            time: None,
            date: None,
            sha256: None,
            digest_sha256: None,
        }
    }

    /// Whether the image may be switched to: available, foreign or unverified.
    pub fn activatable(&self) -> (r: bool)
        ensures
            r == state_activatable(self.state),
    {
        match self.state {
            PartitionState::Available | PartitionState::Foreign | PartitionState::Unverified => true,
            _ => false,
        }
    }
}

impl Default for PartitionInfo {
    fn default() -> (r: Self)
        ensures
            r@ == blank_info(),
    {
        PartitionInfo::blank()
    }
}

/// `|`, the field separator of the status texts.
pub open spec fn bar() -> Seq<u8> {
    seq![0x7cu8]
}

/// `state|segment_count|entry_address|chip_id|hash_appended|secure_version|version|project|time|date|sha256|digest_sha256`
pub open spec fn partition_info_text(i: PartitionInfo) -> Seq<u8> {
    i.state.compact_text() + bar() + i.segment_count.compact_text() + bar() + i.entry_address.compact_text()
        + bar() + i.chip_id.compact_text() + bar() + i.hash_appended.compact_text() + bar()
        + i.secure_version.compact_text() + bar() + i.version.compact_text() + bar()
        + i.project.compact_text() + bar() + i.time.compact_text() + bar() + i.date.compact_text()
        + bar() + i.sha256.compact_text() + bar() + i.digest_sha256.compact_text()
}

proof fn lemma_ascii_concat(a: Seq<u8>, b: Seq<u8>)
    requires
        is_ascii_bytes(a),
        is_ascii_bytes(b),
    ensures
        is_ascii_bytes(a + b),
{
    assert forall|i: int| 0 <= i < (a + b).len() implies #[trigger] (a + b)[i] < 128 by {
        if i < a.len() {
            assert((a + b)[i] == a[i]);
        } else {
            assert((a + b)[i] == b[i - a.len()]);
        }
    }
}

/// Appends `|` and the compact text of `v`; keeps the text ASCII.
pub(crate) fn push_field<T: CompactFormat>(out: &mut Vec<u8>, v: &T)
    requires
        is_ascii_bytes(old(out)@),
    ensures
        final(out)@ == old(out)@ + bar() + v.compact_text(),
        is_ascii_bytes(final(out)@),
{
    out.push(0x7cu8);
    v.compact_format(out);
    proof {
        lemma_ascii_concat(old(out)@, bar());
        lemma_ascii_concat(old(out)@ + bar(), v.compact_text());
    }
    assert(out@ =~= old(out)@ + bar() + v.compact_text());
}

impl CompactFormat for PartitionInfo {
    open spec fn compact_text(&self) -> Seq<u8> {
        partition_info_text(*self)
    }

    fn compact_format(&self, out: &mut Vec<u8>) {
        let mut text: Vec<u8> = Vec::new();
        self.state.compact_format(&mut text);
        assert(text@ =~= self.state.compact_text());
        push_field(&mut text, &self.segment_count);
        push_field(&mut text, &self.entry_address);
        push_field(&mut text, &self.chip_id);
        push_field(&mut text, &self.hash_appended);
        push_field(&mut text, &self.secure_version);
        push_field(&mut text, &self.version);
        push_field(&mut text, &self.project);
        push_field(&mut text, &self.time);
        push_field(&mut text, &self.date);
        push_field(&mut text, &self.sha256);
        push_field(&mut text, &self.digest_sha256);
        assert(text@ =~= partition_info_text(*self));
        push_all(out, text.as_slice());
    }
}

/// Text without a `|`.
pub open spec fn bar_free(t: Seq<u8>) -> bool {
    forall|i: int| 0 <= i < t.len() ==> #[trigger] t[i] != 0x7c
}

/// Text without `|` joined to text without `|` has none.
pub proof fn lemma_bar_free_concat(a: Seq<u8>, b: Seq<u8>)
    requires
        bar_free(a),
        bar_free(b),
    ensures
        bar_free(a + b),
{
    assert forall|i: int| 0 <= i < (a + b).len() implies #[trigger] (a + b)[i] != 0x7c by {
        if i < a.len() {
            assert((a + b)[i] == a[i]);
        } else {
            assert((a + b)[i] == b[i - a.len()]);
        }
    }
}

pub proof fn lemma_name_bar_free(s: &str)
    requires
        is_ascii(s),
        forall|i: int| 0 <= i < s@.len() ==> #[trigger] s@[i] != '|',
    ensures
        bar_free(s.spec_bytes()),
{
    lemma_ascii_str(s);
    assert forall|i: int| 0 <= i < s.spec_bytes().len() implies #[trigger] s.spec_bytes()[i] != 0x7c by {
        assert(s.spec_bytes()[i] == s@[i] as u8);
        assert(s@[i] != '|');
        let c = s@[i];
        assert(c <= '\u{7f}');
    }
}

pub proof fn lemma_decimal_bar_free(n: nat)
    ensures
        bar_free(decimal(n)),
        forall|i: int| 0 <= i < decimal(n).len() ==> #[trigger] decimal(n)[i] != 0x3b,
{
    lemma_decimal_ascii(n);
}

proof fn lemma_joined_bytes_bar_free(items: Seq<u8>)
    ensures
        bar_free(joined(items)),
    decreases items.len(),
{
    if items.len() == 1 {
        lemma_decimal_bar_free(items[0] as nat);
    } else if items.len() > 1 {
        lemma_joined_bytes_bar_free(items.drop_last());
        lemma_decimal_bar_free(items.last() as nat);
        let a = joined(items.drop_last());
        let b = items.last().compact_text();
        assert forall|i: int| 0 <= i < joined(items).len() implies #[trigger] joined(items)[i] != 0x7c by {
            assert(joined(items) == a + seq![59u8] + b);
            if i < a.len() {
                assert(joined(items)[i] == a[i]);
            } else if i > a.len() {
                assert(joined(items)[i] == b[i - a.len() - 1]);
            }
        }
    }
}

proof fn lemma_state_bar_free(s: PartitionState)
    ensures
        bar_free(partition_state_name(s)),
{
    match s {
        PartitionState::Unavailable => { reveal_strlit("Unavailable"); lemma_name_bar_free("Unavailable"); },
        PartitionState::Empty => { reveal_strlit("Empty"); lemma_name_bar_free("Empty"); },
        PartitionState::Unknown => { reveal_strlit("Unknown"); lemma_name_bar_free("Unknown"); },
        PartitionState::Broken => { reveal_strlit("Broken"); lemma_name_bar_free("Broken"); },
        PartitionState::Unverified => { reveal_strlit("Unverified"); lemma_name_bar_free("Unverified"); },
        PartitionState::Foreign => { reveal_strlit("Foreign"); lemma_name_bar_free("Foreign"); },
        PartitionState::Available => { reveal_strlit("Available"); lemma_name_bar_free("Available"); },
    }
}

/// No field of the status text holds a `|`, so splitting it on `|` gives back
/// the twelve fields.
pub proof fn lemma_status_fields_have_no_bar(i: PartitionInfo)
    ensures
        bar_free(i.state.compact_text()),
        bar_free(i.segment_count.compact_text()),
        bar_free(i.entry_address.compact_text()),
        bar_free(i.chip_id.compact_text()),
        bar_free(i.hash_appended.compact_text()),
        bar_free(i.secure_version.compact_text()),
        bar_free(i.version.compact_text()),
        bar_free(i.project.compact_text()),
        bar_free(i.time.compact_text()),
        bar_free(i.date.compact_text()),
        bar_free(i.sha256.compact_text()),
        bar_free(i.digest_sha256.compact_text()),
{
    lemma_state_bar_free(i.state);
    if let Some(v) = i.segment_count { lemma_decimal_bar_free(v as nat); }
    if let Some(v) = i.entry_address { lemma_decimal_bar_free(v as nat); }
    if let Some(v) = i.chip_id { lemma_decimal_bar_free(v as nat); }
    if let Some(v) = i.secure_version { lemma_decimal_bar_free(v as nat); }
    if let Some(v) = i.version { lemma_shown_text_ascii(v.0@); }
    if let Some(v) = i.project { lemma_shown_text_ascii(v.0@); }
    if let Some(v) = i.time { lemma_shown_text_ascii(v.0@); }
    if let Some(v) = i.date { lemma_shown_text_ascii(v.0@); }
    if let Some(v) = i.sha256 { lemma_joined_bytes_bar_free(v@); }
    if let Some(v) = i.digest_sha256 { lemma_joined_bytes_bar_free(v@); }
}

/// A state's name takes at most eleven characters.
proof fn lemma_state_name_len(s: PartitionState)
    ensures
        partition_state_name(s).len() <= 11,
{
    match s {
        PartitionState::Unavailable => { reveal_strlit("Unavailable"); lemma_ascii_str("Unavailable"); },
        PartitionState::Empty => { reveal_strlit("Empty"); lemma_ascii_str("Empty"); },
        PartitionState::Unknown => { reveal_strlit("Unknown"); lemma_ascii_str("Unknown"); },
        PartitionState::Broken => { reveal_strlit("Broken"); lemma_ascii_str("Broken"); },
        PartitionState::Unverified => { reveal_strlit("Unverified"); lemma_ascii_str("Unverified"); },
        PartitionState::Foreign => { reveal_strlit("Foreign"); lemma_ascii_str("Foreign"); },
        PartitionState::Available => { reveal_strlit("Available"); lemma_ascii_str("Available"); },
    }
}

/// The status text of a partition takes at most 401 bytes: 11 for the state,
/// 3, 10, 5, 1 and 10 for the numbers and the flag, 32, 32, 16 and 16 for the
/// text fields, 127 for each digest, and 11 separators.
pub proof fn lemma_status_text_len(i: PartitionInfo)
    ensures
        partition_info_text(i).len() <= 401,
{
    lemma_state_name_len(i.state);
    assert(i.segment_count.compact_text().len() <= 3) by {
        if let Some(v) = i.segment_count { lemma_decimal_len_of_width(v as nat); }
    }
    assert(i.entry_address.compact_text().len() <= 10) by {
        if let Some(v) = i.entry_address { lemma_decimal_len_of_width(v as nat); }
    }
    assert(i.chip_id.compact_text().len() <= 5) by {
        if let Some(v) = i.chip_id { lemma_decimal_len_of_width(v as nat); }
    }
    assert(i.hash_appended.compact_text().len() <= 1);
    assert(i.secure_version.compact_text().len() <= 10) by {
        if let Some(v) = i.secure_version { lemma_decimal_len_of_width(v as nat); }
    }
    assert(i.version.compact_text().len() <= 32) by {
        if let Some(v) = i.version { lemma_shown_text_len(v.0@); }
    }
    assert(i.project.compact_text().len() <= 32) by {
        if let Some(v) = i.project { lemma_shown_text_len(v.0@); }
    }
    assert(i.time.compact_text().len() <= 16) by {
        if let Some(v) = i.time { lemma_shown_text_len(v.0@); }
    }
    assert(i.date.compact_text().len() <= 16) by {
        if let Some(v) = i.date { lemma_shown_text_len(v.0@); }
    }
    assert(i.sha256.compact_text().len() <= 127) by {
        if let Some(v) = i.sha256 { lemma_joined_bytes_len(v@); }
    }
    assert(i.digest_sha256.compact_text().len() <= 127) by {
        if let Some(v) = i.digest_sha256 { lemma_joined_bytes_len(v@); }
    }
}

/// Little-endian 16-bit value at `at`.
pub open spec fn le_u16(s: Seq<u8>, at: int) -> u16 {
    (s[at] + 256 * s[at + 1]) as u16
}

/// Little-endian 32-bit value at `at`.
pub open spec fn le_u32(s: Seq<u8>, at: int) -> u32 {
    (s[at] + 256 * s[at + 1] + 65536 * s[at + 2] + 16777216 * s[at + 3]) as u32
}

fn read_le_u16(s: &[u8], at: usize) -> (r: u16)
    requires
        at + 2 <= s@.len(),
    ensures
        r == le_u16(s@, at as int),
{
    (s[at] as u16) + (s[at + 1] as u16) * 256
}

fn read_le_u32(s: &[u8], at: usize) -> (r: u32)
    requires
        at + 4 <= s@.len(),
    ensures
        r == le_u32(s@, at as int),
{
    (s[at] as u32) + (s[at + 1] as u32) * 256 + (s[at + 2] as u32) * 65536 + (s[at + 3] as u32) * 16777216
}

fn copy_array<const N: usize>(s: &[u8], at: usize) -> (r: [u8; N])
    requires
        at + N <= s@.len(),
    ensures
        r@ == s@.subrange(at as int, at + N),
{
    let mut bytes: [u8; N] = [0u8; N];
    let n = s.len();
    let mut i: usize = 0;
    while i < N
        invariant
            i <= N,
            n == s@.len(),
            at + N <= s@.len(),
            bytes@.len() == N,
            forall|k: int| 0 <= k < i ==> bytes@[k] == s@[at + k],
        decreases N - i,
    {
        assert(at + i < s@.len());
        bytes[i] = s[at + i];
        i = i + 1;
    }
    assert(bytes@ =~= s@.subrange(at as int, at + N));
    bytes
}

/// What the first [`PARTITION_HEADER_LENGTH`] bytes of a partition say.
/// `Unavailable` in the result means: well-formed so far, the segments are
/// next to check.
pub open spec fn decode_header(h: Seq<u8>) -> PartitionInfoView {
    if h[0] != IMAGE_MAGIC {
        with_state(blank_info(), PartitionState::Empty)
    } else {
        let basic = PartitionInfoView {
            segment_count: Some(h[1]),
            entry_address: Some(le_u32(h, 4)),
            chip_id: Some(le_u16(h, 12)),
            hash_appended: Some(h[23] != 0),
            ..blank_info()
        };
        if le_u32(h, 32) != DESCRIPTOR_MAGIC {
            with_state(basic, PartitionState::Unknown)
        } else {
            let full = PartitionInfoView {
                secure_version: Some(le_u32(h, 36)),
                version: Some(h.subrange(48, 80)),
                project: Some(h.subrange(80, 112)),
                time: Some(h.subrange(112, 128)),
                date: Some(h.subrange(128, 144)),
                sha256: Some(h.subrange(176, 208)),
                ..basic
            };
            if h[1] > MAX_SEGMENTS {
                with_state(full, PartitionState::Broken)
            } else {
                full
            }
        }
    }
}

/// `x` rounded up to a multiple of 16.
pub open spec fn round_up_16(x: int) -> int {
    ((x + 15) / 16) * 16
}

/// Where an inspection stands.
#[derive(Clone, Copy, Debug, PartialEq, Eq, Structural)]
pub enum InspectPhase {
    /// Waiting for the headers and the descriptor.
    Header,
    /// Walking the segment headers.
    Segments,
    /// Hashing the image.
    Digest,
    /// Waiting for the digest appended to the image.
    Trailer,
    /// Decided.
    Done,
}

/// The state of an inspection.
pub struct InspectorView {
    pub phase: InspectPhase,
    pub info: PartitionInfoView,
    /// Offset of the next segment header.
    pub cursor: nat,
    /// Segment headers still to read.
    pub remaining: nat,
    /// Length of the image, checksum byte and padding included.
    pub image_length: nat,
    /// Image bytes hashed so far.
    pub absorbed: Seq<u8>,
    pub partition_length: nat,
    pub expected_length: Option<usize>,
    pub project: Seq<u8>,
}

/// An inspection that has not read anything.
pub open spec fn inspect_start(partition_length: nat, expected_length: Option<usize>, project: Seq<u8>) -> InspectorView {
    InspectorView {
        phase: InspectPhase::Header,
        info: blank_info(),
        cursor: 0,
        remaining: 0,
        image_length: 0,
        absorbed: Seq::empty(),
        partition_length: partition_length,
        expected_length: expected_length,
        project: project,
    }
}

/// The read an inspection waits for: offset and length in the partition.
pub open spec fn inspect_request(v: InspectorView) -> Option<(int, int)> {
    match v.phase {
        InspectPhase::Header => Some((0, PARTITION_HEADER_LENGTH as int)),
        InspectPhase::Segments => Some((v.cursor as int, SEGMENT_HEADER_LENGTH as int)),
        InspectPhase::Digest => {
            let left = v.image_length - v.absorbed.len();
            Some((v.absorbed.len() as int, if left < SECTOR_SIZE { left } else { SECTOR_SIZE as int }))
        },
        InspectPhase::Trailer => Some((v.image_length as int, DIGEST_LENGTH as int)),
        InspectPhase::Done => None,
    }
}

pub open spec fn finish(v: InspectorView, state: PartitionState) -> InspectorView {
    InspectorView { phase: InspectPhase::Done, info: with_state(v.info, state), ..v }
}

/// Length check of the walked image; then hashing starts.
pub open spec fn after_segments(v: InspectorView) -> InspectorView {
    let image_length = round_up_16(v.cursor + 1int);
    let appended: int = if v.info.hash_appended == Some(true) { DIGEST_LENGTH as int } else { 0 };
    if v.expected_length matches Some(e) && image_length + appended != (e as u32) {
        finish(v, PartitionState::Broken)
    } else if image_length < PARTITION_HEADER_LENGTH || image_length > v.partition_length {
        finish(v, PartitionState::Broken)
    } else {
        InspectorView {
            phase: InspectPhase::Digest,
            image_length: image_length as nat,
            absorbed: Seq::empty(),
            ..v
        }
    }
}

/// Whether the descriptor names a project other than `project`.
pub open spec fn is_foreign(info: PartitionInfoView, project: Seq<u8>) -> bool {
    match info.project {
        Some(p) => !(project.len() <= p.len() && p.subrange(0, project.len() as int) == project),
        None => false,
    }
}

/// The whole image is hashed: the digest is recorded; an image without an
/// appended digest ends unverified.
pub open spec fn after_digest(v: InspectorView) -> InspectorView {
    let info = PartitionInfoView { digest_sha256: Some(sha256(v.absorbed)), ..v.info };
    if v.info.hash_appended != Some(true) {
        InspectorView {
            phase: InspectPhase::Done,
            info: with_state(info, PartitionState::Unverified),
            absorbed: Seq::empty(),
            ..v
        }
    } else {
        InspectorView { phase: InspectPhase::Trailer, info: info, absorbed: Seq::empty(), ..v }
    }
}

/// One step of an inspection: the answer to [`inspect_request`] was `data`
/// (`None`: the read failed).
pub open spec fn inspect_step(v: InspectorView, data: Option<Seq<u8>>) -> InspectorView {
    match v.phase {
        InspectPhase::Header => match data {
            None => InspectorView { phase: InspectPhase::Done, ..v },
            Some(h) => {
                let info = decode_header(h);
                if info.state != PartitionState::Unavailable {
                    InspectorView { phase: InspectPhase::Done, info: info, ..v }
                } else {
                    let w = InspectorView {
                        info: info,
                        cursor: IMAGE_HEADER_LENGTH as nat,
                        remaining: h[1] as nat,
                        ..v
                    };
                    if h[1] == 0 {
                        after_segments(w)
                    } else {
                        InspectorView { phase: InspectPhase::Segments, ..w }
                    }
                }
            },
        },
        InspectPhase::Segments => match data {
            None => finish(v, PartitionState::Broken),
            Some(s) => {
                let length = le_u32(s, 4);
                if length % 4 != 0 || length > v.partition_length {
                    finish(v, PartitionState::Broken)
                } else {
                    let w = InspectorView {
                        cursor: (v.cursor + SEGMENT_HEADER_LENGTH + length) as nat,
                        remaining: (v.remaining - 1) as nat,
                        ..v
                    };
                    if v.remaining == 1 {
                        after_segments(w)
                    } else {
                        w
                    }
                }
            },
        },
        InspectPhase::Digest => match data {
            None => finish(v, PartitionState::Broken),
            Some(c) => {
                let w = InspectorView { absorbed: v.absorbed + c, ..v };
                if w.absorbed.len() == v.image_length {
                    after_digest(w)
                } else {
                    w
                }
            },
        },
        InspectPhase::Trailer => match data {
            None => finish(v, PartitionState::Broken),
            Some(t) => {
                if v.info.digest_sha256 != Some(t) {
                    finish(v, PartitionState::Broken)
                } else if is_foreign(v.info, v.project) {
                    finish(v, PartitionState::Foreign)
                } else {
                    finish(v, PartitionState::Available)
                }
            },
        },
        InspectPhase::Done => v,
    }
}

/// Largest growth of the segment cursor per segment.
pub open spec fn segment_step_max() -> int {
    SEGMENT_HEADER_LENGTH + MAX_PARTITION_LENGTH
}

/// Decides what an application partition holds, from reads its caller makes.
pub struct Inspector {
    phase: InspectPhase,
    info: PartitionInfo,
    cursor: u32,
    remaining: u8,
    image_length: u32,
    digested: u32,
    hasher: Sha256Stream,
    partition_length: u32,
    expected_length: Option<usize>,
    project: Vec<u8>,
}

/// `digested` is not in the view: while hashing it is the length of
/// `absorbed` (see [`Inspector::wf`]), and it is not read in other phases.
impl View for Inspector {
    type V = InspectorView;

    closed spec fn view(&self) -> InspectorView {
        InspectorView {
            phase: self.phase,
            info: self.info@,
            cursor: self.cursor as nat,
            remaining: self.remaining as nat,
            image_length: self.image_length as nat,
            absorbed: sha256_absorbed(self.hasher),
            partition_length: self.partition_length as nat,
            expected_length: self.expected_length,
            project: self.project@,
        }
    }
}

pub open spec fn opt_bytes(d: Option<&[u8]>) -> Option<Seq<u8>> {
    match d {
        Some(s) => Some(s@),
        None => None,
    }
}

impl Inspector {
    /// The invariant of an inspection in progress.
    pub closed spec fn wf(&self) -> bool {
        &&& self.partition_length <= MAX_PARTITION_LENGTH
        &&& self.phase == InspectPhase::Header ==> self.info@ == blank_info()
        &&& (self.phase == InspectPhase::Header || self.phase == InspectPhase::Segments)
            ==> sha256_absorbed(self.hasher) == Seq::<u8>::empty()
        &&& self.phase == InspectPhase::Segments ==> {
            &&& 1 <= self.remaining <= MAX_SEGMENTS
            &&& self.cursor + self.remaining * segment_step_max() <= IMAGE_HEADER_LENGTH + MAX_SEGMENTS * segment_step_max()
            }
        &&& self.phase == InspectPhase::Digest ==> {
            &&& PARTITION_HEADER_LENGTH <= self.image_length <= self.partition_length
            &&& self.digested == sha256_absorbed(self.hasher).len()
            &&& self.digested < self.image_length
            }
        &&& self.phase == InspectPhase::Trailer ==> self.image_length <= self.partition_length
            && self.info.digest_sha256 is Some
    }

    /// An inspection of a partition of `partition_length` bytes; with
    /// `expected_length`, the image must have that length (with its appended
    /// digest); `project` is the name this firmware's images carry.
    pub fn new(partition_length: u32, expected_length: Option<usize>, project: &[u8]) -> (r: Self)
        requires
            partition_length <= MAX_PARTITION_LENGTH,
        ensures
            r.wf(),
            r@ == inspect_start(partition_length as nat, expected_length, project@),
    {
        let mut copy: Vec<u8> = Vec::new();
        push_all(&mut copy, project);
        assert(copy@ =~= project@);
        Inspector {
            phase: InspectPhase::Header,
            info: PartitionInfo::blank(),
            cursor: 0,
            remaining: 0,
            image_length: 0,
            digested: 0,
            hasher: sha256_new(),
            partition_length,
            expected_length,
            project: copy,
        }
    }

    /// The read the inspection waits for, or `None` once it has decided.
    pub fn next_read(&self) -> (r: Option<(u32, usize)>)
        requires
            self.wf(),
        ensures
            r matches Some((offset, length)) ==> inspect_request(self@) == Some((offset as int, length as int)),
            r is None ==> inspect_request(self@) is None,
    {
        match self.phase {
            InspectPhase::Header => Some((0, PARTITION_HEADER_LENGTH)),
            InspectPhase::Segments => Some((self.cursor, SEGMENT_HEADER_LENGTH as usize)),
            InspectPhase::Digest => {
                let left = self.image_length - self.digested;
                let length: u32 = if left < SECTOR_SIZE { left } else { SECTOR_SIZE };
                Some((self.digested, length as usize))
            },
            InspectPhase::Trailer => Some((self.image_length, DIGEST_LENGTH)),
            InspectPhase::Done => None,
        }
    }

    /// Whether the inspection has decided.
    pub fn is_done(&self) -> (r: bool)
        ensures
            r == (self@.phase == InspectPhase::Done),
    {
        self.phase == InspectPhase::Done
    }

    /// What is known so far; the verdict once the inspection is done.
    pub fn info(&self) -> (r: PartitionInfo)
        ensures
            r@ == self@.info,
    {
        self.info
    }

    fn set_state(&mut self, state: PartitionState)
        ensures
            final(self)@ == finish(old(self)@, state),
            final(self).partition_length == old(self).partition_length,
            final(self).info.digest_sha256 == old(self).info.digest_sha256,
    {
        self.info.state = state;
        self.phase = InspectPhase::Done;
    }

    /// Image length from the walked segments, then the length checks.
    fn finish_segments(&mut self)
        requires
            old(self).partition_length <= MAX_PARTITION_LENGTH,
            old(self).cursor <= IMAGE_HEADER_LENGTH + MAX_SEGMENTS * segment_step_max(),
            sha256_absorbed(old(self).hasher) == Seq::<u8>::empty(),
        ensures
            final(self)@ == after_segments(old(self)@),
            final(self).wf(),
    {
        let image_length: u32 = ((self.cursor + 1 + 15) / 16) * 16;
        let appended: u32 = if self.info.hash_appended == Some(true) { DIGEST_LENGTH as u32 } else { 0 };
        let mismatch = match self.expected_length {
            Some(e) => image_length + appended != (e as u32),
            None => false,
        };
        if mismatch {
            self.set_state(PartitionState::Broken);
            return;
        }
        if image_length < PARTITION_HEADER_LENGTH as u32 || image_length > self.partition_length {
            self.set_state(PartitionState::Broken);
            return;
        }
        self.image_length = image_length;
        self.digested = 0;
        self.phase = InspectPhase::Digest;
        assert(self@.absorbed =~= Seq::<u8>::empty());
    }

    /// Takes the answer to [`Inspector::next_read`]: the bytes read, or `None`
    /// when the read failed.
    pub fn feed(&mut self, data: Option<&[u8]>)
        requires
            old(self).wf(),
            old(self)@.phase != InspectPhase::Done,
            data matches Some(d) ==> inspect_request(old(self)@) matches Some((_, length)) && d@.len() == length,
        ensures
            final(self).wf(),
            final(self)@ == inspect_step(old(self)@, opt_bytes(data)),
    {
        match self.phase {
            InspectPhase::Header => self.feed_header(data),
            InspectPhase::Segments => self.feed_segment(data),
            InspectPhase::Digest => self.feed_digest(data),
            InspectPhase::Trailer => self.feed_trailer(data),
            InspectPhase::Done => {},
        }
    }

    fn feed_header(&mut self, data: Option<&[u8]>)
        requires
            old(self).wf(),
            old(self)@.phase == InspectPhase::Header,
            old(self)@.info == blank_info(),
            sha256_absorbed(old(self).hasher) == Seq::<u8>::empty(),
            data matches Some(d) ==> d@.len() == PARTITION_HEADER_LENGTH,
        ensures
            final(self).wf(),
            final(self)@ == inspect_step(old(self)@, opt_bytes(data)),
    {
        let h = match data {
            None => {
                self.phase = InspectPhase::Done;
                return;
            },
            Some(h) => h,
        };
        let ghost hv = h@;
        if h[0] != IMAGE_MAGIC {
            self.set_state(PartitionState::Empty);
            return;
        }
        self.info.segment_count = Some(h[1]);
        self.info.entry_address = Some(read_le_u32(h, 4));
        self.info.chip_id = Some(read_le_u16(h, 12));
        self.info.hash_appended = Some(h[23] != 0);
        if read_le_u32(h, DESCRIPTOR_OFFSET) != DESCRIPTOR_MAGIC {
            self.set_state(PartitionState::Unknown);
            return;
        }
        self.info.secure_version = Some(read_le_u32(h, DESCRIPTOR_OFFSET + 4));
        self.info.version = Some(TextBytes(copy_array::<32>(h, DESCRIPTOR_OFFSET + 16)));
        self.info.project = Some(TextBytes(copy_array::<32>(h, DESCRIPTOR_OFFSET + 48)));
        self.info.time = Some(TextBytes(copy_array::<16>(h, DESCRIPTOR_OFFSET + 80)));
        self.info.date = Some(TextBytes(copy_array::<16>(h, DESCRIPTOR_OFFSET + 96)));
        self.info.sha256 = Some(copy_array::<32>(h, DESCRIPTOR_OFFSET + 144));
        let segments = h[1];
        if segments > MAX_SEGMENTS {
            self.set_state(PartitionState::Broken);
            return;
        }
        assert(self@.info == decode_header(hv));
        self.cursor = IMAGE_HEADER_LENGTH;
        self.remaining = segments;
        if segments == 0 {
            self.finish_segments();
        } else {
            self.phase = InspectPhase::Segments;
        }
    }

    fn feed_segment(&mut self, data: Option<&[u8]>)
        requires
            old(self).wf(),
            old(self)@.phase == InspectPhase::Segments,
            sha256_absorbed(old(self).hasher) == Seq::<u8>::empty(),
            data matches Some(d) ==> d@.len() == SEGMENT_HEADER_LENGTH,
        ensures
            final(self).wf(),
            final(self)@ == inspect_step(old(self)@, opt_bytes(data)),
    {
        let s = match data {
            None => {
                self.set_state(PartitionState::Broken);
                return;
            },
            Some(s) => s,
        };
        let length = read_le_u32(s, 4);
        if length % 4 != 0 || length > self.partition_length {
            self.set_state(PartitionState::Broken);
            return;
        }
        self.cursor = self.cursor + SEGMENT_HEADER_LENGTH + length;
        self.remaining = self.remaining - 1;
        if self.remaining == 0 {
            self.finish_segments();
        }
    }

    fn feed_digest(&mut self, data: Option<&[u8]>)
        requires
            old(self).wf(),
            old(self)@.phase == InspectPhase::Digest,
            data matches Some(d) ==> inspect_request(old(self)@) matches Some((_, length)) && d@.len() == length,
        ensures
            final(self).wf(),
            final(self)@ == inspect_step(old(self)@, opt_bytes(data)),
    {
        let c = match data {
            None => {
                self.set_state(PartitionState::Broken);
                return;
            },
            Some(c) => c,
        };
        sha256_update(&mut self.hasher, c);
        self.digested = self.digested + c.len() as u32;
        if self.digested == self.image_length {
            let ghost absorbed = sha256_absorbed(self.hasher);
            let mut finished = sha256_new();
            core::mem::swap(&mut finished, &mut self.hasher);
            let digest = sha256_finalize(finished);
            self.info.digest_sha256 = Some(digest);
            if self.info.hash_appended != Some(true) {
                self.info.state = PartitionState::Unverified;
                self.phase = InspectPhase::Done;
            } else {
                self.phase = InspectPhase::Trailer;
            }
            assert(self@.absorbed =~= Seq::<u8>::empty());
        }
    }

    fn feed_trailer(&mut self, data: Option<&[u8]>)
        requires
            old(self).wf(),
            old(self)@.phase == InspectPhase::Trailer,
            data matches Some(d) ==> d@.len() == DIGEST_LENGTH,
        ensures
            final(self).wf(),
            final(self)@ == inspect_step(old(self)@, opt_bytes(data)),
    {
        let t = match data {
            None => {
                self.set_state(PartitionState::Broken);
                return;
            },
            Some(t) => t,
        };
        let digest = match self.info.digest_sha256 {
            Some(d) => d,
            None => {
                self.set_state(PartitionState::Broken);
                return;
            },
        };
        let mut same = true;
        let mut i: usize = 0;
        while i < DIGEST_LENGTH
            invariant
                i <= DIGEST_LENGTH,
                t@.len() == DIGEST_LENGTH,
                digest@.len() == DIGEST_LENGTH,
                same == (forall|k: int| 0 <= k < i ==> digest@[k] == t@[k]),
            decreases DIGEST_LENGTH - i,
        {
            if digest[i] != t[i] {
                same = false;
            }
            i = i + 1;
        }
        if !same {
            assert(digest@ != t@) by {
                let k = choose|k: int| 0 <= k < DIGEST_LENGTH && digest@[k] != t@[k];
            }
            self.set_state(PartitionState::Broken);
            return;
        }
        assert(digest@ =~= t@);
        let foreign = match &self.info.project {
            Some(p) => !p.starts_with(self.project.as_slice()),
            None => false,
        };
        if foreign {
            self.set_state(PartitionState::Foreign);
        } else {
            self.set_state(PartitionState::Available);
        }
    }
}


/// A read of `length` bytes at `offset` from a partition that holds `p`: it
/// succeeds exactly when it lies inside the partition.
pub open spec fn flash_read(p: Seq<u8>, offset: int, length: int) -> Option<Seq<u8>> {
    if 0 <= offset < p.len() && offset + length <= p.len() {
        Some(p.subrange(offset, offset + length))
    } else {
        None
    }
}

/// Where the segment walk that starts at `cursor` with `n` segments left ends,
/// or `None` when a segment header cannot be read or is malformed.
pub open spec fn segments_end(p: Seq<u8>, cursor: int, n: nat) -> Option<int>
    decreases n,
{
    if n == 0 {
        Some(cursor)
    } else {
        match flash_read(p, cursor, SEGMENT_HEADER_LENGTH as int) {
            None => None,
            Some(s) => {
                let length = le_u32(s, 4);
                if length % 4 != 0 || length > p.len() {
                    None
                } else {
                    segments_end(p, cursor + SEGMENT_HEADER_LENGTH + length, (n - 1) as nat)
                }
            },
        }
    }
}

/// What a partition holding `p` is: its headers decoded; `Broken` when the
/// segments run off the partition, the length is not the expected one, or the
/// appended digest differs from the digest of the image; `Unverified` without an
/// appended digest; `Foreign` when the descriptor names another project;
/// `Available` otherwise.
pub open spec fn image_verdict(p: Seq<u8>, expected_length: Option<usize>, project: Seq<u8>) -> PartitionInfoView {
    if p.len() < PARTITION_HEADER_LENGTH {
        blank_info()
    } else {
        let h = p.subrange(0, PARTITION_HEADER_LENGTH as int);
        let info = decode_header(h);
        if info.state != PartitionState::Unavailable {
            info
        } else {
            match segments_end(p, IMAGE_HEADER_LENGTH as int, h[1] as nat) {
                None => with_state(info, PartitionState::Broken),
                Some(end) => {
                    let image_length = round_up_16(end + 1);
                    let appended: int = if info.hash_appended == Some(true) { DIGEST_LENGTH as int } else { 0 };
                    if expected_length matches Some(e) && image_length + appended != (e as u32) {
                        with_state(info, PartitionState::Broken)
                    } else if image_length < PARTITION_HEADER_LENGTH || image_length > p.len() {
                        with_state(info, PartitionState::Broken)
                    } else {
                        let hashed = PartitionInfoView {
                            digest_sha256: Some(sha256(p.subrange(0, image_length))),
                            ..info
                        };
                        if info.hash_appended != Some(true) {
                            with_state(hashed, PartitionState::Unverified)
                        } else {
                            match flash_read(p, image_length, DIGEST_LENGTH as int) {
                                None => with_state(hashed, PartitionState::Broken),
                                Some(t) => if hashed.digest_sha256 != Some(t) {
                                    with_state(hashed, PartitionState::Broken)
                                } else if is_foreign(hashed, project) {
                                    with_state(hashed, PartitionState::Foreign)
                                } else {
                                    with_state(hashed, PartitionState::Available)
                                },
                            }
                        }
                    }
                },
            }
        }
    }
}

/// An inspection fed from a partition holding `p` is on course: what it holds
/// is what the reads so far determine.
pub open spec fn inspect_consistent(v: InspectorView, p: Seq<u8>, expected_length: Option<usize>, project: Seq<u8>) -> bool {
    let h = p.subrange(0, PARTITION_HEADER_LENGTH as int);
    let header = decode_header(h);
    let end = segments_end(p, IMAGE_HEADER_LENGTH as int, h[1] as nat);
    &&& v.partition_length == p.len()
    &&& v.expected_length == expected_length
    &&& v.project == project
    &&& match v.phase {
        InspectPhase::Header => v.info == blank_info() && v.absorbed == Seq::<u8>::empty(),
        InspectPhase::Segments => {
            &&& v.absorbed == Seq::<u8>::empty()
            &&& p.len() >= PARTITION_HEADER_LENGTH
            &&& v.info == header
            &&& header.state == PartitionState::Unavailable
            &&& v.remaining >= 1
            &&& segments_end(p, v.cursor as int, v.remaining) == end
        },
        InspectPhase::Digest => {
            &&& p.len() >= PARTITION_HEADER_LENGTH
            &&& v.info == header
            &&& header.state == PartitionState::Unavailable
            &&& end matches Some(e) && v.image_length == round_up_16(e + 1)
            &&& !(expected_length matches Some(x) && v.image_length + (if header.hash_appended == Some(true) { DIGEST_LENGTH as int } else { 0int }) != (x as u32))
            &&& PARTITION_HEADER_LENGTH <= v.image_length <= p.len()
            &&& v.absorbed.len() < v.image_length
            &&& v.absorbed == p.subrange(0, v.absorbed.len() as int)
        },
        InspectPhase::Trailer => {
            &&& p.len() >= PARTITION_HEADER_LENGTH
            &&& header.state == PartitionState::Unavailable
            &&& end matches Some(e) && v.image_length == round_up_16(e + 1)
            &&& !(expected_length matches Some(x) && v.image_length + (if header.hash_appended == Some(true) { DIGEST_LENGTH as int } else { 0int }) != (x as u32))
            &&& PARTITION_HEADER_LENGTH <= v.image_length <= p.len()
            &&& header.hash_appended == Some(true)
            &&& v.info == PartitionInfoView {
                digest_sha256: Some(sha256(p.subrange(0, v.image_length as int))),
                ..header
            }
        },
        InspectPhase::Done => v.info == image_verdict(p, expected_length, project),
    }
}

/// How much work an inspection fed from a partition of at most `bound` bytes
/// has left.
pub open spec fn inspect_measure(v: InspectorView, bound: int) -> int {
    match v.phase {
        InspectPhase::Header => 4 * bound,
        InspectPhase::Segments => 3 * bound + v.remaining,
        InspectPhase::Digest => 2 * bound + v.image_length - v.absorbed.len(),
        InspectPhase::Trailer => bound,
        InspectPhase::Done => 0,
    }
}

/// A fresh inspection of a partition holding `p` is on course.
pub proof fn lemma_inspect_start(p: Seq<u8>, expected_length: Option<usize>, project: Seq<u8>)
    ensures
        inspect_consistent(inspect_start(p.len(), expected_length, project), p, expected_length, project),
{
}

pub open spec fn step_on_course(v: InspectorView, p: Seq<u8>, expected_length: Option<usize>, project: Seq<u8>) -> bool {
    let (offset, length) = inspect_request(v).unwrap();
    let w = inspect_step(v, flash_read(p, offset, length));
    &&& inspect_consistent(w, p, expected_length, project)
    &&& 0 <= inspect_measure(w, p.len() + 256int) < inspect_measure(v, p.len() + 256int)
}

proof fn lemma_step_header(v: InspectorView, p: Seq<u8>, expected_length: Option<usize>, project: Seq<u8>)
    requires
        inspect_consistent(v, p, expected_length, project),
        v.phase == InspectPhase::Header,
    ensures
        step_on_course(v, p, expected_length, project),
{
    let h = p.subrange(0, PARTITION_HEADER_LENGTH as int);
    if p.len() >= PARTITION_HEADER_LENGTH {
        assert(flash_read(p, 0, PARTITION_HEADER_LENGTH as int) == Some(h));
        if decode_header(h).state == PartitionState::Unavailable && h[1] == 0 {
            assert(segments_end(p, IMAGE_HEADER_LENGTH as int, 0) == Some(IMAGE_HEADER_LENGTH as int));
            let w = InspectorView {
                info: decode_header(h),
                cursor: IMAGE_HEADER_LENGTH as nat,
                remaining: 0,
                ..v
            };
            lemma_after_segments(w, p, expected_length, project);
        }
    }
}

proof fn lemma_after_segments(w: InspectorView, p: Seq<u8>, expected_length: Option<usize>, project: Seq<u8>)
    requires
        p.len() >= PARTITION_HEADER_LENGTH,
        w.partition_length == p.len(),
        w.expected_length == expected_length,
        w.project == project,
        w.info == decode_header(p.subrange(0, PARTITION_HEADER_LENGTH as int)),
        w.info.state == PartitionState::Unavailable,
        w.absorbed == Seq::<u8>::empty(),
        segments_end(p, IMAGE_HEADER_LENGTH as int, p.subrange(0, PARTITION_HEADER_LENGTH as int)[1] as nat)
            == Some(w.cursor as int),
    ensures
        inspect_consistent(after_segments(w), p, expected_length, project),
        after_segments(w).phase == InspectPhase::Digest || after_segments(w).phase == InspectPhase::Done,
        after_segments(w).phase == InspectPhase::Digest ==> after_segments(w).image_length <= p.len(),
{
    let h = p.subrange(0, PARTITION_HEADER_LENGTH as int);
    let info = decode_header(h);
    let end = w.cursor as int;
    let image_length = round_up_16(end + 1);
    let appended: int = if info.hash_appended == Some(true) { DIGEST_LENGTH as int } else { 0 };
    let r = after_segments(w);
    let verdict = image_verdict(p, expected_length, project);
    if expected_length matches Some(e) && image_length + appended != (e as u32) {
        assert(r.info == with_state(info, PartitionState::Broken));
        assert(verdict == with_state(info, PartitionState::Broken));
    } else if image_length < PARTITION_HEADER_LENGTH || image_length > p.len() {
        assert(r.info == with_state(info, PartitionState::Broken));
        assert(verdict == with_state(info, PartitionState::Broken));
    } else {
        assert(r.phase == InspectPhase::Digest);
        assert(r.image_length == image_length);
        assert(r.info == info);
        assert(r.absorbed.len() < r.image_length);
        assert(r.absorbed == p.subrange(0, r.absorbed.len() as int));
        assert(PARTITION_HEADER_LENGTH <= r.image_length <= p.len());
        assert(!(expected_length matches Some(x) && r.image_length + (if info.hash_appended == Some(true) { DIGEST_LENGTH as int } else { 0int }) != (x as u32)));
    }
}

#[verifier::rlimit(40)]
proof fn lemma_step_segments(v: InspectorView, p: Seq<u8>, expected_length: Option<usize>, project: Seq<u8>)
    requires
        inspect_consistent(v, p, expected_length, project),
        v.phase == InspectPhase::Segments,
    ensures
        step_on_course(v, p, expected_length, project),
{
    let h = p.subrange(0, PARTITION_HEADER_LENGTH as int);
    let end = segments_end(p, IMAGE_HEADER_LENGTH as int, h[1] as nat);
    let data = flash_read(p, v.cursor as int, SEGMENT_HEADER_LENGTH as int);
    assert(segments_end(p, v.cursor as int, v.remaining) == end);
    match data {
        None => {
            assert(end is None);
        },
        Some(s) => {
            let len = le_u32(s, 4);
            if len % 4 != 0 || len > p.len() {
                assert(end is None);
            } else {
                let next = v.cursor + SEGMENT_HEADER_LENGTH + len;
                assert(segments_end(p, next, (v.remaining - 1) as nat) == end);
                let w = InspectorView {
                    cursor: next as nat,
                    remaining: (v.remaining - 1) as nat,
                    ..v
                };
                if v.remaining == 1 {
                    assert(segments_end(p, next, 0) == Some(next));
                    lemma_after_segments(w, p, expected_length, project);
                }
            }
        },
    }
}

proof fn lemma_step_digest(v: InspectorView, p: Seq<u8>, expected_length: Option<usize>, project: Seq<u8>)
    requires
        inspect_consistent(v, p, expected_length, project),
        v.phase == InspectPhase::Digest,
    ensures
        step_on_course(v, p, expected_length, project),
{
    let (offset, length) = inspect_request(v).unwrap();
    assert(offset == v.absorbed.len());
    assert(length > 0);
    assert(flash_read(p, offset, length) == Some(p.subrange(offset, offset + length)));
    let absorbed = v.absorbed + p.subrange(offset, offset + length);
    assert(absorbed =~= p.subrange(0, offset + length));
}

proof fn lemma_step_trailer(v: InspectorView, p: Seq<u8>, expected_length: Option<usize>, project: Seq<u8>)
    requires
        inspect_consistent(v, p, expected_length, project),
        v.phase == InspectPhase::Trailer,
    ensures
        step_on_course(v, p, expected_length, project),
{
}

/// Answering an inspection's read from the bytes `p` of the partition keeps it
/// on course and brings it closer to its verdict; so an inspection fed from a
/// partition ends, with the verdict [`image_verdict`] of `p`.
pub proof fn lemma_inspect_step(v: InspectorView, p: Seq<u8>, expected_length: Option<usize>, project: Seq<u8>)
    requires
        inspect_consistent(v, p, expected_length, project),
        v.phase != InspectPhase::Done,
    ensures
        step_on_course(v, p, expected_length, project),
{
    match v.phase {
        InspectPhase::Header => lemma_step_header(v, p, expected_length, project),
        InspectPhase::Segments => lemma_step_segments(v, p, expected_length, project),
        InspectPhase::Digest => lemma_step_digest(v, p, expected_length, project),
        InspectPhase::Trailer => lemma_step_trailer(v, p, expected_length, project),
        InspectPhase::Done => {},
    }
}

/// An inspection on course that has decided holds [`image_verdict`] of `p`.
pub proof fn lemma_inspect_verdict(v: InspectorView, p: Seq<u8>, expected_length: Option<usize>, project: Seq<u8>)
    requires
        inspect_consistent(v, p, expected_length, project),
        v.phase == InspectPhase::Done,
    ensures
        v.info == image_verdict(p, expected_length, project),
{
}

/// The length field of the segment header at `at`: its bytes 4 to 7,
/// little-endian.
pub open spec fn segment_length_at(p: Seq<u8>, at: int) -> int {
    p[at + 4] + 256 * p[at + 5] + 65536 * p[at + 6] + 16777216 * p[at + 7]
}

/// The segment walk goes through every segment header in turn: a walk of no
/// segments ends where it starts, and a walk of `n + 1` segments is the walk of
/// `n` followed by one more header, read where the walk of `n` ended, whose
/// length (a multiple of four, at most the partition's) moves the walk on by
/// the header and that length; a header that cannot be read or is invalid
/// stops the walk.
pub proof fn lemma_segment_walk(p: Seq<u8>, cursor: int, n: nat)
    requires
        0 <= cursor,
    ensures
        segments_end(p, cursor, 0) == Some(cursor),
        segments_end(p, cursor, n) matches Some(e) ==> e >= cursor,
        segments_end(p, cursor, n + 1) == match segments_end(p, cursor, n) {
            None => None,
            Some(e) => if e + 8 <= p.len() && e < p.len() && segment_length_at(p, e) % 4 == 0
                && segment_length_at(p, e) <= p.len() {
                Some(e + 8 + segment_length_at(p, e))
            } else {
                None
            },
        },
    decreases n,
{
    lemma_header_length_field(p, cursor);
    match flash_read(p, cursor, SEGMENT_HEADER_LENGTH as int) {
        None => {},
        Some(h) => {
            let length = le_u32(h, 4);
            if !(length % 4 != 0 || length > p.len()) {
                let next = cursor + SEGMENT_HEADER_LENGTH + length;
                assert(segments_end(p, cursor, n + 1) == segments_end(p, next, n));
                if n > 0 {
                    lemma_segment_walk(p, next, (n - 1) as nat);
                    assert(segments_end(p, cursor, n) == segments_end(p, next, (n - 1) as nat));
                    assert(((n - 1) as nat) + 1 == n);
                } else {
                    assert(segments_end(p, next, 0) == Some(next));
                }
            }
        },
    }
}

/// A segment header read at `at` holds [`segment_length_at`] as its length.
proof fn lemma_header_length_field(p: Seq<u8>, at: int)
    ensures
        flash_read(p, at, SEGMENT_HEADER_LENGTH as int) matches Some(h) ==> le_u32(h, 4) == segment_length_at(p, at),
{
    if let Some(h) = flash_read(p, at, SEGMENT_HEADER_LENGTH as int) {
        assert(h[4] == p[at + 4] && h[5] == p[at + 5] && h[6] == p[at + 6] && h[7] == p[at + 7]);
        assert(segment_length_at(p, at) < 0x1_0000_0000);
    }
}

/// The verdict on an image whose header and application descriptor are in
/// place, with at most sixteen segments whose walk ends at `end`: the image is
/// everything up to `end` and the checksum byte, rounded up to 16 bytes. Its
/// digest is recorded when that length fits the partition (and matches the
/// expected one, with the appended digest); it is `Unverified` without an
/// appended digest, `Broken` when the appended digest differs, and otherwise
/// `Available` for this project's images and `Foreign` for others.
pub proof fn lemma_walked_image_verdict(p: Seq<u8>, expected_length: Option<usize>, project: Seq<u8>, end: int)
    requires
        p.len() >= PARTITION_HEADER_LENGTH,
        p[0] == 0xE9,
        p[32] == 0x32 && p[33] == 0x54 && p[34] == 0xCD && p[35] == 0xAB,
        p[1] <= 16,
        segments_end(p, 24, p[1] as nat) == Some(end),
    ensures
        ({
            let length = ((end + 1 + 15) / 16) * 16;
            let appended: int = if p[23] != 0 { 32 } else { 0 };
            let fits = 288 <= length <= p.len()
                && (expected_length matches Some(e) ==> length + appended == e as u32);
            let v = image_verdict(p, expected_length, project);
            let digest = sha256(p.subrange(0, length));
            &&& !fits ==> v.state == PartitionState::Broken
            &&& fits ==> v.digest_sha256 == Some(digest)
            &&& fits && p[23] == 0 ==> v.state == PartitionState::Unverified
            &&& fits && p[23] != 0 ==> v.state == if length + 32 <= p.len() && p.subrange(length, length + 32) == digest {
                if project.len() <= 32 && p.subrange(80, 80 + project.len() as int) == project {
                    PartitionState::Available
                } else {
                    PartitionState::Foreign
                }
            } else {
                PartitionState::Broken
            }
        }),
{
    let h = p.subrange(0, PARTITION_HEADER_LENGTH as int);
    assert(h[0] == p[0] && h[1] == p[1] && h[23] == p[23]);
    assert(h[32] == p[32] && h[33] == p[33] && h[34] == p[34] && h[35] == p[35]);
    assert(le_u32(h, 32) == DESCRIPTOR_MAGIC);
    let info = decode_header(h);
    assert(info.state == PartitionState::Unavailable);
    let length = ((end + 1 + 15) / 16) * 16;
    assert(round_up_16(end + 1) == length);
    let pr = h.subrange(80, 112);
    if project.len() <= 32 {
        assert(pr.subrange(0, project.len() as int) =~= p.subrange(80, 80 + project.len() as int));
    }
}

/// Only an image that checks out can be booted: a partition judged bootable
/// starts with the image magic and the application descriptor's magic, names
/// at most sixteen segments whose headers all read and are valid, and its
/// image was hashed. An erased partition, one without a descriptor, or one
/// whose segments run off the partition cannot be booted.
pub proof fn lemma_bootable_images_check_out(p: Seq<u8>, expected_length: Option<usize>, project: Seq<u8>)
    ensures
        state_activatable(image_verdict(p, expected_length, project).state) ==> {
            &&& p.len() >= PARTITION_HEADER_LENGTH
            &&& p[0] == 0xE9
            &&& p[32] + 256 * p[33] + 65536 * p[34] + 16777216 * p[35] == 0xABCD5432
            &&& p[1] <= 16
            &&& segments_end(p, 24, p[1] as nat) is Some
            &&& image_verdict(p, expected_length, project).digest_sha256 is Some
        },
        !state_activatable(PartitionState::Empty),
        !state_activatable(PartitionState::Unknown),
        !state_activatable(PartitionState::Broken),
        !state_activatable(PartitionState::Unavailable),
{
    if p.len() >= PARTITION_HEADER_LENGTH {
        let h = p.subrange(0, PARTITION_HEADER_LENGTH as int);
        assert(h[0] == p[0] && h[1] == p[1]);
        assert(h[32] == p[32] && h[33] == p[33] && h[34] == p[34] && h[35] == p[35]);
        assert(h[32] + 256 * h[33] + 65536 * h[34] + 16777216 * h[35] < 0x1_0000_0000);
    }
}

} // verus!
