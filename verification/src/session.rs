//! The camera control session's decisions: the frames it sends, how it reads each frame the
//! camera sends back, the waits for reported states, and the checks before each user command.
use vstd::prelude::*;
use std::collections::HashMap;
use crate::camera::{
    capture_mode_event_spec, capture_mode_from_event_body, gimbal_speed_from_event_body,
    recording_state_from_event_body, recording_state_spec, CameraCaptureMode,
};
use crate::media::{first_camera_media_path, media_path_spec};
use crate::protobuf::varint_field_from;
use crate::text::{hex_char, hex_digit_char, push_str, string_from_chars};
use crate::ucd2::{
    build_internal_packet_with_request_id, build_ucd2_frame, copy_range, internal_packet_spec,
    extract_spec, find_magic, le16_at, le32_at, lemma_find_magic_bounds, max_frame_len, read_le16,
    read_le32, ucd2_frame_spec,
};

verus! {

broadcast use vstd::std_specs::hash::group_hash_axioms;

/// The two hex digits of a byte, lower case.
pub open spec fn hex_pair(b: u8) -> Seq<char> {
    seq![hex_digit_char((b / 16) as nat), hex_digit_char((b % 16) as nat)]
}

/// The bytes as two-digit lower-case hex numbers separated by single spaces.
pub open spec fn hex_spec(bytes: Seq<u8>) -> Seq<char>
    decreases bytes.len(),
{
    if bytes.len() == 0 {
        Seq::empty()
    } else if bytes.len() == 1 {
        hex_pair(bytes[0])
    } else {
        hex_spec(bytes.drop_last()) + seq![' '] + hex_pair(bytes.last())
    }
}

/// The bytes in hex, as the diagnostics show them.
pub fn bytes_to_hex(bytes: &[u8]) -> (r: String)
    ensures
        r@ == hex_spec(bytes@),
{
    let n = bytes.len();
    let mut out: Vec<char> = Vec::new();
    let mut i: usize = 0;
    while i < n
        invariant
            n == bytes@.len(),
            i <= n,
            out@ == hex_spec(bytes@.subrange(0, i as int)),
        decreases n - i,
    {
        let ghost pre = bytes@.subrange(0, i as int);
        let ghost next = bytes@.subrange(0, i + 1);
        assert(next.drop_last() =~= pre);
        if i > 0 {
            out.push(' ');
        }
        let b = bytes[i];
        out.push(hex_char(b / 16));
        out.push(hex_char(b % 16));
        i = i + 1;
        assert(out@ =~= hex_spec(next));
    }
    assert(bytes@.subrange(0, n as int) =~= bytes@);
    string_from_chars(out.as_slice())
}

/// The length of the start code at `off` (`00 00 00 01` or `00 00 01`), or 0.
pub open spec fn start_code_len(d: Seq<u8>, off: int) -> int {
    if d[off] == 0 && d[off + 1] == 0 && d[off + 2] == 0 && d[off + 3] == 1 {
        4
    } else if d[off] == 0 && d[off + 1] == 0 && d[off + 2] == 1 {
        3
    } else {
        0
    }
}

/// Whether an HEVC unit type is that of a picture one can start decoding at (IRAP, 16 to 23)
/// or a video parameter set (32).
pub open spec fn is_key_unit_type(t: u8) -> bool {
    (16 <= t <= 23) || t == 32
}

/// Whether, scanning `d` from `off` while five bytes remain, a start code is followed by a key
/// unit type.
pub open spec fn keyframe_from(d: Seq<u8>, off: int) -> bool
    decreases d.len() - off,
{
    if off < 0 || off + 5 > d.len() {
        false
    } else {
        let s = start_code_len(d, off);
        if s == 0 {
            keyframe_from(d, off + 1)
        } else if is_key_unit_type(((d[off + s] >> 1u8) & 0x3fu8) as u8) {
            true
        } else {
            keyframe_from(d, off + s + 1)
        }
    }
}

/// The unit type of the NAL unit whose header starts at `h`.
pub open spec fn nal_unit_type(d: Seq<u8>, h: int) -> u8 {
    ((d[h] >> 1u8) & 0x3fu8) as u8
}

/// Scanning from `j`, bytes that are not zero are passed over one by one.
proof fn lemma_keyframe_skips_nonzero(d: Seq<u8>, j: int, k: int)
    requires
        0 <= j <= k,
        k + 5 <= d.len(),
        forall|i: int| j <= i < k ==> #[trigger] d[i] != 0,
    ensures
        keyframe_from(d, j) == keyframe_from(d, k),
    decreases k - j,
{
    if j < k {
        assert(d[j] != 0);
        lemma_keyframe_skips_nonzero(d, j + 1, k);
    }
}

/// A preview chunk whose first start code (`00 00 00 01` or `00 00 01`, with no zero byte
/// before it) opens a random-access picture (unit types 16 to 23) or a video parameter set
/// (unit type 32) is a key chunk: after an overflow the preview resumes with it.
pub proof fn lemma_key_picture_chunk(d: Seq<u8>, k: int, code_len: int)
    requires
        0 <= k,
        code_len == 3 || code_len == 4,
        k + code_len < d.len(),
        k + 5 <= d.len(),
        forall|i: int| 0 <= i < k ==> #[trigger] d[i] != 0,
        code_len == 4 ==> d[k] == 0 && d[k + 1] == 0 && d[k + 2] == 0 && d[k + 3] == 1,
        code_len == 3 ==> d[k] == 0 && d[k + 1] == 0 && d[k + 2] == 1,
        (16 <= nal_unit_type(d, k + code_len) <= 23) || nal_unit_type(d, k + code_len) == 32,
    ensures
        keyframe_from(d, 0),
{
    lemma_keyframe_skips_nonzero(d, 0, k);
    assert(start_code_len(d, k) == code_len);
}

/// A preview chunk whose only start code (no zero byte before it, none after its unit header)
/// opens a unit of another type than 16 to 23 or 32 is not a key chunk: after an overflow it is
/// skipped.
pub proof fn lemma_non_key_chunk(d: Seq<u8>, k: int, code_len: int)
    requires
        0 <= k,
        code_len == 3 || code_len == 4,
        k + code_len < d.len(),
        k + 5 <= d.len(),
        forall|i: int| 0 <= i < k ==> #[trigger] d[i] != 0,
        forall|i: int| k + code_len < i < d.len() ==> #[trigger] d[i] != 0,
        code_len == 4 ==> d[k] == 0 && d[k + 1] == 0 && d[k + 2] == 0 && d[k + 3] == 1,
        code_len == 3 ==> d[k] == 0 && d[k + 1] == 0 && d[k + 2] == 1,
        !((16 <= nal_unit_type(d, k + code_len) <= 23) || nal_unit_type(d, k + code_len) == 32),
    ensures
        !keyframe_from(d, 0),
{
    lemma_keyframe_skips_nonzero(d, 0, k);
    assert(start_code_len(d, k) == code_len);
    lemma_no_start_code_no_key(d, k + code_len + 1);
}

/// A chunk with no start code at all is never a key chunk.
pub proof fn lemma_no_start_code_no_key(d: Seq<u8>, j: int)
    requires
        0 <= j,
        forall|i: int| j <= i && i + 2 < d.len() ==> !(#[trigger] d[i] == 0 && d[i + 1] == 0 && d[i + 2] == 1)
            && !(d[i] == 0 && d[i + 1] == 0 && d[i + 2] == 0),
    ensures
        !keyframe_from(d, j),
    decreases d.len() - j,
{
    if j + 5 <= d.len() {
        assert(!(d[j] == 0 && d[j + 1] == 0 && d[j + 2] == 1));
        assert(!(d[j] == 0 && d[j + 1] == 0 && d[j + 2] == 0));
        lemma_no_start_code_no_key(d, j + 1);
    }
}

/// Whether a preview chunk holds an HEVC key picture or parameter set.
pub fn is_hevc_keyframe(data: &[u8]) -> (r: bool)
    ensures
        r == keyframe_from(data@, 0),
{
    let n = data.len();
    let mut offset: usize = 0;
    while offset < n && n - offset >= 5
        invariant
            n == data@.len(),
            offset <= n,
            keyframe_from(data@, 0) == keyframe_from(data@, offset as int),
        decreases n - offset,
    {
        let start: usize = if data[offset] == 0 && data[offset + 1] == 0 && data[offset + 2] == 0
            && data[offset + 3] == 1 {
            4
        } else if data[offset] == 0 && data[offset + 1] == 0 && data[offset + 2] == 1 {
            3
        } else {
            0
        };
        if start == 0 {
            offset = offset + 1;
        } else {
            let nal_type: u8 = (data[offset + start] >> 1u8) & 0x3f;
            if (16 <= nal_type && nal_type <= 23) || nal_type == 32 {
                return true;
            }
            offset = offset + start + 1;
        }
    }
    false
}

/// The type byte and the payload of a frame whose declared header and payload lengths fit in
/// it; `None` for anything shorter.
pub open spec fn frame_fields(f: Seq<u8>) -> Option<(u8, Seq<u8>)> {
    if f.len() < 12 {
        None
    } else {
        let h = f[5] as int;
        let p = read_le32(f, 8);
        if h + p > f.len() {
            None
        } else {
            Some((f[6], f.subrange(h, h + p)))
        }
    }
}

/// The type byte and payload of a frame.
pub fn frame_parts(frame: &[u8]) -> (r: Option<(u8, Vec<u8>)>)
    ensures
        match frame_fields(frame@) {
            None => r is None,
            Some((t, p)) => (r matches Some((rt, rp)) && rt == t && rp@ == p),
        },
{
    let n = frame.len();
    if n < 12 {
        return None;
    }
    let h = frame[5] as usize;
    let p = le32_at(frame, 8);
    if h > n || p as u64 > (n - h) as u64 {
        return None;
    }
    let payload = copy_range(frame, h, h + p as usize);
    Some((frame[6], payload))
}

/// Every frame that reassembly takes out of a receive buffer has a header and payload that fit
/// in it, so the session can read its type and payload.
pub proof fn lemma_extracted_frames_have_fields(buf: Seq<u8>)
    ensures
        forall|i: int| 0 <= i < extract_spec(buf).0.len() ==> frame_fields(#[trigger] extract_spec(buf).0[i]) is Some,
    decreases buf.len(),
{
    lemma_find_magic_bounds(buf);
    if let Some(p) = find_magic(buf) {
        let b = buf.subrange(p, buf.len() as int);
        if b.len() >= 12 {
            let header_len = b[5] as int;
            if !(12 <= header_len <= 96) {
                lemma_extracted_frames_have_fields(b.subrange(1, b.len() as int));
            } else {
                let total = header_len + read_le32(b, 8) + 4;
                if total > max_frame_len() {
                    lemma_extracted_frames_have_fields(b.subrange(1, b.len() as int));
                } else if b.len() >= total {
                    let rest = b.subrange(total, b.len() as int);
                    lemma_extracted_frames_have_fields(rest);
                    let f = b.subrange(0, total);
                    assert(read_le32(f, 8) == read_le32(b, 8));
                    assert(frame_fields(f) is Some);
                    let frames = extract_spec(buf).0;
                    assert(frames == seq![f] + extract_spec(rest).0);
                    assert forall|i: int| 0 <= i < frames.len() implies frame_fields(#[trigger] frames[i]) is Some by {
                        if i > 0 {
                            assert(frames[i] == extract_spec(rest).0[i - 1]);
                        }
                    }
                }
            }
        }
    }
}

/// Whether a frame is the camera's acknowledgement of the session's opening request: a control
/// answer (type 4) with status 0xc8 for request 0x80000001.
pub open spec fn is_session_ready_spec(f: Seq<u8>) -> bool {
    match frame_fields(f) {
        Some((t, p)) => t == 4 && p.len() >= 9 && read_le16(p, 0) == 0xc8 && read_le32(p, 3)
            == 0x8000_0001,
        None => false,
    }
}

/// Whether a frame acknowledges the session's opening request.
pub fn is_session_ready_frame(frame: &[u8]) -> (r: bool)
    ensures
        r == is_session_ready_spec(frame@),
{
    match frame_parts(frame) {
        None => false,
        Some((t, p)) => t == 4 && p.len() >= 9 && le16_at(p.as_slice(), 0) == 0xc8 && le32_at(
            p.as_slice(),
            3,
        ) == 0x8000_0001,
    }
}

/// The camera's answer to one command.
#[derive(Debug, Clone)]
pub struct CameraControlResponse {
    pub command_id: u16,
    pub request_id: u32,
    pub body_hex: String,
    pub media_path: Option<String>,
    pub body: Vec<u8>,
}

/// What an answered command gives: its body, the body in hex, and the media path it mentions.
pub open spec fn is_response_for(r: CameraControlResponse, command_id: u16, request_id: u32, body: Seq<u8>) -> bool {
    &&& r.command_id == command_id
    &&& r.request_id == request_id
    &&& r.body@ == body
    &&& r.body_hex@ == hex_spec(body)
    &&& match r.media_path {
        Some(p) => media_path_spec(body) == Some(p@),
        None => media_path_spec(body) is None,
    }
}

/// The four lower-case hex digits of a status.
pub open spec fn hex4(v: u16) -> Seq<char> {
    seq![
        hex_digit_char(((v / 4096) % 16) as nat),
        hex_digit_char(((v / 256) % 16) as nat),
        hex_digit_char(((v / 16) % 16) as nat),
        hex_digit_char((v % 16) as nat),
    ]
}

/// The message for a command the camera answered with a status other than 0xc8.
pub fn status_message(status: u16) -> (r: String)
    ensures
        r@ == "相机返回状态 0x"@ + hex4(status),
{
    let mut out: Vec<char> = Vec::new();
    push_str(&mut out, "相机返回状态 0x");
    let ghost before = out@;
    out.push(hex_char(((status / 4096) % 16) as u8));
    out.push(hex_char(((status / 256) % 16) as u8));
    out.push(hex_char(((status / 16) % 16) as u8));
    out.push(hex_char((status % 16) as u8));
    assert(out@ =~= before + hex4(status));
    string_from_chars(out.as_slice())
}

/// The gimbal speed level a gimbal speed event reports: field 2 when it fits in a byte.
pub open spec fn gimbal_speed_spec(body: Seq<u8>) -> Option<u8> {
    match varint_field_from(body, 2, 0) {
        Some(v) => if v <= 255 {
            Some(v as u8)
        } else {
            None
        },
        None => None,
    }
}

/// What the session makes of one frame from the camera.
#[derive(Debug)]
pub enum FrameEvent {
    /// The camera reported its recording state; `released` says the recording wait is over.
    RecordingState { recording: bool, released: bool },
    /// The camera reported its gimbal speed level; `released` says the gimbal wait is over.
    GimbalSpeed { level: u8, released: bool },
    /// The camera reported its capture mode; `released` says the capture mode wait is over.
    CaptureMode { mode: CameraCaptureMode, released: bool },
    /// A state event whose value could not be read.
    StateIgnored,
    /// The answer to a pending command: the response, or the status the camera refused it with.
    Answer { request_id: u32, command_id: u16, outcome: Result<CameraControlResponse, u16> },
    /// An answer to no pending command.
    Unmatched,
    /// A preview chunk to pass on.
    Preview { data: Vec<u8> },
    /// A preview chunk dropped while waiting for a key picture.
    PreviewSkipped,
    /// A frame the session does not act on.
    Ignored,
}

/// What became of a preview chunk handed to the display.
#[derive(Debug, Clone, Copy, PartialEq, Eq, Structural)]
pub enum PreviewDelivery {
    Sent,
    Full,
    Disconnected,
}

/// How a wait for a reported state started.
#[derive(Debug, Clone, Copy, PartialEq, Eq, Structural)]
pub enum WaitStart {
    /// The camera already reported the wanted state: the wait is over at once.
    Satisfied,
    /// The wait started; no other wait of its kind was pending.
    Waiting,
    /// The wait started and took the place of a pending one, which is refused.
    ReplacedPrevious,
}

/// The state the control session keeps between frames.
pub struct CameraWorker {
    pub next_sequence: u8,
    pub next_request_id: u32,
    pub pending: HashMap<u32, u16>,
    pub reported_recording: Option<bool>,
    pub reported_gimbal_speed: Option<u8>,
    pub recording_waiter: Option<bool>,
    pub gimbal_waiter: Option<u8>,
    pub mode_waiter: Option<CameraCaptureMode>,
    pub preview_active: bool,
    pub wait_for_keyframe: bool,
    /// What the session did so far to its pending requests.
    pub requests: Ghost<Seq<PendingStep>>,
    /// The frames it wrote so far: `true` for a command frame, `false` for a heartbeat.
    pub frames: Ghost<Seq<bool>>,
    /// What happened so far to its preview.
    pub preview_steps: Ghost<Seq<PreviewStep>>,
    /// What happened so far to its recording state waits.
    pub recording_waits: Ghost<Seq<WaitStep>>,
    /// What happened so far to its gimbal speed waits.
    pub gimbal_waits: Ghost<Seq<WaitStep>>,
    /// What happened so far to its capture mode waits.
    pub mode_waits: Ghost<Seq<WaitStep>>,
}

impl CameraWorker {
    /// The session's state is what its record of steps leaves: the pending requests, the
    /// sequence number and next request id, and the preview flags.
    pub open spec fn wf(&self) -> bool {
        &&& self.pending@ == pending_after_run(Map::empty(), self.requests@)
        &&& (self.next_sequence, self.next_request_id) == counters_after_run(self.frames@)
        &&& (self.preview_active, self.wait_for_keyframe) == preview_after_run(self.preview_steps@)
        &&& (self.recording_waiter is Some) == wait_pending_after_run(self.recording_waits@)
        &&& (self.gimbal_waiter is Some) == wait_pending_after_run(self.gimbal_waits@)
        &&& (self.mode_waiter is Some) == wait_pending_after_run(self.mode_waits@)
    }

    /// The records of the three kinds of state waits.
    pub open spec fn wait_records(&self) -> (Seq<WaitStep>, Seq<WaitStep>, Seq<WaitStep>) {
        (self.recording_waits@, self.gimbal_waits@, self.mode_waits@)
    }

    /// The two states have the same record of steps.
    pub open spec fn same_record(&self, other: &Self) -> bool {
        &&& self.requests@ == other.requests@
        &&& self.frames@ == other.frames@
        &&& self.preview_steps@ == other.preview_steps@
    }

    /// A session right after the camera acknowledged its opening: sequence 0x11, request ids
    /// from 0x80000002, nothing pending, nothing reported, no preview.
    pub fn new() -> (w: Self)
        ensures
            w.next_sequence == 0x11,
            w.next_request_id == 0x8000_0002,
            w.pending@ == Map::<u32, u16>::empty(),
            w.reported_recording is None,
            w.reported_gimbal_speed is None,
            w.recording_waiter is None,
            w.gimbal_waiter is None,
            w.mode_waiter is None,
            !w.preview_active,
            !w.wait_for_keyframe,
            w.wf(),
            w.requests@ == Seq::<PendingStep>::empty(),
            w.frames@ == Seq::<bool>::empty(),
            w.preview_steps@ == Seq::<PreviewStep>::empty(),
            w.wait_records() == (Seq::<WaitStep>::empty(), Seq::<WaitStep>::empty(), Seq::<WaitStep>::empty()),
    {
        let w = CameraWorker {
            next_sequence: 0x11,
            next_request_id: 0x8000_0002,
            pending: HashMap::new(),
            reported_recording: None,
            reported_gimbal_speed: None,
            recording_waiter: None,
            gimbal_waiter: None,
            mode_waiter: None,
            preview_active: false,
            wait_for_keyframe: false,
            requests: Ghost(Seq::empty()),
            frames: Ghost(Seq::empty()),
            preview_steps: Ghost(Seq::empty()),
            recording_waits: Ghost(Seq::empty()),
            gimbal_waits: Ghost(Seq::empty()),
            mode_waits: Ghost(Seq::empty()),
        };
        assert(w.pending@ =~= Map::<u32, u16>::empty());
        w
    }

    /// The frame that sends a command, with the request id it carries. The sequence number and
    /// the request id advance by one, wrapping.
    pub fn command_frame(&mut self, command_id: u16, body: &[u8]) -> (r: (Vec<u8>, u32))
        ensures
            r.1 == old(self).next_request_id,
            r.0@ == ucd2_frame_spec(
                0x04,
                old(self).next_sequence,
                internal_packet_spec(command_id, 0x02, old(self).next_request_id, body@),
            ),
            final(self).next_sequence == old(self).next_sequence.wrapping_add(1),
            final(self).next_request_id == old(self).next_request_id.wrapping_add(1),
            (final(self).next_sequence, final(self).next_request_id) == counters_after_frame(
                (old(self).next_sequence, old(self).next_request_id),
                true,
            ),
            final(self).pending@ == old(self).pending@,
            final(self).reported_recording == old(self).reported_recording,
            final(self).reported_gimbal_speed == old(self).reported_gimbal_speed,
            final(self).recording_waiter == old(self).recording_waiter,
            final(self).gimbal_waiter == old(self).gimbal_waiter,
            final(self).mode_waiter == old(self).mode_waiter,
            final(self).preview_active == old(self).preview_active,
            final(self).wait_for_keyframe == old(self).wait_for_keyframe,
            old(self).wf() ==> final(self).wf(),
            final(self).frames@ == old(self).frames@.push(true),
            final(self).requests@ == old(self).requests@,
            final(self).preview_steps@ == old(self).preview_steps@,
            final(self).wait_records() == old(self).wait_records(),
    {
        let request_id = self.next_request_id;
        self.next_request_id = self.next_request_id.wrapping_add(1);
        let payload = build_internal_packet_with_request_id(command_id, 0x02, request_id, body);
        let frame = build_ucd2_frame(0x04, self.next_sequence, payload.as_slice());
        self.next_sequence = self.next_sequence.wrapping_add(1);
        self.frames = Ghost(self.frames@.push(true));
        proof {
            assert(self.frames@.drop_last() =~= old(self).frames@);
        }
        (frame, request_id)
    }

    /// The heartbeat frame (group 5, empty payload); the sequence number advances by one.
    pub fn heartbeat_frame(&mut self) -> (r: Vec<u8>)
        ensures
            r@ == ucd2_frame_spec(0x05, old(self).next_sequence, Seq::empty()),
            final(self).next_sequence == old(self).next_sequence.wrapping_add(1),
            final(self).next_request_id == old(self).next_request_id,
            (final(self).next_sequence, final(self).next_request_id) == counters_after_frame(
                (old(self).next_sequence, old(self).next_request_id),
                false,
            ),
            final(self).pending@ == old(self).pending@,
            final(self).reported_recording == old(self).reported_recording,
            final(self).reported_gimbal_speed == old(self).reported_gimbal_speed,
            final(self).recording_waiter == old(self).recording_waiter,
            final(self).gimbal_waiter == old(self).gimbal_waiter,
            final(self).mode_waiter == old(self).mode_waiter,
            final(self).preview_active == old(self).preview_active,
            final(self).wait_for_keyframe == old(self).wait_for_keyframe,
            old(self).wf() ==> final(self).wf(),
            final(self).frames@ == old(self).frames@.push(false),
            final(self).requests@ == old(self).requests@,
            final(self).preview_steps@ == old(self).preview_steps@,
            final(self).wait_records() == old(self).wait_records(),
    {
        let empty: Vec<u8> = Vec::new();
        let frame = build_ucd2_frame(0x05, self.next_sequence, empty.as_slice());
        assert(empty@ =~= Seq::<u8>::empty());
        self.next_sequence = self.next_sequence.wrapping_add(1);
        self.frames = Ghost(self.frames@.push(false));
        proof {
            assert(self.frames@.drop_last() =~= old(self).frames@);
        }
        frame
    }

    /// Records that the command frame for `request_id` went out: the request is pending with
    /// its command id; starting the preview (command 1) turns it on and stops waiting for a key
    /// picture, stopping it (command 2) turns it off.
    pub fn command_sent(&mut self, command_id: u16, request_id: u32)
        ensures
            final(self).pending@ == pending_after(
                old(self).pending@,
                (PendingStep::Sent { request_id, command_id }),
            ),
            (final(self).preview_active, final(self).wait_for_keyframe) == preview_after(
                (old(self).preview_active, old(self).wait_for_keyframe),
                (PreviewStep::CommandSent { command_id }),
            ),
            command_id == 1 ==> final(self).preview_active && !final(self).wait_for_keyframe,
            command_id == 2 ==> !final(self).preview_active && final(self).wait_for_keyframe
                == old(self).wait_for_keyframe,
            command_id != 1 && command_id != 2 ==> final(self).preview_active == old(self).preview_active
                && final(self).wait_for_keyframe == old(self).wait_for_keyframe,
            final(self).next_sequence == old(self).next_sequence,
            final(self).next_request_id == old(self).next_request_id,
            final(self).reported_recording == old(self).reported_recording,
            final(self).reported_gimbal_speed == old(self).reported_gimbal_speed,
            final(self).recording_waiter == old(self).recording_waiter,
            final(self).gimbal_waiter == old(self).gimbal_waiter,
            final(self).mode_waiter == old(self).mode_waiter,
            old(self).wf() ==> final(self).wf(),
            final(self).requests@ == old(self).requests@.push((PendingStep::Sent { request_id, command_id })),
            final(self).preview_steps@ == old(self).preview_steps@.push((PreviewStep::CommandSent { command_id })),
            final(self).frames@ == old(self).frames@,
            final(self).wait_records() == old(self).wait_records(),
    {
        if command_id == 1 {
            self.preview_active = true;
            self.wait_for_keyframe = false;
        } else if command_id == 2 {
            self.preview_active = false;
        }
        self.pending.insert(request_id, command_id);
        self.requests = Ghost(self.requests@.push((PendingStep::Sent { request_id, command_id })));
        self.preview_steps = Ghost(self.preview_steps@.push((PreviewStep::CommandSent { command_id })));
        proof {
            assert(self.requests@.drop_last() =~= old(self).requests@);
            assert(self.preview_steps@.drop_last() =~= old(self).preview_steps@);
        }
    }

    /// Gives up on the request `request_id` (its time ran out): it is no longer pending.
    /// Returns whether it was.
    pub fn expire_request(&mut self, request_id: u32) -> (r: bool)
        ensures
            final(self).pending@ == pending_after(old(self).pending@, (PendingStep::Settled { request_id })),
            r == settles(old(self).pending@, (PendingStep::Settled { request_id }), request_id),
            old(self).wf() ==> final(self).wf(),
            final(self).requests@ == old(self).requests@.push((PendingStep::Settled { request_id })),
            final(self).frames@ == old(self).frames@,
            final(self).preview_steps@ == old(self).preview_steps@,
            final(self).wait_records() == old(self).wait_records(),
    {
        let was = self.pending.remove(&request_id).is_some();
        self.requests = Ghost(self.requests@.push((PendingStep::Settled { request_id })));
        proof {
            assert(self.requests@.drop_last() =~= old(self).requests@);
        }
        was
    }

    /// Starts waiting for the camera to report the recording state `recording`.
    pub fn wait_recording(&mut self, recording: bool) -> (r: WaitStart)
        ensures
            old(self).reported_recording == Some(recording) ==> r == WaitStart::Satisfied
                && final(self).recording_waiter == old(self).recording_waiter,
            old(self).reported_recording != Some(recording) ==> final(self).recording_waiter == Some(recording)
                && (r == (if old(self).recording_waiter is Some {
                    WaitStart::ReplacedPrevious
                } else {
                    WaitStart::Waiting
                })),
            final(self).reported_recording == old(self).reported_recording,
            r != WaitStart::Satisfied ==> ((r == WaitStart::ReplacedPrevious) == wait_settles(
                old(self).recording_waiter is Some,
                WaitStep::Started,
            ) && (final(self).recording_waiter is Some) == wait_pending_after(
                old(self).recording_waiter is Some,
                WaitStep::Started,
            )),
            final(self).pending@ == old(self).pending@,
            old(self).wf() ==> final(self).wf(),
            final(self).same_record(old(self)),
            final(self).pending@ == old(self).pending@,
            final(self).wait_records() == (if r == WaitStart::Satisfied {
                old(self).recording_waits@
            } else {
                old(self).recording_waits@.push(WaitStep::Started)
            }, old(self).gimbal_waits@, old(self).mode_waits@),
    {
        if self.reported_recording == Some(recording) {
            return WaitStart::Satisfied;
        }
        let replaced = self.recording_waiter.is_some();
        self.recording_waiter = Some(recording);
        self.recording_waits = Ghost(self.recording_waits@.push(WaitStep::Started));
        proof {
            assert(self.recording_waits@.drop_last() =~= old(self).recording_waits@);
        }
        if replaced {
            WaitStart::ReplacedPrevious
        } else {
            WaitStart::Waiting
        }
    }

    /// Starts waiting for the camera to report the gimbal speed level `level`.
    pub fn wait_gimbal_speed(&mut self, level: u8) -> (r: WaitStart)
        ensures
            old(self).reported_gimbal_speed == Some(level) ==> r == WaitStart::Satisfied
                && final(self).gimbal_waiter == old(self).gimbal_waiter,
            old(self).reported_gimbal_speed != Some(level) ==> final(self).gimbal_waiter == Some(level)
                && (r == (if old(self).gimbal_waiter is Some {
                    WaitStart::ReplacedPrevious
                } else {
                    WaitStart::Waiting
                })),
            final(self).reported_gimbal_speed == old(self).reported_gimbal_speed,
            r != WaitStart::Satisfied ==> ((r == WaitStart::ReplacedPrevious) == wait_settles(
                old(self).gimbal_waiter is Some,
                WaitStep::Started,
            ) && (final(self).gimbal_waiter is Some) == wait_pending_after(
                old(self).gimbal_waiter is Some,
                WaitStep::Started,
            )),
            final(self).pending@ == old(self).pending@,
            old(self).wf() ==> final(self).wf(),
            final(self).same_record(old(self)),
            final(self).pending@ == old(self).pending@,
            final(self).wait_records() == (old(self).recording_waits@, if r == WaitStart::Satisfied {
                old(self).gimbal_waits@
            } else {
                old(self).gimbal_waits@.push(WaitStep::Started)
            }, old(self).mode_waits@),
    {
        if self.reported_gimbal_speed == Some(level) {
            return WaitStart::Satisfied;
        }
        let replaced = self.gimbal_waiter.is_some();
        self.gimbal_waiter = Some(level);
        self.gimbal_waits = Ghost(self.gimbal_waits@.push(WaitStep::Started));
        proof {
            assert(self.gimbal_waits@.drop_last() =~= old(self).gimbal_waits@);
        }
        if replaced {
            WaitStart::ReplacedPrevious
        } else {
            WaitStart::Waiting
        }
    }

    /// Starts waiting for the camera to confirm the capture mode `mode`; a pending capture mode
    /// wait is replaced.
    pub fn wait_capture_mode(&mut self, mode: CameraCaptureMode) -> (r: WaitStart)
        ensures
            final(self).mode_waiter == Some(mode),
            r == (if old(self).mode_waiter is Some {
                WaitStart::ReplacedPrevious
            } else {
                WaitStart::Waiting
            }),
            (r == WaitStart::ReplacedPrevious) == wait_settles(old(self).mode_waiter is Some, WaitStep::Started),
            final(self).pending@ == old(self).pending@,
            old(self).wf() ==> final(self).wf(),
            final(self).same_record(old(self)),
            final(self).pending@ == old(self).pending@,
            final(self).wait_records() == (old(self).recording_waits@, old(self).gimbal_waits@, old(self).mode_waits@.push(WaitStep::Started)),
    {
        let replaced = self.mode_waiter.is_some();
        self.mode_waiter = Some(mode);
        self.mode_waits = Ghost(self.mode_waits@.push(WaitStep::Started));
        proof {
            assert(self.mode_waits@.drop_last() =~= old(self).mode_waits@);
        }
        if replaced {
            WaitStart::ReplacedPrevious
        } else {
            WaitStart::Waiting
        }
    }

    /// Ends the recording wait (its time ran out); returns whether one was pending.
    pub fn expire_recording_wait(&mut self) -> (r: bool)
        ensures
            r == old(self).recording_waiter is Some,
            r == wait_settles(old(self).recording_waiter is Some, WaitStep::Expired),
            final(self).recording_waiter is None,
            old(self).wf() ==> final(self).wf(),
            final(self).same_record(old(self)),
            final(self).pending@ == old(self).pending@,
            final(self).wait_records() == (old(self).recording_waits@.push(WaitStep::Expired), old(self).gimbal_waits@, old(self).mode_waits@),
    {
        let had = self.recording_waiter.is_some();
        self.recording_waiter = None;
        self.recording_waits = Ghost(self.recording_waits@.push(WaitStep::Expired));
        proof {
            assert(self.recording_waits@.drop_last() =~= old(self).recording_waits@);
        }
        had
    }

    /// Ends the gimbal speed wait; returns whether one was pending.
    pub fn expire_gimbal_wait(&mut self) -> (r: bool)
        ensures
            r == old(self).gimbal_waiter is Some,
            r == wait_settles(old(self).gimbal_waiter is Some, WaitStep::Expired),
            final(self).gimbal_waiter is None,
            old(self).wf() ==> final(self).wf(),
            final(self).same_record(old(self)),
            final(self).pending@ == old(self).pending@,
            final(self).wait_records() == (old(self).recording_waits@, old(self).gimbal_waits@.push(WaitStep::Expired), old(self).mode_waits@),
    {
        let had = self.gimbal_waiter.is_some();
        self.gimbal_waiter = None;
        self.gimbal_waits = Ghost(self.gimbal_waits@.push(WaitStep::Expired));
        proof {
            assert(self.gimbal_waits@.drop_last() =~= old(self).gimbal_waits@);
        }
        had
    }

    /// Ends the capture mode wait; returns whether one was pending.
    pub fn expire_mode_wait(&mut self) -> (r: bool)
        ensures
            r == old(self).mode_waiter is Some,
            r == wait_settles(old(self).mode_waiter is Some, WaitStep::Expired),
            final(self).mode_waiter is None,
            old(self).wf() ==> final(self).wf(),
            final(self).same_record(old(self)),
            final(self).pending@ == old(self).pending@,
            final(self).wait_records() == (old(self).recording_waits@, old(self).gimbal_waits@, old(self).mode_waits@.push(WaitStep::Expired)),
    {
        let had = self.mode_waiter.is_some();
        self.mode_waiter = None;
        self.mode_waits = Ghost(self.mode_waits@.push(WaitStep::Expired));
        proof {
            assert(self.mode_waits@.drop_last() =~= old(self).mode_waits@);
        }
        had
    }

    /// Ends the session: no request and no wait stays pending.
    pub fn shut_down(&mut self)
        ensures
            final(self).pending@ == pending_after(old(self).pending@, PendingStep::ShutDown),
            final(self).recording_waiter is None,
            final(self).gimbal_waiter is None,
            final(self).mode_waiter is None,
            old(self).wf() ==> final(self).wf(),
            final(self).requests@ == old(self).requests@.push(PendingStep::ShutDown),
            final(self).frames@ == old(self).frames@,
            final(self).preview_steps@ == old(self).preview_steps@,
            final(self).wait_records() == (old(self).recording_waits@.push(WaitStep::ShutDown), old(self).gimbal_waits@.push(WaitStep::ShutDown), old(self).mode_waits@.push(WaitStep::ShutDown)),
    {
        self.pending.clear();
        self.requests = Ghost(self.requests@.push(PendingStep::ShutDown));
        proof {
            assert(self.requests@.drop_last() =~= old(self).requests@);
            assert(self.pending@ =~= Map::<u32, u16>::empty());
        }
        self.recording_waiter = None;
        self.gimbal_waiter = None;
        self.mode_waiter = None;
        self.recording_waits = Ghost(self.recording_waits@.push(WaitStep::ShutDown));
        proof {
            assert(self.recording_waits@.drop_last() =~= old(self).recording_waits@);
        }
        self.gimbal_waits = Ghost(self.gimbal_waits@.push(WaitStep::ShutDown));
        proof {
            assert(self.gimbal_waits@.drop_last() =~= old(self).gimbal_waits@);
        }
        self.mode_waits = Ghost(self.mode_waits@.push(WaitStep::ShutDown));
        proof {
            assert(self.mode_waits@.drop_last() =~= old(self).mode_waits@);
        }
    }

    /// Records what became of a preview chunk: sent, the session stops waiting for a key
    /// picture; the display's queue full, it waits for one; the display gone, the preview stops.
    pub fn preview_delivered(&mut self, outcome: PreviewDelivery)
        ensures
            (final(self).preview_active, final(self).wait_for_keyframe) == preview_after(
                (old(self).preview_active, old(self).wait_for_keyframe),
                (PreviewStep::Delivered { outcome }),
            ),
            outcome == PreviewDelivery::Sent ==> !final(self).wait_for_keyframe && final(self).preview_active
                == old(self).preview_active,
            outcome == PreviewDelivery::Full ==> final(self).wait_for_keyframe && final(self).preview_active
                == old(self).preview_active,
            outcome == PreviewDelivery::Disconnected ==> !final(self).preview_active
                && final(self).wait_for_keyframe == old(self).wait_for_keyframe,
            final(self).pending@ == old(self).pending@,
            old(self).wf() ==> final(self).wf(),
            final(self).preview_steps@ == old(self).preview_steps@.push((PreviewStep::Delivered { outcome })),
            final(self).requests@ == old(self).requests@,
            final(self).frames@ == old(self).frames@,
            final(self).wait_records() == old(self).wait_records(),
    {
        match outcome {
            PreviewDelivery::Sent => {
                self.wait_for_keyframe = false;
            },
            PreviewDelivery::Full => {
                self.wait_for_keyframe = true;
            },
            PreviewDelivery::Disconnected => {
                self.preview_active = false;
            },
        }
        self.preview_steps = Ghost(self.preview_steps@.push((PreviewStep::Delivered { outcome })));
        proof {
            assert(self.preview_steps@.drop_last() =~= old(self).preview_steps@);
        }
    }

    /// Reads one frame on the media session, which only waits for answers: a control frame
    /// (type 4) with at least nine payload bytes answers the pending command whose request id
    /// it carries, successfully when its status is 0xc8; everything else is ignored.
    pub fn handle_answer_frame(&mut self, frame: &[u8]) -> (ev: FrameEvent)
        ensures
            match frame_fields(frame@) {
                Some((t, p)) => if t == 4 && p.len() >= 9 {
                    let status = read_le16(p, 0);
                    let request_id = read_le32(p, 3);
                    let body = p.subrange(9, p.len() as int);
                    if old(self).pending@.contains_key(request_id as u32) {
                        final(self).pending@ == old(self).pending@.remove(request_id as u32) && match ev {
                            FrameEvent::Answer { request_id: rid, command_id, outcome } => rid == request_id
                                && command_id == old(self).pending@[request_id as u32] && match outcome {
                                Ok(resp) => status == 0xc8 && is_response_for(resp, command_id, rid, body),
                                Err(s) => status != 0xc8 && s == status,
                            },
                            _ => false,
                        }
                    } else {
                        ev is Unmatched && final(self).pending@ == old(self).pending@
                    }
                } else {
                    ev is Ignored && final(self).pending@ == old(self).pending@
                },
                None => ev is Ignored && final(self).pending@ == old(self).pending@,
            },
            match frame_fields(frame@) {
                Some((t, p)) => t == 4 && p.len() >= 9 ==> ({
                    let step = (PendingStep::Settled { request_id: read_le32(p, 3) as u32 });
                    &&& final(self).pending@ == pending_after(old(self).pending@, step)
                    &&& (ev is Answer <==> settles(old(self).pending@, step, read_le32(p, 3) as u32))
                }),
                None => true,
            },
            final(self).next_sequence == old(self).next_sequence,
            final(self).next_request_id == old(self).next_request_id,
            old(self).wf() ==> final(self).wf(),
            final(self).frames@ == old(self).frames@,
            final(self).preview_steps@ == old(self).preview_steps@,
            final(self).requests@ == old(self).requests@ || (final(self).requests@.len() == old(self).requests@.len() + 1
                && final(self).requests@.drop_last() == old(self).requests@ && final(self).requests@.last() is Settled),
            final(self).wait_records() == old(self).wait_records(),
    {
        let (frame_type, payload) = match frame_parts(frame) {
            None => return FrameEvent::Ignored,
            Some(parts) => parts,
        };
        let n = payload.len();
        if frame_type != 4 || n < 9 {
            return FrameEvent::Ignored;
        }
        let status = le16_at(payload.as_slice(), 0);
        let request_id = le32_at(payload.as_slice(), 3);
        let body = copy_range(payload.as_slice(), 9, n);
        let removed = self.pending.remove(&request_id);
        self.requests = Ghost(self.requests@.push((PendingStep::Settled { request_id })));
        proof {
            assert(self.requests@.drop_last() =~= old(self).requests@);
        }
        match removed {
            None => FrameEvent::Unmatched,
            Some(command_id) => {
                if status == 0xc8 {
                    let body_hex = bytes_to_hex(body.as_slice());
                    let media_path = first_camera_media_path(body.as_slice());
                    FrameEvent::Answer {
                        request_id,
                        command_id,
                        outcome: Ok(CameraControlResponse { command_id, request_id, body_hex, media_path, body }),
                    }
                } else {
                    FrameEvent::Answer { request_id, command_id, outcome: Err(status) }
                }
            },
        }
    }

    /// Reads one frame from the camera. A control frame (type 4) with at least nine payload
    /// bytes carries a status (LE16 at 0), a request id (LE32 at 3) and a body (from 9): status
    /// 0x2010 reports the recording state, 0x206a the gimbal speed, 0x2053 the capture mode;
    /// any other status answers the pending command with that request id, successfully when it
    /// is 0xc8. A preview frame (type 1) whose payload is longer than nine bytes and starts with
    /// 0x20 carries a preview chunk from byte 9, passed on while the preview is on, unless the
    /// session waits for a key picture and the chunk holds none.
    pub fn handle_frame(&mut self, frame: &[u8]) -> (ev: FrameEvent)
        ensures
            match frame_fields(frame@) {
                Some((t, p)) => if t == 4 && p.len() >= 9 {
                    let status = read_le16(p, 0);
                    let request_id = read_le32(p, 3);
                    let body = p.subrange(9, p.len() as int);
                    if status == 0x2010 {
                        match recording_state_spec(body) {
                            Some(rec) => ev == (FrameEvent::RecordingState {
                                recording: rec,
                                released: old(self).recording_waiter == Some(rec),
                            }) && final(self).reported_recording == Some(rec) && final(self).recording_waiter == (
                            if old(self).recording_waiter == Some(rec) {
                                None
                            } else {
                                old(self).recording_waiter
                            }) && final(self).pending@ == old(self).pending@,
                            None => ev is StateIgnored && final(self).reported_recording == old(self).reported_recording
                                && final(self).recording_waiter == old(self).recording_waiter
                                && final(self).pending@ == old(self).pending@,
                        }
                    } else if status == 0x206a {
                        match gimbal_speed_spec(body) {
                            Some(level) => ev == (FrameEvent::GimbalSpeed {
                                level,
                                released: old(self).gimbal_waiter == Some(level),
                            }) && final(self).reported_gimbal_speed == Some(level) && final(self).gimbal_waiter == (
                            if old(self).gimbal_waiter == Some(level) {
                                None
                            } else {
                                old(self).gimbal_waiter
                            }) && final(self).pending@ == old(self).pending@,
                            None => ev is StateIgnored && final(self).reported_gimbal_speed
                                == old(self).reported_gimbal_speed && final(self).gimbal_waiter == old(self).gimbal_waiter
                                && final(self).pending@ == old(self).pending@,
                        }
                    } else if status == 0x2053 {
                        match capture_mode_event_spec(body) {
                            Some(mode) => ev == (FrameEvent::CaptureMode {
                                mode,
                                released: old(self).mode_waiter == Some(mode),
                            }) && final(self).mode_waiter == (if old(self).mode_waiter == Some(mode) {
                                None
                            } else {
                                old(self).mode_waiter
                            }) && final(self).pending@ == old(self).pending@,
                            None => ev is StateIgnored && final(self).mode_waiter == old(self).mode_waiter
                                && final(self).pending@ == old(self).pending@,
                        }
                    } else if old(self).pending@.contains_key(request_id as u32) {
                        final(self).pending@ == old(self).pending@.remove(request_id as u32) && match ev {
                            FrameEvent::Answer { request_id: rid, command_id, outcome } => rid == request_id
                                && command_id == old(self).pending@[request_id as u32] && match outcome {
                                Ok(resp) => status == 0xc8 && is_response_for(resp, command_id, rid, body),
                                Err(s) => status != 0xc8 && s == status,
                            },
                            _ => false,
                        }
                    } else {
                        ev is Unmatched && final(self).pending@ == old(self).pending@
                    }
                } else if t == 1 && old(self).preview_active && p.len() > 9 && p[0] == 0x20 {
                    let data = p.subrange(9, p.len() as int);
                    final(self).pending@ == old(self).pending@ && if old(self).wait_for_keyframe
                        && !keyframe_from(data, 0) {
                        ev is PreviewSkipped
                    } else {
                        ev matches FrameEvent::Preview { data: d } && d@ == data
                    }
                } else {
                    ev is Ignored && final(self).pending@ == old(self).pending@
                },
                None => ev is Ignored && final(self).pending@ == old(self).pending@,
            },
            final(self).next_sequence == old(self).next_sequence,
            final(self).next_request_id == old(self).next_request_id,
            final(self).preview_active == old(self).preview_active,
            final(self).wait_for_keyframe == old(self).wait_for_keyframe,
            old(self).wf() ==> final(self).wf(),
            final(self).frames@ == old(self).frames@,
            final(self).preview_steps@ == old(self).preview_steps@,
            final(self).requests@ == old(self).requests@ || (final(self).requests@.len() == old(self).requests@.len() + 1
                && final(self).requests@.drop_last() == old(self).requests@ && final(self).requests@.last() is Settled),
            final(self).recording_waits@ == old(self).recording_waits@ || (final(self).recording_waits@.drop_last()
                == old(self).recording_waits@ && final(self).recording_waits@.len() > 0 && final(self).recording_waits@.last() is Reported),
            final(self).gimbal_waits@ == old(self).gimbal_waits@ || (final(self).gimbal_waits@.drop_last()
                == old(self).gimbal_waits@ && final(self).gimbal_waits@.len() > 0 && final(self).gimbal_waits@.last() is Reported),
            final(self).mode_waits@ == old(self).mode_waits@ || (final(self).mode_waits@.drop_last()
                == old(self).mode_waits@ && final(self).mode_waits@.len() > 0 && final(self).mode_waits@.last() is Reported),
    {
        let (frame_type, payload) = match frame_parts(frame) {
            None => return FrameEvent::Ignored,
            Some(parts) => parts,
        };
        let n = payload.len();
        if frame_type == 4 && n >= 9 {
            let status = le16_at(payload.as_slice(), 0);
            let request_id = le32_at(payload.as_slice(), 3);
            let body = copy_range(payload.as_slice(), 9, n);
            if status == 0x2010 {
                match recording_state_from_event_body(body.as_slice()) {
                    Some(rec) => {
                        self.reported_recording = Some(rec);
                        let released = self.recording_waiter == Some(rec);
                        if released {
                            self.recording_waiter = None;
                        }
                        self.recording_waits = Ghost(self.recording_waits@.push((WaitStep::Reported { matches: released })));
                        proof {
                            assert(self.recording_waits@.drop_last() =~= old(self).recording_waits@);
                        }
                        FrameEvent::RecordingState { recording: rec, released }
                    },
                    None => FrameEvent::StateIgnored,
                }
            } else if status == 0x206a {
                match gimbal_speed_from_event_body(body.as_slice()) {
                    Some(level) => {
                        self.reported_gimbal_speed = Some(level);
                        let released = self.gimbal_waiter == Some(level);
                        if released {
                            self.gimbal_waiter = None;
                        }
                        self.gimbal_waits = Ghost(self.gimbal_waits@.push((WaitStep::Reported { matches: released })));
                        proof {
                            assert(self.gimbal_waits@.drop_last() =~= old(self).gimbal_waits@);
                        }
                        FrameEvent::GimbalSpeed { level, released }
                    },
                    None => FrameEvent::StateIgnored,
                }
            } else if status == 0x2053 {
                match capture_mode_from_event_body(body.as_slice()) {
                    Some(mode) => {
                        let released = self.mode_waiter == Some(mode);
                        if released {
                            self.mode_waiter = None;
                        }
                        self.mode_waits = Ghost(self.mode_waits@.push((WaitStep::Reported { matches: released })));
                        proof {
                            assert(self.mode_waits@.drop_last() =~= old(self).mode_waits@);
                        }
                        FrameEvent::CaptureMode { mode, released }
                    },
                    None => FrameEvent::StateIgnored,
                }
            } else {
                let removed = self.pending.remove(&request_id);
        self.requests = Ghost(self.requests@.push((PendingStep::Settled { request_id })));
        proof {
            assert(self.requests@.drop_last() =~= old(self).requests@);
        }
        match removed {
                    None => FrameEvent::Unmatched,
                    Some(command_id) => {
                        if status == 0xc8 {
                            let body_hex = bytes_to_hex(body.as_slice());
                            let media_path = first_camera_media_path(body.as_slice());
                            FrameEvent::Answer {
                                request_id,
                                command_id,
                                outcome: Ok(
                                    CameraControlResponse {
                                        command_id,
                                        request_id,
                                        body_hex,
                                        media_path,
                                        body,
                                    },
                                ),
                            }
                        } else {
                            FrameEvent::Answer { request_id, command_id, outcome: Err(status) }
                        }
                    },
                }
            }
        } else if frame_type == 1 && self.preview_active && n > 9 && payload[0] == 0x20 {
            let data = copy_range(payload.as_slice(), 9, n);
            if self.wait_for_keyframe && !is_hevc_keyframe(data.as_slice()) {
                FrameEvent::PreviewSkipped
            } else {
                FrameEvent::Preview { data }
            }
        } else {
            FrameEvent::Ignored
        }
    }
}

/// What a step of the control session does to its pending requests: a command frame went out,
/// a request was settled (its answer came, or its time ran out), or the session ended.
pub enum PendingStep {
    Sent { request_id: u32, command_id: u16 },
    Settled { request_id: u32 },
    ShutDown,
}

/// The pending requests after a step.
pub open spec fn pending_after(p: Map<u32, u16>, step: PendingStep) -> Map<u32, u16> {
    match step {
        PendingStep::Sent { request_id, command_id } => p.insert(request_id, command_id),
        PendingStep::Settled { request_id } => p.remove(request_id),
        PendingStep::ShutDown => Map::empty(),
    }
}

/// Whether the step gives request `r` its one reply: its answer or time-out while it is
/// pending, or the session's end while it is pending.
pub open spec fn settles(p: Map<u32, u16>, step: PendingStep, r: u32) -> bool {
    match step {
        PendingStep::Sent { .. } => false,
        PendingStep::Settled { request_id } => request_id == r && p.contains_key(r),
        PendingStep::ShutDown => p.contains_key(r),
    }
}

/// The pending requests after a run of steps from `p`.
pub open spec fn pending_after_run(p: Map<u32, u16>, steps: Seq<PendingStep>) -> Map<u32, u16>
    decreases steps.len(),
{
    if steps.len() == 0 {
        p
    } else {
        pending_after(pending_after_run(p, steps.drop_last()), steps.last())
    }
}

/// How many replies request `r` gets in a run of steps from `p`.
pub open spec fn replies_in_run(p: Map<u32, u16>, steps: Seq<PendingStep>, r: u32) -> nat
    decreases steps.len(),
{
    if steps.len() == 0 {
        0
    } else {
        replies_in_run(p, steps.drop_last(), r) + if settles(
            pending_after_run(p, steps.drop_last()),
            steps.last(),
            r,
        ) {
            1nat
        } else {
            0nat
        }
    }
}

/// How many times request `r` is sent in a run of steps.
pub open spec fn sends_in_run(steps: Seq<PendingStep>, r: u32) -> nat
    decreases steps.len(),
{
    if steps.len() == 0 {
        0
    } else {
        sends_in_run(steps.drop_last(), r) + match steps.last() {
            PendingStep::Sent { request_id, .. } => if request_id == r {
                1nat
            } else {
                0nat
            },
            _ => 0nat,
        }
    }
}

/// Over a run of the control session that starts with nothing pending and sends each request
/// id at most once, every request sent is either still pending or has had exactly one reply;
/// once the session has ended, every request sent has had exactly one reply, and none that was
/// never sent has had one.
pub proof fn lemma_one_reply_per_request(steps: Seq<PendingStep>, r: u32)
    requires
        sends_in_run(steps, r) <= 1,
    ensures
        replies_in_run(Map::empty(), steps, r) + (if pending_after_run(Map::empty(), steps).contains_key(r) {
            1nat
        } else {
            0nat
        }) == sends_in_run(steps, r),
        steps.len() > 0 && steps.last() is ShutDown ==> replies_in_run(Map::empty(), steps, r)
            == sends_in_run(steps, r),
    decreases steps.len(),
{
    if steps.len() > 0 {
        let init = steps.drop_last();
        assert(sends_in_run(init, r) <= sends_in_run(steps, r));
        lemma_one_reply_per_request(init, r);
        let p = pending_after_run(Map::empty(), init);
        match steps.last() {
            PendingStep::Sent { request_id, command_id } => {
                if request_id == r {
                    assert(sends_in_run(init, r) == 0);
                    assert(!p.contains_key(r));
                }
            },
            PendingStep::Settled { request_id } => {},
            PendingStep::ShutDown => {},
        }
    }
}

/// What a step does to one kind of state wait (recording, gimbal speed or capture mode): a
/// wait starts (taking the place of a pending one, which is refused), the camera reports a
/// state (`matches`: the one the pending wait wants), the wait's time runs out, or the session
/// ends.
pub enum WaitStep {
    Started,
    Reported { matches: bool },
    Expired,
    ShutDown,
}

/// Whether a wait is pending after a step.
pub open spec fn wait_pending_after(pending: bool, step: WaitStep) -> bool {
    match step {
        WaitStep::Started => true,
        WaitStep::Reported { matches } => pending && !matches,
        WaitStep::Expired => false,
        WaitStep::ShutDown => false,
    }
}

/// Whether the step gives the pending wait its one reply: refused when replaced, released by a
/// matching report, refused when its time runs out or the session ends.
pub open spec fn wait_settles(pending: bool, step: WaitStep) -> bool {
    pending && match step {
        WaitStep::Started => true,
        WaitStep::Reported { matches } => matches,
        WaitStep::Expired => true,
        WaitStep::ShutDown => true,
    }
}

/// Whether a wait is pending after a run of steps from none.
pub open spec fn wait_pending_after_run(steps: Seq<WaitStep>) -> bool
    decreases steps.len(),
{
    if steps.len() == 0 {
        false
    } else {
        wait_pending_after(wait_pending_after_run(steps.drop_last()), steps.last())
    }
}

/// How many waits a run starts, and how many replies its waits get.
pub open spec fn waits_and_replies(steps: Seq<WaitStep>) -> (nat, nat)
    decreases steps.len(),
{
    if steps.len() == 0 {
        (0, 0)
    } else {
        let (w, r) = waits_and_replies(steps.drop_last());
        let before = wait_pending_after_run(steps.drop_last());
        (
            w + if steps.last() is Started {
                1nat
            } else {
                0nat
            },
            r + if wait_settles(before, steps.last()) {
                1nat
            } else {
                0nat
            },
        )
    }
}

/// Over any run, every wait started is either still pending or has had exactly one reply;
/// once the session has ended, every wait started has had exactly one reply.
pub proof fn lemma_one_reply_per_wait(steps: Seq<WaitStep>)
    ensures
        waits_and_replies(steps).0 == waits_and_replies(steps).1 + if wait_pending_after_run(steps) {
            1nat
        } else {
            0nat
        },
        steps.len() > 0 && steps.last() is ShutDown ==> waits_and_replies(steps).0
            == waits_and_replies(steps).1,
    decreases steps.len(),
{
    if steps.len() > 0 {
        lemma_one_reply_per_wait(steps.drop_last());
    }
}

/// The frame sequence number and the next request id after one more frame: both advance,
/// wrapping, for a command frame; only the sequence number for a heartbeat.
pub open spec fn counters_after_frame(c: (u8, u32), command: bool) -> (u8, u32) {
    (c.0.wrapping_add(1), if command {
        c.1.wrapping_add(1)
    } else {
        c.1
    })
}

/// The counters of a session after the frames it wrote (`true` for a command frame, `false`
/// for a heartbeat), from the opening values 0x11 and 0x80000002.
pub open spec fn counters_after_run(frames: Seq<bool>) -> (u8, u32)
    decreases frames.len(),
{
    if frames.len() == 0 {
        (0x11u8, 0x8000_0002u32)
    } else {
        counters_after_frame(counters_after_run(frames.drop_last()), frames.last())
    }
}

/// How many command frames a run wrote.
pub open spec fn commands_in(frames: Seq<bool>) -> nat
    decreases frames.len(),
{
    if frames.len() == 0 {
        0
    } else {
        commands_in(frames.drop_last()) + if frames.last() {
            1nat
        } else {
            0nat
        }
    }
}

/// After a run of frames the next frame carries sequence number 0x11 plus the number of frames
/// written, and the next command request id 0x80000002 plus the number of commands written,
/// both wrapping.
pub proof fn lemma_frame_counters(frames: Seq<bool>)
    ensures
        counters_after_run(frames) == (
            ((0x11 + frames.len()) % 0x100) as u8,
            ((0x8000_0002 + commands_in(frames)) % 0x1_0000_0000) as u32,
        ),
    decreases frames.len(),
{
    if frames.len() > 0 {
        let init = frames.drop_last();
        lemma_frame_counters(init);
        let n = init.len();
        let m = commands_in(init);
        assert(((((0x11 + n) % 0x100) + 1) % 0x100) == (0x11 + n + 1) % 0x100) by (nonlinear_arith);
        assert(((((0x8000_0002 + m) % 0x1_0000_0000) + 1) % 0x1_0000_0000) == (0x8000_0002 + m + 1)
            % 0x1_0000_0000) by (nonlinear_arith);
    }
}

/// A step that bears on the preview: a command frame went out, or a preview chunk was handed
/// to the display with the given outcome.
pub enum PreviewStep {
    CommandSent { command_id: u16 },
    Delivered { outcome: PreviewDelivery },
}

/// Whether the preview is on, and whether key pictures are awaited, after a step.
pub open spec fn preview_after(st: (bool, bool), step: PreviewStep) -> (bool, bool) {
    match step {
        PreviewStep::CommandSent { command_id } => if command_id == 1 {
            (true, false)
        } else if command_id == 2 {
            (false, st.1)
        } else {
            st
        },
        PreviewStep::Delivered { outcome } => match outcome {
            PreviewDelivery::Sent => (st.0, false),
            PreviewDelivery::Full => (st.0, true),
            PreviewDelivery::Disconnected => (false, st.1),
        },
    }
}

/// The preview flags after a run of steps from a new session (off, no key picture awaited).
pub open spec fn preview_after_run(steps: Seq<PreviewStep>) -> (bool, bool)
    decreases steps.len(),
{
    if steps.len() == 0 {
        (false, false)
    } else {
        preview_after(preview_after_run(steps.drop_last()), steps.last())
    }
}

/// Whether step `i` started the preview (command 1) and nothing after it stopped it (command 2,
/// or the display gone).
pub open spec fn preview_on_since(steps: Seq<PreviewStep>, i: int) -> bool {
    &&& 0 <= i < steps.len()
    &&& steps[i] == (PreviewStep::CommandSent { command_id: 1 })
    &&& forall|j: int|
        i < j < steps.len() ==> #[trigger] steps[j] != (PreviewStep::CommandSent { command_id: 2 })
            && steps[j] != (PreviewStep::Delivered { outcome: PreviewDelivery::Disconnected })
}

/// Whether at step `i` the display's queue was full and, after it, no chunk went through and
/// the preview was not started again.
pub open spec fn key_wait_since(steps: Seq<PreviewStep>, i: int) -> bool {
    &&& 0 <= i < steps.len()
    &&& steps[i] == (PreviewStep::Delivered { outcome: PreviewDelivery::Full })
    &&& forall|j: int|
        i < j < steps.len() ==> #[trigger] steps[j] != (PreviewStep::Delivered {
            outcome: PreviewDelivery::Sent,
        }) && steps[j] != (PreviewStep::CommandSent { command_id: 1 })
}

/// Over any run of a session, the preview is on exactly when a start-preview command went out
/// and neither a stop-preview command nor a vanished display came after it; and key pictures
/// are awaited exactly when a full display queue came and neither a delivered chunk nor a new
/// start-preview command came after it.
pub proof fn lemma_preview_gating(steps: Seq<PreviewStep>)
    ensures
        preview_after_run(steps).0 <==> exists|i: int| preview_on_since(steps, i),
        preview_after_run(steps).1 <==> exists|i: int| key_wait_since(steps, i),
    decreases steps.len(),
{
    if steps.len() > 0 {
        let init = steps.drop_last();
        let n = steps.len() - 1;
        let last = steps.last();
        lemma_preview_gating(init);
        assert forall|i: int| 0 <= i < n && preview_on_since(steps, i) implies preview_on_since(init, i) by {
            assert forall|j: int| i < j < init.len() implies #[trigger] init[j]
                != (PreviewStep::CommandSent { command_id: 2 }) && init[j] != (PreviewStep::Delivered {
                outcome: PreviewDelivery::Disconnected,
            }) by {
                assert(init[j] == steps[j]);
            }
        }
        assert forall|i: int| 0 <= i < n && key_wait_since(steps, i) implies key_wait_since(init, i) by {
            assert forall|j: int| i < j < init.len() implies #[trigger] init[j]
                != (PreviewStep::Delivered { outcome: PreviewDelivery::Sent }) && init[j]
                != (PreviewStep::CommandSent { command_id: 1 }) by {
                assert(init[j] == steps[j]);
            }
        }
        let on_stops = last == (PreviewStep::CommandSent { command_id: 2 }) || last
            == (PreviewStep::Delivered { outcome: PreviewDelivery::Disconnected });
        let key_stops = last == (PreviewStep::Delivered { outcome: PreviewDelivery::Sent }) || last
            == (PreviewStep::CommandSent { command_id: 1 });
        if !on_stops {
            assert forall|i: int| preview_on_since(init, i) implies preview_on_since(steps, i) by {
                assert forall|j: int| i < j < steps.len() implies #[trigger] steps[j]
                    != (PreviewStep::CommandSent { command_id: 2 }) && steps[j] != (PreviewStep::Delivered {
                    outcome: PreviewDelivery::Disconnected,
                }) by {
                    if j < n {
                        assert(steps[j] == init[j]);
                    }
                }
            }
        }
        if !key_stops {
            assert forall|i: int| key_wait_since(init, i) implies key_wait_since(steps, i) by {
                assert forall|j: int| i < j < steps.len() implies #[trigger] steps[j]
                    != (PreviewStep::Delivered { outcome: PreviewDelivery::Sent }) && steps[j]
                    != (PreviewStep::CommandSent { command_id: 1 }) by {
                    if j < n {
                        assert(steps[j] == init[j]);
                    }
                }
            }
        }
        if last == (PreviewStep::CommandSent { command_id: 1 }) {
            assert(preview_on_since(steps, n));
        }
        if last == (PreviewStep::Delivered { outcome: PreviewDelivery::Full }) {
            assert(key_wait_since(steps, n));
        }
        if on_stops {
            assert forall|i: int| !preview_on_since(steps, i) by {
                if 0 <= i < n && preview_on_since(steps, i) {
                    assert(steps[n] == last);
                }
            }
        }
        if key_stops {
            assert forall|i: int| !key_wait_since(steps, i) by {
                if 0 <= i < n && key_wait_since(steps, i) {
                    assert(steps[n] == last);
                }
            }
        }
        if !on_stops && last != (PreviewStep::CommandSent { command_id: 1 }) {
            assert(!preview_on_since(steps, n));
        }
        if !key_stops && last != (PreviewStep::Delivered { outcome: PreviewDelivery::Full }) {
            assert(!key_wait_since(steps, n));
        }
    }
}

/// For a control session driven through its methods from `new` (so that its record holds
/// every step): each request it sent with an id it sent only once is either still pending or
/// has had exactly one answer, time-out or shut-down; after `shut_down`, every one has had
/// exactly one.
pub proof fn lemma_worker_one_reply_per_request(w: CameraWorker, r: u32)
    requires
        w.wf(),
        sends_in_run(w.requests@, r) <= 1,
    ensures
        replies_in_run(Map::empty(), w.requests@, r) + (if w.pending@.contains_key(r) {
            1nat
        } else {
            0nat
        }) == sends_in_run(w.requests@, r),
        w.requests@.len() > 0 && w.requests@.last() is ShutDown ==> replies_in_run(
            Map::empty(),
            w.requests@,
            r,
        ) == sends_in_run(w.requests@, r),
{
    lemma_one_reply_per_request(w.requests@, r);
}

/// For a control session driven through its methods from `new`: of each kind of state wait
/// (recording, gimbal speed, capture mode), every wait it started is either the one still
/// pending or has had exactly one reply; after `shut_down`, every one has had exactly one.
pub proof fn lemma_worker_one_reply_per_wait(w: CameraWorker)
    requires
        w.wf(),
    ensures
        waits_and_replies(w.recording_waits@).0 == waits_and_replies(w.recording_waits@).1 + if w.recording_waiter is Some {
            1nat
        } else {
            0nat
        },
        waits_and_replies(w.gimbal_waits@).0 == waits_and_replies(w.gimbal_waits@).1 + if w.gimbal_waiter is Some {
            1nat
        } else {
            0nat
        },
        waits_and_replies(w.mode_waits@).0 == waits_and_replies(w.mode_waits@).1 + if w.mode_waiter is Some {
            1nat
        } else {
            0nat
        },
{
    lemma_one_reply_per_wait(w.recording_waits@);
    lemma_one_reply_per_wait(w.gimbal_waits@);
    lemma_one_reply_per_wait(w.mode_waits@);
}

/// For a control session driven through its methods from `new`: its next frame carries
/// sequence number 0x11 plus the frames written so far, and its next command request id
/// 0x80000002 plus the commands written so far, both wrapping.
pub proof fn lemma_worker_counters(w: CameraWorker)
    requires
        w.wf(),
    ensures
        w.next_sequence == ((0x11 + w.frames@.len()) % 0x100) as u8,
        w.next_request_id == ((0x8000_0002 + commands_in(w.frames@)) % 0x1_0000_0000) as u32,
{
    lemma_frame_counters(w.frames@);
}

/// For a control session driven through its methods from `new`: the preview is on exactly
/// when a start-preview command went out with no stop-preview command or vanished display
/// after it, and key pictures are awaited exactly when the display's queue was full with no
/// delivered chunk or new start after it.
pub proof fn lemma_worker_preview(w: CameraWorker)
    requires
        w.wf(),
    ensures
        w.preview_active <==> exists|i: int| preview_on_since(w.preview_steps@, i),
        w.wait_for_keyframe <==> exists|i: int| key_wait_since(w.preview_steps@, i),
{
    lemma_preview_gating(w.preview_steps@);
}

/// Request ids are handed out one after another from 0x80000002, wrapping: the `i`-th and the
/// `j`-th command of a run carry different ids as long as fewer than 2^32 commands lie between.
pub proof fn lemma_request_ids_distinct(i: nat, j: nat)
    requires
        i < j,
        j - i < 0x1_0000_0000,
    ensures
        ((0x8000_0002 + i) % 0x1_0000_0000) as u32 != ((0x8000_0002 + j) % 0x1_0000_0000) as u32,
{
    assert((0x8000_0002 + i) % 0x1_0000_0000 != (0x8000_0002 + j) % 0x1_0000_0000) by (nonlinear_arith)
        requires
            i < j,
            j - i < 0x1_0000_0000,
    ;
}

/// Why a user command is refused before anything is sent.
#[derive(Debug, Clone, Copy, PartialEq, Eq, Structural)]
pub enum ControlError {
    /// Taking a photo needs photo mode.
    NotInPhotoMode,
    /// No photo while recording.
    PhotoWhileRecording,
    /// Recording and video profiles need video mode.
    NotInVideoMode,
    /// A recording is already running.
    AlreadyRecording,
    /// No recording is running.
    NotRecording,
    /// The capture mode cannot change while recording.
    SwitchWhileRecording,
    /// The video profile cannot change while recording.
    ProfileWhileRecording,
    /// Zooming needs a known capture mode.
    NoCaptureMode,
}

impl ControlError {
    /// The message shown to the user.
    pub fn message(self) -> (r: &'static str)
        ensures
            match self {
                ControlError::NotInPhotoMode => r@ == "请先切换到拍照模式"@,
                ControlError::PhotoWhileRecording => r@ == "录像过程中不能拍照"@,
                ControlError::NotInVideoMode => r@ == "请先切换到录像模式"@,
                ControlError::AlreadyRecording => r@ == "录像已经开始"@,
                ControlError::NotRecording => r@ == "当前没有正在进行的录像"@,
                ControlError::SwitchWhileRecording => r@ == "请先停止录像，再切换拍摄模式"@,
                ControlError::ProfileWhileRecording => r@ == "请先停止录像，再调整录像规格"@,
                ControlError::NoCaptureMode => r@ == "请先选择拍照或录像模式"@,
            },
    {
        match self {
            ControlError::NotInPhotoMode => "请先切换到拍照模式",
            ControlError::PhotoWhileRecording => "录像过程中不能拍照",
            ControlError::NotInVideoMode => "请先切换到录像模式",
            ControlError::AlreadyRecording => "录像已经开始",
            ControlError::NotRecording => "当前没有正在进行的录像",
            ControlError::SwitchWhileRecording => "请先停止录像，再切换拍摄模式",
            ControlError::ProfileWhileRecording => "请先停止录像，再调整录像规格",
            ControlError::NoCaptureMode => "请先选择拍照或录像模式",
        }
    }
}

/// What the control session knows of the camera: its capture mode, the bit pattern of its zoom
/// factor, and whether it is recording.
pub struct ControlState {
    pub capture_mode: Option<CameraCaptureMode>,
    pub zoom_bits: Option<u64>,
    pub recording: bool,
}

impl ControlState {
    /// The state's invariant: the camera records only in video mode.
    pub open spec fn wf(&self) -> bool {
        self.recording ==> self.capture_mode == Some(CameraCaptureMode::Video)
    }

    /// The state right after the session opened, with the capture mode the camera reported.
    pub fn new(capture_mode: Option<CameraCaptureMode>) -> (s: Self)
        ensures
            s.wf(),
            s.capture_mode == capture_mode,
            s.zoom_bits is None,
            !s.recording,
    {
        ControlState { capture_mode, zoom_bits: None, recording: false }
    }

    /// Whether a photo may be taken: only in photo mode, and not while recording.
    pub fn check_take_photo(&self) -> (r: Result<(), ControlError>)
        ensures
            self.capture_mode != Some(CameraCaptureMode::Photo) ==> r == Err::<(), ControlError>(ControlError::NotInPhotoMode),
            self.capture_mode == Some(CameraCaptureMode::Photo) && self.recording ==> r == Err::<(), ControlError>(
                ControlError::PhotoWhileRecording,
            ),
            self.capture_mode == Some(CameraCaptureMode::Photo) && !self.recording ==> r is Ok,
    {
        if self.capture_mode != Some(CameraCaptureMode::Photo) {
            return Err(ControlError::NotInPhotoMode);
        }
        if self.recording {
            return Err(ControlError::PhotoWhileRecording);
        }
        Ok(())
    }

    /// Whether a recording may start: only in video mode, and not while recording.
    pub fn check_start_recording(&self) -> (r: Result<(), ControlError>)
        ensures
            self.capture_mode != Some(CameraCaptureMode::Video) ==> r == Err::<(), ControlError>(ControlError::NotInVideoMode),
            self.capture_mode == Some(CameraCaptureMode::Video) && self.recording ==> r == Err::<(), ControlError>(
                ControlError::AlreadyRecording,
            ),
            self.capture_mode == Some(CameraCaptureMode::Video) && !self.recording ==> r is Ok,
    {
        if self.capture_mode != Some(CameraCaptureMode::Video) {
            return Err(ControlError::NotInVideoMode);
        }
        if self.recording {
            return Err(ControlError::AlreadyRecording);
        }
        Ok(())
    }

    /// Whether a recording may stop: only while recording.
    pub fn check_stop_recording(&self) -> (r: Result<(), ControlError>)
        ensures
            !self.recording ==> r == Err::<(), ControlError>(ControlError::NotRecording),
            self.recording ==> r is Ok,
    {
        if !self.recording {
            return Err(ControlError::NotRecording);
        }
        Ok(())
    }

    /// Whether the capture mode may change: not while recording.
    pub fn check_switch_capture_mode(&self) -> (r: Result<(), ControlError>)
        ensures
            self.recording ==> r == Err::<(), ControlError>(ControlError::SwitchWhileRecording),
            !self.recording ==> r is Ok,
    {
        if self.recording {
            return Err(ControlError::SwitchWhileRecording);
        }
        Ok(())
    }

    /// Whether the video profile may change: only in video mode, and not while recording.
    pub fn check_set_video_profile(&self) -> (r: Result<(), ControlError>)
        ensures
            self.capture_mode != Some(CameraCaptureMode::Video) ==> r == Err::<(), ControlError>(ControlError::NotInVideoMode),
            self.capture_mode == Some(CameraCaptureMode::Video) && self.recording ==> r == Err::<(), ControlError>(
                ControlError::ProfileWhileRecording,
            ),
            self.capture_mode == Some(CameraCaptureMode::Video) && !self.recording ==> r is Ok,
    {
        if self.capture_mode != Some(CameraCaptureMode::Video) {
            return Err(ControlError::NotInVideoMode);
        }
        if self.recording {
            return Err(ControlError::ProfileWhileRecording);
        }
        Ok(())
    }

    /// The capture mode a zoom is set for; zooming needs a known mode.
    pub fn check_set_zoom(&self) -> (r: Result<CameraCaptureMode, ControlError>)
        ensures
            match self.capture_mode {
                Some(m) => r == Ok::<CameraCaptureMode, ControlError>(m),
                None => r == Err::<CameraCaptureMode, ControlError>(ControlError::NoCaptureMode),
            },
    {
        match self.capture_mode {
            Some(m) => Ok(m),
            None => Err(ControlError::NoCaptureMode),
        }
    }

    /// Records that the camera confirmed the switch to `mode` (allowed only when not recording).
    pub fn capture_mode_switched(&mut self, mode: CameraCaptureMode)
        requires
            old(self).wf(),
            !old(self).recording,
        ensures
            final(self).wf(),
            final(self).capture_mode == Some(mode),
            final(self).zoom_bits == old(self).zoom_bits,
            !final(self).recording,
    {
        self.capture_mode = Some(mode);
    }

    /// Records that the camera reported the recording it was asked to start (allowed only in
    /// video mode).
    pub fn recording_started(&mut self)
        requires
            old(self).wf(),
            old(self).capture_mode == Some(CameraCaptureMode::Video),
        ensures
            final(self).wf(),
            final(self).recording,
            final(self).capture_mode == old(self).capture_mode,
            final(self).zoom_bits == old(self).zoom_bits,
    {
        self.recording = true;
    }

    /// Records that the camera reported the recording stopped.
    pub fn recording_stopped(&mut self)
        requires
            old(self).wf(),
        ensures
            final(self).wf(),
            !final(self).recording,
            final(self).capture_mode == old(self).capture_mode,
            final(self).zoom_bits == old(self).zoom_bits,
    {
        self.recording = false;
    }

    /// Records the zoom the camera reported (or that it reported none).
    pub fn zoom_reported(&mut self, zoom_bits: Option<u64>)
        requires
            old(self).wf(),
        ensures
            final(self).wf(),
            final(self).zoom_bits == zoom_bits,
            final(self).capture_mode == old(self).capture_mode,
            final(self).recording == old(self).recording,
    {
        self.zoom_bits = zoom_bits;
    }
}

} // verus!
