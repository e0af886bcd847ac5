//! Luna Ultra camera commands: the bodies sent for capture mode, zoom, video profile, gimbal and
//! shutter control, the session setup bodies, and the decoding of the camera's state events.
use vstd::prelude::*;
use crate::protobuf::{
    delimited_field_from, encode_varint, fixed64_field_from, protobuf_fixed64_field,
    protobuf_length_delimited_field, protobuf_varint_field, varint_bytes, varint_field_from,
    zigzag_i16, zigzag_spec,
};

verus! {

/// The camera's capture mode.
#[derive(Debug, Clone, Copy, PartialEq, Eq, Structural)]
pub enum CameraCaptureMode {
    Photo,
    Video,
}

impl CameraCaptureMode {
    /// The mode's name as the user interface shows it.
    pub fn as_str(self) -> (r: &'static str)
        ensures
            self == CameraCaptureMode::Photo ==> r@ == "photo"@,
            self == CameraCaptureMode::Video ==> r@ == "video"@,
    {
        match self {
            CameraCaptureMode::Photo => "photo",
            CameraCaptureMode::Video => "video",
        }
    }

    /// The mode a user names: `photo` or `video`; any other name is refused.
    pub fn from_name(name: &str) -> (r: Result<CameraCaptureMode, CommandError>)
        ensures
            name@ == "photo"@ ==> r == Ok::<CameraCaptureMode, CommandError>(CameraCaptureMode::Photo),
            name@ == "video"@ ==> r == Ok::<CameraCaptureMode, CommandError>(CameraCaptureMode::Video),
            name@ != "photo"@ && name@ != "video"@ ==> r == Err::<CameraCaptureMode, CommandError>(
                CommandError::UnsupportedCaptureMode,
            ),
    {
        proof {
            reveal_strlit("photo");
            reveal_strlit("video");
            assert("photo"@[0] != "video"@[0]);
            assert("photo"@ != "video"@);
        }
        if crate::text::str_eq(name, "photo") {
            Ok(CameraCaptureMode::Photo)
        } else if crate::text::str_eq(name, "video") {
            Ok(CameraCaptureMode::Video)
        } else {
            Err(CommandError::UnsupportedCaptureMode)
        }
    }
}

/// Errors of the command builders.
#[derive(Debug, Clone, Copy, PartialEq, Eq, Structural)]
pub enum CommandError {
    /// A gimbal coordinate lies outside -100..=100.
    GimbalOutOfRange,
    /// A gimbal speed level lies outside 1..=3.
    GimbalSpeedOutOfRange,
    /// The zoom is not one of the captured quick-zoom steps 1x, 2x, 3x and 6x.
    UnsupportedZoom,
    /// No media path was given for deletion.
    NothingToDelete,
    /// The capture mode named is neither `photo` nor `video`.
    UnsupportedCaptureMode,
}

impl CommandError {
    /// The message shown to the user (for an unsupported capture mode the caller adds its
    /// name).
    pub fn message(self) -> (r: &'static str)
        ensures
            match self {
                CommandError::GimbalOutOfRange => r@ == "云台控制值必须在 -100 到 100 之间"@,
                CommandError::GimbalSpeedOutOfRange => r@ == "云台速度档位必须在 1 到 3 之间"@,
                CommandError::UnsupportedZoom => r@ == "当前只开放抓包确认的 1×、2×、3× 和 6× 快捷变焦"@,
                CommandError::NothingToDelete => r@ == "没有可删除的相机素材"@,
                CommandError::UnsupportedCaptureMode => r@ == "不支持的拍摄模式："@,
            },
    {
        match self {
            CommandError::GimbalOutOfRange => "云台控制值必须在 -100 到 100 之间",
            CommandError::GimbalSpeedOutOfRange => "云台速度档位必须在 1 到 3 之间",
            CommandError::UnsupportedZoom => "当前只开放抓包确认的 1×、2×、3× 和 6× 快捷变焦",
            CommandError::NothingToDelete => "没有可删除的相机素材",
            CommandError::UnsupportedCaptureMode => "不支持的拍摄模式：",
        }
    }
}

pub const CAMERA_SESSION_INIT_COMMAND: u16 = 0x000f;
pub const CAMERA_CLIENT_REGISTER_COMMAND: u16 = 0x0027;
pub const CAMERA_TIME_SYNC_COMMAND: u16 = 0x0007;
pub const CAMERA_STATUS_QUERY_COMMAND: u16 = 0x0008;
pub const CAMERA_CAPTURE_CONTEXT_COMMAND: u16 = 0x000a;
pub const CAMERA_FILE_LIST_COMMAND: u16 = 0x000d;
pub const CAMERA_TAKE_PHOTO_COMMAND: u16 = 0x0003;
pub const CAMERA_START_RECORD_COMMAND: u16 = 0x0004;
pub const CAMERA_STOP_RECORD_COMMAND: u16 = 0x0005;
pub const CAMERA_SET_OPTION_COMMAND: u16 = 0x0009;
pub const CAMERA_EVENT_SUBSCRIBE_COMMAND: u16 = 0x0011;
pub const CAMERA_PREVIEW_PREPARE_COMMAND: u16 = 0x00bf;
pub const CAMERA_PREVIEW_ACTIVATE_COMMAND: u16 = 0x00c6;
pub const CAMERA_PREVIEW_START_COMMAND: u16 = 0x0001;
pub const CAMERA_PREVIEW_STOP_COMMAND: u16 = 0x0002;
pub const CAMERA_DELETE_FILES_COMMAND: u16 = 0x000c;
pub const CAMERA_GIMBAL_MOVE_COMMAND: u16 = 0x00e2;
pub const CAMERA_CAPTURE_MODE_COMMAND: u16 = 0x0007;

/// The body of the take-photo command.
pub fn camera_take_photo_body() -> (r: Vec<u8>)
    ensures
        r@ == seq![0x30u8, 0x03u8],
{
    vec![0x30, 0x03]
}

/// The body of the start-recording command.
pub fn camera_start_record_body() -> (r: Vec<u8>)
    ensures
        r@ == seq![0x08u8, 0x01u8],
{
    vec![0x08, 0x01]
}

/// The body of the stop-recording command.
pub fn camera_stop_record_body() -> (r: Vec<u8>)
    ensures
        r@ == seq![0x10u8, 0x01u8],
{
    vec![0x10, 0x01]
}

/// The body of the event subscription command.
pub fn camera_event_subscribe_body() -> (r: Vec<u8>)
    ensures
        r@ == seq![0x08u8, 0x01u8],
{
    vec![0x08, 0x01]
}

/// The body that prepares the live preview.
pub fn camera_preview_prepare_body() -> (r: Vec<u8>)
    ensures
        r@ == seq![0x58u8, 0x0au8],
{
    vec![0x58, 0x0a]
}

/// The body that starts the live preview stream.
pub fn camera_preview_start_body() -> (r: Vec<u8>)
    ensures
        r@ == seq![0x10u8, 0x01u8, 0x30u8, 0x28u8, 0x38u8, 0x2cu8, 0x40u8, 0x01u8, 0x48u8, 0x28u8,
            0x50u8, 0x22u8],
{
    vec![0x10, 0x01, 0x30, 0x28, 0x38, 0x2c, 0x40, 0x01, 0x48, 0x28, 0x50, 0x22]
}

/// The body of the short status query.
pub fn camera_status_query_body() -> (r: Vec<u8>)
    ensures
        r@ == seq![0x08u8, 0x0bu8, 0x08u8, 0x55u8, 0x08u8, 0xb4u8, 0x01u8],
{
    vec![0x08, 0x0b, 0x08, 0x55, 0x08, 0xb4, 0x01]
}

/// The body of the capture-ready query.
pub fn camera_capture_ready_query_body() -> (r: Vec<u8>)
    ensures
        r@ == seq![0x08u8, 0x14u8, 0x08u8, 0xb0u8, 0x01u8, 0x08u8, 0xb1u8, 0x01u8],
{
    vec![0x08, 0x14, 0x08, 0xb0, 0x01, 0x08, 0xb1, 0x01]
}

/// The encoding of `ids` as a run of varint fields that all share the tag byte `tag`.
pub open spec fn tagged_varints(tag: u8, ids: Seq<u64>) -> Seq<u8>
    decreases ids.len(),
{
    if ids.len() == 0 {
        Seq::empty()
    } else {
        tagged_varints(tag, ids.drop_last()) + seq![tag] + varint_bytes(ids.last() as nat)
    }
}

/// Appends `tag` followed by the varint of each id.
pub fn push_tagged_varints(out: &mut Vec<u8>, tag: u8, ids: &[u64])
    ensures
        final(out)@ == old(out)@ + tagged_varints(tag, ids@),
{
    let n = ids.len();
    let mut i: usize = 0;
    while i < n
        invariant
            n == ids@.len(),
            i <= n,
            out@ == old(out)@ + tagged_varints(tag, ids@.subrange(0, i as int)),
        decreases n - i,
    {
        let ghost before = out@;
        out.push(tag);
        encode_varint(ids[i], out);
        i = i + 1;
        assert(ids@.subrange(0, i as int).drop_last() =~= ids@.subrange(0, i - 1));
        assert(out@ =~= old(out)@ + tagged_varints(tag, ids@.subrange(0, i as int)));
    }
    assert(ids@.subrange(0, n as int) =~= ids@);
}

/// The status ids asked for by the full status query.
pub open spec fn full_status_ids() -> Seq<u64> {
    seq![1u64, 3, 2, 76, 6, 78, 79, 11, 85, 12, 13, 175, 14, 15, 19, 55, 17, 20, 30, 36, 110, 114,
        117, 89, 116, 115, 37, 38, 42, 40, 41, 48, 49, 50, 66, 132, 58, 59, 60, 67, 68, 93, 83, 82,
        70, 88, 103, 16, 97, 133, 134, 119, 122, 123, 124, 128, 129, 135, 150, 149, 147, 155, 157,
        158, 160, 179, 161, 22, 80, 81, 167, 169, 173, 180, 176, 177, 120, 111, 121, 172]
}

/// The body of the full status query: field 1 repeated once per status id.
pub fn camera_full_status_query_body() -> (r: Vec<u8>)
    ensures
        r@ == tagged_varints(0x08, full_status_ids()),
{
    let ids: Vec<u64> = vec![1, 3, 2, 76, 6, 78, 79, 11, 85, 12, 13, 175, 14, 15, 19, 55, 17, 20, 30, 36,
        110, 114, 117, 89, 116, 115, 37, 38, 42, 40, 41, 48, 49, 50, 66, 132, 58, 59, 60, 67, 68,
        93, 83, 82, 70, 88, 103, 16, 97, 133, 134, 119, 122, 123, 124, 128, 129, 135, 150, 149,
        147, 155, 157, 158, 160, 179, 161, 22, 80, 81, 167, 169, 173, 180, 176, 177, 120, 111, 121,
        172];
    assert(ids@ =~= full_status_ids());
    let mut body: Vec<u8> = Vec::new();
    push_tagged_varints(&mut body, 0x08, ids.as_slice());
    assert(body@ =~= tagged_varints(0x08, full_status_ids()));
    body
}

/// The capture setting ids asked for by the capture settings query.
pub open spec fn capture_setting_ids() -> Seq<u64> {
    seq![1u64, 2, 3, 4, 5, 6, 7, 8, 9, 10, 11, 12, 13, 39, 14, 15, 18, 19, 20, 21, 22, 23, 24, 25, 26,
        27, 28, 29, 30, 31, 40, 33, 32, 34, 58, 59, 43, 55, 56, 35, 100, 36, 37, 38, 41, 99, 42, 44,
        45, 46, 51, 52, 53, 54, 61, 62, 63, 70, 72, 73, 83, 74, 75, 76, 84, 78, 79, 80, 77, 71, 81,
        82, 86, 87, 85, 88, 89, 90, 91, 98, 93, 94, 107]
}

/// The context value that selects a capture mode in setting bodies: 6 for photo, 7 for video.
pub open spec fn context_value_spec(mode: CameraCaptureMode) -> u8 {
    match mode {
        CameraCaptureMode::Photo => 0x06,
        CameraCaptureMode::Video => 0x07,
    }
}

/// The context value for `mode`.
pub fn capture_context_value(mode: CameraCaptureMode) -> (r: u8)
    ensures
        r == context_value_spec(mode),
{
    match mode {
        CameraCaptureMode::Photo => 0x06,
        CameraCaptureMode::Video => 0x07,
    }
}

/// The body that switches the capture mode.
pub fn build_capture_mode_body(mode: CameraCaptureMode) -> (r: Vec<u8>)
    ensures
        mode == CameraCaptureMode::Photo ==> r@ == seq![0x08u8, 0x28u8, 0x12u8, 0x00u8],
        mode == CameraCaptureMode::Video ==> r@ == seq![0x08u8, 0x29u8, 0x12u8, 0x00u8],
{
    match mode {
        CameraCaptureMode::Photo => vec![0x08, 0x28, 0x12, 0x00],
        CameraCaptureMode::Video => vec![0x08, 0x29, 0x12, 0x00],
    }
}

/// The body that refreshes the capture context.
pub fn build_capture_context_body(mode: CameraCaptureMode) -> (r: Vec<u8>)
    ensures
        r@ == seq![0x08u8, 0x63u8, 0x10u8, context_value_spec(mode)],
{
    vec![0x08, 0x63, 0x10, capture_context_value(mode)]
}

/// The body that reads the capture mode details.
pub fn build_capture_detail_body(mode: CameraCaptureMode) -> (r: Vec<u8>)
    ensures
        r@ == seq![0x08u8, 0x57u8, 0x10u8, context_value_spec(mode)],
{
    vec![0x08, 0x57, 0x10, capture_context_value(mode)]
}

/// The body that confirms the combined capture context.
pub fn build_capture_combined_context_body(mode: CameraCaptureMode) -> (r: Vec<u8>)
    ensures
        r@ == seq![0x08u8, 0x29u8, 0x08u8, 0x63u8, 0x10u8, context_value_spec(mode)],
{
    vec![0x08, 0x29, 0x08, 0x63, 0x10, capture_context_value(mode)]
}

/// The body that queries every capture setting of `mode`.
pub fn build_capture_settings_query_body(mode: CameraCaptureMode) -> (r: Vec<u8>)
    ensures
        r@ == tagged_varints(0x08, capture_setting_ids()) + seq![0x10u8, context_value_spec(mode)],
{
    let ids: Vec<u64> = vec![1, 2, 3, 4, 5, 6, 7, 8, 9, 10, 11, 12, 13, 39, 14, 15, 18, 19, 20, 21, 22,
        23, 24, 25, 26, 27, 28, 29, 30, 31, 40, 33, 32, 34, 58, 59, 43, 55, 56, 35, 100, 36, 37, 38,
        41, 99, 42, 44, 45, 46, 51, 52, 53, 54, 61, 62, 63, 70, 72, 73, 83, 74, 75, 76, 84, 78, 79,
        80, 77, 71, 81, 82, 86, 87, 85, 88, 89, 90, 91, 98, 93, 94, 107];
    assert(ids@ =~= capture_setting_ids());
    let mut body: Vec<u8> = Vec::new();
    push_tagged_varints(&mut body, 0x08, ids.as_slice());
    body.push(0x10);
    body.push(capture_context_value(mode));
    assert(body@ =~= tagged_varints(0x08, capture_setting_ids()) + seq![0x10u8, context_value_spec(mode)]);
    body
}

/// The client id the official app registers with.
pub open spec fn camera_client_id_spec() -> Seq<u8> {
    seq![0x66u8, 0x66, 0x66, 0x66, 0x66, 0x66, 0x66, 0x66, 0x2d, 0x64, 0x33, 0x38, 0x39, 0x2d, 0x34,
        0x65, 0x33, 0x35, 0x2d, 0x66, 0x66, 0x66, 0x66, 0x2d, 0x66, 0x66, 0x66, 0x66, 0x65, 0x66,
        0x30, 0x35, 0x61, 0x63, 0x34, 0x61]
}

/// The body that registers this client with the camera: the client id as field 1, then
/// field 2 set to 2.
pub fn build_camera_client_registration_body() -> (r: Vec<u8>)
    ensures
        r@ == seq![0x0au8] + varint_bytes(36) + camera_client_id_spec() + seq![0x10u8, 0x02u8],
{
    let client_id: Vec<u8> = vec![0x66, 0x66, 0x66, 0x66, 0x66, 0x66, 0x66, 0x66, 0x2d, 0x64, 0x33,
        0x38, 0x39, 0x2d, 0x34, 0x65, 0x33, 0x35, 0x2d, 0x66, 0x66, 0x66, 0x66, 0x2d, 0x66, 0x66,
        0x66, 0x66, 0x65, 0x66, 0x30, 0x35, 0x61, 0x63, 0x34, 0x61];
    assert(client_id@ =~= camera_client_id_spec());
    let mut body: Vec<u8> = Vec::new();
    body.push(0x0a);
    encode_varint(client_id.len() as u64, &mut body);
    crate::ucd2::push_all(&mut body, client_id.as_slice());
    body.push(0x10);
    body.push(0x02);
    assert(body@ =~= seq![0x0au8] + varint_bytes(36) + camera_client_id_spec() + seq![0x10u8, 0x02u8]);
    body
}

/// The bytes of the time zone name `Asia/Shanghai`.
pub open spec fn time_zone_spec() -> Seq<u8> {
    seq![0x41u8, 0x73, 0x69, 0x61, 0x2f, 0x53, 0x68, 0x61, 0x6e, 0x67, 0x68, 0x61, 0x69]
}

/// The time values of the time synchronisation body: epoch seconds (field 12), the UTC offset
/// 28800 seconds (field 13) and the time zone name (field 175).
pub open spec fn time_sync_values(epoch_seconds: u64) -> Seq<u8> {
    seq![0x60u8] + varint_bytes(epoch_seconds as nat) + seq![0x68u8] + varint_bytes(28_800)
        + seq![0xfau8, 0x0au8] + varint_bytes(13) + time_zone_spec()
}

/// The body that synchronises the camera clock to `epoch_seconds`.
pub fn build_camera_time_sync_body(epoch_seconds: u64) -> (r: Vec<u8>)
    ensures
        r@ == seq![0x08u8, 0x0cu8, 0x08u8, 0x0du8, 0x08u8, 0xafu8, 0x01u8, 0x12u8] + varint_bytes(
            time_sync_values(epoch_seconds).len(),
        ) + time_sync_values(epoch_seconds),
{
    let zone: Vec<u8> = vec![0x41, 0x73, 0x69, 0x61, 0x2f, 0x53, 0x68, 0x61, 0x6e, 0x67, 0x68, 0x61,
        0x69];
    assert(zone@ =~= time_zone_spec());
    let mut values: Vec<u8> = Vec::new();
    values.push(0x60);
    encode_varint(epoch_seconds, &mut values);
    values.push(0x68);
    encode_varint(28_800, &mut values);
    values.push(0xfa);
    values.push(0x0a);
    encode_varint(zone.len() as u64, &mut values);
    crate::ucd2::push_all(&mut values, zone.as_slice());
    assert(values@ =~= time_sync_values(epoch_seconds));
    let mut body: Vec<u8> = vec![0x08, 0x0c, 0x08, 0x0d, 0x08, 0xaf, 0x01, 0x12];
    encode_varint(values.len() as u64, &mut body);
    crate::ucd2::push_all(&mut body, values.as_slice());
    body
}

/// Maps the user interface's joystick axes onto the camera's: the device x axis is the
/// negated vertical input and the device y axis the horizontal one.
pub fn gimbal_device_axes_from_ui(horizontal: i16, vertical: i16) -> (r: Result<(i16, i16), CommandError>)
    ensures
        (-100 <= horizontal <= 100 && -100 <= vertical <= 100) ==> r == Ok::<(i16, i16), CommandError>(((-vertical) as i16, horizontal)),
        !(-100 <= horizontal <= 100 && -100 <= vertical <= 100) ==> r == Err::<(i16, i16), CommandError>(CommandError::GimbalOutOfRange),
{
    if horizontal < -100 || horizontal > 100 || vertical < -100 || vertical > 100 {
        return Err(CommandError::GimbalOutOfRange);
    }
    Ok((-vertical, horizontal))
}

/// The coordinate message of a gimbal move: field 1 with the zig-zag x unless x is zero, then
/// field 2 with the zig-zag y unless y is zero.
pub open spec fn gimbal_coordinates(x: i16, y: i16) -> Seq<u8> {
    (if x != 0 {
        seq![0x08u8] + varint_bytes(zigzag_spec(x as int))
    } else {
        Seq::empty()
    }) + (if y != 0 {
        seq![0x10u8] + varint_bytes(zigzag_spec(y as int))
    } else {
        Seq::empty()
    })
}

/// The body of a gimbal move towards device coordinates `(x, y)`.
pub fn build_gimbal_move_body(x: i16, y: i16) -> (r: Result<Vec<u8>, CommandError>)
    ensures
        (-100 <= x <= 100 && -100 <= y <= 100) ==> (r matches Ok(body) && body@ == seq![0x08u8, 0x01u8, 0x12u8]
            + varint_bytes(gimbal_coordinates(x, y).len()) + gimbal_coordinates(x, y)),
        !(-100 <= x <= 100 && -100 <= y <= 100) ==> r == Err::<Vec<u8>, CommandError>(CommandError::GimbalOutOfRange),
{
    if x < -100 || x > 100 || y < -100 || y > 100 {
        return Err(CommandError::GimbalOutOfRange);
    }
    let mut coordinates: Vec<u8> = Vec::new();
    if x != 0 {
        coordinates.push(0x08);
        encode_varint(zigzag_i16(x), &mut coordinates);
    }
    let ghost first = coordinates@;
    if y != 0 {
        coordinates.push(0x10);
        encode_varint(zigzag_i16(y), &mut coordinates);
    }
    assert(coordinates@ =~= gimbal_coordinates(x, y));
    let mut body: Vec<u8> = vec![0x08, 0x01, 0x12];
    encode_varint(coordinates.len() as u64, &mut body);
    crate::ucd2::push_all(&mut body, coordinates.as_slice());
    Ok(body)
}

/// The body that sets the hardware gimbal speed level.
pub fn build_gimbal_speed_body(level: u8) -> (r: Result<Vec<u8>, CommandError>)
    ensures
        1 <= level <= 3 ==> (r matches Ok(body) && body@ == seq![0x08u8, 0x55u8, 0x12u8, 0x05u8,
            0xaau8, 0x05u8, 0x02u8, 0x10u8, level, 0x18u8, 0x06u8]),
        !(1 <= level <= 3) ==> r == Err::<Vec<u8>, CommandError>(CommandError::GimbalSpeedOutOfRange),
{
    if level < 1 || level > 3 {
        return Err(CommandError::GimbalSpeedOutOfRange);
    }
    Ok(vec![0x08, 0x55, 0x12, 0x05, 0xaa, 0x05, 0x02, 0x10, level, 0x18, 0x06])
}

/// The bit patterns of the zoom factors 1.0, 2.0, 3.0 and 6.0 as IEEE 754 doubles.
pub open spec fn is_quick_zoom_bits(bits: u64) -> bool {
    bits == 0x3ff0_0000_0000_0000 || bits == 0x4000_0000_0000_0000 || bits == 0x4008_0000_0000_0000
        || bits == 0x4018_0000_0000_0000
}

/// The eight little-endian bytes of a 64-bit value.
pub open spec fn le64_bytes(v: u64) -> Seq<u8> {
    seq![v as u8, (v >> 8u64) as u8, (v >> 16u64) as u8, (v >> 24u64) as u8, (v >> 32u64) as u8,
        (v >> 40u64) as u8, (v >> 48u64) as u8, (v >> 56u64) as u8]
}

/// The body that sets the zoom, given the bit pattern of the zoom factor as an IEEE 754 double
/// (`f64::to_bits`). Only the quick-zoom steps 1x, 2x, 3x and 6x are accepted.
pub fn build_zoom_body(zoom_bits: u64, mode: CameraCaptureMode) -> (r: Result<Vec<u8>, CommandError>)
    ensures
        is_quick_zoom_bits(zoom_bits) ==> (r matches Ok(body) && body@ == seq![0x08u8, 0x35u8, 0x12u8,
            0x0au8, 0xa9u8, 0x03u8] + le64_bytes(zoom_bits) + seq![0x18u8, context_value_spec(mode)]),
        !is_quick_zoom_bits(zoom_bits) ==> r == Err::<Vec<u8>, CommandError>(CommandError::UnsupportedZoom),
{
    if !(zoom_bits == 0x3ff0_0000_0000_0000 || zoom_bits == 0x4000_0000_0000_0000 || zoom_bits
        == 0x4008_0000_0000_0000 || zoom_bits == 0x4018_0000_0000_0000) {
        return Err(CommandError::UnsupportedZoom);
    }
    let mut body: Vec<u8> = vec![0x08, 0x35, 0x12, 0x0a, 0xa9, 0x03];
    body.push(zoom_bits as u8);
    body.push((zoom_bits >> 8u64) as u8);
    body.push((zoom_bits >> 16u64) as u8);
    body.push((zoom_bits >> 24u64) as u8);
    body.push((zoom_bits >> 32u64) as u8);
    body.push((zoom_bits >> 40u64) as u8);
    body.push((zoom_bits >> 48u64) as u8);
    body.push((zoom_bits >> 56u64) as u8);
    body.push(0x18);
    body.push(capture_context_value(mode));
    assert(body@ =~= seq![0x08u8, 0x35u8, 0x12u8, 0x0au8, 0xa9u8, 0x03u8] + le64_bytes(zoom_bits)
        + seq![0x18u8, context_value_spec(mode)]);
    Ok(body)
}

/// The recording state a state event reports: field 1 is 0 when stopped; 1 with field 7 equal
/// to 2 when recording; anything else is no recording state.
pub open spec fn recording_state_spec(body: Seq<u8>) -> Option<bool> {
    match varint_field_from(body, 1, 0) {
        Some(v) => if v == 0 {
            Some(false)
        } else if v == 1 && varint_field_from(body, 7, 0) == Some(2u64) {
            Some(true)
        } else {
            None
        },
        None => None,
    }
}

/// Decodes a recording state event.
pub fn recording_state_from_event_body(body: &[u8]) -> (r: Option<bool>)
    ensures
        r == recording_state_spec(body@),
{
    match protobuf_varint_field(body, 1) {
        None => None,
        Some(v) => {
            if v == 0 {
                Some(false)
            } else if v == 1 && protobuf_varint_field(body, 7) == Some(2u64) {
                Some(true)
            } else {
                None
            }
        },
    }
}

/// Decodes a gimbal speed event: field 2 when it fits in a byte.
pub fn gimbal_speed_from_event_body(body: &[u8]) -> (r: Option<u8>)
    ensures
        r == (match varint_field_from(body@, 2, 0) {
            Some(v) => if v <= 255 {
                Some(v as u8)
            } else {
                None::<u8>
            },
            None => None,
        }),
{
    match protobuf_varint_field(body, 2) {
        Some(v) => if v <= 255 {
            Some(v as u8)
        } else {
            None
        },
        None => None,
    }
}

/// The capture mode a mode event reports: fields (1, 2, 3) equal to (0, 100, 3) for photo and
/// (100, 0, 3) for video.
pub open spec fn capture_mode_event_spec(body: Seq<u8>) -> Option<CameraCaptureMode> {
    match (varint_field_from(body, 1, 0), varint_field_from(body, 2, 0), varint_field_from(body, 3, 0)) {
        (Some(a), Some(b), Some(c)) => if a == 0 && b == 100 && c == 3 {
            Some(CameraCaptureMode::Photo)
        } else if a == 100 && b == 0 && c == 3 {
            Some(CameraCaptureMode::Video)
        } else {
            None
        },
        _ => None,
    }
}

/// Decodes a capture mode event.
pub fn capture_mode_from_event_body(body: &[u8]) -> (r: Option<CameraCaptureMode>)
    ensures
        r == capture_mode_event_spec(body@),
{
    let a = match protobuf_varint_field(body, 1) {
        Some(v) => v,
        None => return None,
    };
    let b = match protobuf_varint_field(body, 2) {
        Some(v) => v,
        None => return None,
    };
    let c = match protobuf_varint_field(body, 3) {
        Some(v) => v,
        None => return None,
    };
    if a == 0 && b == 100 && c == 3 {
        Some(CameraCaptureMode::Photo)
    } else if a == 100 && b == 0 && c == 3 {
        Some(CameraCaptureMode::Video)
    } else {
        None
    }
}

/// The capture mode in a full status response: inside the length-delimited field 2, fields
/// (40, 41) equal to (0, 100) for photo and (100, 0) for video.
pub open spec fn capture_mode_status_spec(body: Seq<u8>) -> Option<CameraCaptureMode> {
    match delimited_field_from(body, 2, 0) {
        None => None,
        Some((a, b)) => {
            let status = body.subrange(a, b);
            match (varint_field_from(status, 40, 0), varint_field_from(status, 41, 0)) {
                (Some(x), Some(y)) => if x == 0 && y == 100 {
                    Some(CameraCaptureMode::Photo)
                } else if x == 100 && y == 0 {
                    Some(CameraCaptureMode::Video)
                } else {
                    None
                },
                _ => None,
            }
        },
    }
}

/// Reads the current capture mode from a full status response.
pub fn capture_mode_from_full_status_body(body: &[u8]) -> (r: Option<CameraCaptureMode>)
    ensures
        r == capture_mode_status_spec(body@),
{
    let status = match protobuf_length_delimited_field(body, 2) {
        Some(s) => s,
        None => return None,
    };
    let x = match protobuf_varint_field(status, 40) {
        Some(v) => v,
        None => return None,
    };
    let y = match protobuf_varint_field(status, 41) {
        Some(v) => v,
        None => return None,
    };
    if x == 0 && y == 100 {
        Some(CameraCaptureMode::Photo)
    } else if x == 100 && y == 0 {
        Some(CameraCaptureMode::Video)
    } else {
        None
    }
}

/// The zoom factor in a capture settings response, as the bit pattern of an IEEE 754 double:
/// the fixed64 field 53 inside the length-delimited field 2, kept when it encodes a finite
/// value in (0, 100], which for these bit patterns means `0 < bits <= bits(100.0)`.
pub open spec fn zoom_bits_spec(body: Seq<u8>) -> Option<u64> {
    match delimited_field_from(body, 2, 0) {
        None => None,
        Some((a, b)) => match fixed64_field_from(body.subrange(a, b), 53, 0) {
            None => None,
            Some(bits) => if 0 < bits <= 0x4059_0000_0000_0000 {
                Some(bits)
            } else {
                None
            },
        },
    }
}

/// Reads the zoom factor from a capture settings response (as `f64` bits).
pub fn zoom_from_capture_settings_body(body: &[u8]) -> (r: Option<u64>)
    ensures
        r == zoom_bits_spec(body@),
{
    let status = match protobuf_length_delimited_field(body, 2) {
        Some(s) => s,
        None => return None,
    };
    let bits = match protobuf_fixed64_field(status, 53) {
        Some(v) => v,
        None => return None,
    };
    if 0 < bits && bits <= 0x4059_0000_0000_0000 {
        Some(bits)
    } else {
        None
    }
}

} // verus!

verus! {

/// One recording format of the Luna Ultra and the protocol value of each frame rate it offers.
pub struct CameraVideoFormat {
    pub id: &'static str,
    pub resolution: &'static str,
    pub aspect_ratio: &'static str,
    pub width: u16,
    pub height: u16,
    pub fps_values: Vec<(u16, u16)>,
}

/// The mathematical content of a recording format.
pub struct VideoFormatSpec {
    pub id: Seq<char>,
    pub resolution: Seq<char>,
    pub aspect_ratio: Seq<char>,
    pub width: u16,
    pub height: u16,
    pub fps_values: Seq<(u16, u16)>,
}

impl CameraVideoFormat {
    /// The format's content.
    pub open spec fn spec_of(&self) -> VideoFormatSpec {
        VideoFormatSpec {
            id: self.id@,
            resolution: self.resolution@,
            aspect_ratio: self.aspect_ratio@,
            width: self.width,
            height: self.height,
            fps_values: self.fps_values@,
        }
    }
}

/// The table of recording formats, in the order the app offers them.
pub open spec fn video_format_table() -> Seq<VideoFormatSpec> {
    seq![
        VideoFormatSpec { id: "8k_16_9"@, resolution: "8K"@, aspect_ratio: "16:9"@, width: 7680, height: 4320,
            fps_values: seq![(30u16, 154u16), (25, 211), (24, 210)] },
        VideoFormatSpec { id: "8k_2_35_1"@, resolution: "8K"@, aspect_ratio: "2.35:1"@, width: 7680, height: 3264,
            fps_values: seq![(30u16, 213u16), (25, 212), (24, 219)] },
        VideoFormatSpec { id: "4k_16_9"@, resolution: "4K"@, aspect_ratio: "16:9"@, width: 3840, height: 2160,
            fps_values: seq![(120u16, 214u16), (100, 220), (60, 23), (50, 92), (48, 258), (30, 24), (25, 48), (24, 49)] },
        VideoFormatSpec { id: "4k_2_35_1"@, resolution: "4K"@, aspect_ratio: "2.35:1"@, width: 3840, height: 1632,
            fps_values: seq![(120u16, 433u16), (100, 434), (60, 435), (50, 436), (48, 437), (30, 438), (25, 439), (24, 440)] },
        VideoFormatSpec { id: "3k_1_1"@, resolution: "3K"@, aspect_ratio: "1:1"@, width: 3072, height: 3072,
            fps_values: seq![(60u16, 446u16), (50, 447), (48, 448), (30, 121), (25, 120), (24, 119)] },
        VideoFormatSpec { id: "3k_9_16"@, resolution: "3K"@, aspect_ratio: "9:16"@, width: 1728, height: 3072,
            fps_values: seq![(60u16, 450u16), (50, 451), (48, 452), (30, 453), (25, 454), (24, 455)] },
        VideoFormatSpec { id: "2_7k_16_9"@, resolution: "2.7K"@, aspect_ratio: "16:9"@, width: 2688, height: 1520,
            fps_values: seq![(120u16, 242u16), (100, 243), (60, 244), (50, 245), (48, 331), (30, 246), (25, 247), (24, 248)] },
        VideoFormatSpec { id: "2_7k_9_16"@, resolution: "2.7K"@, aspect_ratio: "9:16"@, width: 1520, height: 2688,
            fps_values: seq![(60u16, 441u16), (50, 442), (48, 468), (30, 443), (25, 444), (24, 445)] },
        VideoFormatSpec { id: "1080p_16_9"@, resolution: "1080p"@, aspect_ratio: "16:9"@, width: 1920, height: 1080,
            fps_values: seq![(240u16, 27u16), (200, 26), (120, 28), (100, 150), (60, 40), (50, 81), (48, 260), (30, 29), (25, 52), (24, 53)] },
        VideoFormatSpec { id: "1080p_9_16"@, resolution: "1080p"@, aspect_ratio: "9:16"@, width: 1080, height: 1920,
            fps_values: seq![(60u16, 68u16), (50, 82), (48, 298), (30, 64), (25, 71), (24, 85)] },
    ]
}

fn video_format(
    id: &'static str,
    resolution: &'static str,
    aspect_ratio: &'static str,
    width: u16,
    height: u16,
    fps_values: Vec<(u16, u16)>,
) -> (r: CameraVideoFormat)
    ensures
        r.spec_of() == (VideoFormatSpec {
            id: id@,
            resolution: resolution@,
            aspect_ratio: aspect_ratio@,
            width,
            height,
            fps_values: fps_values@,
        }),
{
    CameraVideoFormat { id, resolution, aspect_ratio, width, height, fps_values }
}

/// The recording formats of the Luna Ultra.
pub fn camera_video_formats() -> (r: Vec<CameraVideoFormat>)
    ensures
        r@.len() == video_format_table().len(),
        forall|i: int| 0 <= i < r@.len() ==> #[trigger] r@[i].spec_of() == video_format_table()[i],
{
    let mut v: Vec<CameraVideoFormat> = Vec::new();
    v.push(video_format("8k_16_9", "8K", "16:9", 7680, 4320, vec![(30, 154), (25, 211), (24, 210)]));
    v.push(video_format("8k_2_35_1", "8K", "2.35:1", 7680, 3264, vec![(30, 213), (25, 212), (24, 219)]));
    v.push(video_format("4k_16_9", "4K", "16:9", 3840, 2160, vec![(120, 214), (100, 220), (60, 23), (50, 92), (48, 258), (30, 24), (25, 48), (24, 49)]));
    v.push(video_format("4k_2_35_1", "4K", "2.35:1", 3840, 1632, vec![(120, 433), (100, 434), (60, 435), (50, 436), (48, 437), (30, 438), (25, 439), (24, 440)]));
    v.push(video_format("3k_1_1", "3K", "1:1", 3072, 3072, vec![(60, 446), (50, 447), (48, 448), (30, 121), (25, 120), (24, 119)]));
    v.push(video_format("3k_9_16", "3K", "9:16", 1728, 3072, vec![(60, 450), (50, 451), (48, 452), (30, 453), (25, 454), (24, 455)]));
    v.push(video_format("2_7k_16_9", "2.7K", "16:9", 2688, 1520, vec![(120, 242), (100, 243), (60, 244), (50, 245), (48, 331), (30, 246), (25, 247), (24, 248)]));
    v.push(video_format("2_7k_9_16", "2.7K", "9:16", 1520, 2688, vec![(60, 441), (50, 442), (48, 468), (30, 443), (25, 444), (24, 445)]));
    v.push(video_format("1080p_16_9", "1080p", "16:9", 1920, 1080, vec![(240, 27), (200, 26), (120, 28), (100, 150), (60, 40), (50, 81), (48, 260), (30, 29), (25, 52), (24, 53)]));
    v.push(video_format("1080p_9_16", "1080p", "9:16", 1080, 1920, vec![(60, 68), (50, 82), (48, 298), (30, 64), (25, 71), (24, 85)]));
    assert forall|i: int| 0 <= i < v@.len() implies #[trigger] v@[i].spec_of() == video_format_table()[i] by {
        assert(v@[i].spec_of().fps_values =~= video_format_table()[i].fps_values);
    }
    v
}

} // verus!

verus! {

/// A recording format together with one of its frame rates.
#[derive(Debug, Clone, Copy, PartialEq, Eq)]
pub struct CameraVideoProfile {
    format_id: &'static str,
    resolution: &'static str,
    aspect_ratio: &'static str,
    width: u16,
    height: u16,
    fps: u16,
    pub protocol_value: u16,
}

/// The index of the first format in `t` at or after `i` whose id is `id`.
pub open spec fn format_index_from(t: Seq<VideoFormatSpec>, id: Seq<char>, i: int) -> Option<int>
    decreases t.len() - i,
{
    if i < 0 || i >= t.len() {
        None
    } else if t[i].id == id {
        Some(i)
    } else {
        format_index_from(t, id, i + 1)
    }
}

/// The protocol value of the first entry at or after `i` whose frame rate is `fps`.
pub open spec fn fps_value_from(values: Seq<(u16, u16)>, fps: u16, i: int) -> Option<u16>
    decreases values.len() - i,
{
    if i < 0 || i >= values.len() {
        None
    } else if values[i].0 == fps {
        Some(values[i].1)
    } else {
        fps_value_from(values, fps, i + 1)
    }
}

/// The number of (format, frame rate) entries of a table.
pub open spec fn profile_entry_count(t: Seq<VideoFormatSpec>) -> nat
    decreases t.len(),
{
    if t.len() == 0 {
        0
    } else {
        t[0].fps_values.len() + profile_entry_count(t.drop_first())
    }
}

/// The search for a format id finds the first row that has it.
proof fn lemma_format_index_first(t: Seq<VideoFormatSpec>, id: Seq<char>, k: int, i: int)
    requires
        0 <= k <= i < t.len(),
        t[i].id == id,
        forall|j: int| k <= j < i ==> #[trigger] t[j].id != id,
    ensures
        format_index_from(t, id, k) == Some(i),
    decreases i - k,
{
    if k < i {
        lemma_format_index_first(t, id, k + 1, i);
    }
}

/// The search for a frame rate finds the first entry that has it.
proof fn lemma_fps_value_first(values: Seq<(u16, u16)>, fps: u16, k: int, a: int)
    requires
        0 <= k <= a < values.len(),
        values[a].0 == fps,
        forall|j: int| k <= j < a ==> #[trigger] values[j].0 != fps,
    ensures
        fps_value_from(values, fps, k) == Some(values[a].1),
    decreases a - k,
{
    if k < a {
        lemma_fps_value_first(values, fps, k + 1, a);
    }
}

/// The recording formats: ten of them with distinct ids, no frame rate listed twice for one
/// format, and 64 (format, frame rate) entries in all, each of which a profile lookup finds.
pub proof fn lemma_video_profile_table()
    ensures
        video_format_table().len() == 10,
        profile_entry_count(video_format_table()) == 64,
        forall|i: int, j: int|
            0 <= i < j < 10 ==> #[trigger] video_format_table()[i].id
                != #[trigger] video_format_table()[j].id,
        forall|i: int, a: int, b: int|
            0 <= i < 10 && 0 <= a < b < video_format_table()[i].fps_values.len()
                ==> #[trigger] video_format_table()[i].fps_values[a].0
                != #[trigger] video_format_table()[i].fps_values[b].0,
        forall|i: int, a: int|
            #![trigger video_format_table()[i].fps_values[a]]
            0 <= i < 10 && 0 <= a < video_format_table()[i].fps_values.len() ==> format_index_from(
                video_format_table(),
                video_format_table()[i].id,
                0,
            ) == Some(i) && fps_value_from(
                video_format_table()[i].fps_values,
                video_format_table()[i].fps_values[a].0,
                0,
            ) == Some(video_format_table()[i].fps_values[a].1),
{
    reveal_strlit("8k_16_9");
    reveal_strlit("8k_2_35_1");
    reveal_strlit("4k_16_9");
    reveal_strlit("4k_2_35_1");
    reveal_strlit("3k_1_1");
    reveal_strlit("3k_9_16");
    reveal_strlit("2_7k_16_9");
    reveal_strlit("2_7k_9_16");
    reveal_strlit("1080p_16_9");
    reveal_strlit("1080p_9_16");
    let t = video_format_table();
    assert(profile_entry_count(t) == 64) by {
        reveal_with_fuel(profile_entry_count, 11);
        assert(t.drop_first().drop_first().drop_first().drop_first().drop_first().drop_first()
            .drop_first().drop_first().drop_first().drop_first().len() == 0);
    }
    assert forall|i: int, j: int| 0 <= i < j < 10 implies #[trigger] t[i].id != #[trigger] t[j].id by {
        assert(t[i].id.len() != t[j].id.len() || t[i].id[0] != t[j].id[0] || t[i].id[1]
            != t[j].id[1] || t[i].id[3] != t[j].id[3] || t[i].id[5] != t[j].id[5]
            || t[i].id[6] != t[j].id[6] || t[i].id[7] != t[j].id[7]);
    }
    assert forall|i: int, a: int, b: int|
        0 <= i < 10 && 0 <= a < b < t[i].fps_values.len() implies #[trigger] t[i].fps_values[a].0
        != #[trigger] t[i].fps_values[b].0 by {
        assert(t[i].fps_values[a].0 > t[i].fps_values[b].0);
    }
    assert forall|i: int, a: int|
        #![trigger t[i].fps_values[a]]
        0 <= i < 10 && 0 <= a < t[i].fps_values.len() implies format_index_from(t, t[i].id, 0)
        == Some(i) && fps_value_from(t[i].fps_values, t[i].fps_values[a].0, 0) == Some(
        t[i].fps_values[a].1,
    ) by {
        assert forall|j: int| 0 <= j < i implies #[trigger] t[j].id != t[i].id by {
            assert(t[j].id.len() != t[i].id.len() || t[j].id[0] != t[i].id[0] || t[j].id[1]
                != t[i].id[1] || t[j].id[3] != t[i].id[3] || t[j].id[5] != t[i].id[5]
                || t[j].id[6] != t[i].id[6] || t[j].id[7] != t[i].id[7]);
        }
        lemma_format_index_first(t, t[i].id, 0, i);
        assert forall|k: int| 0 <= k < a implies #[trigger] t[i].fps_values[k].0
            != t[i].fps_values[a].0 by {
            assert(t[i].fps_values[k].0 > t[i].fps_values[a].0);
        }
        lemma_fps_value_first(t[i].fps_values, t[i].fps_values[a].0, 0, a);
    }
}

impl CameraVideoProfile {
    /// The characters of the format id.
    pub closed spec fn format_id_seq(self) -> Seq<char> {
        self.format_id@
    }

    /// The characters of the resolution name.
    pub closed spec fn resolution_seq(self) -> Seq<char> {
        self.resolution@
    }

    /// The characters of the aspect ratio name.
    pub closed spec fn aspect_ratio_seq(self) -> Seq<char> {
        self.aspect_ratio@
    }

    /// The frame width in pixels.
    pub closed spec fn width_value(self) -> u16 {
        self.width
    }

    /// The frame height in pixels.
    pub closed spec fn height_value(self) -> u16 {
        self.height
    }

    /// The frame rate.
    pub closed spec fn fps_value(self) -> u16 {
        self.fps
    }

    /// Whether this profile is the format `f` at frame rate `fps` with protocol value `value`.
    pub open spec fn is_profile_of(self, f: VideoFormatSpec, fps: u16, value: u16) -> bool {
        &&& self.format_id_seq() == f.id
        &&& self.resolution_seq() == f.resolution
        &&& self.aspect_ratio_seq() == f.aspect_ratio
        &&& self.width_value() == f.width
        &&& self.height_value() == f.height
        &&& self.fps_value() == fps
        &&& self.protocol_value_of() == value
    }

    /// The protocol value of the profile.
    pub closed spec fn protocol_value_of(self) -> u16 {
        self.protocol_value
    }

    pub fn format_id(self) -> (r: &'static str)
        ensures
            r@ == self.format_id_seq(),
    {
        self.format_id
    }

    pub fn resolution(self) -> (r: &'static str)
        ensures
            r@ == self.resolution_seq(),
    {
        self.resolution
    }

    pub fn aspect_ratio(self) -> (r: &'static str)
        ensures
            r@ == self.aspect_ratio_seq(),
    {
        self.aspect_ratio
    }

    pub fn width(self) -> (r: u16)
        ensures
            r == self.width_value(),
    {
        self.width
    }

    pub fn height(self) -> (r: u16)
        ensures
            r == self.height_value(),
    {
        self.height
    }

    pub fn fps(self) -> (r: u16)
        ensures
            r == self.fps_value(),
    {
        self.fps
    }

    /// The label of the profile: `{resolution} {aspect}（{width}×{height}）· {fps} fps`.
    pub open spec fn display_label_spec(self) -> Seq<char> {
        self.resolution_seq() + " "@ + self.aspect_ratio_seq() + "（"@ + crate::text::decimal_spec(
            self.width_value() as nat,
        ) + "×"@ + crate::text::decimal_spec(self.height_value() as nat) + "）· "@
            + crate::text::decimal_spec(self.fps_value() as nat) + " fps"@
    }

    /// The label the user interface shows for the profile.
    pub fn display_label(self) -> (r: String)
        ensures
            r@ == self.display_label_spec(),
    {
        let mut out: Vec<char> = Vec::new();
        crate::text::push_str(&mut out, self.resolution);
        crate::text::push_str(&mut out, " ");
        crate::text::push_str(&mut out, self.aspect_ratio);
        crate::text::push_str(&mut out, "（");
        let w = crate::text::decimal_chars(self.width as u64);
        crate::text::push_chars(&mut out, w.as_slice());
        crate::text::push_str(&mut out, "×");
        let h = crate::text::decimal_chars(self.height as u64);
        crate::text::push_chars(&mut out, h.as_slice());
        crate::text::push_str(&mut out, "）· ");
        let f = crate::text::decimal_chars(self.fps as u64);
        crate::text::push_chars(&mut out, f.as_slice());
        crate::text::push_str(&mut out, " fps");
        assert(out@ =~= self.display_label_spec());
        crate::text::string_from_chars(out.as_slice())
    }
}

/// Looks up the format `format_id` and its frame rate `fps` in the recording format table.
pub fn resolve_camera_video_profile(format_id: &str, fps: u16) -> (r: Option<CameraVideoProfile>)
    ensures
        r is Some <==> (format_index_from(video_format_table(), format_id@, 0) matches Some(i)
            && fps_value_from(video_format_table()[i].fps_values, fps, 0) is Some),
        r matches Some(p) ==> (format_index_from(video_format_table(), format_id@, 0) matches Some(i)
            && fps_value_from(video_format_table()[i].fps_values, fps, 0) matches Some(value)
            && p.is_profile_of(video_format_table()[i], fps, value)),
{
    let formats = camera_video_formats();
    let ghost t = video_format_table();
    let n = formats.len();
    let mut i: usize = 0;
    while i < n
        invariant
            n == formats@.len(),
            n == t.len(),
            t == video_format_table(),
            i <= n,
            forall|k: int| 0 <= k < formats@.len() ==> #[trigger] formats@[k].spec_of() == t[k],
            format_index_from(t, format_id@, 0) == format_index_from(t, format_id@, i as int),
        decreases n - i,
    {
        let format = &formats[i];
        assert(format.spec_of() == t[i as int]);
        if crate::text::str_eq(format.id, format_id) {
            let m = format.fps_values.len();
            let mut j: usize = 0;
            let ghost vals = t[i as int].fps_values;
            assert(format_index_from(t, format_id@, 0) == Some(i as int));
            while j < m
                invariant
                    format_index_from(t, format_id@, 0) == Some(i as int),
                    t == video_format_table(),
                    i < t.len(),
                    vals == t[i as int].fps_values,
                    format.spec_of() == t[i as int],
                    m == format.fps_values@.len(),
                    vals == format.fps_values@,
                    j <= m,
                    fps_value_from(vals, fps, 0) == fps_value_from(vals, fps, j as int),
                decreases m - j,
            {
                let (candidate, value) = format.fps_values[j];
                if candidate == fps {
                    return Some(
                        CameraVideoProfile {
                            format_id: format.id,
                            resolution: format.resolution,
                            aspect_ratio: format.aspect_ratio,
                            width: format.width,
                            height: format.height,
                            fps,
                            protocol_value: value,
                        },
                    );
                }
                j = j + 1;
            }
            return None;
        }
        i = i + 1;
    }
    None
}

/// The body that selects a video profile: field 31 with the profile message (field 31 of the
/// protocol value) and the video context.
pub fn build_video_profile_body(profile: CameraVideoProfile) -> (r: Vec<u8>)
    ensures
        r@ == seq![0x08u8, 0x1fu8, 0x12u8] + varint_bytes(2 + varint_bytes(profile.protocol_value_of() as nat).len())
            + seq![0xf8u8, 0x01u8] + varint_bytes(profile.protocol_value_of() as nat) + seq![0x18u8, 0x07u8],
{
    let mut profile_body: Vec<u8> = vec![0xf8, 0x01];
    encode_varint(profile.protocol_value as u64, &mut profile_body);
    let mut body: Vec<u8> = vec![0x08, 0x1f, 0x12];
    encode_varint(profile_body.len() as u64, &mut body);
    crate::ucd2::push_all(&mut body, profile_body.as_slice());
    body.push(0x18);
    body.push(capture_context_value(CameraCaptureMode::Video));
    assert(body@ =~= seq![0x08u8, 0x1fu8, 0x12u8] + varint_bytes(2 + varint_bytes(profile.protocol_value_of() as nat).len())
            + seq![0xf8u8, 0x01u8] + varint_bytes(profile.protocol_value_of() as nat) + seq![0x18u8, 0x07u8]);
    body
}

} // verus!

verus! {

/// One command of a session's setup: its command id and body, how many seconds its answer
/// may take, and the message its failure is reported with.
pub struct SetupCommand {
    pub command_id: u16,
    pub body: Vec<u8>,
    pub timeout_secs: u64,
    pub failure: &'static str,
}

/// Whether `c` is the setup command with these parts.
pub open spec fn is_setup_command(c: SetupCommand, command_id: u16, body: Seq<u8>, timeout_secs: u64, failure: Seq<char>) -> bool {
    &&& c.command_id == command_id
    &&& c.body@ == body
    &&& c.timeout_secs == timeout_secs
    &&& c.failure@ == failure
}

/// The setup of a media session, in order: open the session (6 s), read the full status
/// (8 s), register the client (6 s), set the camera's clock to `epoch_seconds` (6 s), read the
/// status (6 s).
pub fn media_session_setup(epoch_seconds: u64) -> (r: Vec<SetupCommand>)
    ensures
        r@.len() == 5,
        is_setup_command(r@[0], CAMERA_SESSION_INIT_COMMAND, Seq::empty(), 6, "初始化 Luna 媒体会话失败"@),
        is_setup_command(r@[1], CAMERA_STATUS_QUERY_COMMAND, tagged_varints(0x08, full_status_ids()), 8, "读取 Luna 媒体能力失败"@),
        is_setup_command(
            r@[2],
            CAMERA_CLIENT_REGISTER_COMMAND,
            seq![0x0au8] + varint_bytes(36) + camera_client_id_spec() + seq![0x10u8, 0x02u8],
            6,
            "登记 Luna Studio 媒体客户端失败"@,
        ),
        is_setup_command(
            r@[3],
            CAMERA_TIME_SYNC_COMMAND,
            seq![0x08u8, 0x0cu8, 0x08u8, 0x0du8, 0x08u8, 0xafu8, 0x01u8, 0x12u8] + varint_bytes(
                time_sync_values(epoch_seconds).len(),
            ) + time_sync_values(epoch_seconds),
            6,
            "同步 Luna 媒体会话时间失败"@,
        ),
        is_setup_command(
            r@[4],
            CAMERA_STATUS_QUERY_COMMAND,
            seq![0x08u8, 0x0bu8, 0x08u8, 0x55u8, 0x08u8, 0xb4u8, 0x01u8],
            6,
            "读取 Luna 媒体会话状态失败"@,
        ),
{
    let mut r: Vec<SetupCommand> = Vec::new();
    let empty: Vec<u8> = Vec::new();
    assert(empty@ =~= Seq::<u8>::empty());
    r.push(SetupCommand { command_id: CAMERA_SESSION_INIT_COMMAND, body: empty, timeout_secs: 6, failure: "初始化 Luna 媒体会话失败" });
    r.push(SetupCommand { command_id: CAMERA_STATUS_QUERY_COMMAND, body: camera_full_status_query_body(), timeout_secs: 8, failure: "读取 Luna 媒体能力失败" });
    r.push(SetupCommand { command_id: CAMERA_CLIENT_REGISTER_COMMAND, body: build_camera_client_registration_body(), timeout_secs: 6, failure: "登记 Luna Studio 媒体客户端失败" });
    r.push(SetupCommand { command_id: CAMERA_TIME_SYNC_COMMAND, body: build_camera_time_sync_body(epoch_seconds), timeout_secs: 6, failure: "同步 Luna 媒体会话时间失败" });
    r.push(SetupCommand { command_id: CAMERA_STATUS_QUERY_COMMAND, body: camera_status_query_body(), timeout_secs: 6, failure: "读取 Luna 媒体会话状态失败" });
    r
}

/// How a session connects: how many times it tries the port, and how many milliseconds it
/// pauses between tries. The media session tries three times, 350 ms apart; the control
/// session once.
pub fn connection_attempts(control: bool) -> (r: (u32, u64))
    ensures
        r == (if control {
            (1u32, 350u64)
        } else {
            (3u32, 350u64)
        }),
{
    if control {
        (1, 350)
    } else {
        (3, 350)
    }
}

} // verus!
