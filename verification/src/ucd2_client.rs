//! The older UCD2 message layer: message types, the sixteen-byte header, the payloads of its
//! requests, the checks of its answers and the reading of option answers.
use vstd::prelude::*;
use vstd::utf8::*;
use crate::text::{chars_of, find_char, first_index_of, push_chars, push_str, slice_chars, string_from_chars, string_from_utf8, trim_chars, trim_spec};
use crate::session::hex4;
use crate::ucd2::{copy_range, le16_bytes, le32_bytes, le16_at, le32_at, push_all, push_le16, push_le32, read_le16, read_le32};

verus! {

/// The message types of the older UCD2 layer.
#[derive(Debug, Clone, Copy, PartialEq, Eq, Structural)]
pub enum Ucd2MessageType {
    Auth,
    AuthResp,
    SetSyncCaptureMode,
    GetSyncCaptureMode,
    SetSyncCaptureModeResp,
    GetSyncCaptureModeResp,
    StartCapture,
    StopCapture,
    TakePicture,
    StartCaptureResp,
    StopCaptureResp,
    TakePictureResp,
    SetOptions,
    GetOptions,
    SetOptionsResp,
    GetOptionsResp,
    SetSubmodeOptions,
    GetSubmodeOptions,
    SetSubmodeOptionsResp,
    GetSubmodeOptionsResp,
    GetStorage,
    GetBattery,
    GetStorageResp,
    GetBatteryResp,
}

impl Ucd2MessageType {
    /// The code of a message type on the wire.
    pub open spec fn code_spec(self) -> u16 {
        match self {
            Ucd2MessageType::Auth => 0x0100,
            Ucd2MessageType::AuthResp => 0x0101,
            Ucd2MessageType::SetSyncCaptureMode => 0x0200,
            Ucd2MessageType::GetSyncCaptureMode => 0x0201,
            Ucd2MessageType::SetSyncCaptureModeResp => 0x0202,
            Ucd2MessageType::GetSyncCaptureModeResp => 0x0203,
            Ucd2MessageType::StartCapture => 0x0300,
            Ucd2MessageType::StopCapture => 0x0301,
            Ucd2MessageType::TakePicture => 0x0302,
            Ucd2MessageType::StartCaptureResp => 0x0303,
            Ucd2MessageType::StopCaptureResp => 0x0304,
            Ucd2MessageType::TakePictureResp => 0x0305,
            Ucd2MessageType::SetOptions => 0x0400,
            Ucd2MessageType::GetOptions => 0x0401,
            Ucd2MessageType::SetOptionsResp => 0x0402,
            Ucd2MessageType::GetOptionsResp => 0x0403,
            Ucd2MessageType::SetSubmodeOptions => 0x0500,
            Ucd2MessageType::GetSubmodeOptions => 0x0501,
            Ucd2MessageType::SetSubmodeOptionsResp => 0x0502,
            Ucd2MessageType::GetSubmodeOptionsResp => 0x0503,
            Ucd2MessageType::GetStorage => 0x0600,
            Ucd2MessageType::GetBattery => 0x0601,
            Ucd2MessageType::GetStorageResp => 0x0602,
            Ucd2MessageType::GetBatteryResp => 0x0603,
        }
    }

    /// The code of a message type on the wire.
    pub fn code(self) -> (r: u16)
        ensures
            r == self.code_spec(),
    {
        match self {
            Ucd2MessageType::Auth => 0x0100,
            Ucd2MessageType::AuthResp => 0x0101,
            Ucd2MessageType::SetSyncCaptureMode => 0x0200,
            Ucd2MessageType::GetSyncCaptureMode => 0x0201,
            Ucd2MessageType::SetSyncCaptureModeResp => 0x0202,
            Ucd2MessageType::GetSyncCaptureModeResp => 0x0203,
            Ucd2MessageType::StartCapture => 0x0300,
            Ucd2MessageType::StopCapture => 0x0301,
            Ucd2MessageType::TakePicture => 0x0302,
            Ucd2MessageType::StartCaptureResp => 0x0303,
            Ucd2MessageType::StopCaptureResp => 0x0304,
            Ucd2MessageType::TakePictureResp => 0x0305,
            Ucd2MessageType::SetOptions => 0x0400,
            Ucd2MessageType::GetOptions => 0x0401,
            Ucd2MessageType::SetOptionsResp => 0x0402,
            Ucd2MessageType::GetOptionsResp => 0x0403,
            Ucd2MessageType::SetSubmodeOptions => 0x0500,
            Ucd2MessageType::GetSubmodeOptions => 0x0501,
            Ucd2MessageType::SetSubmodeOptionsResp => 0x0502,
            Ucd2MessageType::GetSubmodeOptionsResp => 0x0503,
            Ucd2MessageType::GetStorage => 0x0600,
            Ucd2MessageType::GetBattery => 0x0601,
            Ucd2MessageType::GetStorageResp => 0x0602,
            Ucd2MessageType::GetBatteryResp => 0x0603,
        }
    }
}

/// The header of a message of the older layer.
#[derive(Debug, Clone, Copy, PartialEq, Eq, Structural)]
pub struct Ucd2Header {
    pub version: u8,
    pub msg_type: u16,
    pub sequence: u32,
    pub payload_length: u32,
}

/// The bytes of a header: magic `UCD2`, version, type (LE16), sequence (LE32), payload length
/// (LE32); fifteen bytes in all.
pub open spec fn header_bytes_spec(h: Ucd2Header) -> Seq<u8> {
    seq![0x55u8, 0x43u8, 0x44u8, 0x32u8, h.version] + le16_bytes(h.msg_type) + le32_bytes(h.sequence)
        + le32_bytes(h.payload_length)
}

/// Why a header could not be read.
#[derive(Debug, Clone, Copy, PartialEq, Eq, Structural)]
pub enum HeaderError {
    /// Fewer than sixteen bytes.
    TooShort,
    /// The first four bytes are not `UCD2`.
    BadMagic,
}

impl HeaderError {
    /// The message shown to the user.
    pub fn message(self) -> (r: &'static str)
        ensures
            match self {
                HeaderError::TooShort => r@ == "UCD2 header too short"@,
                HeaderError::BadMagic => r@ == "Invalid UCD2 magic"@,
            },
    {
        match self {
            HeaderError::TooShort => "UCD2 header too short",
            HeaderError::BadMagic => "Invalid UCD2 magic",
        }
    }
}

/// What reading a header from `data` gives: it needs sixteen bytes starting with `UCD2`, and
/// takes the version at 4, the type at 5, the sequence at 7 and the payload length at 11.
pub open spec fn header_from_spec(data: Seq<u8>) -> Result<Ucd2Header, HeaderError> {
    if data.len() < 16 {
        Err(HeaderError::TooShort)
    } else if !(data[0] == 0x55 && data[1] == 0x43 && data[2] == 0x44 && data[3] == 0x32) {
        Err(HeaderError::BadMagic)
    } else {
        Ok(
            Ucd2Header {
                version: data[4],
                msg_type: read_le16(data, 5) as u16,
                sequence: read_le32(data, 7) as u32,
                payload_length: read_le32(data, 11) as u32,
            },
        )
    }
}

impl Ucd2Header {
    /// The header of a message: version 1.
    pub fn new(msg_type: Ucd2MessageType, sequence: u32, payload_length: u32) -> (h: Self)
        ensures
            h == (Ucd2Header { version: 1, msg_type: msg_type.code_spec(), sequence, payload_length }),
    {
        Ucd2Header { version: 1, msg_type: msg_type.code(), sequence, payload_length }
    }

    /// The bytes of the header.
    pub fn to_bytes(&self) -> (r: Vec<u8>)
        ensures
            r@ == header_bytes_spec(*self),
    {
        let mut bytes: Vec<u8> = Vec::new();
        bytes.push(0x55);
        bytes.push(0x43);
        bytes.push(0x44);
        bytes.push(0x32);
        bytes.push(self.version);
        push_le16(&mut bytes, self.msg_type);
        push_le32(&mut bytes, self.sequence);
        push_le32(&mut bytes, self.payload_length);
        assert(bytes@ =~= header_bytes_spec(*self));
        bytes
    }

    /// Reads a header.
    pub fn from_bytes(data: &[u8]) -> (r: Result<Self, HeaderError>)
        ensures
            r == header_from_spec(data@),
    {
        if data.len() < 16 {
            return Err(HeaderError::TooShort);
        }
        if !(data[0] == 0x55 && data[1] == 0x43 && data[2] == 0x44 && data[3] == 0x32) {
            return Err(HeaderError::BadMagic);
        }
        Ok(
            Ucd2Header {
                version: data[4],
                msg_type: le16_at(data, 5),
                sequence: le32_at(data, 7),
                payload_length: le32_at(data, 11),
            },
        )
    }
}

/// Reading back the bytes written for a header, followed by any one byte, gives the header:
/// the written header is fifteen bytes long, one short of what reading asks for.
pub proof fn lemma_header_roundtrip(h: Ucd2Header, extra: u8)
    ensures
        header_from_spec(header_bytes_spec(h).push(extra)) == Ok::<Ucd2Header, HeaderError>(h),
        header_from_spec(header_bytes_spec(h)) == Err::<Ucd2Header, HeaderError>(HeaderError::TooShort),
{
    let b = header_bytes_spec(h).push(extra);
    crate::ucd2::lemma_le32_roundtrip(h.sequence);
    crate::ucd2::lemma_le32_roundtrip(h.payload_length);
    lemma_le16_roundtrip(h.msg_type);
    assert(b.subrange(5, 7) =~= le16_bytes(h.msg_type));
    assert(read_le16(b, 5) == read_le16(le16_bytes(h.msg_type), 0));
    assert(read_le32(b, 7) == read_le32(le32_bytes(h.sequence), 0));
    assert(read_le32(b, 11) == read_le32(le32_bytes(h.payload_length), 0));
}

/// Reading back the two bytes written for a 16-bit value gives the value.
pub proof fn lemma_le16_roundtrip(v: u16)
    ensures
        read_le16(le16_bytes(v), 0) == v as int,
{
    let b0 = v as u8;
    let b1 = (v >> 8u16) as u8;
    assert(b0 + 256 * b1 == v) by (bit_vector)
        requires
            b0 == v as u8,
            b1 == (v >> 8u16) as u8,
    ;
}

/// A message of the older layer: its header (sequence and payload length) and its payload.
pub open spec fn message_spec(msg_type: Ucd2MessageType, sequence: u32, payload: Seq<u8>) -> Seq<u8> {
    header_bytes_spec(
        Ucd2Header {
            version: 1,
            msg_type: msg_type.code_spec(),
            sequence,
            payload_length: payload.len() as u32,
        },
    ) + payload
}

/// The sequence numbers of the older layer's messages.
pub struct MessageSequence {
    pub sequence: u32,
}

impl MessageSequence {
    /// A new connection: no message sent yet.
    pub fn new() -> (s: Self)
        ensures
            s.sequence == 0,
    {
        MessageSequence { sequence: 0 }
    }

    /// The next message: the sequence number advances by one and the message carries it.
    pub fn next_message(&mut self, msg_type: Ucd2MessageType, payload: &[u8]) -> (r: Vec<u8>)
        requires
            old(self).sequence < u32::MAX,
        ensures
            final(self).sequence == old(self).sequence + 1,
            r@ == message_spec(msg_type, final(self).sequence, payload@),
    {
        self.sequence = self.sequence + 1;
        let header = Ucd2Header::new(msg_type, self.sequence, payload.len() as u32);
        let mut message = header.to_bytes();
        push_all(&mut message, payload);
        message
    }
}

/// The payload that selects a capture mode: field 1 holding the mode's bytes, with its length
/// cut to a byte.
pub open spec fn capture_mode_payload_spec(mode: Seq<char>) -> Seq<u8> {
    seq![0x0au8, (encode_utf8(mode).len() % 256) as u8] + encode_utf8(mode)
}

/// The payload that selects a capture mode.
pub fn build_set_capture_mode_payload(mode: &str) -> (r: Vec<u8>)
    ensures
        r@ == capture_mode_payload_spec(mode@),
{
    let bytes = mode.as_bytes();
    let mut payload: Vec<u8> = Vec::new();
    payload.push(0x0a);
    payload.push((bytes.len() % 256) as u8);
    push_all(&mut payload, bytes);
    assert(payload@ =~= capture_mode_payload_spec(mode@));
    payload
}

/// One option of a set-options payload: field 1 holding the key and the value as fields 1
/// and 2, every length cut to a byte.
pub open spec fn option_entry_spec(key: Seq<u8>, value: Seq<u8>) -> Seq<u8> {
    seq![0x0au8, ((4 + key.len() + value.len()) % 256) as u8, 0x0au8, (key.len() % 256) as u8] + key
        + seq![0x12u8, (value.len() % 256) as u8] + value
}

/// The set-options payload of key and value texts, in order.
pub open spec fn set_options_payload_spec(options: Seq<(Seq<char>, Seq<char>)>) -> Seq<u8>
    decreases options.len(),
{
    if options.len() == 0 {
        Seq::empty()
    } else {
        set_options_payload_spec(options.drop_last()) + option_entry_spec(
            encode_utf8(options.last().0),
            encode_utf8(options.last().1),
        )
    }
}

/// The key and value texts of options.
pub open spec fn option_views(options: Seq<(String, String)>) -> Seq<(Seq<char>, Seq<char>)> {
    options.map_values(|o: (String, String)| (o.0@, o.1@))
}

/// The set-options payload.
pub fn build_set_options_payload(options: &[(String, String)]) -> (r: Vec<u8>)
    ensures
        r@ == set_options_payload_spec(option_views(options@)),
{
    let n = options.len();
    let mut payload: Vec<u8> = Vec::new();
    let mut i: usize = 0;
    while i < n
        invariant
            n == options@.len(),
            i <= n,
            payload@ == set_options_payload_spec(option_views(options@.subrange(0, i as int))),
        decreases n - i,
    {
        let key = options[i].0.as_str().as_bytes();
        let value = options[i].1.as_str().as_bytes();
        let ghost before = payload@;
        payload.push(0x0a);
        let km = key.len() % 256;
        let vm = value.len() % 256;
        let total = (km + vm + 4) % 256;
        proof {
            vstd::arithmetic::div_mod::lemma_add_mod_noop(key@.len() as int, value@.len() as int, 256);
            vstd::arithmetic::div_mod::lemma_add_mod_noop((key@.len() + value@.len()) as int, 4, 256);
            vstd::arithmetic::div_mod::lemma_add_mod_noop((km + vm) as int, 4, 256);
        }
        assert(total == (4 + key@.len() + value@.len()) % 256);
        payload.push(total as u8);
        payload.push(0x0a);
        payload.push((key.len() % 256) as u8);
        push_all(&mut payload, key);
        payload.push(0x12);
        payload.push((value.len() % 256) as u8);
        push_all(&mut payload, value);
        let ghost next = option_views(options@.subrange(0, i + 1));
        assert(next.drop_last() =~= option_views(options@.subrange(0, i as int)));
        assert(payload@ =~= before + option_entry_spec(key@, value@));
        i = i + 1;
    }
    assert(options@.subrange(0, n as int) =~= options@);
    payload
}

/// The get-options payload: field 1 holding each name, lengths cut to a byte.
pub open spec fn get_options_payload_spec(names: Seq<Seq<char>>) -> Seq<u8>
    decreases names.len(),
{
    if names.len() == 0 {
        Seq::empty()
    } else {
        get_options_payload_spec(names.drop_last()) + seq![
            0x0au8,
            (encode_utf8(names.last()).len() % 256) as u8,
        ] + encode_utf8(names.last())
    }
}

/// The get-options payload.
pub fn build_get_options_payload(names: &[String]) -> (r: Vec<u8>)
    ensures
        r@ == get_options_payload_spec(crate::media::string_views(names@)),
{
    let n = names.len();
    let mut payload: Vec<u8> = Vec::new();
    let mut i: usize = 0;
    while i < n
        invariant
            n == names@.len(),
            i <= n,
            payload@ == get_options_payload_spec(crate::media::string_views(names@.subrange(0, i as int))),
        decreases n - i,
    {
        let bytes = names[i].as_str().as_bytes();
        let ghost before = payload@;
        payload.push(0x0a);
        payload.push((bytes.len() % 256) as u8);
        push_all(&mut payload, bytes);
        let ghost next = crate::media::string_views(names@.subrange(0, i + 1));
        assert(next.drop_last() =~= crate::media::string_views(names@.subrange(0, i as int)));
        assert(payload@ =~= before + seq![0x0au8, (bytes@.len() % 256) as u8] + bytes@);
        i = i + 1;
    }
    assert(names@.subrange(0, n as int) =~= names@);
    payload
}

/// Checks that an answer has the expected type; otherwise the type that came.
pub fn check_response_type(header: Ucd2Header, expected: Ucd2MessageType) -> (r: Result<(), u16>)
    ensures
        header.msg_type == expected.code_spec() ==> r is Ok,
        header.msg_type != expected.code_spec() ==> r == Err::<(), u16>(header.msg_type),
{
    if header.msg_type == expected.code() {
        Ok(())
    } else {
        Err(header.msg_type)
    }
}

/// The message for an answer of an unexpected type.
pub fn unexpected_response_message(msg_type: u16) -> (r: String)
    ensures
        r@ == "Unexpected response type: 0x"@ + hex4(msg_type),
{
    let mut out: Vec<char> = Vec::new();
    push_str(&mut out, "Unexpected response type: 0x");
    let ghost before = out@;
    out.push(crate::text::hex_char(((msg_type / 4096) % 16) as u8));
    out.push(crate::text::hex_char(((msg_type / 256) % 16) as u8));
    out.push(crate::text::hex_char(((msg_type / 16) % 16) as u8));
    out.push(crate::text::hex_char((msg_type % 16) as u8));
    assert(out@ =~= before + hex4(msg_type));
    string_from_chars(out.as_slice())
}

/// The key and value of an option entry text `key=value`, both trimmed.
pub open spec fn option_pair_spec(text: Seq<char>) -> Option<(Seq<char>, Seq<char>)> {
    match first_index_of(text, '=') {
        Some(i) => Some((trim_spec(text.subrange(0, i)), trim_spec(text.subrange(i + 1, text.len() as int)))),
        None => None,
    }
}

/// The options an answer lists from `i` on: each field-1 entry (tag 0x0a, a one-byte length,
/// the text) whose text is UTF-8 and holds `=`; other bytes are skipped one by one; an entry
/// that runs past the end ends the reading.
pub open spec fn options_from(data: Seq<u8>, i: int) -> Seq<(Seq<char>, Seq<char>)>
    decreases data.len() - i,
{
    if i < 0 || i >= data.len() {
        Seq::empty()
    } else if data[i] != 0x0a {
        options_from(data, i + 1)
    } else if i + 1 >= data.len() {
        Seq::empty()
    } else {
        let len = data[i + 1] as int;
        let s = i + 2;
        if s + len > data.len() {
            Seq::empty()
        } else {
            let pair = data.subrange(s, s + len);
            let rest = options_from(data, s + len);
            if valid_utf8(pair) {
                match option_pair_spec(decode_utf8(pair)) {
                    Some(kv) => seq![kv] + rest,
                    None => rest,
                }
            } else {
                rest
            }
        }
    }
}

/// The entry of an option text.
pub open spec fn entry_spec(pair: Seq<u8>) -> Option<(Seq<char>, Seq<char>)> {
    if valid_utf8(pair) {
        option_pair_spec(decode_utf8(pair))
    } else {
        None
    }
}

proof fn lemma_options_step(data: Seq<u8>, i: int)
    requires
        0 <= i,
        i + 2 <= data.len(),
        data[i] == 0x0a,
        i + 2 + data[i + 1] <= data.len(),
    ensures
        options_from(data, i) == match entry_spec(data.subrange(i + 2, i + 2 + data[i + 1])) {
            Some(kv) => seq![kv] + options_from(data, i + 2 + data[i + 1]),
            None => options_from(data, i + 2 + data[i + 1]),
        },
{
}

/// The key and value of an option text `key=value`, both trimmed.
fn option_pair_of(text: &str) -> (r: Option<(String, String)>)
    ensures
        match option_pair_spec(text@) {
            Some(kv) => (r matches Some(p) && p.0@ == kv.0 && p.1@ == kv.1),
            None => r is None,
        },
{
    let chars = chars_of(text);
    match find_char(chars.as_slice(), '=') {
        None => None,
        Some(eq) => {
            let k = slice_chars(chars.as_slice(), 0, eq);
            let v = slice_chars(chars.as_slice(), eq + 1, chars.len());
            let kt = trim_chars(k.as_slice());
            let vt = trim_chars(v.as_slice());
            Some((string_from_chars(kt.as_slice()), string_from_chars(vt.as_slice())))
        },
    }
}

/// The key and value of an option text, if it is UTF-8 and holds `=`.
fn entry_pair(pair: Vec<u8>) -> (r: Option<(String, String)>)
    ensures
        match entry_spec(pair@) {
            Some(kv) => (r matches Some(p) && p.0@ == kv.0 && p.1@ == kv.1),
            None => r is None,
        },
{
    match string_from_utf8(pair) {
        None => None,
        Some(text) => option_pair_of(text.as_str()),
    }
}

/// The options an answer lists, in order; a later entry for the same key takes the earlier
/// one's place when they are put in a map.
pub fn parse_get_options_response(data: &[u8]) -> (r: Vec<(String, String)>)
    ensures
        option_views(r@) == options_from(data@, 0),
{
    let n = data.len();
    let mut out: Vec<(String, String)> = Vec::new();
    let mut i: usize = 0;
    while i < n
        invariant
            n == data@.len(),
            i <= n,
            options_from(data@, 0) == option_views(out@) + options_from(data@, i as int),
        ensures
            options_from(data@, 0) == option_views(out@) + options_from(data@, i as int),
            i >= n || options_from(data@, i as int) == Seq::<(Seq<char>, Seq<char>)>::empty(),
        decreases n - i,
    {
        if data[i] != 0x0a {
            i = i + 1;
            continue;
        }
        if n - i < 2 {
            assert(options_from(data@, i as int) =~= Seq::<(Seq<char>, Seq<char>)>::empty());
            break;
        }
        let len = data[i + 1] as usize;
        let s = i + 2;
        if len > n - s {
            assert(options_from(data@, i as int) =~= Seq::<(Seq<char>, Seq<char>)>::empty());
            break;
        }
        let pair = copy_range(data, s, s + len);
        let ghost before = option_views(out@);
        proof {
            lemma_options_step(data@, i as int);
        }
        match entry_pair(pair) {
            None => {},
            Some(kv) => {
                out.push(kv);
                assert(option_views(out@) =~= before.push((kv.0@, kv.1@)));
            },
        }
        proof {
            let rest = options_from(data@, (s + len) as int);
            assert(before + options_from(data@, i as int) =~= option_views(out@) + rest);
        }
        i = s + len;
    }
    assert(options_from(data@, i as int) =~= Seq::<(Seq<char>, Seq<char>)>::empty());
    assert(option_views(out@) + Seq::<(Seq<char>, Seq<char>)>::empty() =~= option_views(out@));
    out
}

} // verus!
