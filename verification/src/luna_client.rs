//! The length-prefixed text messages of the first Luna client.
use vstd::prelude::*;
use vstd::utf8::*;
use crate::session::hex_pair;
use crate::ucd2::{le32_bytes, push_all, push_le32};

verus! {

/// The bytes of an ASCII text.
pub open spec fn text_bytes(s: Seq<char>) -> Seq<u8> {
    encode_utf8(s)
}

/// A message on the wire: its length (LE32) and its bytes.
pub open spec fn framed_message_spec(payload: Seq<u8>) -> Seq<u8> {
    le32_bytes(payload.len() as u32) + payload
}

/// A message with its length in front.
pub fn frame_message(payload: &[u8]) -> (r: Vec<u8>)
    ensures
        r@ == framed_message_spec(payload@),
{
    let mut out: Vec<u8> = Vec::new();
    push_le32(&mut out, payload.len() as u32);
    push_all(&mut out, payload);
    out
}

/// A message made of a name and more bytes.
fn named_message(name: &str, rest: &[u8]) -> (r: Vec<u8>)
    ensures
        r@ == encode_utf8(name@) + rest@,
{
    let mut out: Vec<u8> = Vec::new();
    push_all(&mut out, name.as_bytes());
    push_all(&mut out, rest);
    out
}

/// The handshake message.
pub fn build_shake_hand_info() -> (r: Vec<u8>)
    ensures
        r@ == encode_utf8("ShakeHandInfo"@),
{
    let r = named_message("ShakeHandInfo", &[]);
    assert(r@ =~= encode_utf8("ShakeHandInfo"@));
    r
}

/// The authorisation check message.
pub fn build_check_authorization() -> (r: Vec<u8>)
    ensures
        r@ == encode_utf8("CheckAuthorization"@),
{
    let r = named_message("CheckAuthorization", &[]);
    assert(r@ =~= encode_utf8("CheckAuthorization"@));
    r
}

/// The message of an action without arguments: `StartCapture`, `StopCapture` or `TakePicture`.
pub fn build_action(action: &str) -> (r: Vec<u8>)
    ensures
        r@ == encode_utf8(action@),
{
    let r = named_message(action, &[]);
    assert(r@ =~= encode_utf8(action@));
    r
}

/// The capture mode message: `SetSyncCaptureMode` followed by the mode.
pub fn build_set_capture_mode(mode: &str) -> (r: Vec<u8>)
    ensures
        r@ == encode_utf8("SetSyncCaptureMode"@) + encode_utf8(mode@),
{
    named_message("SetSyncCaptureMode", mode.as_bytes())
}

/// `key=value` lines of options.
pub open spec fn option_lines_spec(options: Seq<(Seq<char>, Seq<char>)>) -> Seq<u8>
    decreases options.len(),
{
    if options.len() == 0 {
        Seq::empty()
    } else {
        option_lines_spec(options.drop_last()) + encode_utf8(options.last().0) + seq![0x3du8]
            + encode_utf8(options.last().1) + seq![0x0au8]
    }
}

/// The options message: `SetOptions` followed by a `key=value` line per option.
pub fn build_set_options(options: &[(String, String)]) -> (r: Vec<u8>)
    ensures
        r@ == encode_utf8("SetOptions"@) + option_lines_spec(crate::ucd2_client::option_views(options@)),
{
    let mut out: Vec<u8> = Vec::new();
    push_all(&mut out, "SetOptions".as_bytes());
    let ghost head = out@;
    let n = options.len();
    let mut i: usize = 0;
    while i < n
        invariant
            n == options@.len(),
            i <= n,
            out@ == head + option_lines_spec(crate::ucd2_client::option_views(options@.subrange(0, i as int))),
        decreases n - i,
    {
        let ghost before = out@;
        push_all(&mut out, options[i].0.as_str().as_bytes());
        out.push(0x3d);
        push_all(&mut out, options[i].1.as_str().as_bytes());
        out.push(0x0a);
        let ghost next = crate::ucd2_client::option_views(options@.subrange(0, i + 1));
        assert(next.drop_last() =~= crate::ucd2_client::option_views(options@.subrange(0, i as int)));
        assert(out@ =~= head + option_lines_spec(next));
        i = i + 1;
    }
    assert(options@.subrange(0, n as int) =~= options@);
    out
}

/// One name per line.
pub open spec fn name_lines_spec(names: Seq<Seq<char>>) -> Seq<u8>
    decreases names.len(),
{
    if names.len() == 0 {
        Seq::empty()
    } else {
        name_lines_spec(names.drop_last()) + encode_utf8(names.last()) + seq![0x0au8]
    }
}

/// The option query message: `GetOptions` followed by a line per name.
pub fn build_get_options(names: &[String]) -> (r: Vec<u8>)
    ensures
        r@ == encode_utf8("GetOptions"@) + name_lines_spec(crate::media::string_views(names@)),
{
    let mut out: Vec<u8> = Vec::new();
    push_all(&mut out, "GetOptions".as_bytes());
    let ghost head = out@;
    let n = names.len();
    let mut i: usize = 0;
    while i < n
        invariant
            n == names@.len(),
            i <= n,
            out@ == head + name_lines_spec(crate::media::string_views(names@.subrange(0, i as int))),
        decreases n - i,
    {
        let ghost before = out@;
        push_all(&mut out, names[i].as_str().as_bytes());
        out.push(0x0a);
        let ghost next = crate::media::string_views(names@.subrange(0, i + 1));
        assert(next.drop_last() =~= crate::media::string_views(names@.subrange(0, i as int)));
        assert(out@ =~= head + name_lines_spec(next));
        i = i + 1;
    }
    assert(names@.subrange(0, n as int) =~= names@);
    out
}

/// What an answer of the first client holds.
#[derive(Debug, Clone)]
pub enum ClientReply {
    /// An empty answer.
    Empty,
    /// An answer that is UTF-8 text.
    Text(String),
    /// Any other answer: its bytes as hex digits without spaces, and its length.
    Binary { hex: String, length: usize },
}

/// The bytes as two-digit lower-case hex numbers, with nothing between them.
pub open spec fn plain_hex_spec(bytes: Seq<u8>) -> Seq<char>
    decreases bytes.len(),
{
    if bytes.len() == 0 {
        Seq::empty()
    } else {
        plain_hex_spec(bytes.drop_last()) + hex_pair(bytes.last())
    }
}

/// Reads an answer of the first client.
pub fn parse_reply(data: &[u8]) -> (r: ClientReply)
    ensures
        data@.len() == 0 ==> r is Empty,
        data@.len() > 0 && valid_utf8(data@) ==> (r matches ClientReply::Text(s) && s@ == decode_utf8(data@)),
        data@.len() > 0 && !valid_utf8(data@) ==> (r matches ClientReply::Binary { hex, length } && hex@
            == plain_hex_spec(data@) && length == data@.len()),
{
    let n = data.len();
    if n == 0 {
        return ClientReply::Empty;
    }
    let copy = crate::ucd2::copy_range(data, 0, n);
    assert(data@.subrange(0, n as int) =~= data@);
    match crate::text::string_from_utf8(copy) {
        Some(s) => ClientReply::Text(s),
        None => {
            let mut out: Vec<char> = Vec::new();
            let mut i: usize = 0;
            while i < n
                invariant
                    n == data@.len(),
                    i <= n,
                    out@ == plain_hex_spec(data@.subrange(0, i as int)),
                decreases n - i,
            {
                let ghost next = data@.subrange(0, i + 1);
                assert(next.drop_last() =~= data@.subrange(0, i as int));
                out.push(crate::text::hex_char(data[i] / 16));
                out.push(crate::text::hex_char(data[i] % 16));
                i = i + 1;
                assert(out@ =~= plain_hex_spec(next));
            }
            ClientReply::Binary { hex: crate::text::string_from_chars(out.as_slice()), length: n }
        },
    }
}

} // verus!
