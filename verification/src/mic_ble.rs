//! The wireless microphone over Bluetooth: which scanned devices are microphones, which
//! characteristic a write goes to, and the bytes of a payload typed as hex.
use vstd::prelude::*;
use vstd::utf8::*;
use crate::probe::decode_hex_from;
use crate::text::{ascii_lower, chars_eq, chars_of, contains_seq, contains_str, to_ascii_lower};

verus! {

/// A Bluetooth device found by a scan.
#[derive(Debug, Clone)]
pub struct BleDevice {
    pub name: String,
    pub address: String,
}

/// A characteristic of a connected device, with the service it belongs to.
#[derive(Debug, Clone)]
pub struct BleCharacteristic {
    pub service_uuid: String,
    pub uuid: String,
    pub properties: Vec<String>,
}

/// What `str::to_lowercase` gives for a text (full Unicode lower-casing).
pub uninterp spec fn lowercase_spec(s: Seq<char>) -> Seq<char>;

/// The text in lower case, by `str::to_lowercase`.
#[verifier::external_body]
fn lowercase(s: &str) -> (r: String)
    ensures
        r@ == lowercase_spec(s@),
{
    s.to_lowercase()
}

/// Whether an advertised name looks like the microphone: its lower-case form holds `mic`,
/// `trc`, `insta360`, `rx` or `tx`.
pub open spec fn is_mic_name_spec(name: Seq<char>) -> bool {
    let l = lowercase_spec(name);
    contains_seq(l, "mic"@) || contains_seq(l, "trc"@) || contains_seq(l, "insta360"@)
        || contains_seq(l, "rx"@) || contains_seq(l, "tx"@)
}

/// Whether an advertised name looks like the microphone.
pub fn is_mic_name(name: &str) -> (r: bool)
    ensures
        r == is_mic_name_spec(name@),
{
    let lower = lowercase(name);
    let chars = chars_of(lower.as_str());
    contains_str(&chars, "mic") || contains_str(&chars, "trc") || contains_str(&chars, "insta360")
        || contains_str(&chars, "rx") || contains_str(&chars, "tx")
}

/// The name a scan shows for a device: its advertised name, or `(unnamed)`.
pub open spec fn shown_name(local_name: Option<Seq<char>>) -> Seq<char> {
    match local_name {
        Some(n) => n,
        None => "(unnamed)"@,
    }
}

/// The device a scan reports for a peripheral with this advertised name and address: `None`
/// when the name does not look like the microphone.
pub fn mic_device(local_name: Option<String>, address: String) -> (r: Option<BleDevice>)
    ensures
        match local_name {
            Some(n) => is_mic_name_spec(n@) ==> (r matches Some(d) && d.name@ == n@ && d.address@ == address@),
            None => is_mic_name_spec("(unnamed)"@) ==> (r matches Some(d) && d.name@ == "(unnamed)"@ && d.address@ == address@),
        },
        r is Some <==> is_mic_name_spec(shown_name(match local_name { Some(n) => Some(n@), None => None })),
{
    let name = match local_name {
        Some(n) => n,
        None => "(unnamed)".to_string(),
    };
    if is_mic_name(name.as_str()) {
        Some(BleDevice { name, address })
    } else {
        None
    }
}

/// Whether two texts are equal once ASCII letters are lower-cased, as `eq_ignore_ascii_case`.
pub open spec fn eq_ignore_ascii_case_spec(a: Seq<char>, b: Seq<char>) -> bool {
    a.map_values(|c: char| ascii_lower(c)) == b.map_values(|c: char| ascii_lower(c))
}

/// The first of `items` equal to `wanted` but for ASCII case: how a write finds its
/// characteristic by UUID and how a device is found by address.
pub fn find_ignore_ascii_case(items: &[String], wanted: &str) -> (r: Option<usize>)
    ensures
        match r {
            Some(i) => i < items@.len() && eq_ignore_ascii_case_spec(items@[i as int]@, wanted@)
                && forall|k: int| 0 <= k < i ==> !eq_ignore_ascii_case_spec(#[trigger] items@[k]@, wanted@),
            None => forall|k: int| 0 <= k < items@.len() ==> !eq_ignore_ascii_case_spec(#[trigger] items@[k]@, wanted@),
        },
{
    let w = chars_of(wanted);
    let wl = to_ascii_lower(&w);
    let n = items.len();
    let mut i: usize = 0;
    while i < n
        invariant
            n == items@.len(),
            i <= n,
            wl@ == wanted@.map_values(|c: char| ascii_lower(c)),
            forall|k: int| 0 <= k < i ==> !eq_ignore_ascii_case_spec(#[trigger] items@[k]@, wanted@),
        decreases n - i,
    {
        let c = chars_of(items[i].as_str());
        let cl = to_ascii_lower(&c);
        if chars_eq(&cl, &wl) {
            return Some(i);
        }
        i = i + 1;
    }
    None
}

/// Why a microphone payload typed as hex was refused.
#[derive(Debug, Clone, Copy, PartialEq, Eq, Structural)]
pub enum BleHexError {
    /// An odd number of bytes after removing spaces and dashes.
    OddLength,
    /// A pair that is no hex byte.
    InvalidByte,
}

impl BleHexError {
    /// The message shown to the user.
    pub fn message(self) -> (r: &'static str)
        ensures
            match self {
                BleHexError::OddLength => r@ == "hex payload length must be even"@,
                BleHexError::InvalidByte => r@ == "invalid hex payload"@,
            },
    {
        match self {
            BleHexError::OddLength => "hex payload length must be even",
            BleHexError::InvalidByte => "invalid hex payload",
        }
    }
}

/// `s` without spaces and dashes.
pub open spec fn strip_spaces_dashes(s: Seq<char>) -> Seq<char>
    decreases s.len(),
{
    if s.len() == 0 {
        Seq::empty()
    } else {
        let prev = strip_spaces_dashes(s.drop_last());
        if s.last() == ' ' || s.last() == '-' {
            prev
        } else {
            prev.push(s.last())
        }
    }
}

/// What a microphone payload typed as hex gives; `None` when a two-byte window would cut a
/// character in two.
pub open spec fn ble_hex_spec(hex: Seq<char>) -> Option<Result<Seq<u8>, BleHexError>> {
    let b = encode_utf8(strip_spaces_dashes(hex));
    if b.len() % 2 != 0 {
        Some(Err(BleHexError::OddLength))
    } else {
        match decode_hex_from(b, 0) {
            None => None,
            Some(None) => Some(Err(BleHexError::InvalidByte)),
            Some(Some(p)) => Some(Ok(p)),
        }
    }
}

/// The bytes of a microphone payload typed as hex, with spaces and dashes allowed between the
/// digits.
pub fn ble_hex_payload(hex: &str) -> (r: Result<Vec<u8>, BleHexError>)
    requires
        ble_hex_spec(hex@) is Some,
    ensures
        match ble_hex_spec(hex@) {
            Some(Ok(p)) => (r matches Ok(v) && v@ == p),
            Some(Err(e)) => r == Err::<Vec<u8>, BleHexError>(e),
            None => false,
        },
{
    let chars = crate::text::chars_of(hex);
    let n = chars.len();
    let mut clean: Vec<char> = Vec::new();
    let mut i: usize = 0;
    while i < n
        invariant
            n == chars@.len(),
            i <= n,
            clean@ == strip_spaces_dashes(chars@.subrange(0, i as int)),
        decreases n - i,
    {
        let ghost next = chars@.subrange(0, i + 1);
        assert(next.drop_last() =~= chars@.subrange(0, i as int));
        if chars[i] != ' ' && chars[i] != '-' {
            clean.push(chars[i]);
        }
        i = i + 1;
    }
    assert(chars@.subrange(0, n as int) =~= chars@);
    let text = crate::text::string_from_chars(clean.as_slice());
    let bytes = text.as_str().as_bytes();
    assert(bytes@ == encode_utf8(clean@));
    if bytes.len() % 2 != 0 {
        return Err(BleHexError::OddLength);
    }
    match crate::probe::decode_hex_windows(bytes) {
        None => Err(BleHexError::InvalidByte),
        Some(None) => Err(BleHexError::InvalidByte),
        Some(Some(p)) => Ok(p),
    }
}

} // verus!
