//! Decisions of the desktop shell: the media proxy's address encoding and content types, the
//! names downloaded files get, the window surface classes, and the cutting of the preview
//! decoder's output into JPEG pictures.
use vstd::prelude::*;
use vstd::utf8::*;
use crate::media::hex_value;
use crate::probe::hex_window_value;
use crate::luna_client::plain_hex_spec;
use crate::session::hex_pair;
use crate::text::{
    ascii_lower, chars_of, decimal_chars, decimal_spec, ends_with, ends_with_spec, find_char,
    first_index_of, hex_digit_char, last_segment, last_segment_chars,
    lemma_utf8_prefix_len_bounds, push_chars, push_str, slice_chars, string_from_chars,
    string_from_utf8, to_ascii_lower, trim_char, trim_char_spec, trim_chars, trim_spec,
    utf8_error, utf8_error_len_spec, utf8_prefix_len,
};
use crate::ucd2::copy_range;

verus! {

/// Why a proxied media address could not be decoded.
#[derive(Debug, Clone, Copy, PartialEq, Eq, Structural)]
pub enum ProxyUrlError {
    /// The encoding is empty or has an odd number of characters.
    BadLength,
    /// A pair of bytes is not UTF-8 text: how much of the pair is, and the length of the bad
    /// sequence after it (`None` where the pair ends inside a character).
    PairNotText { valid_up_to: usize, error_len: Option<usize> },
    /// A pair is no hex byte.
    InvalidDigit,
    /// The decoded bytes are not UTF-8: how much of them is, and the length of the bad
    /// sequence after it (`None` where they end inside a character).
    NotUtf8 { valid_up_to: usize, error_len: Option<usize> },
}

/// How a UTF-8 decoding error reads.
pub open spec fn utf8_error_message(valid_up_to: usize, error_len: Option<usize>) -> Seq<char> {
    match error_len {
        Some(n) => "invalid utf-8 sequence of "@ + decimal_spec(n as nat) + " bytes from index "@
            + decimal_spec(valid_up_to as nat),
        None => "incomplete utf-8 byte sequence from index "@ + decimal_spec(valid_up_to as nat),
    }
}

impl ProxyUrlError {
    /// The message shown to the user.
    pub open spec fn message_spec(self) -> Seq<char> {
        match self {
            ProxyUrlError::BadLength => "媒体地址编码无效"@,
            ProxyUrlError::PairNotText { valid_up_to, error_len } => utf8_error_message(
                valid_up_to,
                error_len,
            ),
            ProxyUrlError::InvalidDigit => "invalid digit found in string"@,
            ProxyUrlError::NotUtf8 { valid_up_to, error_len } => utf8_error_message(
                valid_up_to,
                error_len,
            ),
        }
    }

    /// The message shown to the user.
    pub fn message(self) -> (r: String)
        ensures
            r@ == self.message_spec(),
    {
        let mut out: Vec<char> = Vec::new();
        match self {
            ProxyUrlError::BadLength => push_str(&mut out, "媒体地址编码无效"),
            ProxyUrlError::InvalidDigit => push_str(&mut out, "invalid digit found in string"),
            ProxyUrlError::PairNotText { valid_up_to, error_len }
            | ProxyUrlError::NotUtf8 { valid_up_to, error_len } => {
                let at = decimal_chars(valid_up_to as u64);
                match error_len {
                    Some(n) => {
                        let len = decimal_chars(n as u64);
                        push_str(&mut out, "invalid utf-8 sequence of ");
                        push_chars(&mut out, len.as_slice());
                        push_str(&mut out, " bytes from index ");
                        push_chars(&mut out, at.as_slice());
                    },
                    None => {
                        push_str(&mut out, "incomplete utf-8 byte sequence from index ");
                        push_chars(&mut out, at.as_slice());
                    },
                }
            },
        }
        assert(out@ =~= self.message_spec());
        string_from_chars(out.as_slice())
    }
}

/// The error for bytes that are not UTF-8, as the decoding reports it.
pub open spec fn pair_error(pair: Seq<u8>) -> ProxyUrlError {
    ProxyUrlError::PairNotText {
        valid_up_to: utf8_prefix_len(pair, pair.len() as int) as usize,
        error_len: utf8_error_len_spec(pair),
    }
}

/// The bytes a hex-encoded media address stands for from pair `k` on, or the first pair's
/// error.
pub open spec fn proxy_pairs_from(b: Seq<u8>, k: int) -> Result<Seq<u8>, ProxyUrlError>
    decreases b.len() - k,
{
    if k < 0 || k + 2 > b.len() {
        Ok(Seq::empty())
    } else if !valid_utf8(b.subrange(k, k + 2)) {
        Err(pair_error(b.subrange(k, k + 2)))
    } else {
        match hex_window_value(b[k], b[k + 1]) {
            None => Err(ProxyUrlError::InvalidDigit),
            Some(v) => match proxy_pairs_from(b, k + 2) {
                Ok(rest) => Ok(seq![v] + rest),
                Err(e) => Err(e),
            },
        }
    }
}

/// The address a hex-encoded media address stands for.
pub open spec fn proxy_url_spec(encoded: Seq<char>) -> Result<Seq<char>, ProxyUrlError> {
    let b = encode_utf8(encoded);
    if b.len() == 0 || b.len() % 2 != 0 {
        Err(ProxyUrlError::BadLength)
    } else {
        match proxy_pairs_from(b, 0) {
            Err(e) => Err(e),
            Ok(bytes) => if valid_utf8(bytes) {
                Ok(decode_utf8(bytes))
            } else {
                Err(
                    ProxyUrlError::NotUtf8 {
                        valid_up_to: utf8_prefix_len(bytes, bytes.len() as int) as usize,
                        error_len: utf8_error_len_spec(bytes),
                    },
                )
            },
        }
    }
}

/// Checks that two bytes form UTF-8 text: two ASCII bytes, or one two-byte character.
fn check_pair(x: u8, y: u8) -> (r: Result<(), ProxyUrlError>)
    ensures
        valid_utf8(seq![x, y]) ==> r is Ok,
        !valid_utf8(seq![x, y]) ==> r == Err::<(), ProxyUrlError>(pair_error(seq![x, y])),
{
    let pair: [u8; 2] = [x, y];
    let ghost s = pair@;
    assert(s =~= seq![x, y]);
    match utf8_error(pair.as_slice()) {
        None => Ok(()),
        Some((valid_up_to, error_len)) => {
            proof {
                lemma_utf8_prefix_len_bounds(s, 2);
            }
            Err(ProxyUrlError::PairNotText { valid_up_to, error_len })
        },
    }
}

/// The value of a hex digit.
fn nibble(b: u8) -> (r: Option<u8>)
    ensures
        r == hex_value(b),
{
    if 0x30 <= b && b <= 0x39 {
        Some(b - 0x30)
    } else if 0x61 <= b && b <= 0x66 {
        Some(b - 0x61 + 10)
    } else if 0x41 <= b && b <= 0x46 {
        Some(b - 0x41 + 10)
    } else {
        None
    }
}

/// Decodes the media address that the local web page passes to the media proxy: the UTF-8
/// bytes of the address, each as two hex digits.
pub fn decode_media_proxy_url(encoded: &str) -> (r: Result<String, ProxyUrlError>)
    ensures
        match proxy_url_spec(encoded@) {
            Ok(u) => (r matches Ok(s) && s@ == u),
            Err(e) => r == Err::<String, ProxyUrlError>(e),
        },
{
    let b = encoded.as_bytes();
    let n = b.len();
    assert(b@ == encode_utf8(encoded@));
    if n == 0 || n % 2 != 0 {
        return Err(ProxyUrlError::BadLength);
    }
    let mut decoded: Vec<u8> = Vec::new();
    let mut k: usize = 0;
    while k < n
        invariant
            n == b@.len(),
            n % 2 == 0,
            k % 2 == 0,
            k <= n,
            b@ == encode_utf8(encoded@),
            proxy_pairs_from(b@, 0) == match proxy_pairs_from(b@, k as int) {
                Ok(rest) => Ok(decoded@ + rest),
                Err(e) => Err(e),
            },
        decreases n - k,
    {
        assert(b@.subrange(k as int, k + 2) =~= seq![b@[k as int], b@[k + 1]]);
        if let Err(e) = check_pair(b[k], b[k + 1]) {
            return Err(e);
        }
        let v = if b[k] == 0x2b {
            nibble(b[k + 1])
        } else {
            match (nibble(b[k]), nibble(b[k + 1])) {
                (Some(h), Some(l)) => Some(h * 16 + l),
                _ => None,
            }
        };
        match v {
            None => return Err(ProxyUrlError::InvalidDigit),
            Some(x) => {
                let ghost before = decoded@;
                decoded.push(x);
                k = k + 2;
                proof {
                    if let Ok(rest) = proxy_pairs_from(b@, k as int) {
                        assert(before + (seq![x] + rest) =~= decoded@ + rest);
                    }
                }
            },
        }
    }
    assert(decoded@ + Seq::<u8>::empty() =~= decoded@);
    if let Some((valid_up_to, error_len)) = utf8_error(decoded.as_slice()) {
        proof {
            lemma_utf8_prefix_len_bounds(decoded@, decoded@.len() as int);
        }
        return Err(ProxyUrlError::NotUtf8 { valid_up_to, error_len });
    }
    Ok(string_from_utf8(decoded).unwrap())
}

/// The byte that writes the lower-case hex digit for `d`.
pub(crate) open spec fn hex_digit_byte(d: nat) -> u8 {
    if d < 10 {
        (d + 48) as u8
    } else {
        (d + 87) as u8
    }
}

/// Encoding two character sequences one after the other gives their encodings one after the
/// other.
proof fn lemma_encode_utf8_append(a: Seq<char>, b: Seq<char>)
    ensures
        encode_utf8(a + b) == encode_utf8(a) + encode_utf8(b),
    decreases a.len(),
{
    if a.len() == 0 {
        assert(a + b =~= b);
        assert(encode_utf8(a) + encode_utf8(b) =~= encode_utf8(b));
    } else {
        assert((a + b).drop_first() =~= a.drop_first() + b);
        assert((a + b)[0] == a[0]);
        lemma_encode_utf8_append(a.drop_first(), b);
        let head = encode_scalar(a[0] as u32);
        assert(encode_utf8(a + b) == head + (encode_utf8(a.drop_first()) + encode_utf8(b)));
        assert(encode_utf8(a) + encode_utf8(b) =~= head + (encode_utf8(a.drop_first())
            + encode_utf8(b)));
    }
}

/// A hex digit takes one byte in UTF-8.
proof fn lemma_encode_hex_digit(d: nat)
    requires
        d < 16,
    ensures
        encode_utf8(seq![hex_digit_char(d)]) == seq![hex_digit_byte(d)],
{
    let c = hex_digit_char(d);
    let x = hex_digit_byte(d);
    let v = c as u32;
    assert(v == x as u32);
    assert(v <= 0x7f);
    assert((v & 0x7f) as u8 == v as u8) by (bit_vector)
        requires
            v <= 0x7f,
    ;
    assert(seq![c].drop_first() =~= Seq::<char>::empty());
    assert(encode_utf8(seq![c]) =~= encode_scalar(v) + encode_utf8(Seq::<char>::empty()));
}

/// The UTF-8 bytes of the lower-case hex digits of `bytes`: two per byte, high digit first.
pub(crate) proof fn lemma_encode_plain_hex(bytes: Seq<u8>)
    ensures
        encode_utf8(plain_hex_spec(bytes)).len() == 2 * bytes.len(),
        forall|i: int|
            #![trigger bytes[i]]
            0 <= i < bytes.len() ==> encode_utf8(plain_hex_spec(bytes))[2 * i] == hex_digit_byte(
                (bytes[i] / 16) as nat,
            ) && encode_utf8(plain_hex_spec(bytes))[2 * i + 1] == hex_digit_byte(
                (bytes[i] % 16) as nat,
            ),
    decreases bytes.len(),
{
    if bytes.len() > 0 {
        let init = bytes.drop_last();
        let b = bytes.last();
        let hi = (b / 16) as nat;
        let lo = (b % 16) as nat;
        lemma_encode_plain_hex(init);
        let pair = hex_pair(b);
        assert(pair =~= seq![hex_digit_char(hi)] + seq![hex_digit_char(lo)]);
        lemma_encode_utf8_append(seq![hex_digit_char(hi)], seq![hex_digit_char(lo)]);
        lemma_encode_hex_digit(hi);
        lemma_encode_hex_digit(lo);
        lemma_encode_utf8_append(plain_hex_spec(init), pair);
        let h0 = encode_utf8(plain_hex_spec(init));
        let h = encode_utf8(plain_hex_spec(bytes));
        assert(h == h0 + (seq![hex_digit_byte(hi)] + seq![hex_digit_byte(lo)]));
        assert forall|i: int| #![trigger bytes[i]] 0 <= i < bytes.len() implies h[2 * i]
            == hex_digit_byte((bytes[i] / 16) as nat) && h[2 * i + 1] == hex_digit_byte(
            (bytes[i] % 16) as nat,
        ) by {
            if i < init.len() {
                assert(init[i] == bytes[i]);
            }
        }
    }
}

/// Reading the pairs of the hex digits of `bytes` from pair `k` on gives the bytes from `k` on.
proof fn lemma_proxy_pairs_of_hex(bytes: Seq<u8>, k: int)
    requires
        0 <= k <= bytes.len(),
    ensures
        proxy_pairs_from(encode_utf8(plain_hex_spec(bytes)), 2 * k) == Ok::<
            Seq<u8>,
            ProxyUrlError,
        >(bytes.subrange(k, bytes.len() as int)),
    decreases bytes.len() - k,
{
    let h = encode_utf8(plain_hex_spec(bytes));
    let n = bytes.len() as int;
    lemma_encode_plain_hex(bytes);
    if k == n {
        assert(bytes.subrange(k, n) =~= Seq::<u8>::empty());
    } else {
        lemma_proxy_pairs_of_hex(bytes, k + 1);
        let b = bytes[k];
        let hi = (b / 16) as nat;
        let lo = (b % 16) as nat;
        let x = hex_digit_byte(hi);
        let y = hex_digit_byte(lo);
        assert(h[2 * k] == x && h[2 * k + 1] == y);
        assert(h.subrange(2 * k, 2 * k + 2) =~= seq![x, y]);
        lemma_encode_hex_digit(hi);
        lemma_encode_hex_digit(lo);
        lemma_encode_utf8_append(seq![hex_digit_char(hi)], seq![hex_digit_char(lo)]);
        assert(seq![x] + seq![y] =~= seq![x, y]);
        encode_utf8_valid_utf8(seq![hex_digit_char(hi)] + seq![hex_digit_char(lo)]);
        assert(hex_value(x) == Some(hi as u8));
        assert(hex_value(y) == Some(lo as u8));
        assert(hex_window_value(x, y) == Some(b));
        assert(seq![b] + bytes.subrange(k + 1, n) =~= bytes.subrange(k, n));
    }
}

/// Decoding the lower-case hex digits of the UTF-8 bytes of a nonempty media address gives
/// the address back.
pub proof fn lemma_proxy_url_roundtrip(address: Seq<char>)
    requires
        address.len() > 0,
    ensures
        proxy_url_spec(plain_hex_spec(encode_utf8(address))) == Ok::<Seq<char>, ProxyUrlError>(
            address,
        ),
{
    let bytes = encode_utf8(address);
    assert(bytes.len() > 0);
    lemma_encode_plain_hex(bytes);
    lemma_proxy_pairs_of_hex(bytes, 0);
    assert(bytes.subrange(0, bytes.len() as int) =~= bytes);
    encode_utf8_valid_utf8(address);
    encode_utf8_decode_utf8(address);
}

/// `url` up to its first `?`.
pub open spec fn without_query(url: Seq<char>) -> Seq<char> {
    match first_index_of(url, '?') {
        Some(i) => url.subrange(0, i),
        None => url,
    }
}

/// `url` up to its first `?`.
fn without_query_chars(url: &[char]) -> (r: Vec<char>)
    ensures
        r@ == without_query(url@),
{
    match find_char(url, '?') {
        Some(i) => slice_chars(url, 0, i),
        None => {
            let r = slice_chars(url, 0, url.len());
            assert(url@.subrange(0, url@.len() as int) =~= url@);
            r
        },
    }
}

/// The content type a browser is told for a media address, by the extension of its path
/// (ignoring case and the query).
pub open spec fn media_content_type_spec(url: Seq<char>) -> Seq<char> {
    let p = without_query(url).map_values(|c: char| ascii_lower(c));
    if ends_with_spec(p, ".jpg"@) || ends_with_spec(p, ".jpeg"@) || ends_with_spec(p, ".insp"@)
        || ends_with_spec(p, ".dng"@) {
        "image/jpeg"@
    } else if ends_with_spec(p, ".png"@) {
        "image/png"@
    } else if ends_with_spec(p, ".webp"@) {
        "image/webp"@
    } else if ends_with_spec(p, ".mov"@) {
        "video/quicktime"@
    } else if ends_with_spec(p, ".mp4"@) || ends_with_spec(p, ".lrv"@) || ends_with_spec(p, ".insv"@) {
        "video/mp4"@
    } else {
        "application/octet-stream"@
    }
}

/// The part before `?` of a path with no `?`, followed by nothing or by a query that starts
/// with `?`, is the path.
proof fn lemma_without_query_of(path: Seq<char>, query: Seq<char>)
    requires
        forall|i: int| 0 <= i < path.len() ==> #[trigger] path[i] != '?',
        query.len() == 0 || query[0] == '?',
    ensures
        without_query(path + query) == path,
{
    let u = path + query;
    if query.len() == 0 {
        assert(u =~= path);
        assert(!crate::text::contains_char_spec(u, '?'));
    } else {
        assert(u[path.len() as int] == '?');
        assert(crate::text::contains_char_spec(u, '?'));
        let i = first_index_of(u, '?')->0;
        assert(u[i] == '?');
        assert(i >= path.len()) by {
            if i < path.len() {
                assert(u[i] == path[i]);
            }
        }
        assert(i <= path.len()) by {
            if i > path.len() {
                assert(u[path.len() as int] != '?');
            }
        }
        assert(u.subrange(0, i) =~= path);
    }
}

/// A text ends with one of its own endings; and when it ends with another text of at least
/// three characters, their last three characters agree.
proof fn lemma_ends_with_tail(a: Seq<char>, x: Seq<char>, l: Seq<char>)
    requires
        x.len() >= 3,
        l.len() >= 3,
    ensures
        l == x ==> ends_with_spec(a + x, l),
        ends_with_spec(a + x, l) ==> l[l.len() - 1] == x[x.len() - 1] && l[l.len() - 2] == x[x.len()
            - 2] && l[l.len() - 3] == x[x.len() - 3],
{
    let u = a + x;
    if l == x {
        assert(u.subrange(u.len() - l.len(), u.len() as int) =~= x);
    }
    if ends_with_spec(u, l) {
        let t = u.subrange(u.len() - l.len(), u.len() as int);
        assert(t[l.len() - 1] == u[u.len() - 1]);
        assert(t[l.len() - 2] == u[u.len() - 2]);
        assert(t[l.len() - 3] == u[u.len() - 3]);
    }
}

/// The content type of a media address follows the extension that ends its path, whatever
/// its letter case and whatever query follows: pictures (`.jpg`, `.jpeg`, `.insp`, `.dng`)
/// are JPEG, `.png` PNG, `.webp` WebP, `.mov` QuickTime, and `.mp4`, `.lrv`, `.insv` MP4.
pub proof fn lemma_media_content_type_by_extension(stem: Seq<char>, ext: Seq<char>, query: Seq<char>)
    requires
        forall|i: int| 0 <= i < stem.len() ==> #[trigger] stem[i] != '?',
        forall|i: int| 0 <= i < ext.len() ==> #[trigger] ext[i] != '?',
        query.len() == 0 || query[0] == '?',
    ensures
        ({
            let x = ext.map_values(|c: char| ascii_lower(c));
            let t = media_content_type_spec(stem + ext + query);
            &&& (x == ".jpg"@ || x == ".jpeg"@ || x == ".insp"@ || x == ".dng"@) ==> t == "image/jpeg"@
            &&& x == ".png"@ ==> t == "image/png"@
            &&& x == ".webp"@ ==> t == "image/webp"@
            &&& x == ".mov"@ ==> t == "video/quicktime"@
            &&& (x == ".mp4"@ || x == ".lrv"@ || x == ".insv"@) ==> t == "video/mp4"@
        }),
{
    reveal_strlit(".jpg");
    reveal_strlit(".jpeg");
    reveal_strlit(".insp");
    reveal_strlit(".dng");
    reveal_strlit(".png");
    reveal_strlit(".webp");
    reveal_strlit(".mov");
    reveal_strlit(".mp4");
    reveal_strlit(".lrv");
    reveal_strlit(".insv");
    let path = stem + ext;
    assert forall|i: int| 0 <= i < path.len() implies #[trigger] path[i] != '?' by {
        if i < stem.len() {
            assert(path[i] == stem[i]);
        } else {
            assert(path[i] == ext[i - stem.len()]);
        }
    }
    lemma_without_query_of(path, query);
    let a = stem.map_values(|c: char| ascii_lower(c));
    let x = ext.map_values(|c: char| ascii_lower(c));
    assert(path.map_values(|c: char| ascii_lower(c)) =~= a + x);
    if x.len() >= 4 {
        lemma_ends_with_tail(a, x, ".jpg"@);
        lemma_ends_with_tail(a, x, ".jpeg"@);
        lemma_ends_with_tail(a, x, ".insp"@);
        lemma_ends_with_tail(a, x, ".dng"@);
        lemma_ends_with_tail(a, x, ".png"@);
        lemma_ends_with_tail(a, x, ".webp"@);
        lemma_ends_with_tail(a, x, ".mov"@);
        lemma_ends_with_tail(a, x, ".mp4"@);
        lemma_ends_with_tail(a, x, ".lrv"@);
        lemma_ends_with_tail(a, x, ".insv"@);
    }
}

/// The content type a browser is told for a media address.
pub fn media_content_type(url: &str) -> (r: &'static str)
    ensures
        r@ == media_content_type_spec(url@),
{
    let chars = chars_of(url);
    let path = without_query_chars(chars.as_slice());
    let p = to_ascii_lower(path.as_slice());
    let s = p.as_slice();
    if ends_with(s, ".jpg") || ends_with(s, ".jpeg") || ends_with(s, ".insp") || ends_with(s, ".dng") {
        "image/jpeg"
    } else if ends_with(s, ".png") {
        "image/png"
    } else if ends_with(s, ".webp") {
        "image/webp"
    } else if ends_with(s, ".mov") {
        "video/quicktime"
    } else if ends_with(s, ".mp4") || ends_with(s, ".lrv") || ends_with(s, ".insv") {
        "video/mp4"
    } else {
        "application/octet-stream"
    }
}

/// Characters that cannot stand in a file name: `< > : " / \ | ? *` and the control
/// characters below 0x20.
pub open spec fn is_unsafe_name_char(c: char) -> bool {
    c == '<' || c == '>' || c == ':' || c == '"' || c == '/' || c == '\\' || c == '|' || c == '?'
        || c == '*' || (c as u32) <= 0x1f
}

/// A file name made of `value`: unsafe characters replaced by `_`, white space trimmed, then
/// leading and trailing dots; `fallback` when nothing is left.
pub open spec fn safe_component_spec(value: Seq<char>, fallback: Seq<char>) -> Seq<char> {
    let mapped = value.map_values(|c: char| if is_unsafe_name_char(c) {
        '_'
    } else {
        c
    });
    let cleaned = trim_char_spec(trim_spec(mapped), '.');
    if cleaned.len() == 0 {
        fallback
    } else {
        cleaned
    }
}

/// A file name made of `value`, or `fallback`.
pub fn safe_path_component(value: &str, fallback: &str) -> (r: String)
    ensures
        r@ == safe_component_spec(value@, fallback@),
{
    let chars = chars_of(value);
    let n = chars.len();
    let mut mapped: Vec<char> = Vec::new();
    let mut i: usize = 0;
    while i < n
        invariant
            n == chars@.len(),
            i <= n,
            mapped@ == chars@.subrange(0, i as int).map_values(|c: char| if is_unsafe_name_char(c) {
                '_'
            } else {
                c
            }),
        decreases n - i,
    {
        let c = chars[i];
        let unsafe_char = c == '<' || c == '>' || c == ':' || c == '"' || c == '/' || c == '\\'
            || c == '|' || c == '?' || c == '*' || (c as u32) <= 0x1f;
        mapped.push(if unsafe_char {
            '_'
        } else {
            c
        });
        i = i + 1;
        assert(mapped@ =~= chars@.subrange(0, i as int).map_values(|c: char| if is_unsafe_name_char(c) {
            '_'
        } else {
            c
        }));
    }
    assert(chars@.subrange(0, n as int) =~= chars@);
    let trimmed = trim_chars(mapped.as_slice());
    let cleaned = trim_char(trimmed.as_slice(), '.');
    if cleaned.len() == 0 {
        fallback.to_owned()
    } else {
        string_from_chars(cleaned.as_slice())
    }
}

/// The name a downloaded file gets: the last segment of the address's path, made safe, or
/// `camera_file`.
pub open spec fn download_filename_spec(url: Seq<char>) -> Seq<char> {
    let raw = last_segment(without_query(url), '/');
    safe_component_spec(if raw.len() == 0 { "camera_file"@ } else { raw }, "camera_file"@)
}

/// The name a downloaded file gets.
pub fn download_filename(url: &str) -> (r: String)
    ensures
        r@ == download_filename_spec(url@),
{
    let chars = chars_of(url);
    let path = without_query_chars(chars.as_slice());
    let raw = last_segment_chars(path.as_slice(), '/');
    if raw.len() == 0 {
        safe_path_component("camera_file", "camera_file")
    } else {
        let raw_text = string_from_chars(raw.as_slice());
        safe_path_component(raw_text.as_str(), "camera_file")
    }
}

/// The folder downloads go to: the given one trimmed, or `downloads` when none or blank.
pub fn download_root(value: Option<&str>) -> (r: String)
    ensures
        match value {
            Some(v) => if trim_spec(v@).len() > 0 {
                r@ == trim_spec(v@)
            } else {
                r@ == "downloads"@
            },
            None => r@ == "downloads"@,
        },
{
    match value {
        Some(v) => {
            let chars = chars_of(v);
            let t = trim_chars(chars.as_slice());
            if t.len() > 0 {
                string_from_chars(t.as_slice())
            } else {
                "downloads".to_owned()
            }
        },
        None => "downloads".to_owned(),
    }
}

/// The storage the media list shows when none is asked for.
pub fn default_media_storage() -> (r: String)
    ensures
        r@ == "all"@,
{
    "all".to_owned()
}

/// The class of the window surface: liquid glass first, then mica, else none.
pub fn native_surface_class(liquid_glass_enabled: bool, mica_enabled: bool) -> (r: &'static str)
    ensures
        liquid_glass_enabled ==> r@ == "native-liquid-glass"@,
        !liquid_glass_enabled && mica_enabled ==> r@ == "native-mica"@,
        !liquid_glass_enabled && !mica_enabled ==> r@ == "no-native-surface"@,
{
    if liquid_glass_enabled {
        "native-liquid-glass"
    } else if mica_enabled {
        "native-mica"
    } else {
        "no-native-surface"
    }
}

/// The script that puts the surface and platform classes on the page.
pub fn native_surface_class_script(liquid_glass_enabled: bool, mica_enabled: bool, macos: bool) -> (r: String)
    ensures
        r@ == "document.documentElement.classList.remove('native-liquid-glass','native-mica','no-native-surface','macos-host','windows-host');document.documentElement.classList.add('"@
            + (if liquid_glass_enabled {
            "native-liquid-glass"@
        } else if mica_enabled {
            "native-mica"@
        } else {
            "no-native-surface"@
        }) + "','"@ + (if macos {
            "macos-host"@
        } else {
            "windows-host"@
        }) + "');"@,
{
    let mut out: Vec<char> = Vec::new();
    push_str(
        &mut out,
        "document.documentElement.classList.remove('native-liquid-glass','native-mica','no-native-surface','macos-host','windows-host');document.documentElement.classList.add('",
    );
    push_str(&mut out, native_surface_class(liquid_glass_enabled, mica_enabled));
    push_str(&mut out, "','");
    push_str(&mut out, if macos {
        "macos-host"
    } else {
        "windows-host"
    });
    push_str(&mut out, "');");
    string_from_chars(out.as_slice())
}

/// The reason phrase of the local server's status codes.
pub fn local_status_reason(status: u16) -> (r: &'static str)
    ensures
        status == 200 ==> r@ == "OK"@,
        status == 204 ==> r@ == "No Content"@,
        status == 206 ==> r@ == "Partial Content"@,
        status == 400 ==> r@ == "Bad Request"@,
        status == 404 ==> r@ == "Not Found"@,
        status == 405 ==> r@ == "Method Not Allowed"@,
        status == 416 ==> r@ == "Range Not Satisfiable"@,
        status == 500 ==> r@ == "Internal Server Error"@,
        status == 502 ==> r@ == "Bad Gateway"@,
        !(status == 200 || status == 204 || status == 206 || status == 400 || status == 404 || status
            == 405 || status == 416 || status == 500 || status == 502) ==> r@ == "Response"@,
{
    if status == 200 {
        "OK"
    } else if status == 204 {
        "No Content"
    } else if status == 206 {
        "Partial Content"
    } else if status == 400 {
        "Bad Request"
    } else if status == 404 {
        "Not Found"
    } else if status == 405 {
        "Method Not Allowed"
    } else if status == 416 {
        "Range Not Satisfiable"
    } else if status == 500 {
        "Internal Server Error"
    } else if status == 502 {
        "Bad Gateway"
    } else {
        "Response"
    }
}

/// Whether `needle` occurs in `h` at `i`.
pub open spec fn occurs_at(h: Seq<u8>, needle: Seq<u8>, i: int) -> bool {
    0 <= i && i + needle.len() <= h.len() && h.subrange(i, i + needle.len()) == needle
}

/// The first index at or after `start` where `needle` occurs in `h`.
pub open spec fn find_bytes_spec(h: Seq<u8>, needle: Seq<u8>, start: int) -> Option<int> {
    if start > h.len() || !(exists|i: int| start <= i && #[trigger] occurs_at(h, needle, i)) {
        None
    } else {
        Some(choose|i: int| start <= i && occurs_at(h, needle, i) && forall|k: int| start <= k < i ==> !#[trigger] occurs_at(h, needle, k))
    }
}

/// The first index at or after `start` where `needle` occurs in `haystack`; the needle is not
/// empty unless `start` lies past the end.
pub fn find_bytes(haystack: &[u8], needle: &[u8], start: usize) -> (r: Option<usize>)
    requires
        needle@.len() > 0 || start > haystack@.len(),
    ensures
        match r {
            Some(i) => start <= i && occurs_at(haystack@, needle@, i as int) && forall|k: int| start <= k < i ==> !#[trigger] occurs_at(haystack@, needle@, k),
            None => start > haystack@.len() || forall|k: int| start <= k ==> !#[trigger] occurs_at(haystack@, needle@, k),
        },
{
    let n = haystack.len();
    if start > n {
        return None;
    }
    let m = needle.len();
    if m > n - start {
        assert forall|k: int| start <= k implies !#[trigger] occurs_at(haystack@, needle@, k) by {}
        return None;
    }
    let mut i = start;
    while i <= n - m
        invariant
            n == haystack@.len(),
            m == needle@.len(),
            m >= 1,
            m <= n,
            start <= i <= n - m + 1,
            forall|k: int| start <= k < i ==> !#[trigger] occurs_at(haystack@, needle@, k),
        decreases n - m + 1 - i,
    {
        let mut j: usize = 0;
        let mut same = true;
        while j < m
            invariant
                n == haystack@.len(),
                m == needle@.len(),
                i + m <= n,
                j <= m,
                same == forall|q: int| 0 <= q < j ==> haystack@[i + q] == needle@[q],
            decreases m - j,
        {
            if haystack[i + j] != needle[j] {
                same = false;
            }
            j = j + 1;
        }
        if same {
            assert(haystack@.subrange(i as int, i + m) =~= needle@);
            return Some(i);
        }
        proof {
            if occurs_at(haystack@, needle@, i as int) {
                let q = choose|q: int| 0 <= q < m && haystack@[i + q] != needle@[q];
                assert(haystack@.subrange(i as int, i + m)[q] == haystack@[i + q]);
            }
        }
        i = i + 1;
    }
    assert forall|k: int| start <= k implies !#[trigger] occurs_at(haystack@, needle@, k) by {
        if k < i {
        }
    }
    None
}

/// The first index at or after `i` where the two bytes `x y` occur in `h`.
pub open spec fn find_pair_from(h: Seq<u8>, x: u8, y: u8, i: int) -> Option<int>
    decreases h.len() - i,
{
    if i < 0 || i + 2 > h.len() {
        None
    } else if h[i] == x && h[i + 1] == y {
        Some(i)
    } else {
        find_pair_from(h, x, y, i + 1)
    }
}

/// The pair found lies at or after `i` and inside `h`.
pub proof fn lemma_find_pair_bounds(h: Seq<u8>, x: u8, y: u8, i: int)
    requires
        0 <= i,
    ensures
        find_pair_from(h, x, y, i) matches Some(p) ==> (i <= p && p + 2 <= h.len() && h[p] == x && h[p + 1] == y),
    decreases h.len() - i,
{
    if i + 2 <= h.len() && !(h[i] == x && h[i + 1] == y) {
        lemma_find_pair_bounds(h, x, y, i + 1);
    }
}

/// The JPEG pictures that can be cut from the front of the decoder's output, and what stays:
/// bytes before a start marker `FF D8` are dropped; a picture ends with the first end marker
/// `FF D9` after its start marker; a picture without its end stays.
pub open spec fn jpeg_split(buf: Seq<u8>) -> (Seq<Seq<u8>>, Seq<u8>)
    decreases buf.len(),
{
    match find_pair_from(buf, 0xff, 0xd8, 0) {
        None => (Seq::empty(), buf),
        Some(s) => {
            proof {
                lemma_find_pair_bounds(buf, 0xff, 0xd8, 0);
            }
            let b = buf.subrange(s, buf.len() as int);
            match find_pair_from(b, 0xff, 0xd9, 2) {
                None => (Seq::empty(), b),
                Some(e) => {
                    proof {
                        lemma_find_pair_bounds(b, 0xff, 0xd9, 2);
                    }
                    let (pictures, rest) = jpeg_split(b.subrange(e + 2, b.len() as int));
                    (seq![b.subrange(0, e + 2)] + pictures, rest)
                },
            }
        },
    }
}

/// The largest amount of undecided output kept between reads (8 MiB); beyond it the output is
/// dropped.
pub open spec fn max_pending_jpeg() -> int {
    0x80_0000
}

/// The first index at or after `i` where the pair `x y` occurs.
fn find_pair(h: &[u8], x: u8, y: u8, i: usize) -> (r: Option<usize>)
    requires
        i <= h@.len(),
    ensures
        match find_pair_from(h@, x, y, i as int) {
            Some(p) => r == Some(p as usize),
            None => r is None,
        },
{
    let n = h.len();
    let mut k = i;
    while k < n && n - k >= 2
        invariant
            n == h@.len(),
            i <= k <= n,
            find_pair_from(h@, x, y, i as int) == find_pair_from(h@, x, y, k as int),
        decreases n - k,
    {
        if h[k] == x && h[k + 1] == y {
            return Some(k);
        }
        k = k + 1;
    }
    None
}

/// Cuts the complete JPEG pictures out of the front of the decoder's output, in order; what
/// stays is kept for the next read unless it exceeds 8 MiB, in which case it is dropped.
pub fn take_jpeg_frames(buffer: &mut Vec<u8>) -> (pictures: Vec<Vec<u8>>)
    ensures
        crate::ucd2::views(pictures@) == jpeg_split(old(buffer)@).0,
        jpeg_split(old(buffer)@).1.len() <= max_pending_jpeg() ==> final(buffer)@ == jpeg_split(old(buffer)@).1,
        jpeg_split(old(buffer)@).1.len() > max_pending_jpeg() ==> final(buffer)@.len() == 0,
{
    let ghost original = buffer@;
    let n = buffer.len();
    let mut pictures: Vec<Vec<u8>> = Vec::new();
    let mut pos: usize = 0;
    let mut keep_from: usize;
    assert(original.subrange(0, n as int) =~= original);
    assert(crate::ucd2::views(pictures@) + jpeg_split(original).0 =~= jpeg_split(original).0);
    loop
        invariant
            n == buffer@.len(),
            buffer@ == original,
            pos <= n,
            jpeg_split(original) == (
                crate::ucd2::views(pictures@) + jpeg_split(original.subrange(pos as int, n as int)).0,
                jpeg_split(original.subrange(pos as int, n as int)).1,
            ),
        ensures
            keep_from <= n,
            jpeg_split(original) == (crate::ucd2::views(pictures@), original.subrange(keep_from as int, n as int)),
        decreases n - pos,
    {
        let ghost rest = original.subrange(pos as int, n as int);
        proof {
            lemma_find_pair_bounds(rest, 0xff, 0xd8, 0);
        }
        match find_pair(buffer.as_slice(), 0xff, 0xd8, pos) {
            None => {
                proof {
                    lemma_find_pair_shift(original, 0xff, 0xd8, pos as int, 0);
                }
                keep_from = pos;
                assert(crate::ucd2::views(pictures@) + Seq::<Seq<u8>>::empty() =~= crate::ucd2::views(pictures@));
                break;
            },
            Some(s) => {
                proof {
                    lemma_find_pair_shift(original, 0xff, 0xd8, pos as int, 0);
                }
                let ghost b = original.subrange(s as int, n as int);
                assert(b =~= rest.subrange(s - pos, rest.len() as int));
                proof {
                    lemma_find_pair_shift(original, 0xff, 0xd9, s as int, 2);
                    lemma_find_pair_bounds(b, 0xff, 0xd9, 2);
                }
                let end = if n - s >= 2 {
                    find_pair(buffer.as_slice(), 0xff, 0xd9, s + 2)
                } else {
                    None
                };
                match end {
                    None => {
                        keep_from = s;
                        assert(crate::ucd2::views(pictures@) + Seq::<Seq<u8>>::empty() =~= crate::ucd2::views(pictures@));
                        break;
                    },
                    Some(e_abs) => {
                        let total = e_abs + 2;
                        let picture = copy_range(buffer.as_slice(), s, total);
                        assert(picture@ =~= b.subrange(0, total - s));
                        assert(b.subrange(total - s, b.len() as int) =~= original.subrange(total as int, n as int));
                        let ghost before = pictures@;
                        pictures.push(picture);
                        assert(crate::ucd2::views(pictures@) =~= crate::ucd2::views(before) + seq![picture@]);
                        pos = total;
                        assert(crate::ucd2::views(pictures@) + jpeg_split(original.subrange(pos as int, n as int)).0
                            =~= crate::ucd2::views(before) + (seq![b.subrange(0, total - s)] + jpeg_split(
                            original.subrange(pos as int, n as int),
                        ).0));
                    },
                }
            },
        }
    }
    if n - keep_from > 0x80_0000 {
        *buffer = Vec::new();
    } else {
        let kept = copy_range(buffer.as_slice(), keep_from, n);
        *buffer = kept;
    }
    pictures
}

/// Finding a pair in a suffix of `h` is finding it in `h` from the suffix's start.
proof fn lemma_find_pair_shift(h: Seq<u8>, x: u8, y: u8, from: int, k: int)
    requires
        0 <= from <= h.len(),
        0 <= k,
    ensures
        find_pair_from(h.subrange(from, h.len() as int), x, y, k) == match find_pair_from(h, x, y, from + k) {
            Some(p) => Some(p - from),
            None => None,
        },
    decreases h.len() - from - k,
{
    let t = h.subrange(from, h.len() as int);
    if k + 2 <= t.len() {
        assert(t[k] == h[from + k] && t[k + 1] == h[from + k + 1]);
        if !(t[k] == x && t[k + 1] == y) {
            lemma_find_pair_shift(h, x, y, from, k + 1);
        }
    }
}

} // verus!
