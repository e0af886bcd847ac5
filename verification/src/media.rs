//! The camera's media library: storages, the paged file-list requests and their responses, the
//! media items built from camera paths, and the validation of media URLs.
use vstd::prelude::*;
use vstd::utf8::*;
use crate::protobuf::{decode_varint_at, decode_varint_spec, encode_varint, varint_bytes};
use crate::text::{
    all_ascii_digits, ascii_lower, ascii_upper, chars_all_ascii_digits, chars_equal_str, chars_of,
    ends_with, ends_with_spec, last_segment, last_segment_chars, push_chars, push_str,
    contains_char, contains_char_spec, contains_seq, contains_str, find_char, first_index_of,
    slice_chars, split_piece,
    split_piece_chars, starts_with, starts_with_spec, str_eq, string_from_chars, replace_chars,
    replace_spec,
    string_from_utf8, to_ascii_lower, to_ascii_upper,
};
use crate::url::{parse_url_parts, url_parts_spec, url_with_path, url_with_path_spec};

verus! {

/// Errors of the media logic.
#[derive(Debug, Clone, Copy, PartialEq, Eq, Structural)]
pub enum MediaError {
    /// The storage name is none of `all`, `storage_internal`, `internal`, `sdcard`, `sd`.
    UnknownStorage,
    /// A field tag of a file-list response is truncated.
    FieldTruncated,
    /// A varint field of a file-list response is truncated.
    VarintTruncated,
    /// A fixed-size field of a file-list response runs past its end.
    FixedOutOfRange,
    /// A string length of a file-list response is truncated.
    LengthTruncated,
    /// A string of a file-list response runs past its end.
    StringOutOfRange,
    /// A file path in a file-list response is not UTF-8.
    PathNotUtf8,
    /// A file-list response uses a wire type other than 0, 1, 2 or 5.
    UnsupportedField,
    /// The camera address does not form a URL.
    InvalidHost,
    /// The media URL holds an encoded `.`, `/` or `\`.
    EncodedSeparator,
    /// The media URL does not parse.
    InvalidMediaUrl,
    /// The media URL is neither http nor https.
    NotHttp,
    /// The media URL points at another host or port.
    ForeignHost,
    /// The media path holds a malformed percent escape.
    InvalidPercentEncoding,
    /// The decoded media path is not UTF-8.
    MediaPathNotUtf8,
    /// The media path lies outside the camera's DCIM folders.
    OutsideMediaRoot,
    /// No media was given.
    NothingToDelete,
}

impl MediaError {
    /// The message shown to the user (for an unknown storage the caller adds its name).
    pub fn message(self) -> (r: &'static str)
        ensures
            match self {
                MediaError::UnknownStorage => r@ == "未知存储位置："@,
                MediaError::FieldTruncated => r@ == "相册列表字段不完整"@,
                MediaError::VarintTruncated => r@ == "相册列表数值字段不完整"@,
                MediaError::FixedOutOfRange => r@ == "相册列表固定字段越界"@,
                MediaError::LengthTruncated => r@ == "相册列表字符串长度不完整"@,
                MediaError::StringOutOfRange => r@ == "相册列表字符串越界"@,
                MediaError::PathNotUtf8 => r@ == "相册文件路径不是 UTF-8"@,
                MediaError::UnsupportedField => r@ == "相册列表包含不支持的 protobuf 字段"@,
                MediaError::InvalidHost => r@ == "相机地址无效，请检查连接设置"@,
                MediaError::EncodedSeparator => r@ == "素材路径包含不允许的编码路径段"@,
                MediaError::InvalidMediaUrl => r@ == "素材地址无效，请刷新相册后重试"@,
                MediaError::NotHttp => r@ == "素材地址不是相机可访问地址"@,
                MediaError::ForeignHost => r@ == "素材不属于当前连接的相机"@,
                MediaError::InvalidPercentEncoding => r@ == "素材路径包含无效的百分号编码"@,
                MediaError::MediaPathNotUtf8 => r@ == "素材路径不是有效 UTF-8"@,
                MediaError::OutsideMediaRoot => r@ == "素材路径不在相机媒体目录中"@,
                MediaError::NothingToDelete => r@ == "没有可删除的相机素材"@,
            },
    {
        match self {
            MediaError::UnknownStorage => "未知存储位置：",
            MediaError::FieldTruncated => "相册列表字段不完整",
            MediaError::VarintTruncated => "相册列表数值字段不完整",
            MediaError::FixedOutOfRange => "相册列表固定字段越界",
            MediaError::LengthTruncated => "相册列表字符串长度不完整",
            MediaError::StringOutOfRange => "相册列表字符串越界",
            MediaError::PathNotUtf8 => "相册文件路径不是 UTF-8",
            MediaError::UnsupportedField => "相册列表包含不支持的 protobuf 字段",
            MediaError::InvalidHost => "相机地址无效，请检查连接设置",
            MediaError::EncodedSeparator => "素材路径包含不允许的编码路径段",
            MediaError::InvalidMediaUrl => "素材地址无效，请刷新相册后重试",
            MediaError::NotHttp => "素材地址不是相机可访问地址",
            MediaError::ForeignHost => "素材不属于当前连接的相机",
            MediaError::InvalidPercentEncoding => "素材路径包含无效的百分号编码",
            MediaError::MediaPathNotUtf8 => "素材路径不是有效 UTF-8",
            MediaError::OutsideMediaRoot => "素材路径不在相机媒体目录中",
            MediaError::NothingToDelete => "没有可删除的相机素材",
        }
    }
}

/// A storage of the camera: its id, its label, and the selector the file-list request uses.
#[derive(Debug, Clone, Copy)]
pub struct MediaStorage {
    pub id: &'static str,
    pub label: &'static str,
    pub selector: u8,
}

/// The internal storage.
pub fn internal_storage() -> (r: MediaStorage)
    ensures
        r.id@ == "storage_internal"@,
        r.label@ == "内部存储"@,
        r.selector == 2,
{
    MediaStorage { id: "storage_internal", label: "内部存储", selector: 2 }
}

/// The SD card.
pub fn sdcard_storage() -> (r: MediaStorage)
    ensures
        r.id@ == "sdcard"@,
        r.label@ == "SD 卡"@,
        r.selector == 3,
{
    MediaStorage { id: "sdcard", label: "SD 卡", selector: 3 }
}

/// The selectors of the storages that a storage name asks for: `all` both, `storage_internal`
/// or `internal` the internal storage, `sdcard` or `sd` the SD card.
pub open spec fn storage_selectors_spec(name: Seq<char>) -> Option<Seq<u8>> {
    if name == "all"@ {
        Some(seq![2u8, 3u8])
    } else if name == "storage_internal"@ || name == "internal"@ {
        Some(seq![2u8])
    } else if name == "sdcard"@ || name == "sd"@ {
        Some(seq![3u8])
    } else {
        None
    }
}

/// Whether `s` is the internal storage (selector 2) or the SD card (selector 3).
pub open spec fn is_known_storage(s: MediaStorage) -> bool {
    (s.selector == 2 && s.id@ == "storage_internal"@ && s.label@ == "内部存储"@) || (s.selector == 3
        && s.id@ == "sdcard"@ && s.label@ == "SD 卡"@)
}

/// The storages a storage name asks for, in the order they are listed.
pub fn storages_for(storage_id: &str) -> (r: Result<Vec<MediaStorage>, MediaError>)
    ensures
        storage_selectors_spec(storage_id@) is None ==> r == Err::<Vec<MediaStorage>, MediaError>(
            MediaError::UnknownStorage,
        ),
        storage_selectors_spec(storage_id@) matches Some(sel) ==> (r matches Ok(v) && v@.len()
            == sel.len() && forall|i: int| 0 <= i < v@.len() ==> #[trigger] v@[i].selector == sel[i]
            && is_known_storage(v@[i])),
{
    if str_eq(storage_id, "all") {
        let mut v: Vec<MediaStorage> = Vec::new();
        v.push(internal_storage());
        v.push(sdcard_storage());
        Ok(v)
    } else if str_eq(storage_id, "storage_internal") || str_eq(storage_id, "internal") {
        let mut v: Vec<MediaStorage> = Vec::new();
        v.push(internal_storage());
        Ok(v)
    } else if str_eq(storage_id, "sdcard") || str_eq(storage_id, "sd") {
        let mut v: Vec<MediaStorage> = Vec::new();
        v.push(sdcard_storage());
        Ok(v)
    } else {
        Err(MediaError::UnknownStorage)
    }
}

/// Number of items the camera returns per file-list page.
pub const CAMERA_FILE_LIST_PAGE_SIZE: u32 = 100;

/// Largest number of pages read per category and storage.
pub const CAMERA_FILE_LIST_MAX_PAGES: u32 = 100;

/// The body of a file-list request: category (field 1), the offset (field 2, left out when it
/// is zero), the page size 100 (field 3) and the storage selector (field 4).
pub open spec fn file_list_body_spec(category: u8, storage_selector: u8, offset: u32) -> Seq<u8> {
    seq![0x08u8] + varint_bytes(category as nat) + (if offset > 0 {
        seq![0x10u8] + varint_bytes(offset as nat)
    } else {
        Seq::empty()
    }) + seq![0x18u8] + varint_bytes(100) + seq![0x20u8] + varint_bytes(storage_selector as nat)
}

/// Builds a file-list request body.
pub fn build_file_list_body(category: u8, storage_selector: u8, offset: u32) -> (r: Vec<u8>)
    ensures
        r@ == file_list_body_spec(category, storage_selector, offset),
{
    let mut body: Vec<u8> = Vec::new();
    body.push(0x08);
    encode_varint(category as u64, &mut body);
    if offset > 0 {
        body.push(0x10);
        encode_varint(offset as u64, &mut body);
    }
    body.push(0x18);
    encode_varint(CAMERA_FILE_LIST_PAGE_SIZE as u64, &mut body);
    body.push(0x20);
    encode_varint(storage_selector as u64, &mut body);
    assert(body@ =~= file_list_body_spec(category, storage_selector, offset));
    body
}

/// The file paths in a file-list response read from `offset` on: every length-delimited
/// field 1 decoded as UTF-8, other fields skipped, in order.
pub open spec fn file_list_paths_from(msg: Seq<u8>, offset: int) -> Result<Seq<Seq<char>>, MediaError>
    decreases msg.len() - offset,
{
    let len = msg.len() as int;
    if offset < 0 || offset >= len {
        Ok(Seq::empty())
    } else {
        match decode_varint_spec(msg.subrange(offset, len)) {
            None => Err(MediaError::FieldTruncated),
            Some((tag, tag_len)) => {
                let o1 = offset + tag_len;
                proof {
                    crate::protobuf::lemma_decode_varint_len(msg.subrange(offset, len));
                    crate::protobuf::lemma_decode_varint_len(msg.subrange(o1, len));
                }
                let wire = tag & 7;
                if wire == 0 {
                    match decode_varint_spec(msg.subrange(o1, len)) {
                        None => Err(MediaError::VarintTruncated),
                        Some((v, vl)) => file_list_paths_from(msg, o1 + vl),
                    }
                } else if wire == 1 {
                    if o1 + 8 > len {
                        Err(MediaError::FixedOutOfRange)
                    } else {
                        file_list_paths_from(msg, o1 + 8)
                    }
                } else if wire == 2 {
                    match decode_varint_spec(msg.subrange(o1, len)) {
                        None => Err(MediaError::LengthTruncated),
                        Some((length, ll)) => {
                            let s = o1 + ll;
                            let end = s + length;
                            if end > len {
                                Err(MediaError::StringOutOfRange)
                            } else if tag >> 3 == 1 {
                                let bytes = msg.subrange(s, end);
                                if !valid_utf8(bytes) {
                                    Err(MediaError::PathNotUtf8)
                                } else {
                                    match file_list_paths_from(msg, end) {
                                        Ok(rest) => Ok(seq![decode_utf8(bytes)] + rest),
                                        Err(e) => Err(e),
                                    }
                                }
                            } else {
                                file_list_paths_from(msg, end)
                            }
                        },
                    }
                } else if wire == 5 {
                    if o1 + 4 > len {
                        Err(MediaError::FixedOutOfRange)
                    } else {
                        file_list_paths_from(msg, o1 + 4)
                    }
                } else {
                    Err(MediaError::UnsupportedField)
                }
            },
        }
    }
}

/// The characters of each string.
pub open spec fn string_views(v: Seq<String>) -> Seq<Seq<char>> {
    v.map_values(|s: String| s@)
}

/// Reads the file paths of a file-list response.
pub fn parse_file_list_paths(body: &[u8]) -> (r: Result<Vec<String>, MediaError>)
    ensures
        r matches Ok(paths) ==> file_list_paths_from(body@, 0) == Ok::<Seq<Seq<char>>, MediaError>(
            string_views(paths@),
        ),
        r matches Err(e) ==> file_list_paths_from(body@, 0) == Err::<Seq<Seq<char>>, MediaError>(e),
{
    let len = body.len();
    let mut offset: usize = 0;
    let mut paths: Vec<String> = Vec::new();
    while offset < len
        invariant
            len == body@.len(),
            offset <= len,
            file_list_paths_from(body@, 0) == match file_list_paths_from(body@, offset as int) {
                Ok(rest) => Ok(string_views(paths@) + rest),
                Err(e) => Err(e),
            },
        decreases len - offset,
    {
        let ghost before = paths@;
        let (tag, tag_len) = match decode_varint_at(body, offset) {
            None => return Err(MediaError::FieldTruncated),
            Some(t) => t,
        };
        proof {
            crate::protobuf::lemma_decode_varint_len(body@.subrange(offset as int, len as int));
        }
        let o1 = offset + tag_len;
        let wire = tag & 7;
        if wire == 0 {
            match decode_varint_at(body, o1) {
                None => return Err(MediaError::VarintTruncated),
                Some((_, vl)) => {
                    proof {
                        crate::protobuf::lemma_decode_varint_len(body@.subrange(o1 as int, len as int));
                    }
                    offset = o1 + vl;
                },
            }
        } else if wire == 1 {
            if len - o1 < 8 {
                return Err(MediaError::FixedOutOfRange);
            }
            offset = o1 + 8;
        } else if wire == 2 {
            match decode_varint_at(body, o1) {
                None => return Err(MediaError::LengthTruncated),
                Some((length, ll)) => {
                    proof {
                        crate::protobuf::lemma_decode_varint_len(body@.subrange(o1 as int, len as int));
                    }
                    let s = o1 + ll;
                    if length > (len - s) as u64 {
                        return Err(MediaError::StringOutOfRange);
                    }
                    let end = s + length as usize;
                    if tag >> 3 == 1 {
                        let bytes = crate::ucd2::copy_range(body, s, end);
                        match string_from_utf8(bytes) {
                            None => return Err(MediaError::PathNotUtf8),
                            Some(path) => {
                                paths.push(path);
                                assert(string_views(paths@) =~= string_views(before) + seq![path@]);
                            },
                        }
                    }
                    offset = end;
                    proof {
                        if tag >> 3 == 1 {
                            assert forall|rest: Seq<Seq<char>>| true implies string_views(paths@) + rest
                                =~= string_views(before) + (seq![decode_utf8(body@.subrange(s as int, end as int))] + rest) by {}
                        }
                    }
                },
            }
        } else if wire == 5 {
            if len - o1 < 4 {
                return Err(MediaError::FixedOutOfRange);
            }
            offset = o1 + 4;
        } else {
            return Err(MediaError::UnsupportedField);
        }
    }
    assert(string_views(paths@) + Seq::<Seq<char>>::empty() =~= string_views(paths@));
    Ok(paths)
}

/// Whether `b` is a visible ASCII character (`!` through `~`).
pub open spec fn is_ascii_graphic_byte(b: u8) -> bool {
    0x21 <= b <= 0x7e
}

/// Whether the six bytes `/DCIM/` start at `i`.
pub open spec fn dcim_marker_at(s: Seq<u8>, i: int) -> bool {
    0 <= i && i + 6 <= s.len() && s[i] == 0x2f && s[i + 1] == 0x44 && s[i + 2] == 0x43 && s[i + 3]
        == 0x49 && s[i + 4] == 0x4d && s[i + 5] == 0x2f
}

/// The media path a command response mentions: from the first `/DCIM/` up to the first byte
/// that is not visible ASCII, if those bytes are UTF-8.
pub open spec fn media_path_spec(body: Seq<u8>) -> Option<Seq<char>> {
    if exists|i: int| dcim_marker_at(body, i) {
        let start = choose|i: int| dcim_marker_at(body, i) && forall|k: int| 0 <= k < i ==> !dcim_marker_at(body, k);
        let end = if exists|j: int| start <= j < body.len() && !is_ascii_graphic_byte(body[j]) {
            choose|j: int| start <= j < body.len() && !is_ascii_graphic_byte(body[j]) && forall|k: int|
                start <= k < j ==> is_ascii_graphic_byte(body[k])
        } else {
            body.len() as int
        };
        if valid_utf8(body.subrange(start, end)) {
            Some(decode_utf8(body.subrange(start, end)))
        } else {
            None
        }
    } else {
        None
    }
}

/// The media path that a command response mentions, if any.
pub fn first_camera_media_path(body: &[u8]) -> (r: Option<String>)
    ensures
        r matches Some(s) ==> media_path_spec(body@) == Some(s@),
        r is None ==> media_path_spec(body@) is None,
{
    let n = body.len();
    let mut i: usize = 0;
    let mut found = false;
    while !found && i < n && n - i >= 6
        invariant
            n == body@.len(),
            i <= n,
            forall|k: int| 0 <= k < i ==> !dcim_marker_at(body@, k),
            found ==> i + 6 <= n && dcim_marker_at(body@, i as int),
        decreases n - i + (if found { 0int } else { 1int }),
    {
        if body[i] == 0x2f && body[i + 1] == 0x44 && body[i + 2] == 0x43 && body[i + 3] == 0x49
            && body[i + 4] == 0x4d && body[i + 5] == 0x2f {
            found = true;
        } else {
            i = i + 1;
        }
    }
    if !found {
        assert forall|k: int| !dcim_marker_at(body@, k) by {
            if 0 <= k && k + 6 <= n {
                assert(k < i);
            }
        }
        return None;
    }
    let start = i;
    proof {
        let w = choose|x: int| dcim_marker_at(body@, x) && forall|k: int| 0 <= k < x ==> !dcim_marker_at(body@, k);
        assert(dcim_marker_at(body@, start as int));
        assert(w == start as int) by {
            if w < start {
            } else if w > start {
                assert(!dcim_marker_at(body@, start as int));
            }
        }
    }
    let mut j: usize = start;
    while j < n && 0x21 <= body[j] && body[j] <= 0x7e
        invariant
            n == body@.len(),
            start <= j <= n,
            forall|k: int| start <= k < j ==> is_ascii_graphic_byte(body@[k]),
        decreases n - j,
    {
        j = j + 1;
    }
    proof {
        if j < n {
            let w = choose|x: int| start <= x < body@.len() && !is_ascii_graphic_byte(body@[x]) && forall|k: int|
                start <= k < x ==> is_ascii_graphic_byte(body@[k]);
            assert(start <= j < body@.len() && !is_ascii_graphic_byte(body@[j as int]));
            assert(w == j as int) by {
                if w < j {
                } else if w > j {
                    assert(is_ascii_graphic_byte(body@[j as int]));
                }
            }
        }
    }
    let bytes = crate::ucd2::copy_range(body, start, j);
    string_from_utf8(bytes)
}

/// The UTF-8 bytes of each path.
pub open spec fn path_bytes(p: String) -> Seq<u8> {
    encode_utf8(p@)
}

/// The delete request body: each path as a length-delimited field 1, in order.
pub open spec fn delete_body_spec(paths: Seq<String>) -> Seq<u8>
    decreases paths.len(),
{
    if paths.len() == 0 {
        Seq::empty()
    } else {
        delete_body_spec(paths.drop_last()) + seq![0x0au8] + varint_bytes(
            path_bytes(paths.last()).len(),
        ) + path_bytes(paths.last())
    }
}

/// Builds the body that deletes `paths` from the camera.
pub fn build_delete_files_body(paths: &[String]) -> (r: Result<Vec<u8>, MediaError>)
    ensures
        paths@.len() == 0 ==> r == Err::<Vec<u8>, MediaError>(MediaError::NothingToDelete),
        paths@.len() > 0 ==> (r matches Ok(body) && body@ == delete_body_spec(paths@)),
{
    if paths.len() == 0 {
        return Err(MediaError::NothingToDelete);
    }
    let mut body: Vec<u8> = Vec::new();
    let n = paths.len();
    let mut i: usize = 0;
    while i < n
        invariant
            n == paths@.len(),
            i <= n,
            body@ == delete_body_spec(paths@.subrange(0, i as int)),
        decreases n - i,
    {
        let bytes = paths[i].as_str().as_bytes();
        body.push(0x0a);
        encode_varint(bytes.len() as u64, &mut body);
        crate::ucd2::push_all(&mut body, bytes);
        i = i + 1;
        assert(paths@.subrange(0, i as int).drop_last() =~= paths@.subrange(0, i - 1));
        assert(body@ =~= delete_body_spec(paths@.subrange(0, i as int)));
    }
    assert(paths@.subrange(0, n as int) =~= paths@);
    Ok(body)
}

/// The default folder of the camera's own recordings.
pub const DEFAULT_MEDIA_PATH: &'static str = "/storage_internal/DCIM/Camera01/";

/// The media root of the internal storage.
pub const INTERNAL_MEDIA_ROOT: &'static str = "/storage_internal/DCIM/";

/// The media root of the SD card.
pub const SDCARD_MEDIA_ROOT: &'static str = "/DCIM/";

/// A media item of the camera.
#[derive(Debug, Clone)]
pub struct LunaFile {
    pub name: String,
    pub url: String,
    pub date: String,
    pub time: String,
    pub size_text: String,
    pub bytes: Option<u64>,
    pub kind: String,
    pub storage_id: String,
    pub storage_label: String,
}

/// The `n`-th `_`-separated piece of a name, or nothing.
pub open spec fn name_piece(name: Seq<char>, n: nat) -> Seq<char> {
    match split_piece(name, '_', n) {
        Some(p) => p,
        None => Seq::empty(),
    }
}

/// The date (`YYYY-MM-DD`) and time (`HH:MM`) a camera file name such as
/// `IMG_20260722_193028_206.jpg` carries in its second and third `_`-separated pieces: the
/// date piece must be eight digits and the time piece must start with six. Otherwise the date
/// is unknown and the time empty.
pub open spec fn media_timestamp_spec(name: Seq<char>) -> (Seq<char>, Seq<char>) {
    let date = name_piece(name, 1);
    let time = name_piece(name, 2);
    if date.len() == 8 && time.len() >= 6 && all_ascii_digits(date) && all_ascii_digits(
        time.subrange(0, 6),
    ) {
        (
            date.subrange(0, 4) + seq!['-'] + date.subrange(4, 6) + seq!['-'] + date.subrange(6, 8),
            time.subrange(0, 2) + seq![':'] + time.subrange(2, 4),
        )
    } else {
        ("日期未知"@, Seq::empty())
    }
}

/// The `n`-th `_`-separated piece of `name`, or nothing.
fn name_piece_chars(name: &[char], n: usize) -> (r: Vec<char>)
    ensures
        r@ == name_piece(name@, n as nat),
{
    match split_piece_chars(name, '_', n) {
        Some(p) => p,
        None => Vec::new(),
    }
}

/// The date and time a camera file name carries.
pub fn media_timestamp_from_name(name: &str) -> (r: (String, String))
    ensures
        (r.0@, r.1@) == media_timestamp_spec(name@),
{
    let chars = chars_of(name);
    let date = name_piece_chars(chars.as_slice(), 1);
    let time = name_piece_chars(chars.as_slice(), 2);
    if date.len() == 8 && time.len() >= 6 && chars_all_ascii_digits(date.as_slice())
        && chars_all_ascii_digits(crate::text::slice_chars(time.as_slice(), 0, 6).as_slice()) {
        let mut d: Vec<char> = Vec::new();
        push_chars(&mut d, crate::text::slice_chars(date.as_slice(), 0, 4).as_slice());
        d.push('-');
        push_chars(&mut d, crate::text::slice_chars(date.as_slice(), 4, 6).as_slice());
        d.push('-');
        push_chars(&mut d, crate::text::slice_chars(date.as_slice(), 6, 8).as_slice());
        let mut t: Vec<char> = Vec::new();
        push_chars(&mut t, crate::text::slice_chars(time.as_slice(), 0, 2).as_slice());
        t.push(':');
        push_chars(&mut t, crate::text::slice_chars(time.as_slice(), 2, 4).as_slice());
        assert(d@ =~= date@.subrange(0, 4) + seq!['-'] + date@.subrange(4, 6) + seq!['-']
            + date@.subrange(6, 8));
        assert(t@ =~= time@.subrange(0, 2) + seq![':'] + time@.subrange(2, 4));
        (string_from_chars(d.as_slice()), string_from_chars(t.as_slice()))
    } else {
        ("日期未知".to_owned(), String::new())
    }
}

/// The text of an HTML directory listing with its five escapes undone, one after another:
/// `&amp;`, `&lt;`, `&gt;`, `&quot;`, `&#39;`.
pub open spec fn html_unescape_spec(text: Seq<char>) -> Seq<char> {
    replace_spec(
        replace_spec(
            replace_spec(replace_spec(replace_spec(text, "&amp;"@, "&"@), "&lt;"@, "<"@), "&gt;"@, ">"@),
            "&quot;"@,
            "\""@,
        ),
        "&#39;"@,
        "'"@,
    )
}

/// Undoes the HTML escapes of a directory listing, in the order `&amp;`, `&lt;`, `&gt;`,
/// `&quot;`, `&#39;` (so `&amp;lt;` becomes `<`).
pub fn html_unescape(text: &str) -> (r: String)
    ensures
        r@ == html_unescape_spec(text@),
{
    proof {
        reveal_strlit("&amp;");
        reveal_strlit("&lt;");
        reveal_strlit("&gt;");
        reveal_strlit("&quot;");
        reveal_strlit("&#39;");
    }
    let chars = chars_of(text);
    let a = replace_chars(&chars, "&amp;", "&");
    let b = replace_chars(&a, "&lt;", "<");
    let c = replace_chars(&b, "&gt;", ">");
    let d = replace_chars(&c, "&quot;", "\"");
    let e = replace_chars(&d, "&#39;", "'");
    string_from_chars(&e)
}

/// The kind shown for a file: its extension in upper case, or `FILE` when it has none.
pub open spec fn file_kind_spec(name: Seq<char>) -> Seq<char> {
    let upper = last_segment(name, '.').map_values(|c: char| ascii_upper(c));
    if upper.len() == 0 {
        "FILE"@
    } else {
        upper
    }
}

/// The kind shown for a file name.
pub fn file_kind(name: &str) -> (r: String)
    ensures
        r@ == file_kind_spec(name@),
{
    let chars = chars_of(name);
    let ext = last_segment_chars(chars.as_slice(), '.');
    let upper = to_ascii_upper(ext.as_slice());
    if upper.len() == 0 {
        "FILE".to_owned()
    } else {
        string_from_chars(upper.as_slice())
    }
}

/// The extensions (in lower case) of the files the media library lists.
pub open spec fn is_media_extension(ext: Seq<char>) -> bool {
    ext == "mp4"@ || ext == "mov"@ || ext == "lrv"@ || ext == "jpg"@ || ext == "jpeg"@ || ext
        == "dng"@ || ext == "insp"@ || ext == "insv"@ || ext == "png"@ || ext == "webp"@
}

/// Whether `ext` is the lower-case extension of a listed media file.
fn media_extension_listed(ext: &[char]) -> (r: bool)
    ensures
        r == is_media_extension(ext@),
{
    chars_equal_str(ext, "mp4") || chars_equal_str(ext, "mov") || chars_equal_str(ext, "lrv")
        || chars_equal_str(ext, "jpg") || chars_equal_str(ext, "jpeg") || chars_equal_str(ext, "dng")
        || chars_equal_str(ext, "insp") || chars_equal_str(ext, "insv") || chars_equal_str(ext, "png")
        || chars_equal_str(ext, "webp")
}

/// Whether `path` lies under the media root of the storage named `storage_id`: the internal
/// storage keeps its media under `/storage_internal/DCIM/`, the SD card under `/DCIM/` or
/// `/sdcard/DCIM/`.
pub open spec fn belongs_to_storage(path: Seq<char>, storage_id: Seq<char>) -> bool {
    if storage_id == "storage_internal"@ {
        starts_with_spec(path, "/storage_internal/DCIM/"@)
    } else {
        starts_with_spec(path, "/DCIM/"@) || starts_with_spec(path, "/sdcard/DCIM/"@)
    }
}

/// The file name of a listed media path, or `None` when the path is skipped: it lies outside
/// the storage's media root, names a folder, has an empty last segment, or has an extension
/// that is not a media extension.
pub open spec fn media_name_spec(path: Seq<char>, storage_id: Seq<char>) -> Option<Seq<char>> {
    let name = last_segment(path, '/');
    if !belongs_to_storage(path, storage_id) || ends_with_spec(path, "/"@) || name.len() == 0 {
        None
    } else if !is_media_extension(
        last_segment(name, '.').map_values(|c: char| ascii_lower(c)),
    ) {
        None
    } else {
        Some(name)
    }
}

/// The part after the last separator of a text that ends in a separator followed by a piece
/// with no separator is that piece.
proof fn lemma_last_segment_after(pre: Seq<char>, seg: Seq<char>, sep: char)
    requires
        pre.len() > 0,
        pre.last() == sep,
        forall|i: int| 0 <= i < seg.len() ==> #[trigger] seg[i] != sep,
    ensures
        last_segment(pre + seg, sep) == seg,
{
    let u = pre + seg;
    let p = pre.len() - 1;
    assert(u[p] == sep);
    assert(crate::text::contains_char_spec(u, sep));
    let i = crate::text::last_index_of(u, sep)->0;
    assert(u[i] == sep);
    assert(i >= p) by {
        if i < p {
            assert(u[p] != sep);
        }
    }
    assert(i <= p) by {
        if i > p {
            assert(u[i] == seg[i - pre.len()]);
        }
    }
    assert(u.subrange(i + 1, u.len() as int) =~= seg);
}

/// The first separator of a piece without separators followed by a separator is that one.
proof fn lemma_first_separator(a: Seq<char>, tail: Seq<char>, sep: char)
    requires
        forall|i: int| 0 <= i < a.len() ==> #[trigger] a[i] != sep,
        tail.len() > 0,
        tail[0] == sep,
    ensures
        first_index_of(a + tail, sep) == Some(a.len() as int),
{
    let u = a + tail;
    assert(u[a.len() as int] == sep);
    assert(contains_char_spec(u, sep));
    let i = first_index_of(u, sep)->0;
    assert(u[i] == sep);
    assert(i >= a.len()) by {
        if i < a.len() {
            assert(u[i] == a[i]);
        }
    }
    assert(i <= a.len()) by {
        if i > a.len() {
            assert(u[a.len() as int] != sep);
        }
    }
}

/// The first piece of a text that starts with a piece without separators, followed by nothing
/// or by a separator, is that piece.
proof fn lemma_first_piece(a: Seq<char>, tail: Seq<char>, sep: char)
    requires
        forall|i: int| 0 <= i < a.len() ==> #[trigger] a[i] != sep,
        tail.len() == 0 || tail[0] == sep,
    ensures
        split_piece(a + tail, sep, 0) == Some(a),
{
    if tail.len() == 0 {
        assert(a + tail =~= a);
        assert(!contains_char_spec(a, sep));
    } else {
        lemma_first_separator(a, tail, sep);
        assert((a + tail).subrange(0, a.len() as int) =~= a);
    }
}

/// Past a first piece and its separator, the pieces are those of the rest.
proof fn lemma_later_piece(a: Seq<char>, rest: Seq<char>, sep: char, n: nat)
    requires
        forall|i: int| 0 <= i < a.len() ==> #[trigger] a[i] != sep,
    ensures
        split_piece(a + seq![sep] + rest, sep, n + 1) == split_piece(rest, sep, n),
{
    let u = a + seq![sep] + rest;
    assert(u =~= a + (seq![sep] + rest));
    lemma_first_separator(a, seq![sep] + rest, sep);
    assert(u.subrange(a.len() as int + 1, u.len() as int) =~= rest);
}

/// A camera file name `PREFIX_YYYYMMDD_HHMMSS...` (the prefix and the two numbers without
/// `_`, the time piece at least six digits, then nothing or `_` and more) carries the date
/// `YYYY-MM-DD` and the time `HH:MM`.
pub proof fn lemma_media_timestamp(prefix: Seq<char>, date: Seq<char>, time: Seq<char>, tail: Seq<char>)
    requires
        forall|i: int| 0 <= i < prefix.len() ==> #[trigger] prefix[i] != '_',
        date.len() == 8,
        forall|i: int| 0 <= i < 8 ==> '0' <= #[trigger] date[i] <= '9',
        time.len() >= 6,
        forall|i: int| 0 <= i < 6 ==> '0' <= #[trigger] time[i] <= '9',
        forall|i: int| 0 <= i < time.len() ==> #[trigger] time[i] != '_',
        tail.len() == 0 || tail[0] == '_',
    ensures
        media_timestamp_spec(prefix + seq!['_'] + date + seq!['_'] + time + tail) == (
            date.subrange(0, 4) + seq!['-'] + date.subrange(4, 6) + seq!['-'] + date.subrange(6, 8),
            time.subrange(0, 2) + seq![':'] + time.subrange(2, 4),
        ),
{
    let name = prefix + seq!['_'] + date + seq!['_'] + time + tail;
    let after_date = time + tail;
    let after_prefix = date + seq!['_'] + after_date;
    assert(name =~= prefix + seq!['_'] + after_prefix);
    assert forall|i: int| 0 <= i < date.len() implies #[trigger] date[i] != '_' by {
        assert('0' <= date[i] <= '9');
    }
    lemma_later_piece(prefix, after_prefix, '_', 0);
    lemma_first_piece(date, seq!['_'] + after_date, '_');
    assert(after_prefix =~= date + (seq!['_'] + after_date));
    lemma_later_piece(prefix, after_prefix, '_', 1);
    lemma_later_piece(date, after_date, '_', 0);
    lemma_first_piece(time, tail, '_');
    assert(name_piece(name, 1) == date);
    assert(name_piece(name, 2) == time);
    assert(all_ascii_digits(date));
    assert(all_ascii_digits(time.subrange(0, 6))) by {
        assert forall|i: int| 0 <= i < 6 implies crate::text::is_ascii_digit(#[trigger] time.subrange(0, 6)[i]) by {
            assert(time.subrange(0, 6)[i] == time[i]);
        }
    }
}

/// The media roots end in a slash, and every path that starts with one belongs to its storage.
proof fn lemma_media_root(storage_id: Seq<char>, root: Seq<char>, tail: Seq<char>)
    requires
        (storage_id == "storage_internal"@ && root == "/storage_internal/DCIM/"@) || (storage_id
            != "storage_internal"@ && (root == "/DCIM/"@ || root == "/sdcard/DCIM/"@)),
    ensures
        root.len() > 0,
        root.last() == '/',
        belongs_to_storage(root + tail, storage_id),
{
    reveal_strlit("/storage_internal/DCIM/");
    reveal_strlit("/DCIM/");
    reveal_strlit("/sdcard/DCIM/");
    assert((root + tail).subrange(0, root.len() as int) =~= root);
}

/// A path under a storage's media root (`/storage_internal/DCIM/` for the internal storage,
/// `/DCIM/` or `/sdcard/DCIM/` for the SD card) whose file name ends in a media extension, in
/// any letter case (`mp4`, `mov`, `lrv`, `jpg`, `jpeg`, `dng`, `insp`, `insv`, `png`, `webp`),
/// is listed under that file name; with any other extension it is skipped.
#[verifier::spinoff_prover]
#[verifier::rlimit(60)]
pub proof fn lemma_media_path_listed(
    storage_id: Seq<char>,
    root: Seq<char>,
    dir: Seq<char>,
    stem: Seq<char>,
    ext: Seq<char>,
)
    requires
        (storage_id == "storage_internal"@ && root == "/storage_internal/DCIM/"@) || (storage_id
            != "storage_internal"@ && (root == "/DCIM/"@ || root == "/sdcard/DCIM/"@)),
        dir.len() == 0 || dir.last() == '/',
        forall|i: int| 0 <= i < stem.len() ==> #[trigger] stem[i] != '/',
        forall|i: int| 0 <= i < ext.len() ==> #[trigger] ext[i] != '/' && ext[i] != '.',
        ext.len() > 0,
    ensures
        media_name_spec(root + dir + stem + seq!['.'] + ext, storage_id) == (if ({
            let x = ext.map_values(|c: char| ascii_lower(c));
            x == "mp4"@ || x == "mov"@ || x == "lrv"@ || x == "jpg"@ || x == "jpeg"@ || x == "dng"@ || x
                == "insp"@ || x == "insv"@ || x == "png"@ || x == "webp"@
        }) {
            Some(stem + seq!['.'] + ext)
        } else {
            None
        }),
{
    let x = ext.map_values(|c: char| ascii_lower(c));
    let pre = root + dir;
    let name = stem + seq!['.'] + ext;
    let path = root + dir + stem + seq!['.'] + ext;
    assert(path =~= root + (dir + name));
    lemma_media_root(storage_id, root, dir + name);
    assert(path =~= pre + name);
    assert(pre.last() == '/') by {
        if dir.len() > 0 {
            assert(pre.last() == dir.last());
        } else {
            assert(pre =~= root);
        }
    }
    assert forall|i: int| 0 <= i < name.len() implies #[trigger] name[i] != '/' by {
        if i < stem.len() {
            assert(name[i] == stem[i]);
        } else if i > stem.len() {
            assert(name[i] == ext[i - stem.len() - 1]);
        }
    }
    lemma_last_segment_after(pre, name, '/');
    assert(name =~= (stem + seq!['.']) + ext);
    lemma_last_segment_after(stem + seq!['.'], ext, '.');
    assert(last_segment(path, '/') == name);
    assert(last_segment(name, '.') == ext);
    assert(path.last() == ext.last());
    assert(ext.last() != '/');
    assert(!ends_with_spec(path, "/"@)) by {
        reveal_strlit("/");
        if ends_with_spec(path, "/"@) {
            assert(path.subrange(path.len() - 1, path.len() as int)[0] == path.last());
        }
    }
    assert(media_name_spec(path, storage_id) == (if is_media_extension(x) {
        Some(name)
    } else {
        None
    }));
}

/// Whether `f` is the media item for `path` on `storage` at `host`, its file name being `name`
/// and its address `url`.
pub open spec fn is_media_item(f: LunaFile, name: Seq<char>, url: Seq<char>, storage: MediaStorage) -> bool {
    &&& f.name@ == name
    &&& f.url@ == url
    &&& (f.date@, f.time@) == media_timestamp_spec(name)
    &&& f.size_text@ == "大小未知"@
    &&& f.bytes is None
    &&& f.kind@ == file_kind_spec(name)
    &&& f.storage_id@ == storage.id@
    &&& f.storage_label@ == storage.label@
}

/// The media item for a listed camera path: `Ok(None)` when the path is skipped, an error when
/// `http://{host}` is not a URL, otherwise the item whose address is that URL with the path
/// set to `path`.
pub fn camera_file_from_path(host: &str, path: &str, storage: MediaStorage) -> (r: Result<Option<LunaFile>, MediaError>)
    ensures
        media_name_spec(path@, storage.id@) is None ==> r == Ok::<Option<LunaFile>, MediaError>(None),
        media_name_spec(path@, storage.id@) matches Some(name) ==> match url_with_path_spec(
            "http://"@ + host@,
            path@,
        ) {
            None => r == Err::<Option<LunaFile>, MediaError>(MediaError::InvalidHost),
            Some(url) => (r matches Ok(Some(f)) && is_media_item(f, name, url, storage)),
        },
{
    let p = chars_of(path);
    let belongs = if str_eq(storage.id, "storage_internal") {
        starts_with(p.as_slice(), "/storage_internal/DCIM/")
    } else {
        starts_with(p.as_slice(), "/DCIM/") || starts_with(p.as_slice(), "/sdcard/DCIM/")
    };
    let name = last_segment_chars(p.as_slice(), '/');
    if !belongs || ends_with(p.as_slice(), "/") || name.len() == 0 {
        return Ok(None);
    }
    let ext = last_segment_chars(name.as_slice(), '.');
    let lower = to_ascii_lower(ext.as_slice());
    if !media_extension_listed(lower.as_slice()) {
        return Ok(None);
    }
    let mut base: Vec<char> = Vec::new();
    push_str(&mut base, "http://");
    push_str(&mut base, host);
    let base_text = string_from_chars(base.as_slice());
    let url = match url_with_path(base_text.as_str(), path) {
        None => return Err(MediaError::InvalidHost),
        Some(u) => u,
    };
    let name_text = string_from_chars(name.as_slice());
    let (date, time) = media_timestamp_from_name(name_text.as_str());
    let kind = file_kind(name_text.as_str());
    Ok(
        Some(
            LunaFile {
                name: name_text,
                url,
                date,
                time,
                size_text: "大小未知".to_owned(),
                bytes: None,
                kind,
                storage_id: storage.id.to_owned(),
                storage_label: storage.label.to_owned(),
            },
        ),
    )
}

/// The value of an ASCII hex digit, either case.
pub open spec fn hex_value(b: u8) -> Option<u8> {
    if 0x30 <= b <= 0x39 {
        Some((b - 0x30) as u8)
    } else if 0x61 <= b <= 0x66 {
        Some((b - 0x61 + 10) as u8)
    } else if 0x41 <= b <= 0x46 {
        Some((b - 0x41 + 10) as u8)
    } else {
        None
    }
}

/// The value of a hex digit of a percent escape.
pub fn hex_digit(byte: u8) -> (r: Result<u8, MediaError>)
    ensures
        hex_value(byte) matches Some(v) ==> r == Ok::<u8, MediaError>(v),
        hex_value(byte) is None ==> r == Err::<u8, MediaError>(MediaError::InvalidPercentEncoding),
{
    if 0x30 <= byte && byte <= 0x39 {
        Ok(byte - 0x30)
    } else if 0x61 <= byte && byte <= 0x66 {
        Ok(byte - 0x61 + 10)
    } else if 0x41 <= byte && byte <= 0x46 {
        Ok(byte - 0x41 + 10)
    } else {
        Err(MediaError::InvalidPercentEncoding)
    }
}

/// `prefix` followed by the bytes in `rest`, if there are any.
pub open spec fn prepend_bytes(prefix: Seq<u8>, rest: Option<Seq<u8>>) -> Option<Seq<u8>> {
    match rest {
        Some(r) => Some(prefix + r),
        None => None,
    }
}

/// The bytes `b[i..]` with every `%XY` escape replaced by the byte it encodes; `None` when a
/// `%` is not followed by two hex digits.
pub open spec fn percent_decode_from(b: Seq<u8>, i: int) -> Option<Seq<u8>>
    decreases b.len() - i,
{
    if i < 0 || i >= b.len() {
        Some(Seq::empty())
    } else if b[i] == 0x25 {
        if i + 2 >= b.len() {
            None
        } else {
            match (hex_value(b[i + 1]), hex_value(b[i + 2])) {
                (Some(h), Some(l)) => prepend_bytes(seq![(h * 16 + l) as u8], percent_decode_from(b, i + 3)),
                _ => None,
            }
        }
    } else {
        prepend_bytes(seq![b[i]], percent_decode_from(b, i + 1))
    }
}

proof fn lemma_prepend_push(a: Seq<u8>, x: u8, rest: Option<Seq<u8>>)
    ensures
        prepend_bytes(a, prepend_bytes(seq![x], rest)) == prepend_bytes(a.push(x), rest),
{
    if let Some(r) = rest {
        assert(a + (seq![x] + r) =~= a.push(x) + r);
    }
}

/// The text a percent-encoded path stands for.
pub open spec fn percent_decode_spec(path: Seq<char>) -> Result<Seq<char>, MediaError> {
    match percent_decode_from(encode_utf8(path), 0) {
        None => Err(MediaError::InvalidPercentEncoding),
        Some(bytes) => if valid_utf8(bytes) {
            Ok(decode_utf8(bytes))
        } else {
            Err(MediaError::MediaPathNotUtf8)
        },
    }
}

/// Decodes the percent escapes of a URL path.
pub fn percent_decode_path(path: &str) -> (r: Result<String, MediaError>)
    ensures
        r matches Ok(s) ==> percent_decode_spec(path@) == Ok::<Seq<char>, MediaError>(s@),
        r matches Err(e) ==> percent_decode_spec(path@) == Err::<Seq<char>, MediaError>(e),
{
    let bytes = path.as_bytes();
    let n = bytes.len();
    assert(bytes@ == encode_utf8(path@));
    let mut decoded: Vec<u8> = Vec::new();
    let mut offset: usize = 0;
    while offset < n
        invariant
            n == bytes@.len(),
            bytes@ == encode_utf8(path@),
            offset <= n,
            percent_decode_from(bytes@, 0) == prepend_bytes(decoded@, percent_decode_from(bytes@, offset as int)),
        decreases n - offset,
    {
        if bytes[offset] == 0x25 {
            if n - offset <= 2 {
                return Err(MediaError::InvalidPercentEncoding);
            }
            let high = match hex_digit(bytes[offset + 1]) {
                Ok(v) => v,
                Err(e) => return Err(e),
            };
            let low = match hex_digit(bytes[offset + 2]) {
                Ok(v) => v,
                Err(e) => return Err(e),
            };
            let byte: u8 = high * 16 + low;
            proof {
                lemma_prepend_push(decoded@, byte, percent_decode_from(bytes@, offset + 3));
            }
            decoded.push(byte);
            offset = offset + 3;
        } else {
            proof {
                lemma_prepend_push(decoded@, bytes@[offset as int], percent_decode_from(bytes@, offset + 1));
            }
            decoded.push(bytes[offset]);
            offset = offset + 1;
        }
    }
    assert(decoded@ + Seq::<u8>::empty() =~= decoded@);
    match string_from_utf8(decoded) {
        Some(s) => Ok(s),
        None => Err(MediaError::MediaPathNotUtf8),
    }
}

/// The piece of `path` that follows the `/` at `i`, up to the next `/` or the end.
pub open spec fn segment_after(path: Seq<char>, i: int) -> Seq<char> {
    let rest = path.subrange(i + 1, path.len() as int);
    match first_index_of(rest, '/') {
        Some(j) => rest.subrange(0, j),
        None => rest,
    }
}

/// Whether a path segment is a real name: not empty, not `.` and not `..`.
pub open spec fn is_name_segment(seg: Seq<char>) -> bool {
    seg.len() > 0 && seg != seq!['.'] && seg != seq!['.', '.']
}

/// Whether every piece that follows a `/` in `path` is a real name.
pub open spec fn segments_are_names(path: Seq<char>) -> bool {
    forall|i: int| 0 <= i < path.len() && path[i] == '/' ==> is_name_segment(#[trigger] segment_after(path, i))
}

/// Whether a decoded media path is one the camera may be asked about: it names a file below one
/// of the media roots `/storage_internal/DCIM/`, `/sdcard/DCIM/` or `/DCIM/`, holds no NUL and no
/// backslash, and none of its segments is empty, `.` or `..`.
pub open spec fn is_safe_media_path(path: Seq<char>) -> bool {
    &&& !ends_with_spec(path, "/"@)
    &&& !contains_char_spec(path, '\0')
    &&& !contains_char_spec(path, '\\')
    &&& segments_are_names(path)
    &&& (starts_with_spec(path, "/storage_internal/DCIM/"@) || starts_with_spec(path, "/sdcard/DCIM/"@)
        || starts_with_spec(path, "/DCIM/"@))
}

/// Whether the segments of `path` are all real names.
fn check_segments(path: &[char]) -> (r: bool)
    ensures
        r == segments_are_names(path@),
{
    let n = path.len();
    let mut i: usize = 0;
    while i < n
        invariant
            n == path@.len(),
            i <= n,
            forall|k: int| 0 <= k < i && path@[k] == '/' ==> is_name_segment(#[trigger] segment_after(path@, k)),
        decreases n - i,
    {
        if path[i] == '/' {
            let rest = slice_chars(path, i + 1, n);
            let seg = match find_char(rest.as_slice(), '/') {
                Some(j) => slice_chars(rest.as_slice(), 0, j),
                None => rest,
            };
            assert(seg@ == segment_after(path@, i as int));
            let dot = seg.len() == 1 && seg[0] == '.';
            let dotdot = seg.len() == 2 && seg[0] == '.' && seg[1] == '.';
            if dot {
                assert(seg@ =~= seq!['.']);
            }
            if dotdot {
                assert(seg@ =~= seq!['.', '.']);
            }
            if seg.len() == 0 || dot || dotdot {
                return false;
            }
            assert(is_name_segment(seg@));
        }
        i = i + 1;
    }
    true
}

/// What `camera_path_from_url` answers for a media URL: the URL may hold no encoded `.`, `/` or
/// `\\`; `http://{host}` must parse; the URL must parse, be http or https, and point at the same
/// host and port as the camera; its path must decode; the decoded path must be safe.
pub open spec fn camera_path_spec(host: Seq<char>, url_text: Seq<char>) -> Result<Seq<char>, MediaError> {
    let lower = url_text.map_values(|c: char| ascii_lower(c));
    if contains_seq(lower, "%2e"@) || contains_seq(lower, "%2f"@) || contains_seq(lower, "%5c"@) {
        Err(MediaError::EncodedSeparator)
    } else {
        match url_parts_spec("http://"@ + host) {
            None => Err(MediaError::InvalidHost),
            Some(expected) => match url_parts_spec(url_text) {
                None => Err(MediaError::InvalidMediaUrl),
                Some(parts) => if parts.0 != "http"@ && parts.0 != "https"@ {
                    Err(MediaError::NotHttp)
                } else if parts.1 != expected.1 || parts.2 != expected.2 {
                    Err(MediaError::ForeignHost)
                } else {
                    match percent_decode_spec(parts.3) {
                        Err(e) => Err(e),
                        Ok(path) => if is_safe_media_path(path) {
                            Ok(path)
                        } else {
                            Err(MediaError::OutsideMediaRoot)
                        },
                    }
                },
            },
        }
    }
}

/// Whether two optional strings are equal.
fn opt_str_eq(a: &Option<String>, b: &Option<String>) -> (r: bool)
    ensures
        r == (crate::url::opt_chars(*a) == crate::url::opt_chars(*b)),
{
    match (a, b) {
        (Some(x), Some(y)) => str_eq(x.as_str(), y.as_str()),
        (None, None) => true,
        _ => false,
    }
}

/// The camera path a media URL points at, checked to lie in one of the camera's media folders
/// and to belong to the camera at `host`.
pub fn camera_path_from_url(host: &str, url_text: &str) -> (r: Result<String, MediaError>)
    ensures
        r matches Ok(p) ==> camera_path_spec(host@, url_text@) == Ok::<Seq<char>, MediaError>(p@),
        r matches Err(e) ==> camera_path_spec(host@, url_text@) == Err::<Seq<char>, MediaError>(e),
        r matches Ok(p) ==> is_safe_media_path(p@),
{
    let url_chars = chars_of(url_text);
    let lower = to_ascii_lower(url_chars.as_slice());
    if contains_str(lower.as_slice(), "%2e") || contains_str(lower.as_slice(), "%2f")
        || contains_str(lower.as_slice(), "%5c") {
        return Err(MediaError::EncodedSeparator);
    }
    let mut base: Vec<char> = Vec::new();
    push_str(&mut base, "http://");
    push_str(&mut base, host);
    let base_text = string_from_chars(base.as_slice());
    let expected = match parse_url_parts(base_text.as_str()) {
        None => return Err(MediaError::InvalidHost),
        Some(p) => p,
    };
    let url = match parse_url_parts(url_text) {
        None => return Err(MediaError::InvalidMediaUrl),
        Some(p) => p,
    };
    if !str_eq(url.scheme.as_str(), "http") && !str_eq(url.scheme.as_str(), "https") {
        return Err(MediaError::NotHttp);
    }
    if !opt_str_eq(&url.host, &expected.host) || url.port != expected.port {
        return Err(MediaError::ForeignHost);
    }
    let path = match percent_decode_path(url.path.as_str()) {
        Ok(p) => p,
        Err(e) => return Err(e),
    };
    let pc = chars_of(path.as_str());
    if ends_with(pc.as_slice(), "/") || contains_char(pc.as_slice(), '\0') || contains_char(
        pc.as_slice(),
        '\\',
    ) || !check_segments(pc.as_slice()) || !(starts_with(pc.as_slice(), "/storage_internal/DCIM/")
        || starts_with(pc.as_slice(), "/sdcard/DCIM/") || starts_with(pc.as_slice(), "/DCIM/")) {
        return Err(MediaError::OutsideMediaRoot);
    }
    Ok(path)
}

} // verus!
