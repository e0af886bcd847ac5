//! The watermark catalog of the official app and the decisions made before any pixel is drawn:
//! which style, which asset, which placement name, which kind of rendering, plus the text
//! helpers that read video dimensions and EXIF timestamps.
use vstd::prelude::*;
use vstd::utf8::*;
use crate::text::{
    ascii_lower, chars_of, decimal_chars, to_ascii_lower, decimal_spec, is_whitespace, is_whitespace_spec, push_chars,
    push_str, slice_chars, str_eq, string_from_chars, trim_chars, trim_spec,
};

verus! {

/// A watermark style of the official app.
#[derive(Debug, Clone, Copy)]
pub struct WatermarkStyle {
    pub id: &'static str,
    pub label: &'static str,
    pub kind: &'static str,
    pub model: &'static str,
    pub profile: &'static str,
    pub image_file: Option<&'static str>,
    pub video_file: Option<&'static str>,
}

/// A background of the frame style.
#[derive(Debug, Clone, Copy)]
pub struct FrameBackgroundStyle {
    pub id: &'static str,
    pub label: &'static str,
    pub start_hex: &'static str,
    pub end_hex: &'static str,
}

/// The characters of an optional static string.
pub open spec fn opt_str(s: Option<&'static str>) -> Option<Seq<char>> {
    match s {
        Some(v) => Some(v@),
        None => None,
    }
}

/// A style as plain values: id, label, kind, model, profile, image asset, video asset.
pub open spec fn style_view(s: WatermarkStyle) -> (Seq<char>, Seq<char>, Seq<char>, Seq<char>, Seq<char>, Option<Seq<char>>, Option<Seq<char>>) {
    (s.id@, s.label@, s.kind@, s.model@, s.profile@, opt_str(s.image_file), opt_str(s.video_file))
}

/// The catalog of watermark styles, in the app's order.
pub open spec fn styles_spec() -> Seq<(Seq<char>, Seq<char>, Seq<char>, Seq<char>, Seq<char>, Option<Seq<char>>, Option<Seq<char>>)> {
    seq![
        ("luna-ultra-cn"@, "中文"@, "mark"@, "Luna Ultra"@, "Leica-CN"@, Some("ic_watermark_luna_ultra_image_cn.png"@), Some("ic_watermark_luna_ultra_cn.png"@)),
        ("luna-ultra"@, "标准"@, "mark"@, "Luna Ultra"@, "Leica"@, Some("ic_watermark_luna_ultra_image.png"@), Some("ic_watermark_luna_ultra.png"@)),
        ("luna-ultra-zstyle-cn"@, "外框水印（中文）"@, "frame"@, "Luna Ultra"@, "ZStyle-CN"@, Some("ic_watermark_luna_ultra_cn.png"@), None),
        ("luna-ultra-zstyle"@, "外框水印"@, "frame"@, "Luna Ultra"@, "ZStyle"@, Some("ic_watermark_luna_ultra.png"@), None),
    ]
}

/// The watermark styles of the official app.
pub fn styles() -> (r: Vec<WatermarkStyle>)
    ensures
        r@.len() == styles_spec().len(),
        forall|i: int| 0 <= i < r@.len() ==> style_view(#[trigger] r@[i]) == styles_spec()[i],
{
    let mut v: Vec<WatermarkStyle> = Vec::new();
    v.push(WatermarkStyle {
        id: "luna-ultra-cn",
        label: "中文",
        kind: "mark",
        model: "Luna Ultra",
        profile: "Leica-CN",
        image_file: Some("ic_watermark_luna_ultra_image_cn.png"),
        video_file: Some("ic_watermark_luna_ultra_cn.png"),
    });
    v.push(WatermarkStyle {
        id: "luna-ultra",
        label: "标准",
        kind: "mark",
        model: "Luna Ultra",
        profile: "Leica",
        image_file: Some("ic_watermark_luna_ultra_image.png"),
        video_file: Some("ic_watermark_luna_ultra.png"),
    });
    v.push(WatermarkStyle {
        id: "luna-ultra-zstyle-cn",
        label: "外框水印（中文）",
        kind: "frame",
        model: "Luna Ultra",
        profile: "ZStyle-CN",
        image_file: Some("ic_watermark_luna_ultra_cn.png"),
        video_file: None,
    });
    v.push(WatermarkStyle {
        id: "luna-ultra-zstyle",
        label: "外框水印",
        kind: "frame",
        model: "Luna Ultra",
        profile: "ZStyle",
        image_file: Some("ic_watermark_luna_ultra.png"),
        video_file: None,
    });
    v
}

/// A frame background as plain values: id, label, start colour, end colour.
pub open spec fn background_view(b: FrameBackgroundStyle) -> (Seq<char>, Seq<char>, Seq<char>, Seq<char>) {
    (b.id@, b.label@, b.start_hex@, b.end_hex@)
}

/// The catalog of frame backgrounds, in the app's order.
pub open spec fn frame_backgrounds_spec() -> Seq<(Seq<char>, Seq<char>, Seq<char>, Seq<char>)> {
    seq![
        ("black"@, "黑色"@, "#000000"@, "#000000"@),
        ("white"@, "白色"@, "#f4f4f2"@, "#f4f4f2"@),
        ("photo-dark"@, "照片深色"@, "#28353d"@, "#28353d"@),
        ("photo-light"@, "照片浅色"@, "#dce4e7"@, "#dce4e7"@),
        ("photo-gradient"@, "照片渐变"@, "#263d53"@, "#593848"@),
    ]
}

/// The frame backgrounds of the official app.
pub fn frame_backgrounds() -> (r: Vec<FrameBackgroundStyle>)
    ensures
        r@.len() == frame_backgrounds_spec().len(),
        forall|i: int| 0 <= i < r@.len() ==> background_view(#[trigger] r@[i]) == frame_backgrounds_spec()[i],
{
    let mut v: Vec<FrameBackgroundStyle> = Vec::new();
    v.push(FrameBackgroundStyle { id: "black", label: "黑色", start_hex: "#000000", end_hex: "#000000" });
    v.push(FrameBackgroundStyle { id: "white", label: "白色", start_hex: "#f4f4f2", end_hex: "#f4f4f2" });
    v.push(FrameBackgroundStyle {
        id: "photo-dark",
        label: "照片深色",
        start_hex: "#28353d",
        end_hex: "#28353d",
    });
    v.push(FrameBackgroundStyle {
        id: "photo-light",
        label: "照片浅色",
        start_hex: "#dce4e7",
        end_hex: "#dce4e7",
    });
    v.push(FrameBackgroundStyle {
        id: "photo-gradient",
        label: "照片渐变",
        start_hex: "#263d53",
        end_hex: "#593848",
    });
    v
}

/// Why a watermark cannot be made.
#[derive(Debug, Clone, Copy, PartialEq, Eq, Structural)]
pub enum WatermarkError {
    /// No style has the id asked for.
    UnknownStyle,
    /// The style has no asset for this kind of media.
    NoAsset,
    /// The frame style is for photos only.
    FrameOnVideo,
    /// The file extension is no picture and no video the tool handles.
    UnsupportedMedia,
}

impl WatermarkError {
    /// The message shown to the user (the caller adds the id or extension where it belongs).
    pub fn message(self) -> (r: &'static str)
        ensures
            match self {
                WatermarkError::UnknownStyle => r@ == "未知水印样式："@,
                WatermarkError::NoAsset => r@ == "此水印没有对应的官方资源"@,
                WatermarkError::FrameOnVideo => r@ == "外框水印是 Insta360 App 的照片水印，不能用于视频"@,
                WatermarkError::UnsupportedMedia => r@ == "不支持的媒体类型："@,
            },
    {
        match self {
            WatermarkError::UnknownStyle => "未知水印样式：",
            WatermarkError::NoAsset => "此水印没有对应的官方资源",
            WatermarkError::FrameOnVideo => "外框水印是 Insta360 App 的照片水印，不能用于视频",
            WatermarkError::UnsupportedMedia => "不支持的媒体类型：",
        }
    }
}

/// The first style of the catalog with id `id`.
pub open spec fn style_index(id: Seq<char>) -> Option<int> {
    if id == styles_spec()[0].0 {
        Some(0)
    } else if id == styles_spec()[1].0 {
        Some(1)
    } else if id == styles_spec()[2].0 {
        Some(2)
    } else if id == styles_spec()[3].0 {
        Some(3)
    } else {
        None
    }
}

/// The style with id `id`.
pub fn style_for(id: &str) -> (r: Result<WatermarkStyle, WatermarkError>)
    ensures
        match style_index(id@) {
            Some(i) => (r matches Ok(s) && style_view(s) == styles_spec()[i]),
            None => r == Err::<WatermarkStyle, WatermarkError>(WatermarkError::UnknownStyle),
        },
{
    let all = styles();
    let n = all.len();
    let mut i: usize = 0;
    while i < n
        invariant
            n == all@.len(),
            n == 4,
            i <= n,
            forall|k: int| 0 <= k < all@.len() ==> style_view(#[trigger] all@[k]) == styles_spec()[k],
            forall|k: int| 0 <= k < i ==> id@ != styles_spec()[k].0,
        decreases n - i,
    {
        if str_eq(all[i].id, id) {
            assert(style_view(all@[i as int]) == styles_spec()[i as int]);
            return Ok(all[i]);
        }
        assert(style_view(all@[i as int]) == styles_spec()[i as int]);
        i = i + 1;
    }
    Err(WatermarkError::UnknownStyle)
}

/// Whether a watermark goes on a picture or on a video.
#[derive(Debug, Clone, Copy, PartialEq, Eq, Structural)]
pub enum MediaKind {
    Image,
    Video,
}

/// The asset of a style for a kind of media.
pub fn style_asset(style: WatermarkStyle, kind: MediaKind) -> (r: Result<&'static str, WatermarkError>)
    ensures
        match (if kind == MediaKind::Image { opt_str(style.image_file) } else { opt_str(style.video_file) }) {
            Some(f) => (r matches Ok(s) && s@ == f),
            None => r == Err::<&'static str, WatermarkError>(WatermarkError::NoAsset),
        },
{
    let file = match kind {
        MediaKind::Image => style.image_file,
        MediaKind::Video => style.video_file,
    };
    match file {
        Some(f) => Ok(f),
        None => Err(WatermarkError::NoAsset),
    }
}

/// The placement names of the app's tables for the user's position names.
pub open spec fn app_position_spec(position: Seq<char>) -> Option<Seq<char>> {
    if position == "top-left"@ {
        Some("TopLeft"@)
    } else if position == "top-right"@ {
        Some("TopRight"@)
    } else if position == "bottom-left"@ {
        Some("BottomLeft"@)
    } else if position == "bottom-center"@ {
        Some("BottomCenter"@)
    } else if position == "bottom-right"@ {
        Some("BottomRight"@)
    } else {
        None
    }
}

/// The placement name of the app's tables for a position name.
pub fn app_position(position: &str) -> (r: Option<&'static str>)
    ensures
        match app_position_spec(position@) {
            Some(p) => (r matches Some(s) && s@ == p),
            None => r is None,
        },
{
    if str_eq(position, "top-left") {
        Some("TopLeft")
    } else if str_eq(position, "top-right") {
        Some("TopRight")
    } else if str_eq(position, "bottom-left") {
        Some("BottomLeft")
    } else if str_eq(position, "bottom-center") {
        Some("BottomCenter")
    } else if str_eq(position, "bottom-right") {
        Some("BottomRight")
    } else {
        None
    }
}

/// The rendering a watermark request needs.
#[derive(Debug, Clone, Copy, PartialEq, Eq, Structural)]
pub enum WatermarkRendering {
    /// The mark drawn over a picture.
    ImageMark,
    /// The frame drawn around a picture.
    Frame,
    /// The mark drawn over a video.
    VideoMark,
}

/// Whether a lower-case extension is a picture the tool handles.
pub open spec fn is_picture_extension(ext: Seq<char>) -> bool {
    ext == "jpg"@ || ext == "jpeg"@ || ext == "png"@ || ext == "webp"@
}

/// Whether a lower-case extension is a video the tool handles.
pub open spec fn is_video_extension(ext: Seq<char>) -> bool {
    ext == "mp4"@ || ext == "mov"@ || ext == "mkv"@ || ext == "avi"@ || ext == "m4v"@
}

/// The rendering for a style of kind `style_kind` on a file with lower-case extension `ext`.
pub open spec fn rendering_spec(style_kind: Seq<char>, ext: Seq<char>) -> Result<WatermarkRendering, WatermarkError> {
    if is_picture_extension(ext) {
        if style_kind == "frame"@ {
            Ok(WatermarkRendering::Frame)
        } else {
            Ok(WatermarkRendering::ImageMark)
        }
    } else if is_video_extension(ext) {
        if style_kind == "frame"@ {
            Err(WatermarkError::FrameOnVideo)
        } else {
            Ok(WatermarkRendering::VideoMark)
        }
    } else {
        Err(WatermarkError::UnsupportedMedia)
    }
}

/// The rendering follows the file's extension: a picture (`jpg`, `jpeg`, `png`, `webp`) gets
/// the frame under a frame style and the image mark under any other; a video (`mp4`, `mov`,
/// `mkv`, `avi`, `m4v`) gets the video mark, and a frame style is refused for it; any other
/// extension is refused as unsupported, whatever the style.
pub proof fn lemma_rendering_by_extension(style_kind: Seq<char>, ext: Seq<char>)
    ensures
        (ext == "jpg"@ || ext == "jpeg"@ || ext == "png"@ || ext == "webp"@) ==> rendering_spec(style_kind, ext)
            == (if style_kind == "frame"@ {
            Ok::<WatermarkRendering, WatermarkError>(WatermarkRendering::Frame)
        } else {
            Ok::<WatermarkRendering, WatermarkError>(WatermarkRendering::ImageMark)
        }),
        (ext == "mp4"@ || ext == "mov"@ || ext == "mkv"@ || ext == "avi"@ || ext == "m4v"@) ==> rendering_spec(
            style_kind,
            ext,
        ) == (if style_kind == "frame"@ {
            Err::<WatermarkRendering, WatermarkError>(WatermarkError::FrameOnVideo)
        } else {
            Ok::<WatermarkRendering, WatermarkError>(WatermarkRendering::VideoMark)
        }),
        !(ext == "jpg"@ || ext == "jpeg"@ || ext == "png"@ || ext == "webp"@ || ext == "mp4"@ || ext
            == "mov"@ || ext == "mkv"@ || ext == "avi"@ || ext == "m4v"@) ==> rendering_spec(style_kind, ext)
            == Err::<WatermarkRendering, WatermarkError>(WatermarkError::UnsupportedMedia),
{
    reveal_strlit("jpg");
    reveal_strlit("jpeg");
    reveal_strlit("png");
    reveal_strlit("webp");
    reveal_strlit("mp4");
    reveal_strlit("mov");
    reveal_strlit("mkv");
    reveal_strlit("avi");
    reveal_strlit("m4v");
    if ext == "mp4"@ || ext == "mov"@ || ext == "mkv"@ || ext == "avi"@ || ext == "m4v"@ {
        assert(ext[0] == 'm' || ext[0] == 'a');
        assert(!is_picture_extension(ext)) by {
            if is_picture_extension(ext) {
                assert(ext[0] == 'j' || ext[0] == 'p' || ext[0] == 'w');
            }
        }
    }
}

/// Chooses the rendering for a style on a file with the given lower-case extension.
pub fn choose_rendering(style: WatermarkStyle, ext: &str) -> (r: Result<WatermarkRendering, WatermarkError>)
    ensures
        r == rendering_spec(style.kind@, ext@),
{
    let frame = str_eq(style.kind, "frame");
    if str_eq(ext, "jpg") || str_eq(ext, "jpeg") || str_eq(ext, "png") || str_eq(ext, "webp") {
        if frame {
            Ok(WatermarkRendering::Frame)
        } else {
            Ok(WatermarkRendering::ImageMark)
        }
    } else if str_eq(ext, "mp4") || str_eq(ext, "mov") || str_eq(ext, "mkv") || str_eq(ext, "avi")
        || str_eq(ext, "m4v") {
        if frame {
            Err(WatermarkError::FrameOnVideo)
        } else {
            Ok(WatermarkRendering::VideoMark)
        }
    } else {
        Err(WatermarkError::UnsupportedMedia)
    }
}

/// A watermark export request: the files, the position name, the style, the frame background and
/// the moment preset, with an optional moment picture.
#[derive(Debug, Clone)]
pub struct WatermarkOptions {
    pub input: String,
    pub output: String,
    pub position: String,
    pub style: String,
    pub frame_background: String,
    pub moment_preset: String,
    pub moment_image: Option<String>,
}

/// What an export request with style id `style` gives for a file with lower-case extension `ext`.
pub open spec fn export_plan_spec(style: Seq<char>, ext: Seq<char>) -> Result<WatermarkRendering, WatermarkError> {
    match style_index(style) {
        None => Err(WatermarkError::UnknownStyle),
        Some(i) => rendering_spec(styles_spec()[i].2, ext),
    }
}

impl WatermarkOptions {
    /// The style of the request and the rendering it needs for a file with lower-case extension
    /// `ext`: the style is looked up first, then the extension decides.
    pub fn export_plan(&self, ext: &str) -> (r: Result<(WatermarkStyle, WatermarkRendering), WatermarkError>)
        ensures
            match export_plan_spec(self.style@, ext@) {
                Ok(k) => (r matches Ok((s, k2)) && k2 == k && Some(style_view(s))
                    == (match style_index(self.style@) { Some(i) => Some(styles_spec()[i]), None => None })),
                Err(e) => r == Err::<(WatermarkStyle, WatermarkRendering), WatermarkError>(e),
            },
    {
        let style = match style_for(self.style.as_str()) {
            Ok(s) => s,
            Err(e) => return Err(e),
        };
        match choose_rendering(style, ext) {
            Ok(k) => Ok((style, k)),
            Err(e) => Err(e),
        }
    }
}

/// The average colour of `count` pixels whose channels sum to `sum` (a count of zero counts as
/// one); each channel is cut to its low eight bits.
pub fn average_rgb(sum: [u64; 3], count: u64) -> (r: [u8; 3])
    ensures
        r@ == seq![
            ((sum@[0] / (if count == 0 { 1 } else { count })) % 256) as u8,
            ((sum@[1] / (if count == 0 { 1 } else { count })) % 256) as u8,
            ((sum@[2] / (if count == 0 { 1 } else { count })) % 256) as u8,
        ],
{
    let count = if count == 0 {
        1
    } else {
        count
    };
    let a = sum[0] / count;
    let b = sum[1] / count;
    let c = sum[2] / count;
    let r = [(a % 256) as u8, (b % 256) as u8, (c % 256) as u8];
    assert(r@ =~= seq![(a % 256) as u8, (b % 256) as u8, (c % 256) as u8]);
    r
}

/// What the EXIF data of a picture gives the frame style.
#[derive(Debug, Clone)]
pub struct FrameMetadata {
    pub aperture: Option<String>,
    pub exposure: Option<String>,
    pub iso: Option<String>,
    pub timestamp: Option<String>,
}

impl FrameMetadata {
    /// Aperture, exposure and ISO, when all three are known.
    pub fn capture_segments(&self) -> (r: Option<Vec<String>>)
        ensures
            (self.aperture is Some && self.exposure is Some && self.iso is Some) <==> r is Some,
            r matches Some(v) ==> (v@.len() == 3 && v@[0] == self.aperture->0 && v@[1] == self.exposure->0
                && v@[2] == self.iso->0),
    {
        match (&self.aperture, &self.exposure, &self.iso) {
            (Some(a), Some(e), Some(i)) => {
                let mut v: Vec<String> = Vec::new();
                v.push(a.clone());
                v.push(e.clone());
                v.push(i.clone());
                Some(v)
            },
            _ => None,
        }
    }
}

/// Whether `b` is an ASCII digit.
pub open spec fn is_digit_byte(b: u8) -> bool {
    0x30 <= b <= 0x39
}

/// The index of the first byte at or after `i` that is no digit, if there is one.
pub open spec fn first_non_digit(b: Seq<u8>, i: int) -> Option<int>
    decreases b.len() - i,
{
    if i < 0 || i >= b.len() {
        None
    } else if !is_digit_byte(b[i]) {
        Some(i)
    } else {
        first_non_digit(b, i + 1)
    }
}

/// The value of the decimal digits `b[i..j]`.
pub open spec fn decimal_value(b: Seq<u8>, i: int, j: int) -> nat
    decreases j - i,
{
    if j <= i {
        0
    } else {
        decimal_value(b, i, j - 1) * 10 + (b[j - 1] - 0x30) as nat
    }
}

/// Reading a line of video stream information from `index` on: at each digit, a width that
/// runs to an `x`, then a height; both parse as 32-bit numbers and are at least 64. A width
/// that runs to the end of the line, or a width or height that does not parse, ends the search
/// with nothing.
pub open spec fn dimensions_from(b: Seq<u8>, index: int) -> Option<(u32, u32)>
    decreases b.len() - index,
{
    if index < 0 || index >= b.len() {
        None
    } else if !is_digit_byte(b[index]) {
        dimensions_from(b, index + 1)
    } else {
        match first_non_digit(b, index) {
            None => None,
            Some(end_width) => if b[end_width] != 0x78 {
                dimensions_from(b, index + 1)
            } else {
                let hs = end_width + 1;
                let he = match first_non_digit(b, hs) {
                    Some(e) => e,
                    None => b.len() as int,
                };
                let w = decimal_value(b, index, end_width);
                let h = decimal_value(b, hs, he);
                if w > u32::MAX || he <= hs || h > u32::MAX {
                    None
                } else if w >= 64 && h >= 64 {
                    Some((w as u32, h as u32))
                } else {
                    dimensions_from(b, index + 1)
                }
            },
        }
    }
}

proof fn lemma_first_non_digit(b: Seq<u8>, i: int)
    requires
        0 <= i <= b.len(),
    ensures
        first_non_digit(b, i) matches Some(e) ==> (i <= e < b.len() && !is_digit_byte(b[e])),
        first_non_digit(b, i) matches Some(e) ==> forall|k: int| i <= k < e ==> is_digit_byte(b[k]),
        first_non_digit(b, i) is None ==> forall|k: int| i <= k < b.len() ==> is_digit_byte(b[k]),
    decreases b.len() - i,
{
    if i < b.len() && is_digit_byte(b[i]) {
        lemma_first_non_digit(b, i + 1);
    }
}

/// The end of the run of digits from `i`, or `None` when it runs to the end.
fn digits_end(b: &[u8], i: usize) -> (r: Option<usize>)
    requires
        i <= b@.len(),
    ensures
        match first_non_digit(b@, i as int) {
            Some(e) => r == Some(e as usize),
            None => r is None,
        },
{
    let n = b.len();
    let mut j = i;
    while j < n && 0x30 <= b[j] && b[j] <= 0x39
        invariant
            n == b@.len(),
            i <= j <= n,
            first_non_digit(b@, i as int) == first_non_digit(b@, j as int),
        decreases n - j,
    {
        j = j + 1;
    }
    if j < n {
        Some(j)
    } else {
        None
    }
}

/// The value of the digits `b[i..j]`, or `None` when it exceeds the 32-bit range.
fn decimal_u32(b: &[u8], i: usize, j: usize) -> (r: Option<u32>)
    requires
        i <= j <= b@.len(),
        forall|k: int| i <= k < j ==> is_digit_byte(b@[k]),
    ensures
        decimal_value(b@, i as int, j as int) <= u32::MAX ==> r == Some(decimal_value(b@, i as int, j as int) as u32),
        decimal_value(b@, i as int, j as int) > u32::MAX ==> r is None,
{
    let mut v: u64 = 0;
    let mut k = i;
    while k < j
        invariant
            i <= k <= j <= b@.len(),
            forall|q: int| i <= q < j ==> is_digit_byte(b@[q]),
            v == decimal_value(b@, i as int, k as int),
            v <= u32::MAX,
        decreases j - k,
    {
        let next = v * 10 + (b[k] - 0x30) as u64;
        if next > 0xffff_ffff {
            proof {
                lemma_decimal_grows(b@, i as int, k as int + 1, j as int);
            }
            return None;
        }
        v = next;
        k = k + 1;
    }
    Some(v as u32)
}

proof fn lemma_decimal_grows(b: Seq<u8>, i: int, k: int, j: int)
    requires
        i <= k <= j,
        forall|q: int| i <= q < j ==> is_digit_byte(b[q]),
    ensures
        decimal_value(b, i, k) <= decimal_value(b, i, j),
    decreases j - k,
{
    if k < j {
        lemma_decimal_grows(b, i, k, j - 1);
    }
}

/// The width and height of a video stream as FFmpeg prints them, such as `3840x2160`.
pub fn parse_video_dimensions(line: &str) -> (r: Option<(u32, u32)>)
    ensures
        r == dimensions_from(encode_utf8(line@), 0),
{
    let b = line.as_bytes();
    let n = b.len();
    let mut index: usize = 0;
    while index < n
        invariant
            n == b@.len(),
            b@ == encode_utf8(line@),
            index <= n,
            dimensions_from(b@, 0) == dimensions_from(b@, index as int),
        decreases n - index,
    {
        if !(0x30 <= b[index] && b[index] <= 0x39) {
            index = index + 1;
            continue;
        }
        proof {
            lemma_first_non_digit(b@, index as int);
        }
        let end_width = match digits_end(b, index) {
            None => return None,
            Some(e) => e,
        };
        if b[end_width] != 0x78 {
            index = index + 1;
            continue;
        }
        let hs = end_width + 1;
        proof {
            lemma_first_non_digit(b@, hs as int);
        }
        let he = match digits_end(b, hs) {
            Some(e) => e,
            None => n,
        };
        let w = match decimal_u32(b, index, end_width) {
            None => return None,
            Some(v) => v,
        };
        if he <= hs {
            return None;
        }
        let h = match decimal_u32(b, hs, he) {
            None => return None,
            Some(v) => v,
        };
        if w >= 64 && h >= 64 {
            return Some((w, h));
        }
        index = index + 1;
    }
    None
}

/// The index of the first character at or after `i` that is no white space, or the length.
pub open spec fn skip_whitespace(s: Seq<char>, i: int) -> int
    decreases s.len() - i,
{
    if i < 0 || i >= s.len() {
        s.len() as int
    } else if is_whitespace_spec(s[i]) {
        skip_whitespace(s, i + 1)
    } else {
        i
    }
}

/// The index of the first white space character at or after `i`, or the length.
pub open spec fn token_end(s: Seq<char>, i: int) -> int
    decreases s.len() - i,
{
    if i < 0 || i >= s.len() {
        s.len() as int
    } else if is_whitespace_spec(s[i]) {
        i
    } else {
        token_end(s, i + 1)
    }
}

/// The `n`-th white-space separated word of `s` from `i` on (what `split_whitespace` yields).
pub open spec fn word_from(s: Seq<char>, i: int, n: nat) -> Option<Seq<char>>
    decreases n,
{
    let st = skip_whitespace(s, i);
    if st >= s.len() {
        None
    } else {
        let e = token_end(s, st);
        if n == 0 {
            Some(s.subrange(st, e))
        } else {
            word_from(s, e, (n - 1) as nat)
        }
    }
}

proof fn lemma_word_bounds(s: Seq<char>, i: int)
    requires
        0 <= i <= s.len(),
    ensures
        i <= skip_whitespace(s, i) <= s.len(),
        skip_whitespace(s, i) <= token_end(s, skip_whitespace(s, i)) <= s.len(),
    decreases s.len() - i,
{
    if i < s.len() && is_whitespace_spec(s[i]) {
        lemma_word_bounds(s, i + 1);
    } else {
        lemma_token_end(s, i);
    }
}

proof fn lemma_token_end(s: Seq<char>, i: int)
    requires
        0 <= i <= s.len(),
    ensures
        i <= token_end(s, i) <= s.len(),
    decreases s.len() - i,
{
    if i < s.len() && !is_whitespace_spec(s[i]) {
        lemma_token_end(s, i + 1);
    }
}

/// The `n`-th white-space separated word of `s` from `i` on.
fn word_at(s: &[char], i: usize, n: usize) -> (r: Option<Vec<char>>)
    requires
        i <= s@.len(),
    ensures
        match word_from(s@, i as int, n as nat) {
            Some(w) => (r matches Some(v) && v@ == w),
            None => r is None,
        },
    decreases n,
{
    let len = s.len();
    let mut st = i;
    while st < len && is_whitespace(s[st])
        invariant
            len == s@.len(),
            i <= st <= len,
            skip_whitespace(s@, i as int) == skip_whitespace(s@, st as int),
        decreases len - st,
    {
        st = st + 1;
    }
    if st >= len {
        return None;
    }
    let mut e = st;
    while e < len && !is_whitespace(s[e])
        invariant
            len == s@.len(),
            st <= e <= len,
            token_end(s@, st as int) == token_end(s@, e as int),
        decreases len - e,
    {
        e = e + 1;
    }
    if n == 0 {
        Some(slice_chars(s, st, e))
    } else {
        word_at(s, e, n - 1)
    }
}

/// The value of the decimal digits `s`.
pub open spec fn decimal_of(s: Seq<char>) -> nat
    decreases s.len(),
{
    if s.len() == 0 {
        0
    } else {
        decimal_of(s.drop_last()) * 10 + (s.last() as u32 - 48) as nat
    }
}

/// The month a date piece names, as `str::parse::<usize>` reads it (digits after an optional
/// `+`), when it lies in 1..=12.
pub open spec fn month_number(s: Seq<char>) -> Option<nat> {
    let digits = if s.len() > 0 && s[0] == '+' {
        s.subrange(1, s.len() as int)
    } else {
        s
    };
    if digits.len() > 0 && crate::text::all_ascii_digits(digits) && 1 <= decimal_of(digits) <= 12 {
        Some(decimal_of(digits))
    } else {
        None
    }
}

/// The English abbreviations of the months.
pub open spec fn month_name(m: nat) -> Seq<char> {
    if m == 1 { "Jan"@ } else if m == 2 { "Feb"@ } else if m == 3 { "Mar"@ } else if m == 4 {
        "Apr"@
    } else if m == 5 { "May"@ } else if m == 6 { "Jun"@ } else if m == 7 { "Jul"@ } else if m == 8 {
        "Aug"@
    } else if m == 9 { "Sep"@ } else if m == 10 { "Oct"@ } else if m == 11 { "Nov"@ } else {
        "Dec"@
    }
}

/// The English month abbreviations, January to December.
pub open spec fn calendar_months() -> Seq<Seq<char>> {
    seq![
        "Jan"@, "Feb"@, "Mar"@, "Apr"@, "May"@, "Jun"@, "Jul"@, "Aug"@, "Sep"@, "Oct"@, "Nov"@, "Dec"@,
    ]
}

/// Month `m` (1 to 12) is printed as the `m`-th English abbreviation in calendar order; the
/// twelve names are three letters each and all different.
pub proof fn lemma_month_names()
    ensures
        forall|m: nat| 1 <= m <= 12 ==> #[trigger] month_name(m) == calendar_months()[m - 1],
        forall|m: nat| 1 <= m <= 12 ==> #[trigger] month_name(m).len() == 3,
        forall|i: nat, j: nat| 1 <= i < j <= 12 ==> #[trigger] month_name(i) != #[trigger] month_name(j),
{
    reveal_strlit("Jan");
    reveal_strlit("Feb");
    reveal_strlit("Mar");
    reveal_strlit("Apr");
    reveal_strlit("May");
    reveal_strlit("Jun");
    reveal_strlit("Jul");
    reveal_strlit("Aug");
    reveal_strlit("Sep");
    reveal_strlit("Oct");
    reveal_strlit("Nov");
    reveal_strlit("Dec");
    assert forall|i: nat, j: nat| 1 <= i < j <= 12 implies #[trigger] month_name(i) != #[trigger] month_name(j) by {
        let a = month_name(i);
        let b = month_name(j);
        assert(a[0] != b[0] || a[1] != b[1] || a[2] != b[2]);
    }
}

/// The `n`-th `:`-separated piece of `s`.
pub open spec fn colon_piece(s: Seq<char>, n: nat) -> Option<Seq<char>> {
    crate::text::split_piece(s, ':', n)
}

/// The offset printed after `UTC`: the given one trimmed, or `+08:00` when none or blank.
pub open spec fn offset_text(offset: Option<Seq<char>>) -> Seq<char> {
    match offset {
        Some(o) => if trim_spec(o).len() > 0 {
            trim_spec(o)
        } else {
            "+08:00"@
        },
        None => "+08:00"@,
    }
}

/// The capture time of an EXIF date such as `2026:06:18 20:08:37` as the frame style prints
/// it, `18-Jun-2026 20:08 UTC+08:00`: nothing when the date or time word, the month, day, hour
/// or minute is missing, or the month is not 1 to 12.
pub open spec fn exif_timestamp_spec(datetime: Option<Seq<char>>, offset: Option<Seq<char>>) -> Option<Seq<char>> {
    match datetime {
        None => None,
        Some(dt) => match (word_from(dt, 0, 0), word_from(dt, 0, 1)) {
            (Some(date), Some(time)) => match (
                colon_piece(date, 0),
                colon_piece(date, 1),
                colon_piece(date, 2),
                colon_piece(time, 0),
                colon_piece(time, 1),
            ) {
                (Some(year), Some(month), Some(day), Some(hour), Some(minute)) => match month_number(month) {
                    Some(m) => Some(
                        day + "-"@ + month_name(m) + "-"@ + year + " "@ + hour + ":"@ + minute + " UTC"@
                            + offset_text(offset),
                    ),
                    None => None,
                },
                _ => None,
            },
            _ => None,
        },
    }
}

/// The month a date piece names.
fn parse_month(s: &[char]) -> (r: Option<u64>)
    ensures
        match month_number(s@) {
            Some(m) => r == Some(m as u64),
            None => r is None,
        },
{
    let n = s.len();
    let start: usize = if n > 0 && s[0] == '+' {
        1
    } else {
        0
    };
    let ghost digits = s@.subrange(start as int, n as int);
    assert(digits =~= (if s@.len() > 0 && s@[0] == '+' { s@.subrange(1, s@.len() as int) } else { s@ }));
    if start >= n {
        return None;
    }
    let mut v: u64 = 0;
    let mut k = start;
    while k < n
        invariant
            start <= k <= n,
            n == s@.len(),
            digits == s@.subrange(start as int, n as int),
            digits == (if s@.len() > 0 && s@[0] == '+' { s@.subrange(1, s@.len() as int) } else { s@ }),
            crate::text::all_ascii_digits(s@.subrange(start as int, k as int)),
            v == (if decimal_of(s@.subrange(start as int, k as int)) > 12 { 13 } else { decimal_of(s@.subrange(start as int, k as int)) }),
        decreases n - k,
    {
        let c = s[k];
        if !('0' <= c && c <= '9') {
            assert(digits[k - start] == c);
            assert(!crate::text::is_ascii_digit(digits[k - start]));
            return None;
        }
        let ghost pre = s@.subrange(start as int, k as int);
        let ghost next = s@.subrange(start as int, k + 1);
        assert(next.drop_last() =~= pre);
        let d = (c as u64) - 48;
        v = if v > 12 {
            13
        } else if v * 10 + d > 12 {
            13
        } else {
            v * 10 + d
        };
        k = k + 1;
        assert(crate::text::all_ascii_digits(next));
    }
    if 1 <= v && v <= 12 {
        Some(v)
    } else {
        None
    }
}

/// The abbreviation of month `m`.
fn month_abbreviation(m: u64) -> (r: &'static str)
    requires
        1 <= m <= 12,
    ensures
        r@ == month_name(m as nat),
{
    if m == 1 { "Jan" } else if m == 2 { "Feb" } else if m == 3 { "Mar" } else if m == 4 { "Apr" }
    else if m == 5 { "May" } else if m == 6 { "Jun" } else if m == 7 { "Jul" } else if m == 8 {
        "Aug"
    } else if m == 9 { "Sep" } else if m == 10 { "Oct" } else if m == 11 { "Nov" } else { "Dec" }
}

/// The capture time of EXIF date and offset texts as the frame style prints it.
pub fn format_exif_timestamp(datetime: Option<&str>, offset: Option<&str>) -> (r: Option<String>)
    ensures
        match exif_timestamp_spec(
            match datetime { Some(d) => Some(d@), None => None },
            match offset { Some(o) => Some(o@), None => None },
        ) {
            Some(t) => (r matches Some(s) && s@ == t),
            None => r is None,
        },
{
    let dt = match datetime {
        None => return None,
        Some(d) => chars_of(d),
    };
    let date = match word_at(dt.as_slice(), 0, 0) {
        None => return None,
        Some(w) => w,
    };
    let time = match word_at(dt.as_slice(), 0, 1) {
        None => return None,
        Some(w) => w,
    };
    let year = match crate::text::split_piece_chars(date.as_slice(), ':', 0) {
        None => return None,
        Some(p) => p,
    };
    let month = match crate::text::split_piece_chars(date.as_slice(), ':', 1) {
        None => return None,
        Some(p) => p,
    };
    let day = match crate::text::split_piece_chars(date.as_slice(), ':', 2) {
        None => return None,
        Some(p) => p,
    };
    let hour = match crate::text::split_piece_chars(time.as_slice(), ':', 0) {
        None => return None,
        Some(p) => p,
    };
    let minute = match crate::text::split_piece_chars(time.as_slice(), ':', 1) {
        None => return None,
        Some(p) => p,
    };
    let m = match parse_month(month.as_slice()) {
        None => return None,
        Some(v) => v,
    };
    let mut out: Vec<char> = Vec::new();
    push_chars(&mut out, day.as_slice());
    push_str(&mut out, "-");
    push_str(&mut out, month_abbreviation(m));
    push_str(&mut out, "-");
    push_chars(&mut out, year.as_slice());
    push_str(&mut out, " ");
    push_chars(&mut out, hour.as_slice());
    push_str(&mut out, ":");
    push_chars(&mut out, minute.as_slice());
    push_str(&mut out, " UTC");
    let ghost before = out@;
    let trimmed_offset: Vec<char> = match offset {
        Some(o) => {
            let oc = chars_of(o);
            trim_chars(oc.as_slice())
        },
        None => Vec::new(),
    };
    if trimmed_offset.len() > 0 {
        push_chars(&mut out, trimmed_offset.as_slice());
    } else {
        push_str(&mut out, "+08:00");
    }
    Some(string_from_chars(out.as_slice()))
}

} // verus!

verus! {

/// What `Path::file_stem` gives for a path written as text.
pub uninterp spec fn path_file_stem_spec(path: Seq<char>) -> Option<Seq<char>>;

/// What `Path::extension` gives for a path written as text.
pub uninterp spec fn path_extension_spec(path: Seq<char>) -> Option<Seq<char>>;

/// Calls `Path::file_stem` on the path written as `path`; the result is named, not stated. The
/// stem of a path made from text is a piece of that text, so it is always text again.
#[verifier::external_body]
fn path_file_stem(path: &str) -> (r: Option<String>)
    ensures
        match r {
            Some(s) => path_file_stem_spec(path@) == Some(s@),
            None => path_file_stem_spec(path@) is None,
        },
{
    std::path::Path::new(path).file_stem().and_then(|s| s.to_str()).map(|s| s.to_string())
}

/// Calls `Path::extension` on the path written as `path`; the result is named, not stated.
#[verifier::external_body]
fn path_extension(path: &str) -> (r: Option<String>)
    ensures
        match r {
            Some(s) => path_extension_spec(path@) == Some(s@),
            None => path_extension_spec(path@) is None,
        },
{
    std::path::Path::new(path).extension().and_then(|s| s.to_str()).map(|s| s.to_string())
}

/// The extension a watermarked copy gets, from the input's lower-case extension: `mp4` for a
/// video, the same for PNG and WebP, else `jpg`.
pub open spec fn output_extension_spec(ext: Seq<char>) -> Seq<char> {
    if is_video_extension(ext) {
        "mp4"@
    } else if ext == "png"@ || ext == "webp"@ {
        ext
    } else {
        "jpg"@
    }
}

/// The file name offered for the watermarked copy of `input`: its stem (`Luna` when it has
/// none), `_watermarked`, and the output extension for its lower-cased extension (`jpg` when it
/// has none).
pub open spec fn watermark_output_name_spec(input: Seq<char>) -> Seq<char> {
    let stem = match path_file_stem_spec(input) {
        Some(s) => if s.len() > 0 {
            s
        } else {
            "Luna"@
        },
        None => "Luna"@,
    };
    let ext = match path_extension_spec(input) {
        Some(e) => e.map_values(|c: char| ascii_lower(c)),
        None => "jpg"@,
    };
    stem + "_watermarked."@ + output_extension_spec(ext)
}

/// The file name offered for the watermarked copy of `input`.
pub fn watermark_output_name(input: &str) -> (r: String)
    ensures
        r@ == watermark_output_name_spec(input@),
{
    let mut out: Vec<char> = Vec::new();
    match path_file_stem(input) {
        Some(s) => {
            if s.as_str().unicode_len() > 0 {
                push_str(&mut out, s.as_str());
            } else {
                push_str(&mut out, "Luna");
            }
        },
        None => push_str(&mut out, "Luna"),
    }
    let ghost stem = out@;
    assert(stem == match path_file_stem_spec(input@) {
        Some(s) => if s.len() > 0 {
            s
        } else {
            "Luna"@
        },
        None => "Luna"@,
    });
    let ext: Vec<char> = match path_extension(input) {
        Some(e) => {
            let chars = chars_of(e.as_str());
            to_ascii_lower(chars.as_slice())
        },
        None => chars_of("jpg"),
    };
    let ext_text = string_from_chars(ext.as_slice());
    let e = ext_text.as_str();
    assert(e@ == match path_extension_spec(input@) {
        Some(x) => x.map_values(|c: char| ascii_lower(c)),
        None => "jpg"@,
    });
    push_str(&mut out, "_watermarked.");
    if str_eq(e, "mp4") || str_eq(e, "mov") || str_eq(e, "mkv") || str_eq(e, "avi") || str_eq(
        e,
        "m4v",
    ) {
        push_str(&mut out, "mp4");
    } else if str_eq(e, "png") || str_eq(e, "webp") {
        push_str(&mut out, e);
    } else {
        push_str(&mut out, "jpg");
    }
    assert(out@ == stem + "_watermarked."@ + output_extension_spec(e@));
    string_from_chars(out.as_slice())
}

} // verus!
