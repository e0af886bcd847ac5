use luna_linker::luna_client::{
    build_action, build_check_authorization, build_get_options, build_set_capture_mode,
    build_set_options, build_shake_hand_info, frame_message, parse_reply, ClientReply,
};
use luna_linker::mic_ble::{
    ble_hex_payload, find_ignore_ascii_case, is_mic_name, mic_device, BleHexError,
};
use luna_linker::placement::{
    frame_key, frame_placement_fields, mark_placement_fields, placement_key, split_chars,
    split_hash_chars, table_row_fields,
};
use luna_linker::protobuf::{decode_varint, encode_varint};
use luna_linker::profiles::{profile_summary, strings_only};
use luna_linker::media::html_unescape;
use luna_linker::text::replace_chars;
use luna_linker::url::osc_base_url;
use luna_linker::watermark::{
    watermark_output_name, WatermarkError, WatermarkOptions, WatermarkRendering,
};

const MARK_TABLE: &str = "{\n  \"Luna Ultra##Leica-CN##16:9##BottomCenter\": \"0.279##0.361##0.044\",\r\n  \"Luna Ultra##Leica-CN##16:9##BottomRight\": \"0.191##0.776##0.059\",\n}\n";

const FRAME_TABLE: &str = "  \"Luna Ultra##ZStyle-CN##16:9\": \"1.0781##1.8333##0.2525##0.3386##0.0145##0.0174##0.0145##0.0162##0##0##0.2087\",\n";

fn strings(items: &[&str]) -> Vec<String> {
    items.iter().map(|s| s.to_string()).collect()
}

#[test]
fn mark_rows_are_found_by_style_ratio_and_position() {
    let fields =
        mark_placement_fields(MARK_TABLE, "Luna Ultra", "Leica-CN", "16:9", "bottom-center").unwrap();
    assert_eq!(fields, strings(&["0.279", "0.361", "0.044"]));
    let right =
        mark_placement_fields(MARK_TABLE, "Luna Ultra", "Leica-CN", "16:9", "bottom-right").unwrap();
    assert_eq!(right, strings(&["0.191", "0.776", "0.059"]));
    assert!(mark_placement_fields(MARK_TABLE, "Luna Ultra", "Leica-CN", "16:9", "top-left").is_none());
    assert!(mark_placement_fields(MARK_TABLE, "Luna Ultra", "Leica-CN", "16:9", "middle").is_none());
    assert!(mark_placement_fields(MARK_TABLE, "Luna Ultra", "Leica", "16:9", "bottom-center").is_none());
}

#[test]
fn frame_rows_give_all_their_fields() {
    let fields = frame_placement_fields(FRAME_TABLE, "Luna Ultra", "ZStyle-CN", "16:9").unwrap();
    assert_eq!(fields.len(), 11);
    assert_eq!(fields[0], "1.0781");
    assert_eq!(fields[1], "1.8333");
    assert_eq!(fields[10], "0.2087");
    assert!(frame_placement_fields(FRAME_TABLE, "Luna Ultra", "ZStyle", "16:9").is_none());
}

#[test]
fn table_keys_are_quoted() {
    assert_eq!(
        placement_key("Luna Ultra", "Leica", "4:3", "TopLeft"),
        "\"Luna Ultra##Leica##4:3##TopLeft\""
    );
    assert_eq!(frame_key("Luna Ultra", "ZStyle", "1:1"), "\"Luna Ultra##ZStyle##1:1\"");
}

#[test]
fn table_rows_take_the_text_after_the_last_colon() {
    let table = "\"k\": \"a\": \"1##2\",\n";
    assert_eq!(table_row_fields(table, "\"k\"").unwrap(), strings(&["1", "2"]));
    // The first matching row decides, even without a colon.
    let no_colon = "\"k\" 1##2\n\"k\": 3\n";
    assert!(table_row_fields(no_colon, "\"k\"").is_none());
    assert!(table_row_fields("", "\"k\"").is_none());
}

#[test]
fn splitting_follows_str_split() {
    let pieces: Vec<String> =
        split_hash_chars(&"1###2##".chars().collect::<Vec<char>>()).iter().map(|p| p.iter().collect()).collect();
    assert_eq!(pieces, "1###2##".split("##").map(|s| s.to_string()).collect::<Vec<_>>());
    let lines: Vec<String> =
        split_chars(&"a\n\nb\n".chars().collect::<Vec<char>>(), '\n').iter().map(|p| p.iter().collect()).collect();
    assert_eq!(lines, strings(&["a", "", "b", ""]));
}

#[test]
fn profile_summaries_fall_back_on_the_id() {
    let summary = profile_summary(
        "z03".to_string(),
        None,
        Some("Luna Ultra".to_string()),
        None,
        Some("server".to_string()),
        None,
        Some("variety".to_string()),
        vec![Some("wifi".to_string()), None, Some("ble".to_string())],
        vec![None],
        Vec::new(),
    );
    assert_eq!(summary.id, "z03");
    assert_eq!(summary.display_name, "Luna Ultra");
    assert_eq!(summary.short_name, "z03");
    assert_eq!(summary.server_name.as_deref(), Some("server"));
    assert_eq!(summary.series, None);
    assert_eq!(summary.variety.as_deref(), Some("variety"));
    assert_eq!(summary.channels, strings(&["wifi", "ble"]));
    assert!(summary.capture_modes.is_empty());
    assert!(summary.lens_modes.is_empty());

    let named = profile_summary(
        "rxTRC".to_string(),
        Some("Mic Pro RX".to_string()),
        Some("type".to_string()),
        Some("RX".to_string()),
        None,
        None,
        None,
        Vec::new(),
        Vec::new(),
        Vec::new(),
    );
    assert_eq!(named.display_name, "Mic Pro RX");
    assert_eq!(named.short_name, "RX");
    let bare = profile_summary(
        "txTRC".to_string(), None, None, None, None, None, None, Vec::new(), Vec::new(), Vec::new(),
    );
    assert_eq!(bare.display_name, "txTRC");
    assert_eq!(strings_only(vec![None, Some("a".to_string())]), strings(&["a"]));
}

#[test]
fn microphones_are_recognised_by_name() {
    assert!(is_mic_name("Mic Pro RX"));
    assert!(is_mic_name("INSTA360 Remote"));
    assert!(is_mic_name("txTRC"));
    assert!(!is_mic_name("Speaker"));
    assert!(!is_mic_name(""));
    let device = mic_device(Some("Mic Pro".to_string()), "AA:BB".to_string()).unwrap();
    assert_eq!(device.name, "Mic Pro");
    assert_eq!(device.address, "AA:BB");
    assert!(mic_device(None, "AA:BB".to_string()).is_none());
    assert!(mic_device(Some("Speaker".to_string()), "AA:BB".to_string()).is_none());
}

#[test]
fn characteristics_are_matched_ignoring_ascii_case() {
    let uuids = strings(&["0000ffe1-0000", "0000FFE2-0000", "0000ffe2-0000"]);
    assert_eq!(find_ignore_ascii_case(&uuids, "0000ffe2-0000"), Some(1));
    assert_eq!(find_ignore_ascii_case(&uuids, "0000FFE1-0000"), Some(0));
    assert_eq!(find_ignore_ascii_case(&uuids, "0000ffe3-0000"), None);
}

#[test]
fn microphone_payloads_are_read_as_hex() {
    assert_eq!(ble_hex_payload("0a-0B 0c").unwrap(), vec![0x0a, 0x0b, 0x0c]);
    assert_eq!(ble_hex_payload("").unwrap(), Vec::<u8>::new());
    assert_eq!(ble_hex_payload("abc").unwrap_err(), BleHexError::OddLength);
    assert_eq!(ble_hex_payload("zz").unwrap_err(), BleHexError::InvalidByte);
    assert_eq!(BleHexError::OddLength.message(), "hex payload length must be even");
}

#[test]
fn export_requests_choose_style_then_rendering() {
    let mut options = WatermarkOptions {
        input: "in.jpg".to_string(),
        output: "out.jpg".to_string(),
        position: "bottom-center".to_string(),
        style: "luna-ultra-cn".to_string(),
        frame_background: "black".to_string(),
        moment_preset: "official".to_string(),
        moment_image: None,
    };
    let (style, rendering) = options.export_plan("jpg").unwrap();
    assert_eq!(style.id, "luna-ultra-cn");
    assert_eq!(rendering, WatermarkRendering::ImageMark);
    assert_eq!(options.export_plan("mp4").unwrap().1, WatermarkRendering::VideoMark);
    assert_eq!(options.export_plan("gif").unwrap_err(), WatermarkError::UnsupportedMedia);
    options.style = "luna-ultra-zstyle".to_string();
    assert_eq!(options.export_plan("png").unwrap().1, WatermarkRendering::Frame);
    assert_eq!(options.export_plan("mov").unwrap_err(), WatermarkError::FrameOnVideo);
    options.style = "unknown".to_string();
    assert_eq!(options.export_plan("jpg").unwrap_err(), WatermarkError::UnknownStyle);
}

#[test]
fn osc_addresses_trim_the_host() {
    assert_eq!(osc_base_url(" 192.168.42.1 ", 80), "http://192.168.42.1:80");
    assert_eq!(osc_base_url("camera", 8080), "http://camera:8080");
}

#[test]
fn first_client_messages_are_length_prefixed_text() {
    assert_eq!(frame_message(&[1, 2, 3]), vec![3, 0, 0, 0, 1, 2, 3]);
    assert_eq!(frame_message(&[]), vec![0, 0, 0, 0]);
    assert_eq!(build_shake_hand_info(), b"ShakeHandInfo".to_vec());
    assert_eq!(build_check_authorization(), b"CheckAuthorization".to_vec());
    assert_eq!(build_action("TakePicture"), b"TakePicture".to_vec());
    assert_eq!(build_set_capture_mode("video"), b"SetSyncCaptureModevideo".to_vec());
    let options = vec![("iso".to_string(), "100".to_string()), ("wb".to_string(), "auto".to_string())];
    assert_eq!(build_set_options(&options), b"SetOptionsiso=100\nwb=auto\n".to_vec());
    assert_eq!(build_get_options(&strings(&["iso", "zoom"])), b"GetOptionsiso\nzoom\n".to_vec());
}

#[test]
fn first_client_answers_are_text_or_hex() {
    assert!(matches!(parse_reply(&[]), ClientReply::Empty));
    match parse_reply(b"ok") {
        ClientReply::Text(s) => assert_eq!(s, "ok"),
        other => panic!("unexpected {other:?}"),
    }
    match parse_reply(&[0xff, 0x01]) {
        ClientReply::Binary { hex, length } => {
            assert_eq!(hex, "ff01");
            assert_eq!(length, 2);
        }
        other => panic!("unexpected {other:?}"),
    }
}

#[test]
fn varints_decode_to_what_was_encoded() {
    for value in [0u64, 1, 127, 128, 300, 16_383, 16_384, u32::MAX as u64, u64::MAX] {
        let mut bytes = Vec::new();
        encode_varint(value, &mut bytes);
        let written = bytes.len();
        bytes.extend_from_slice(&[0x81, 0x01]);
        assert_eq!(decode_varint(&bytes), Some((value, written)));
    }
    let mut max = Vec::new();
    encode_varint(u64::MAX, &mut max);
    assert_eq!(max.len(), 10);
    let mut small = vec![9u8];
    encode_varint(300, &mut small);
    assert_eq!(small, vec![9, 0xac, 0x02]);
}

#[test]
fn listing_escapes_are_undone_in_order() {
    assert_eq!(html_unescape("a&amp;b&lt;c&gt;d&quot;e&#39;f"), "a&b<c>d\"e'f");
    assert_eq!(html_unescape("&amp;lt;"), "<");
    assert_eq!(html_unescape("plain"), "plain");
    let replaced: String = replace_chars(&"aaa".chars().collect::<Vec<char>>(), "aa", "b").into_iter().collect();
    assert_eq!(replaced, "aaa".replace("aa", "b"));
}

#[test]
fn watermark_output_names_follow_the_input() {
    assert_eq!(watermark_output_name("/photos/IMG_0001.JPG"), "IMG_0001_watermarked.jpg");
    assert_eq!(watermark_output_name("clip.MOV"), "clip_watermarked.mp4");
    assert_eq!(watermark_output_name("a/b/shot.webp"), "shot_watermarked.webp");
    assert_eq!(watermark_output_name("scan.PNG"), "scan_watermarked.png");
    assert_eq!(watermark_output_name("raw.dng"), "raw_watermarked.jpg");
    assert_eq!(watermark_output_name("noext"), "noext_watermarked.jpg");
    assert_eq!(watermark_output_name(""), "Luna_watermarked.jpg");
}
