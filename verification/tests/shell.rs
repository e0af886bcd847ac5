use luna_linker::desktop::{
    decode_media_proxy_url, download_filename, download_root, find_bytes, local_status_reason,
    media_content_type, native_surface_class, native_surface_class_script, safe_path_component,
    take_jpeg_frames, ProxyUrlError,
};
use luna_linker::transfer::{
    handle_installer_mode, position_label, transfer_permission, ConnectionEpoch, TransferPermission,
    TransferRegistry, TransferState, TransferStop,
};
use luna_linker::watermark::{
    app_position, average_rgb, choose_rendering, format_exif_timestamp, frame_backgrounds,
    parse_video_dimensions, style_asset, style_for, styles, MediaKind, WatermarkError,
    WatermarkRendering,
};

fn encode_url(value: &str) -> String {
    value.as_bytes().iter().map(|byte| format!("{byte:02x}")).collect()
}

#[test]
fn media_proxy_url_round_trips_utf8_paths() {
    let url = "http://192.168.42.1/storage_internal/DCIM/Camera01/测试 01.jpg";
    assert_eq!(decode_media_proxy_url(&encode_url(url)).unwrap(), url);
    assert!(decode_media_proxy_url("123").is_err());
}

#[test]
fn media_proxy_reports_browser_media_types() {
    assert_eq!(media_content_type("http://camera/photo.JPG"), "image/jpeg");
    assert_eq!(media_content_type("http://camera/preview.LRV"), "video/mp4");
    assert_eq!(media_content_type("http://camera/original.MOV"), "video/quicktime");
}

#[test]
fn media_proxy_decoding_reports_each_error() {
    assert_eq!(decode_media_proxy_url(""), Err(ProxyUrlError::BadLength));
    assert_eq!(decode_media_proxy_url("zz"), Err(ProxyUrlError::InvalidDigit));
    assert_eq!(decode_media_proxy_url("+a"), Ok("\n".to_string()));
    assert_eq!(
        decode_media_proxy_url("ff"),
        Err(ProxyUrlError::NotUtf8 { valid_up_to: 0, error_len: Some(1) })
    );
    assert_eq!(
        decode_media_proxy_url("61e6b5"),
        Err(ProxyUrlError::NotUtf8 { valid_up_to: 1, error_len: None })
    );
    assert_eq!(
        decode_media_proxy_url("a\u{e9}b"),
        Err(ProxyUrlError::PairNotText { valid_up_to: 1, error_len: None })
    );
    assert_eq!(decode_media_proxy_url("é"), Err(ProxyUrlError::InvalidDigit));
    assert_eq!(media_content_type("http://camera/a.png?x=1.jpg"), "image/png");
    assert_eq!(media_content_type("http://camera/a.bin"), "application/octet-stream");
}

#[test]
fn media_proxy_errors_read_like_the_decoders() {
    assert_eq!(ProxyUrlError::BadLength.message(), "媒体地址编码无效");
    assert_eq!(
        ProxyUrlError::NotUtf8 { valid_up_to: 0, error_len: Some(1) }.message(),
        "invalid utf-8 sequence of 1 bytes from index 0"
    );
    assert_eq!(
        ProxyUrlError::PairNotText { valid_up_to: 1, error_len: None }.message(),
        "incomplete utf-8 byte sequence from index 1"
    );
    assert_eq!(ProxyUrlError::InvalidDigit.message(), "invalid digit found in string");
    let cut = std::str::from_utf8(&[0x61u8, 0xe6, 0xb5]).unwrap_err();
    let bad = std::str::from_utf8(&[0xffu8]).unwrap_err();
    assert_eq!(
        ProxyUrlError::NotUtf8 { valid_up_to: 0, error_len: Some(1) }.message(),
        bad.to_string()
    );
    assert_eq!(
        ProxyUrlError::NotUtf8 { valid_up_to: 1, error_len: None }.message(),
        cut.to_string()
    );
}

#[test]
fn download_names_are_safe_file_names() {
    assert_eq!(download_filename("http://h/DCIM/a:b.jpg?x=1"), "a_b.jpg");
    assert_eq!(download_filename("http://h/DCIM/"), "camera_file");
    assert_eq!(download_filename("http://h/DCIM/..."), "camera_file");
    assert_eq!(safe_path_component("  .name. ", "x"), "name");
    assert_eq!(safe_path_component("a\u{1}b", "x"), "a_b");
    assert_eq!(download_root(Some("  out ")), "out");
    assert_eq!(download_root(Some("   ")), "downloads");
    assert_eq!(download_root(None), "downloads");
}

#[test]
fn window_surfaces_and_status_reasons() {
    assert_eq!(native_surface_class(true, true), "native-liquid-glass");
    assert_eq!(native_surface_class(false, true), "native-mica");
    assert_eq!(native_surface_class(false, false), "no-native-surface");
    assert!(native_surface_class_script(false, true, false).ends_with("add('native-mica','windows-host');"));
    assert_eq!(local_status_reason(206), "Partial Content");
    assert_eq!(local_status_reason(299), "Response");
}

#[test]
fn byte_search_and_jpeg_cutting() {
    assert_eq!(find_bytes(&[1, 0xff, 0xd8, 0xff, 0xd8], &[0xff, 0xd8], 2), Some(3));
    assert_eq!(find_bytes(&[1, 2], &[0xff, 0xd8], 0), None);
    assert_eq!(find_bytes(&[1, 2], &[], 3), None);

    let mut buffer = vec![9, 9, 0xff, 0xd8, 1, 2, 0xff, 0xd9, 0xff, 0xd8, 3];
    let pictures = take_jpeg_frames(&mut buffer);
    assert_eq!(pictures, vec![vec![0xff, 0xd8, 1, 2, 0xff, 0xd9]]);
    assert_eq!(buffer, vec![0xff, 0xd8, 3]);
    let mut no_start = vec![1, 2, 3];
    assert!(take_jpeg_frames(&mut no_start).is_empty());
    assert_eq!(no_start, vec![1, 2, 3]);
}

#[test]
fn catalog_contains_only_luna_app_styles() {
    let ids: Vec<_> = styles().iter().map(|style| style.id).collect();
    assert_eq!(ids, vec!["luna-ultra-cn", "luna-ultra", "luna-ultra-zstyle-cn", "luna-ultra-zstyle"]);
}

#[test]
fn frame_background_catalog_matches_the_app_color_modes() {
    let ids: Vec<_> = frame_backgrounds().iter().map(|background| background.id).collect();
    assert_eq!(ids, vec!["black", "white", "photo-dark", "photo-light", "photo-gradient"]);
}

#[test]
fn image_and_video_use_their_respective_apk_assets() {
    let style = style_for("luna-ultra-cn").unwrap();
    assert_eq!(style.image_file, Some("ic_watermark_luna_ultra_image_cn.png"));
    assert_eq!(style.video_file, Some("ic_watermark_luna_ultra_cn.png"));
}

#[test]
fn parses_video_stream_dimensions() {
    assert_eq!(
        parse_video_dimensions("Stream #0:0: Video: h264, yuv420p, 3840x2160 [SAR 1:1]"),
        Some((3840, 2160))
    );
}

#[test]
fn video_dimension_quirks_are_kept() {
    assert_eq!(parse_video_dimensions("size 32x32, then 1920x1080 fps"), Some((1920, 1080)));
    assert_eq!(parse_video_dimensions("ends with digits 1920"), None);
    assert_eq!(parse_video_dimensions("1920x"), None);
    assert_eq!(parse_video_dimensions("99999999999x1080 "), None);
    assert_eq!(parse_video_dimensions("no numbers"), None);
}

#[test]
fn formats_luna_direct_output_metadata() {
    let timestamp = format_exif_timestamp(Some("2026:06:18 20:08:37"), Some("+08:00"));
    assert_eq!(timestamp.as_deref(), Some("18-Jun-2026 20:08 UTC+08:00"));
    let timestamp_without_offset = format_exif_timestamp(Some("2026:06:26 16:45:57"), None);
    assert_eq!(timestamp_without_offset.as_deref(), Some("26-Jun-2026 16:45 UTC+08:00"));
}

#[test]
fn exif_timestamps_need_a_real_month() {
    assert_eq!(format_exif_timestamp(Some("2026:13:01 10:00:00"), None), None);
    assert_eq!(format_exif_timestamp(Some("2026:+02:01 10:00"), Some("  ")).as_deref(), Some("01-Feb-2026 10:00 UTC+08:00"));
    assert_eq!(format_exif_timestamp(Some("2026:02:01"), None), None);
    assert_eq!(format_exif_timestamp(None, None), None);
    assert_eq!(format_exif_timestamp(Some("2026:12:31 23:59"), Some(" -05:00 ")).as_deref(), Some("31-Dec-2026 23:59 UTC-05:00"));
}

#[test]
fn watermark_requests_choose_their_rendering() {
    let mark = style_for("luna-ultra").unwrap();
    let frame = style_for("luna-ultra-zstyle").unwrap();
    assert_eq!(choose_rendering(mark, "jpg"), Ok(WatermarkRendering::ImageMark));
    assert_eq!(choose_rendering(frame, "png"), Ok(WatermarkRendering::Frame));
    assert_eq!(choose_rendering(mark, "mov"), Ok(WatermarkRendering::VideoMark));
    assert_eq!(choose_rendering(frame, "mp4"), Err(WatermarkError::FrameOnVideo));
    assert_eq!(choose_rendering(mark, "gif"), Err(WatermarkError::UnsupportedMedia));
    assert!(matches!(style_for("nope"), Err(WatermarkError::UnknownStyle)));
    assert_eq!(style_asset(frame, MediaKind::Video), Err(WatermarkError::NoAsset));
    assert_eq!(style_asset(frame, MediaKind::Image), Ok("ic_watermark_luna_ultra.png"));
    assert_eq!(app_position("bottom-center"), Some("BottomCenter"));
    assert_eq!(app_position("middle"), None);
    assert_eq!(average_rgb([300, 600, 900], 0), [44, 88, 132]);
    assert_eq!(average_rgb([300, 600, 900], 3), [100, 200, 44]);
}

#[test]
fn transfers_pause_resume_and_cancel() {
    let mut registry = TransferRegistry::new();
    assert!(!registry.control(7, 1));
    assert!(registry.control(7, 0));
    assert_eq!(registry.state_for(7), TransferState::Running);
    assert!(registry.control(7, 1));
    assert_eq!(transfer_permission(registry.state_for(7)), TransferPermission::Wait);
    assert!(registry.control(7, 2));
    assert_eq!(transfer_permission(registry.state_for(7)), TransferPermission::Proceed);
    assert_eq!(registry.state_for(9), TransferState::Running);
    registry.cancel_all();
    assert_eq!(transfer_permission(registry.state_for(7)), TransferPermission::Stop);
    assert_eq!(registry.state_for(9), TransferState::Cancelled);
    assert!(registry.control(7, 4));
    assert!(!registry.control(7, 3));
    assert!(!registry.control(7, 9));
}

#[test]
fn transfers_stop_when_the_connection_changes() {
    let mut connection = ConnectionEpoch::new();
    connection.mark_connected();
    let epoch = connection.epoch;
    assert_eq!(epoch, 1);
    connection.mark_connected();
    assert_eq!(connection.transfer_active(epoch, true), Ok(()));
    assert_eq!(connection.transfer_active(epoch, false), Err(TransferStop::SessionLost));
    connection.mark_disconnected();
    assert_eq!(connection.transfer_active(epoch, true), Err(TransferStop::Disconnected));
    connection.mark_connected();
    assert_eq!(connection.transfer_active(epoch, true), Err(TransferStop::Disconnected));
}

#[test]
fn position_labels_and_installer_mode() {
    assert_eq!(position_label("top-left"), "左上角");
    assert_eq!(position_label("bottom-right"), "右下角");
    assert_eq!(position_label("elsewhere"), "底部居中");
    assert_eq!(handle_installer_mode(), None);
}
