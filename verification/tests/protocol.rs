use luna_linker::camera::{
    build_camera_client_registration_body, build_camera_time_sync_body,
    build_capture_combined_context_body, build_capture_context_body, build_capture_detail_body,
    build_capture_mode_body, build_capture_settings_query_body, build_gimbal_move_body,
    build_gimbal_speed_body, build_video_profile_body, build_zoom_body,
    camera_event_subscribe_body, camera_full_status_query_body, camera_start_record_body,
    camera_stop_record_body, camera_take_photo_body, camera_video_formats,
    capture_mode_from_event_body, capture_mode_from_full_status_body, gimbal_device_axes_from_ui,
    gimbal_speed_from_event_body, recording_state_from_event_body, resolve_camera_video_profile,
    zoom_from_capture_settings_body, CameraCaptureMode, CAMERA_CLIENT_REGISTER_COMMAND,
    CAMERA_EVENT_SUBSCRIBE_COMMAND, CAMERA_SESSION_INIT_COMMAND, CAMERA_START_RECORD_COMMAND,
    CAMERA_STATUS_QUERY_COMMAND, CAMERA_STOP_RECORD_COMMAND, CAMERA_TAKE_PHOTO_COMMAND,
};
use luna_linker::media::build_file_list_body;
use luna_linker::probe::{stop_capture_candidate_frame, StopCaptureVariant};
use luna_linker::session::is_hevc_keyframe;
use luna_linker::ucd2::{
    build_internal_packet, build_internal_packet_with_request_id, build_ucd2_frame,
    extract_complete_ucd2_frames, ucd2_checksum,
};

fn hex_bytes(input: &str) -> Vec<u8> {
    input
        .split_whitespace()
        .map(|part| u8::from_str_radix(part, 16).expect("valid hex test byte"))
        .collect()
}

#[test]
fn recovered_ucd2_checksum_matches_empty_control_frame() {
    let header = [
        0x55, 0x43, 0x44, 0x32, 0x01, 0x0c, 0x05, 0x0f, 0x00, 0x00, 0x00, 0x00,
    ];

    assert_eq!(ucd2_checksum(&header).to_le_bytes(), [0x37, 0x05, 0x47, 0x7c]);
    assert_eq!(
        build_ucd2_frame(0x05, 0x0f, &[]),
        [
            0x55, 0x43, 0x44, 0x32, 0x01, 0x0c, 0x05, 0x0f, 0x00, 0x00, 0x00, 0x00, 0x37, 0x05,
            0x47, 0x7c,
        ]
    );
    assert_eq!(
        build_ucd2_frame(0x05, 0x11, &[]),
        [
            0x55, 0x43, 0x44, 0x32, 0x01, 0x0c, 0x05, 0x11, 0x00, 0x00, 0x00, 0x00, 0x76, 0x20,
            0xc6, 0xcb,
        ]
    );
}

#[test]
fn recovered_ucd2_checksum_matches_device_info_frame() {
    let payload = [
        0x08, 0x00, 0x02, 0x01, 0x00, 0x00, 0x80, 0x00, 0x00, 0x08, 0x30, 0x08, 0x0f, 0x08, 0x0b,
    ];

    assert_eq!(
        build_ucd2_frame(0x04, 0x10, &payload),
        [
            0x55, 0x43, 0x44, 0x32, 0x01, 0x0c, 0x04, 0x10, 0x0f, 0x00, 0x00, 0x00, 0x08, 0x00,
            0x02, 0x01, 0x00, 0x00, 0x80, 0x00, 0x00, 0x08, 0x30, 0x08, 0x0f, 0x08, 0x0b, 0x7c,
            0x00, 0x8e, 0x7c,
        ]
    );
}

#[test]
fn apk_and_pcap_luna_capture_modes_are_reproducible() {
    assert_eq!(build_capture_mode_body(CameraCaptureMode::Photo), hex_bytes("08 28 12 00"));
    assert_eq!(build_capture_mode_body(CameraCaptureMode::Video), hex_bytes("08 29 12 00"));
    assert_eq!(build_capture_context_body(CameraCaptureMode::Photo), hex_bytes("08 63 10 06"));
    assert_eq!(build_capture_context_body(CameraCaptureMode::Video), hex_bytes("08 63 10 07"));
    assert_eq!(build_capture_detail_body(CameraCaptureMode::Photo), hex_bytes("08 57 10 06"));
    assert_eq!(build_capture_detail_body(CameraCaptureMode::Video), hex_bytes("08 57 10 07"));
    assert_eq!(
        build_capture_combined_context_body(CameraCaptureMode::Photo),
        hex_bytes("08 29 08 63 10 06")
    );
    assert_eq!(
        build_capture_combined_context_body(CameraCaptureMode::Video),
        hex_bytes("08 29 08 63 10 07")
    );
}

#[test]
fn captured_shutter_commands_are_reproducible() {
    assert_eq!(CAMERA_TAKE_PHOTO_COMMAND, 0x0003);
    assert_eq!(camera_take_photo_body(), hex_bytes("30 03"));
    assert_eq!(CAMERA_START_RECORD_COMMAND, 0x0004);
    assert_eq!(camera_start_record_body(), hex_bytes("08 01"));
    assert_eq!(CAMERA_STOP_RECORD_COMMAND, 0x0005);
    assert_eq!(camera_stop_record_body(), hex_bytes("10 01"));
}

#[test]
fn ui_gimbal_directions_map_to_device_axes() {
    assert_eq!(gimbal_device_axes_from_ui(0, -72).unwrap(), (72, 0));
    assert_eq!(gimbal_device_axes_from_ui(0, 72).unwrap(), (-72, 0));
    assert_eq!(gimbal_device_axes_from_ui(-72, 0).unwrap(), (0, -72));
    assert_eq!(gimbal_device_axes_from_ui(72, 0).unwrap(), (0, 72));
    assert!(gimbal_device_axes_from_ui(101, 0).is_err());
}

#[test]
fn captured_recording_state_events_are_recognized() {
    assert_eq!(recording_state_from_event_body(&hex_bytes("08 01 10 00 38 00")), None);
    assert_eq!(recording_state_from_event_body(&hex_bytes("08 00 10 00 38 00")), Some(false));
    assert_eq!(recording_state_from_event_body(&hex_bytes("08 01 10 00 38 02")), Some(true));
    assert_eq!(recording_state_from_event_body(&hex_bytes("10 01")), None);
}

#[test]
fn captured_camera_event_subscription_is_reproducible() {
    assert_eq!(
        build_internal_packet_with_request_id(
            CAMERA_EVENT_SUBSCRIBE_COMMAND,
            0x02,
            0x8000_0002,
            &camera_event_subscribe_body(),
        ),
        hex_bytes("11 00 02 02 00 00 80 00 00 08 01")
    );
}

#[test]
fn captured_camera_session_setup_is_reproducible() {
    assert_eq!(
        build_internal_packet_with_request_id(CAMERA_SESSION_INIT_COMMAND, 0x02, 0x8000_0002, &[]),
        hex_bytes("0f 00 02 02 00 00 80 00 00")
    );
    assert_eq!(camera_full_status_query_body().len(), 183);
    assert_eq!(
        build_internal_packet_with_request_id(
            CAMERA_STATUS_QUERY_COMMAND,
            0x02,
            0x8000_0003,
            &camera_full_status_query_body(),
        ),
        hex_bytes(
            "08 00 02 03 00 00 80 00 00 08 01 08 03 08 02 08 4c 08 06 08 4e 08 4f 08 0b \
             08 55 08 0c 08 0d 08 af 01 08 0e 08 0f 08 13 08 37 08 11 08 14 08 1e 08 24 \
             08 6e 08 72 08 75 08 59 08 74 08 73 08 25 08 26 08 2a 08 28 08 29 08 30 \
             08 31 08 32 08 42 08 84 01 08 3a 08 3b 08 3c 08 43 08 44 08 5d 08 53 08 52 \
             08 46 08 58 08 67 08 10 08 61 08 85 01 08 86 01 08 77 08 7a 08 7b 08 7c \
             08 80 01 08 81 01 08 87 01 08 96 01 08 95 01 08 93 01 08 9b 01 08 9d 01 \
             08 9e 01 08 a0 01 08 b3 01 08 a1 01 08 16 08 50 08 51 08 a7 01 08 a9 01 \
             08 ad 01 08 b4 01 08 b0 01 08 b1 01 08 78 08 6f 08 79 08 ac 01",
        )
    );
    assert_eq!(
        build_internal_packet_with_request_id(
            CAMERA_CLIENT_REGISTER_COMMAND,
            0x02,
            0x8000_0004,
            &build_camera_client_registration_body(),
        ),
        hex_bytes(
            "27 00 02 04 00 00 80 00 00 0a 24 66 66 66 66 66 66 66 66 2d 64 33 38 39 2d 34 65 33 35 2d 66 66 66 66 2d 66 66 66 66 65 66 30 35 61 63 34 61 10 02"
        )
    );
    assert_eq!(
        build_camera_time_sync_body(1_784_719_725),
        hex_bytes(
            "08 0c 08 0d 08 af 01 12 1a 60 ed d2 82 d3 06 68 80 e1 01 fa 0a 0d 41 73 69 61 2f 53 68 61 6e 67 68 61 69"
        )
    );
}

#[test]
fn captured_gimbal_zigzag_points_are_reproducible() {
    let cases = [
        ((0, 0), "08 01 12 00"),
        ((36, 0), "08 01 12 02 08 48"),
        ((59, 0), "08 01 12 02 08 76"),
        ((90, 10), "08 01 12 05 08 b4 01 10 14"),
        ((98, 13), "08 01 12 05 08 c4 01 10 1a"),
        ((-21, 96), "08 01 12 05 08 29 10 c0 01"),
    ];

    for ((x, y), expected) in cases {
        assert_eq!(build_gimbal_move_body(x, y).expect("valid gimbal point"), hex_bytes(expected));
    }
    assert!(build_gimbal_move_body(-101, 0).is_err());
    assert!(build_gimbal_move_body(0, 101).is_err());
}

#[test]
fn captured_hardware_gimbal_speed_levels_are_reproducible() {
    assert_eq!(build_gimbal_speed_body(2).unwrap(), hex_bytes("08 55 12 05 aa 05 02 10 02 18 06"));
    assert_eq!(build_gimbal_speed_body(1).unwrap(), hex_bytes("08 55 12 05 aa 05 02 10 01 18 06"));
    assert_eq!(build_gimbal_speed_body(3).unwrap(), hex_bytes("08 55 12 05 aa 05 02 10 03 18 06"));
    assert!(build_gimbal_speed_body(0).is_err());
    assert!(build_gimbal_speed_body(4).is_err());
    assert_eq!(gimbal_speed_from_event_body(&hex_bytes("08 00 10 03")), Some(3));
    assert_eq!(gimbal_speed_from_event_body(&hex_bytes("08 00 10 02")), Some(2));
    assert_eq!(gimbal_speed_from_event_body(&hex_bytes("08 00 10 01")), Some(1));
}

#[test]
fn captured_capture_mode_events_are_decoded() {
    assert_eq!(
        capture_mode_from_event_body(&hex_bytes("08 00 10 64 18 03")),
        Some(CameraCaptureMode::Photo)
    );
    assert_eq!(
        capture_mode_from_event_body(&hex_bytes("08 64 10 00 18 03")),
        Some(CameraCaptureMode::Video)
    );
    assert_eq!(capture_mode_from_event_body(&hex_bytes("08 08 10 64 18 01")), None);
    assert_eq!(capture_mode_from_event_body(&hex_bytes("10 64 18 03")), None);
}

#[test]
fn captured_full_status_reports_current_capture_mode() {
    assert_eq!(
        capture_mode_from_full_status_body(&hex_bytes("08 28 08 29 12 06 c0 02 00 c8 02 64")),
        Some(CameraCaptureMode::Photo)
    );
    assert_eq!(
        capture_mode_from_full_status_body(&hex_bytes("08 28 08 29 12 06 c0 02 64 c8 02 00")),
        Some(CameraCaptureMode::Video)
    );
    assert_eq!(
        capture_mode_from_full_status_body(&hex_bytes("08 28 08 29 12 06 c0 02 01 c8 02 63")),
        None
    );
    assert_eq!(capture_mode_from_full_status_body(&hex_bytes("08 28 08 29")), None);
}

#[test]
fn captured_zoom_options_are_reproducible() {
    assert_eq!(
        build_zoom_body(3.0f64.to_bits(), CameraCaptureMode::Photo).unwrap(),
        hex_bytes("08 35 12 0a a9 03 00 00 00 00 00 00 08 40 18 06")
    );
    assert_eq!(
        build_zoom_body(1.0f64.to_bits(), CameraCaptureMode::Video).unwrap(),
        hex_bytes("08 35 12 0a a9 03 00 00 00 00 00 00 f0 3f 18 07")
    );
    assert_eq!(
        build_zoom_body(2.0f64.to_bits(), CameraCaptureMode::Video).unwrap(),
        hex_bytes("08 35 12 0a a9 03 00 00 00 00 00 00 00 40 18 07")
    );
    assert_eq!(
        build_zoom_body(3.0f64.to_bits(), CameraCaptureMode::Video).unwrap(),
        hex_bytes("08 35 12 0a a9 03 00 00 00 00 00 00 08 40 18 07")
    );
    assert_eq!(
        build_zoom_body(6.0f64.to_bits(), CameraCaptureMode::Video).unwrap(),
        hex_bytes("08 35 12 0a a9 03 00 00 00 00 00 00 18 40 18 07")
    );
    assert!(build_zoom_body(4.0f64.to_bits(), CameraCaptureMode::Video).is_err());
    assert!(build_zoom_body(f64::NAN.to_bits(), CameraCaptureMode::Video).is_err());
}

#[test]
fn captured_zoom_state_query_and_response_are_reproducible() {
    assert_eq!(
        build_capture_settings_query_body(CameraCaptureMode::Photo),
        hex_bytes(
            "08 01 08 02 08 03 08 04 08 05 08 06 08 07 08 08 08 09 08 0a 08 0b 08 0c \
             08 0d 08 27 08 0e 08 0f 08 12 08 13 08 14 08 15 08 16 08 17 08 18 08 19 \
             08 1a 08 1b 08 1c 08 1d 08 1e 08 1f 08 28 08 21 08 20 08 22 08 3a 08 3b \
             08 2b 08 37 08 38 08 23 08 64 08 24 08 25 08 26 08 29 08 63 08 2a 08 2c \
             08 2d 08 2e 08 33 08 34 08 35 08 36 08 3d 08 3e 08 3f 08 46 08 48 08 49 \
             08 53 08 4a 08 4b 08 4c 08 54 08 4e 08 4f 08 50 08 4d 08 47 08 51 08 52 \
             08 56 08 57 08 55 08 58 08 59 08 5a 08 5b 08 62 08 5d 08 5e 08 6b 10 06"
        )
    );
    assert_eq!(
        zoom_from_capture_settings_body(&hex_bytes("08 35 12 0a a9 03 00 00 00 00 00 00 f0 3f"))
            .map(f64::from_bits),
        Some(1.0)
    );
    assert_eq!(
        zoom_from_capture_settings_body(&hex_bytes("08 35 12 0a a9 03 00 00 00 00 00 00 04 40"))
            .map(f64::from_bits),
        Some(2.5)
    );
    assert_eq!(
        zoom_from_capture_settings_body(&hex_bytes("08 35 12 0a a9 03 00 00 00 00 00 00 f8 7f"))
            .map(f64::from_bits),
        None
    );
    assert_eq!(zoom_from_capture_settings_body(&hex_bytes("08 35")).map(f64::from_bits), None);
}

#[test]
fn captured_video_profiles_are_reproducible() {
    let hd_60 = resolve_camera_video_profile("1080p_16_9", 60).unwrap();
    assert_eq!(build_video_profile_body(hd_60), hex_bytes("08 1f 12 03 f8 01 28 18 07"));
    let hd_48 = resolve_camera_video_profile("1080p_16_9", 48).unwrap();
    assert_eq!(build_video_profile_body(hd_48), hex_bytes("08 1f 12 04 f8 01 84 02 18 07"));
}

#[test]
fn apk_video_resolution_table_covers_all_normal_luna_profiles() {
    assert_eq!(
        camera_video_formats().iter().map(|format| format.fps_values.len()).sum::<usize>(),
        64
    );
    assert_eq!(resolve_camera_video_profile("8k_16_9", 30).unwrap().protocol_value, 154);
    assert_eq!(resolve_camera_video_profile("4k_2_35_1", 120).unwrap().protocol_value, 433);
    assert_eq!(resolve_camera_video_profile("2_7k_9_16", 48).unwrap().protocol_value, 468);
    assert_eq!(resolve_camera_video_profile("1080p_16_9", 240).unwrap().protocol_value, 27);
    assert!(resolve_camera_video_profile("8k_16_9", 60).is_none());
    assert!(resolve_camera_video_profile("1080p_9_16", 120).is_none());
    assert!(resolve_camera_video_profile("unknown", 30).is_none());
}

#[test]
fn captured_daily_control_frames_are_reproducible() {
    let cases = [
        (
            0x62,
            0x0001,
            0x8000_002c,
            "10 01 30 28 38 2c 40 01 48 28 50 22",
            "55 43 44 32 01 0c 04 62 15 00 00 00 01 00 02 2c 00 00 80 00 00 10 01 30 28 38 2c 40 01 48 28 50 22 22 8e a7 ba",
        ),
        (
            0x74,
            0x0004,
            0x8000_0034,
            "08 01",
            "55 43 44 32 01 0c 04 74 0b 00 00 00 04 00 02 34 00 00 80 00 00 08 01 91 49 44 a1",
        ),
        (
            0x81,
            0x0005,
            0x8000_003a,
            "10 01",
            "55 43 44 32 01 0c 04 81 0b 00 00 00 05 00 02 3a 00 00 80 00 00 10 01 61 d9 33 28",
        ),
        (
            0xa0,
            0x0003,
            0x8000_0054,
            "30 03",
            "55 43 44 32 01 0c 04 a0 0b 00 00 00 03 00 02 54 00 00 80 00 00 30 03 c8 bf 2d f1",
        ),
        (
            0x2c,
            0x0002,
            0x8000_01ba,
            "",
            "55 43 44 32 01 0c 04 2c 09 00 00 00 02 00 02 ba 01 00 80 00 00 e1 c3 0d 10",
        ),
    ];

    for (sequence, command_id, request_id, body, expected) in cases {
        let payload =
            build_internal_packet_with_request_id(command_id, 0x02, request_id, &hex_bytes(body));
        assert_eq!(build_ucd2_frame(0x04, sequence, &payload), hex_bytes(expected));
    }
}

#[test]
fn preview_stream_helpers_handle_keyframes_and_fragmentation() {
    assert!(is_hevc_keyframe(&hex_bytes("00 00 00 01 40 01 0c 01")));
    assert!(!is_hevc_keyframe(&hex_bytes("00 00 00 01 02 01 d0 0f")));

    let frame = build_ucd2_frame(0x05, 0x44, &[]);
    let mut buffer = frame[..7].to_vec();
    assert!(extract_complete_ucd2_frames(&mut buffer).is_empty());
    buffer.extend_from_slice(&frame[7..]);
    assert_eq!(extract_complete_ucd2_frames(&mut buffer), vec![frame]);
    assert!(buffer.is_empty());
}

#[test]
fn captured_ucd2_file_list_requests_are_reproducible() {
    let internal = build_file_list_body(2, 2, 0);
    let sdcard = build_file_list_body(2, 3, 0);
    let sdcard_page_two = build_file_list_body(2, 3, 100);
    let secondary_internal = build_file_list_body(3, 2, 0);

    assert_eq!(internal, hex_bytes("08 02 18 64 20 02"));
    assert_eq!(sdcard, hex_bytes("08 02 18 64 20 03"));
    assert_eq!(sdcard_page_two, hex_bytes("08 02 10 64 18 64 20 03"));
    assert_eq!(secondary_internal, hex_bytes("08 03 18 64 20 02"));
    assert_eq!(
        build_internal_packet_with_request_id(0x000d, 0x02, 0x8000_0007, &internal),
        hex_bytes("0d 00 02 07 00 00 80 00 00 08 02 18 64 20 02")
    );
}

#[test]
fn apk_stop_capture_candidates_match_static_reverse_outputs() {
    let base = build_internal_packet(
        0x0008,
        0x02,
        &[0xb2, 0x00, 0x03, 0x59, 0xc7, 0x00, 0x00, 0x00, 0x05, 0x57, 0xb0],
    );
    let a03f = build_internal_packet(
        0x0008,
        0x02,
        &[0xb2, 0x00, 0x03, 0x59, 0xc7, 0x00, 0x00, 0x00, 0x09, 0x57, 0x59, 0xb3, 0x00, 0x03, 0xb0],
    );

    assert_eq!(
        build_ucd2_frame(0x04, 0x10, &base),
        [
            0x55, 0x43, 0x44, 0x32, 0x01, 0x0c, 0x04, 0x10, 0x14, 0x00, 0x00, 0x00, 0x08, 0x00,
            0x02, 0x01, 0x00, 0x00, 0x80, 0x00, 0x00, 0xb2, 0x00, 0x03, 0x59, 0xc7, 0x00, 0x00,
            0x00, 0x05, 0x57, 0xb0, 0x8b, 0x78, 0x6a, 0x3d,
        ]
    );
    assert_eq!(
        build_ucd2_frame(0x04, 0x10, &a03f),
        [
            0x55, 0x43, 0x44, 0x32, 0x01, 0x0c, 0x04, 0x10, 0x18, 0x00, 0x00, 0x00, 0x08, 0x00,
            0x02, 0x01, 0x00, 0x00, 0x80, 0x00, 0x00, 0xb2, 0x00, 0x03, 0x59, 0xc7, 0x00, 0x00,
            0x00, 0x09, 0x57, 0x59, 0xb3, 0x00, 0x03, 0xb0, 0x74, 0xef, 0x99, 0x27,
        ]
    );
    assert_eq!(stop_capture_candidate_frame(StopCaptureVariant::Base), build_ucd2_frame(0x04, 0x10, &base));
    assert_eq!(stop_capture_candidate_frame(StopCaptureVariant::A03f), build_ucd2_frame(0x04, 0x10, &a03f));
}

#[test]
fn apk_stop_capture_full_node_candidates_match_static_reverse_outputs() {
    let cases = [
        (
            StopCaptureVariant::FullBase,
            "55 43 44 32 01 0c 04 10 38 00 00 00 08 00 02 01 00 00 80 00 00 10 00 00 01 00 02 00 03 00 04 00 00 00 15 00 02 00 00 00 00 00 0b b2 00 03 59 c7 00 00 00 05 57 b0 00 00 00 05 00 00 00 00 00 06 00 00 00 00 87 0a 10 6c",
        ),
        (
            StopCaptureVariant::FullA03f,
            "55 43 44 32 01 0c 04 10 3c 00 00 00 08 00 02 01 00 00 80 00 00 10 00 00 01 00 02 00 03 00 04 00 00 00 19 00 02 00 00 00 00 00 0f b2 00 03 59 c7 00 00 00 09 57 59 b3 00 03 b0 00 00 00 05 00 00 00 00 00 06 00 00 00 00 e8 78 8f 62",
        ),
        (
            StopCaptureVariant::FullBase9d58,
            "55 43 44 32 01 0c 04 10 42 00 00 00 08 00 02 01 00 00 80 00 00 10 00 00 01 00 02 00 03 00 04 00 00 00 1f 00 02 00 00 00 00 00 0b b2 00 03 59 c7 00 00 00 05 57 b0 00 01 00 05 00 00 00 04 00 01 fb 0a 00 06 00 00 00 00 00 07 00 00 00 00 36 2a f7 ef",
        ),
        (
            StopCaptureVariant::FullA03f9d58,
            "55 43 44 32 01 0c 04 10 46 00 00 00 08 00 02 01 00 00 80 00 00 10 00 00 01 00 02 00 03 00 04 00 00 00 23 00 02 00 00 00 00 00 0f b2 00 03 59 c7 00 00 00 09 57 59 b3 00 03 b0 00 01 00 05 00 00 00 04 00 01 fb 0e 00 06 00 00 00 00 00 07 00 00 00 00 43 b3 04 30",
        ),
    ];

    for (variant, expected) in cases {
        let payload = build_internal_packet(0x0008, 0x02, &variant.body());
        assert_eq!(build_ucd2_frame(0x04, 0x10, &payload), hex_bytes(expected));
    }
}

#[test]
fn apk_stop_capture_sequence_candidates_match_static_reverse_outputs() {
    let cases = [
        (
            StopCaptureVariant::SeqBase,
            "55 43 44 32 01 0c 04 10 48 00 00 00 08 00 02 01 00 00 80 00 00 00 02 10 8a 00 01 00 02 00 01 00 03 00 00 00 00 10 00 00 04 00 05 00 03 00 07 00 00 00 15 00 02 00 00 00 00 00 0b b2 00 06 59 c7 00 00 00 05 57 b0 00 00 00 08 00 00 00 00 00 03 00 00 00 00 fd 21 04 26",
        ),
        (
            StopCaptureVariant::SeqA03f,
            "55 43 44 32 01 0c 04 10 4c 00 00 00 08 00 02 01 00 00 80 00 00 00 02 10 8a 00 01 00 02 00 01 00 03 00 00 00 00 10 00 00 04 00 05 00 03 00 07 00 00 00 19 00 02 00 00 00 00 00 0f b2 00 06 59 c7 00 00 00 09 57 59 b3 00 06 b0 00 00 00 08 00 00 00 00 00 03 00 00 00 00 21 c5 87 ae",
        ),
        (
            StopCaptureVariant::Seq4121,
            "55 43 44 32 01 0c 04 10 56 00 00 00 08 00 02 01 00 00 80 00 00 00 02 10 19 00 01 00 02 00 01 00 03 00 00 00 00 10 00 00 04 00 05 00 03 00 07 00 00 00 23 00 02 00 00 00 00 00 0f b2 00 06 59 c7 00 00 00 09 57 59 b3 00 06 b0 00 01 00 08 00 00 00 04 00 01 fb 0e 00 09 00 00 00 00 00 0a 00 00 00 00 ca 0c 32 2e",
        ),
        (
            StopCaptureVariant::SeqWrappedA03f,
            "55 43 44 32 01 0c 04 10 5a 00 00 00 08 00 02 01 00 00 80 00 00 00 03 10 89 00 01 00 02 00 01 00 03 00 00 00 00 10 8a 00 04 00 05 00 01 00 03 00 00 00 00 10 00 00 06 00 07 00 03 00 09 00 00 00 19 00 02 00 00 00 00 00 0f b2 00 08 59 c7 00 00 00 09 57 59 b3 00 08 b0 00 00 00 0a 00 00 00 00 00 03 00 00 00 00 49 57 f5 6d",
        ),
    ];

    for (variant, expected) in cases {
        let payload = build_internal_packet(0x0008, 0x02, &variant.body());
        assert_eq!(build_ucd2_frame(0x04, 0x10, &payload), hex_bytes(expected));
    }
}

#[test]
fn apk_stop_capture_command199_candidates_match_static_reverse_outputs() {
    let cases = [
        (
            StopCaptureVariant::Command199Empty,
            "55 43 44 32 01 0c 04 10 09 00 00 00 c7 00 02 01 00 00 80 00 00 16 85 b7 5a",
        ),
        (
            StopCaptureVariant::Command199Selector,
            "55 43 44 32 01 0c 04 10 18 00 00 00 c7 00 02 01 00 00 80 00 00 b2 00 03 59 c7 00 00 00 09 57 59 b3 00 03 b0 76 88 5c 4b",
        ),
    ];

    for (variant, expected) in cases {
        let payload = build_internal_packet(0x00c7, 0x02, &variant.body());
        assert_eq!(build_ucd2_frame(0x04, 0x10, &payload), hex_bytes(expected));
        assert_eq!(stop_capture_candidate_frame(variant), hex_bytes(expected));
    }
}

#[test]
fn whole_frames_come_out_and_a_partial_tail_stays() {
    let first = build_ucd2_frame(0x04, 0x11, &[1, 2, 3]);
    let second = build_ucd2_frame(0x05, 0x01, &[]);
    let third = build_ucd2_frame(0x04, 0x12, &[9; 20]);
    let mut buffer = first.clone();
    buffer.extend_from_slice(&second);
    buffer.extend_from_slice(&third[..10]);
    assert_eq!(extract_complete_ucd2_frames(&mut buffer), vec![first, second]);
    assert_eq!(buffer, third[..10].to_vec());
    buffer.extend_from_slice(&third[10..]);
    assert_eq!(extract_complete_ucd2_frames(&mut buffer), vec![third]);
    assert!(buffer.is_empty());
}
