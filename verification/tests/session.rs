use luna_linker::camera::CameraCaptureMode;
use luna_linker::probe::{
    device_info_frame, hex_packets_fit_windows, luna_status, message_hint, negotiation_sync_bytes, parse_hex_packets,
    parse_ucd2_frames, printable_ascii, printable_strings, session_opening_frames,
    HexPacketError, StopCaptureVariant, Ucd2ProbeResult,
};
use luna_linker::session::{
    bytes_to_hex, is_session_ready_frame, status_message, CameraWorker, ControlError,
    ControlState, FrameEvent, PreviewDelivery, WaitStart,
};
use luna_linker::ucd2::{build_internal_packet_with_request_id, build_ucd2_frame};
use luna_linker::ucd2_client::{
    build_get_options_payload, build_set_capture_mode_payload, build_set_options_payload,
    check_response_type, parse_get_options_response, unexpected_response_message, HeaderError,
    MessageSequence, Ucd2Header, Ucd2MessageType,
};

fn answer(status: u16, request_id: u32, body: &[u8]) -> Vec<u8> {
    let mut payload = status.to_le_bytes().to_vec();
    payload.push(0x02);
    payload.extend_from_slice(&request_id.to_le_bytes());
    payload.extend_from_slice(&[0, 0]);
    payload.extend_from_slice(body);
    build_ucd2_frame(0x04, 0x33, &payload)
}

#[test]
fn session_opening_frames_are_the_captured_ones() {
    let frames = session_opening_frames();
    assert_eq!(
        frames[0],
        vec![0x55, 0x43, 0x44, 0x32, 0x01, 0x0C, 0x05, 0x0F, 0x00, 0x00, 0x00, 0x00, 0x37, 0x05, 0x47, 0x7C]
    );
    assert_eq!(
        frames[1],
        vec![
            0x55, 0x43, 0x44, 0x32, 0x01, 0x0C, 0x04, 0x10, 0x0F, 0x00, 0x00, 0x00, 0x08, 0x00, 0x02,
            0x01, 0x00, 0x00, 0x80, 0x00, 0x00, 0x08, 0x30, 0x08, 0x0F, 0x08, 0x0B, 0x7C, 0x00, 0x8E,
            0x7C,
        ]
    );
    assert_eq!(device_info_frame(), frames[1]);
    assert_eq!(negotiation_sync_bytes(), b"syNceNdinS".to_vec());
}

#[test]
fn session_ready_needs_the_opening_acknowledgement() {
    assert!(is_session_ready_frame(&answer(0xc8, 0x8000_0001, &[])));
    assert!(!is_session_ready_frame(&answer(0xc8, 0x8000_0002, &[])));
    assert!(!is_session_ready_frame(&answer(0xc9, 0x8000_0001, &[])));
    assert!(!is_session_ready_frame(&[0x55, 0x43]));
}

#[test]
fn commands_are_answered_once_with_their_command_id() {
    let mut worker = CameraWorker::new();
    let (frame, request_id) = worker.command_frame(0x0003, &[0x30, 0x03]);
    assert_eq!(request_id, 0x8000_0002);
    assert_eq!(
        frame,
        build_ucd2_frame(0x04, 0x11, &build_internal_packet_with_request_id(0x0003, 0x02, 0x8000_0002, &[0x30, 0x03]))
    );
    assert_eq!(worker.next_sequence, 0x12);
    worker.command_sent(0x0003, request_id);

    match worker.handle_frame(&answer(0xc8, request_id, b"\x0a\x05/DCIM/a.jpg")) {
        FrameEvent::Answer { request_id: rid, command_id, outcome: Ok(response) } => {
            assert_eq!(rid, request_id);
            assert_eq!(command_id, 0x0003);
            assert_eq!(response.body_hex, "0a 05 2f 44 43 49 4d 2f 61 2e 6a 70 67");
            assert_eq!(response.media_path.as_deref(), Some("/DCIM/a.jpg"));
        }
        other => panic!("unexpected {other:?}"),
    }
    assert!(matches!(worker.handle_frame(&answer(0xc8, request_id, &[])), FrameEvent::Unmatched));

    let (_, second) = worker.command_frame(0x0009, &[]);
    worker.command_sent(0x0009, second);
    match worker.handle_frame(&answer(0x0191, second, &[])) {
        FrameEvent::Answer { outcome: Err(status), command_id, .. } => {
            assert_eq!(status, 0x0191);
            assert_eq!(command_id, 0x0009);
            assert_eq!(status_message(status), "相机返回状态 0x0191");
        }
        other => panic!("unexpected {other:?}"),
    }
}

#[test]
fn state_events_release_matching_waits() {
    let mut worker = CameraWorker::new();
    assert_eq!(worker.wait_recording(true), WaitStart::Waiting);
    assert_eq!(worker.wait_recording(true), WaitStart::ReplacedPrevious);
    match worker.handle_frame(&answer(0x2010, 0, &[0x08, 0x00])) {
        FrameEvent::RecordingState { recording, released } => {
            assert!(!recording);
            assert!(!released);
        }
        other => panic!("unexpected {other:?}"),
    }
    assert_eq!(worker.wait_recording(false), WaitStart::Satisfied);
    match worker.handle_frame(&answer(0x2010, 0, &[0x08, 0x01, 0x38, 0x02])) {
        FrameEvent::RecordingState { recording, released } => {
            assert!(recording);
            assert!(released);
        }
        other => panic!("unexpected {other:?}"),
    }
    assert_eq!(worker.wait_gimbal_speed(2), WaitStart::Waiting);
    assert!(matches!(
        worker.handle_frame(&answer(0x206a, 0, &[0x10, 0x02])),
        FrameEvent::GimbalSpeed { level: 2, released: true }
    ));
    assert_eq!(worker.wait_capture_mode(CameraCaptureMode::Video), WaitStart::Waiting);
    assert!(matches!(
        worker.handle_frame(&answer(0x2053, 0, &[0x08, 0x64, 0x10, 0x00, 0x18, 0x03])),
        FrameEvent::CaptureMode { mode: CameraCaptureMode::Video, released: true }
    ));
    assert!(matches!(worker.handle_frame(&answer(0x2053, 0, &[0x08, 0x01])), FrameEvent::StateIgnored));
    assert!(worker.expire_request(5) == false);
    worker.shut_down();
    assert!(worker.mode_waiter.is_none());
}

#[test]
fn preview_chunks_wait_for_key_pictures_after_an_overflow() {
    let mut worker = CameraWorker::new();
    let mut payload = vec![0x20, 0, 0, 0, 0, 0, 0, 0, 0];
    payload.extend_from_slice(&[0x00, 0x00, 0x00, 0x01, 0x02, 0x01]);
    let plain = build_ucd2_frame(0x01, 0x01, &payload);
    assert!(matches!(worker.handle_frame(&plain), FrameEvent::Ignored));
    worker.command_sent(0x0001, 0x8000_0002);
    assert!(matches!(worker.handle_frame(&plain), FrameEvent::Preview { .. }));
    worker.preview_delivered(PreviewDelivery::Full);
    assert!(matches!(worker.handle_frame(&plain), FrameEvent::PreviewSkipped));
    let mut key_payload = vec![0x20, 0, 0, 0, 0, 0, 0, 0, 0];
    key_payload.extend_from_slice(&[0x00, 0x00, 0x00, 0x01, 0x40, 0x01]);
    assert!(matches!(worker.handle_frame(&build_ucd2_frame(0x01, 0x02, &key_payload)), FrameEvent::Preview { .. }));
    worker.preview_delivered(PreviewDelivery::Disconnected);
    assert!(matches!(worker.handle_frame(&plain), FrameEvent::Ignored));
    let heartbeat = worker.heartbeat_frame();
    assert_eq!(heartbeat, build_ucd2_frame(0x05, 0x11, &[]));
}

#[test]
fn user_commands_are_checked_against_the_camera_state() {
    let mut state = ControlState::new(Some(CameraCaptureMode::Photo));
    assert_eq!(state.check_take_photo(), Ok(()));
    assert_eq!(state.check_start_recording(), Err(ControlError::NotInVideoMode));
    assert_eq!(state.check_set_video_profile(), Err(ControlError::NotInVideoMode));
    assert_eq!(state.check_stop_recording(), Err(ControlError::NotRecording));
    state.capture_mode_switched(CameraCaptureMode::Video);
    assert_eq!(state.check_take_photo(), Err(ControlError::NotInPhotoMode));
    assert_eq!(state.check_start_recording(), Ok(()));
    state.recording_started();
    assert_eq!(state.check_start_recording(), Err(ControlError::AlreadyRecording));
    assert_eq!(state.check_switch_capture_mode(), Err(ControlError::SwitchWhileRecording));
    assert_eq!(state.check_set_video_profile(), Err(ControlError::ProfileWhileRecording));
    assert_eq!(state.check_stop_recording(), Ok(()));
    state.recording_stopped();
    assert_eq!(state.check_set_zoom(), Ok(CameraCaptureMode::Video));
    let unknown = ControlState::new(None);
    assert_eq!(unknown.check_set_zoom(), Err(ControlError::NoCaptureMode));
    assert_eq!(ControlError::PhotoWhileRecording.message(), "录像过程中不能拍照");
}

#[test]
fn raw_frames_are_shown_readably() {
    let frame = build_ucd2_frame(0x05, 0x03, &[]);
    let mut bytes = vec![0x00, 0x01];
    bytes.extend_from_slice(&frame);
    let frames = parse_ucd2_frames(&bytes);
    assert_eq!(frames.len(), 1);
    assert_eq!(frames[0].offset, 2);
    assert_eq!(frames[0].message_type, "05 03");
    assert_eq!(frames[0].payload_len, 0);
    assert_eq!(frames[0].message_hint, "空 payload 会话控制帧候选：已观察到 05 01/03/05..，可能是 ACK、心跳或序号 3");
    assert_eq!(frames[0].frame_hex, bytes_to_hex(&frame));
    assert_eq!(message_hint(0x04, 0x22, 40), "设备信息响应候选：04 10 请求后返回；第二字节像会话序号/响应序号 34；payload 内含序列号/设备名");
    assert_eq!(message_hint(0x07, 0x00, 0), "未知 UCD2 帧");
    assert_eq!(printable_ascii(&[0x41, 0x00, 0x20]), "A. ");
    assert_eq!(printable_strings(b"\x00 Luna Ultra \x01abc\x02abcd"), vec!["Luna Ultra".to_string(), "abcd".to_string()]);
}

#[test]
fn typed_hex_packets_are_read_line_by_line() {
    let packets = parse_hex_packets("55 43:44-32\n\n  0a +f \r\n").unwrap();
    assert_eq!(packets, vec![vec![0x55, 0x43, 0x44, 0x32], vec![0x0a, 0x0f]]);
    match parse_hex_packets("aa\nabc\nzz") {
        Err(HexPacketError::OddLength(line)) => assert_eq!(line, "abc"),
        other => panic!("unexpected {other:?}"),
    }
    match parse_hex_packets(" zz ") {
        Err(error) => assert_eq!(error.message(), "invalid hex byte in packet: zz"),
        other => panic!("unexpected {other:?}"),
    }
    assert_eq!(parse_hex_packets("").unwrap(), Vec::<Vec<u8>>::new());
}

#[test]
fn a_built_frame_is_read_back_as_one_frame() {
    let payload = [0x20u8, 0x00, 0x41, 0x42];
    let frame = build_ucd2_frame(0x04, 0x12, &payload);
    let frames = parse_ucd2_frames(&frame);
    assert_eq!(frames.len(), 1);
    let read = &frames[0];
    assert_eq!(read.offset, 0);
    assert_eq!(read.version, 1);
    assert_eq!(read.header_len, 12);
    assert_eq!(read.message_type, "04 12");
    assert_eq!(read.payload_len, 4);
    assert_eq!(read.payload_hex, bytes_to_hex(&payload));
    assert_eq!(read.frame_hex, bytes_to_hex(&frame));
    assert_eq!(read.tail_hex, bytes_to_hex(&frame[16..]));
}

#[test]
fn typed_hex_ignores_blank_lines_separators_and_case() {
    let plain = parse_hex_packets("55 43 44 32\nff 0a").unwrap();
    assert_eq!(parse_hex_packets("\n55-43:44\t32\n   \n\nFF:0A\n").unwrap(), plain);
    assert_eq!(parse_hex_packets("55434432\nFf0A").unwrap(), plain);
}

#[test]
fn printed_hex_packets_read_back() {
    let packets = vec![vec![0x55u8, 0x43, 0x44, 0x32, 0x01], vec![0x00], vec![0xff, 0x0a]];
    let text = packets.iter().map(|p| bytes_to_hex(p)).collect::<Vec<_>>().join("\n");
    assert_eq!(text, "55 43 44 32 01\n00\nff 0a");
    assert_eq!(parse_hex_packets(&text).unwrap(), packets);
}

#[test]
fn typed_hex_that_would_cut_a_character_is_recognised() {
    assert!(hex_packets_fit_windows("55 43\n0a"));
    assert!(hex_packets_fit_windows("\u{e9}"));
    assert!(!hex_packets_fit_windows("a\u{e9}1"));
    assert!(!hex_packets_fit_windows("aa\na\u{e9}1"));
    assert!(hex_packets_fit_windows("zz\na\u{e9}1"));
    assert!(hex_packets_fit_windows("a\u{e9}"));
    match parse_hex_packets("\u{e9}") {
        Err(HexPacketError::InvalidByte(line)) => assert_eq!(line, "\u{e9}"),
        other => panic!("unexpected {other:?}"),
    }
}

#[test]
fn status_messages_follow_the_ports_reached() {
    assert_eq!(luna_status("h", true, true, true).message, "Detected Luna HTTP and UCD2 control ports");
    assert_eq!(
        luna_status("h", true, false, true).message,
        "HTTP reachable, but UCD2 control port 6666 is unavailable"
    );
    let untouched = luna_status("h", true, true, false);
    assert!(!untouched.control_ok);
    assert_eq!(untouched.message, "HTTP reachable. Control port not touched; use List media to open UCD2 session.");
    assert_eq!(luna_status("h", false, true, true).message, "UCD2 control reachable, but HTTP port 80 is unavailable");
    assert_eq!(luna_status("h", false, false, false).message, "Camera not reachable on ports 80/6666");
    assert_eq!(StopCaptureVariant::from_name("seq_4121"), Some(StopCaptureVariant::Seq4121));
    assert_eq!(StopCaptureVariant::from_name("other"), None);
}

#[test]
fn older_headers_round_trip_with_one_more_byte() {
    let header = Ucd2Header::new(Ucd2MessageType::GetOptions, 7, 300);
    let mut bytes = header.to_bytes();
    assert_eq!(bytes, vec![0x55, 0x43, 0x44, 0x32, 0x01, 0x01, 0x04, 0x07, 0, 0, 0, 0x2c, 0x01, 0, 0]);
    assert_eq!(Ucd2Header::from_bytes(&bytes), Err(HeaderError::TooShort));
    bytes.push(0);
    assert_eq!(Ucd2Header::from_bytes(&bytes), Ok(header));
    bytes[0] = 0;
    assert_eq!(Ucd2Header::from_bytes(&bytes), Err(HeaderError::BadMagic));
}

#[test]
fn older_messages_and_answers() {
    let mut sequence = MessageSequence::new();
    let message = sequence.next_message(Ucd2MessageType::TakePicture, &[]);
    assert_eq!(message, vec![0x55, 0x43, 0x44, 0x32, 0x01, 0x02, 0x03, 0x01, 0, 0, 0, 0, 0, 0, 0]);
    assert_eq!(build_set_capture_mode_payload("photo"), vec![0x0a, 5, b'p', b'h', b'o', b't', b'o']);
    assert_eq!(
        build_set_options_payload(&[("iso".to_string(), "100".to_string())]),
        vec![0x0a, 10, 0x0a, 3, b'i', b's', b'o', 0x12, 3, b'1', b'0', b'0']
    );
    assert_eq!(build_get_options_payload(&["ev".to_string()]), vec![0x0a, 2, b'e', b'v']);
    let header = Ucd2Header::new(Ucd2MessageType::StopCaptureResp, 1, 0);
    assert_eq!(check_response_type(header, Ucd2MessageType::StopCaptureResp), Ok(()));
    assert_eq!(check_response_type(header, Ucd2MessageType::TakePictureResp), Err(0x0304));
    assert_eq!(unexpected_response_message(0x0304), "Unexpected response type: 0x0304");
    let options = parse_get_options_response(b"\x01\x0a\x07 iso=1 \x0a\x03bad\x0a\x05ev=+1\x0a\x09");
    assert_eq!(
        options,
        vec![("iso".to_string(), "1".to_string()), ("ev".to_string(), "+1".to_string())]
    );
}

#[test]
fn probe_records_keep_sent_and_received_frames() {
    let frame = build_ucd2_frame(0x05, 0x01, &[]);
    let mut record = Ucd2ProbeResult::new("192.168.42.1", vec!["note".to_string()]);
    record.record_sent(&frame);
    assert_eq!(record.sent_packets, vec![bytes_to_hex(&frame)]);
    assert_eq!(record.sent_frames.len(), 1);
    assert_eq!(record.sent_frames[0].frame_hex, bytes_to_hex(&frame));
    let mut twice = frame.clone();
    twice.extend_from_slice(&frame);
    record.record_received(&twice);
    assert_eq!(record.received_frames.len(), 2);
    let mut collected = Ucd2ProbeResult::new("192.168.42.1", Vec::new());
    collected.record_received_new_frames(&twice);
    collected.record_received_new_frames(&frame);
    assert_eq!(collected.received_packets.len(), 2);
    assert_eq!(collected.received_frames.len(), 1);
    let other = build_ucd2_frame(0x05, 0x02, &[]);
    collected.record_received_new_frames(&other);
    assert_eq!(collected.received_frames.len(), 2);
    assert_eq!(collected.received_frames[1].frame_hex, bytes_to_hex(&other));
    assert_eq!(collected.host, "192.168.42.1");
}
