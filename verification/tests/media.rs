use luna_linker::listing::{merge_storage_listings, plan_media_deletion, storage_files, FileListQuery};
use luna_linker::media::{
    build_delete_files_body, camera_file_from_path, camera_path_from_url, file_kind,
    first_camera_media_path, internal_storage, media_timestamp_from_name, parse_file_list_paths,
    percent_decode_path, sdcard_storage, storages_for, LunaFile, MediaError,
};
use luna_linker::protobuf::encode_varint;
use luna_linker::camera::{connection_attempts, media_session_setup, CameraCaptureMode, CommandError};
use luna_linker::dir_index::{parse_camera_subdirs, parse_index, IndexError};

fn list_body(paths: &[&str]) -> Vec<u8> {
    let mut body = Vec::new();
    for path in paths {
        body.push(0x0a);
        encode_varint(path.len() as u64, &mut body);
        body.extend_from_slice(path.as_bytes());
    }
    body
}

#[test]
fn ucd2_file_list_response_builds_daily_media_items() {
    let paths = [
        "/storage_internal/DCIM/Camera01/IMG_20260722_193028_206.jpg",
        "/DCIM/Camera01/VID_20260722_193010_205.mp4",
    ];
    let mut body = Vec::new();
    for path in paths {
        body.push(0x0a);
        encode_varint(path.len() as u64, &mut body);
        body.extend_from_slice(path.as_bytes());
    }
    body.extend_from_slice(&[0x10, 0x00]);

    assert_eq!(parse_file_list_paths(&body).unwrap(), paths);

    let photo = camera_file_from_path("192.168.42.1", paths[0], internal_storage()).unwrap().unwrap();
    assert_eq!(photo.name, "IMG_20260722_193028_206.jpg");
    assert_eq!(photo.date, "2026-07-22");
    assert_eq!(photo.time, "19:30");
    assert_eq!(photo.storage_id, "storage_internal");
    assert_eq!(photo.kind, "JPG");

    let video = camera_file_from_path("192.168.42.1", paths[1], sdcard_storage()).unwrap().unwrap();
    assert_eq!(video.storage_id, "sdcard");
    assert_eq!(video.storage_label, "SD 卡");
    assert_eq!(video.kind, "MP4");
    assert!(video.url.ends_with("/DCIM/Camera01/VID_20260722_193010_205.mp4"));
}

#[test]
fn delete_body_and_camera_path_validation_match_protocol() {
    let first = "/storage_internal/DCIM/Camera01/IMG_20260715_120000.jpg".to_string();
    let second = "/storage_internal/DCIM/Camera01/视频 01.mp4".to_string();
    let body = build_delete_files_body(&[first.clone(), second.clone()]).expect("delete body");
    assert_eq!(body[0], 0x0a);
    assert_eq!(body[1] as usize, first.len());
    assert_eq!(&body[2..2 + first.len()], first.as_bytes());
    let second_offset = 2 + first.len();
    assert_eq!(body[second_offset], 0x0a);
    assert_eq!(body[second_offset + 1] as usize, second.len());

    let long = format!("/storage_internal/DCIM/Camera01/{}.jpg", "a".repeat(130));
    let long_body = build_delete_files_body(&[long.clone()]).expect("long delete body");
    assert_eq!(&long_body[..3], &[0x0a, 0xa6, 0x01]);
    assert_eq!(&long_body[3..], long.as_bytes());

    assert_eq!(
        camera_path_from_url(
            "192.168.42.1",
            "http://192.168.42.1/DCIM/Camera01/%E8%A7%86%E9%A2%91%2001.mp4",
        )
        .expect("valid encoded camera path"),
        "/DCIM/Camera01/视频 01.mp4"
    );
    assert!(camera_path_from_url("192.168.42.1", "http://example.com/DCIM/a.jpg").is_err());
    assert!(camera_path_from_url("192.168.42.1", "http://192.168.42.1/private/a.jpg").is_err());
    assert!(
        camera_path_from_url("192.168.42.1", "http://192.168.42.1/DCIM/Camera01/%2e%2e/private.jpg")
            .is_err()
    );
}

#[test]
fn camera_path_errors_name_their_cause() {
    assert_eq!(
        camera_path_from_url("192.168.42.1", "http://192.168.42.1/DCIM/a%2Fb.jpg"),
        Err(MediaError::EncodedSeparator)
    );
    assert_eq!(camera_path_from_url("192.168.42.1", "not a url"), Err(MediaError::InvalidMediaUrl));
    assert_eq!(camera_path_from_url("192.168.42.1", "ftp://192.168.42.1/DCIM/a.jpg"), Err(MediaError::NotHttp));
    assert_eq!(
        camera_path_from_url("192.168.42.1", "http://192.168.42.1:8080/DCIM/a.jpg"),
        Err(MediaError::ForeignHost)
    );
    assert_eq!(
        camera_path_from_url("192.168.42.1", "http://192.168.42.1/DCIM/a%zz.jpg"),
        Err(MediaError::InvalidPercentEncoding)
    );
    assert_eq!(
        camera_path_from_url("192.168.42.1", "http://192.168.42.1/DCIM/a%ff.jpg"),
        Err(MediaError::MediaPathNotUtf8)
    );
    assert_eq!(
        camera_path_from_url("192.168.42.1", "http://192.168.42.1/DCIM/Camera01/"),
        Err(MediaError::OutsideMediaRoot)
    );
    assert_eq!(
        camera_path_from_url("192.168.42.1", "http://192.168.42.1/DCIM//a.jpg"),
        Err(MediaError::OutsideMediaRoot)
    );
    assert_eq!(camera_path_from_url("bad host", "http://192.168.42.1/DCIM/a.jpg"), Err(MediaError::InvalidHost));
    assert_eq!(
        camera_path_from_url("192.168.42.1", "https://192.168.42.1:80/sdcard/DCIM/a.jpg").unwrap(),
        "/sdcard/DCIM/a.jpg"
    );
    assert_eq!(
        camera_path_from_url("192.168.42.1", "http://192.168.42.1/sdcard/DCIM/Camera01/a.jpg").unwrap(),
        "/sdcard/DCIM/Camera01/a.jpg"
    );
}

#[test]
fn percent_decoding_reads_escapes_of_either_case() {
    assert_eq!(percent_decode_path("/a%20b%2A").unwrap(), "/a b*");
    assert_eq!(percent_decode_path("%4"), Err(MediaError::InvalidPercentEncoding));
    assert_eq!(percent_decode_path("abc%41"), Ok("abcA".to_string()));
}

#[test]
fn file_list_parsing_skips_other_fields_and_reports_errors() {
    let mut body = list_body(&["/DCIM/a.jpg"]);
    body.extend_from_slice(&[0x08, 0x96, 0x01, 0x11, 1, 2, 3, 4, 5, 6, 7, 8, 0x1d, 1, 2, 3, 4, 0x12, 0x01, 0x41]);
    assert_eq!(parse_file_list_paths(&body).unwrap(), vec!["/DCIM/a.jpg".to_string()]);
    assert_eq!(parse_file_list_paths(&[0x80]), Err(MediaError::FieldTruncated));
    assert_eq!(parse_file_list_paths(&[0x08, 0x80]), Err(MediaError::VarintTruncated));
    assert_eq!(parse_file_list_paths(&[0x09, 1, 2]), Err(MediaError::FixedOutOfRange));
    assert_eq!(parse_file_list_paths(&[0x0a, 0x80]), Err(MediaError::LengthTruncated));
    assert_eq!(parse_file_list_paths(&[0x0a, 0x05, 0x41]), Err(MediaError::StringOutOfRange));
    assert_eq!(parse_file_list_paths(&[0x0a, 0x01, 0xff]), Err(MediaError::PathNotUtf8));
    assert_eq!(parse_file_list_paths(&[0x0b]), Err(MediaError::UnsupportedField));
}

#[test]
fn media_items_follow_storage_roots_and_extensions() {
    assert!(camera_file_from_path("192.168.42.1", "/DCIM/Camera01/a.jpg", internal_storage()).unwrap().is_none());
    assert!(camera_file_from_path("192.168.42.1", "/storage_internal/DCIM/Camera01/a.txt", internal_storage())
        .unwrap()
        .is_none());
    assert!(camera_file_from_path("192.168.42.1", "/storage_internal/DCIM/Camera01/", internal_storage())
        .unwrap()
        .is_none());
    let sd = camera_file_from_path("192.168.42.1", "/sdcard/DCIM/Camera01/X.INSV", sdcard_storage()).unwrap().unwrap();
    assert_eq!(sd.kind, "INSV");
    assert_eq!(sd.date, "日期未知");
    assert_eq!(sd.time, "");
    assert_eq!(sd.size_text, "大小未知");
    assert_eq!(sd.bytes, None);
    assert_eq!(
        camera_file_from_path("bad host", "/DCIM/a.jpg", sdcard_storage()).unwrap_err(),
        MediaError::InvalidHost
    );
}

#[test]
fn timestamps_and_kinds_come_from_file_names() {
    assert_eq!(
        media_timestamp_from_name("IMG_20260722_193028_206.jpg"),
        ("2026-07-22".to_string(), "19:30".to_string())
    );
    assert_eq!(
        media_timestamp_from_name("IMG_2026072_193028.jpg"),
        ("日期未知".to_string(), String::new())
    );
    assert_eq!(media_timestamp_from_name("VID_20260722_1930.mp4"), ("日期未知".to_string(), String::new()));
    assert_eq!(file_kind("a.lrv"), "LRV");
    assert_eq!(file_kind("noext"), "NOEXT");
    assert_eq!(file_kind("trailing."), "FILE");
}

#[test]
fn storage_names_select_storages() {
    let all = storages_for("all").unwrap();
    assert_eq!(all.len(), 2);
    assert_eq!(all[0].selector, 2);
    assert_eq!(all[1].selector, 3);
    assert_eq!(storages_for("sd").unwrap()[0].id, "sdcard");
    assert_eq!(storages_for("internal").unwrap()[0].id, "storage_internal");
    assert!(matches!(storages_for("usb"), Err(MediaError::UnknownStorage)));
    assert_eq!(MediaError::UnknownStorage.message(), "未知存储位置：");
}

#[test]
fn media_paths_are_found_in_command_answers() {
    assert_eq!(
        first_camera_media_path(b"\x0a\x20/storage_internal/DCIM/Camera01/a.jpg\x10\x01"),
        Some("/DCIM/Camera01/a.jpg".to_string())
    );
    assert_eq!(first_camera_media_path(b"no path here"), None);
}

#[test]
fn file_list_queries_page_through_both_categories() {
    let mut query = FileListQuery::new(internal_storage());
    assert_eq!(query.next_request().unwrap(), vec![0x08, 0x02, 0x18, 0x64, 0x20, 0x02]);
    let page: Vec<String> = (0..100).map(|i| format!("/storage_internal/DCIM/Camera01/IMG_{i}.jpg")).collect();
    let body: Vec<u8> = {
        let refs: Vec<&str> = page.iter().map(|s| s.as_str()).collect();
        list_body(&refs)
    };
    query.accept_response(&body).unwrap();
    assert_eq!(query.next_request().unwrap(), vec![0x08, 0x02, 0x10, 0x64, 0x18, 0x64, 0x20, 0x02]);
    query.accept_response(&body).unwrap();
    assert_eq!(query.next_request().unwrap(), vec![0x08, 0x03, 0x18, 0x64, 0x20, 0x02]);
    query.accept_page(vec![page[0].clone(), "/storage_internal/DCIM/Camera01/new.jpg".to_string()]);
    assert!(query.is_done());
    assert!(query.next_request().is_none());
    let paths = query.into_paths();
    assert_eq!(paths.len(), 101);
    assert_eq!(paths[100], "/storage_internal/DCIM/Camera01/new.jpg");
}

#[test]
fn file_list_query_stops_on_a_bad_answer() {
    let mut query = FileListQuery::new(sdcard_storage());
    assert_eq!(query.accept_response(&[0x0a, 0x05]), Err(MediaError::StringOutOfRange));
}

fn file(url: &str, storage_id: &str) -> LunaFile {
    LunaFile {
        name: "a.jpg".to_string(),
        url: url.to_string(),
        date: "日期未知".to_string(),
        time: String::new(),
        size_text: "大小未知".to_string(),
        bytes: None,
        kind: "JPG".to_string(),
        storage_id: storage_id.to_string(),
        storage_label: String::new(),
    }
}

#[test]
fn listings_merge_and_drop_repeated_addresses() {
    let storages = [internal_storage(), sdcard_storage()];
    let merged = merge_storage_listings(
        &storages,
        &[
            Ok(vec![file("http://h/1.jpg", "storage_internal"), file("http://h/2.jpg", "storage_internal")]),
            Ok(vec![file("http://h/2.jpg", "sdcard"), file("http://h/3.jpg", "sdcard")]),
        ],
    )
    .unwrap();
    let urls: Vec<&str> = merged.iter().map(|f| f.url.as_str()).collect();
    assert_eq!(urls, vec!["http://h/1.jpg", "http://h/2.jpg", "http://h/3.jpg"]);
    assert_eq!(merged[1].storage_id, "storage_internal");

    let partial = merge_storage_listings(
        &storages,
        &[Err("超时".to_string()), Ok(vec![file("http://h/3.jpg", "sdcard")])],
    )
    .unwrap();
    assert_eq!(partial.len(), 1);

    let failed = merge_storage_listings(&storages, &[Err("超时".to_string()), Err("断开".to_string())]);
    assert_eq!(failed.unwrap_err(), "内部存储：超时；SD 卡：断开");
}

#[test]
fn storage_files_keep_only_media_of_the_storage() {
    let files = storage_files(
        "192.168.42.1",
        internal_storage(),
        &[
            "/storage_internal/DCIM/Camera01/a.jpg".to_string(),
            "/DCIM/Camera01/b.jpg".to_string(),
            "/storage_internal/DCIM/Camera01/c.txt".to_string(),
        ],
    )
    .unwrap();
    assert_eq!(files.len(), 1);
    assert_eq!(files[0].name, "a.jpg");
    assert_eq!(files[0].url, "http://192.168.42.1/storage_internal/DCIM/Camera01/a.jpg");
}

#[test]
fn deletions_are_planned_once_per_path_in_batches() {
    let urls: Vec<String> = (0..120)
        .map(|i| format!("http://192.168.42.1/DCIM/Camera01/{}.jpg", i % 110))
        .collect();
    let (paths, bodies) = plan_media_deletion("192.168.42.1", &urls).unwrap();
    assert_eq!(paths.len(), 110);
    assert_eq!(bodies.len(), 3);
    assert_eq!(bodies[0], build_delete_files_body(&paths[0..50]).unwrap());
    assert_eq!(bodies[2], build_delete_files_body(&paths[100..110]).unwrap());
    assert_eq!(plan_media_deletion("192.168.42.1", &[]).unwrap_err(), MediaError::NothingToDelete);
    assert_eq!(
        plan_media_deletion("192.168.42.1", &["http://other/DCIM/a.jpg".to_string()]).unwrap_err(),
        MediaError::ForeignHost
    );
    assert_eq!(build_delete_files_body(&[]).unwrap_err(), MediaError::NothingToDelete);
}

#[test]
fn media_index_discovers_camera_directories_and_marks_storage() {
    let root = r#"<a href="../">../</a>
<a href="Camera01/">Camera01/</a> 22-Jul-2026 19:20 -
<a href="Camera02/">Camera02/</a> 22-Jul-2026 19:21 -"#;
    assert_eq!(
        parse_camera_subdirs(root).expect("camera directories"),
        vec!["Camera01", "Camera02"]
    );

    let file_index = r#"<a href="../">../</a>
<a href="IMG_20260722_193028_206.jpg">IMG_20260722_193028_206.jpg</a> 22-Jul-2026 19:30 4.5M"#;
    let internal = parse_index(
        file_index,
        "http://192.168.42.1/storage_internal/DCIM/Camera01/",
        internal_storage(),
    )
    .expect("internal index");
    let sdcard = parse_index(
        file_index,
        "http://192.168.42.1/DCIM/Camera01/",
        sdcard_storage(),
    )
    .expect("sdcard index");

    assert_eq!(internal[0].storage_id, "storage_internal");
    assert_eq!(internal[0].storage_label, "内部存储");
    assert_eq!(sdcard[0].storage_id, "sdcard");
    assert_eq!(sdcard[0].storage_label, "SD 卡");
    assert!(internal[0].url.contains("/storage_internal/DCIM/Camera01/"));
    assert!(sdcard[0].url.contains("/DCIM/Camera01/"));
}

#[test]
fn listing_pages_are_read_row_by_row() {
    let root = r#"<a href="Camera10/">x</a> <A HREF="camera02/">y</a>
<a href="Camera10/">again</a> <a href="Other/">o</a> <a href="Camera3">no slash</a>"#;
    assert_eq!(parse_camera_subdirs(root).unwrap(), vec!["Camera10", "camera02"]);

    let page = r#"<a href="a&amp;b.MP4">a&amp;b.MP4</a>   01-Aug-2026 08:05  12K
<a href="sub/">sub/</a> 01-Aug-2026 08:05 -
<a href="x.jpg">../</a> 01-Aug-2026 08:05 1"#;
    let files = parse_index(page, "http://cam/DCIM/Camera01///", internal_storage()).unwrap();
    assert_eq!(files.len(), 1);
    assert_eq!(files[0].name, "a&b.MP4");
    assert_eq!(files[0].url, "http://cam/DCIM/Camera01/a&b.MP4");
    assert_eq!(files[0].date, "01-Aug-2026");
    assert_eq!(files[0].time, "08:05");
    assert_eq!(files[0].size_text, "12K");
    assert_eq!(files[0].bytes, None);
    assert_eq!(files[0].kind, "MP4");

    assert!(matches!(
        parse_index("<h1>401 Unauthorized</h1>", "http://cam/", internal_storage()),
        Err(IndexError::Unauthorized)
    ));
    assert!(matches!(parse_index("<h1>empty</h1>", "http://cam/", internal_storage()), Ok(v) if v.is_empty()));
    assert_eq!(IndexError::Unauthorized.message(), "camera returned unauthorized directory page");
}

#[test]
fn capture_modes_are_read_by_name() {
    assert_eq!(CameraCaptureMode::from_name("photo"), Ok(CameraCaptureMode::Photo));
    assert_eq!(CameraCaptureMode::from_name("video"), Ok(CameraCaptureMode::Video));
    assert_eq!(CameraCaptureMode::from_name("timelapse"), Err(CommandError::UnsupportedCaptureMode));
    assert_eq!(CommandError::UnsupportedCaptureMode.message(), "不支持的拍摄模式：");
}

#[test]
fn media_sessions_are_set_up_in_the_recorded_order() {
    let setup = media_session_setup(1_700_000_000);
    let ids: Vec<u16> = setup.iter().map(|c| c.command_id).collect();
    assert_eq!(ids, vec![0x000f, 0x0008, 0x0027, 0x0007, 0x0008]);
    let timeouts: Vec<u64> = setup.iter().map(|c| c.timeout_secs).collect();
    assert_eq!(timeouts, vec![6, 8, 6, 6, 6]);
    assert!(setup[0].body.is_empty());
    assert_eq!(setup[4].body, vec![0x08, 0x0b, 0x08, 0x55, 0x08, 0xb4, 0x01]);
    assert_eq!(setup[1].failure, "读取 Luna 媒体能力失败");
    assert_eq!(connection_attempts(false), (3, 350));
    assert_eq!(connection_attempts(true), (1, 350));
}
