use forest_chat::meeting::screen_capture::{
    capture_source, default_target, encode_frame, jpeg_data_url, share_sources,
    thumbnail_data_url, to_rgb_720p, to_rgb_scaled, CaptureTarget, MonitorInfo, ScreenCapturer,
    WindowInfo,
};

#[test]
fn drops_the_alpha_channel_and_keeps_small_frames_untouched() {
    let rgba = vec![1, 2, 3, 255, 4, 5, 6, 255];
    let (rgb, width, height) = to_rgb_720p(&rgba, 2, 1);

    assert_eq!((width, height), (2, 1));
    assert_eq!(rgb, vec![1, 2, 3, 4, 5, 6]);
}

#[test]
fn downsamples_a_4k_frame_to_a_1280px_long_edge() {
    let (width, height) = (3840, 2160);
    let rgba = vec![7u8; (width * height * 4) as usize];
    let (rgb, out_width, out_height) = to_rgb_720p(&rgba, width, height);

    assert_eq!((out_width, out_height), (1280, 720));
    assert_eq!(rgb.len(), (1280 * 720 * 3) as usize);
}

#[test]
fn a_tall_frame_is_shrunk_by_its_height() {
    let rgba = vec![0u8; 2 * 8 * 4];
    let (rgb, w, h) = to_rgb_scaled(&rgba, 2, 8, 4);
    assert_eq!((w, h), (1, 4));
    assert_eq!(rgb.len(), 12);
}

#[test]
fn shrinking_samples_the_nearest_source_pixel() {
    // A 4x1 frame whose pixels are 10, 20, 30, 40 in every channel, halved.
    let mut rgba = Vec::new();
    for v in [10u8, 20, 30, 40] {
        rgba.extend_from_slice(&[v, v, v, 255]);
    }
    let (rgb, w, h) = to_rgb_scaled(&rgba, 4, 1, 2);
    assert_eq!((w, h), (2, 1));
    assert_eq!(rgb, vec![10, 10, 10, 30, 30, 30]);
}

#[test]
fn a_thin_frame_keeps_at_least_one_pixel_per_edge() {
    let rgba = vec![9u8; 100 * 1 * 4];
    let (rgb, w, h) = to_rgb_scaled(&rgba, 100, 1, 10);
    assert_eq!((w, h), (10, 1));
    assert_eq!(rgb.len(), 30);
}

#[test]
fn an_empty_frame_has_no_thumbnail() {
    assert_eq!(thumbnail_data_url(&[], 0, 0), None);
    assert_eq!(thumbnail_data_url(&[], 0, 5), None);
}

#[test]
fn a_thumbnail_is_a_jpeg_data_url() {
    let rgba = vec![200u8; 16 * 16 * 4];
    let url = thumbnail_data_url(&rgba, 16, 16).expect("a small frame encodes");
    // A JPEG file starts FF D8 FF, which base64 writes as "/9j/".
    assert!(url.starts_with("data:image/jpeg;base64,/9j/"));
}

#[test]
fn a_frame_encodes_to_a_jpeg_file() {
    let rgba = vec![50u8; 8 * 4 * 4];
    let jpeg = encode_frame(&rgba, 8, 4).expect("a small frame encodes");
    assert_eq!(&jpeg[..3], &[0xFF, 0xD8, 0xFF]);
}

#[test]
fn data_urls_use_padded_standard_base64() {
    assert_eq!(jpeg_data_url(&[]), "data:image/jpeg;base64,");
    assert_eq!(jpeg_data_url(&[0xFF]), "data:image/jpeg;base64,/w==");
    assert_eq!(jpeg_data_url(&[0xFB, 0xFF]), "data:image/jpeg;base64,+/8=");
    assert_eq!(jpeg_data_url(b"Man"), "data:image/jpeg;base64,TWFu");
}

fn monitor(id: Option<u32>, name: Option<&str>, is_primary: bool) -> MonitorInfo {
    MonitorInfo { id, name: name.map(|n| n.to_string()), is_primary, thumbnail: None }
}

fn window(id: Option<u32>, title: &str, app: &str, minimized: bool) -> WindowInfo {
    WindowInfo {
        id,
        title: title.to_string(),
        app_name: app.to_string(),
        is_minimized: minimized,
        thumbnail: Some("data:x".to_string()),
    }
}

#[test]
fn sharing_defaults_to_the_primary_monitor() {
    let ms = vec![monitor(Some(3), None, false), monitor(Some(7), None, true)];
    assert_eq!(default_target(&ms), CaptureTarget::Monitor(7));
    let ms = vec![monitor(Some(3), None, false), monitor(Some(4), None, false)];
    assert_eq!(default_target(&ms), CaptureTarget::Monitor(3));
    assert_eq!(default_target(&vec![]), CaptureTarget::Monitor(0));
    let ms = vec![monitor(Some(3), None, false), monitor(None, None, true)];
    assert_eq!(default_target(&ms), CaptureTarget::Monitor(0));
}

#[test]
fn the_picker_lists_monitors_then_visible_windows() {
    let ms = vec![
        monitor(Some(1), Some("DELL"), true),
        monitor(None, Some("broken"), false),
        monitor(Some(2), None, false),
    ];
    let ws = vec![
        window(Some(10), "Inbox", "Mail", false),
        window(Some(11), "Hidden", "App", true),
        window(Some(12), "  ", "\t", false),
        window(Some(13), " ", "Terminal", false),
        window(None, "No id", "App", false),
    ];
    let sources = share_sources(&ms, &ws);
    let titles: Vec<&str> = sources.iter().map(|s| s.title.as_str()).collect();
    assert_eq!(titles, vec!["DELL (primary)", "Display 2", "Inbox", "Terminal"]);
    assert_eq!(sources[0].target, CaptureTarget::Monitor(1));
    assert_eq!(sources[0].app_name, "Entire screen");
    assert_eq!(sources[2].target, CaptureTarget::Window(10));
    assert_eq!(sources[3].app_name, "Terminal");
    assert_eq!(sources[3].thumbnail.as_deref(), Some("data:x"));
}

#[test]
fn a_capture_reads_the_source_it_was_given() {
    let ids = vec![Some(4), None, Some(9), Some(9)];
    assert_eq!(capture_source(CaptureTarget::Monitor(9), &ids), Some(2));
    assert_eq!(capture_source(CaptureTarget::Monitor(5), &ids), Some(0));
    assert_eq!(capture_source(CaptureTarget::Window(9), &ids), Some(2));
    assert_eq!(capture_source(CaptureTarget::Window(5), &ids), None);
    assert_eq!(capture_source(CaptureTarget::Monitor(5), &vec![]), None);
}

#[test]
fn a_second_start_finds_the_capture_running() {
    let mut capturer = ScreenCapturer::new();
    assert!(!capturer.is_capturing());
    assert!(!capturer.begin_capture());
    assert!(capturer.is_capturing());
    assert!(capturer.begin_capture());
    assert!(capturer.is_capturing());
    capturer.stop_capture();
    assert!(!capturer.is_capturing());
}

#[test]
fn a_zero_long_edge_leaves_the_first_pixel() {
    let rgba = vec![1, 2, 3, 4, 5, 6, 7, 8, 9, 10, 11, 12, 13, 14, 15, 16];
    assert_eq!(to_rgb_scaled(&rgba, 2, 2, 0), (vec![1, 2, 3], 1, 1));
}
