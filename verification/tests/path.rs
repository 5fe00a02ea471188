use rusty_dlna_web::codec::{
    browser_audio_codec_string, browser_audio_content_type, browser_can_remux_audio,
    browser_can_remux_video, browser_stored_video_codec_string, browser_video_content_type,
    likely_browser_native, AudioCodec, Container, HdrKind, ProbeInfo, SourceMedia, VideoCodec,
};
use rusty_dlna_web::download::{download_content_disposition, safe_download_file_name};
use rusty_dlna_web::query::{percent_decode, QueryParams};
use rusty_dlna_web::route::{
    decimal_id, numbered_path, sheet_url, web_item_id, web_transcode_status_id,
};
use rusty_dlna_web::track::{browser_direct_codec_string, stored_audio_tracks};

#[test]
fn identifiers_are_read_back_from_their_paths() {
    for id in [1, 42, i64::MAX] {
        assert_eq!(decimal_id(&id.to_string()), Some(id));
        assert_eq!(web_item_id(&numbered_path("/api/web/item/", id, "")), Some(id));
        assert_eq!(
            web_transcode_status_id(&numbered_path("/api/web/transcode/", id, "")),
            Some(id)
        );
    }
    assert_eq!(sheet_url(7, "abc", 12), "/web/preview/7/abc/12.jpg");
}

#[test]
fn parameters_are_decoded_and_distinct() {
    assert_eq!(percent_decode("a%2Bb+c%E2%82%AC"), Ok("a+b c€".to_owned()));
    assert_eq!(percent_decode("%"), Err(()));
    assert_eq!(percent_decode("%2"), Err(()));
    assert_eq!(percent_decode("%zz"), Err(()));
    let params = QueryParams::parse("a=1&b=+7&c=4294967296");
    assert_eq!(params.get("a"), Some("1"));
    assert_eq!(params.get("z"), None);
    assert_eq!(params.optional_u32("c"), Err(()));
    assert_eq!(params.optional_u64("c"), Ok(Some(4_294_967_296)));
    assert_eq!(params.optional_u64("z"), Ok(None));
    assert_eq!(params.optional_usize("b"), Err(()), "a plus sign is a space");
    assert_eq!(QueryParams::parse("b=%2B7").optional_usize("b"), Ok(Some(7)));
    let sixteen: Vec<String> = (0..16).map(|n| format!("k{n}=v")).collect();
    let names: Vec<String> = (0..16).map(|n| format!("k{n}")).collect();
    let allowed: Vec<&str> = names.iter().map(String::as_str).collect();
    assert!(!QueryParams::parse(&sixteen.join("&")).has_unknown(&allowed));
}

#[test]
fn download_names_are_safe() {
    assert_eq!(safe_download_file_name("a/b\\c\u{7}.mkv", 42, "mkv"), "a_b_c_.mkv");
    assert_eq!(safe_download_file_name("..", 42, "m.k/v"), "video-42.mkv");
    assert_eq!(safe_download_file_name("  ", 42, ""), "video-42.bin");
    assert_eq!(safe_download_file_name(".", 42, "mkv"), "video-42.mkv");
    for raw in ["a/b\\c\u{7}.mkv", "..", "  a b ", " \u{7f} ", "Кино.mkv", ""] {
        let name = safe_download_file_name(raw, 42, "mkv");
        assert_eq!(name, name.trim());
        assert_eq!(safe_download_file_name(&name, 7, "webm"), name, "a second pass");
    }
    assert_eq!(
        download_content_disposition("Кино.mkv", 42, "mkv"),
        "attachment; filename=\"____.mkv\"; filename*=UTF-8''%D0%9A%D0%B8%D0%BD%D0%BE.mkv"
    );
    let extended = download_content_disposition("a b%c.mkv", 42, "mkv");
    let encoded = extended.split("UTF-8''").nth(1).unwrap();
    assert_eq!(percent_decode(encoded), Ok("a b%c.mkv".to_owned()));
}

#[test]
fn codecs_are_named_for_browsers() {
    assert_eq!(browser_audio_codec_string(" AAC "), Some("mp4a.40.2"));
    assert_eq!(browser_audio_codec_string("truehd"), None);
    assert_eq!(
        browser_audio_content_type("eac3").as_deref(),
        Some("audio/mp4; codecs=\"ec-3\"")
    );
    assert!(browser_can_remux_audio("mp3"));
    assert_eq!(
        browser_stored_video_codec_string("h264", "avc1.640028, mp4a.40.2").as_deref(),
        Some("avc1.640028")
    );
    assert_eq!(browser_stored_video_codec_string("h264", "mp4a.40.2"), None);
}

fn probe(codec_string: &str) -> ProbeInfo {
    ProbeInfo {
        container: "mp4".into(),
        video: "hevc".into(),
        hdr: String::new(),
        audio: "aac".into(),
        width: 1,
        height: 1,
        codec_string: codec_string.into(),
        video_profile: "High".into(),
        video_level: 51,
        pixel_format: "yuv420p".into(),
        bit_depth: 8,
        frame_rate: String::new(),
        video_timestamp_mode: String::new(),
        audio_layout: String::new(),
    }
}

#[test]
fn video_is_copied_only_where_browsers_take_it() {
    let source = SourceMedia {
        container: Container::Mp4,
        video_codec: VideoCodec::Hevc,
        hdr: HdrKind::Hdr10,
        audio: AudioCodec::Aac,
        width: 1,
        height: 1,
        requires_sdr_tonemap: true,
    };
    assert_eq!(
        browser_video_content_type(&probe("hev1.2.4.L153.B0"), &source).as_deref(),
        Some("video/mp4; codecs=\"hvc1.2.4.L153.B0\"")
    );
    assert!(browser_can_remux_video(&probe("hev1.2.4.L153.B0"), &source));
    let h264 = SourceMedia { video_codec: VideoCodec::H264, requires_sdr_tonemap: false, ..source };
    assert!(browser_can_remux_video(&probe("avc1.640028"), &h264));
    let mut deep = probe("avc1.640028");
    deep.bit_depth = 10;
    assert!(!browser_can_remux_video(&deep, &h264));
    let mut high = probe("avc1.640028");
    high.video_level = 52;
    assert!(!browser_can_remux_video(&high, &h264));
    let mut broken = probe("avc1.640028");
    broken.video_timestamp_mode = "broken-reordered".into();
    assert!(!browser_can_remux_video(&broken, &h264));
    assert!(likely_browser_native("video/mp4", &h264));
    assert!(likely_browser_native("video/webm", &source));
    assert!(likely_browser_native("audio/mpeg", &source));
    assert!(!likely_browser_native("audio/flac", &source));
}

#[test]
fn an_audio_codec_never_stands_in_for_a_video_codec() {
    let tracks = stored_audio_tracks(None, "ac3", 6);
    assert_eq!(
        browser_direct_codec_string("video/mp4", "h264", "avc1.640028", &tracks, 0).as_deref(),
        Some("avc1.640028,ac-3")
    );
    assert_eq!(browser_direct_codec_string("video/mp4", "h264", "mp4a.40.2", &tracks, 0), None);
    assert_eq!(
        browser_direct_codec_string("audio/mp4", "", "mp4a.40.2", &tracks, 0).as_deref(),
        Some("mp4a.40.2")
    );
}
