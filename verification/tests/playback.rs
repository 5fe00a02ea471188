use rusty_dlna_web::playback::{
    delivery_request, media_request, raw_parameter_is, AudioChoice, BrowserEncodingPreset,
    BrowserQuality, BrowserVideoOutput, Delivery, VideoMode, MAX_HLS_RESOURCE_BYTES,
    MAX_MSE_FRAGMENT_CURSOR,
};
use rusty_dlna_web::problem::Problem;
use rusty_dlna_web::query::QueryParams;

const MP4: &str = "/web/media/42.mp4";
const M3U8: &str = "/web/media/42.m3u8";
const M4S: &str = "/web/media/42.m4s";

fn problem(path: &str, query: &str) -> Option<Problem> {
    media_request(path, query, Some("video/mp4")).err()
}

#[test]
fn a_plain_playback_request_has_the_default_settings() {
    let request = media_request(MP4, "", Some("video/x-matroska")).ok().unwrap();
    assert_eq!(request.item, 42);
    assert_eq!(request.start_seconds, 0);
    assert_eq!(request.request_id, None);
    assert_eq!(request.session_id, None);
    assert!(!request.direct);
    assert_eq!(request.delivery, Delivery::Mp4);
    assert_eq!(request.hls_offset, None);
    assert_eq!(request.hls_length, None);
    assert_eq!(request.mse_after, None);
    assert_eq!(request.quality, BrowserQuality::Auto);
    assert_eq!(request.encoding_preset, BrowserEncodingPreset::Balanced);
    assert_eq!(request.video_mode, VideoMode::Transcode);
    assert_eq!(request.video_output, BrowserVideoOutput::H264Sdr);
    assert!(!request.copy_audio);
    assert_eq!(request.reason, "unspecified");
    assert_eq!(request.audio, AudioChoice::Default);
}

#[test]
fn a_full_playback_request_is_read() {
    let query = "start=90&request=7&session=8&mode=compatible&delivery=mse&mse_after=3&quality=full_hd\
                 &encoding_preset=fast_start&video_output=hevc_hdr10&audio_mode=copy&reason=decode_error&audio=2";
    let request = media_request(M3U8, query, Some("video/mp4")).ok().unwrap();
    assert_eq!(request.start_seconds, 90);
    assert_eq!(request.request_id, Some(7));
    assert_eq!(request.session_id, Some(8));
    assert_eq!(request.delivery, Delivery::Mse);
    assert_eq!(request.mse_after, Some(3));
    assert_eq!(request.quality, BrowserQuality::FullHd);
    assert_eq!(request.encoding_preset, BrowserEncodingPreset::FastStart);
    assert_eq!(request.video_output, BrowserVideoOutput::HevcHdr10);
    assert!(request.copy_audio);
    assert_eq!(request.reason, "decode_error");
    assert_eq!(request.audio, AudioChoice::Track(2));
}

#[test]
fn a_part_of_a_stream_is_named_by_offset_and_length() {
    let query = "delivery=hls_segment&hls_offset=4096&hls_length=67108864";
    let request = media_request(M4S, query, Some("audio/flac")).ok().unwrap();
    assert_eq!(request.delivery, Delivery::HlsSegment);
    assert_eq!(request.hls_offset, Some(4096));
    assert_eq!(request.hls_length, Some(MAX_HLS_RESOURCE_BYTES));
    for (path, delivery) in [(MP4, "hls_init"), (MP4, "mse_init"), (M4S, "mse_segment")] {
        let query = format!("delivery={delivery}&hls_offset=0&hls_length=1");
        assert!(problem(path, &query).is_none(), "{delivery}");
    }
}

#[test]
fn every_playback_refusal_has_an_input() {
    let cases = [
        ("/web/media/0.mp4", "", Problem::InvalidItem),
        (MP4, "nope=1", Problem::MediaParameter),
        (MP4, "start=1&start=2", Problem::MediaParameter),
        (MP4, "start=-1", Problem::InvalidStart),
        (MP4, "request=x", Problem::InvalidRequest),
        (MP4, "session=18446744073709551616", Problem::InvalidSession),
        (MP4, "mode=other", Problem::InvalidMode),
        (MP4, "delivery=dash", Problem::InvalidDelivery),
        (MP4, "hls_offset=x", Problem::InvalidHlsOffset),
        (MP4, "hls_length=", Problem::InvalidHlsLength),
        (M3U8, "delivery=mse&mse_after=20001", Problem::InvalidMseCursor),
        (M3U8, "delivery=mse&mse_after=x", Problem::InvalidMseCursor),
        (M3U8, "delivery=mse&mse_after=01", Problem::FragmentNotCanonical),
        (M3U8, "delivery=mse&mse_after=%31", Problem::FragmentNotCanonical),
        (M3U8, "delivery=hl%73", Problem::FragmentNotCanonical),
        (M3U8, "", Problem::InvalidHlsResource),
        (MP4, "delivery=hls", Problem::InvalidHlsResource),
        (M4S, "delivery=hls_segment", Problem::InvalidHlsResource),
        (M4S, "delivery=hls_segment&hls_offset=0&hls_length=0", Problem::InvalidHlsResource),
        (M4S, "delivery=hls_segment&hls_offset=0&hls_length=67108865", Problem::InvalidHlsResource),
        (MP4, "quality=best", Problem::InvalidQuality),
        (MP4, "encoding_preset=slow", Problem::InvalidEncodingPreset),
        (MP4, "video_mode=skip", Problem::InvalidVideoMode),
        (MP4, "video_output=av1", Problem::InvalidVideoOutput),
        (MP4, "video_mode=copy&video_output=h264_sdr", Problem::OutputIsAutomatic),
        (MP4, "audio_mode=skip", Problem::InvalidAudioMode),
        (MP4, "reason=", Problem::InvalidReason),
        (MP4, "reason=no-dash", Problem::InvalidReason),
        (MP4, "mode=direct&start=1", Problem::DirectParameter),
        (MP4, "mode=direct&delivery=mp4", Problem::DirectParameter),
    ];
    for (path, query, expected) in cases {
        assert_eq!(problem(path, query), Some(expected), "{path}?{query}");
    }
    assert_eq!(media_request(MP4, "", None).err(), Some(Problem::MediaMissing));
    assert_eq!(
        media_request(MP4, "", Some("image/png")).err(),
        Some(Problem::MediaUnsupported)
    );
    assert_eq!(problem(MP4, &format!("reason={}", "a".repeat(65))), Some(Problem::InvalidReason));
    assert_eq!(problem(MP4, &format!("reason={}", "a".repeat(64))), None);
}

#[test]
fn the_first_thing_wrong_with_a_playback_request_is_told() {
    assert_eq!(
        problem(MP4, "start=x&quality=best&reason=no-dash"),
        Some(Problem::InvalidStart)
    );
    assert_eq!(
        problem(MP4, "quality=best&reason=no-dash&delivery=hls"),
        Some(Problem::InvalidHlsResource)
    );
}

#[test]
fn direct_playback_accepts_what_says_nothing_of_a_conversion() {
    let request = media_request(
        MP4,
        "mode=direct&request=1&session=2&reason=manual&encoding_preset=balanced",
        Some("video/mp4"),
    )
    .ok()
    .unwrap();
    assert!(request.direct);
    assert_eq!(request.reason, "manual");
}

#[test]
fn the_largest_fragment_cursor_is_accepted() {
    let query = format!("delivery=mse&mse_after={MAX_MSE_FRAGMENT_CURSOR}");
    let params = QueryParams::parse(&query);
    let request = delivery_request(&params, &query, M3U8).ok().unwrap();
    assert_eq!(request.mse_after, Some(20_000));
}

#[test]
fn an_audio_track_that_is_no_number_is_kept_for_later() {
    let request = media_request(MP4, "audio=x", Some("video/mp4")).ok().unwrap();
    assert_eq!(request.audio, AudioChoice::Invalid);
}

#[test]
fn raw_parameters_are_compared_as_they_are_written() {
    let query: Vec<char> = "a=1&b=%31&c".chars().collect();
    assert!(raw_parameter_is(&query, "a", &['1']));
    assert!(!raw_parameter_is(&query, "b", &['1']));
    assert!(!raw_parameter_is(&query, "c", &[]));
}

#[test]
fn qualities_and_presets_are_found_by_the_names_that_they_have() {
    for quality in [
        BrowserQuality::Auto,
        BrowserQuality::UhdHigh,
        BrowserQuality::UhdOptimized,
        BrowserQuality::FullHd,
        BrowserQuality::DataSaver,
        BrowserQuality::Sd480,
        BrowserQuality::Low360,
    ] {
        let query = format!("quality={}", quality.id());
        let request = media_request(MP4, &query, Some("video/mp4")).ok().unwrap();
        assert_eq!(request.quality, quality);
    }
    for preset in [
        BrowserEncodingPreset::Balanced,
        BrowserEncodingPreset::FastStart,
        BrowserEncodingPreset::MaximumSpeed,
    ] {
        assert_eq!(BrowserEncodingPreset::parse(preset.id()), Some(preset));
    }
    assert_eq!(BrowserEncodingPreset::parse("fast"), None);
}
