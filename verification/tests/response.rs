use rusty_dlna_web::asset::{asset_at, asset_response, presentation, WebAsset};
use rusty_dlna_web::capability::{web_capabilities, CapabilityFacts, PresetWords, QualityNumbers};
use rusty_dlna_web::conversion::UpscaleProfile;
use rusty_dlna_web::http::{
    bytes_response, generation_etag, generation_json_response, item_etag, json_response,
    json_response_with_status, manifest_etag, sheet_etag, transcode_stream_error, HttpResponse,
};
use rusty_dlna_web::problem::{api_error, retry_after_seconds, Problem};

fn header(response: &HttpResponse, name: &str) -> Option<String> {
    response
        .headers
        .iter()
        .find(|(key, _)| key.eq_ignore_ascii_case(name))
        .map(|(_, value)| value.clone())
}

#[test]
fn assets_have_their_types_and_lifetimes() {
    let css = asset_response(asset_at("/web/app.css").unwrap(), b"body{}");
    assert_eq!(css.status, 200);
    assert_eq!(header(&css, "Content-Type").as_deref(), Some("text/css; charset=utf-8"));
    assert_eq!(header(&css, "Cache-Control").as_deref(), Some("no-cache"));
    assert_eq!(header(&css, "Content-Length").as_deref(), Some("6"));
    let icon = asset_response(WebAsset::Favicon, b"\x89PNG");
    assert_eq!(header(&icon, "Content-Type").as_deref(), Some("image/png"));
    assert_eq!(header(&icon, "Cache-Control").as_deref(), Some("public, max-age=86400"));
    for path in [
        "/web/app.js",
        "/web/api.js",
        "/web/core.js",
        "/web/library.js",
        "/web/player.js",
        "/web/preferences.js",
        "/web/store.js",
    ] {
        let script = asset_response(asset_at(path).unwrap(), b"");
        assert_eq!(
            header(&script, "Content-Type").as_deref(),
            Some("text/javascript; charset=utf-8"),
            "{path}"
        );
    }
    assert_eq!(asset_at("/favicon.ico"), Some(WebAsset::Favicon));
    assert_eq!(asset_at("/web/app.js/"), None);
}

#[test]
fn the_page_loads_only_its_own() {
    let page = presentation("<html></html>".into());
    assert_eq!(page.status, 200);
    assert_eq!(page.body, b"<html></html>");
    assert_eq!(header(&page, "Content-Type").as_deref(), Some("text/html; charset=utf-8"));
    assert_eq!(header(&page, "Referrer-Policy").as_deref(), Some("no-referrer"));
    let policy = header(&page, "Content-Security-Policy").unwrap();
    assert!(policy.starts_with("default-src 'self'; "));
    assert!(policy.ends_with("frame-ancestors 'none'"));
}

#[test]
fn entity_tags_tell_generations_apart() {
    assert_eq!(generation_etag(7), "W/\"web-v2-r5-7\"");
    assert_eq!(item_etag(7, 42, false), "W/\"web-v2-r5-7-item-42\"");
    assert_eq!(item_etag(7, 42, true), "W/\"web-v2-r5-7-item-42-enriched\"");
    assert_eq!(manifest_etag("0123456789abcdef"), "\"trickplay-api-v2-0123456789abcdef\"");
    assert_eq!(sheet_etag("0123456789abcdef", 3), "\"trickplay-v1-0123456789abcdef-3\"");
    assert_ne!(generation_etag(7), generation_etag(8));
    let fresh = generation_json_response(None, 7, b"{}".to_vec());
    assert_eq!(fresh.status, 200);
    assert_eq!(fresh.body, b"{}");
    assert_eq!(
        header(&fresh, "Cache-Control").as_deref(),
        Some("private, max-age=0, must-revalidate")
    );
    let tag = header(&fresh, "ETag").unwrap();
    let held = generation_json_response(Some(&tag), 7, b"{}".to_vec());
    assert_eq!(held.status, 304);
    assert!(held.body.is_empty());
    assert_eq!(generation_json_response(Some(&tag), 8, b"{}".to_vec()).status, 200);
}

#[test]
fn documents_are_not_stored_unless_they_say_so() {
    let response = json_response(b"[]".to_vec());
    assert_eq!(response.status, 200);
    assert_eq!(header(&response, "Cache-Control").as_deref(), Some("no-store"));
    assert_eq!(header(&response, "X-Content-Type-Options").as_deref(), Some("nosniff"));
    for (status, reason) in [
        (200, "OK"),
        (400, "Bad Request"),
        (403, "Forbidden"),
        (404, "Not Found"),
        (405, "Method Not Allowed"),
        (409, "Conflict"),
        (413, "Payload Too Large"),
        (415, "Unsupported Media Type"),
        (422, "Unprocessable Content"),
        (503, "Service Unavailable"),
        (500, "Error"),
    ] {
        assert_eq!(json_response_with_status(status, Vec::new()).reason, reason);
    }
    let bytes = bytes_response("text/plain", b"abc", "no-cache");
    assert_eq!(header(&bytes, "content-length").as_deref(), Some("3"));
}

#[test]
fn headers_are_set_whatever_their_case() {
    let mut response = HttpResponse::new(200, "OK");
    response.set("Cache-Control", "a");
    response.set("cache-control", "b");
    assert_eq!(response.headers, [("Cache-Control".to_owned(), "b".to_owned())]);
}

#[test]
fn refusals_are_answered_with_what_can_be_done() {
    let missing = api_error(Problem::MediaMissing);
    assert_eq!(missing.status, 404);
    assert_eq!(missing.code, "media_missing");
    assert_eq!(missing.message, "This title is no longer in the library.");
    assert!(missing.recoverable);
    assert_eq!(missing.action, Some("return_to_library"));
    let differ = api_error(Problem::SettingsDiffer);
    assert_eq!(differ.status, 409);
    assert_eq!(differ.code, "invalid_request");
    assert_eq!(differ.action, None);
    assert_eq!(api_error(Problem::TranscodeFailed).status, 500);
    assert_eq!(api_error(Problem::CatalogBusy).code, "catalog_busy");
    assert_eq!(api_error(Problem::ProbeBusy).status, 503);
    assert_eq!(retry_after_seconds(Problem::ProbeBusy), Some(1));
    assert_eq!(retry_after_seconds(Problem::ProbeFailed), None);
}

#[test]
fn streams_that_fail_say_how() {
    let (busy, wait) = transcode_stream_error(503, "transcode_busy");
    assert_eq!((busy.status, busy.code, wait), (503, "transcode_busy", Some(1)));
    let (cancelled, wait) = transcode_stream_error(503, "transcode_cancelled");
    assert_eq!((cancelled.code, wait), ("transcode_cancelled", None));
    let (other, wait) = transcode_stream_error(503, "anything");
    assert_eq!((other.code, wait), ("transcode_failed", None));
}

fn capability_facts(encoder: &str, transcoding: bool) -> CapabilityFacts {
    let kbps = [25000, 25000, 16000, 8000, 3000, 1500, 800];
    CapabilityFacts {
        transcoding,
        captions: true,
        encoder: encoder.into(),
        qualities: kbps
            .iter()
            .map(|kbps| QualityNumbers {
                max_width: 3840,
                max_height: 2160,
                max_fps: 30,
                h264_profile: "high".into(),
                h264_level: "5.1".into(),
                max_video_kbps: *kbps,
                audio_kbps: 192,
                expected_bandwidth_kbps: kbps + 192,
                automatic_fallback: *kbps == 3000,
            })
            .collect(),
        presets: ["A", "B", "C"]
            .iter()
            .map(|label| PresetWords {
                label: (*label).to_owned(),
                description: format!("{label}!"),
            })
            .collect(),
        profiles: vec![UpscaleProfile {
            name: "model".into(),
            shader_sha256: "sha".into(),
            max_source_width: 1920,
            max_source_height: 1080,
            max_source_pixels_per_second: 100,
        }],
    }
}

#[test]
fn a_browser_is_told_what_the_server_can_do() {
    let told = web_capabilities(&capability_facts("h264_nvenc", true));
    let ids: Vec<&str> = told.quality_profiles.iter().map(|profile| profile.id).collect();
    assert_eq!(
        ids,
        ["auto", "uhd_high", "uhd_optimized", "full_hd", "data_saver", "sd_480", "low_360"]
    );
    assert_eq!(told.quality_profiles[0].label, "Auto · up to 4K");
    assert_eq!(told.quality_profiles[0].max_video_kbps, 25000);
    assert_eq!(told.quality_profiles[6].max_video_kbps, 800);
    assert!(told.quality_profiles[4].automatic_fallback);
    assert_eq!(told.quality_profiles[0].pixel_format, "yuv420p");
    assert_eq!(told.quality_profiles[0].audio_layout, "stereo");
    let presets: Vec<&str> = told.encoding_presets.iter().map(|preset| preset.id).collect();
    assert_eq!(presets, ["balanced", "fast_start", "maximum_speed"]);
    assert_eq!(told.encoding_presets[1].description, "B!");
    assert_eq!(told.resume, "browser_local");
    assert!(told.queue && told.media_session && told.captions && told.transcoding);
    let outputs: Vec<&str> = told.video_outputs.iter().map(|output| output.id).collect();
    assert_eq!(outputs, ["h264_sdr", "hevc_hdr10"]);
    assert_eq!(told.video_outputs[1].color_gamut, Some("rec2020"));
    let upscale = told.ai_upscale.unwrap();
    assert_eq!((upscale.max_scale, upscale.bit_depth, upscale.sdr_only), (2, 8, true));
    assert_eq!(upscale.profiles[0].name, "model");
}

#[test]
fn a_server_is_told_of_no_more_than_it_has() {
    let software = web_capabilities(&capability_facts("libx264", true));
    assert_eq!(software.video_outputs.len(), 1);
    let mut plain = capability_facts("h264_nvenc", false);
    plain.profiles.clear();
    let told = web_capabilities(&plain);
    assert!(told.video_outputs.is_empty());
    assert!(told.ai_upscale.is_none());
}

#[test]
fn every_refusal_that_can_be_recovered_from_says_how() {
    let problems = [
        Problem::LibraryParameter,
        Problem::InvalidView,
        Problem::InvalidKind,
        Problem::FolderKind,
        Problem::FolderOutsideFolderView,
        Problem::InvalidOffset,
        Problem::InvalidLimit,
        Problem::InvalidGeneration,
        Problem::CatalogChanged,
        Problem::InvalidSort,
        Problem::InvalidQuery,
        Problem::FolderMissing,
        Problem::CatalogBusy,
        Problem::ContinueParameter,
        Problem::InvalidIds,
        Problem::ContinueChanged,
        Problem::ItemParameter,
        Problem::InvalidEnrichment,
        Problem::InvalidItem,
        Problem::MediaMissing,
        Problem::ItemUnsupported,
        Problem::FileForbidden,
        Problem::ItemFileMissing,
        Problem::ProbeBusy,
        Problem::ProbeFailed,
        Problem::PreviewMethod,
        Problem::PreviewParameter,
        Problem::InvalidPreview,
        Problem::PreviewUnavailable,
        Problem::StatusMethod,
        Problem::StatusParameter,
        Problem::InvalidRequest,
        Problem::InvalidSession,
        Problem::InvalidEvent,
        Problem::EventWithoutPost,
        Problem::StatusFileMissing,
        Problem::CancelWithoutRequest,
        Problem::EventWithoutIds,
        Problem::CaptionUnsupported,
        Problem::CaptionEncoding,
        Problem::CaptionMalformed,
        Problem::MediaUnsupported,
        Problem::MediaParameter,
        Problem::InvalidStart,
        Problem::InvalidMode,
        Problem::InvalidDelivery,
        Problem::InvalidHlsOffset,
        Problem::InvalidHlsLength,
        Problem::InvalidMseCursor,
        Problem::FragmentNotCanonical,
        Problem::InvalidHlsResource,
        Problem::InvalidQuality,
        Problem::InvalidEncodingPreset,
        Problem::InvalidVideoMode,
        Problem::InvalidVideoOutput,
        Problem::OutputIsAutomatic,
        Problem::InvalidAudioMode,
        Problem::InvalidReason,
        Problem::DirectParameter,
        Problem::TranscodeDisabled,
        Problem::InvalidAudio,
        Problem::StartPastEnd,
        Problem::HdrUnavailable,
        Problem::VideoCopyUnavailable,
        Problem::VideoRepairUnavailable,
        Problem::AudioCopyUnavailable,
        Problem::SettingsDiffer,
        Problem::MediaFileMissing,
        Problem::TranscodeFailed,
        Problem::InvalidDownload,
        Problem::DownloadParameter,
        Problem::DownloadUnsupported,
    ];
    for problem in problems {
        let answer = api_error(problem);
        assert!((400..600).contains(&answer.status), "{problem:?}");
        assert!(!answer.code.is_empty() && !answer.message.is_empty(), "{problem:?}");
        assert!(!answer.recoverable || answer.action.is_some(), "{problem:?}");
    }
}
