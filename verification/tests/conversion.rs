use rusty_dlna_web::catalog::MediaItem;
use rusty_dlna_web::codec::{
    AudioCodec, Container, HdrKind, ProbeInfo, SourceMedia, VideoCodec,
};
use rusty_dlna_web::conversion::{
    choose_conversion, fallback_plan, job_key, job_settings, join_active_job, open_problem, output_options,
    quality_requests_upscale, quality_within_ai_scale_limit, source_pixel_rate, tool_failure_code,
    transcode_plan, ActiveJob, ConversionChoice, Converter, OpenFailure, PixelRate, QualityLimits,
    ToolFailure, UpscaleProfile,
};
use rusty_dlna_web::playback::{media_request, BrowserQuality, PlaybackRequest};
use rusty_dlna_web::problem::Problem;
use rusty_dlna_web::track::{stored_audio_tracks, AudioRecord, WebAudioTrack};

fn item(mime: &str) -> MediaItem {
    MediaItem {
        object_id: "64$1".into(),
        detail_id: 42,
        title: "Film".into(),
        path_name: Some("film.mkv".into()),
        title_key: "film".into(),
        mime: mime.into(),
        ext: "mkv".into(),
        date: String::new(),
        duration: None,
        resolution: None,
        artist: None,
        album_artist: None,
        album: None,
        disc: None,
        track: None,
        about: None,
        plot: None,
        genre: None,
        creator: None,
        composer: None,
        bitrate: None,
        channels: Some(2),
        samplerate: None,
        size: 1,
        device: 1,
        inode: 1,
        album_art: 0,
        captions: Vec::new(),
        probe: ProbeInfo {
            container: "mp4".into(),
            video: "h264".into(),
            hdr: String::new(),
            audio: "aac, truehd".into(),
            width: 1280,
            height: 720,
            codec_string: "avc1.640028".into(),
            video_profile: "High".into(),
            video_level: 40,
            pixel_format: "yuv420p".into(),
            bit_depth: 8,
            frame_rate: "24000/1001".into(),
            video_timestamp_mode: String::new(),
            audio_layout: "stereo".into(),
        },
    }
}

fn source() -> SourceMedia {
    SourceMedia {
        container: Container::Mp4,
        video_codec: VideoCodec::H264,
        hdr: HdrKind::Sdr,
        audio: AudioCodec::Aac,
        width: 1280,
        height: 720,
        requires_sdr_tonemap: false,
    }
}

fn converter() -> Converter {
    let profile = |name: &str, width: u32, height: u32, rate: u64| UpscaleProfile {
        name: name.into(),
        shader_sha256: format!("sha-{name}"),
        max_source_width: width,
        max_source_height: height,
        max_source_pixels_per_second: rate,
    };
    Converter {
        enabled: true,
        encoder: "h264_nvenc".into(),
        browser_encoder: "h264_nvenc".into(),
        repair_encoder: "hevc_nvenc".into(),
        profiles: vec![
            profile("small", 640, 360, 10_000_000),
            profile("large", 1920, 1080, 100_000_000),
        ],
    }
}

fn request(query: &str) -> PlaybackRequest {
    media_request("/web/media/42.mp4", query, Some("video/mp4")).ok().unwrap()
}

fn tracks() -> Vec<WebAudioTrack> {
    let record = |audio_index: usize, codec: &str| AudioRecord {
        audio_index,
        codec: codec.into(),
        channels: Some(2),
        language: None,
        title: None,
        default: false,
    };
    stored_audio_tracks(Some(&[record(0, "aac"), record(1, "truehd")]), "aac, truehd", 2)
}

const UHD: QualityLimits = QualityLimits { max_width: 3840, max_height: 2160 };
const FULL_HD: QualityLimits = QualityLimits { max_width: 1920, max_height: 1080 };

fn chosen_for(
    query: &str,
    item: &MediaItem,
    source: &SourceMedia,
    limits: QualityLimits,
    rate: Option<u64>,
    converter: &Converter,
) -> Result<ConversionChoice, Problem> {
    choose_conversion(
        &request(query),
        item,
        source,
        &tracks(),
        0,
        Some(7200),
        limits,
        rate,
        converter,
    )
}

#[test]
fn pixel_rates_of_fractions_are_rounded_up() {
    assert_eq!(source_pixel_rate(1920, 1080, "24/1"), PixelRate::Rate(49_766_400));
    assert_eq!(source_pixel_rate(10, 10, "24000/1001"), PixelRate::Rate(2398));
    assert_eq!(
        source_pixel_rate(u32::MAX, u32::MAX, "18446744073709551615/2"),
        PixelRate::Rate(9_223_372_036_854_775_808)
    );
    assert_eq!(source_pixel_rate(10, 10, "0/1"), PixelRate::Unknown);
    assert_eq!(source_pixel_rate(10, 10, "24/0"), PixelRate::Unknown);
    assert_eq!(source_pixel_rate(10, 10, "x/1"), PixelRate::Unknown);
    assert_eq!(source_pixel_rate(10, 10, "23.976"), PixelRate::Decimal);
}

#[test]
fn upscaling_is_asked_for_by_a_larger_picture_in_both_directions() {
    let source = source();
    assert!(quality_requests_upscale(BrowserQuality::FullHd, FULL_HD, &source));
    assert!(!quality_requests_upscale(BrowserQuality::Auto, UHD, &source));
    let wide = QualityLimits { max_width: 1920, max_height: 720 };
    assert!(!quality_requests_upscale(BrowserQuality::FullHd, wide, &source));
    assert!(quality_within_ai_scale_limit(FULL_HD, &source));
    assert!(!quality_within_ai_scale_limit(UHD, &source));
    let flat = SourceMedia { width: 0, ..source };
    assert!(!quality_within_ai_scale_limit(FULL_HD, &flat));
}

#[test]
fn the_first_model_that_takes_in_the_source_is_chosen() {
    let choice = chosen_for(
        "quality=full_hd",
        &item("video/mp4"),
        &source(),
        FULL_HD,
        Some(30_000_000),
        &converter(),
    )
    .ok()
    .unwrap();
    assert_eq!(choice.upscale, Some(1));
    let plan = transcode_plan(
        &request("quality=full_hd"),
        &choice,
        &converter().profiles,
        Some("cuda".into()),
    );
    let model = plan.ai_upscale.unwrap();
    assert_eq!(model.model, "large");
    assert_eq!(model.shader_sha256, "sha-large");
    assert_eq!(plan.hardware_decode.as_deref(), Some("cuda"));
    assert!(plan.drop_dolby_vision);
    for (rate, source) in [
        (None, source()),
        (Some(100_000_001), source()),
        (Some(1), SourceMedia { hdr: HdrKind::Hdr10, ..source() }),
    ] {
        let choice = chosen_for(
            "quality=full_hd",
            &item("video/mp4"),
            &source,
            FULL_HD,
            rate,
            &converter(),
        )
        .ok()
        .unwrap();
        assert_eq!(choice.upscale, None);
    }
}

#[test]
fn copied_video_goes_through_no_encoder_and_no_model() {
    let choice = chosen_for(
        "video_mode=copy&audio_mode=copy",
        &item("video/mp4"),
        &source(),
        UHD,
        Some(1),
        &converter(),
    )
    .ok()
    .unwrap();
    assert!(choice.copy_video);
    assert_eq!(choice.video_encoder, "copy");
    assert_eq!(choice.upscale, None);
    assert_eq!(choice.audio_index, 0);
    assert_eq!(choice.audio_codec, "aac");
    assert!(!choice.keep_hdr10);
}

#[test]
fn repair_and_high_dynamic_range_choose_their_encoders() {
    let choice = chosen_for(
        "video_mode=repair",
        &item("video/mp4"),
        &source(),
        UHD,
        None,
        &converter(),
    )
    .ok()
    .unwrap();
    assert_eq!(choice.video_encoder, "hevc_nvenc");
    assert!(choice.keep_hdr10);
    let mut deep = item("video/mp4");
    deep.probe.bit_depth = 10;
    let hdr = SourceMedia { video_codec: VideoCodec::Hevc, hdr: HdrKind::Hdr10, ..source() };
    let choice = chosen_for("video_output=hevc_hdr10", &deep, &hdr, UHD, None, &converter())
        .ok()
        .unwrap();
    assert_eq!(choice.video_encoder, "hevc_nvenc");
    assert!(choice.keep_hdr10);
    let choice = chosen_for("", &item("audio/flac"), &source(), UHD, None, &converter()).ok().unwrap();
    assert_eq!(choice.video_encoder, "copy");
    assert!(!choice.is_video);
}

#[test]
fn every_conversion_refusal_has_an_input() {
    let film = item("video/mp4");
    let off = Converter { enabled: false, ..converter() };
    let refused = |query: &str, item: &MediaItem, source: &SourceMedia, converter: &Converter| {
        chosen_for(query, item, source, UHD, None, converter).err()
    };
    assert_eq!(refused("", &film, &source(), &off), Some(Problem::TranscodeDisabled));
    let c = converter();
    assert_eq!(refused("audio=9", &film, &source(), &c), Some(Problem::InvalidAudio));
    assert_eq!(refused("audio=x", &film, &source(), &c), Some(Problem::InvalidAudio));
    assert_eq!(refused("start=7200", &film, &source(), &c), Some(Problem::StartPastEnd));
    assert_eq!(refused("start=7199", &film, &source(), &c), None);
    assert_eq!(
        refused("video_output=hevc_hdr10", &film, &source(), &c),
        Some(Problem::HdrUnavailable)
    );
    assert_eq!(
        refused("video_mode=copy&quality=full_hd", &film, &source(), &c),
        Some(Problem::VideoCopyUnavailable)
    );
    let mut broken = item("video/mp4");
    broken.probe.video_timestamp_mode = "broken-reordered".into();
    assert_eq!(
        refused("video_mode=copy", &broken, &source(), &c),
        Some(Problem::VideoCopyUnavailable)
    );
    let other = SourceMedia { video_codec: VideoCodec::Other, ..source() };
    assert_eq!(
        refused("video_mode=repair", &film, &other, &c),
        Some(Problem::VideoRepairUnavailable)
    );
    assert_eq!(
        refused("audio_mode=copy&audio=1", &film, &source(), &c),
        Some(Problem::AudioCopyUnavailable)
    );
}

#[test]
fn a_title_without_known_tracks_has_track_zero() {
    let chosen = choose_conversion(
        &request("audio=0&audio_mode=copy"),
        &item("video/mp4"),
        &source(),
        &[],
        5,
        None,
        UHD,
        None,
        &converter(),
    )
    .ok()
    .unwrap();
    assert_eq!(chosen.audio_index, 0);
    assert_eq!(chosen.audio_codec, "aac");
    let chosen = choose_conversion(
        &request(""),
        &item("video/mp4"),
        &source(),
        &[],
        5,
        None,
        UHD,
        None,
        &converter(),
    )
    .ok()
    .unwrap();
    assert_eq!(chosen.audio_index, 5);
    assert_eq!(chosen.audio_codec, "");
}

#[test]
fn a_request_joins_only_a_job_that_gives_the_same() {
    let choice = chosen_for("start=0", &item("video/mp4"), &source(), UHD, None, &converter())
        .ok()
        .unwrap();
    let settings = job_settings(&request("start=0"), &choice);
    assert_eq!(settings.mime, "video/mp4");
    assert!(settings.cacheable);
    assert!(!settings.all_fragments_independent);
    let job = || ActiveJob {
        mime: "video/mp4".into(),
        same_arguments: true,
        audio_index: 0,
        copy_audio: false,
        cacheable: true,
        all_fragments_independent: false,
    };
    assert!(join_active_job(&job(), &settings).is_ok());
    let others = [
        ActiveJob { mime: "audio/mp4".into(), ..job() },
        ActiveJob { same_arguments: false, ..job() },
        ActiveJob { audio_index: 1, ..job() },
        ActiveJob { copy_audio: true, ..job() },
        ActiveJob { cacheable: false, ..job() },
        ActiveJob { all_fragments_independent: true, ..job() },
    ];
    for other in &others {
        assert_eq!(join_active_job(other, &settings), Err(Problem::SettingsDiffer));
    }
}

#[test]
fn fragments_of_encoded_video_stand_for_themselves() {
    let hls = media_request("/web/media/42.m3u8", "delivery=hls&start=5", Some("video/mp4"))
        .ok()
        .unwrap();
    let choice = chosen_for("start=5", &item("video/mp4"), &source(), UHD, None, &converter())
        .ok()
        .unwrap();
    let settings = job_settings(&hls, &choice);
    assert!(settings.all_fragments_independent);
    assert!(!settings.cacheable);
    let options = output_options(&hls, &choice, &source());
    assert!(options.hls);
    assert_eq!(options.start_seconds, 5);
    assert_eq!(options.source_video, Some(VideoCodec::H264));
    assert_eq!(options.selected_audio, choice.audio_codec);
    assert_eq!(options.selected_audio, "aac");
}

#[test]
fn conversions_are_told_apart_by_their_key() {
    assert_eq!(
        job_key(42, "browser-1-start-120", "[\"-i\", \"x\"]"),
        "web:42:browser-1-start-120:[\"-i\", \"x\"]"
    );
}

#[test]
fn a_conversion_falls_back_to_software_once() {
    let choice = chosen_for("audio_mode=copy", &item("video/mp4"), &source(), UHD, None, &converter())
        .ok()
        .unwrap();
    let plan = transcode_plan(
        &request("audio_mode=copy"),
        &choice,
        &converter().profiles,
        Some("cuda".into()),
    );
    let fallback = fallback_plan(&plan, true).unwrap();
    assert_eq!(fallback.video_encoder, "libx264");
    assert_eq!(fallback.hardware_decode, None);
    assert!(!fallback.copy_audio);
    assert_eq!(fallback.audio_index, plan.audio_index);
    assert_eq!(fallback.quality, plan.quality);
    assert!(fallback_plan(&fallback, true).is_none());
}

#[test]
fn files_and_tools_that_fail_are_told_apart() {
    assert_eq!(open_problem(OpenFailure::PermissionDenied), Problem::FileForbidden);
    assert_eq!(open_problem(OpenFailure::Other), Problem::MediaFileMissing);
    assert_eq!(tool_failure_code(ToolFailure::Busy), "transcode_busy");
    assert_eq!(tool_failure_code(ToolFailure::Cancelled), "transcode_cancelled");
    assert_eq!(tool_failure_code(ToolFailure::Deadline), "transcode_failed");
    assert_eq!(tool_failure_code(ToolFailure::Query), "transcode_failed");
}
