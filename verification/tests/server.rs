use rusty_dlna_web::asset::{asset_at, asset_response, root_response};
use rusty_dlna_web::budget::QueryLimits;
use rusty_dlna_web::capability::{web_capabilities, CapabilityFacts, PresetWords, QualityNumbers};
use rusty_dlna_web::caption::CaptionWebVttConversion;
use rusty_dlna_web::catalog::{CaptionFile, MediaItem};
use rusty_dlna_web::codec::{
    AudioCodec, Container, HdrKind, ProbeInfo, SourceMedia, VideoCodec,
};
use rusty_dlna_web::conversion::{
    choose_conversion, fallback_plan, job_settings, source_pixel_rate, transcode_plan,
    ConversionChoice, Converter, PixelRate, QualityLimits, UpscaleProfile,
};
use rusty_dlna_web::entry::{media_dto, MediaFacts, WebMediaItem};
use rusty_dlna_web::folder::ChildFact;
use rusty_dlna_web::http::{generation_etag, generation_json_response, HttpResponse};
use rusty_dlna_web::job::{answered_state, status_action, status_request, StatusAction};
use rusty_dlna_web::library::{
    continue_head, continue_places, continue_request, library_page, library_request,
};
use rusty_dlna_web::playback::{media_request, PlaybackRequest};
use rusty_dlna_web::player::PlayerFacts;
use rusty_dlna_web::preview::{
    metadata_mtime_ns, preview_request, preview_unavailable, sheet_response, sheet_urls,
    sheets_complete, validate_trickplay_manifest, PreviewUnavailable, TrickplayExpectation,
    TrickplaySidecarManifest,
};
use rusty_dlna_web::problem::{api_error, Problem};
use rusty_dlna_web::projection::{FolderProjectionCache, NewCount, NewList};
use rusty_dlna_web::query::QueryParams;
use rusty_dlna_web::route::trickplay_request;
use rusty_dlna_web::scan::{keep_page, FolderCount};
use rusty_dlna_web::status::{
    status_html, status_json, CatalogFacts, ComponentState, DbIntegrityResult, Health, ScanWorker,
    StatusFacts, StatusPage,
};
use rusty_dlna_web::subtitle::browser_caption_response;
use rusty_dlna_web::tally::catalog_counts;
use rusty_dlna_web::title::{download_request, item_request, offer_download};
use rusty_dlna_web::track::{default_audio_index, stored_audio_tracks, AudioRecord};

fn item(id: i64, name: &str, mime: &str) -> MediaItem {
    MediaItem {
        object_id: format!("64${id}"),
        detail_id: id,
        title: name.into(),
        path_name: Some(name.into()),
        title_key: name.to_lowercase(),
        mime: mime.into(),
        ext: name.rsplit('.').next().unwrap_or_default().into(),
        date: String::new(),
        duration: Some("00:01:00.000".into()),
        resolution: None,
        artist: None,
        album_artist: None,
        album: None,
        disc: None,
        track: None,
        about: None,
        plot: None,
        genre: None,
        creator: None,
        composer: None,
        bitrate: None,
        channels: Some(2),
        samplerate: None,
        size: 64,
        device: 1,
        inode: id as u64,
        album_art: 0,
        captions: Vec::new(),
        probe: ProbeInfo {
            container: "mp4".into(),
            video: "h264".into(),
            hdr: "sdr".into(),
            audio: "aac".into(),
            width: 1280,
            height: 720,
            codec_string: "avc1.640029,mp4a.40.2".into(),
            video_profile: "High".into(),
            video_level: 41,
            pixel_format: "yuv420p".into(),
            bit_depth: 8,
            frame_rate: "24000/1001".into(),
            video_timestamp_mode: String::new(),
            audio_layout: String::new(),
        },
    }
}

fn record(audio_index: usize, codec: &str, channels: u32) -> AudioRecord {
    AudioRecord {
        audio_index,
        codec: codec.into(),
        channels: Some(channels),
        language: None,
        title: None,
        default: false,
    }
}

fn source(item: &MediaItem) -> SourceMedia {
    SourceMedia {
        container: Container::Mp4,
        video_codec: match item.probe.video.as_str() {
            "h264" => VideoCodec::H264,
            "hevc" => VideoCodec::Hevc,
            _ => VideoCodec::Other,
        },
        hdr: match item.probe.hdr.as_str() {
            "sdr" => HdrKind::Sdr,
            "hdr10" => HdrKind::Hdr10,
            "dv-p7" => HdrKind::DolbyVisionProfile7,
            "dv-p8" => HdrKind::DolbyVisionProfile8,
            _ => HdrKind::Other,
        },
        audio: if item.probe.audio == "aac" { AudioCodec::Aac } else { AudioCodec::Other },
        width: item.probe.width,
        height: item.probe.height,
        requires_sdr_tonemap: item.probe.hdr != "sdr",
    }
}

fn facts(item: &MediaItem, records: Vec<AudioRecord>, repair_encoder: &str) -> MediaFacts {
    MediaFacts {
        source: source(item),
        records: Some(records),
        picked_audio: 0,
        chapters: Vec::new(),
        markers: None,
        collection: None,
        duration_seconds: Some(60),
        thumbnails: false,
        browser_encoder: "libx264".into(),
        repair_encoder: repair_encoder.into(),
    }
}

fn told(item: &MediaItem, records: Vec<AudioRecord>) -> WebMediaItem {
    media_dto(item, &facts(item, records, "libx264"))
}

fn converter(encoder: &str, repair_encoder: &str, profiles: Vec<UpscaleProfile>) -> Converter {
    Converter {
        enabled: true,
        encoder: encoder.into(),
        browser_encoder: encoder.into(),
        repair_encoder: repair_encoder.into(),
        profiles,
    }
}

fn pixel_rate(item: &MediaItem) -> Option<u64> {
    match source_pixel_rate(item.probe.width, item.probe.height, &item.probe.frame_rate) {
        PixelRate::Rate(rate) => Some(rate),
        _ => None,
    }
}

const FULL_HD: QualityLimits = QualityLimits { max_width: 1920, max_height: 1080 };

fn converted(
    asked: &PlaybackRequest,
    item: &MediaItem,
    records: Vec<AudioRecord>,
    converter: &Converter,
) -> Result<ConversionChoice, Problem> {
    let tracks = stored_audio_tracks(Some(&records), &item.probe.audio, 2);
    choose_conversion(
        asked,
        item,
        &source(item),
        &tracks,
        default_audio_index(&tracks, 0),
        Some(3600),
        FULL_HD,
        pixel_rate(item),
        converter,
    )
}

fn asked(path: &str) -> Result<PlaybackRequest, Problem> {
    let (path, query) = path.split_once('?').unwrap_or((path, ""));
    media_request(path, query, Some("video/mp4"))
}

fn header(response: &HttpResponse, name: &str) -> Option<String> {
    response
        .headers
        .iter()
        .find(|(key, _)| key.eq_ignore_ascii_case(name))
        .map(|(_, value)| value.clone())
}

#[test]
fn browser_ai_upscale_is_descriptor_backed_and_exactly_sdr_gated() {
    let mut tagged = item(42, "tagged.mp4", "video/mp4");
    let server = converter(
        "h264_nvenc",
        "h264_nvenc",
        vec![UpscaleProfile {
            name: "fsrcnnx-16".into(),
            shader_sha256: "c".repeat(64),
            max_source_width: 1920,
            max_source_height: 1080,
            max_source_pixels_per_second: 52_000_000,
        }],
    );
    let request =
        asked("/web/media/42.mp4?quality=full_hd&video_mode=transcode&audio_mode=transcode")
            .ok()
            .unwrap();
    let upscale = |item: &MediaItem| {
        converted(&request, item, vec![record(0, "aac", 2)], &server)
            .ok()
            .unwrap()
    };

    let upscaled = upscale(&tagged);
    assert!(upscaled.upscale.is_some());
    let plan = transcode_plan(&request, &upscaled, &server.profiles, None);
    assert_eq!(plan.ai_upscale.as_ref().unwrap().model, "fsrcnnx-16");
    assert_eq!(plan.ai_upscale.as_ref().unwrap().shader_sha256, "c".repeat(64));
    assert!(fallback_plan(&plan, true).unwrap().ai_upscale.is_some());

    tagged.probe.hdr = "hdr10".into();
    assert!(upscale(&tagged).upscale.is_none());

    tagged.probe.hdr = "sdr".into();
    tagged.probe.bit_depth = 10;
    assert!(upscale(&tagged).upscale.is_none());

    tagged.probe.bit_depth = 8;
    tagged.probe.frame_rate = "60000/1001".into();
    assert!(upscale(&tagged).upscale.is_none());
}

#[test]
fn status_lists_video_count() {
    let items = [
        item(1, "movie.mkv", "video/x-matroska"),
        item(2, "song.flac", "audio/flac"),
        item(3, "shot.jpg", "image/jpeg"),
    ];
    let counts = catalog_counts(&items, 0, 0);
    let page = StatusPage {
        name: "rustyDLNA-test".into(),
        update_id: 0,
        scan_phase: None,
        watch_count: 0,
        transcodes_active: 0,
        transcodes_queued: 0,
        helpers_active: 0,
        helpers_queued: 0,
        cache_bytes: 0,
    };
    let body = status_html(Health::Healthy, &counts, &page);
    for kind in ["Video", "Audio", "Image"] {
        assert!(body.contains(&format!("<td>{kind}</td><td>1</td>")), "{body}");
    }
    assert!(body.contains("refresh"), "{body}");
    assert!(!body.contains("<H1>200 OK</H1>"), "{body}");
    assert!(body.contains("<h1>rustyDLNA-test</h1>"), "{body}");
    assert!(body.contains("<title>rustyDLNA-test</title>"), "{body}");
}

fn status_facts() -> StatusFacts {
    StatusFacts {
        http_listener: ComponentState::Running,
        ssdp: ComponentState::Running,
        database: DbIntegrityResult::Passed,
        database_stale: false,
        pool_configured: true,
        readers_available: 1,
        read_waiters: 0,
        cache_free_bytes: u64::MAX,
        cache_min_free_mb: 128,
        workers: vec![ScanWorker { role: "inotify".into(), alive: true }],
        stopping: false,
        rescan_secs: 0,
        rescan_max_secs: 0,
        now_unix: 0,
        last_success_unix: None,
        scan_error: false,
        scan_path: None,
        event_workers_total: 0,
        event_workers_alive: 0,
        events_stopping: false,
        helpers_active: 0,
        helpers_queued: 0,
        helpers_max_active: 1,
        helpers_queue_capacity: 1,
        transcode_enabled: false,
        supervisor_ready: false,
        remux_supervisor: ComponentState::NotStarted,
        required_tools_ready: true,
        web_player: PlayerFacts::default(),
    }
}

#[test]
fn health_uses_cached_integrity_and_never_walks_the_catalog() {
    let items = [item(1, "movie.mkv", "video/x-matroska")];
    let catalog = || CatalogFacts {
        items: &items,
        containers: 0,
        estimated_memory_bytes: 0,
        object_size: 1,
    };
    let (status, report) = status_json(&status_facts(), Some(catalog()), true);
    assert_eq!(status, 200);
    assert!(report.catalog.is_none());
    let sections: Vec<&str> = report.sections.iter().map(|section| section.name()).collect();
    assert_eq!(
        sections,
        [
            "status", "reasons", "listener", "database", "scanner", "cache", "helpers", "events",
            "transcode",
        ]
    );
    let failed = StatusFacts { database: DbIntegrityResult::Failed, ..status_facts() };
    let (status, _) = status_json(&failed, Some(catalog()), true);
    assert_eq!(status, 503);
}

#[test]
fn child_folder_counts_cache_only_playable_children_and_follow_publication() {
    let folder_id = "64$F";
    let mut containers = vec!["64$F$FFFF".to_owned()];
    let mut items: Vec<(String, MediaItem)> = Vec::new();
    let mut ids = containers.clone();
    for index in 0..1001 {
        let mime = if index == 1000 { "image/jpeg" } else { "video/x-matroska" };
        let id = format!("{folder_id}${index:X}");
        items.push((id.clone(), item(index + 1, "film.mkv", mime)));
        ids.push(id);
    }
    let read_count = |generation: u32, containers: &[String], items: &[(String, MediaItem)]| {
        let limits = QueryLimits { items: 2000, bytes: 0 };
        let mut counter = FolderCount::new(generation, ids.len(), limits).ok().unwrap();
        while let Some((start, end)) = counter.next_batch() {
            let facts = ids[start..end]
                .iter()
                .map(|id| ChildFact {
                    is_folder: containers.contains(id),
                    mime: items
                        .iter()
                        .find(|(item_id, _)| item_id == id)
                        .map(|(_, item)| item.mime.clone()),
                })
                .collect();
            assert_eq!(counter.accept(generation, Some(facts), true), Ok(()));
        }
        counter.finish()
    };
    let keep = |cache: &mut FolderProjectionCache, generation: u32, count: usize| {
        let list = NewList {
            folder: "64".into(),
            query: String::new(),
            ids: vec![folder_id.to_owned()].into(),
            bytes: 64,
        };
        let counts = vec![NewCount::new(folder_id.into(), count)];
        keep_page(cache, generation, generation, true, true, list, counts).is_ok()
    };
    let mut cache = FolderProjectionCache::default();
    let generation = 7;
    let count = read_count(generation, &containers, &items);
    assert_eq!(count, 1001);
    assert!(keep(&mut cache, generation, count));
    assert_eq!(cache.child_count(generation, folder_id), Some(1001));
    assert_eq!(cache.get(generation, "64", "").unwrap().0[0], folder_id);
    items.remove(0);
    cache = FolderProjectionCache::default();
    assert_eq!(cache.child_counts_len(), 0);
    assert_eq!(cache.child_count(generation + 1, folder_id), None);
    let count = read_count(generation + 1, &containers, &items);
    assert_eq!(count, 1000);
    assert!(keep(&mut cache, generation + 1, count));
    assert_eq!(cache.child_count(generation + 1, folder_id), Some(1000));
    assert_eq!(cache.child_count(generation, folder_id), None);
    containers.clear();
    assert_eq!(read_count(generation + 1, &containers, &items), 999);
}

#[test]
fn web_item_does_not_advertise_aac_as_mpeg4_part_2_video_support() {
    let mut tagged = item(42, "tagged.mp4", "video/mp4");
    tagged.probe.container = "mp4".into();
    tagged.probe.video = "mpeg4".into();
    tagged.probe.codec_string = "mp4a.40.2".into();
    tagged.probe.audio = "aac".into();
    let payload = told(&tagged, vec![record(0, "aac", 2)]);
    assert_eq!(payload.video_codec, "mpeg4");
    assert_eq!(payload.audio_codec, "aac");
    assert_eq!(payload.codec_string, None);
    assert_eq!(payload.video_content_type, None);
    assert!(payload.transcode_likely);
}

fn jpeg_declaring_dimensions(width: u16, height: u16) -> Vec<u8> {
    let [height_high, height_low] = height.to_be_bytes();
    let [width_high, width_low] = width.to_be_bytes();
    vec![
        0xff, 0xd8, 0xff, 0xc0, 0x00, 0x0b, 0x08, height_high, height_low, width_high, width_low,
        0x01, 0x01, 0x11, 0x00, 0xff, 0xd9,
    ]
}

#[test]
fn web_timeline_previews_are_complete_confined_and_source_bound() {
    let revision = "0123456789abcdef";
    let jpeg = jpeg_declaring_dimensions(2880, 3780);
    let mtime = metadata_mtime_ns(1_700_000_000, 5);
    let manifest = TrickplaySidecarManifest {
        schema_version: 1,
        source_size: 64,
        source_mtime_ns: mtime.unwrap(),
        interval_seconds: 1,
        frame_width: 960,
        frame_height: 540,
        columns: 3,
        rows: 7,
        frame_count: 1200,
        asset_revision: revision.into(),
    };
    let expected = TrickplayExpectation {
        schema_version: 1,
        interval_seconds: Some(1),
        frame_count: Some(1200),
        sheet_count: Some(58),
        valid_layout: true,
    };
    let movie = told(&item(42, "Preview Movie.mkv", "video/x-matroska"), Vec::new());
    assert_eq!(movie.preview_url.as_deref(), Some("/api/web/preview/42"));

    let sheet_count = validate_trickplay_manifest(&manifest, 64, mtime, &expected).unwrap();
    let mut sizes = vec![Some(jpeg.len() as u64); 58];
    assert!(sheets_complete(&sizes, sheet_count, 1 << 20));
    let urls = sheet_urls(42, revision, sheet_count);
    assert_eq!(urls.len(), 58);
    assert!(preview_request("GET", "", &urls[0]).is_ok());
    let sheet = sheet_response(&manifest, sheet_count, revision, 0, None, &jpeg).ok().unwrap();
    assert_eq!(sheet.status, 200);
    assert_eq!(header(&sheet, "Content-Type").as_deref(), Some("image/jpeg"));
    assert_eq!(
        header(&sheet, "Cache-Control").as_deref(),
        Some("private, max-age=31536000, immutable")
    );
    assert_eq!(sheet.body, jpeg);

    sizes[57] = None;
    assert!(!sheets_complete(&sizes, sheet_count, 1 << 20));
    let request = trickplay_request("/api/web/preview/42").unwrap();
    assert_eq!(preview_unavailable(&request), PreviewUnavailable::Manifest(42));

    let portrait = TrickplaySidecarManifest {
        interval_seconds: 5,
        frame_height: 1706,
        rows: 2,
        frame_count: 1440,
        asset_revision: "fedcba9876543210".into(),
        ..manifest
    };
    let expected = TrickplayExpectation {
        interval_seconds: Some(5),
        frame_count: Some(1440),
        sheet_count: Some(240),
        ..expected
    };
    assert_eq!(validate_trickplay_manifest(&portrait, 64, mtime, &expected), Some(240));
    let picture = jpeg_declaring_dimensions(2880, 3412);
    assert!(sheet_response(&portrait, 240, "fedcba9876543210", 239, None, &picture).is_ok());

    let noncanonical = TrickplaySidecarManifest {
        interval_seconds: 6,
        frame_count: 1200,
        asset_revision: "fedcba9876543210".into(),
        ..portrait
    };
    let expected = TrickplayExpectation { frame_count: Some(1200), ..expected };
    assert_eq!(validate_trickplay_manifest(&noncanonical, 64, mtime, &expected), None);
    let expected = TrickplayExpectation { interval_seconds: Some(6), ..expected };
    assert!(validate_trickplay_manifest(&noncanonical, 64, mtime, &expected).is_some());
    assert_eq!(
        validate_trickplay_manifest(&noncanonical, 35, mtime, &expected),
        None,
        "a source that was replaced has another size"
    );
}

#[test]
fn web_continue_watching_hydrates_only_bounded_requested_ids() {
    let generation = 7;
    let items = [item(9, "movie.mkv", "video/x-matroska"), item(42, "song.flac", "audio/flac")];
    let mime = |id: i64| {
        items.iter().find(|item| item.detail_id == id).map(|item| item.mime.clone())
    };
    let answer = |query: &str, media: bool| {
        let request = continue_request(&QueryParams::parse(query), generation)?;
        let mimes: Vec<Option<String>> = request.ids.iter().map(|id| mime(*id)).collect();
        let shown: Vec<i64> =
            continue_places(&mimes).into_iter().map(|place| request.ids[place]).collect();
        let head = continue_head(&request, generation, media, shown.len());
        Ok((head, shown))
    };
    let status = |query: &str| {
        let refused: Result<_, Problem> = answer(query, true);
        api_error(refused.err().unwrap()).status
    };

    let (head, shown) = answer("view=continue&ids=42,9", true).ok().unwrap();
    assert_eq!(head.view, "continue");
    assert_eq!(head.library_state, "ready");
    assert!(!head.has_more);
    assert_eq!(head.total, 2);
    assert_eq!(shown, [42, 9]);
    let etag = generation_etag(generation);
    let conditional = generation_json_response(Some(&etag), generation, b"{}".to_vec());
    assert_eq!(conditional.status, 304);
    assert!(conditional.body.is_empty());

    let (empty, _) = answer("view=continue&ids=", true).ok().unwrap();
    assert_eq!(empty.total, 0);
    assert_eq!(empty.library_state, "ready");
    let (missing, _) = answer("view=continue&ids=9223372036854775807", true).ok().unwrap();
    assert_eq!(missing.total, 0);

    assert_eq!(status("view=continue&ids=9&generation=8"), 409);
    let too_many = (1..=101).map(|id| id.to_string()).collect::<Vec<_>>().join(",");
    for invalid in [
        "view=continue&ids=1,1".to_owned(),
        "view=continue&ids=not-an-id".to_owned(),
        "view=continue&ids=1&q=ignored".to_owned(),
        format!("view=continue&ids={too_many}"),
    ] {
        assert_eq!(status(&invalid), 400, "{invalid}");
    }

    let (pinned, _) = answer("view=continue&ids=&generation=7", false).ok().unwrap();
    assert_eq!(pinned.library_state, "empty");
}

#[test]
fn web_repair_policy_keeps_hdr10_p8_and_tonemaps_dv5_p7() {
    for (hdr, expected_encoder, preserve_hdr) in [
        ("dv-p5", "h264_nvenc", false),
        ("dv-p7", "h264_nvenc", false),
        ("hdr10", "hevc_nvenc", true),
        ("dv-p8", "hevc_nvenc", true),
    ] {
        let mut tagged = item(42, "tagged.mp4", "video/mp4");
        tagged.probe.video = "hevc".into();
        tagged.probe.video_profile = "Main 10".into();
        tagged.probe.pixel_format = "yuv420p10le".into();
        tagged.probe.bit_depth = 10;
        tagged.probe.hdr = hdr.into();
        tagged.probe.video_timestamp_mode = "broken-reordered".into();
        let dto = media_dto(&tagged, &facts(&tagged, vec![record(0, "aac", 2)], expected_encoder));
        assert!(dto.video_repair_required, "DTO for {hdr}");
        assert_eq!(dto.repair_video_encoder, expected_encoder, "DTO for {hdr}");

        let request = asked("/web/media/42.mp4?quality=auto&video_mode=repair&audio_mode=copy")
            .ok()
            .unwrap();
        let server = converter("h264_nvenc", expected_encoder, Vec::new());
        let choice = converted(&request, &tagged, vec![record(0, "aac", 2)], &server).ok().unwrap();
        assert_eq!(choice.video_encoder, expected_encoder, "encoder for {hdr}");
        assert_eq!(choice.keep_hdr10, preserve_hdr, "range for {hdr}");
        let plan = transcode_plan(&request, &choice, &[], None);
        let fallback = fallback_plan(&plan, true).unwrap();
        assert_eq!(fallback.video_encoder, "libx264");
    }
}

fn capability_facts(encoder: &str) -> CapabilityFacts {
    CapabilityFacts {
        transcoding: true,
        captions: true,
        encoder: encoder.into(),
        qualities: [25000, 25000, 16000, 8000, 3000, 1500, 800]
            .iter()
            .map(|kbps| QualityNumbers {
                max_width: 3840,
                max_height: 2160,
                max_fps: 30,
                h264_profile: "high".into(),
                h264_level: "5.1".into(),
                max_video_kbps: *kbps,
                audio_kbps: 192,
                expected_bandwidth_kbps: *kbps,
                automatic_fallback: *kbps == 3000,
            })
            .collect(),
        presets: (0..3)
            .map(|_| PresetWords { label: String::new(), description: String::new() })
            .collect(),
        profiles: Vec::new(),
    }
}

#[test]
fn web_player_is_embedded_searchable_and_independently_disabled() {
    let css = asset_response(asset_at("/web/app.css").unwrap(), b":root");
    assert_eq!(css.status, 200);
    assert_eq!(header(&css, "Content-Type").as_deref(), Some("text/css; charset=utf-8"));
    assert_eq!(header(&css, "Cache-Control").as_deref(), Some("no-cache"));
    assert!(css.body.starts_with(b":root"));
    let favicon =
        asset_response(asset_at("/favicon.ico").unwrap(), b"\x89PNG\r\n\x1a\n");
    assert_eq!(favicon.status, 200);
    assert_eq!(header(&favicon, "Content-Type").as_deref(), Some("image/png"));
    assert_eq!(header(&favicon, "Cache-Control").as_deref(), Some("public, max-age=86400"));
    assert!(favicon.body.starts_with(b"\x89PNG\r\n\x1a\n"));
    for asset in [
        "/web/app.js",
        "/web/api.js",
        "/web/core.js",
        "/web/library.js",
        "/web/player.js",
        "/web/preferences.js",
        "/web/store.js",
    ] {
        let response = asset_response(asset_at(asset).unwrap(), b"");
        assert_eq!(response.status, 200, "{asset}");
        assert_eq!(
            header(&response, "Content-Type").as_deref(),
            Some("text/javascript; charset=utf-8"),
            "{asset}"
        );
        assert_eq!(header(&response, "Cache-Control").as_deref(), Some("no-cache"));
    }

    assert!(generation_etag(7).starts_with("W/\"web-v2-r5-"));
    let stale = generation_etag(7).replacen("-r5-", "-r4-", 1);
    assert_eq!(generation_json_response(Some(&stale), 7, b"{}".to_vec()).status, 200);
    let fresh = generation_json_response(None, 7, b"{}".to_vec());
    assert_eq!(header(&fresh, "ETag"), Some(generation_etag(7)));
    assert_eq!(
        header(&fresh, "Cache-Control").as_deref(),
        Some("private, max-age=0, must-revalidate")
    );
    let held = generation_json_response(Some(&generation_etag(7)), 7, b"{}".to_vec());
    assert_eq!(held.status, 304);
    assert!(held.body.is_empty());
    let told_of = web_capabilities(&capability_facts("libx264"));
    assert_eq!(told_of.resume, "browser_local");
    assert!(told_of.transcoding);
    let profiles: Vec<(&str, u32)> = told_of
        .quality_profiles
        .iter()
        .map(|profile| (profile.id, profile.max_video_kbps))
        .collect();
    assert_eq!(
        profiles,
        [
            ("auto", 25000),
            ("uhd_high", 25000),
            ("uhd_optimized", 16000),
            ("full_hd", 8000),
            ("data_saver", 3000),
            ("sd_480", 1500),
            ("low_360", 800),
        ]
    );
    assert_eq!(told_of.quality_profiles[0].max_width, 3840);
    assert_eq!(told_of.quality_profiles[0].max_height, 2160);
    assert_eq!(told_of.quality_profiles[0].max_fps, 30);
    assert_eq!(told_of.quality_profiles[0].h264_level, "5.1");
    assert!(told_of.quality_profiles[4].automatic_fallback);
    let presets: Vec<&str> = told_of.encoding_presets.iter().map(|preset| preset.id).collect();
    assert_eq!(presets, ["balanced", "fast_start", "maximum_speed"]);
    assert_eq!(told_of.video_outputs.len(), 1);
    assert_eq!(told_of.video_outputs[0].id, "h264_sdr");
    let accelerated = web_capabilities(&capability_facts("h264_nvenc"));
    assert_eq!(accelerated.video_outputs.len(), 2);
    assert_eq!(accelerated.video_outputs[1].id, "hevc_hdr10");
    assert_eq!(accelerated.video_outputs[1].dynamic_range, "hdr");

    for invalid in [
        "view=unknown",
        "view=library&kind=photos",
        "view=library&offset=-1",
        "view=library&limit=201",
        "view=library&surprise=true",
    ] {
        let problem = library_request(&QueryParams::parse(invalid), 7).err().unwrap();
        assert_eq!(api_error(problem).status, 400, "{invalid}");
    }
    let stale = library_request(&QueryParams::parse("view=library&generation=8"), 7).err().unwrap();
    assert_eq!(api_error(stale).status, 409);
    assert_eq!(api_error(stale).code, "catalog_changed");

    let mut alias = item(9_200_001, "Web Alias Duplicate", "video/mp4");
    alias.inode = 5;
    let mut second = item(9_200_002, "Web Alias Duplicate", "video/mp4");
    second.inode = 5;
    let large = item(9_007_199_254_740_993, "Exact Large Decimal ID", "video/mp4");
    let items = [alias, second, large];
    let page = |query: &str| {
        let request = library_request(&QueryParams::parse(query), 7).ok().unwrap();
        library_page(&request, 7, &items)
    };
    let (_, head) = page("view=library&kind=video&q=Web%20Alias%20Duplicate&limit=10");
    assert_eq!(head.total, 1);
    let (places, _) = page("view=library&kind=video&q=Exact%20Large%20Decimal%20ID&limit=10");
    assert_eq!(told(&items[places[0]], Vec::new()).id.text(), "9007199254740993");

    let song = told(&item(7, "song.flac", "audio/flac"), vec![record(0, "aac", 2)]);
    assert_eq!(song.kind, "audio");
    assert!(song.file_name.contains('.'));
    assert!(song.source_url.starts_with("/web/media/"));
    assert_eq!(song.download_url, None);
    assert_eq!(
        song.audio_tracks[0].content_type.as_deref(),
        Some("audio/mp4; codecs=\"mp4a.40.2\"")
    );
    assert_eq!(
        api_error(download_request("/web/download/7", "", Some("audio/flac")).err().unwrap())
            .status,
        415
    );

    let mut captioned = item(8, "movie.mkv", "video/x-matroska");
    captioned.captions = vec![CaptionFile {
        index: 0,
        ext: "srt".into(),
        language: Some("en".into()),
        conversion: Some(CaptionWebVttConversion::SubRipToWebVtt),
    }];
    let captions = told(&captioned, Vec::new()).captions;
    assert_eq!(captions[0].language.as_deref(), Some("en"));
    assert!(captions[0].url.is_some());
    let caption = browser_caption_response(
        captioned.captions[0].conversion,
        b"1\n00:00:00,000 --> 00:00:01,000\nText\n",
    )
    .ok()
    .unwrap();
    assert_eq!(header(&caption, "Content-Type").as_deref(), Some("text/vtt; charset=utf-8"));
    assert!(caption.body.starts_with(b"WEBVTT\n\n"));

    let software = converter("libx264", "libx264", Vec::new());
    let mut film = item(42, "tagged.mp4", "video/mp4");
    film.probe.codec_string = "avc1.640029,ac-3".into();
    film.probe.audio = "ac3".into();
    let dto = told(&film, vec![record(0, "ac3", 6)]);
    assert_eq!(dto.video_content_type.as_deref(), Some("video/mp4; codecs=\"avc1.640029\""));
    assert_eq!(
        dto.audio_tracks[0].content_type.as_deref(),
        Some("audio/mp4; codecs=\"ac-3\"")
    );
    assert_eq!(dto.codec_string.as_deref(), Some("avc1.640029,ac-3"));
    assert_eq!(dto.compatible_video_encoder, "libx264");
    let chosen_for = |path: &str, film: &MediaItem, tracks: &[(&str, u32)], server: &Converter| {
        let request = asked(path).ok().unwrap();
        let records = tracks
            .iter()
            .enumerate()
            .map(|(index, (codec, channels))| record(index, codec, *channels))
            .collect();
        let choice = converted(&request, film, records, server)?;
        let plan = transcode_plan(&request, &choice, &server.profiles, None);
        let settings = job_settings(&request, &choice);
        Ok((plan, settings))
    };
    let refused = |path: &str, film: &MediaItem, tracks: &[(&str, u32)], server: &Converter| {
        let result: Result<_, Problem> = chosen_for(path, film, tracks, server);
        api_error(result.err().unwrap()).status
    };
    let copy = "/web/media/42.mp4?quality=auto&video_mode=copy&audio_mode=transcode";
    let (plan, _) = chosen_for(copy, &film, &[("ac3", 6)], &software).ok().unwrap();
    assert_eq!(plan.video_encoder, "copy");
    assert!(!plan.copy_audio);
    assert_eq!(fallback_plan(&plan, true).unwrap().video_encoder, "libx264");
    let resized = "/web/media/42.mp4?start=30&quality=full_hd&video_mode=transcode&audio_mode=copy";
    let (plan, _) = chosen_for(resized, &film, &[("ac3", 6)], &software).ok().unwrap();
    assert_eq!(plan.video_encoder, "libx264");
    assert!(plan.copy_audio);

    film.probe.video = "hevc".into();
    film.probe.video_profile = "Main 10".into();
    film.probe.video_level = 120;
    film.probe.pixel_format = "yuv420p10le".into();
    film.probe.bit_depth = 10;
    film.probe.codec_string = "hev1.1.6.L120.B0,mp4a.40.2".into();
    film.probe.hdr = "dv-p8".into();
    film.probe.audio = "aac".into();
    assert_eq!(
        told(&film, vec![record(0, "aac", 2)]).video_content_type.as_deref(),
        Some("video/mp4; codecs=\"hvc1.1.6.L120.B0\"")
    );
    let both = "/web/media/42.mp4?quality=auto&video_mode=copy&audio_mode=copy";
    let (plan, settings) = chosen_for(both, &film, &[("aac", 2)], &software).ok().unwrap();
    assert_eq!(plan.video_encoder, "copy");
    assert!(plan.copy_audio);
    assert!(settings.cacheable);
    let portable = fallback_plan(&plan, true).unwrap();
    assert_eq!(portable.video_encoder, "libx264");
    assert!(!portable.copy_audio);
    for start in [0, 30] {
        let hls = format!(
            "/web/media/42.m3u8?delivery=hls&quality=auto&video_mode=copy&audio_mode=transcode&start={start}"
        );
        let (plan, settings) = chosen_for(&hls, &film, &[("aac", 2)], &software).ok().unwrap();
        assert!(!settings.all_fragments_independent);
        assert_eq!(settings.cacheable, start == 0);
        assert_eq!(plan.video_encoder, "copy");
        assert!(!plan.copy_audio);
    }
    for preset in ["balanced", "fast_start", "maximum_speed"] {
        let path = format!("/web/media/42.m3u8?delivery=hls&quality=full_hd&encoding_preset={preset}");
        assert!(asked(&path).is_ok(), "{path}");
    }
    for query in [
        "encoding_preset=unknown",
        "encoding_preset=",
        "encoding_preset=balanced&encoding_preset=fast_start",
    ] {
        let problem = asked(&format!("/web/media/42.mp4?{query}")).err().unwrap();
        assert_eq!(api_error(problem).status, 400, "{query}");
    }
    film.probe.hdr = "hdr10".into();
    film.probe.video_timestamp_mode = "broken-reordered".into();
    let repairing = converter("h264_nvenc", "hevc_nvenc", Vec::new());
    let dto = media_dto(&film, &facts(&film, vec![record(0, "aac", 2)], "hevc_nvenc"));
    assert!(dto.video_repair_required);
    assert_eq!(dto.repair_video_encoder, "hevc_nvenc");
    assert!(dto.video_content_type.is_some());
    assert_eq!(refused(both, &film, &[("aac", 2)], &repairing), 400);
    let repair = "/web/media/42.mp4?quality=auto&video_mode=repair&audio_mode=copy";
    let (plan, _) = chosen_for(repair, &film, &[("aac", 2)], &repairing).ok().unwrap();
    assert_eq!(plan.video_encoder, "hevc_nvenc");
    assert!(plan.keep_hdr10);
    film.probe.hdr = "dv-p8".into();
    film.probe.video_timestamp_mode = "valid".into();
    film.probe.codec_string = "hevc,mp4a.40.2".into();
    assert!(chosen_for(both, &film, &[("aac", 2)], &software).is_ok());
    let resized_copy = "/web/media/42.mp4?quality=full_hd&video_mode=copy&audio_mode=copy";
    assert_eq!(refused(resized_copy, &film, &[("aac", 2)], &software), 400);
    film.probe.audio = "truehd".into();
    assert_eq!(refused(both, &film, &[("truehd", 8)], &software), 400);

    let mut dvp7 = item(42, "dvp7.mkv", "video/x-matroska");
    dvp7.probe.video = "hevc".into();
    dvp7.probe.bit_depth = 10;
    dvp7.probe.hdr = "dv-p7".into();
    let tracks = [("truehd", 6), ("ac3", 2)];
    let (plan, settings) =
        chosen_for("/web/media/42.mp4", &dvp7, &tracks, &software).ok().unwrap();
    assert_eq!(settings.mime, "video/mp4");
    assert!(settings.cacheable);
    assert_eq!(plan.video_encoder, "libx264");
    assert!(!plan.copy_audio);
    assert!(fallback_plan(&plan, true).is_none());
    let selected = "/web/media/42.mp4?audio=1&start=120&session=12&request=77";
    let (plan, settings) = chosen_for(selected, &dvp7, &tracks, &software).ok().unwrap();
    assert_eq!(plan.audio_index, 1);
    assert_eq!(settings.audio_index, 1);
    assert!(!settings.cacheable);
    let selected = asked(selected).ok().unwrap();
    assert_eq!(selected.session_id, Some(12));
    assert_eq!(selected.request_id, Some(77));
    assert_eq!(selected.start_seconds, 120);
    for delivery in ["hls", "mse", "mse&mse_after=17"] {
        let path = format!("/web/media/42.m3u8?quality=data_saver&delivery={delivery}");
        let (_, settings) = chosen_for(&path, &dvp7, &tracks, &software).ok().unwrap();
        assert!(settings.all_fragments_independent, "{path}");
    }
    for resource in [
        "/web/media/42.mp4?quality=data_saver&delivery=hls_init&hls_offset=0&hls_length=1024",
        "/web/media/42.m4s?quality=data_saver&delivery=hls_segment&hls_offset=1024&hls_length=4096",
        "/web/media/42.mp4?quality=data_saver&delivery=mse_init&hls_offset=0&hls_length=1024",
        "/web/media/42.m4s?quality=data_saver&delivery=mse_segment&hls_offset=1024&hls_length=4096",
        "/web/media/42.mp4?mode=direct&reason=forced_original&request=8",
    ] {
        assert!(asked(resource).is_ok(), "{resource}");
    }
    for invalid in [
        "/web/media/42.mp4?quality=ultra",
        "/web/media/42.mp4?mode=maybe",
        "/web/media/42.mp4?request=-1",
        "/web/media/42.mp4?session=-1",
        "/web/media/42.mp4?mode=direct&mode=compatible",
        "/web/media/42.mp4?mode=direct&quality=auto",
        "/web/media/42.mp4?delivery=maybe",
        "/web/media/42.mp4?mode=direct&delivery=hls",
        "/web/media/42.mp4?delivery=hls",
        "/web/media/42.m3u8?delivery=hls_init",
        "/web/media/42.m4s?delivery=hls_segment",
        "/web/media/42.mp4?delivery=mse",
        "/web/media/42.m3u8?delivery=mse_init",
        "/web/media/42.m4s?delivery=mse_segment",
        "/web/media/42.m3u8?delivery=hls&mse_after=1",
        "/web/media/42.mp4?delivery=mse_init&hls_offset=0&hls_length=1024&mse_after=1",
        "/web/media/42.m3u8?delivery=mse&mse_after=20001",
        "/web/media/42.m3u8?delivery=mse&mse_after=nope",
        "/web/media/42.m3u8?%64elivery=mse&mse_after=1",
        "/web/media/42.m3u8?delivery=mse&%6dse_after=1",
        "/web/media/42.m4s?delivery=hls_segment&hls_offset=0&hls_length=0",
        "/web/media/42.mp4?reason=",
        "/web/media/42.mp4?reason=%GG",
        "/web/media/42.mp4?video_output=unknown",
        "/web/media/42.mp4?video_mode=copy&video_output=h264_sdr",
    ] {
        assert_eq!(api_error(asked(invalid).err().unwrap()).status, 400, "{invalid}");
    }
    assert_eq!(
        refused("/web/media/42.mp4?video_output=hevc_hdr10", &dvp7, &tracks, &software),
        400
    );
    assert_eq!(refused("/web/media/42.mp4?audio=2", &dvp7, &tracks, &software), 400);
    for invalid in ["enrich=maybe", "extra=1"] {
        let problem = item_request(invalid, "/api/web/item/42", true).err().unwrap();
        assert_eq!(api_error(problem).status, 400, "{invalid}");
    }

    let nvenc = converter("h264_nvenc", "h264_nvenc", Vec::new());
    let hdr10 = "/web/media/42.mp4?quality=uhd_high&video_mode=transcode&video_output=hevc_hdr10&audio_mode=transcode";
    let (plan, _) = chosen_for(hdr10, &dvp7, &tracks, &nvenc).ok().unwrap();
    assert_eq!(plan.video_encoder, "hevc_nvenc");
    assert!(plan.keep_hdr10);
    let (plan, _) =
        chosen_for("/web/media/42.mp4?start=60", &dvp7, &tracks, &nvenc).ok().unwrap();
    assert_eq!(plan.video_encoder, "h264_nvenc");
    let fallback = fallback_plan(&plan, true).unwrap();
    assert_eq!(fallback.video_encoder, "libx264");
    assert_eq!(fallback.hardware_decode, None);
    let dto = told(&dvp7, vec![record(0, "truehd", 6), record(1, "ac3", 2)]);
    assert_eq!(dto.id.text(), "42");
    assert_eq!(dto.download_url.as_deref(), Some("/web/download/42"));
    assert_eq!(dto.audio_tracks[0].codec, "truehd");
    assert!(dto.transcode_likely);
    let mut response = HttpResponse::new(206, "Partial Content");
    offer_download(&mut response, &dvp7);
    assert_eq!(
        header(&response, "Content-Disposition").as_deref(),
        Some("attachment; filename=\"dvp7.mkv\"; filename*=UTF-8''dvp7.mkv")
    );
    assert_eq!(header(&response, "Cache-Control").as_deref(), Some("private, no-store"));
    assert_eq!(header(&response, "X-Content-Type-Options").as_deref(), Some("nosniff"));
    for (path, query) in [
        ("/web/download/42", "extra=1"),
        ("/web/download/0", ""),
        ("/web/download/01", ""),
        ("/web/download/nope", ""),
    ] {
        let problem = download_request(path, query, Some("video/mp4")).err().unwrap();
        assert_eq!(api_error(problem).status, 400, "{path}?{query}");
    }

    let act = |method: &str, query: &str, known: bool| {
        let request = status_request(method, query, "/api/web/transcode/42", known)?;
        status_action(request, true, true)
    };
    assert_eq!(act("GET", "", false), Ok(StatusAction::Look));
    assert_eq!(
        act("DELETE", "request=77&session=12", false),
        Ok(StatusAction::Cancel { request_id: 77 })
    );
    assert_eq!(
        act("POST", "request=78&session=12&event=canplay", true),
        Ok(StatusAction::Report { request_id: 78, session_id: 12 })
    );
    assert!(
        act("POST", "request=78&session=12&event=mse_first_fragment_appended", true).is_ok()
    );
    assert_eq!(
        act("GET", "request=77", false),
        Ok(StatusAction::KeepAlive { request_id: 77 })
    );
    let cancel =
        status_request("DELETE", "request=77&session=12", "/api/web/transcode/42", false)
            .ok()
            .unwrap();
    assert_eq!(answered_state(cancel, true, "idle".into(), Some(1)).0, "cancelled");
    let look = status_request("GET", "", "/api/web/transcode/42", false).ok().unwrap();
    assert_eq!(answered_state(look, false, "idle".into(), None).0, "idle");
    for (method, query, known) in [
        ("POST", "event=canplay", true),
        ("POST", "request=78&session=12&event=nope", false),
        ("GET", "request=78&session=12&event=canplay", true),
        ("DELETE", "", false),
        ("GET", "request=nope", false),
        ("GET", "session=nope", false),
        ("GET", "extra=1", false),
    ] {
        let problem = act(method, query, known).err().unwrap();
        assert_eq!(api_error(problem).status, 400, "{method} {query}");
    }

    let runtime = status_json(&status_facts(), None, true).1.web_player;
    for total in ["requests_total", "prepared_reuses_total"] {
        assert!(runtime.totals.iter().any(|named| named.name == total && named.total == 0));
    }
    for phase in [
        "startup_to_initial_bytes_ms",
        "startup_to_first_playable_ms",
        "startup_to_playlist_ready_ms",
        "startup_to_mse_playlist_received_ms",
        "startup_to_mse_init_fetched_ms",
        "startup_to_mse_init_appended_ms",
        "startup_to_mse_first_fragment_fetched_ms",
        "startup_to_mse_first_fragment_appended_ms",
        "startup_to_canplay_ms",
        "startup_to_playing_ms",
    ] {
        assert!(runtime
            .startup
            .iter()
            .any(|named| named.name == phase && named.times.count == 0));
    }

    let disabled = Converter { enabled: false, ..nvenc };
    let compatible: Result<_, Problem> =
        chosen_for("/web/media/42.mp4?mode=compatible", &dvp7, &tracks, &disabled);
    let answer = api_error(compatible.err().unwrap());
    assert_eq!(answer.status, 409);
    assert_eq!(answer.code, "transcode_disabled");

    let page = "<title>rustyDLNA</title>";
    let status_page = "<title>rustyDLNA-test</title>";
    let switched_on = root_response(true, page.into(), status_page.into());
    assert_eq!(switched_on.body, page.as_bytes());
    assert!(header(&switched_on, "Content-Security-Policy").is_some());
    let switched_off = root_response(false, page.into(), status_page.into());
    assert_eq!(switched_off.status, 200);
    assert_eq!(switched_off.body, status_page.as_bytes());
    assert_eq!(
        header(&switched_off, "Content-Type").as_deref(),
        Some("text/html; charset=utf-8")
    );
    assert_eq!(header(&switched_off, "Content-Security-Policy"), None);
}
