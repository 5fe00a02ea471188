use rusty_dlna_web::caption::CaptionWebVttConversion;
use rusty_dlna_web::catalog::{media_file_name, CaptionFile, MediaItem};
use rusty_dlna_web::codec::{
    AudioCodec, Container, HdrKind, ProbeInfo, SourceMedia, VideoCodec,
};
use rusty_dlna_web::conversion::OpenFailure;
use rusty_dlna_web::entry::{
    fallback_channels, mark_complete, media_dto, MediaFacts, WebMovieCollection,
};
use rusty_dlna_web::http::{item_etag, HttpResponse};
use rusty_dlna_web::problem::Problem;
use rusty_dlna_web::route::{web_download_id, web_media_id};
use rusty_dlna_web::subtitle::{
    browser_caption_response, browser_caption_url, caption_dtos, caption_label,
};
use rusty_dlna_web::title::{
    download_request, enriched, item_open_problem, item_request, item_start, offer_download,
    original_path, probe_problem, AvInfo, ItemRequest, ItemStart, ProbeOutcome,
};
use rusty_dlna_web::track::{AudioRecord, ChapterRecord, StreamMarkers};

fn probe() -> ProbeInfo {
    ProbeInfo {
        container: "mp4".into(),
        video: "h264".into(),
        hdr: "sdr".into(),
        audio: "aac".into(),
        width: 1920,
        height: 1080,
        codec_string: "avc1.640028".into(),
        video_profile: String::new(),
        video_level: 0,
        pixel_format: "yuv420p".into(),
        bit_depth: 8,
        frame_rate: "24/1".into(),
        video_timestamp_mode: String::new(),
        audio_layout: String::new(),
    }
}

fn item(mime: &str) -> MediaItem {
    MediaItem {
        object_id: "64$1".into(),
        detail_id: 42,
        title: "Film".into(),
        path_name: Some("film (2020).mp4".into()),
        title_key: "film".into(),
        mime: mime.into(),
        ext: "mp4".into(),
        date: "2020-01-01".into(),
        duration: Some("1:00:00".into()),
        resolution: Some("1920x1080".into()),
        artist: None,
        album_artist: None,
        album: None,
        disc: Some(1),
        track: None,
        about: Some("about".into()),
        plot: Some("plot".into()),
        genre: None,
        creator: None,
        composer: None,
        bitrate: Some(8000),
        channels: Some(6),
        samplerate: Some(48000),
        size: 1234,
        device: 1,
        inode: 2,
        album_art: 0,
        captions: vec![CaptionFile {
            index: 0,
            ext: "srt".into(),
            language: Some("eng".into()),
            conversion: Some(CaptionWebVttConversion::SubRipToWebVtt),
        }],
        probe: probe(),
    }
}

fn facts() -> MediaFacts {
    MediaFacts {
        source: SourceMedia {
            container: Container::Mp4,
            video_codec: VideoCodec::H264,
            hdr: HdrKind::Sdr,
            audio: AudioCodec::Aac,
            width: 1920,
            height: 1080,
            requires_sdr_tonemap: false,
        },
        records: Some(vec![AudioRecord {
            audio_index: 3,
            codec: "aac".into(),
            channels: Some(2),
            language: None,
            title: None,
            default: true,
        }]),
        picked_audio: 0,
        chapters: vec![ChapterRecord {
            source_index: 0,
            title: None,
            start_millis: 0,
            end_millis: 10,
        }],
        markers: Some(StreamMarkers { video_capabilities: true, timestamps: false }),
        collection: Some(WebMovieCollection {
            id: "c1".into(),
            title: "Films".into(),
            sequence: 2,
        }),
        duration_seconds: Some(3600),
        thumbnails: true,
        browser_encoder: "libx264".into(),
        repair_encoder: "hevc_nvenc".into(),
    }
}

#[test]
fn a_browser_is_told_of_a_video() {
    let told = media_dto(&item("video/mp4"), &facts());
    assert_eq!(told.id.text(), "42");
    assert_eq!(told.file_name, "film (2020).mp4");
    assert_eq!(told.kind, "video");
    assert_eq!(told.date.as_deref(), Some("2020-01-01"));
    assert_eq!(told.summary.as_deref(), Some("plot"));
    assert_eq!(told.video_profile, None, "an empty profile says nothing");
    assert_eq!(told.video_level, None);
    assert_eq!(told.bit_depth, Some(8));
    assert_eq!(told.codec_string.as_deref(), Some("avc1.640028,mp4a.40.2"));
    assert_eq!(told.video_content_type.as_deref(), Some("video/mp4; codecs=\"avc1.640028\""));
    assert_eq!(told.default_audio_index, 3);
    assert_eq!(told.audio_tracks.len(), 1);
    assert_eq!(told.chapters[0].title, "Chapter 1");
    assert!(!told.stream_metadata_complete, "timestamps were not checked");
    assert_eq!(told.art_url.as_deref(), Some("/Thumbnails/42.jpg"));
    assert_eq!(told.preview_url.as_deref(), Some("/api/web/preview/42"));
    assert_eq!(told.download_url.as_deref(), Some("/web/download/42"));
    assert_eq!(told.source_url, "/web/media/42.mp4?mode=direct");
    assert_eq!(told.fallback_url, "/web/media/42.mp4");
    assert!(!told.transcode_likely);
    assert_eq!(told.compatible_video_encoder, "libx264");
    assert_eq!(told.repair_video_encoder, "libx264");
    assert_eq!(told.collection.as_ref().unwrap().sequence, 2);
    assert_eq!(web_media_id(&told.fallback_url), Some(42));
    assert_eq!(web_download_id(told.download_url.as_deref().unwrap()), Some(42));
    assert!(mark_complete(told).stream_metadata_complete);
}

#[test]
fn a_browser_is_told_of_music_and_of_broken_video() {
    let mut song = item("audio/flac");
    song.album_art = 7;
    let told = media_dto(&song, &facts());
    assert_eq!(told.kind, "audio");
    assert_eq!(told.summary.as_deref(), Some("about"));
    assert_eq!(told.art_url.as_deref(), Some("/AlbumArt/7-42.jpg"));
    assert_eq!(told.preview_url, None);
    assert_eq!(told.download_url, None);
    assert_eq!(told.compatible_video_encoder, "none");
    assert_eq!(told.repair_video_encoder, "none");
    assert!(told.transcode_likely);
    let mut broken = item("video/mp4");
    broken.probe.video_timestamp_mode = "broken-reordered".into();
    let told = media_dto(&broken, &facts());
    assert!(told.video_repair_required);
    assert_eq!(told.repair_video_encoder, "hevc_nvenc");
    let unknown = MediaFacts { records: None, thumbnails: false, ..facts() };
    let told = media_dto(&item("video/mp4"), &unknown);
    assert_eq!(told.art_url, None);
    assert_eq!(told.audio_tracks[0].channels, 6);
    assert_eq!(fallback_channels(Some(-1)), 0);
    assert_eq!(fallback_channels(Some(4_294_967_296)), 0);
    assert_eq!(fallback_channels(None), 0);
}

#[test]
fn every_refusal_of_details_has_an_input() {
    let path = "/api/web/item/42";
    assert_eq!(item_request("", path, true), Ok(ItemRequest { id: 42, enrich: false }));
    assert_eq!(item_request("enrich=1", path, true), Ok(ItemRequest { id: 42, enrich: true }));
    assert_eq!(item_request("enrich=0", path, true), Ok(ItemRequest { id: 42, enrich: false }));
    assert_eq!(item_request("a=1", path, true), Err(Problem::ItemParameter));
    assert_eq!(item_request("enrich=yes", path, true), Err(Problem::InvalidEnrichment));
    assert_eq!(item_request("", "/api/web/item/x", true), Err(Problem::InvalidItem));
    assert_eq!(item_request("", path, false), Err(Problem::MediaMissing));
}

#[test]
fn details_are_shown_of_what_can_be_played() {
    let request = ItemRequest { id: 42, enrich: true };
    let tag = item_etag(7, 42, true);
    assert_eq!(item_start(request, 7, Some(&tag), "image/png"), ItemStart::NotModified);
    assert_eq!(
        item_start(request, 8, Some(&tag), "image/png"),
        ItemStart::Refused(Problem::ItemUnsupported)
    );
    assert_eq!(item_start(request, 8, Some(&tag), "video/mp4"), ItemStart::Open);
    assert_eq!(item_open_problem(OpenFailure::PermissionDenied), Problem::FileForbidden);
    assert_eq!(item_open_problem(OpenFailure::Other), Problem::ItemFileMissing);
    assert_eq!(probe_problem(ProbeOutcome::Busy), Err(Problem::ProbeBusy));
    assert_eq!(probe_problem(ProbeOutcome::Failed), Err(Problem::ProbeFailed));
    assert_eq!(probe_problem(ProbeOutcome::Probed), Ok(()));
}

#[test]
fn looking_into_a_file_loses_nothing() {
    let found = AvInfo {
        duration: Some("2:00:00".into()),
        bitrate: None,
        resolution: None,
        channels: Some(2),
        samplerate: None,
    };
    let mut streams = probe();
    streams.video = "hevc".into();
    let richer = enriched(item("video/mp4"), streams, found);
    assert_eq!(richer.probe.video, "hevc");
    assert_eq!(richer.duration.as_deref(), Some("2:00:00"));
    assert_eq!(richer.bitrate, Some(8000));
    assert_eq!(richer.resolution.as_deref(), Some("1920x1080"));
    assert_eq!(richer.channels, Some(2));
    assert_eq!(richer.samplerate, Some(48000));
    assert_eq!(richer.title, "Film");
}

#[test]
fn every_download_refusal_has_an_input() {
    let path = "/web/download/42";
    assert_eq!(download_request(path, "", Some("video/mp4")), Ok(42));
    assert_eq!(download_request("/web/download/x", "", None), Err(Problem::InvalidDownload));
    assert_eq!(download_request(path, "a=1", None), Err(Problem::DownloadParameter));
    assert_eq!(download_request(path, "", None), Err(Problem::MediaMissing));
    assert_eq!(
        download_request(path, "", Some("audio/flac")),
        Err(Problem::DownloadUnsupported)
    );
}

#[test]
fn files_are_offered_for_download_under_their_names() {
    let mut response = HttpResponse::new(206, "Partial Content");
    response.set("Cache-Control", "public");
    offer_download(&mut response, &item("video/mp4"));
    assert_eq!(
        response.headers,
        [
            ("Cache-Control".to_owned(), "private, no-store".to_owned()),
            (
                "Content-Disposition".to_owned(),
                "attachment; filename=\"film (2020).mp4\"; filename*=UTF-8''film%20%282020%29.mp4"
                    .to_owned()
            ),
            ("X-Content-Type-Options".to_owned(), "nosniff".to_owned()),
        ]
    );
    let mut refused = HttpResponse::new(404, "Not Found");
    offer_download(&mut refused, &item("video/mp4"));
    assert!(refused.headers.is_empty());
    assert_eq!(original_path(42, "mkv"), "/MediaItems/42.mkv");
    let mut unnamed = item("video/mp4");
    unnamed.path_name = None;
    assert_eq!(media_file_name(&unnamed), "Film");
}

#[test]
fn captions_are_labelled_by_language_or_number() {
    assert_eq!(caption_label(0, Some("eng")), "English");
    assert_eq!(caption_label(0, Some("fre")), "French");
    assert_eq!(caption_label(0, Some("pt-br")), "PT-BR");
    assert_eq!(caption_label(0, Some("straße")), "STRASSE");
    assert_eq!(caption_label(2, None), "Caption 3");
    for (code, name) in [
        ("es", "Spanish"),
        ("ger", "German"),
        ("ita", "Italian"),
        ("ja", "Japanese"),
        ("kor", "Korean"),
        ("chi", "Chinese"),
    ] {
        assert_eq!(caption_label(0, Some(code)), name);
    }
}

#[test]
fn captions_that_cannot_be_shown_have_no_path() {
    let offered = caption_dtos(&item("video/mp4").captions, 42);
    assert_eq!(offered[0].url.as_deref(), Some("/Captions/42/0.vtt?format=webvtt"));
    assert!(offered[0].browser_supported);
    assert!(!offered[0].default);
    assert_eq!(offered[0].label, "English");
    assert_eq!(offered[0].source_format, "srt");
    assert_eq!(browser_caption_url(42, 3, None), None);
    let picture = CaptionFile { index: 1, ext: "sub".into(), language: None, conversion: None };
    let offered = caption_dtos(&[picture], 42);
    assert!(!offered[0].browser_supported);
    assert_eq!(offered[0].label, "Caption 2");
}

#[test]
fn every_caption_refusal_has_an_input() {
    let srt = Some(CaptionWebVttConversion::SubRipToWebVtt);
    let response = browser_caption_response(srt, b"1\n00:00:00,000 --> 00:00:01,000\nText\n")
        .ok()
        .unwrap();
    assert_eq!(response.status, 200);
    assert!(response.body.starts_with(b"WEBVTT\n\n"));
    assert_eq!(response.headers[0].1, "text/vtt; charset=utf-8");
    assert_eq!(response.headers[1].1, "no-store");
    assert_eq!(browser_caption_response(None, b"").err(), Some(Problem::CaptionUnsupported));
    assert_eq!(browser_caption_response(srt, &[0xff]).err(), Some(Problem::CaptionEncoding));
    assert_eq!(browser_caption_response(srt, b"x").err(), Some(Problem::CaptionMalformed));
}
