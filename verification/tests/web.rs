use rusty_dlna_web::download::{download_content_disposition, safe_download_file_name};
use rusty_dlna_web::entry::{duration_parts, WebItemId};
use rusty_dlna_web::jpeg::jpeg_dimensions;
use rusty_dlna_web::library::continue_detail_ids;
use rusty_dlna_web::query::QueryParams;
use rusty_dlna_web::route::{
    trickplay_request, valid_asset_revision, web_download_id, web_item_id, web_media_id,
    TrickplayRequest,
};
use rusty_dlna_web::track::{
    default_audio_index, is_english_audio_language, original_audio_index, stored_audio_tracks,
    stored_chapters, stream_metadata_complete, AudioRecord, ChapterRecord, StreamMarkers,
};

#[test]
fn query_params_decode_and_bound_values() {
    let params = QueryParams::parse("q=Blade+Runner%3A+2049&offset=20&limit=80");
    assert_eq!(params.get("q"), Some("Blade Runner: 2049"));
    assert_eq!(params.optional_usize("offset"), Ok(Some(20)));
    assert_eq!(params.optional_usize("limit"), Ok(Some(80)));
    assert!(!params.has_unknown(&["q", "offset", "limit"]));

    for query in [
        "q=one&q=two",
        "q=%GG",
        "q=%FF",
        "q",
        "q=one&&limit=1",
        "a=1&b=2&c=3&d=4&e=5&f=6&g=7&h=8&i=9&j=10&k=11&l=12&m=13&n=14&o=15&p=16&q=17",
    ] {
        assert!(QueryParams::parse(query).has_unknown(&["q"]), "{query}");
    }
}

#[test]
fn continue_ids_are_canonical_distinct_and_bounded() {
    assert_eq!(continue_detail_ids(""), Ok(Vec::new()));
    assert_eq!(continue_detail_ids("9,42"), Ok(vec![9, 42]));
    for invalid in ["0", "01", "-1", "+1", "1,1", "1,,2", "x"] {
        assert_eq!(continue_detail_ids(invalid), Err(()), "{invalid}");
    }
    let hundred = (1..=100)
        .map(|id| id.to_string())
        .collect::<Vec<_>>()
        .join(",");
    assert_eq!(continue_detail_ids(&hundred).unwrap().len(), 100);
    assert_eq!(continue_detail_ids(&format!("{hundred},101")), Err(()));
    assert_eq!(
        continue_detail_ids("9223372036854775808"),
        Err(()),
        "IDs must remain inside the signed database key range"
    );
}

#[test]
fn english_audio_language_accepts_common_tags_and_rejects_lookalikes() {
    for language in ["en", "ENG", "en-US", "eng_GB", " English "] {
        assert!(is_english_audio_language(Some(language)), "{language}");
    }
    for language in ["", "und", "enm", "english-commentary", "jpn"] {
        assert!(!is_english_audio_language(Some(language)), "{language}");
    }
    assert!(!is_english_audio_language(None));
}

#[test]
fn media_ids_are_strict() {
    assert_eq!(web_media_id("/web/media/42.mp4"), Some(42));
    assert_eq!(web_media_id("/web/media/42.m3u8"), Some(42));
    assert_eq!(web_media_id("/web/media/42.m4s"), Some(42));
    assert_eq!(web_media_id("/web/media/nope.mp4"), None);
    assert_eq!(web_item_id("/api/web/item/42"), Some(42));
    assert_eq!(web_item_id("/api/web/item/42junk"), None);
    assert_eq!(web_item_id("/api/web/item/0"), None);
    assert_eq!(web_item_id("/api/web/item/00"), None);
    assert_eq!(web_item_id("/api/web/item/042"), None);
    assert_eq!(
        web_item_id("/api/web/item/9223372036854775807"),
        Some(i64::MAX)
    );
    assert_eq!(web_item_id("/api/web/item/9223372036854775808"), None);
    assert_eq!(web_media_id("/web/media/42.mp4junk"), None);
    assert_eq!(web_download_id("/web/download/42"), Some(42));
    assert_eq!(web_download_id("/web/download/0"), None);
    assert_eq!(web_download_id("/web/download/042"), None);
    assert_eq!(web_download_id("/web/download/42/extra"), None);
}

#[test]
fn download_disposition_is_safe_utf8_and_bounded() {
    let disposition = download_content_disposition("Кино \"night\"\r\n/clip.mkv", 42, "mkv");
    assert!(!disposition.contains(['\r', '\n', '/', '\\']));
    assert!(disposition.starts_with("attachment; filename=\""));
    assert!(disposition.contains("filename*=UTF-8''%D0%9A%D0%B8%D0%BD%D0%BE"));
    assert!(disposition.ends_with("clip.mkv"));

    let long_name = format!("{}.mkv", "К".repeat(300));
    let bounded = safe_download_file_name(&long_name, 42, "mkv");
    assert!(bounded.len() <= 240);
    assert!(bounded.ends_with(".mkv"));
}

#[test]
fn web_item_ids_serialize_as_exact_decimal_strings() {
    let id = WebItemId { id: 9_007_199_254_740_993 };
    assert_eq!(id.text(), "9007199254740993");
}

#[test]
fn trickplay_paths_and_jpeg_dimensions_are_strict() {
    assert!(matches!(
        trickplay_request("/api/web/preview/42"),
        Some(TrickplayRequest::Manifest(42))
    ));
    match trickplay_request("/web/preview/42/0123456789abcdef/3.jpg") {
        Some(TrickplayRequest::Sheet { item_id, revision, index }) => {
            assert_eq!(item_id, 42);
            assert_eq!(revision, "0123456789abcdef");
            assert_eq!(index, 3);
        }
        _ => panic!("not a sheet"),
    }
    for invalid in [
        "/api/web/preview/0",
        "/api/web/preview/042",
        "/api/web/preview/42/extra",
        "/web/preview/042/0123456789abcdef/1.jpg",
        "/web/preview/42/0123456789abcdef/-1.jpg",
        "/web/preview/42/0123456789abcdef/1.png",
        "/web/preview/42/0123456789abcdef/1.jpg/extra",
    ] {
        assert!(trickplay_request(invalid).is_none(), "{invalid}");
    }
    assert!(valid_asset_revision("0123456789abcdef"));
    assert!(!valid_asset_revision("0123456789ABCDEF"));
    let jpeg = [
        0xff, 0xd8, 0xff, 0xc0, 0x00, 0x0b, 0x08, 0x0e, 0x10, 0x0c, 0x80, 0x01, 0x01, 0x11, 0x00,
        0xff, 0xd9,
    ];
    assert_eq!(jpeg_dimensions(&jpeg), Some((3200, 3600)));
    assert_eq!(jpeg_dimensions(&jpeg[..jpeg.len() - 2]), None);
    let mut flat = jpeg;
    flat[7] = 0;
    flat[8] = 0;
    assert_eq!(jpeg_dimensions(&flat), None);
}

fn record(
    audio_index: usize,
    codec: &str,
    channels: Option<u32>,
    language: Option<&str>,
    title: Option<&str>,
    default: bool,
) -> AudioRecord {
    AudioRecord {
        audio_index,
        codec: codec.to_owned(),
        channels,
        language: language.map(str::to_owned),
        title: title.map(str::to_owned),
        default,
    }
}

#[test]
fn compact_audio_tracks_require_channels_and_preserve_order() {
    let records = [
        record(8, "aac", None, None, None, false),
        record(3, "ac3", Some(6), Some("eng"), Some("Dub, Кино"), true),
        record(3, "eac3", Some(2), None, None, false),
    ];
    let tracks = stored_audio_tracks(Some(&records), "truehd", 8);
    assert_eq!(tracks.len(), 2);
    assert_eq!(
        tracks.iter().map(|track| track.index).collect::<Vec<_>>(),
        [3, 3]
    );
    assert_eq!(tracks[0].codec, "ac3");
    assert_eq!(tracks[0].channels, 6);
    assert_eq!(tracks[0].language.as_deref(), Some("eng"));
    assert_eq!(tracks[0].title.as_deref(), Some("Dub, Кино"));
    assert!(tracks[0].default);
    assert_eq!(tracks[1].codec, "eac3");
    assert_eq!(tracks[1].title, None, "bad labels degrade to no label");

    let no_displayable_channels = [record(9, "aac", None, None, None, false)];
    let fallback = stored_audio_tracks(Some(&no_displayable_channels), "truehd,ac3", 8);
    assert_eq!(
        fallback
            .iter()
            .map(|track| (
                track.index,
                track.codec.as_str(),
                track.channels,
                track.default
            ))
            .collect::<Vec<_>>(),
        [(0, "truehd", 8, true), (1, "ac3", 8, false)],
        "three-field records remain selectable but are not browser display tracks"
    );
}

#[test]
fn browser_audio_default_prefers_tagged_english_without_changing_original() {
    let records = [
        record(0, "aac", Some(2), Some("jpn"), Some("Main"), true),
        record(1, "ac3", Some(6), Some("eng"), Some("English"), false),
        record(2, "aac", Some(2), Some("fra"), Some("French"), false),
    ];
    let tracks = stored_audio_tracks(Some(&records), "aac,ac3,aac", 2);
    assert_eq!(default_audio_index(&tracks, 0), 1);
    assert_eq!(original_audio_index(&tracks), 0);

    let no_english = [
        record(0, "aac", Some(2), Some("jpn"), Some("Main"), false),
        record(1, "ac3", Some(6), Some("fra"), Some("French"), true),
    ];
    let tracks = stored_audio_tracks(Some(&no_english), "aac,ac3", 2);
    assert_eq!(default_audio_index(&tracks, 0), 1);
}

#[test]
fn compact_chapters_keep_source_gaps_and_malformed_marker_presence() {
    let markers = Some(StreamMarkers { video_capabilities: true, timestamps: true });
    assert!(stream_metadata_complete(markers, "video/mp4", "mp4", "h264"));
    let chapter = |source_index: usize, title: Option<&str>, start: u64, end: u64| ChapterRecord {
        source_index,
        title: title.map(str::to_owned),
        start_millis: start,
        end_millis: end,
    };
    let chapters = stored_chapters(&[
        chapter(2, Some("Good One"), 100, 200),
        chapter(3, None, 200, 300),
        chapter(4, None, 300, 400),
    ]);
    assert_eq!(chapters.len(), 3);
    assert_eq!(
        chapters
            .iter()
            .map(|chapter| chapter.index)
            .collect::<Vec<_>>(),
        [2, 3, 4]
    );
    assert_eq!(chapters[0].title, "Good One");
    assert_eq!(chapters[1].title, "Chapter 4");
    assert_eq!(chapters[2].title, "Chapter 5");
}

#[test]
fn oversized_compact_metadata_uses_safe_server_fallbacks() {
    let tracks = stored_audio_tracks(None, "truehd,ac3", 8);
    assert_eq!(tracks.len(), 2);
    assert_eq!(tracks[0].codec, "truehd");
    assert!(tracks[0].default);
    assert!(stored_chapters(&[]).is_empty());
    assert!(!stream_metadata_complete(None, "video/mp4", "mp4", "h264"));
}

#[test]
fn media_duration_is_bounded_whole_seconds() {
    let (hours, minutes, seconds) = duration_parts("2:03:35.776").unwrap();
    assert_eq!((hours.as_str(), minutes.as_str(), seconds.as_str()), ("2", "03", "35.776"));
    let whole = |text: &str| text.split('.').next().unwrap().parse::<usize>().unwrap();
    assert_eq!(whole(&hours) * 3600 + whole(&minutes) * 60 + whole(&seconds), 7_415);
    assert_eq!(duration_parts("not-a-duration"), None);
    assert_eq!(duration_parts("1:2:3:4"), None);
}
