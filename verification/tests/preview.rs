use rusty_dlna_web::preview::{
    bounded_length, bounded_read, can_have_previews, is_sheet_of, metadata_mtime_ns,
    preview_request, preview_unavailable, sheet_response, sheet_urls, sheets_complete,
    validate_trickplay_manifest, PreviewFileError, PreviewUnavailable, ReadOutcome,
    TrickplayExpectation, TrickplaySidecarManifest,
};
use rusty_dlna_web::problem::Problem;
use rusty_dlna_web::route::{trickplay_request, trickplay_sheet_name, TrickplayRequest};

fn manifest() -> TrickplaySidecarManifest {
    TrickplaySidecarManifest {
        schema_version: 1,
        source_size: 1000,
        source_mtime_ns: 5_000_000_007,
        interval_seconds: 10,
        frame_width: 320,
        frame_height: 180,
        columns: 10,
        rows: 20,
        frame_count: 700,
        asset_revision: "0123456789abcdef".into(),
    }
}

fn expected() -> TrickplayExpectation {
    TrickplayExpectation {
        schema_version: 1,
        interval_seconds: Some(10),
        frame_count: Some(700),
        sheet_count: Some(4),
        valid_layout: true,
    }
}

fn jpeg() -> Vec<u8> {
    vec![
        0xff, 0xd8, 0xff, 0xc0, 0x00, 0x0b, 0x08, 0x0e, 0x10, 0x0c, 0x80, 0x01, 0x01, 0x11, 0x00,
        0xff, 0xd9,
    ]
}

#[test]
fn every_preview_refusal_has_an_input() {
    let path = "/api/web/preview/42";
    assert!(preview_request("get", "", path).is_ok());
    assert!(preview_request("HEAD", "", path).is_ok());
    assert_eq!(preview_request("POST", "", path).err(), Some(Problem::PreviewMethod));
    assert_eq!(preview_request("GET", "a=1", path).err(), Some(Problem::PreviewParameter));
    assert_eq!(
        preview_request("GET", "", "/api/web/preview/0").err(),
        Some(Problem::InvalidPreview)
    );
}

#[test]
fn a_title_without_previews_says_so_in_its_manifest() {
    let manifest = trickplay_request("/api/web/preview/42").unwrap();
    assert_eq!(preview_unavailable(&manifest), PreviewUnavailable::Manifest(42));
    let sheet = trickplay_request("/web/preview/42/0123456789abcdef/3.jpg").unwrap();
    assert_eq!(sheet.item(), 42);
    assert_eq!(
        preview_unavailable(&sheet),
        PreviewUnavailable::Refused(Problem::PreviewUnavailable)
    );
    assert!(can_have_previews(Some("video/mp4")));
    assert!(!can_have_previews(Some("audio/flac")));
    assert!(!can_have_previews(None));
}

#[test]
fn generated_files_are_read_whole_or_not_at_all() {
    assert_eq!(bounded_length(10, 10), Ok(10));
    assert_eq!(bounded_length(0, 10), Err(PreviewFileError::InvalidSize));
    assert_eq!(bounded_length(11, 10), Err(PreviewFileError::InvalidSize));
    assert_eq!(bounded_read(10, ReadOutcome::Bytes(10)), Ok(()));
    assert_eq!(bounded_read(10, ReadOutcome::Bytes(9)), Err(PreviewFileError::Changed));
    assert_eq!(bounded_read(10, ReadOutcome::LimitExceeded), Err(PreviewFileError::Grew));
    assert_eq!(bounded_read(10, ReadOutcome::Failed), Err(PreviewFileError::Unreadable));
}

#[test]
fn file_times_are_counted_in_nanoseconds() {
    assert_eq!(metadata_mtime_ns(5, 7), Some(5_000_000_007));
    assert_eq!(metadata_mtime_ns(-1, 7), Some(-999_999_993));
    assert_eq!(metadata_mtime_ns(9_223_372_037, 0), None);
    assert_eq!(metadata_mtime_ns(9_223_372_036, 854_775_808), None);
}

#[test]
fn a_manifest_belongs_to_one_file() {
    let valid = |manifest: &TrickplaySidecarManifest, expected: &TrickplayExpectation| {
        validate_trickplay_manifest(manifest, 1000, Some(5_000_000_007), expected)
    };
    assert_eq!(valid(&manifest(), &expected()), Some(4));
    assert_eq!(validate_trickplay_manifest(&manifest(), 1001, Some(5_000_000_007), &expected()), None);
    assert_eq!(validate_trickplay_manifest(&manifest(), 1000, None, &expected()), None);
    let wrong = [
        TrickplaySidecarManifest { schema_version: 2, ..manifest() },
        TrickplaySidecarManifest { source_mtime_ns: 0, ..manifest() },
        TrickplaySidecarManifest { interval_seconds: 5, ..manifest() },
        TrickplaySidecarManifest { frame_count: 701, ..manifest() },
        TrickplaySidecarManifest { asset_revision: "0123456789ABCDEF".into(), ..manifest() },
    ];
    for manifest in &wrong {
        assert_eq!(valid(manifest, &expected()), None);
    }
    let unmet = [
        TrickplayExpectation { interval_seconds: None, ..expected() },
        TrickplayExpectation { frame_count: None, ..expected() },
        TrickplayExpectation { sheet_count: None, ..expected() },
        TrickplayExpectation { valid_layout: false, ..expected() },
    ];
    for expected in &unmet {
        assert_eq!(valid(&manifest(), expected), None);
    }
}

#[test]
fn a_manifest_is_shown_when_all_sheets_are_there() {
    assert!(sheets_complete(&[Some(1), Some(10)], 2, 10));
    assert!(!sheets_complete(&[Some(1), Some(11)], 2, 10));
    assert!(!sheets_complete(&[Some(1), Some(0)], 2, 10));
    assert!(!sheets_complete(&[Some(1), None], 2, 10));
    assert!(!sheets_complete(&[Some(1)], 2, 10));
    assert_eq!(trickplay_sheet_name("0123456789abcdef", 7), "sheet-0123456789abcdef-0007.jpg");
}

#[test]
fn the_sheets_that_are_handed_out_lead_back() {
    let urls = sheet_urls(42, "0123456789abcdef", 3);
    assert_eq!(urls[2], "/web/preview/42/0123456789abcdef/2.jpg");
    for (wanted, url) in urls.iter().enumerate() {
        match trickplay_request(url) {
            Some(TrickplayRequest::Sheet { item_id, revision, index }) => {
                assert_eq!(item_id, 42);
                assert_eq!(revision, "0123456789abcdef");
                assert_eq!(index as usize, wanted);
            }
            _ => panic!("not a sheet: {url}"),
        }
    }
}

#[test]
fn a_sheet_is_served_if_it_is_one_of_the_manifest() {
    let serve = |revision: &str, index: u32, held: Option<&str>, bytes: &[u8]| {
        sheet_response(&manifest(), 4, revision, index, held, bytes)
    };
    let response = serve("0123456789abcdef", 3, None, &jpeg()).ok().unwrap();
    assert_eq!(response.status, 200);
    assert_eq!(response.body, jpeg());
    let header = |name: &str| {
        response.headers.iter().find(|(key, _)| key == name).map(|(_, value)| value.clone())
    };
    assert_eq!(header("Content-Type").as_deref(), Some("image/jpeg"));
    assert_eq!(header("Cache-Control").as_deref(), Some("private, max-age=31536000, immutable"));
    assert_eq!(header("ETag").as_deref(), Some("\"trickplay-v1-0123456789abcdef-3\""));
    assert_eq!(header("X-Content-Type-Options").as_deref(), Some("nosniff"));
    let held = serve(
        "0123456789abcdef",
        3,
        Some("\"trickplay-v1-0123456789abcdef-3\""),
        &jpeg(),
    )
    .ok()
    .unwrap();
    assert_eq!(held.status, 304);
    assert!(held.body.is_empty());
    for refused in [
        serve("fedcba9876543210", 3, None, &jpeg()),
        serve("0123456789abcdef", 4, None, &jpeg()),
        serve("0123456789abcdef", 3, None, &jpeg()[..4]),
    ] {
        assert_eq!(refused.err(), Some(Problem::PreviewUnavailable));
    }
    assert!(is_sheet_of(&manifest(), 4, "0123456789abcdef", 0));
    assert!(!is_sheet_of(&manifest(), 4, "..", 0));
    let other = TrickplaySidecarManifest { columns: 9, ..manifest() };
    assert!(sheet_response(&other, 4, "0123456789abcdef", 3, None, &jpeg()).is_err());
}
