use rusty_dlna_web::catalog::{CaptionFile, MediaItem};
use rusty_dlna_web::codec::ProbeInfo;
use rusty_dlna_web::markup::html_esc;
use rusty_dlna_web::player::{PhaseTimes, PlayerFacts, StartupTimes};
use rusty_dlna_web::status::{
    current_entry, degrade, event_worker_state, health_of, status_html, status_json,
    supervisor_state, wait_buckets, worker_report, CatalogFacts, ComponentState, DbIntegrityResult,
    Health, Reason, ScanWorker, StatusFacts, StatusPage, WorkerState,
};
use rusty_dlna_web::tally::{catalog_counts, projected_memory};

fn worker(role: &str, alive: bool) -> ScanWorker {
    ScanWorker { role: role.into(), alive }
}

fn facts() -> StatusFacts {
    StatusFacts {
        http_listener: ComponentState::Running,
        ssdp: ComponentState::Running,
        database: DbIntegrityResult::Passed,
        database_stale: false,
        pool_configured: true,
        readers_available: 4,
        read_waiters: 0,
        cache_free_bytes: 1 << 30,
        cache_min_free_mb: 512,
        workers: vec![worker("inotify", true), worker("periodic_reconcile", true)],
        stopping: false,
        rescan_secs: 60,
        rescan_max_secs: 0,
        now_unix: 10_000,
        last_success_unix: Some(9_900),
        scan_error: false,
        scan_path: None,
        event_workers_total: 2,
        event_workers_alive: 2,
        events_stopping: false,
        helpers_active: 0,
        helpers_queued: 0,
        helpers_max_active: 2,
        helpers_queue_capacity: 8,
        transcode_enabled: true,
        supervisor_ready: true,
        remux_supervisor: ComponentState::Running,
        required_tools_ready: true,
        web_player: PlayerFacts::default(),
    }
}

fn item(object_id: &str, id: i64, mime: &str, inode: u64) -> MediaItem {
    MediaItem {
        object_id: object_id.into(),
        detail_id: id,
        title: String::new(),
        path_name: None,
        title_key: String::new(),
        mime: mime.into(),
        ext: String::new(),
        date: String::new(),
        duration: None,
        resolution: None,
        artist: None,
        album_artist: None,
        album: None,
        disc: None,
        track: None,
        about: None,
        plot: None,
        genre: None,
        creator: None,
        composer: None,
        bitrate: None,
        channels: None,
        samplerate: None,
        size: 0,
        device: 1,
        inode,
        album_art: 0,
        captions: Vec::new(),
        probe: ProbeInfo {
            container: String::new(),
            video: String::new(),
            hdr: String::new(),
            audio: String::new(),
            width: 0,
            height: 0,
            codec_string: String::new(),
            video_profile: String::new(),
            video_level: 0,
            pixel_format: String::new(),
            bit_depth: 0,
            frame_rate: String::new(),
            video_timestamp_mode: String::new(),
            audio_layout: String::new(),
        },
    }
}

fn page(name: &str) -> StatusPage {
    StatusPage {
        name: name.into(),
        update_id: 5,
        scan_phase: None,
        watch_count: 6,
        transcodes_active: 7,
        transcodes_queued: 8,
        helpers_active: 9,
        helpers_queued: 10,
        cache_bytes: 11,
    }
}

#[test]
fn a_server_without_reasons_is_healthy() {
    let (health, reasons) = health_of(&facts());
    assert_eq!(health, Health::Healthy);
    assert!(reasons.is_empty());
    assert_eq!(health.as_str(), "healthy");
    assert_eq!(health.http_status(), 200);
}

#[test]
fn every_reason_has_a_cause() {
    let cases: Vec<(StatusFacts, Reason, Health)> = vec![
        (
            StatusFacts { http_listener: ComponentState::NotStarted, ..facts() },
            Reason::HttpNotStarted,
            Health::Degraded,
        ),
        (
            StatusFacts { http_listener: ComponentState::Failed, ..facts() },
            Reason::HttpDown,
            Health::Unhealthy,
        ),
        (
            StatusFacts { ssdp: ComponentState::NotStarted, ..facts() },
            Reason::SsdpNotStarted,
            Health::Degraded,
        ),
        (
            StatusFacts { ssdp: ComponentState::Stopped, ..facts() },
            Reason::SsdpDown,
            Health::Degraded,
        ),
        (
            StatusFacts { database: DbIntegrityResult::Error, ..facts() },
            Reason::DatabaseFailed,
            Health::Unhealthy,
        ),
        (
            StatusFacts { database_stale: true, ..facts() },
            Reason::DatabaseStale,
            Health::Degraded,
        ),
        (
            StatusFacts { readers_available: 0, read_waiters: 1, ..facts() },
            Reason::PoolSaturated,
            Health::Degraded,
        ),
        (
            StatusFacts { cache_free_bytes: 536_870_911, ..facts() },
            Reason::CacheLow,
            Health::Degraded,
        ),
        (
            StatusFacts { workers: vec![worker("inotify", true)], ..facts() },
            Reason::WorkersIncomplete,
            Health::Degraded,
        ),
        (
            StatusFacts { workers: vec![worker("inotify", false)], ..facts() },
            Reason::WorkersFailed,
            Health::Unhealthy,
        ),
        (
            StatusFacts { last_success_unix: Some(9_099), scan_error: true, ..facts() },
            Reason::ScanStale,
            Health::Degraded,
        ),
        (StatusFacts { scan_error: true, ..facts() }, Reason::ScanFailed, Health::Degraded),
        (
            StatusFacts { event_workers_alive: 1, ..facts() },
            Reason::EventsIncomplete,
            Health::Degraded,
        ),
        (
            StatusFacts { helpers_queued: 8, helpers_active: 2, ..facts() },
            Reason::HelpersSaturated,
            Health::Degraded,
        ),
        (
            StatusFacts { remux_supervisor: ComponentState::Stopping, ..facts() },
            Reason::SupervisorDown,
            Health::Degraded,
        ),
        (
            StatusFacts { required_tools_ready: false, ..facts() },
            Reason::ToolsMissing,
            Health::Degraded,
        ),
    ];
    for (facts, reason, severity) in cases {
        let (health, reasons) = health_of(&facts);
        assert_eq!(reasons, [reason]);
        assert_eq!(health, severity, "{reason:?}");
    }
    assert_eq!(Reason::HttpDown.text(), "HTTP accept loop is not running");
    let edge = StatusFacts { last_success_unix: Some(9_100), ..facts() };
    assert_eq!(health_of(&edge).0, Health::Healthy);
    let ahead = StatusFacts { last_success_unix: Some(20_000), ..facts() };
    assert_eq!(health_of(&ahead).0, Health::Healthy);
}

#[test]
fn reasons_come_in_a_fixed_order_and_the_worst_counts() {
    let bad = StatusFacts {
        http_listener: ComponentState::Stopping,
        database_stale: true,
        stopping: true,
        transcode_enabled: false,
        supervisor_ready: false,
        ..facts()
    };
    let (health, reasons) = health_of(&bad);
    assert_eq!(health, Health::Unhealthy);
    assert_eq!(
        reasons,
        [Reason::HttpDown, Reason::DatabaseStale, Reason::WorkersIncomplete]
    );
    let mut health = Health::Unhealthy;
    degrade(&mut health);
    assert_eq!(health, Health::Unhealthy);
    let mut health = Health::Healthy;
    degrade(&mut health);
    assert_eq!(health, Health::Degraded);
}

#[test]
fn worker_states_are_told_one_by_one_and_together() {
    let report = worker_report(&[worker("inotify", true), worker("other", false)], false, 60);
    assert_eq!(report.inotify, WorkerState::Running);
    assert_eq!(report.periodic_reconcile, WorkerState::Failed);
    assert_eq!(report.worker_state, WorkerState::Degraded);
    assert_eq!(report.workers_total, 2);
    assert_eq!(report.workers_alive, 1);
    let report = worker_report(&[worker("inotify", true)], false, 0);
    assert_eq!(report.periodic_reconcile, WorkerState::Disabled);
    assert_eq!(report.worker_state, WorkerState::Running);
    let report = worker_report(&[], false, 60);
    assert_eq!(report.worker_state, WorkerState::NotStarted);
    assert_eq!(report.inotify.as_str(), "not_started");
    let report = worker_report(&[], true, 60);
    assert_eq!(report.worker_state, WorkerState::Stopping);
    assert_eq!(supervisor_state(false, true, "running"), "disabled");
    assert_eq!(supervisor_state(true, false, "running"), "failed");
    assert_eq!(supervisor_state(true, true, "running"), "running");
    assert_eq!(event_worker_state(true, 2, 2), "stopping");
    assert_eq!(event_worker_state(false, 2, 2), "running");
    assert_eq!(event_worker_state(false, 1, 2), "degraded");
}

#[test]
fn waiting_times_are_counted_up() {
    let buckets = wait_buckets(&[1, 0, 2, 0, 0, u64::MAX]);
    let counts: Vec<u64> = buckets.iter().map(|bucket| bucket.count).collect();
    assert_eq!(counts, [1, 1, 3, 3, 3, u64::MAX]);
    assert_eq!(buckets[0].le_ms, "10");
    assert_eq!(buckets[5].le_ms, "+Inf");
}

#[test]
fn records_are_counted_once_and_aliases_apart() {
    let mut film = item("a", 1, "video/mp4", 10);
    film.album_art = 3;
    film.captions = vec![CaptionFile {
        index: 0,
        ext: "srt".into(),
        language: None,
        conversion: None,
    }];
    let items = vec![
        film,
        item("b", 1, "video/mp4", 10),
        item("c", 2, "video/mp4", 10),
        item("d", 3, "audio/flac", 11),
        item("e", 4, "image/png", 12),
        item("f", 5, "text/plain", 13),
    ];
    let counts = catalog_counts(&items, 9, 1500);
    assert_eq!(counts.video_records, 2);
    assert_eq!(counts.audio_records, 1);
    assert_eq!(counts.image_records, 1);
    assert_eq!(counts.video_with_art, 1);
    assert_eq!(counts.captions, 1);
    assert_eq!(counts.physical_inodes, 4);
    assert_eq!(counts.media_records, 5);
    assert_eq!(counts.path_aliases, 1);
    assert_eq!(counts.item_objects, 6);
    assert_eq!(counts.container_objects, 9);
    assert_eq!(counts.total_objects, 15);
    assert_eq!(counts.media_records, counts.physical_inodes + counts.path_aliases);
    let projected = projected_memory(&counts, 700);
    assert_eq!(projected.objects_10000, 1_000_000);
    assert_eq!(projected.objects_100000, 10_000_000);
    assert_eq!(projected.objects_1000000, 100_000_000);
    let empty = catalog_counts(&[], 0, 0);
    assert_eq!(projected_memory(&empty, 700).objects_10000, 7_000_000);
    assert_eq!(projected_memory(&empty, u64::MAX).objects_10000, u64::MAX);
}

#[test]
fn machine_status_distinguishes_path_aliases_from_virtual_objects() {
    let report = |items: &[MediaItem]| {
        let catalog = CatalogFacts {
            items,
            containers: 3,
            estimated_memory_bytes: 0,
            object_size: 1,
        };
        status_json(&facts(), Some(catalog), false).1.catalog.unwrap().counts
    };
    let canonical = || item("canonical", 1, "video/x-matroska", 10);
    let before = report(&[canonical()]);
    let after = report(&[
        canonical(),
        item("fixture-path-alias", 2, "video/x-matroska", 10),
        item("fixture-virtual-alias", 2, "video/x-matroska", 10),
    ]);
    let reordered = report(&[
        item("fixture-virtual-alias", 2, "video/x-matroska", 10),
        canonical(),
        item("fixture-path-alias", 2, "video/x-matroska", 10),
    ]);
    assert_eq!(reordered, after);
    assert_eq!(after.physical_inodes, before.physical_inodes);
    assert_eq!(after.path_aliases, before.path_aliases + 1);
    assert_eq!(after.media_records, before.media_records + 1);
    assert_eq!(after.item_objects, before.item_objects + 2);
    assert_eq!(after.container_objects, before.container_objects);
    assert_eq!(after.total_objects, before.total_objects + 2);
}

#[test]
fn a_report_says_what_the_settings_come_to() {
    let (_, report) = status_json(&facts(), None, true);
    assert_eq!(report.health, Health::Healthy);
    assert_eq!(report.reconcile_max_secs, 60);
    assert_eq!(report.minimum_free_bytes, 536_870_912);
    let longer = StatusFacts { rescan_max_secs: 900, ..facts() };
    assert_eq!(status_json(&longer, None, true).1.reconcile_max_secs, 900);
}

#[test]
fn status_html_uses_the_shared_complete_markup_escape() {
    let counts = catalog_counts(&[], 0, 0);
    let name = "Name & <tag> > \"quoted\" 'apostrophe' \u{1}";
    let body = status_html(Health::Healthy, &counts, &page(name));

    assert!(
        body.contains(
            "Name &amp; &lt;tag&gt; &gt; &quot;quoted&quot; &apos;apostrophe&apos; \u{fffd}"
        ),
        "{body}"
    );
    assert!(!body.contains("<tag>"), "{body}");
    assert!(!body.contains('\u{1}'), "{body}");
}

#[test]
fn the_status_page_is_written_out() {
    let items = [item("a", 1, "video/mp4", 10)];
    let counts = catalog_counts(&items, 2, 0);
    let mut shown = page("server");
    shown.scan_phase = Some("<scan>".into());
    let body = status_html(Health::Degraded, &counts, &shown);
    assert_eq!(
        body,
        "<html><head><title>server</title><meta http-equiv=\"refresh\" content=\"20\"></head><body>\
         <h1>server</h1><p>Health: degraded</p><table>\
         <tr><td>Audio</td><td>0</td></tr><tr><td>Video</td><td>1</td></tr>\
         <tr><td>Image</td><td>0</td></tr><tr><td>Physical files</td><td>1</td></tr>\
         <tr><td>Path aliases</td><td>0</td></tr><tr><td>Media records</td><td>1</td></tr>\
         <tr><td>Item objects</td><td>1</td></tr><tr><td>Containers</td><td>2</td></tr>\
         <tr><td>Total objects</td><td>3</td></tr><tr><td>Captions</td><td>0</td></tr>\
         <tr><td>UpdateID</td><td>5</td></tr>\
         <tr><td>Scan phase</td><td>&lt;scan&gt;</td></tr><tr><td>Inotify watches</td><td>6</td></tr>\
         <tr><td>Transcodes active</td><td>7</td></tr><tr><td>Transcodes queued</td><td>8</td></tr>\
         <tr><td>Media helpers active</td><td>9</td></tr><tr><td>Media helpers queued</td><td>10</td></tr>\
         <tr><td>Transcode cache bytes</td><td>11</td></tr></table>\
         <p><a href=\"/api/status\">Machine-readable status</a></p></body></html>"
    );
    assert!(status_html(Health::Healthy, &counts, &page("x")).contains("<td>idle</td>"));
}

#[test]
fn playback_in_browsers_is_reported_in_full() {
    let times = PhaseTimes { count: 2, sum_ms: 900, max_ms: 600 };
    let playing = StatusFacts {
        web_player: PlayerFacts {
            requests_total: 5,
            prepared_reuses_total: 3,
            producer_failures_total: 1,
            startup: StartupTimes { canplay: times, ..StartupTimes::default() },
            ..PlayerFacts::default()
        },
        ..facts()
    };
    let report = status_json(&playing, None, true).1.web_player;
    let totals: Vec<(&str, u64)> =
        report.totals.iter().map(|named| (named.name, named.total)).collect();
    assert_eq!(
        totals,
        [
            ("requests_total", 5),
            ("seek_restarts_total", 0),
            ("cache_reuses_total", 0),
            ("prepared_reuses_total", 3),
            ("cancellations_total", 0),
        ]
    );
    let failures: Vec<(&str, u64)> =
        report.failures.iter().map(|named| (named.name, named.total)).collect();
    assert_eq!(failures, [("busy_total", 0), ("producer_total", 1)]);
    let phases: Vec<&str> = report.startup.iter().map(|named| named.name).collect();
    assert_eq!(
        phases,
        [
            "startup_to_initial_bytes_ms",
            "startup_to_first_playable_ms",
            "startup_to_playlist_ready_ms",
            "startup_to_mse_playlist_received_ms",
            "startup_to_mse_init_fetched_ms",
            "startup_to_mse_init_appended_ms",
            "startup_to_mse_first_fragment_fetched_ms",
            "startup_to_mse_first_fragment_appended_ms",
            "startup_to_canplay_ms",
            "startup_to_playing_ms",
        ]
    );
    assert_eq!(report.startup[8].times, times);
    assert_eq!(report.startup[9].times, PhaseTimes::default());
}

#[test]
fn the_scanner_tells_of_no_directory() {
    let told = |path: &str| current_entry(Some(path));
    assert_eq!(told("/media/films/a b.mkv").as_deref(), Some("a b.mkv"));
    assert_eq!(told("a.mkv").as_deref(), Some("a.mkv"));
    assert_eq!(told("/media/films/").as_deref(), Some("films"));
    assert_eq!(told("/media/films/.").as_deref(), Some("films"));
    assert_eq!(told("/media//..a").as_deref(), Some("..a"));
    for path in ["", "/", ".", "./", "/media/..", "//"] {
        assert_eq!(told(path), None, "{path}");
        assert_eq!(std::path::Path::new(path).file_name(), None, "{path}");
    }
    assert_eq!(current_entry(None), None);
    let scanning = StatusFacts { scan_path: Some("/media/x/y.mkv".into()), ..facts() };
    let (_, report) = status_json(&scanning, None, false);
    assert_eq!(report.current_entry.as_deref(), Some("y.mkv"));
    assert_eq!(report.sections.len(), 12);
    assert_eq!(status_json(&scanning, None, true).1.sections.len(), 9);
}

#[test]
fn escaped_text_holds_no_markup() {
    assert_eq!(html_esc("a\tb\n'\u{1f}é"), "a\tb\n&apos;\u{fffd}é");
    assert_eq!(html_esc("\u{fffe}\u{ffff}\u{7f}"), "\u{fffe}\u{ffff}\u{7f}");
    assert_eq!(html_esc(""), "");
    let parts = format!("{}{}", html_esc("<a>"), html_esc("&"));
    assert_eq!(html_esc("<a>&"), parts);
}
