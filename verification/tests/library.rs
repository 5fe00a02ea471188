use rusty_dlna_web::catalog::{physical_folder_chain, CatalogContainer, MediaItem};
use rusty_dlna_web::codec::ProbeInfo;
use rusty_dlna_web::folder::{
    batch_end, charge_keys, child_kind, count_children, folder_start, folder_title,
    projection_charge, ChildFact, ChildKind, EntryKey, FolderChild, FolderStart,
};
use rusty_dlna_web::http::generation_etag;
use rusty_dlna_web::library::{
    continue_head, continue_places, continue_request, folder_page, library_has_media, library_page,
    library_request, snapshot_step, LibraryRequest, LibraryView, SnapshotOutcome, SnapshotStep,
};
use rusty_dlna_web::listing::{memory_web_page, MediaFilter, Sort};
use rusty_dlna_web::problem::Problem;
use rusty_dlna_web::query::QueryParams;
use rusty_dlna_web::budget::{
    check_items, times, ProjectionStopped, QueryLimits, WorkBudget,
};
use rusty_dlna_web::scan::{page_entries, settle_page, FolderCount, FolderScan};

fn item(id: i64, title: &str, mime: &str) -> MediaItem {
    MediaItem {
        object_id: format!("64${id}"),
        detail_id: id,
        title: title.into(),
        path_name: Some(format!("{title}.mkv")),
        title_key: title.to_lowercase(),
        mime: mime.into(),
        ext: "mkv".into(),
        date: String::new(),
        duration: None,
        resolution: None,
        artist: None,
        album_artist: None,
        album: None,
        disc: None,
        track: None,
        about: None,
        plot: None,
        genre: None,
        creator: None,
        composer: None,
        bitrate: None,
        channels: None,
        samplerate: None,
        size: 1,
        device: 1,
        inode: id as u64,
        album_art: 0,
        captions: Vec::new(),
        probe: ProbeInfo {
            container: String::new(),
            video: String::new(),
            hdr: String::new(),
            audio: String::new(),
            width: 0,
            height: 0,
            codec_string: String::new(),
            video_profile: String::new(),
            video_level: 0,
            pixel_format: String::new(),
            bit_depth: 0,
            frame_rate: String::new(),
            video_timestamp_mode: String::new(),
            audio_layout: String::new(),
        },
    }
}

fn asked(query: &str) -> Result<LibraryRequest, Problem> {
    library_request(&QueryParams::parse(query), 7)
}

#[test]
fn a_plain_library_request_shows_the_root_folder() {
    let request = asked("").ok().unwrap();
    assert_eq!(request.view, LibraryView::Folders);
    assert_eq!(request.filter, MediaFilter::All);
    assert_eq!(request.folder, None);
    assert_eq!(request.offset, 0);
    assert_eq!(request.limit, 60);
    assert_eq!(request.generation, None);
    assert_eq!(request.sort, Sort::Title);
    assert_eq!(request.query, "");
}

#[test]
fn a_full_library_request_is_read() {
    let request = asked(
        "view=library&kind=audio&q=%20Blue+Note%20&offset=40&limit=200&generation=7&sort=episode",
    )
    .ok()
    .unwrap();
    assert_eq!(request.view, LibraryView::Library);
    assert_eq!(request.filter, MediaFilter::Audio);
    assert_eq!(request.offset, 40);
    assert_eq!(request.limit, 200);
    assert_eq!(request.generation, Some(7));
    assert_eq!(request.sort, Sort::Episode);
    assert_eq!(request.query, "Blue Note");
    assert_eq!(asked("folder=").ok().unwrap().folder, None);
    assert_eq!(asked("folder=64$1").ok().unwrap().folder.as_deref(), Some("64$1"));
}

#[test]
fn every_library_refusal_has_an_input() {
    let cases = [
        ("nope=1", Problem::LibraryParameter),
        ("q", Problem::LibraryParameter),
        ("view=grid", Problem::InvalidView),
        ("kind=image", Problem::InvalidKind),
        ("kind=video", Problem::FolderKind),
        ("view=library&folder=64", Problem::FolderOutsideFolderView),
        ("offset=-1", Problem::InvalidOffset),
        ("limit=0", Problem::InvalidLimit),
        ("limit=201", Problem::InvalidLimit),
        ("limit=x", Problem::InvalidLimit),
        ("generation=4294967296", Problem::InvalidGeneration),
        ("generation=6", Problem::CatalogChanged),
        ("sort=size", Problem::InvalidSort),
    ];
    for (query, expected) in cases {
        assert_eq!(asked(query).err(), Some(expected), "{query}");
    }
    let longest = format!("q={}", "x".repeat(256));
    assert!(asked(&longest).is_ok());
    let wide = format!("q={}", "%C3%A9".repeat(129));
    assert_eq!(asked(&wide).err(), Some(Problem::InvalidQuery));
    assert_eq!(
        asked("view=grid&limit=0&sort=size").err(),
        Some(Problem::InvalidView),
        "the first thing wrong is told"
    );
}

#[test]
fn a_snapshot_is_read_three_times_at_most() {
    let page = |generation: u32| SnapshotOutcome::Page(generation);
    assert_eq!(snapshot_step(0, SnapshotOutcome::Unsettled, None, 7), SnapshotStep::Retry);
    assert_eq!(snapshot_step(1, page(6), None, 7), SnapshotStep::Retry);
    assert_eq!(
        snapshot_step(2, SnapshotOutcome::Unsettled, None, 7),
        SnapshotStep::Refuse(Problem::CatalogChanged)
    );
    assert_eq!(snapshot_step(2, page(7), Some(7), 7), SnapshotStep::Use);
    assert_eq!(snapshot_step(0, SnapshotOutcome::Absent, None, 7), SnapshotStep::Use);
    assert_eq!(
        snapshot_step(0, page(7), Some(6), 7),
        SnapshotStep::Refuse(Problem::CatalogChanged)
    );
}

#[test]
fn titles_to_continue_are_asked_for_by_their_identifiers() {
    let request = continue_request(&QueryParams::parse("view=continue&ids=9,42"), 7).ok().unwrap();
    assert_eq!(request.ids, [9, 42]);
    let cases = [
        ("view=continue&limit=1", Problem::ContinueParameter),
        ("view=continue&ids=1,1", Problem::InvalidIds),
        ("view=continue&generation=x", Problem::InvalidGeneration),
        ("view=continue&generation=8", Problem::ContinueChanged),
    ];
    for (query, expected) in cases {
        let params = QueryParams::parse(query);
        assert_eq!(continue_request(&params, 7).err(), Some(expected), "{query}");
    }
    let mimes = [Some("video/mp4".to_owned()), None, Some("image/png".into()), Some("audio/flac".into())];
    assert_eq!(continue_places(&mimes), [0, 3]);
    let head = continue_head(&request, 7, true, 1);
    assert_eq!(head.view, "continue");
    assert_eq!(head.library_state, "ready");
    assert_eq!(head.limit, 2);
    assert_eq!(head.total, 1);
    assert!(!head.has_more);
    assert_eq!(head.sort, "recent_progress");
    assert!(library_has_media(0, 1));
    assert!(!library_has_media(0, 0));
}

#[test]
fn the_library_lists_each_file_once_in_order() {
    let mut alias = item(5, "Aardvark", "video/mp4");
    alias.inode = 2;
    let items = [
        item(3, "beta", "video/mp4"),
        item(2, "Alpha", "video/mp4"),
        alias,
        item(4, "Gamma", "audio/flac"),
        item(6, "Poster", "image/png"),
    ];
    let (page, total) = memory_web_page(&items, MediaFilter::All, "", Sort::Title, 0, 10);
    assert_eq!(page, [1, 0, 3], "the smallest identifier stands for a file");
    assert_eq!(total, 3);
    let (page, total) = memory_web_page(&items, MediaFilter::Video, "", Sort::Title, 1, 10);
    assert_eq!(page, [0]);
    assert_eq!(total, 2);
    let (page, total) = memory_web_page(&items, MediaFilter::Audio, "gam", Sort::Title, 0, 10);
    assert_eq!(page, [3]);
    assert_eq!(total, 1);
    let (page, total) = memory_web_page(&items, MediaFilter::All, "", Sort::Title, 9, 10);
    assert!(page.is_empty());
    assert_eq!(total, 3);
}

#[test]
fn the_library_is_ordered_by_date_and_by_episode() {
    let mut old = item(1, "old", "video/mp4");
    old.date = "2001-01-01".into();
    let mut new = item(2, "new", "video/mp4");
    new.date = "2020-01-01".into();
    let items = [old, new];
    let (page, _) = memory_web_page(&items, MediaFilter::All, "", Sort::DateDescending, 0, 10);
    assert_eq!(page, [1, 0]);
    let mut second = item(1, "a", "audio/flac");
    second.disc = Some(2);
    let mut first = item(2, "b", "audio/flac");
    first.disc = Some(1);
    first.track = Some(9);
    let mut before = item(3, "c", "audio/flac");
    before.disc = Some(1);
    before.track = Some(2);
    let items = [second, first, before];
    let (page, _) = memory_web_page(&items, MediaFilter::All, "", Sort::Episode, 0, 10);
    assert_eq!(page, [2, 1, 0]);
}

#[test]
fn searching_the_library_ignores_case() {
    let items = [item(1, "Élan", "video/mp4"), item(2, "other", "video/mp4")];
    let request = asked("view=library&q=%C3%89LAN&limit=1").ok().unwrap();
    let (places, head) = library_page(&request, 7, &items);
    assert_eq!(places, [0]);
    assert_eq!(head.total, 1);
    assert_eq!(head.query, "ÉLAN");
    assert_eq!(head.view, "library");
    assert_eq!(head.sort, "title");
    assert!(!head.has_more);
    let all = asked("view=library&limit=1").ok().unwrap();
    let (places, head) = library_page(&all, 7, &items);
    assert_eq!(places.len(), 1);
    assert!(head.has_more);
    let none = asked("view=library&q=zzz").ok().unwrap();
    assert_eq!(library_page(&none, 7, &items).1.library_state, "empty");
}

#[test]
fn pages_of_a_folder_cover_it() {
    let ids: Vec<String> = (0..5).map(|n| n.to_string()).collect();
    let mut seen = Vec::new();
    for offset in [0, 2, 4] {
        let request = asked(&format!("offset={offset}&limit=2")).ok().unwrap();
        let (page, head) = folder_page(&request, 7, &ids);
        assert_eq!(head.has_more, offset < 4);
        assert_eq!(head.total, 5);
        seen.extend(page);
    }
    assert_eq!(seen, ids);
    let past = asked("offset=9").ok().unwrap();
    assert!(folder_page(&past, 7, &ids).0.is_empty());
}

fn folder(id: &str, parent: &str, title: &str) -> CatalogContainer {
    CatalogContainer { object_id: id.into(), parent_id: parent.into(), title: title.into() }
}

#[test]
fn breadcrumbs_lead_from_the_root_down() {
    let folders = [
        folder("64$1$2", "64$1", "Season"),
        folder("64", "0", "Browse"),
        folder("64$1", "64", "Series"),
        folder("9", "9", "Loop"),
        folder("7", "8", "Orphan"),
    ];
    assert_eq!(physical_folder_chain(&folders, "64", "64$1$2"), Some(vec![1, 2, 0]));
    assert_eq!(physical_folder_chain(&folders, "64", "64"), Some(vec![1]));
    assert_eq!(physical_folder_chain(&folders, "64", "9"), None);
    assert_eq!(physical_folder_chain(&folders, "64", "7"), None);
    assert_eq!(physical_folder_chain(&folders, "64", "missing"), None);
    assert_eq!(folder_title(&folders[1], "64"), "Media");
    assert_eq!(folder_title(&folders[2], "64"), "Series");
}

#[test]
fn a_folder_request_is_checked_before_a_copy_is_acknowledged() {
    let tag = generation_etag(7);
    assert_eq!(
        folder_start(Some(6), 7, true, Some(&tag)),
        FolderStart::Refused(Problem::CatalogChanged)
    );
    assert_eq!(
        folder_start(None, 7, false, Some(&tag)),
        FolderStart::Refused(Problem::FolderMissing)
    );
    assert_eq!(folder_start(Some(7), 7, true, Some(&tag)), FolderStart::NotModified);
    assert_eq!(folder_start(None, 7, true, Some("other")), FolderStart::List);
}

fn children(range: std::ops::Range<usize>) -> Vec<FolderChild> {
    range
        .map(|n| match n % 3 {
            0 => FolderChild::Media(item(n as i64 + 1, &format!("t{n:04}"), "video/mp4")),
            1 => FolderChild::Folder { id: format!("f{n}"), title: format!("F{:04}", 9999 - n) },
            _ => FolderChild::Missing,
        })
        .collect()
}

const ENOUGH: QueryLimits = QueryLimits { items: usize::MAX, bytes: usize::MAX };

#[test]
fn a_folder_is_read_in_batches_and_listed_in_order() {
    let mut scan = FolderScan::new(7, 600, "", ENOUGH).ok().unwrap();
    let mut ranges = Vec::new();
    while let Some((start, end)) = scan.next_batch() {
        ranges.push((start, end));
        assert_eq!(scan.accept(7, Some(children(start..end)), true), Ok(()));
    }
    assert_eq!(ranges, [(0, 256), (256, 512), (512, 600)]);
    let ids = scan.finish().ok().unwrap();
    assert_eq!(ids.len(), 400);
    assert_eq!(ids[0], "f598", "folders come first, by title");
    assert_eq!(ids[200], "64$1");
    assert_eq!(ids[399], "64$598");
}

#[test]
fn a_folder_that_changes_while_it_is_read_is_refused() {
    let mut scan = FolderScan::new(7, 300, "", ENOUGH).ok().unwrap();
    assert_eq!(scan.accept(8, Some(children(0..256)), true), Err(ProjectionStopped::Changed));
    assert_eq!(scan.accept(7, None, true), Err(ProjectionStopped::Changed));
    assert_eq!(scan.accept(7, Some(children(0..255)), true), Err(ProjectionStopped::Changed));
    assert_eq!(scan.next_batch(), Some((0, 256)), "nothing was taken in");
    let mut counter = FolderCount::new(7, 2, ENOUGH).ok().unwrap();
    assert_eq!(counter.accept(6, Some(vec![]), true), Err(ProjectionStopped::Changed));
    assert_eq!(counter.accept(7, Some(vec![child_folder()]), true), Err(ProjectionStopped::Changed));
    assert_eq!(
        counter.accept(7, Some(vec![child_title("video/mp4"), child_title("image/png")]), true),
        Ok(())
    );
    assert_eq!(counter.finish(), 1);
}

fn child_folder() -> ChildFact {
    ChildFact { is_folder: true, mime: None }
}

fn child_title(mime: &str) -> ChildFact {
    ChildFact { is_folder: false, mime: Some(mime.into()) }
}

#[test]
fn a_child_counts_by_what_it_is() {
    assert_eq!(child_kind(true, None), ChildKind::Folder);
    assert_eq!(child_kind(true, Some("image/jpeg")), ChildKind::Folder);
    assert_eq!(child_kind(false, Some("video/mp4")), ChildKind::Playable);
    assert_eq!(child_kind(false, Some("audio/flac")), ChildKind::Playable);
    assert_eq!(child_kind(false, Some("image/jpeg")), ChildKind::Other);
    assert_eq!(child_kind(false, None), ChildKind::Other);
}

#[test]
fn keys_are_held_at_their_room_and_their_identifiers() {
    let keys = vec![
        EntryKey { rank: 0, title: "folder".into(), id: "64".into(), room: 8 },
        EntryKey { rank: 1, title: "film".into(), id: "64$1".into(), room: 4 },
    ];
    let mut budget = WorkBudget { spent: 10, limit: 28 };
    assert_eq!(charge_keys(&keys, &mut budget), Ok(()));
    assert_eq!(budget, WorkBudget { spent: 28, limit: 28 });
    let mut tight = WorkBudget { spent: 10, limit: 27 };
    assert_eq!(charge_keys(&keys, &mut tight), Err(ProjectionStopped::Budget));
    assert_eq!(tight, WorkBudget { spent: 10, limit: 27 }, "nothing is held");
    assert_eq!(charge_keys(&[], &mut tight), Ok(()));
    assert_eq!(tight.spent, 10);
}

#[test]
fn a_search_in_a_folder_finds_folders_and_titles() {
    let mut scan = FolderScan::new(7, 4, "blue", ENOUGH).ok().unwrap();
    let batch = vec![
        FolderChild::Folder { id: "a".into(), title: "BLUE songs".into() },
        FolderChild::Folder { id: "b".into(), title: "Red".into() },
        FolderChild::Media(item(1, "Deep Blue", "video/mp4")),
        FolderChild::Media(item(2, "blue cover", "image/png")),
    ];
    assert_eq!(scan.accept(7, Some(batch), true), Ok(()));
    assert_eq!(scan.finish().ok().unwrap(), ["a", "64$1"]);
}

#[test]
fn children_of_a_folder_are_counted_if_they_are_shown() {
    let mut counter = FolderCount::new(7, 1002, ENOUGH).ok().unwrap();
    while let Some((start, end)) = counter.next_batch() {
        let facts = (start..end)
            .map(|n| match n {
                0 => child_folder(),
                1 => ChildFact { is_folder: false, mime: None },
                2 => child_title("audio/flac"),
                1001 => child_title("image/jpeg"),
                _ => child_title("video/mp4"),
            })
            .collect();
        assert_eq!(counter.accept(7, Some(facts), true), Ok(()));
    }
    assert_eq!(counter.finish(), 1000);
    assert_eq!(count_children(&[]), 0);
    assert_eq!(batch_end(512, 600), 600);
    assert_eq!(batch_end(0, 600), 256);
}

#[test]
fn a_page_is_answered_only_from_one_catalog() {
    assert_eq!(page_entries(&children(0..2), true), Ok(()));
    assert_eq!(page_entries(&children(0..3), true), Err(ProjectionStopped::Changed));
    assert_eq!(settle_page(7, 7, true, true), Ok(()));
    assert_eq!(settle_page(7, 8, true, true), Err(ProjectionStopped::Changed));
    assert_eq!(settle_page(7, 7, false, true), Err(ProjectionStopped::Changed));
    assert_eq!(settle_page(7, 8, false, false), Err(ProjectionStopped::Budget));
    assert_eq!(page_entries(&children(0..3), false), Err(ProjectionStopped::Budget));
}

#[test]
fn a_request_holds_no_more_than_it_may() {
    let mut budget = WorkBudget { spent: 10, limit: 20 };
    assert_eq!(budget.charge(10), Ok(()));
    assert_eq!(budget, WorkBudget { spent: 20, limit: 20 });
    assert_eq!(budget.charge(1), Err(ProjectionStopped::Budget));
    assert_eq!(budget, WorkBudget { spent: 20, limit: 20 });
    let mut full = WorkBudget { spent: usize::MAX, limit: usize::MAX };
    assert_eq!(full.charge(1), Ok(()), "a sum that passes every number is the largest");
    assert_eq!(times(usize::MAX, 2), usize::MAX);
    assert_eq!(times(7, 6), 42);
    let few = QueryLimits { items: 3, bytes: usize::MAX };
    assert_eq!(check_items(few, 3), Ok(()));
    assert_eq!(check_items(few, 4), Err(ProjectionStopped::Budget));
    assert!(FolderScan::new(7, 4, "", few).is_err());
    assert!(FolderCount::new(7, 4, few).is_err());
    assert!(FolderCount::new(7, 3, few).is_ok());
}

#[test]
fn the_keys_of_a_folder_are_charged_as_they_are_read() {
    let fixed = 2 * std::mem::size_of::<(u8, String, String)>();
    let limits = |bytes: usize| QueryLimits { items: 2, bytes };
    assert!(FolderScan::new(7, 2, "", limits(fixed - 1)).is_err());
    let batch = || {
        vec![
            FolderChild::Folder { id: "a".into(), title: "x".repeat(1000) },
            FolderChild::Missing,
        ]
    };
    let mut scan = FolderScan::new(7, 2, "", limits(fixed + 1000)).ok().unwrap();
    assert_eq!(scan.accept(7, Some(batch()), true), Err(ProjectionStopped::Budget));
    assert_eq!(scan.next_batch(), Some((0, 2)), "nothing was taken in");
    assert_eq!(scan.accept(8, Some(batch()), false), Err(ProjectionStopped::Budget));
    let mut scan = FolderScan::new(7, 2, "", limits(fixed)).ok().unwrap();
    let gone = vec![FolderChild::Missing, FolderChild::Missing];
    assert_eq!(scan.accept(7, Some(gone), true), Ok(()), "what is not listed is free");
    assert_eq!(scan.finish().ok().unwrap(), [] as [String; 0]);
    let mut scan = FolderScan::new(7, 2, "", limits(usize::MAX - 1)).ok().unwrap();
    assert_eq!(scan.accept(7, Some(batch()), true), Ok(()));
    assert_eq!(scan.finish().ok().unwrap(), ["a"]);
}

#[test]
fn pages_of_a_folder_in_turn_list_it_once() {
    let ids: Vec<String> = (0..7).map(|n| format!("f{n}")).collect();
    let mut listed = Vec::new();
    for offset in [0, 3, 6] {
        let query = format!("view=folders&offset={offset}&limit=3");
        let request = library_request(&QueryParams::parse(&query), 7).ok().unwrap();
        let (page, head) = folder_page(&request, 7, &ids);
        assert_eq!(head.total, 7);
        assert_eq!(head.has_more, offset < 6);
        listed.extend(page);
    }
    assert_eq!(listed, ids);
}

#[test]
fn a_list_is_charged_for_all_that_it_holds() {
    assert_eq!(projection_charge(100, 6, 4, 24, &[10, 20]), 188);
    assert_eq!(projection_charge(usize::MAX, 1, 0, 0, &[]), usize::MAX);
}
