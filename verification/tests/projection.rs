use rusty_dlna_web::budget::ProjectionStopped;
use rusty_dlna_web::projection::{
    FolderProjectionCache, NewCount, NewList, MAX_CHILD_COUNTS, MAX_CHILD_COUNT_BYTES,
    MAX_PROJECTIONS, MAX_PROJECTION_BYTES,
};
use rusty_dlna_web::scan::keep_page;
use std::sync::Arc;

#[test]
fn projection_cache_bounds_distinct_queries_and_rejects_wrapped_generation() {
    let mut cache = FolderProjectionCache::default();
    let epoch = cache.epoch();
    for index in 0..100 {
        let id = format!("id-{index}");
        let bytes = "folder".len()
            + index.to_string().len()
            + std::mem::size_of::<String>()
            + id.capacity();
        cache.insert(0, "folder", &index.to_string(), Arc::new(vec![id]), bytes);
    }
    assert_eq!(cache.len(), MAX_PROJECTIONS);
    assert!(cache.bytes() <= MAX_PROJECTION_BYTES);
    assert!(cache.get(0, "folder", "0").is_none());
    assert_eq!(cache.get(0, "folder", "99").unwrap().0[0], "id-99");
    drop(std::mem::take(&mut cache));
    assert!(!Arc::ptr_eq(&cache.epoch(), &epoch));
    assert!(cache.get(0, "folder", "99").is_none());
    assert_eq!(cache.bytes(), 0);
    cache.insert(
        0,
        "folder",
        "oversized",
        Arc::new(vec!["x".repeat(MAX_PROJECTION_BYTES)]),
        MAX_PROJECTION_BYTES + 1,
    );
    assert_eq!(cache.len(), 0);
}

#[test]
fn projection_eviction_defers_id_destruction_and_bounds_child_counts() {
    let mut cache = FolderProjectionCache::default();
    let first: Arc<Vec<String>> = Arc::new(vec!["first".into()]);
    let observed = Arc::downgrade(&first);
    cache.insert(0, "folder", "first", first, MAX_PROJECTION_BYTES);
    let retired = cache.insert(
        0,
        "folder",
        "second",
        Arc::new(vec!["second".into()]),
        MAX_PROJECTION_BYTES,
    );
    assert!(observed.upgrade().is_some());
    assert_eq!(retired.len(), 1);
    drop(retired);
    assert!(observed.upgrade().is_none());
    for index in 0..MAX_CHILD_COUNTS + 5 {
        cache.insert_child_count(0, index.to_string(), index);
    }
    assert_eq!(cache.child_counts_len(), MAX_CHILD_COUNTS);
    assert!(cache.child_count_bytes() <= MAX_CHILD_COUNT_BYTES);
    assert_eq!(cache.child_count(0, "0"), None);
    assert_eq!(cache.child_count(0, "1028"), Some(1028));
    assert_eq!(cache.child_count(1, "1028"), None);
    drop(std::mem::take(&mut cache));
    assert_eq!(cache.child_count(0, "1028"), None);
}

#[test]
fn a_list_that_was_used_last_outlives_the_others() {
    let mut cache = FolderProjectionCache::default();
    for index in 0..MAX_PROJECTIONS {
        cache.insert(7, "folder", &index.to_string(), Arc::new(vec![index.to_string()]), 10);
    }
    assert_eq!(cache.get(7, "folder", "0").unwrap().0[0], "0");
    let retired = cache.insert(7, "folder", "new", Arc::new(vec!["new".into()]), 10);
    assert_eq!(retired.len(), 1);
    assert!(cache.get(7, "folder", "0").is_some());
    assert!(cache.get(7, "folder", "1").is_none());
}

fn list(query: &str, bytes: usize) -> NewList {
    NewList {
        folder: "folder".into(),
        query: query.into(),
        ids: Arc::new(vec![query.into()]),
        bytes,
    }
}

#[test]
fn a_page_of_a_changed_catalog_leaves_the_cache_as_it_was() {
    let mut cache = FolderProjectionCache::default();
    let kept = keep_page(
        &mut cache,
        7,
        7,
        true,
        true,
        list("first", MAX_PROJECTION_BYTES),
        vec![NewCount::new("a".into(), 3), NewCount::new("b".into(), 4)],
    );
    assert!(matches!(kept, Ok((lists, counts)) if lists.is_empty() && counts.is_empty()));
    let bytes = cache.child_count_bytes();
    let stopped = [
        (8, true, true, ProjectionStopped::Changed),
        (7, false, true, ProjectionStopped::Changed),
        (7, true, false, ProjectionStopped::Budget),
        (8, false, false, ProjectionStopped::Budget),
    ];
    for (current, same_epoch, in_time, expected) in stopped {
        let more = vec![NewCount::new("a".into(), 9), NewCount::new("c".into(), 5)];
        let result =
            keep_page(&mut cache, 7, current, same_epoch, in_time, list("second", 10), more);
        assert!(matches!(result, Err(stopped) if stopped == expected));
        assert_eq!((cache.len(), cache.bytes()), (1, MAX_PROJECTION_BYTES));
        assert_eq!((cache.child_counts_len(), cache.child_count_bytes()), (2, bytes));
        assert_eq!(cache.get(7, "folder", "first").unwrap().0[0], "first");
        assert_eq!(cache.child_count(7, "a"), Some(3));
    }
    let more = vec![NewCount::new("a".into(), 9), NewCount::new("c".into(), 5)];
    let kept = keep_page(&mut cache, 7, 7, true, true, list("second", 10), more);
    assert!(matches!(kept, Ok((lists, counts)) if lists.len() == 1 && counts.is_empty()));
    assert!(cache.get(7, "folder", "first").is_none());
    assert_eq!(cache.get(7, "folder", "second").unwrap().0[0], "second");
    let counts: Vec<Option<usize>> =
        ["a", "b", "c"].iter().map(|id| cache.child_count(7, id)).collect();
    assert_eq!(counts, [Some(3), Some(4), Some(5)], "a known count stays");
}
