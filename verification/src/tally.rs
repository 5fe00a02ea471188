//! How much the catalog holds.
use crate::catalog::{audio, is_audio, is_video, video, MediaItem};
use crate::listing::{file_key, key_of};
use crate::text::{begins_with, chars_of, starts_with};
use std::collections::HashSet;
use vstd::prelude::*;

verus! {

/// How much the catalog holds.
#[derive(Clone, Copy, Debug, PartialEq, Eq, Structural)]
pub struct CatalogCounts {
    pub audio_records: u32,
    pub video_records: u32,
    pub image_records: u32,
    pub physical_inodes: usize,
    pub path_aliases: usize,
    pub media_records: usize,
    pub item_objects: usize,
    pub container_objects: usize,
    pub total_objects: usize,
    pub video_with_art: u32,
    pub captions: u32,
    pub estimated_memory_bytes: u64,
}

/// What is counted of a record.
#[derive(Clone, Copy, Debug, PartialEq, Eq, Structural)]
pub enum RecordClass {
    Audio,
    Video,
    Image,
    VideoWithArt,
}

/// Whether an item is of a class.
pub open spec fn is_of_class(item: MediaItem, class: RecordClass) -> bool {
    match class {
        RecordClass::Audio => is_audio(item.mime@),
        RecordClass::Video => !is_audio(item.mime@) && is_video(item.mime@),
        RecordClass::Image => !is_audio(item.mime@) && !is_video(item.mime@) && starts_with(
            item.mime@,
            "image/"@,
        ),
        RecordClass::VideoWithArt => !is_audio(item.mime@) && is_video(item.mime@)
            && item.album_art > 0,
    }
}

/// The records among the first `n` items.
pub open spec fn records(items: Seq<MediaItem>, n: int) -> Set<i64>
    decreases n,
{
    if n <= 0 {
        Set::empty()
    } else {
        records(items, n - 1).insert(items[n - 1].detail_id)
    }
}

/// Whether item `i` is the first of its record. Several items can stand for one
/// record: it is listed in several places.
pub open spec fn is_first(items: Seq<MediaItem>, i: int) -> bool {
    !records(items, i).contains(items[i].detail_id)
}

/// The files of the records among the first `n` items.
pub open spec fn files(items: Seq<MediaItem>, n: int) -> Set<u128>
    decreases n,
{
    if n <= 0 {
        Set::empty()
    } else if is_first(items, n - 1) {
        files(items, n - 1).insert(file_key(items[n - 1]))
    } else {
        files(items, n - 1)
    }
}

/// How many records among the first `n` items are of a class.
pub open spec fn count_of(items: Seq<MediaItem>, class: RecordClass, n: int) -> nat
    decreases n,
{
    if n <= 0 {
        0
    } else {
        count_of(items, class, n - 1) + if is_first(items, n - 1) && is_of_class(
            items[n - 1],
            class,
        ) {
            1nat
        } else {
            0nat
        }
    }
}

/// How many captions the records among the first `n` items have.
pub open spec fn captions_of(items: Seq<MediaItem>, n: int) -> nat
    decreases n,
{
    if n <= 0 {
        0
    } else {
        captions_of(items, n - 1) + if is_first(items, n - 1) {
            (items[n - 1].captions@.len() as usize as u32) as nat
        } else {
            0nat
        }
    }
}

/// A number, or the largest that can be shown.
pub open spec fn at_most_u32(n: nat) -> u32 {
    if n <= u32::MAX {
        n as u32
    } else {
        u32::MAX
    }
}

/// Whether counts are those of the items.
pub open spec fn is_tally(
    counts: CatalogCounts,
    items: Seq<MediaItem>,
    containers: usize,
    estimated_memory_bytes: u64,
) -> bool {
    let n = items.len() as int;
    &&& counts.audio_records == at_most_u32(count_of(items, RecordClass::Audio, n))
    &&& counts.video_records == at_most_u32(count_of(items, RecordClass::Video, n))
    &&& counts.image_records == at_most_u32(count_of(items, RecordClass::Image, n))
    &&& counts.video_with_art == at_most_u32(count_of(items, RecordClass::VideoWithArt, n))
    &&& counts.captions == at_most_u32(captions_of(items, n))
    &&& counts.physical_inodes == files(items, n).len()
    &&& counts.media_records == records(items, n).len()
    &&& counts.path_aliases == records(items, n).len() - files(items, n).len()
    &&& counts.item_objects == n
    &&& counts.container_objects == containers
    &&& counts.total_objects == if n + containers <= usize::MAX {
        n + containers
    } else {
        usize::MAX as int
    }
    &&& counts.estimated_memory_bytes == estimated_memory_bytes
}

proof fn lemma_sets(items: Seq<MediaItem>, n: int)
    requires
        0 <= n <= items.len(),
    ensures
        records(items, n).finite(),
        files(items, n).finite(),
        records(items, n).len() <= n,
        files(items, n).len() <= records(items, n).len(),
    decreases n,
{
    if n > 0 {
        lemma_sets(items, n - 1);
    }
}

/// Counts what the catalog holds: each record once, wherever it is listed.
pub fn catalog_counts(items: &[MediaItem], containers: usize, estimated_memory_bytes: u64) -> (counts:
    CatalogCounts)
    ensures
        is_tally(counts, items@, containers, estimated_memory_bytes),
{
    broadcast use vstd::std_specs::hash::group_hash_axioms;

    let mut audio_records: u32 = 0;
    let mut video_records: u32 = 0;
    let mut image_records: u32 = 0;
    let mut video_with_art: u32 = 0;
    let mut captions: u32 = 0;
    let mut seen_details: HashSet<i64> = HashSet::new();
    let mut physical: HashSet<u128> = HashSet::new();
    assert(seen_details@ =~= records(items@, 0));
    assert(physical@ =~= files(items@, 0));
    let mut i: usize = 0;
    while i < items.len()
        invariant
            i <= items.len(),
            vstd::std_specs::hash::obeys_key_model::<i64>(),
            vstd::std_specs::hash::obeys_key_model::<u128>(),
            vstd::std_specs::hash::builds_valid_hashers::<std::hash::RandomState>(),
            seen_details@ == records(items@, i as int),
            physical@ == files(items@, i as int),
            audio_records == at_most_u32(count_of(items@, RecordClass::Audio, i as int)),
            video_records == at_most_u32(count_of(items@, RecordClass::Video, i as int)),
            image_records == at_most_u32(count_of(items@, RecordClass::Image, i as int)),
            video_with_art == at_most_u32(count_of(items@, RecordClass::VideoWithArt, i as int)),
            captions == at_most_u32(captions_of(items@, i as int)),
        decreases items.len() - i,
    {
        let item = &items[i];
        let first = seen_details.insert(item.detail_id);
        assert(first == is_first(items@, i as int));
        assert(seen_details@ =~= records(items@, i + 1));
        if first {
            physical.insert(key_of(item));
            captions = captions.saturating_add(item.captions.len() as u32);
            if audio(item.mime.as_str()) {
                audio_records = audio_records.saturating_add(1);
            } else if video(item.mime.as_str()) {
                video_records = video_records.saturating_add(1);
                if item.album_art > 0 {
                    video_with_art = video_with_art.saturating_add(1);
                }
            } else if begins_with(&chars_of(item.mime.as_str()), "image/") {
                image_records = image_records.saturating_add(1);
            }
        }
        assert(physical@ =~= files(items@, i + 1));
        i += 1;
    }
    proof {
        lemma_sets(items@, items@.len() as int);
    }
    let media_records: usize = seen_details.len();
    let physical_inodes: usize = physical.len();
    CatalogCounts {
        audio_records,
        video_records,
        image_records,
        physical_inodes,
        path_aliases: media_records - physical_inodes,
        media_records,
        item_objects: items.len(),
        container_objects: containers,
        total_objects: items.len().saturating_add(containers),
        video_with_art,
        captions,
        estimated_memory_bytes,
    }
}

// ------------------------------------------------------------------- memory

/// What a catalog of other sizes would take.
#[derive(Clone, Copy, Debug, PartialEq, Eq, Structural)]
pub struct ProjectedMemory {
    pub objects_10000: u64,
    pub objects_100000: u64,
    pub objects_1000000: u64,
}

/// What an object takes: the mean, or the size of one where there are none.
pub open spec fn bytes_per_object(counts: CatalogCounts, object_size: u64) -> nat {
    if counts.total_objects == 0 {
        object_size as nat
    } else {
        (counts.estimated_memory_bytes as nat) / (counts.total_objects as nat)
    }
}

/// A number, or the largest that can be shown.
pub open spec fn at_most_u64(n: nat) -> u64 {
    if n <= u64::MAX {
        n as u64
    } else {
        u64::MAX
    }
}

/// The product of two numbers, or the largest that can be shown.
pub(crate) fn product(a: u64, b: u64) -> (result: u64)
    ensures
        result == at_most_u64((a * b) as nat),
{
    match a.checked_mul(b) {
        Some(result) => result,
        None => u64::MAX,
    }
}

/// What a catalog of other sizes would take.
pub fn projected_memory(counts: &CatalogCounts, object_size: u64) -> (projected: ProjectedMemory)
    ensures
        ({
            let each = bytes_per_object(*counts, object_size);
            &&& projected.objects_10000 == at_most_u64(each * 10_000)
            &&& projected.objects_100000 == at_most_u64(each * 100_000)
            &&& projected.objects_1000000 == at_most_u64(each * 1_000_000)
        }),
{
    let each: u64 = if counts.total_objects == 0 {
        object_size
    } else {
        counts.estimated_memory_bytes / (counts.total_objects as u64)
    };
    ProjectedMemory {
        objects_10000: product(each, 10_000),
        objects_100000: product(each, 100_000),
        objects_1000000: product(each, 1_000_000),
    }
}

// -------------------------------------------------------------------- laws

/// The records are the files and the further names that files have.
pub proof fn law_records_are_files_and_aliases(
    counts: CatalogCounts,
    items: Seq<MediaItem>,
    containers: usize,
    estimated_memory_bytes: u64,
)
    requires
        is_tally(counts, items, containers, estimated_memory_bytes),
    ensures
        counts.media_records == counts.physical_inodes + counts.path_aliases,
        counts.media_records <= counts.item_objects,
        items.len() + containers <= usize::MAX ==> counts.total_objects == counts.item_objects
            + counts.container_objects,
{
    lemma_sets(items, items.len() as int);
}

proof fn lemma_records_are(items: Seq<MediaItem>, n: int, id: i64)
    requires
        0 <= n <= items.len(),
    ensures
        records(items, n).contains(id) <==> exists|k: int|
            0 <= k < n && (#[trigger] items[k]).detail_id == id,
    decreases n,
{
    if n > 0 {
        lemma_records_are(items, n - 1, id);
        if records(items, n - 1).contains(id) {
            let k = choose|k: int| 0 <= k < n - 1 && (#[trigger] items[k]).detail_id == id;
            assert(0 <= k < n && items[k].detail_id == id);
        }
        if items[n - 1].detail_id == id {
            assert(records(items, n).contains(id));
        }
    }
}

/// Whether item `k` is the first of its record, and of that file.
spec fn brings(items: Seq<MediaItem>, k: int, file: u128) -> bool {
    is_first(items, k) && file_key(items[k]) == file
}

proof fn lemma_files_are(items: Seq<MediaItem>, n: int, file: u128)
    requires
        0 <= n <= items.len(),
    ensures
        files(items, n).contains(file) <==> exists|k: int|
            0 <= k < n && #[trigger] brings(items, k, file),
    decreases n,
{
    if n > 0 {
        lemma_files_are(items, n - 1, file);
        if files(items, n - 1).contains(file) {
            let k = choose|k: int| 0 <= k < n - 1 && #[trigger] brings(items, k, file);
            assert(0 <= k < n && brings(items, k, file));
        }
        if is_first(items, n - 1) && file_key(items[n - 1]) == file {
            assert(brings(items, n - 1, file));
        }
    }
}

proof fn lemma_first_of_record(items: Seq<MediaItem>, p: int) -> (first: int)
    requires
        0 <= p < items.len(),
    ensures
        0 <= first <= p,
        items[first].detail_id == items[p].detail_id,
        is_first(items, first),
    decreases p,
{
    if is_first(items, p) {
        p
    } else {
        lemma_records_are(items, p, items[p].detail_id);
        let q = choose|q: int|
            0 <= q < p && (#[trigger] items[q]).detail_id == items[p].detail_id;
        lemma_first_of_record(items, q)
    }
}

/// The place of item `p` once another item stands at `k`.
spec fn shifted(p: int, k: int) -> int {
    if p < k {
        p
    } else {
        p + 1
    }
}

/// An item that comes in leaves the others first of their records, those of its
/// own record aside.
proof fn lemma_first_with_another(items: Seq<MediaItem>, x: MediaItem, k: int, p: int)
    requires
        0 <= k <= items.len(),
        0 <= p < items.len(),
    ensures
        items.insert(k, x)[shifted(p, k)] == items[p],
        is_first(items.insert(k, x), shifted(p, k)) ==> is_first(items, p),
        is_first(items, p) && (x.detail_id != items[p].detail_id || p < k) ==> is_first(
            items.insert(k, x),
            shifted(p, k),
        ),
{
    let more = items.insert(k, x);
    let m = shifted(p, k);
    let id = items[p].detail_id;
    assert(more[m] == items[p]);
    lemma_records_are(items, p, id);
    lemma_records_are(more, m, id);
    if is_first(more, m) && !is_first(items, p) {
        let q = choose|q: int| 0 <= q < p && (#[trigger] items[q]).detail_id == id;
        assert(more[shifted(q, k)] == items[q]);
        assert(0 <= shifted(q, k) < m);
    }
    if is_first(items, p) && (x.detail_id != id || p < k) && !is_first(more, m) {
        let q = choose|q: int| 0 <= q < m && (#[trigger] more[q]).detail_id == id;
        if q == k {
            assert(more[q] == x);
        } else {
            let back = if q < k {
                q
            } else {
                q - 1
            };
            assert(more[q] == items[back]);
            assert(0 <= back < p);
        }
    }
}

/// A new record comes in at any place: its file is added, if it is new.
proof fn lemma_new_record(items: Seq<MediaItem>, x: MediaItem, k: int)
    requires
        0 <= k <= items.len(),
        !records(items, items.len() as int).contains(x.detail_id),
    ensures
        ({
            let n = items.len() as int;
            let more = items.insert(k, x);
            &&& records(more, n + 1) == records(items, n).insert(x.detail_id)
            &&& files(more, n + 1) == files(items, n).insert(file_key(x))
        }),
{
    let n = items.len() as int;
    let more = items.insert(k, x);
    assert(more.len() == n + 1);
    assert(more[k] == x);
    lemma_records_are(items, n, x.detail_id);
    assert forall|id: i64| #[trigger] records(more, n + 1).contains(id) <==> records(
        items,
        n,
    ).insert(x.detail_id).contains(id) by {
        lemma_records_with_another(items, x, k, id);
    }
    assert(records(more, n + 1) =~= records(items, n).insert(x.detail_id));
    assert(is_first(more, k)) by {
        lemma_records_are(more, k, x.detail_id);
        if !is_first(more, k) {
            let q = choose|q: int|
                0 <= q < k && (#[trigger] more[q]).detail_id == x.detail_id;
            assert(more[q] == items[q]);
        }
    }
    assert forall|file: u128| #[trigger] files(more, n + 1).contains(file) <==> files(
        items,
        n,
    ).insert(file_key(x)).contains(file) by {
        lemma_files_are(items, n, file);
        lemma_files_are(more, n + 1, file);
        if files(more, n + 1).contains(file) {
            let m = choose|m: int| 0 <= m < n + 1 && #[trigger] brings(more, m, file);
            if m != k {
                let p = if m < k {
                    m
                } else {
                    m - 1
                };
                lemma_first_with_another(items, x, k, p);
                assert(brings(items, p, file));
            }
        }
        if files(items, n).contains(file) {
            let p = choose|p: int| 0 <= p < n && #[trigger] brings(items, p, file);
            lemma_first_with_another(items, x, k, p);
            assert(items[p].detail_id != x.detail_id);
            assert(brings(more, shifted(p, k), file));
        }
        if file == file_key(x) {
            assert(brings(more, k, file));
        }
    }
    assert(files(more, n + 1) =~= files(items, n).insert(file_key(x)));
}

proof fn lemma_records_with_another(items: Seq<MediaItem>, x: MediaItem, k: int, id: i64)
    requires
        0 <= k <= items.len(),
    ensures
        records(items.insert(k, x), items.len() as int + 1).contains(id) <==> records(
            items,
            items.len() as int,
        ).contains(id) || id == x.detail_id,
{
    let n = items.len() as int;
    let more = items.insert(k, x);
    assert(more[k] == x);
    lemma_records_are(items, n, id);
    lemma_records_are(more, n + 1, id);
    if records(items, n).contains(id) {
        let p = choose|p: int| 0 <= p < n && (#[trigger] items[p]).detail_id == id;
        assert(more[shifted(p, k)] == items[p]);
    }
    if records(more, n + 1).contains(id) {
        let m = choose|m: int| 0 <= m < n + 1 && (#[trigger] more[m]).detail_id == id;
        if m != k {
            let p = if m < k {
                m
            } else {
                m - 1
            };
            assert(more[m] == items[p]);
        }
    }
}

/// A record that is known is listed once more, at any place: nothing is added
/// where it names the same file.
proof fn lemma_known_record(items: Seq<MediaItem>, x: MediaItem, k: int)
    requires
        0 <= k <= items.len(),
        records(items, items.len() as int).contains(x.detail_id),
        forall|p: int|
            0 <= p < items.len() && (#[trigger] items[p]).detail_id == x.detail_id ==> file_key(
                items[p],
            ) == file_key(x),
    ensures
        ({
            let n = items.len() as int;
            let more = items.insert(k, x);
            &&& records(more, n + 1) == records(items, n)
            &&& files(more, n + 1) == files(items, n)
        }),
{
    let n = items.len() as int;
    let more = items.insert(k, x);
    assert(more.len() == n + 1);
    assert(more[k] == x);
    assert forall|id: i64| #[trigger] records(more, n + 1).contains(id) <==> records(
        items,
        n,
    ).contains(id) by {
        lemma_records_with_another(items, x, k, id);
    }
    assert(records(more, n + 1) =~= records(items, n));
    lemma_records_are(items, n, x.detail_id);
    let any = choose|p: int| 0 <= p < n && (#[trigger] items[p]).detail_id == x.detail_id;
    let first = lemma_first_of_record(items, any);
    assert forall|file: u128| #[trigger] files(more, n + 1).contains(file) <==> files(
        items,
        n,
    ).contains(file) by {
        lemma_files_are(items, n, file);
        lemma_files_are(more, n + 1, file);
        if files(more, n + 1).contains(file) {
            let m = choose|m: int| 0 <= m < n + 1 && #[trigger] brings(more, m, file);
            if m == k {
                assert(file_key(items[first]) == file_key(x));
                assert(brings(items, first, file));
            } else {
                let p = if m < k {
                    m
                } else {
                    m - 1
                };
                lemma_first_with_another(items, x, k, p);
                assert(brings(items, p, file));
            }
        }
        if files(items, n).contains(file) {
            let p = choose|p: int| 0 <= p < n && #[trigger] brings(items, p, file);
            lemma_first_with_another(items, x, k, p);
            if items[p].detail_id == x.detail_id && k <= p {
                lemma_records_are(more, k, x.detail_id);
                lemma_records_are(items, p, x.detail_id);
                if !is_first(more, k) {
                    let q = choose|q: int|
                        0 <= q < k && (#[trigger] more[q]).detail_id == x.detail_id;
                    assert(more[q] == items[q]);
                }
                assert(brings(more, k, file));
            } else {
                assert(brings(more, shifted(p, k), file));
            }
        }
    }
    assert(files(more, n + 1) =~= files(items, n));
}

/// A new record of a file that is known, listed in two places, wherever the walk
/// over the catalog comes to them, adds one alias, one record and two objects,
/// and leaves files and containers as they are.
pub proof fn law_an_alias_listed_twice(
    items: Seq<MediaItem>,
    named: MediaItem,
    at: int,
    again: MediaItem,
    again_at: int,
    containers: usize,
    before: CatalogCounts,
    memory_before: u64,
    after: CatalogCounts,
    memory_after: u64,
)
    requires
        0 <= at <= items.len(),
        0 <= again_at <= items.len() + 1,
        !records(items, items.len() as int).contains(named.detail_id),
        files(items, items.len() as int).contains(file_key(named)),
        again.detail_id == named.detail_id,
        file_key(again) == file_key(named),
        items.len() + 2 + containers <= usize::MAX,
        is_tally(before, items, containers, memory_before),
        is_tally(
            after,
            items.insert(at, named).insert(again_at, again),
            containers,
            memory_after,
        ),
    ensures
        after.physical_inodes == before.physical_inodes,
        after.container_objects == before.container_objects,
        after.path_aliases == before.path_aliases + 1,
        after.media_records == before.media_records + 1,
        after.item_objects == before.item_objects + 2,
        after.total_objects == before.total_objects + 2,
{
    let n = items.len() as int;
    let more = items.insert(at, named);
    lemma_sets(items, n);
    lemma_new_record(items, named, at);
    lemma_records_are(items, n, named.detail_id);
    assert forall|p: int|
        0 <= p < more.len() && (#[trigger] more[p]).detail_id == again.detail_id implies file_key(
        more[p],
    ) == file_key(again) by {
        if p != at {
            let q = if p < at {
                p
            } else {
                p - 1
            };
            assert(more[p] == items[q]);
        }
    }
    lemma_known_record(more, again, again_at);
    assert(files(items, n).insert(file_key(named)) =~= files(items, n));
}

/// Whether every record names one file, wherever it is listed.
pub open spec fn one_file_each(items: Seq<MediaItem>) -> bool {
    forall|i: int, j: int|
        0 <= i < items.len() && 0 <= j < items.len() && (#[trigger] items[i]).detail_id == (
        #[trigger] items[j]).detail_id ==> file_key(items[i]) == file_key(items[j])
}

proof fn lemma_walk_within(a: Seq<MediaItem>, b: Seq<MediaItem>)
    requires
        one_file_each(b),
        forall|i: int| 0 <= i < a.len() ==> b.contains(#[trigger] a[i]),
    ensures
        records(a, a.len() as int).subset_of(records(b, b.len() as int)),
        files(a, a.len() as int).subset_of(files(b, b.len() as int)),
{
    let m = a.len() as int;
    let n = b.len() as int;
    assert forall|id: i64| records(a, m).contains(id) implies #[trigger] records(b, n).contains(
        id,
    ) by {
        lemma_records_are(a, m, id);
        lemma_records_are(b, n, id);
        let k = choose|k: int| 0 <= k < m && (#[trigger] a[k]).detail_id == id;
        let p = choose|p: int| 0 <= p < n && b[p] == a[k];
        assert(b[p].detail_id == id);
    }
    assert forall|file: u128| files(a, m).contains(file) implies #[trigger] files(b, n).contains(
        file,
    ) by {
        lemma_files_are(a, m, file);
        lemma_files_are(b, n, file);
        let k = choose|k: int| 0 <= k < m && #[trigger] brings(a, k, file);
        let p = choose|p: int| 0 <= p < n && b[p] == a[k];
        let first = lemma_first_of_record(b, p);
        assert(brings(b, first, file));
    }
}

/// Files, records and aliases are counted alike, in whatever order the catalog is
/// walked, where every record names one file.
pub proof fn law_counts_do_not_depend_on_the_walk(
    a: Seq<MediaItem>,
    b: Seq<MediaItem>,
    containers: usize,
    of_a: CatalogCounts,
    of_b: CatalogCounts,
    memory: u64,
)
    requires
        one_file_each(a),
        a.len() == b.len(),
        forall|i: int| 0 <= i < a.len() ==> b.contains(#[trigger] a[i]),
        forall|i: int| 0 <= i < b.len() ==> a.contains(#[trigger] b[i]),
        is_tally(of_a, a, containers, memory),
        is_tally(of_b, b, containers, memory),
    ensures
        of_a.physical_inodes == of_b.physical_inodes,
        of_a.media_records == of_b.media_records,
        of_a.path_aliases == of_b.path_aliases,
        of_a.item_objects == of_b.item_objects,
        of_a.total_objects == of_b.total_objects,
{
    assert(one_file_each(b)) by {
        assert forall|i: int, j: int|
            0 <= i < b.len() && 0 <= j < b.len() && (#[trigger] b[i]).detail_id == (
            #[trigger] b[j]).detail_id implies file_key(b[i]) == file_key(b[j]) by {
            let p = choose|p: int| 0 <= p < a.len() && a[p] == b[i];
            let q = choose|q: int| 0 <= q < a.len() && a[q] == b[j];
            assert(a[p].detail_id == a[q].detail_id);
        }
    }
    lemma_walk_within(a, b);
    lemma_walk_within(b, a);
    assert(records(a, a.len() as int) =~= records(b, b.len() as int));
    assert(files(a, a.len() as int) =~= files(b, b.len() as int));
}

/// A new record of a file that is known, listed in two places, adds one alias, one
/// record and two objects, in whatever order the catalog is walked anew, where
/// every record names one file.
pub proof fn law_an_alias_in_any_walk(
    items: Seq<MediaItem>,
    named: MediaItem,
    again: MediaItem,
    walk: Seq<MediaItem>,
    containers: usize,
    before: CatalogCounts,
    memory_before: u64,
    after: CatalogCounts,
    memory_after: u64,
)
    requires
        one_file_each(walk),
        walk.len() == items.len() + 2,
        forall|i: int|
            0 <= i < walk.len() ==> items.push(named).push(again).contains(#[trigger] walk[i]),
        forall|i: int|
            0 <= i < items.len() + 2 ==> walk.contains(
                #[trigger] items.push(named).push(again)[i],
            ),
        !records(items, items.len() as int).contains(named.detail_id),
        files(items, items.len() as int).contains(file_key(named)),
        again.detail_id == named.detail_id,
        items.len() + 2 + containers <= usize::MAX,
        is_tally(before, items, containers, memory_before),
        is_tally(after, walk, containers, memory_after),
    ensures
        after.physical_inodes == before.physical_inodes,
        after.container_objects == before.container_objects,
        after.path_aliases == before.path_aliases + 1,
        after.media_records == before.media_records + 1,
        after.item_objects == before.item_objects + 2,
        after.total_objects == before.total_objects + 2,
{
    let n = items.len() as int;
    let all = items.push(named).push(again);
    assert(one_file_each(all)) by {
        assert forall|i: int, j: int|
            0 <= i < all.len() && 0 <= j < all.len() && (#[trigger] all[i]).detail_id == (
            #[trigger] all[j]).detail_id implies file_key(all[i]) == file_key(all[j]) by {
            let p = choose|p: int| 0 <= p < walk.len() && walk[p] == all[i];
            let q = choose|q: int| 0 <= q < walk.len() && walk[q] == all[j];
            assert(walk[p].detail_id == walk[q].detail_id);
        }
    }
    lemma_walk_within(walk, all);
    lemma_walk_within(all, walk);
    assert(records(walk, n + 2) =~= records(all, n + 2));
    assert(files(walk, n + 2) =~= files(all, n + 2));
    lemma_sets(items, n);
    let more = items.insert(n, named);
    assert(more =~= items.push(named));
    lemma_new_record(items, named, n);
    assert(files(items, n).insert(file_key(named)) =~= files(items, n));
    assert(more.insert(n + 1, again) =~= all);
    assert forall|p: int|
        0 <= p < more.len() && (#[trigger] more[p]).detail_id == again.detail_id implies file_key(
        more[p],
    ) == file_key(again) by {
        assert(all[p] == more[p]);
        assert(all[n + 1] == again);
    }
    lemma_known_record(more, again, n + 1);
}

/// Listing a record in another place adds an object, and nothing else.
pub proof fn law_another_listing_adds_an_object(items: Seq<MediaItem>, again: MediaItem)
    requires
        records(items, items.len() as int).contains(again.detail_id),
    ensures
        ({
            let n = items.len() as int;
            let more = items.push(again);
            &&& records(more, n + 1) == records(items, n)
            &&& files(more, n + 1) == files(items, n)
            &&& captions_of(more, n + 1) == captions_of(items, n)
            &&& forall|class: RecordClass| #[trigger] count_of(more, class, n + 1) == count_of(
                items,
                class,
                n,
            )
        }),
{
    let n = items.len() as int;
    let more = items.push(again);
    lemma_prefix(items, again, n);
    assert(more[n] == again);
    assert(records(items, n).insert(again.detail_id) =~= records(items, n));
    assert(!is_first(more, n));
    assert forall|class: RecordClass| #[trigger] count_of(more, class, n + 1) == count_of(
        items,
        class,
        n,
    ) by {
        assert(count_of(more, class, n) == count_of(items, class, n));
    }
}

proof fn lemma_prefix(items: Seq<MediaItem>, again: MediaItem, n: int)
    requires
        0 <= n <= items.len(),
    ensures
        records(items.push(again), n) == records(items, n),
        files(items.push(again), n) == files(items, n),
        captions_of(items.push(again), n) == captions_of(items, n),
        forall|class: RecordClass| #[trigger] count_of(items.push(again), class, n) == count_of(
            items,
            class,
            n,
        ),
    decreases n,
{
    if n > 0 {
        lemma_prefix(items, again, n - 1);
        assert(items.push(again)[n - 1] == items[n - 1]);
        assert forall|class: RecordClass| #[trigger]
            count_of(items.push(again), class, n) == count_of(items, class, n) by {
            assert(count_of(items.push(again), class, n - 1) == count_of(items, class, n - 1));
        }
    }
}

} // verus!
