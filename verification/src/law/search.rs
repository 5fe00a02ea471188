//! Searching and paging the flat library.
use crate::catalog::{is_match, lowercase, MediaItem};
use crate::law::telling::is_of_video;
use crate::library::{library_page, LibraryRequest, PageHead};
use crate::listing::{
    distinct_ids, is_listing, is_same_file, is_selected, is_shown, law_listing_is_unique, page_of,
    sorts_before, MediaFilter, Sort,
};
use crate::order::bytes_at_most;
use crate::text::{holds_text, occurs_at};
use vstd::prelude::*;
use vstd::utf8::encode_utf8;

verus! {

/// Whether a text begins with `audio/`.
pub open spec fn is_of_audio(mime: Seq<char>) -> bool {
    mime.len() >= 6 && mime.take(6) == seq!['a', 'u', 'd', 'i', 'o', '/']
}

/// Whether a list of those media shows that media type.
pub open spec fn goes_with(mime: Seq<char>, filter: MediaFilter) -> bool {
    match filter {
        MediaFilter::All => is_of_video(mime) || is_of_audio(mime),
        MediaFilter::Video => is_of_video(mime),
        MediaFilter::Audio => is_of_audio(mime),
    }
}

/// Whether the lower case of a text has a part from index `at` on.
pub open spec fn has_part(text: Seq<char>, part: Seq<char>, at: int) -> bool {
    let lower = lowercase(text);
    0 <= at && at + part.len() <= lower.len() && lower.subrange(at, at + part.len()) == part
}

proof fn lemma_goes_with(item: MediaItem, filter: MediaFilter, query: Seq<char>)
    ensures
        is_selected(item, filter, query) <==> goes_with(item.mime@, filter) && (query.len() == 0
            || is_match(item, query)),
{
    reveal_strlit("video/");
    reveal_strlit("audio/");
    assert("video/"@ =~= seq!['v', 'i', 'd', 'e', 'o', '/']);
    assert("audio/"@ =~= seq!['a', 'u', 'd', 'i', 'o', '/']);
}

/// A title and a place: whether the title there is this one, or stands for the
/// same file under a smaller number.
pub open spec fn stands_for(items: Seq<MediaItem>, place: int, i: int) -> bool {
    ||| place == i
    ||| {
        &&& items[i].inode != 0
        &&& items[place].inode == items[i].inode
        &&& items[place].device == items[i].device
        &&& items[place].detail_id <= items[i].detail_id
    }
}

/// Among the selected titles of a file, up to place `n`, one has the smallest
/// number.
proof fn lemma_smallest(
    items: Seq<MediaItem>,
    filter: MediaFilter,
    query: Seq<char>,
    i: int,
    n: int,
) -> (k: int)
    requires
        0 <= i < items.len(),
        0 <= n <= items.len(),
        is_selected(items[i], filter, query),
        items[i].inode != 0,
    ensures
        0 <= k < items.len(),
        is_selected(items[k], filter, query),
        is_same_file(items[i], items[k]),
        items[k].detail_id <= items[i].detail_id,
        forall|j: int|
            0 <= j < n && is_selected(#[trigger] items[j], filter, query) && is_same_file(
                items[i],
                items[j],
            ) ==> items[k].detail_id <= items[j].detail_id,
    decreases n,
{
    if n == 0 {
        i
    } else {
        let k = lemma_smallest(items, filter, query, i, n - 1);
        let j = n - 1;
        if is_selected(items[j], filter, query) && is_same_file(items[i], items[j])
            && items[j].detail_id < items[k].detail_id {
            j
        } else {
            k
        }
    }
}

proof fn lemma_selected_is_listed(
    items: Seq<MediaItem>,
    filter: MediaFilter,
    query: Seq<char>,
    sort: Sort,
    all: Seq<usize>,
    i: int,
)
    requires
        items.len() <= usize::MAX,
        0 <= i < items.len(),
        is_selected(items[i], filter, query),
        is_listing(items, filter, query, sort, all),
    ensures
        exists|p: int| 0 <= p < all.len() && stands_for(items, #[trigger] all[p] as int, i),
{
    let k = if items[i].inode == 0 {
        i
    } else {
        lemma_smallest(items, filter, query, i, items.len() as int)
    };
    assert(is_shown(items, filter, query, k));
    let x = k as usize;
    assert(all.contains(x));
    let p = choose|p: int| 0 <= p < all.len() && all[p] == x;
    assert(stands_for(items, all[p] as int, i));
}

/// Whether the page holds all that a request finds.
pub open spec fn is_whole(request: LibraryRequest, result: (Vec<usize>, PageHead)) -> bool {
    request.offset == 0 && result.1.total <= request.limit
}

proof fn lemma_found(
    request: &LibraryRequest,
    generation: u32,
    items: &[MediaItem],
    result: (Vec<usize>, PageHead),
    i: int,
)
    requires
        call_ensures(library_page, (request, generation, items), result),
        is_whole(*request, result),
        0 <= i < items@.len(),
        is_selected(items@[i], request.filter, lowercase(request.query@)),
    ensures
        exists|p: int|
            0 <= p < result.0@.len() && stands_for(items@, #[trigger] result.0@[p] as int, i),
{
    let query = lowercase(request.query@);
    let all = choose|all: Seq<usize>|
        {
            &&& #[trigger] is_listing(items@, request.filter, query, request.sort, all)
            &&& result.0@ == page_of(all, request.offset as int, request.limit as int)
            &&& result.1.total == all.len()
        };
    assert(result.0@ =~= all);
    assert(items.len() <= usize::MAX);
    lemma_selected_is_listed(items@, request.filter, query, request.sort, all, i);
}

/// A search finds every title whose artist holds the text, or the title that
/// stands for its file.
pub proof fn law_search_finds_artists(
    request: &LibraryRequest,
    generation: u32,
    items: &[MediaItem],
    result: (Vec<usize>, PageHead),
    i: int,
    at: int,
)
    requires
        call_ensures(library_page, (request, generation, items), result),
        is_whole(*request, result),
        0 <= i < items@.len(),
        goes_with(items@[i].mime@, request.filter),
        items@[i].artist is Some,
        has_part(items@[i].artist->0@, lowercase(request.query@), at),
    ensures
        exists|p: int|
            0 <= p < result.0@.len() && stands_for(items@, #[trigger] result.0@[p] as int, i),
{
    let query = lowercase(request.query@);
    lemma_goes_with(items@[i], request.filter, query);
    assert(occurs_at(lowercase(items@[i].artist->0@), query, at));
    lemma_found(request, generation, items, result, i);
}

/// A search finds every title whose album artist holds the text, or the title
/// that stands for its file.
pub proof fn law_search_finds_album_artists(
    request: &LibraryRequest,
    generation: u32,
    items: &[MediaItem],
    result: (Vec<usize>, PageHead),
    i: int,
    at: int,
)
    requires
        call_ensures(library_page, (request, generation, items), result),
        is_whole(*request, result),
        0 <= i < items@.len(),
        goes_with(items@[i].mime@, request.filter),
        items@[i].album_artist is Some,
        has_part(items@[i].album_artist->0@, lowercase(request.query@), at),
    ensures
        exists|p: int|
            0 <= p < result.0@.len() && stands_for(items@, #[trigger] result.0@[p] as int, i),
{
    let query = lowercase(request.query@);
    lemma_goes_with(items@[i], request.filter, query);
    assert(occurs_at(lowercase(items@[i].album_artist->0@), query, at));
    lemma_found(request, generation, items, result, i);
}

/// A search finds every title whose album holds the text, or the title that
/// stands for its file.
pub proof fn law_search_finds_albums(
    request: &LibraryRequest,
    generation: u32,
    items: &[MediaItem],
    result: (Vec<usize>, PageHead),
    i: int,
    at: int,
)
    requires
        call_ensures(library_page, (request, generation, items), result),
        is_whole(*request, result),
        0 <= i < items@.len(),
        goes_with(items@[i].mime@, request.filter),
        items@[i].album is Some,
        has_part(items@[i].album->0@, lowercase(request.query@), at),
    ensures
        exists|p: int|
            0 <= p < result.0@.len() && stands_for(items@, #[trigger] result.0@[p] as int, i),
{
    let query = lowercase(request.query@);
    lemma_goes_with(items@[i], request.filter, query);
    assert(occurs_at(lowercase(items@[i].album->0@), query, at));
    lemma_found(request, generation, items, result, i);
}

/// A search finds every title by its own name, or the title that stands for its
/// file.
pub proof fn law_search_finds_titles(
    request: &LibraryRequest,
    generation: u32,
    items: &[MediaItem],
    result: (Vec<usize>, PageHead),
    i: int,
    at: int,
)
    requires
        call_ensures(library_page, (request, generation, items), result),
        is_whole(*request, result),
        0 <= i < items@.len(),
        goes_with(items@[i].mime@, request.filter),
        has_part(items@[i].title@, lowercase(request.query@), at),
    ensures
        exists|p: int|
            0 <= p < result.0@.len() && stands_for(items@, #[trigger] result.0@[p] as int, i),
{
    let query = lowercase(request.query@);
    lemma_goes_with(items@[i], request.filter, query);
    assert(occurs_at(lowercase(items@[i].title@), query, at));
    lemma_found(request, generation, items, result, i);
}

/// A search finds every title by the name of its file, or the title that stands
/// for its file.
pub proof fn law_search_finds_file_names(
    request: &LibraryRequest,
    generation: u32,
    items: &[MediaItem],
    result: (Vec<usize>, PageHead),
    i: int,
    at: int,
)
    requires
        call_ensures(library_page, (request, generation, items), result),
        is_whole(*request, result),
        0 <= i < items@.len(),
        goes_with(items@[i].mime@, request.filter),
        items@[i].path_name is Some,
        items@[i].path_name->0@.len() > 0,
        has_part(items@[i].path_name->0@, lowercase(request.query@), at),
    ensures
        exists|p: int|
            0 <= p < result.0@.len() && stands_for(items@, #[trigger] result.0@[p] as int, i),
{
    let query = lowercase(request.query@);
    lemma_goes_with(items@[i], request.filter, query);
    assert(occurs_at(lowercase(items@[i].path_name->0@), query, at));
    lemma_found(request, generation, items, result, i);
}

/// Without a search text everything of the media asked for is listed.
pub proof fn law_everything_is_listed(
    request: &LibraryRequest,
    generation: u32,
    items: &[MediaItem],
    result: (Vec<usize>, PageHead),
    i: int,
)
    requires
        call_ensures(library_page, (request, generation, items), result),
        is_whole(*request, result),
        0 <= i < items@.len(),
        goes_with(items@[i].mime@, request.filter),
        lowercase(request.query@).len() == 0,
    ensures
        exists|p: int|
            0 <= p < result.0@.len() && stands_for(items@, #[trigger] result.0@[p] as int, i),
{
    lemma_goes_with(items@[i], request.filter, lowercase(request.query@));
    lemma_found(request, generation, items, result, i);
}

/// Where a title holds a text: in its file name, its title, its artist, its album
/// artist or its album.
pub open spec fn holds_somewhere(item: MediaItem, query: Seq<char>, at: int) -> bool {
    ||| item.path_name is Some && has_part(item.path_name->0@, query, at)
    ||| has_part(item.title@, query, at)
    ||| item.artist is Some && has_part(item.artist->0@, query, at)
    ||| item.album_artist is Some && has_part(item.album_artist->0@, query, at)
    ||| item.album is Some && has_part(item.album->0@, query, at)
}

proof fn lemma_on_page(
    request: &LibraryRequest,
    generation: u32,
    items: &[MediaItem],
    result: (Vec<usize>, PageHead),
) -> (all: Seq<usize>)
    requires
        call_ensures(library_page, (request, generation, items), result),
    ensures
        is_listing(items@, request.filter, lowercase(request.query@), request.sort, all),
        result.0@ == page_of(all, request.offset as int, request.limit as int),
        result.1.total == all.len(),
        forall|p: int|
            0 <= p < result.0@.len() ==> request.offset + p < all.len() && #[trigger] result.0@[p]
                == all[request.offset + p],
{
    choose|all: Seq<usize>|
        {
            &&& #[trigger] is_listing(
                items@,
                request.filter,
                lowercase(request.query@),
                request.sort,
                all,
            )
            &&& result.0@ == page_of(all, request.offset as int, request.limit as int)
            &&& result.1.total == all.len()
        }
}

/// Whatever a search finds is of the media asked for and holds the text.
pub proof fn law_found_titles_hold_the_text(
    request: &LibraryRequest,
    generation: u32,
    items: &[MediaItem],
    result: (Vec<usize>, PageHead),
    p: int,
)
    requires
        call_ensures(library_page, (request, generation, items), result),
        0 <= p < result.0@.len(),
    ensures
        result.0@[p] < items@.len(),
        goes_with(items@[result.0@[p] as int].mime@, request.filter),
        lowercase(request.query@).len() == 0 || exists|at: int|
            holds_somewhere(items@[result.0@[p] as int], lowercase(request.query@), at),
{
    let query = lowercase(request.query@);
    let all = lemma_on_page(request, generation, items, result);
    let x = result.0@[p];
    assert(all.contains(all[request.offset + p]));
    let item = items@[x as int];
    lemma_goes_with(item, request.filter, query);
    if query.len() > 0 {
        let name = crate::catalog::file_name(item);
        if holds_text(lowercase(name), query) {
            let at = choose|at: int| occurs_at(lowercase(name), query, at);
            assert(has_part(name, query, at));
            assert(holds_somewhere(item, query, at));
        } else if holds_text(lowercase(item.title@), query) {
            let at = choose|at: int| occurs_at(lowercase(item.title@), query, at);
            assert(holds_somewhere(item, query, at));
        } else if item.artist is Some && holds_text(lowercase(item.artist->0@), query) {
            let at = choose|at: int| occurs_at(lowercase(item.artist->0@), query, at);
            assert(holds_somewhere(item, query, at));
        } else if item.album_artist is Some && holds_text(
            lowercase(item.album_artist->0@),
            query,
        ) {
            let at = choose|at: int| occurs_at(lowercase(item.album_artist->0@), query, at);
            assert(holds_somewhere(item, query, at));
        } else {
            let at = choose|at: int| occurs_at(lowercase(item.album->0@), query, at);
            assert(holds_somewhere(item, query, at));
        }
    }
}

/// Whether bytes stand before others: they agree up to index `k`, where the first
/// end or have the smaller byte.
pub open spec fn is_before(a: Seq<u8>, b: Seq<u8>, k: int) -> bool {
    &&& 0 <= k <= a.len()
    &&& k < b.len()
    &&& a.take(k) == b.take(k)
    &&& k == a.len() || a[k] < b[k]
}

/// Bytes that stand before others are smaller.
pub proof fn lemma_is_before(a: Seq<u8>, b: Seq<u8>, k: int)
    requires
        is_before(a, b, k),
    ensures
        bytes_at_most(a, b),
        !bytes_at_most(b, a),
        a != b,
    decreases k,
{
    if k > 0 {
        assert(a[0] == a.take(k)[0] && b[0] == b.take(k)[0]);
        assert(a.skip(1).take(k - 1) =~= a.take(k).skip(1));
        assert(b.skip(1).take(k - 1) =~= b.take(k).skip(1));
        lemma_is_before(a.skip(1), b.skip(1), k - 1);
    }
}

proof fn lemma_in_order(
    request: LibraryRequest,
    items: Seq<MediaItem>,
    all: Seq<usize>,
    page: Seq<usize>,
    p: int,
    q: int,
)
    requires
        is_listing(items, request.filter, lowercase(request.query@), request.sort, all),
        0 <= p < page.len(),
        0 <= q < page.len(),
        forall|i: int|
            0 <= i < page.len() ==> request.offset + i < all.len() && #[trigger] page[i]
                == all[request.offset + i],
    ensures
        p < q ==> sorts_before(request.sort, items[page[p] as int], items[page[q] as int]),
{
    assert(page[p] == all[request.offset + p]);
    assert(page[q] == all[request.offset + q]);
}

/// In a list by title, a title whose key is smaller in byte order never stands
/// behind one whose key is larger, and of the same key the smaller number comes
/// first.
pub proof fn law_titles_are_in_order(
    request: &LibraryRequest,
    generation: u32,
    items: &[MediaItem],
    result: (Vec<usize>, PageHead),
    p: int,
    q: int,
    k: int,
)
    requires
        call_ensures(library_page, (request, generation, items), result),
        request.sort == Sort::Title,
        0 <= p < result.0@.len(),
        0 <= q < result.0@.len(),
        p != q,
    ensures
        ({
            let (a, b) = (items@[result.0@[p] as int], items@[result.0@[q] as int]);
            &&& is_before(encode_utf8(a.title_key@), encode_utf8(b.title_key@), k) ==> p < q
            &&& a.title_key@ == b.title_key@ && a.detail_id < b.detail_id ==> p < q
        }),
{
    let all = lemma_on_page(request, generation, items, result);
    lemma_in_order(*request, items@, all, result.0@, q, p);
    let (a, b) = (items@[result.0@[p] as int], items@[result.0@[q] as int]);
    if is_before(encode_utf8(a.title_key@), encode_utf8(b.title_key@), k) {
        lemma_is_before(encode_utf8(a.title_key@), encode_utf8(b.title_key@), k);
    }
}

/// In a list by date, the later date comes first, and of the same date the smaller
/// number.
pub proof fn law_dates_are_in_order(
    request: &LibraryRequest,
    generation: u32,
    items: &[MediaItem],
    result: (Vec<usize>, PageHead),
    p: int,
    q: int,
    k: int,
)
    requires
        call_ensures(library_page, (request, generation, items), result),
        request.sort == Sort::DateDescending,
        0 <= p < result.0@.len(),
        0 <= q < result.0@.len(),
        p != q,
    ensures
        ({
            let (a, b) = (items@[result.0@[p] as int], items@[result.0@[q] as int]);
            &&& is_before(encode_utf8(b.date@), encode_utf8(a.date@), k) ==> p < q
            &&& a.date@ == b.date@ && a.detail_id < b.detail_id ==> p < q
        }),
{
    let all = lemma_on_page(request, generation, items, result);
    lemma_in_order(*request, items@, all, result.0@, q, p);
    let (a, b) = (items@[result.0@[p] as int], items@[result.0@[q] as int]);
    if is_before(encode_utf8(b.date@), encode_utf8(a.date@), k) {
        lemma_is_before(encode_utf8(b.date@), encode_utf8(a.date@), k);
    }
}

/// The number of a disc or a track, where there is one.
pub open spec fn number_or_none(n: Option<i64>) -> int {
    if n is Some {
        n->0 as int
    } else {
        0
    }
}

/// In a list of episodes, discs come one behind the other, on each the tracks, and
/// of the same track the smaller number first.
pub proof fn law_episodes_are_in_order(
    request: &LibraryRequest,
    generation: u32,
    items: &[MediaItem],
    result: (Vec<usize>, PageHead),
    p: int,
    q: int,
)
    requires
        call_ensures(library_page, (request, generation, items), result),
        request.sort == Sort::Episode,
        0 <= p < result.0@.len(),
        0 <= q < result.0@.len(),
        p != q,
    ensures
        ({
            let (a, b) = (items@[result.0@[p] as int], items@[result.0@[q] as int]);
            let (d, e) = (number_or_none(a.disc), number_or_none(b.disc));
            let (t, u) = (number_or_none(a.track), number_or_none(b.track));
            &&& d < e ==> p < q
            &&& d == e && t < u ==> p < q
            &&& d == e && t == u && a.detail_id < b.detail_id ==> p < q
        }),
{
    let all = lemma_on_page(request, generation, items, result);
    lemma_in_order(*request, items@, all, result.0@, q, p);
}

/// A page has as many titles as were asked for, as far as there are so many; the
/// head says how many there are in all and whether there is more.
pub proof fn law_pages_are_full(
    request: &LibraryRequest,
    generation: u32,
    items: &[MediaItem],
    result: (Vec<usize>, PageHead),
)
    requires
        call_ensures(library_page, (request, generation, items), result),
    ensures
        request.offset >= result.1.total ==> result.0@.len() == 0,
        request.offset + request.limit <= result.1.total ==> result.0@.len() == request.limit,
        request.offset < result.1.total < request.offset + request.limit ==> result.0@.len()
            == result.1.total - request.offset,
        result.1.has_more <==> request.offset + result.0@.len() < result.1.total,
        result.1.total <= items@.len(),
        result.1.offset == request.offset,
        result.1.limit == request.limit,
        result.1.generation == generation,
        result.1.query@ == request.query@,
        result.1.total > 0 ==> result.1.library_state@ == "ready"@,
        result.1.total == 0 ==> result.1.library_state@ == "empty"@,
{
    let all = lemma_on_page(request, generation, items, result);
    let places = Seq::new(items@.len(), |i: int| i as usize);
    assert(items.len() <= usize::MAX);
    assert forall|x: usize| #[trigger] all.contains(x) implies places.contains(x) by {
        assert(places[x as int] == x);
    }
    all.unique_seq_to_set();
    places.unique_seq_to_set();
    assert(all.to_set().subset_of(places.to_set()));
    vstd::set_lib::lemma_len_subset(all.to_set(), places.to_set());
}

/// Pages do not depend on how they are cut: what stands at a place of a page is
/// what stands there in any other page of the same list that reaches so far.
pub proof fn law_pages_are_cut_from_one_list(
    request: &LibraryRequest,
    other: &LibraryRequest,
    generation: u32,
    items: &[MediaItem],
    result: (Vec<usize>, PageHead),
    again: (Vec<usize>, PageHead),
    p: int,
    q: int,
)
    requires
        distinct_ids(items@),
        call_ensures(library_page, (request, generation, items), result),
        call_ensures(library_page, (other, generation, items), again),
        request.filter == other.filter,
        request.sort == other.sort,
        request.query@ == other.query@,
        0 <= p < result.0@.len(),
        0 <= q < again.0@.len(),
    ensures
        result.1.total == again.1.total,
        request.offset + p == other.offset + q <==> result.0@[p] == again.0@[q],
{
    let a = lemma_on_page(request, generation, items, result);
    let b = lemma_on_page(other, generation, items, again);
    law_listing_is_unique(
        items@,
        request.filter,
        lowercase(request.query@),
        request.sort,
        a,
        b,
    );
}

/// A file that stands in the catalog more than once is listed once.
pub proof fn law_a_file_is_listed_once(
    request: &LibraryRequest,
    generation: u32,
    items: &[MediaItem],
    result: (Vec<usize>, PageHead),
    p: int,
    q: int,
)
    requires
        distinct_ids(items@),
        call_ensures(library_page, (request, generation, items), result),
        0 <= p < result.0@.len(),
        0 <= q < result.0@.len(),
        p != q,
    ensures
        ({
            let (a, b) = (items@[result.0@[p] as int], items@[result.0@[q] as int]);
            &&& result.0@[p] != result.0@[q]
            &&& a.inode == 0 || a.inode != b.inode || a.device != b.device
        }),
{
    let all = lemma_on_page(request, generation, items, result);
    let (x, y) = (all[request.offset + p], all[request.offset + q]);
    assert(all.contains(x) && all.contains(y));
    if is_same_file(items@[x as int], items@[y as int]) {
        crate::listing::law_files_are_shown_once(
            items@,
            request.filter,
            lowercase(request.query@),
            x as int,
            y as int,
        );
    }
}

/// Of a file that stands in the catalog more than once, the title with the smallest
/// number is listed, of those that the search is for.
pub proof fn law_a_file_is_listed_under_its_smallest_number(
    request: &LibraryRequest,
    generation: u32,
    items: &[MediaItem],
    result: (Vec<usize>, PageHead),
    p: int,
    i: int,
    at: int,
)
    requires
        call_ensures(library_page, (request, generation, items), result),
        0 <= p < result.0@.len(),
        0 <= i < items@.len(),
        goes_with(items@[i].mime@, request.filter),
        lowercase(request.query@).len() == 0 || has_part(
            items@[i].title@,
            lowercase(request.query@),
            at,
        ),
        ({
            let a = items@[result.0@[p] as int];
            a.inode != 0 && a.inode == items@[i].inode && a.device == items@[i].device
        }),
    ensures
        items@[result.0@[p] as int].detail_id <= items@[i].detail_id,
{
    let all = lemma_on_page(request, generation, items, result);
    let x = all[request.offset + p];
    assert(all.contains(x));
    let query = lowercase(request.query@);
    if query.len() > 0 {
        assert(occurs_at(lowercase(items@[i].title@), query, at));
    }
    lemma_goes_with(items@[i], request.filter, query);
    assert(is_same_file(items@[x as int], items@[i]));
}

} // verus!
