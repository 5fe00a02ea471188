//! Ordered pages of the library.
use crate::catalog::{
    is_audio, is_match, is_playable, is_video, media_matches, playable, video, MediaItem,
};
use crate::order::{
    is_text_at_most, lemma_bytes_total, lemma_bytes_transitive, lemma_text_antisymmetric,
    ordered, text_at_most, Ranking,
};
use std::collections::HashSet;
use vstd::prelude::*;
use vstd::slice::{slice_subrange, slice_to_vec};
use vstd::utf8::encode_utf8;

verus! {

/// Which media a list shows.
#[derive(Clone, Copy, Debug, PartialEq, Eq, Structural)]
pub enum MediaFilter {
    All,
    Video,
    Audio,
}

/// How a list is ordered.
#[derive(Clone, Copy, Debug, PartialEq, Eq, Structural)]
pub enum Sort {
    Title,
    DateDescending,
    Episode,
}

/// The number, or zero where there is none.
pub open spec fn or_zero(n: Option<i64>) -> i64 {
    match n {
        Some(n) => n,
        None => 0,
    }
}

/// Whether two numbers and then a rest stand in order.
pub open spec fn numbers_at_most(a: i64, b: i64, rest: bool) -> bool {
    a < b || (a == b && rest)
}

/// Whether title `a` is to stand before title `b`, or is it.
pub open spec fn sorts_before(sort: Sort, a: MediaItem, b: MediaItem) -> bool {
    let ids = a.detail_id <= b.detail_id;
    match sort {
        Sort::Title => text_at_most(a.title_key@, b.title_key@) && (a.title_key@ == b.title_key@
            ==> ids),
        Sort::DateDescending => text_at_most(b.date@, a.date@) && (a.date@ == b.date@ ==> ids),
        Sort::Episode => numbers_at_most(
            or_zero(a.disc),
            or_zero(b.disc),
            numbers_at_most(or_zero(a.track), or_zero(b.track), ids),
        ),
    }
}

/// Titles in an order.
pub struct TitleOrder<'a> {
    pub items: &'a [MediaItem],
    pub sort: Sort,
}

fn zero_if_none(n: Option<i64>) -> (result: i64)
    ensures
        result == or_zero(n),
{
    match n {
        Some(n) => n,
        None => 0,
    }
}

impl<'a> Ranking for TitleOrder<'a> {
    open spec fn knows(&self, a: usize) -> bool {
        a < self.items@.len()
    }

    open spec fn at_most(&self, a: usize, b: usize) -> bool {
        sorts_before(self.sort, self.items@[a as int], self.items@[b as int])
    }

    proof fn total(&self, a: usize, b: usize) {
        let x = self.items@[a as int];
        let y = self.items@[b as int];
        lemma_bytes_total(encode_utf8(x.title_key@), encode_utf8(y.title_key@));
        lemma_bytes_total(encode_utf8(x.date@), encode_utf8(y.date@));
    }

    proof fn transitive(&self, a: usize, b: usize, c: usize) {
        let x = self.items@[a as int];
        let y = self.items@[b as int];
        let z = self.items@[c as int];
        match self.sort {
            Sort::Title => {
                lemma_bytes_transitive(
                    encode_utf8(x.title_key@),
                    encode_utf8(y.title_key@),
                    encode_utf8(z.title_key@),
                );
                if x.title_key@ == z.title_key@ {
                    lemma_text_antisymmetric(x.title_key@, y.title_key@);
                }
            },
            Sort::DateDescending => {
                lemma_bytes_transitive(
                    encode_utf8(z.date@),
                    encode_utf8(y.date@),
                    encode_utf8(x.date@),
                );
                if x.date@ == z.date@ {
                    lemma_text_antisymmetric(x.date@, y.date@);
                }
            },
            Sort::Episode => {},
        }
    }

    fn is_at_most(&self, a: usize, b: usize) -> (result: bool) {
        let x = &self.items[a];
        let y = &self.items[b];
        let ids = x.detail_id <= y.detail_id;
        match self.sort {
            Sort::Title => {
                proof {
                    if text_at_most(x.title_key@, y.title_key@) && text_at_most(
                        y.title_key@,
                        x.title_key@,
                    ) {
                        lemma_text_antisymmetric(x.title_key@, y.title_key@);
                    }
                    crate::order::lemma_bytes_reflexive(encode_utf8(x.title_key@));
                }
                is_text_at_most(x.title_key.as_str(), y.title_key.as_str()) && (ids
                    || !is_text_at_most(y.title_key.as_str(), x.title_key.as_str()))
            },
            Sort::DateDescending => {
                proof {
                    if text_at_most(x.date@, y.date@) && text_at_most(y.date@, x.date@) {
                        lemma_text_antisymmetric(x.date@, y.date@);
                    }
                    crate::order::lemma_bytes_reflexive(encode_utf8(x.date@));
                }
                is_text_at_most(y.date.as_str(), x.date.as_str()) && (ids || !is_text_at_most(
                    x.date.as_str(),
                    y.date.as_str(),
                ))
            },
            Sort::Episode => {
                let (d, e) = (zero_if_none(x.disc), zero_if_none(y.disc));
                let (t, u) = (zero_if_none(x.track), zero_if_none(y.track));
                d < e || (d == e && (t < u || (t == u && ids)))
            },
        }
    }
}

/// Titles in the order of their identifiers.
pub struct IdOrder<'a> {
    pub items: &'a [MediaItem],
}

impl<'a> Ranking for IdOrder<'a> {
    open spec fn knows(&self, a: usize) -> bool {
        a < self.items@.len()
    }

    open spec fn at_most(&self, a: usize, b: usize) -> bool {
        self.items@[a as int].detail_id <= self.items@[b as int].detail_id
    }

    proof fn total(&self, a: usize, b: usize) {
    }

    proof fn transitive(&self, a: usize, b: usize, c: usize) {
    }

    fn is_at_most(&self, a: usize, b: usize) -> (result: bool) {
        self.items[a].detail_id <= self.items[b].detail_id
    }
}

/// Every title has an identifier of its own.
pub open spec fn distinct_ids(items: Seq<MediaItem>) -> bool {
    forall|i: int, j: int|
        0 <= i < j < items.len() ==> (#[trigger] items[i]).detail_id != (
        #[trigger] items[j]).detail_id
}

/// Whether a title is shown under a filter and a query in lower case, of which an
/// empty one finds everything.
pub open spec fn is_selected(item: MediaItem, filter: MediaFilter, query: Seq<char>) -> bool {
    &&& is_playable(item.mime@)
    &&& match filter {
        MediaFilter::All => true,
        MediaFilter::Video => is_video(item.mime@),
        MediaFilter::Audio => is_audio(item.mime@),
    }
    &&& query.len() == 0 || is_match(item, query)
}

/// Whether two titles are the same file on disk. Number zero names no file.
pub open spec fn is_same_file(a: MediaItem, b: MediaItem) -> bool {
    a.inode != 0 && a.inode == b.inode && a.device == b.device
}

/// Whether a title stands for its file: among the selected titles of one file,
/// the one with the smallest identifier does.
pub open spec fn is_shown(
    items: Seq<MediaItem>,
    filter: MediaFilter,
    query: Seq<char>,
    i: int,
) -> bool {
    &&& 0 <= i < items.len()
    &&& is_selected(items[i], filter, query)
    &&& forall|j: int|
        0 <= j < items.len() && is_selected(#[trigger] items[j], filter, query) && is_same_file(
            items[i],
            items[j],
        ) ==> items[i].detail_id <= items[j].detail_id
}

/// Whether `all` is the ordered list of the shown titles.
pub open spec fn is_listing(
    items: Seq<MediaItem>,
    filter: MediaFilter,
    query: Seq<char>,
    sort: Sort,
    all: Seq<usize>,
) -> bool {
    &&& all.no_duplicates()
    &&& forall|x: usize| #[trigger] all.contains(x) <==> is_shown(items, filter, query, x as int)
    &&& forall|i: int, j: int|
        0 <= i < j < all.len() ==> sorts_before(sort, items[all[i] as int], items[all[j] as int])
}

/// At most `limit` of the things from index `offset` on.
pub open spec fn page_of<T>(all: Seq<T>, offset: int, limit: int) -> Seq<T> {
    if offset >= all.len() {
        Seq::empty()
    } else if limit >= all.len() - offset {
        all.skip(offset)
    } else {
        all.subrange(offset, offset + limit)
    }
}

/// Whether there is more behind a page.
pub open spec fn has_more(total: int, offset: int, shown: int) -> bool {
    offset + shown < total
}

/// The number that names a file on disk.
pub open spec fn file_key(item: MediaItem) -> u128 {
    (item.device as int * 0x1_0000_0000_0000_0000 + item.inode as int) as u128
}

/// The number that names a file on disk.
pub(crate) fn key_of(item: &MediaItem) -> (key: u128)
    ensures
        key == file_key(*item),
{
    item.device as u128 * 0x1_0000_0000_0000_0000u128 + item.inode as u128
}

proof fn lemma_file_key(a: MediaItem, b: MediaItem)
    ensures
        file_key(a) == file_key(b) <==> a.device == b.device && a.inode == b.inode,
{
}

fn selected(item: &MediaItem, filter: MediaFilter, query: &str) -> (result: bool)
    ensures
        result == is_selected(*item, filter, query@),
{
    let fits = match filter {
        MediaFilter::All => true,
        MediaFilter::Video => video(item.mime.as_str()),
        MediaFilter::Audio => crate::catalog::audio(item.mime.as_str()),
    };
    playable(item.mime.as_str()) && fits && (query.is_empty() || media_matches(item, query))
}

/// Whether `chosen` are the places of the selected titles.
spec fn is_choice(
    items: Seq<MediaItem>,
    filter: MediaFilter,
    query: Seq<char>,
    chosen: Seq<usize>,
) -> bool {
    &&& chosen.no_duplicates()
    &&& forall|x: usize| #[trigger] chosen.contains(x) <==> x < items.len() && is_selected(
        items[x as int],
        filter,
        query,
    )
}

fn choose_items(items: &[MediaItem], filter: MediaFilter, query: &str) -> (chosen: Vec<usize>)
    ensures
        is_choice(items@, filter, query@, chosen@),
{
    let mut chosen: Vec<usize> = Vec::new();
    let mut i: usize = 0;
    while i < items.len()
        invariant
            i <= items.len(),
            chosen@.no_duplicates(),
            forall|x: usize| #[trigger] chosen@.contains(x) <==> x < i && is_selected(
                items@[x as int],
                filter,
                query@,
            ),
        decreases items.len() - i,
    {
        let ghost before = chosen@;
        if selected(&items[i], filter, query) {
            chosen.push(i);
            proof {
                lemma_push_contains(before, i);
            }
        }
        i += 1;
    }
    chosen
}

proof fn lemma_push_contains(s: Seq<usize>, x: usize)
    ensures
        forall|y: usize| #[trigger] s.push(x).contains(y) <==> s.contains(y) || y == x,
        s.no_duplicates() && !s.contains(x) ==> s.push(x).no_duplicates(),
{
    let t = s.push(x);
    assert forall|y: usize| #[trigger] t.contains(y) <==> s.contains(y) || y == x by {
        if s.contains(y) {
            let k = choose|k: int| 0 <= k < s.len() && s[k] == y;
            assert(t[k] == y);
        }
        if y == x {
            assert(t[s.len() as int] == y);
        }
        if t.contains(y) {
            let k = choose|k: int| 0 <= k < t.len() && t[k] == y;
            if k < s.len() {
                assert(s[k] == y);
            }
        }
    }
    if s.no_duplicates() && !s.contains(x) {
        assert forall|a: int, b: int| 0 <= a < t.len() && 0 <= b < t.len() && a != b implies t[a]
            != t[b] by {
            if a == s.len() {
                assert(s[b] == t[b]);
            } else if b == s.len() {
                assert(s[a] == t[a]);
            }
        }
    }
}

/// A rearrangement holds the same things, and no more often.
pub(crate) proof fn lemma_same_multiset(a: Seq<usize>, b: Seq<usize>)
    requires
        a.to_multiset() == b.to_multiset(),
    ensures
        forall|x: usize| #[trigger] a.contains(x) <==> b.contains(x),
        a.no_duplicates() <==> b.no_duplicates(),
{
    broadcast use vstd::seq_lib::group_to_multiset_ensures;

    assert forall|x: usize| #[trigger] a.contains(x) <==> b.contains(x) by {
        assert(a.contains(x) <==> a.to_multiset().count(x) > 0);
        assert(b.contains(x) <==> b.to_multiset().count(x) > 0);
    }
    if a.no_duplicates() {
        a.lemma_multiset_has_no_duplicates();
        b.lemma_multiset_has_no_duplicates_conv();
    }
    if b.no_duplicates() {
        b.lemma_multiset_has_no_duplicates();
        a.lemma_multiset_has_no_duplicates_conv();
    }
}

/// Whether the file of the title at `order[p]` was seen before place `p`.
spec fn seen_before(items: Seq<MediaItem>, order: Seq<usize>, p: int) -> bool {
    exists|q: int|
        0 <= q < p && is_same_file(items[order[p] as int], items[#[trigger] order[q] as int])
}

fn first_of_files(items: &[MediaItem], order: &[usize]) -> (kept: Vec<usize>)
    requires
        order@.no_duplicates(),
        forall|p: int| 0 <= p < order@.len() ==> (#[trigger] order@[p]) < items@.len(),
    ensures
        kept@.no_duplicates(),
        forall|x: usize| #[trigger] kept@.contains(x) <==> exists|p: int|
            0 <= p < order@.len() && #[trigger] order@[p] == x && !seen_before(items@, order@, p),
{
    broadcast use vstd::std_specs::hash::group_hash_axioms;

    let mut kept: Vec<usize> = Vec::new();
    let mut files: HashSet<u128> = HashSet::new();
    let mut p: usize = 0;
    while p < order.len()
        invariant
            p <= order.len(),
            order@.no_duplicates(),
            vstd::std_specs::hash::obeys_key_model::<u128>(),
            vstd::std_specs::hash::builds_valid_hashers::<std::hash::RandomState>(),
            forall|q: int| 0 <= q < order@.len() ==> (#[trigger] order@[q]) < items@.len(),
            kept@.no_duplicates(),
            forall|x: usize| #[trigger] kept@.contains(x) <==> exists|q: int|
                0 <= q < p && #[trigger] order@[q] == x && !seen_before(items@, order@, q),
            forall|key: u128| #[trigger] files@.contains(key) <==> exists|q: int|
                0 <= q < p && items@[#[trigger] order@[q] as int].inode != 0 && file_key(
                    items@[order@[q] as int],
                ) == key,
        decreases order.len() - p,
    {
        let i: usize = order[p];
        assert(order@[p as int] == i);
        let item = &items[i];
        let ghost before = kept@;
        let ghost known = files@;
        let fresh = if item.inode == 0 {
            true
        } else {
            files.insert(key_of(item))
        };
        proof {
            assert(fresh == !seen_before(items@, order@, p as int)) by {
                if item.inode != 0 {
                    if known.contains(file_key(*item)) {
                        let q = choose|q: int|
                            0 <= q < p && items@[#[trigger] order@[q] as int].inode != 0
                                && file_key(items@[order@[q] as int]) == file_key(*item);
                        lemma_file_key(items@[order@[q] as int], *item);
                        assert(is_same_file(*item, items@[order@[q] as int]));
                    }
                    if seen_before(items@, order@, p as int) {
                        let q = choose|q: int|
                            0 <= q < p && is_same_file(*item, items@[#[trigger] order@[q] as int]);
                        lemma_file_key(items@[order@[q] as int], *item);
                        assert(known.contains(file_key(*item)));
                    }
                }
            }
            assert forall|key: u128| #[trigger] files@.contains(key) <==> exists|q: int|
                0 <= q < p + 1 && items@[#[trigger] order@[q] as int].inode != 0 && file_key(
                    items@[order@[q] as int],
                ) == key by {
                if files@.contains(key) {
                    if known.contains(key) {
                        let q = choose|q: int|
                            0 <= q < p && items@[#[trigger] order@[q] as int].inode != 0
                                && file_key(items@[order@[q] as int]) == key;
                        assert(0 <= q < p + 1);
                    } else {
                        assert(items@[order@[p as int] as int].inode != 0);
                    }
                }
                if exists|q: int|
                    0 <= q < p + 1 && items@[#[trigger] order@[q] as int].inode != 0 && file_key(
                        items@[order@[q] as int],
                    ) == key {
                    let q = choose|q: int|
                        0 <= q < p + 1 && items@[#[trigger] order@[q] as int].inode != 0
                            && file_key(items@[order@[q] as int]) == key;
                    if q < p {
                        assert(known.contains(key));
                    }
                }
            }
        }
        if fresh {
            kept.push(i);
        }
        proof {
            lemma_push_contains(before, i);
            assert(!before.contains(i)) by {
                if before.contains(i) {
                    let q = choose|q: int|
                        0 <= q < p && #[trigger] order@[q] == i && !seen_before(items@, order@, q);
                    assert(order@[q] == order@[p as int]);
                }
            }
            assert forall|x: usize| #[trigger] kept@.contains(x) <==> exists|q: int|
                0 <= q < p + 1 && #[trigger] order@[q] == x && !seen_before(items@, order@, q) by {
                if kept@.contains(x) {
                    if before.contains(x) {
                        let q = choose|q: int|
                            0 <= q < p && #[trigger] order@[q] == x && !seen_before(
                                items@,
                                order@,
                                q,
                            );
                        assert(0 <= q < p + 1);
                    } else {
                        assert(order@[p as int] == x);
                    }
                }
                if exists|q: int|
                    0 <= q < p + 1 && #[trigger] order@[q] == x && !seen_before(
                        items@,
                        order@,
                        q,
                    ) {
                    let q = choose|q: int|
                        0 <= q < p + 1 && #[trigger] order@[q] == x && !seen_before(
                            items@,
                            order@,
                            q,
                        );
                    if q < p {
                        assert(before.contains(x));
                    }
                }
            }
        }
        p += 1;
    }
    kept
}

/// Among selected titles in the order of their identifiers, the first of each
/// file are the shown ones.
proof fn lemma_first_is_shown(
    items: Seq<MediaItem>,
    filter: MediaFilter,
    query: Seq<char>,
    order: Seq<usize>,
    p: int,
)
    requires
        items.len() <= usize::MAX,
        distinct_ids(items),
        is_choice(items, filter, query, order),
        forall|i: int, j: int|
            0 <= i < j < order.len() ==> items[order[i] as int].detail_id <= items[
            order[j] as int].detail_id,
        0 <= p < order.len(),
    ensures
        is_shown(items, filter, query, order[p] as int) <==> !seen_before(items, order, p),
{
    let x = order[p] as int;
    assert(order.contains(order[p]));
    if seen_before(items, order, p) {
        let q = choose|q: int|
            0 <= q < p && is_same_file(items[x], items[#[trigger] order[q] as int]);
        let y = order[q] as int;
        assert(order.contains(order[q]));
        assert(items[y].detail_id <= items[x].detail_id);
        assert(x != y);
        if x < y {
            assert(items[x].detail_id != items[y].detail_id);
        } else {
            assert(items[y].detail_id != items[x].detail_id);
        }
        if is_shown(items, filter, query, x) {
            assert(is_selected(items[y], filter, query));
            assert(items[x].detail_id <= items[y].detail_id);
        }
    } else {
        assert forall|j: int|
            0 <= j < items.len() && is_selected(#[trigger] items[j], filter, query) && is_same_file(
                items[x],
                items[j],
            ) implies items[x].detail_id <= items[j].detail_id by {
            assert(order.contains(j as usize));
            let q = choose|q: int| 0 <= q < order.len() && order[q] == j as usize;
            if q < p {
                assert(is_same_file(items[x], items[order[q] as int]));
            }
        }
    }
}

/// The page of the library from `offset` on, and how many titles are shown in
/// all.
pub fn memory_web_page(
    items: &[MediaItem],
    filter: MediaFilter,
    query: &str,
    sort: Sort,
    offset: usize,
    limit: usize,
) -> (result: (Vec<usize>, usize))
    requires
        distinct_ids(items@),
    ensures
        exists|all: Seq<usize>|
            {
                &&& #[trigger] is_listing(items@, filter, query@, sort, all)
                &&& result.0@ == page_of(all, offset as int, limit as int)
                &&& result.1 == all.len()
            },
{
    let chosen = choose_items(items, filter, query);
    let by_id = IdOrder { items };
    proof {
        assert forall|i: int| 0 <= i < chosen@.len() implies by_id.knows(#[trigger] chosen@[i]) by {
            assert(chosen@.contains(chosen@[i]));
        }
    }
    let order = ordered(&by_id, &chosen);
    proof {
        lemma_same_multiset(order@, chosen@);
        assert forall|p: int| 0 <= p < order@.len() implies (#[trigger] order@[p])
            < items@.len() by {
            assert(order@.contains(order@[p]));
        }
        assert(is_choice(items@, filter, query@, order@));
        assert forall|i: int, j: int| 0 <= i < j < order@.len() implies items@[
            order@[i] as int
        ].detail_id <= items@[order@[j] as int].detail_id by {
            assert(by_id.at_most(order@[i], order@[j]));
        }
    }
    let kept = first_of_files(items, &order);
    assert(items.len() <= usize::MAX);
    let by_title = TitleOrder { items, sort };
    proof {
        assert forall|x: usize| #[trigger] kept@.contains(x) <==> is_shown(
            items@,
            filter,
            query@,
            x as int,
        ) by {
            if kept@.contains(x) {
                let p = choose|p: int|
                    0 <= p < order@.len() && #[trigger] order@[p] == x && !seen_before(
                        items@,
                        order@,
                        p,
                    );
                lemma_first_is_shown(items@, filter, query@, order@, p);
            }
            if is_shown(items@, filter, query@, x as int) {
                assert(order@.contains(x));
                let p = choose|p: int| 0 <= p < order@.len() && order@[p] == x;
                lemma_first_is_shown(items@, filter, query@, order@, p);
            }
        }
        assert forall|i: int| 0 <= i < kept@.len() implies by_title.knows(#[trigger] kept@[i]) by {
            assert(kept@.contains(kept@[i]));
        }
    }
    let all = ordered(&by_title, &kept);
    proof {
        lemma_same_multiset(all@, kept@);
        assert forall|i: int, j: int| 0 <= i < j < all@.len() implies sorts_before(
            sort,
            items@[all@[i] as int],
            items@[all@[j] as int],
        ) by {
            assert(by_title.at_most(all@[i], all@[j]));
        }
        assert(is_listing(items@, filter, query@, sort, all@));
    }
    let total: usize = all.len();
    let page = page_slice(&all, offset, limit);
    (page, total)
}

/// At most `limit` of the numbers from index `offset` on.
pub fn page_slice(all: &[usize], offset: usize, limit: usize) -> (page: Vec<usize>)
    ensures
        page@ == page_of(all@, offset as int, limit as int),
{
    let total: usize = all.len();
    if offset >= total {
        return Vec::new();
    }
    let end: usize = if limit >= total - offset {
        total
    } else {
        offset + limit
    };
    let page = slice_to_vec(slice_subrange(all, offset, end));
    assert(page@ =~= page_of(all@, offset as int, limit as int));
    page
}

/// Whether there is more behind a page.
pub fn more_follows(total: usize, offset: usize, shown: usize) -> (result: bool)
    ensures
        result == has_more(total as int, offset as int, shown as int),
{
    offset.saturating_add(shown) < total
}

// -------------------------------------------------------------------- laws

/// The title that sorts first both ways is the same.
proof fn lemma_sorts_antisymmetric(sort: Sort, a: MediaItem, b: MediaItem)
    requires
        sorts_before(sort, a, b),
        sorts_before(sort, b, a),
    ensures
        a.detail_id == b.detail_id,
{
    match sort {
        Sort::Title => {
            lemma_text_antisymmetric(a.title_key@, b.title_key@);
        },
        Sort::DateDescending => {
            lemma_text_antisymmetric(a.date@, b.date@);
        },
        Sort::Episode => {},
    }
}

proof fn lemma_listings_agree(
    items: Seq<MediaItem>,
    sort: Sort,
    a: Seq<usize>,
    b: Seq<usize>,
)
    requires
        distinct_ids(items),
        a.no_duplicates(),
        b.no_duplicates(),
        forall|x: usize| #[trigger] a.contains(x) <==> b.contains(x),
        forall|x: usize| #[trigger] a.contains(x) ==> x < items.len(),
        forall|i: int, j: int|
            0 <= i < j < a.len() ==> sorts_before(sort, items[a[i] as int], items[a[j] as int]),
        forall|i: int, j: int|
            0 <= i < j < b.len() ==> sorts_before(sort, items[b[i] as int], items[b[j] as int]),
    ensures
        a == b,
    decreases a.len(),
{
    if a.len() == 0 {
        if b.len() > 0 {
            assert(b.contains(b[0]));
            assert(a.contains(b[0]));
        }
        assert(a =~= b);
    } else {
        assert(a.contains(a[0]));
        assert(b.contains(a[0]));
        let k = choose|k: int| 0 <= k < b.len() && b[k] == a[0];
        assert(b.contains(b[0]));
        assert(a.contains(b[0]));
        let m = choose|m: int| 0 <= m < a.len() && a[m] == b[0];
        if k != 0 {
            assert(sorts_before(sort, items[b[0] as int], items[b[k] as int]));
            assert(m != 0);
            assert(sorts_before(sort, items[a[0] as int], items[a[m] as int]));
            lemma_sorts_antisymmetric(sort, items[a[0] as int], items[b[0] as int]);
            let x = a[0] as int;
            let y = b[0] as int;
            assert(x != y);
            if x < y {
                assert(items[x].detail_id != items[y].detail_id);
            } else {
                assert(items[y].detail_id != items[x].detail_id);
            }
        }
        let p = a.skip(1);
        let q = b.skip(1);
        lemma_tail(a);
        lemma_tail(b);
        assert forall|i: int, j: int| 0 <= i < j < p.len() implies sorts_before(
            sort,
            items[p[i] as int],
            items[p[j] as int],
        ) by {
            assert(p[i] == a[i + 1] && p[j] == a[j + 1]);
        }
        assert forall|i: int, j: int| 0 <= i < j < q.len() implies sorts_before(
            sort,
            items[q[i] as int],
            items[q[j] as int],
        ) by {
            assert(q[i] == b[i + 1] && q[j] == b[j + 1]);
        }
        assert forall|x: usize| #[trigger] p.contains(x) <==> q.contains(x) by {
            assert(p.contains(x) <==> a.contains(x) && x != a[0]);
            assert(q.contains(x) <==> b.contains(x) && x != b[0]);
        }
        assert forall|x: usize| #[trigger] p.contains(x) implies x < items.len() by {
            assert(a.contains(x));
        }
        lemma_listings_agree(items, sort, p, q);
        assert(a =~= seq![a[0]] + p);
        assert(b =~= seq![b[0]] + q);
    }
}

proof fn lemma_tail(a: Seq<usize>)
    requires
        a.len() > 0,
        a.no_duplicates(),
    ensures
        a.skip(1).no_duplicates(),
        forall|x: usize| #[trigger] a.skip(1).contains(x) <==> a.contains(x) && x != a[0],
{
    let p = a.skip(1);
    assert forall|x: usize| #[trigger] p.contains(x) <==> a.contains(x) && x != a[0] by {
        if p.contains(x) {
            let k = choose|k: int| 0 <= k < p.len() && p[k] == x;
            assert(a[k + 1] == x);
        }
        if a.contains(x) && x != a[0] {
            let k = choose|k: int| 0 <= k < a.len() && a[k] == x;
            assert(p[k - 1] == x);
        }
    }
}

/// There is only one ordered list of the titles that a filter and a query show.
pub proof fn law_listing_is_unique(
    items: Seq<MediaItem>,
    filter: MediaFilter,
    query: Seq<char>,
    sort: Sort,
    a: Seq<usize>,
    b: Seq<usize>,
)
    requires
        distinct_ids(items),
        is_listing(items, filter, query, sort, a),
        is_listing(items, filter, query, sort, b),
    ensures
        a == b,
{
    lemma_listings_agree(items, sort, a, b);
}

/// No two shown titles are the same file.
pub proof fn law_files_are_shown_once(
    items: Seq<MediaItem>,
    filter: MediaFilter,
    query: Seq<char>,
    i: int,
    j: int,
)
    requires
        distinct_ids(items),
        is_shown(items, filter, query, i),
        is_shown(items, filter, query, j),
        is_same_file(items[i], items[j]),
    ensures
        i == j,
{
    assert(items[i].detail_id <= items[j].detail_id);
    assert(items[j].detail_id <= items[i].detail_id);
    if i < j {
        assert(items[i].detail_id != items[j].detail_id);
    } else if j < i {
        assert(items[j].detail_id != items[i].detail_id);
    }
}

/// Pages of a size, one behind the other, give the whole list: a page and what
/// follows it are the rest of the list, and there is more exactly as long as the
/// rest is not empty.
pub proof fn law_pages_cover_the_list<T>(all: Seq<T>, offset: int, limit: int)
    requires
        0 <= offset <= all.len(),
        0 < limit,
    ensures
        ({
            let page = page_of(all, offset, limit);
            &&& all.skip(offset) == page + all.skip(offset + page.len())
            &&& page.len() <= limit
            &&& has_more(all.len() as int, offset, page.len() as int) <==> all.skip(
                offset + page.len(),
            ).len() > 0
            &&& has_more(all.len() as int, offset, page.len() as int) ==> page.len() == limit
        }),
{
    let page = page_of(all, offset, limit);
    assert(all.skip(offset) =~= page + all.skip(offset + page.len()));
}

/// The first `count` pages of a size, one behind the other.
pub open spec fn pages_in_turn<T>(all: Seq<T>, limit: int, count: int) -> Seq<T>
    decreases count,
{
    if count <= 0 {
        Seq::empty()
    } else {
        pages_in_turn(all, limit, count - 1) + page_of(all, (count - 1) * limit, limit)
    }
}

proof fn lemma_pages_in_turn<T>(all: Seq<T>, limit: int, count: int)
    requires
        0 < limit,
        0 <= count,
        count > 0 ==> (count - 1) * limit < all.len(),
    ensures
        pages_in_turn(all, limit, count) == if count * limit <= all.len() {
            all.take(count * limit)
        } else {
            all
        },
    decreases count,
{
    if count > 0 {
        assert((count - 1) * limit + limit == count * limit && (count - 1) * limit >= 0
            && (count >= 2 ==> (count - 2) * limit < (count - 1) * limit)) by (nonlinear_arith)
            requires
                0 < limit,
                0 < count,
        ;
        lemma_pages_in_turn(all, limit, count - 1);
        let before = (count - 1) * limit;
        let page = page_of(all, before, limit);
        if count * limit <= all.len() {
            assert(all.take(before) + page =~= all.take(count * limit));
        } else {
            assert(all.take(before) + page =~= all);
        }
    } else {
        assert(0 * limit == 0) by (nonlinear_arith);
        assert(all.take(0) =~= Seq::<T>::empty());
    }
}

/// The pages of a size, from the start to the one that reaches the end of the
/// list, are the whole list, and only the last of them has nothing behind it.
pub proof fn law_pages_in_turn_are_the_list<T>(all: Seq<T>, limit: int, count: int)
    requires
        0 < limit,
        0 < count,
        (count - 1) * limit < all.len() <= count * limit,
    ensures
        pages_in_turn(all, limit, count) == all,
        forall|k: int|
            0 <= k < count ==> (has_more(
                all.len() as int,
                k * limit,
                (#[trigger] page_of(all, k * limit, limit)).len() as int,
            ) <==> k < count - 1),
{
    lemma_pages_in_turn(all, limit, count);
    if count * limit == all.len() {
        assert(all.take(count * limit) =~= all);
    }
    assert forall|k: int| 0 <= k < count implies (has_more(
        all.len() as int,
        k * limit,
        (#[trigger] page_of(all, k * limit, limit)).len() as int,
    ) <==> k < count - 1) by {
        assert(0 <= k * limit && (k < count - 1 ==> k * limit + limit <= (count - 1) * limit)
            && (k == count - 1 ==> k * limit + limit == count * limit)) by (nonlinear_arith)
            requires
                0 < limit,
                0 <= k < count,
        ;
    }
}

} // verus!
