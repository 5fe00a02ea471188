//! What is kept between requests.
use crate::budget::{check_items, times, ProjectionStopped, QueryLimits, WorkBudget};
use crate::folder::{charge_keys, projection_charge, sum_of, EntryKey};
use crate::http::{with_header, HttpResponse};
use crate::encoding::utf8_len;
use crate::catalog::MediaItem;
use crate::projection::{
    count_at, count_bytes, counts_of, evicted_counts, evicted_pages, law_found_list_has_the_key,
    law_kept_list_is_found, page_at, page_bytes, pages_of, ChildCount, Count,
    FolderProjectionCache, NewCount, NewList, Page, Projection,
};
use crate::scan::keep_page;
use crate::text::lowered;
use crate::title::offer_download;
use std::sync::Arc;
use vstd::prelude::*;

verus! {

// --------------------------------------------------------------------- lists

/// Whether no list is kept of that folder and query.
pub open spec fn is_not_kept(
    pages: Seq<Page>,
    generation: u32,
    folder: Seq<char>,
    query: Seq<char>,
) -> bool {
    forall|i: int|
        0 <= i < pages.len() ==> !((#[trigger] pages[i]).generation == generation && pages[i].folder
            == folder && pages[i].query == query)
}

proof fn lemma_not_kept(
    pages: Seq<Page>,
    generation: u32,
    folder: Seq<char>,
    query: Seq<char>,
)
    ensures
        is_not_kept(pages, generation, folder, query) <==> page_at(
            pages,
            generation,
            folder,
            query,
            0,
        ) is None,
{
    law_found_list_has_the_key(pages, generation, folder, query);
    if page_at(pages, generation, folder, query, 0) is None {
        lemma_none(pages, generation, folder, query, 0);
    }
}

proof fn lemma_none(
    pages: Seq<Page>,
    generation: u32,
    folder: Seq<char>,
    query: Seq<char>,
    from: int,
)
    requires
        0 <= from,
        page_at(pages, generation, folder, query, from) is None,
    ensures
        forall|i: int|
            from <= i < pages.len() ==> !((#[trigger] pages[i]).generation == generation
                && pages[i].folder == folder && pages[i].query == query),
    decreases pages.len() - from,
{
    if from < pages.len() {
        lemma_none(pages, generation, folder, query, from + 1);
    }
}

/// A list that is kept is given back as it was kept, under the generation, the
/// folder and the query that it was kept for.
pub proof fn law_a_kept_list_is_given_back(
    cache: &mut FolderProjectionCache,
    generation: u32,
    folder: &str,
    query: &str,
    ids: Arc<Vec<String>>,
    bytes: usize,
    retired: Vec<Projection>,
    later: &mut FolderProjectionCache,
    result: Option<(Arc<Vec<String>>, usize)>,
)
    requires
        call_ensures(
            FolderProjectionCache::insert,
            (cache, generation, folder, query, ids, bytes),
            retired,
        ),
        call_ensures(FolderProjectionCache::get, (later, generation, folder, query), result),
        later.pages() == final(cache).pages(),
        is_not_kept(cache.pages(), generation, folder@, query@),
        bytes <= 33_554_432,
    ensures
        result matches Some((given, charge)) && given@ == ids@ && charge == bytes,
{
    lemma_not_kept(cache.pages(), generation, folder@, query@);
    law_kept_list_is_found(
        cache.pages(),
        Page { generation, folder: folder@, query: query@, ids: ids@, bytes },
    );
}

/// What was not kept under exactly that generation, folder and query is not given
/// back, and looking for it changes nothing.
pub proof fn law_nothing_else_is_given_back(
    cache: &mut FolderProjectionCache,
    generation: u32,
    folder: &str,
    query: &str,
    result: Option<(Arc<Vec<String>>, usize)>,
)
    requires
        call_ensures(FolderProjectionCache::get, (cache, generation, folder, query), result),
    ensures
        result is None <==> is_not_kept(old(cache).pages(), generation, folder@, query@),
        result is None ==> final(cache).pages() == old(cache).pages(),
        result matches Some((given, _)) ==> exists|i: int|
            {
                &&& 0 <= i < old(cache).pages().len()
                &&& (#[trigger] old(cache).pages()[i]).generation == generation
                &&& old(cache).pages()[i].folder == folder@
                &&& old(cache).pages()[i].query == query@
                &&& given@ == old(cache).pages()[i].ids
            },
        final(cache).counts() == old(cache).counts(),
        final(cache).pages().len() == old(cache).pages().len(),
{
    let pages = old(cache).pages();
    lemma_not_kept(pages, generation, folder@, query@);
    law_found_list_has_the_key(pages, generation, folder@, query@);
    if let Some(i) = page_at(pages, generation, folder@, query@, 0) {
        assert(pages[i].generation == generation);
    }
}

/// A list that is too large to keep is not kept, and nothing leaves for it.
pub proof fn law_large_lists_are_not_kept(
    cache: &mut FolderProjectionCache,
    generation: u32,
    folder: &str,
    query: &str,
    ids: Arc<Vec<String>>,
    bytes: usize,
    retired: Vec<Projection>,
)
    requires
        call_ensures(
            FolderProjectionCache::insert,
            (cache, generation, folder, query, ids, bytes),
            retired,
        ),
        is_not_kept(cache.pages(), generation, folder@, query@),
        bytes > 33_554_432,
    ensures
        final(cache).pages() == old(cache).pages(),
        retired@.len() == 0,
{
    lemma_not_kept(cache.pages(), generation, folder@, query@);
}

/// How many bytes lists are charged with.
pub open spec fn charge_of(pages: Seq<Page>) -> nat
    decreases pages.len(),
{
    if pages.len() == 0 {
        0
    } else {
        pages[0].bytes as nat + charge_of(pages.skip(1))
    }
}

/// Whether one more list of that size can stand beside others.
pub open spec fn has_room(pages: Seq<Page>, bytes: nat) -> bool {
    pages.len() < 8 && charge_of(pages) + bytes <= 33_554_432
}

proof fn lemma_charge(pages: Seq<Page>)
    ensures
        charge_of(pages) == page_bytes(pages),
    decreases pages.len(),
{
    if pages.len() > 0 {
        lemma_charge(pages.skip(1));
    }
}

proof fn lemma_leaving(pages: Seq<Page>, bytes: nat)
    requires
        bytes <= 33_554_432,
    ensures
        ({
            let n = evicted_pages(pages, bytes) as int;
            &&& n <= pages.len()
            &&& has_room(pages.skip(n), bytes)
            &&& forall|m: int| 0 <= m < n ==> !has_room(#[trigger] pages.skip(m), bytes)
        }),
    decreases pages.len(),
{
    let n = evicted_pages(pages, bytes) as int;
    lemma_charge(pages);
    assert(pages.skip(0) =~= pages);
    if n > 0 {
        let rest = pages.skip(1);
        lemma_leaving(rest, bytes);
        assert(rest.skip(n - 1) =~= pages.skip(n));
        assert forall|m: int| 0 <= m < n implies !has_room(#[trigger] pages.skip(m), bytes) by {
            if m > 0 {
                assert(rest.skip(m - 1) =~= pages.skip(m));
                assert(!has_room(rest.skip(m - 1), bytes));
            }
        }
    }
}

/// One more list is the one used last. For it those leave that were used longest
/// ago, and no more of them than have to; they are given back in order.
pub proof fn law_lists_used_longest_ago_leave(
    cache: &mut FolderProjectionCache,
    generation: u32,
    folder: &str,
    query: &str,
    ids: Arc<Vec<String>>,
    bytes: usize,
    retired: Vec<Projection>,
)
    requires
        call_ensures(
            FolderProjectionCache::insert,
            (cache, generation, folder, query, ids, bytes),
            retired,
        ),
        is_not_kept(cache.pages(), generation, folder@, query@),
        bytes <= 33_554_432,
    ensures
        ({
            let (pages, n) = (old(cache).pages(), retired@.len() as int);
            let after = final(cache).pages();
            &&& n <= pages.len()
            &&& after.len() == pages.len() - n + 1
            &&& forall|i: int| 0 <= i < n ==> (#[trigger] retired@[i]).kept() == pages[i]
            &&& forall|i: int| n <= i < pages.len() ==> #[trigger] pages[i] == after[i - n]
            &&& after.last().generation == generation && after.last().folder == folder@
            &&& after.last().query == query@ && after.last().ids == ids@
            &&& after.last().bytes == bytes
            &&& has_room(pages.skip(n), bytes as nat)
            &&& forall|m: int| 0 <= m < n ==> !has_room(#[trigger] pages.skip(m), bytes as nat)
        }),
{
    let pages = old(cache).pages();
    lemma_not_kept(pages, generation, folder@, query@);
    lemma_leaving(pages, bytes as nat);
    let n = evicted_pages(pages, bytes as nat) as int;
    assert(pages_of(retired@).len() == retired@.len());
    assert forall|i: int| 0 <= i < n implies (#[trigger] retired@[i]).kept() == pages[i] by {
        assert(pages_of(retired@)[i] == pages.take(n)[i]);
    }
}

/// A list that is found is the one used last from then on; the others keep their
/// order.
pub proof fn law_lists_that_are_found_stay(
    cache: &mut FolderProjectionCache,
    generation: u32,
    folder: &str,
    query: &str,
    result: Option<(Arc<Vec<String>>, usize)>,
    k: int,
)
    requires
        call_ensures(FolderProjectionCache::get, (cache, generation, folder, query), result),
        0 <= k < cache.pages().len(),
        cache.pages()[k].generation == generation,
        cache.pages()[k].folder == folder@,
        cache.pages()[k].query == query@,
        is_not_kept(cache.pages().take(k), generation, folder@, query@),
    ensures
        ({
            let (before, after) = (old(cache).pages(), final(cache).pages());
            &&& after.len() == before.len()
            &&& after.last() == before[k]
            &&& forall|i: int| 0 <= i < k ==> #[trigger] after[i] == before[i]
            &&& forall|i: int| k < i < before.len() ==> #[trigger] before[i] == after[i - 1]
        }),
{
    lemma_found_at(cache.pages(), generation, folder@, query@, 0, k);
}

proof fn lemma_found_at(
    pages: Seq<Page>,
    generation: u32,
    folder: Seq<char>,
    query: Seq<char>,
    from: int,
    k: int,
)
    requires
        0 <= from <= k < pages.len(),
        pages[k].generation == generation,
        pages[k].folder == folder,
        pages[k].query == query,
        is_not_kept(pages.take(k), generation, folder, query),
    ensures
        page_at(pages, generation, folder, query, from) == Some(k),
    decreases k - from,
{
    if from < k {
        assert(pages.take(k)[from] == pages[from]);
        lemma_found_at(pages, generation, folder, query, from + 1, k);
    }
}

/// How many bytes child counts are charged with.
pub open spec fn charge_of_counts(counts: Seq<Count>) -> nat
    decreases counts.len(),
{
    if counts.len() == 0 {
        0
    } else {
        counts[0].bytes as nat + charge_of_counts(counts.skip(1))
    }
}

/// Whether one more child count of that size can stand beside others.
pub open spec fn has_room_for_count(counts: Seq<Count>, bytes: nat) -> bool {
    counts.len() < 1024 && charge_of_counts(counts) + bytes <= 524_288
}

proof fn lemma_charge_of_counts(counts: Seq<Count>)
    ensures
        charge_of_counts(counts) == count_bytes(counts),
    decreases counts.len(),
{
    if counts.len() > 0 {
        lemma_charge_of_counts(counts.skip(1));
    }
}

proof fn lemma_leaving_counts(counts: Seq<Count>, bytes: nat)
    requires
        bytes <= 524_288,
    ensures
        ({
            let n = evicted_counts(counts, bytes) as int;
            &&& n <= counts.len()
            &&& has_room_for_count(counts.skip(n), bytes)
            &&& forall|m: int| 0 <= m < n ==> !has_room_for_count(#[trigger] counts.skip(m), bytes)
        }),
    decreases counts.len(),
{
    let n = evicted_counts(counts, bytes) as int;
    lemma_charge_of_counts(counts);
    assert(counts.skip(0) =~= counts);
    if n > 0 {
        let rest = counts.skip(1);
        lemma_leaving_counts(rest, bytes);
        assert(rest.skip(n - 1) =~= counts.skip(n));
        assert forall|m: int| 0 <= m < n implies !has_room_for_count(
            #[trigger] counts.skip(m),
            bytes,
        ) by {
            if m > 0 {
                assert(rest.skip(m - 1) =~= counts.skip(m));
                assert(!has_room_for_count(rest.skip(m - 1), bytes));
            }
        }
    }
}

/// For one more child count those leave that came first, and no more of them than
/// have to; they are given back in order.
pub proof fn law_the_oldest_counts_leave(
    cache: &mut FolderProjectionCache,
    generation: u32,
    folder: String,
    count: usize,
    bytes: usize,
    retired: Vec<ChildCount>,
)
    requires
        call_ensures(
            FolderProjectionCache::insert_charged_child_count,
            (cache, generation, folder, count, bytes),
            retired,
        ),
        forall|i: int|
            0 <= i < cache.counts().len() ==> !((#[trigger] cache.counts()[i]).generation
                == generation && cache.counts()[i].folder == folder@),
        bytes <= 524_288,
    ensures
        ({
            let (counts, n) = (old(cache).counts(), retired@.len() as int);
            let after = final(cache).counts();
            &&& n <= counts.len()
            &&& after.len() == counts.len() - n + 1
            &&& forall|i: int| 0 <= i < n ==> (#[trigger] retired@[i]).kept() == counts[i]
            &&& forall|i: int| n <= i < counts.len() ==> #[trigger] counts[i] == after[i - n]
            &&& after.last() == (Count { generation, folder: folder@, count, bytes })
            &&& has_room_for_count(counts.skip(n), bytes as nat)
            &&& forall|m: int|
                0 <= m < n ==> !has_room_for_count(#[trigger] counts.skip(m), bytes as nat)
        }),
{
    let counts = old(cache).counts();
    lemma_no_count(counts, generation, folder@, 0);
    lemma_leaving_counts(counts, bytes as nat);
    let n = evicted_counts(counts, bytes as nat) as int;
    assert(counts_of(retired@).len() == retired@.len());
    assert forall|i: int| 0 <= i < n implies (#[trigger] retired@[i]).kept() == counts[i] by {
        assert(counts_of(retired@)[i] == counts.take(n)[i]);
    }
}

proof fn lemma_no_count(counts: Seq<Count>, generation: u32, folder: Seq<char>, from: int)
    requires
        0 <= from,
        forall|i: int|
            0 <= i < counts.len() ==> !((#[trigger] counts[i]).generation == generation
                && counts[i].folder == folder),
    ensures
        count_at(counts, generation, folder, from) is None,
    decreases counts.len() - from,
{
    if from < counts.len() {
        lemma_no_count(counts, generation, folder, from + 1);
    }
}

proof fn lemma_count_end(counts: Seq<Count>, generation: u32, folder: Seq<char>, from: int)
    requires
        0 <= from < counts.len(),
        counts.last().generation == generation && counts.last().folder == folder,
        forall|j: int|
            from <= j < counts.len() - 1 ==> !((#[trigger] counts[j]).generation == generation
                && counts[j].folder == folder),
    ensures
        count_at(counts, generation, folder, from) == Some(counts.len() - 1),
    decreases counts.len() - from,
{
    if from < counts.len() - 1 {
        assert(!(counts[from].generation == generation && counts[from].folder == folder));
        lemma_count_end(counts, generation, folder, from + 1);
    }
}

proof fn lemma_count_none(counts: Seq<Count>, generation: u32, folder: Seq<char>, from: int)
    requires
        0 <= from,
        count_at(counts, generation, folder, from) is None,
    ensures
        forall|j: int|
            from <= j < counts.len() ==> !((#[trigger] counts[j]).generation == generation
                && counts[j].folder == folder),
    decreases counts.len() - from,
{
    if from < counts.len() {
        lemma_count_none(counts, generation, folder, from + 1);
    }
}

proof fn lemma_evicted(counts: Seq<Count>, bytes: nat)
    ensures
        evicted_counts(counts, bytes) <= counts.len(),
    decreases counts.len(),
{
    if counts.len() > 0 {
        lemma_evicted(counts.skip(1), bytes);
    }
}

/// A count that is kept is given back, for the folder and the generation that it
/// was kept for; one that was known stays as it was.
pub proof fn law_a_kept_count_is_given_back(
    cache: &mut FolderProjectionCache,
    generation: u32,
    folder: String,
    name: &str,
    count: usize,
    bytes: usize,
    retired: Vec<ChildCount>,
    before: Option<usize>,
    later: &FolderProjectionCache,
    after: Option<usize>,
)
    requires
        call_ensures(
            FolderProjectionCache::insert_charged_child_count,
            (cache, generation, folder, count, bytes),
            retired,
        ),
        name@ == folder@,
        call_ensures(FolderProjectionCache::child_count, (&*old(cache), generation, name), before),
        later.counts() == final(cache).counts(),
        call_ensures(FolderProjectionCache::child_count, (later, generation, name), after),
        bytes <= 524_288,
    ensures
        before is None ==> after == Some(count),
        before is Some ==> after == before,
{
    let counts = old(cache).counts();
    if count_at(counts, generation, folder@, 0) is None {
        let k = evicted_counts(counts, bytes as nat) as int;
        let kept = Count { generation, folder: folder@, count, bytes };
        let all = counts.skip(k).push(kept);
        lemma_evicted(counts, bytes as nat);
        lemma_count_none(counts, generation, folder@, 0);
        assert forall|j: int| 0 <= j < all.len() - 1 implies !((#[trigger] all[j]).generation
            == generation && all[j].folder == folder@) by {
            assert(all[j] == counts[j + k]);
        }
        lemma_count_end(all, generation, folder@, 0);
    }
}

/// A page of a catalog that changed while it was read leaves everything as it was;
/// one of the current catalog can be given back.
pub proof fn law_pages_are_kept_of_the_current_catalog(
    cache: &mut FolderProjectionCache,
    read: u32,
    current: u32,
    same_epoch: bool,
    in_time: bool,
    list: NewList,
    counts: Vec<NewCount>,
    result: Result<(Vec<Projection>, Vec<ChildCount>), ProjectionStopped>,
    folder: &str,
    query: &str,
    later: &mut FolderProjectionCache,
    found: Option<(Arc<Vec<String>>, usize)>,
)
    requires
        call_ensures(
            keep_page,
            (cache, read, current, same_epoch, in_time, list, counts),
            result,
        ),
        folder@ == list.folder@,
        query@ == list.query@,
        call_ensures(FolderProjectionCache::get, (later, read, folder, query), found),
        later.pages() == final(cache).pages(),
        is_not_kept(cache.pages(), read, folder@, query@),
        list.bytes <= 33_554_432,
    ensures
        result is Ok <==> in_time && same_epoch && read == current,
        result is Err ==> found is None && final(cache).pages() == old(cache).pages()
            && final(cache).counts() == old(cache).counts(),
        result is Ok ==> (found matches Some((given, _)) && given@ == list.ids@),
{
    lemma_not_kept(cache.pages(), read, folder@, query@);
    law_kept_list_is_found(cache.pages(), list.listed(read));
}

// ------------------------------------------------------------------- budgets

/// Work is charged up to the limit and no further: what passes it is refused and
/// charges nothing.
pub proof fn law_work_is_charged_up_to_the_limit(
    budget: &mut WorkBudget,
    bytes: usize,
    result: Result<(), ProjectionStopped>,
)
    requires
        call_ensures(WorkBudget::charge, (budget, bytes), result),
        budget.spent + bytes <= usize::MAX,
    ensures
        result is Ok <==> old(budget).spent + bytes <= old(budget).limit,
        result is Ok ==> final(budget).spent == old(budget).spent + bytes,
        result is Err ==> *final(budget) == *old(budget) && result->Err_0
            == ProjectionStopped::Budget,
        final(budget).limit == old(budget).limit,
{
}

/// A key is charged what its title has room for and the bytes of its identifier,
/// and keys are charged one after the other.
pub proof fn law_keys_are_charged_one_by_one(
    keys: &[EntryKey],
    budget: &mut WorkBudget,
    result: Result<(), ProjectionStopped>,
)
    requires
        call_ensures(charge_keys, (keys, budget), result),
        keys@.len() == 1,
        budget.spent + keys@[0].room + utf8_len(keys@[0].id@) <= usize::MAX,
    ensures
        result is Ok <==> old(budget).spent + keys@[0].room + utf8_len(keys@[0].id@)
            <= old(budget).limit,
        result is Ok ==> final(budget).spent == old(budget).spent + keys@[0].room + utf8_len(
            keys@[0].id@,
        ),
        result is Err ==> *final(budget) == *old(budget),
{
    reveal_with_fuel(crate::folder::held_bytes, 2);
    let said = crate::folder::keys_said(keys@);
    let rooms = crate::folder::rooms_of(keys@);
    assert(said.len() == 1 && rooms.len() == 1);
    assert(said.drop_last() =~= Seq::<crate::folder::Key>::empty());
    assert(said.last().id == keys@[0].id@);
    assert(rooms.last() == keys@[0].room);
}

/// A folder of more children than a request may look at is refused.
pub proof fn law_requests_look_at_so_many(
    limits: QueryLimits,
    items: usize,
    result: Result<(), ProjectionStopped>,
    a: usize,
    b: usize,
    product: usize,
)
    requires
        call_ensures(check_items, (limits, items), result),
        call_ensures(times, (a, b), product),
    ensures
        result is Ok <==> items <= limits.items,
        result is Err ==> result->Err_0 == ProjectionStopped::Budget,
        a * b <= usize::MAX ==> product == a * b,
        a * b > usize::MAX ==> product == usize::MAX,
{
}

/// A list with one identifier more is charged for it: a fixed amount, and what it
/// has room for.
pub proof fn law_lists_are_charged_by_identifier(
    fixed: usize,
    folder: usize,
    query: usize,
    each: usize,
    capacities: &[usize],
    more: &[usize],
    capacity: usize,
    before: usize,
    after: usize,
)
    requires
        call_ensures(projection_charge, (fixed, folder, query, each, capacities), before),
        call_ensures(projection_charge, (fixed, folder, query, each, more), after),
        more@ == capacities@.push(capacity),
        after < usize::MAX,
    ensures
        after == before + each + capacity,
        capacities@.len() == 0 ==> before == fixed + folder + query,
{
    assert(more@.drop_last() =~= capacities@);
    let n = capacities@.len() as int;
    assert(each * (n + 1) == each * n + each && 0 <= each * n) by (nonlinear_arith)
        requires
            0 <= n,
            0 <= each,
    ;
    assert(sum_of(more@) == sum_of(capacities@) + capacity);
    if n == 0 {
        assert(each * 0 == 0) by (nonlinear_arith);
    }
}

// ------------------------------------------------------------------- headers

proof fn lemma_with_header(
    fields: Seq<(Seq<char>, Seq<char>)>,
    name: Seq<char>,
    value: Seq<char>,
)
    ensures
        exists|i: int|
            {
                &&& 0 <= i < with_header(fields, name, value).len()
                &&& lowered((#[trigger] with_header(fields, name, value)[i]).0) == lowered(name)
                &&& with_header(fields, name, value)[i].1 == value
            },
    decreases fields.len(),
{
    let all = with_header(fields, name, value);
    if fields.len() == 0 {
        assert(all[0] == (name, value));
    } else if lowered(fields[0].0) == lowered(name) {
        assert(all[0] == (fields[0].0, value));
    } else {
        let rest = fields.skip(1);
        lemma_with_header(rest, name, value);
        let tail = with_header(rest, name, value);
        let i = choose|i: int|
            0 <= i < tail.len() && lowered((#[trigger] tail[i]).0) == lowered(name) && tail[i].1
                == value;
        assert(all[i + 1] == tail[i]);
    }
}

/// A header that is set is there with its value; the rest of the answer stays.
pub proof fn law_headers_are_set(response: &mut HttpResponse, name: &str, value: &str, done: ())
    requires
        call_ensures(HttpResponse::set, (response, name, value), done),
    ensures
        exists|i: int|
            {
                &&& 0 <= i < final(response).fields().len()
                &&& lowered((#[trigger] final(response).fields()[i]).0) == lowered(name@)
                &&& final(response).fields()[i].1 == value@
            },
        final(response).status == old(response).status,
        final(response).body == old(response).body,
{
    lemma_with_header(old(response).fields(), name@, value@);
}

/// Only an answer with a file, or with a part of one, is offered for download; what
/// it holds does not change.
pub proof fn law_only_files_are_offered(response: &mut HttpResponse, item: &MediaItem, done: ())
    requires
        call_ensures(offer_download, (response, item), done),
    ensures
        final(response).status == old(response).status,
        final(response).body == old(response).body,
        old(response).status != 200 && old(response).status != 206 ==> final(response).fields()
            == old(response).fields(),
{
}

} // verus!
