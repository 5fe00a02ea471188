//! Folder lists that are kept between requests: bounded, and owned by one
//! generation of the catalog. Only identifiers are kept; what a page shows of a
//! title is read for that page.
use crate::encoding::utf8_len;
use crate::query::same_text;
use std::collections::VecDeque;
use std::sync::Arc;
use vstd::layout::size_of;
use vstd::prelude::*;

verus! {

/// How many lists are kept.
pub const MAX_PROJECTIONS: usize = 8;

/// How many bytes the kept lists may take.
pub const MAX_PROJECTION_BYTES: usize = 33_554_432;

/// How many child counts are kept.
pub const MAX_CHILD_COUNTS: usize = 1024;

/// How many bytes the kept child counts may take.
pub const MAX_CHILD_COUNT_BYTES: usize = 524_288;

/// `Arc::clone` gives another handle of the same value.
#[verifier::external_body]
fn share<T>(value: &Arc<T>) -> (handle: Arc<T>)
    ensures
        handle == *value,
{
    Arc::clone(value)
}

/// `String::capacity` gives how many bytes a string has room for, which is at
/// least as many as it holds. What the allocator gave beyond that is not stated.
#[verifier::external_body]
pub(crate) fn capacity_of(text: &String) -> (bytes: usize)
    ensures
        bytes >= utf8_len(text@),
{
    text.capacity()
}

/// What is listed of one folder, under one query, in one generation.
pub struct Projection {
    generation: u32,
    folder: String,
    query: String,
    ids: Arc<Vec<String>>,
    bytes: usize,
}

/// How many entries a folder has, in one generation.
pub struct ChildCount {
    generation: u32,
    folder: String,
    count: usize,
    bytes: usize,
}

/// What a kept list is.
pub struct Page {
    pub generation: u32,
    pub folder: Seq<char>,
    pub query: Seq<char>,
    pub ids: Seq<String>,
    pub bytes: usize,
}

/// What a kept child count is.
pub struct Count {
    pub generation: u32,
    pub folder: Seq<char>,
    pub count: usize,
    pub bytes: usize,
}

impl Projection {
    pub closed spec fn kept(self) -> Page {
        Page {
            generation: self.generation,
            folder: self.folder@,
            query: self.query@,
            ids: self.ids@,
            bytes: self.bytes,
        }
    }
}

impl ChildCount {
    pub closed spec fn kept(self) -> Count {
        Count {
            generation: self.generation,
            folder: self.folder@,
            count: self.count,
            bytes: self.bytes,
        }
    }
}

/// Whether a list answers to a key.
pub open spec fn is_page(page: Page, generation: u32, folder: Seq<char>, query: Seq<char>) -> bool {
    page.generation == generation && page.folder == folder && page.query == query
}

/// The first index from `from` on of a list with that key.
pub open spec fn page_at(
    pages: Seq<Page>,
    generation: u32,
    folder: Seq<char>,
    query: Seq<char>,
    from: int,
) -> Option<int>
    decreases pages.len() - from,
{
    if from < 0 || from >= pages.len() {
        None
    } else if is_page(pages[from], generation, folder, query) {
        Some(from)
    } else {
        page_at(pages, generation, folder, query, from + 1)
    }
}

/// The first index from `from` on of a child count with that key.
pub open spec fn count_at(counts: Seq<Count>, generation: u32, folder: Seq<char>, from: int) -> Option<
    int,
>
    decreases counts.len() - from,
{
    if from < 0 || from >= counts.len() {
        None
    } else if counts[from].generation == generation && counts[from].folder == folder {
        Some(from)
    } else {
        count_at(counts, generation, folder, from + 1)
    }
}

/// The bytes that lists take.
pub open spec fn page_bytes(pages: Seq<Page>) -> nat
    decreases pages.len(),
{
    if pages.len() == 0 {
        0
    } else {
        pages[0].bytes as nat + page_bytes(pages.skip(1))
    }
}

/// The bytes that child counts take.
pub open spec fn count_bytes(counts: Seq<Count>) -> nat
    decreases counts.len(),
{
    if counts.len() == 0 {
        0
    } else {
        counts[0].bytes as nat + count_bytes(counts.skip(1))
    }
}

/// How many lists, from the one that was used longest ago on, leave for a new
/// one of that size.
pub open spec fn evicted_pages(pages: Seq<Page>, bytes: nat) -> nat
    decreases pages.len(),
{
    if pages.len() > 0 && (pages.len() >= MAX_PROJECTIONS || page_bytes(pages) + bytes
        > MAX_PROJECTION_BYTES) {
        1 + evicted_pages(pages.skip(1), bytes)
    } else {
        0
    }
}

/// How many child counts, oldest first, leave for a new one of that size.
pub open spec fn evicted_counts(counts: Seq<Count>, bytes: nat) -> nat
    decreases counts.len(),
{
    if counts.len() > 0 && (counts.len() >= MAX_CHILD_COUNTS || count_bytes(counts) + bytes
        > MAX_CHILD_COUNT_BYTES) {
        1 + evicted_counts(counts.skip(1), bytes)
    } else {
        0
    }
}

/// The lists after one more is to be kept: it is the one used last where it is
/// kept already, is not kept where it is larger than all may be, and else takes
/// the place of those used longest ago.
pub open spec fn pages_after(pages: Seq<Page>, page: Page) -> Seq<Page> {
    match page_at(pages, page.generation, page.folder, page.query, 0) {
        Some(i) => touched(pages, i),
        None => if page.bytes > MAX_PROJECTION_BYTES {
            pages
        } else {
            pages.skip(evicted_pages(pages, page.bytes as nat) as int).push(page)
        },
    }
}

/// The lists that leave for one more.
pub open spec fn leaving_pages(pages: Seq<Page>, page: Page) -> Seq<Page> {
    if page_at(pages, page.generation, page.folder, page.query, 0) is Some || page.bytes
        > MAX_PROJECTION_BYTES {
        Seq::empty()
    } else {
        pages.take(evicted_pages(pages, page.bytes as nat) as int)
    }
}

/// Whether a child count is not taken in: it is larger than all may be, or kept
/// already.
pub open spec fn is_passed_over(counts: Seq<Count>, count: Count) -> bool {
    count.bytes > MAX_CHILD_COUNT_BYTES || count_at(counts, count.generation, count.folder, 0) is Some
}

/// The child counts after the first `n` more are to be kept, one after the other.
pub open spec fn counts_after(counts: Seq<Count>, more: Seq<Count>, n: int) -> Seq<Count>
    decreases n,
{
    if n <= 0 {
        counts
    } else {
        let before = counts_after(counts, more, n - 1);
        let count = more[n - 1];
        if is_passed_over(before, count) {
            before
        } else {
            before.skip(evicted_counts(before, count.bytes as nat) as int).push(count)
        }
    }
}

/// The child counts that leave for the first `n` more.
pub open spec fn leaving_counts(counts: Seq<Count>, more: Seq<Count>, n: int) -> Seq<Count>
    decreases n,
{
    if n <= 0 {
        Seq::empty()
    } else {
        let before = counts_after(counts, more, n - 1);
        let count = more[n - 1];
        leaving_counts(counts, more, n - 1) + if is_passed_over(before, count) {
            Seq::empty()
        } else {
            before.take(evicted_counts(before, count.bytes as nat) as int)
        }
    }
}

/// The lists with the one at `i` as the one used last.
pub open spec fn touched(pages: Seq<Page>, i: int) -> Seq<Page> {
    pages.remove(i).push(pages[i])
}

/// No two lists have the same key.
pub open spec fn distinct_pages(pages: Seq<Page>) -> bool {
    forall|i: int, j: int|
        0 <= i < j < pages.len() ==> !is_page(
            #[trigger] pages[i],
            (#[trigger] pages[j]).generation,
            pages[j].folder,
            pages[j].query,
        )
}

/// No two child counts have the same key.
pub open spec fn distinct_counts(counts: Seq<Count>) -> bool {
    forall|i: int, j: int|
        0 <= i < j < counts.len() ==> !((#[trigger] counts[i]).generation == (
        #[trigger] counts[j]).generation && counts[i].folder == counts[j].folder)
}

proof fn lemma_page_bytes_push(pages: Seq<Page>, page: Page)
    ensures
        page_bytes(pages.push(page)) == page_bytes(pages) + page.bytes,
    decreases pages.len(),
{
    if pages.len() > 0 {
        assert(pages.push(page).skip(1) =~= pages.skip(1).push(page));
        lemma_page_bytes_push(pages.skip(1), page);
    } else {
        reveal_with_fuel(page_bytes, 2);
        assert(pages.push(page).skip(1) =~= Seq::<Page>::empty());
    }
}

proof fn lemma_page_bytes_remove(pages: Seq<Page>, i: int)
    requires
        0 <= i < pages.len(),
    ensures
        page_bytes(pages.remove(i)) + pages[i].bytes == page_bytes(pages),
    decreases pages.len(),
{
    if i == 0 {
        assert(pages.remove(0) =~= pages.skip(1));
    } else {
        assert(pages.remove(i).skip(1) =~= pages.skip(1).remove(i - 1));
        lemma_page_bytes_remove(pages.skip(1), i - 1);
    }
}

proof fn lemma_count_bytes_push(counts: Seq<Count>, count: Count)
    ensures
        count_bytes(counts.push(count)) == count_bytes(counts) + count.bytes,
    decreases counts.len(),
{
    if counts.len() > 0 {
        assert(counts.push(count).skip(1) =~= counts.skip(1).push(count));
        lemma_count_bytes_push(counts.skip(1), count);
    } else {
        reveal_with_fuel(count_bytes, 2);
        assert(counts.push(count).skip(1) =~= Seq::<Count>::empty());
    }
}

proof fn lemma_page_at(pages: Seq<Page>, generation: u32, folder: Seq<char>, query: Seq<char>, from: int)
    requires
        0 <= from,
    ensures
        match page_at(pages, generation, folder, query, from) {
            Some(i) => from <= i < pages.len() && is_page(pages[i], generation, folder, query),
            None => forall|j: int|
                from <= j < pages.len() ==> !is_page(
                    #[trigger] pages[j],
                    generation,
                    folder,
                    query,
                ),
        },
    decreases pages.len() - from,
{
    if from < pages.len() && !is_page(pages[from], generation, folder, query) {
        lemma_page_at(pages, generation, folder, query, from + 1);
    }
}

proof fn lemma_count_at(counts: Seq<Count>, generation: u32, folder: Seq<char>, from: int)
    requires
        0 <= from,
    ensures
        match count_at(counts, generation, folder, from) {
            Some(i) => from <= i < counts.len() && counts[i].generation == generation
                && counts[i].folder == folder,
            None => forall|j: int|
                from <= j < counts.len() ==> !((#[trigger] counts[j]).generation == generation
                    && counts[j].folder == folder),
        },
    decreases counts.len() - from,
{
    if from < counts.len() && !(counts[from].generation == generation && counts[from].folder
        == folder) {
        lemma_count_at(counts, generation, folder, from + 1);
    }
}

proof fn lemma_evicted_pages(pages: Seq<Page>, bytes: nat)
    requires
        bytes <= MAX_PROJECTION_BYTES,
    ensures
        ({
            let k = evicted_pages(pages, bytes) as int;
            &&& k <= pages.len()
            &&& pages.skip(k).len() < MAX_PROJECTIONS
            &&& page_bytes(pages.skip(k)) + bytes <= MAX_PROJECTION_BYTES
        }),
    decreases pages.len(),
{
    if pages.len() > 0 && (pages.len() >= MAX_PROJECTIONS || page_bytes(pages) + bytes
        > MAX_PROJECTION_BYTES) {
        lemma_evicted_pages(pages.skip(1), bytes);
        let k = evicted_pages(pages.skip(1), bytes) as int;
        assert(pages.skip(1).skip(k) =~= pages.skip(1 + k));
    } else {
        assert(pages.skip(0) =~= pages);
    }
}

proof fn lemma_evicted_counts(counts: Seq<Count>, bytes: nat)
    requires
        bytes <= MAX_CHILD_COUNT_BYTES,
    ensures
        ({
            let k = evicted_counts(counts, bytes) as int;
            &&& k <= counts.len()
            &&& counts.skip(k).len() < MAX_CHILD_COUNTS
            &&& count_bytes(counts.skip(k)) + bytes <= MAX_CHILD_COUNT_BYTES
        }),
    decreases counts.len(),
{
    if counts.len() > 0 && (counts.len() >= MAX_CHILD_COUNTS || count_bytes(counts) + bytes
        > MAX_CHILD_COUNT_BYTES) {
        lemma_evicted_counts(counts.skip(1), bytes);
        let k = evicted_counts(counts.skip(1), bytes) as int;
        assert(counts.skip(1).skip(k) =~= counts.skip(1 + k));
    } else {
        assert(counts.skip(0) =~= counts);
    }
}

/// What a child count is charged: its own size, and what the folder's identifier
/// has room for.
fn count_charge(folder: &String) -> (bytes: usize)
    ensures
        bytes == usize::MAX || size_of::<ChildCount>() + utf8_len(folder@) <= bytes,
{
    core::mem::size_of::<ChildCount>().saturating_add(capacity_of(folder))
}

/// A child count that is to be kept, at a charge.
pub struct NewCount {
    pub folder: String,
    pub count: usize,
    pub bytes: usize,
}

impl NewCount {
    /// A child count at the charge of what it takes in memory. That charge counts
    /// the room the identifier was given, which is the allocator's choice: only
    /// what it comes to at least is stated.
    pub fn new(folder: String, count: usize) -> (result: NewCount)
        ensures
            result.folder@ == folder@,
            result.count == count,
            result.bytes == usize::MAX || size_of::<ChildCount>() + utf8_len(folder@)
                <= result.bytes,
    {
        let bytes: usize = count_charge(&folder);
        NewCount { folder, count, bytes }
    }
}

/// What child counts are, once they are kept.
pub open spec fn new_counts(generation: u32, more: Seq<NewCount>) -> Seq<Count> {
    more.map_values(
        |new: NewCount|
            Count { generation, folder: new.folder@, count: new.count, bytes: new.bytes },
    )
}

/// A list that is to be kept, at a charge.
pub struct NewList {
    pub folder: String,
    pub query: String,
    pub ids: Arc<Vec<String>>,
    pub bytes: usize,
}

impl NewList {
    /// What the list is, once it is kept.
    pub open spec fn listed(self, generation: u32) -> Page {
        Page {
            generation,
            folder: self.folder@,
            query: self.query@,
            ids: self.ids@,
            bytes: self.bytes,
        }
    }
}

/// Folder lists and child counts.
pub struct FolderProjectionCache {
    entries: VecDeque<Projection>,
    bytes: usize,
    child_counts: VecDeque<ChildCount>,
    child_count_bytes: usize,
    epoch: Arc<()>,
}

/// What kept lists are.
pub open spec fn pages_of(entries: Seq<Projection>) -> Seq<Page> {
    entries.map_values(|entry: Projection| entry.kept())
}

/// What kept child counts are.
pub open spec fn counts_of(entries: Seq<ChildCount>) -> Seq<Count> {
    entries.map_values(|entry: ChildCount| entry.kept())
}

impl FolderProjectionCache {
    /// The lists, the one used last at the end.
    pub closed spec fn pages(self) -> Seq<Page> {
        pages_of(self.entries@)
    }

    /// The child counts, the newest at the end.
    pub closed spec fn counts(self) -> Seq<Count> {
        counts_of(self.child_counts@)
    }

    /// The lists and the child counts are distinct and within their bounds, and
    /// their bytes are accounted for.
    pub closed spec fn wf(self) -> bool {
        &&& self.pages().len() <= MAX_PROJECTIONS
        &&& self.bytes == page_bytes(self.pages())
        &&& self.bytes <= MAX_PROJECTION_BYTES
        &&& distinct_pages(self.pages())
        &&& self.counts().len() <= MAX_CHILD_COUNTS
        &&& self.child_count_bytes == count_bytes(self.counts())
        &&& self.child_count_bytes <= MAX_CHILD_COUNT_BYTES
        &&& distinct_counts(self.counts())
    }

    /// What a well formed cache keeps to.
    pub proof fn law_bounds(self)
        requires
            self.wf(),
        ensures
            self.pages().len() <= MAX_PROJECTIONS,
            page_bytes(self.pages()) <= MAX_PROJECTION_BYTES,
            distinct_pages(self.pages()),
            self.counts().len() <= MAX_CHILD_COUNTS,
            count_bytes(self.counts()) <= MAX_CHILD_COUNT_BYTES,
            distinct_counts(self.counts()),
    {
    }

    fn position(&self, generation: u32, folder: &str, query: &str) -> (result: Option<usize>)
        ensures
            match result {
                Some(i) => page_at(self.pages(), generation, folder@, query@, 0) == Some(i as int)
                    && i < self.entries@.len(),
                None => page_at(self.pages(), generation, folder@, query@, 0) is None,
            },
    {
        let ghost all = self.pages();
        let mut i: usize = 0;
        while i < self.entries.len()
            invariant
                i <= self.entries@.len(),
                all == pages_of(self.entries@),
                all.len() == self.entries@.len(),
                page_at(all, generation, folder@, query@, 0) == page_at(
                    all,
                    generation,
                    folder@,
                    query@,
                    i as int,
                ),
            decreases self.entries@.len() - i,
        {
            assert(all[i as int] == self.entries@[i as int].kept());
            let entry = &self.entries[i];
            if entry.generation == generation && same_text(entry.folder.as_str(), folder)
                && same_text(entry.query.as_str(), query) {
                return Some(i);
            }
            i += 1;
        }
        None
    }

    /// The list of a folder under a query, which becomes the one used last.
    pub fn get(&mut self, generation: u32, folder: &str, query: &str) -> (result: Option<
        (Arc<Vec<String>>, usize),
    >)
        requires
            old(self).wf(),
        ensures
            final(self).wf(),
            final(self).counts() == old(self).counts(),
            match page_at(old(self).pages(), generation, folder@, query@, 0) {
                Some(i) => {
                    &&& result matches Some((ids, bytes)) && ids@ == old(self).pages()[i].ids
                        && bytes == old(self).pages()[i].bytes
                    &&& final(self).pages() == touched(old(self).pages(), i)
                },
                None => result is None && final(self).pages() == old(self).pages(),
            },
    {
        let ghost before = self.pages();
        let position = match self.position(generation, folder, query) {
            Some(position) => position,
            None => {
                return None;
            },
        };
        proof {
            lemma_page_at(before, generation, folder@, query@, 0);
        }
        let entry = match self.entries.remove(position) {
            Some(entry) => entry,
            None => {
                return None;
            },
        };
        let result = (share(&entry.ids), entry.bytes);
        let ghost removed = pages_of(self.entries@);
        let ghost kept = entry.kept();
        self.entries.push_back(entry);
        proof {
            let i = position as int;
            assert(removed =~= before.remove(i));
            assert(kept == before[i]);
            assert(self.pages() =~= touched(before, i));
            lemma_page_bytes_remove(before, i);
            lemma_page_bytes_push(before.remove(i), before[i]);
            let all = self.pages();
            assert forall|a: int, b: int| 0 <= a < b < all.len() implies !is_page(
                #[trigger] all[a],
                (#[trigger] all[b]).generation,
                all[b].folder,
                all[b].query,
            ) by {
                let x = if a < i {
                    a
                } else {
                    a + 1
                };
                assert(all[a] == before[x]);
                if b == all.len() - 1 {
                    assert(all[b] == before[i]);
                    if x < i {
                        assert(!is_page(
                            before[x],
                            before[i].generation,
                            before[i].folder,
                            before[i].query,
                        ));
                    } else {
                        assert(!is_page(
                            before[i],
                            before[x].generation,
                            before[x].folder,
                            before[x].query,
                        ));
                    }
                } else {
                    let y = if b < i {
                        b
                    } else {
                        b + 1
                    };
                    assert(all[b] == before[y]);
                }
            }
        }
        Some(result)
    }

    /// Keeps the list of a folder under a query, unless it is kept or larger than
    /// all lists together may be. What leaves for it is given back, so that the
    /// caller frees it where that holds nobody up.
    pub fn insert(
        &mut self,
        generation: u32,
        folder: &str,
        query: &str,
        ids: Arc<Vec<String>>,
        bytes: usize,
    ) -> (retired: Vec<Projection>)
        requires
            old(self).wf(),
        ensures
            final(self).wf(),
            final(self).counts() == old(self).counts(),
            match page_at(old(self).pages(), generation, folder@, query@, 0) {
                Some(i) => retired@.len() == 0 && final(self).pages() == touched(
                    old(self).pages(),
                    i,
                ),
                None => if bytes > MAX_PROJECTION_BYTES {
                    retired@.len() == 0 && final(self).pages() == old(self).pages()
                } else {
                    let k = evicted_pages(old(self).pages(), bytes as nat) as int;
                    let page = Page { generation, folder: folder@, query: query@, ids: ids@, bytes };
                    &&& pages_of(retired@) == old(self).pages().take(k)
                    &&& final(self).pages() == old(self).pages().skip(k).push(page)
                },
            },
    {
        let ghost before = self.pages();
        let mut retired: Vec<Projection> = Vec::new();
        if self.get(generation, folder, query).is_some() {
            return retired;
        }
        if bytes > MAX_PROJECTION_BYTES {
            return retired;
        }
        let ghost k = evicted_pages(before, bytes as nat) as int;
        proof {
            lemma_evicted_pages(before, bytes as nat);
            lemma_page_at(before, generation, folder@, query@, 0);
            assert(before.skip(0) =~= before);
            assert(pages_of(retired@) =~= before.take(0));
        }
        while self.entries.len() >= MAX_PROJECTIONS || self.bytes + bytes > MAX_PROJECTION_BYTES
            invariant
                bytes <= MAX_PROJECTION_BYTES,
                k == evicted_pages(before, bytes as nat),
                k <= before.len(),
                retired@.len() <= k,
                pages_of(retired@) == before.take(retired@.len() as int),
                self.pages() == before.skip(retired@.len() as int),
                self.pages().len() == self.entries@.len(),
                self.counts() == old(self).counts(),
                self.child_count_bytes == old(self).child_count_bytes,
                self.bytes == page_bytes(self.pages()),
                self.bytes <= MAX_PROJECTION_BYTES,
                k == retired@.len() + evicted_pages(self.pages(), bytes as nat),
            ensures
                self.entries@.len() < MAX_PROJECTIONS,
                self.bytes + bytes <= MAX_PROJECTION_BYTES,
            decreases self.entries@.len(),
        {
            let ghost pages = self.pages();
            let ghost count = retired@.len() as int;
            match self.entries.pop_front() {
                Some(entry) => {
                    proof {
                        assert(pages[0] == entry.kept());
                        assert(pages_of(self.entries@) =~= pages.skip(1));
                    }
                    self.bytes = self.bytes - entry.bytes;
                    let ghost leaving = entry.kept();
                    retired.push(entry);
                    proof {
                        assert(pages_of(retired@) =~= before.take(count).push(leaving));
                        assert(before.take(count + 1) =~= before.take(count).push(before[count]));
                        assert(self.pages() =~= before.skip(count + 1));
                    }
                },
                None => {
                    break;
                },
            }
        }
        self.bytes = self.bytes + bytes;
        let entry = Projection {
            generation,
            folder: folder.to_owned(),
            query: query.to_owned(),
            ids,
            bytes,
        };
        let ghost pages = self.pages();
        let ghost page = entry.kept();
        self.entries.push_back(entry);
        proof {
            assert(self.pages() =~= pages.push(page));
            lemma_page_bytes_push(pages, page);
            let all = self.pages();
            assert forall|a: int, b: int| 0 <= a < b < all.len() implies !is_page(
                #[trigger] all[a],
                (#[trigger] all[b]).generation,
                all[b].folder,
                all[b].query,
            ) by {
                assert(all[a] == before[a + k]);
                if b < all.len() - 1 {
                    assert(all[b] == before[b + k]);
                }
            }
        }
        retired
    }

    fn count_position(&self, generation: u32, folder: &str) -> (result: Option<usize>)
        ensures
            match result {
                Some(i) => count_at(self.counts(), generation, folder@, 0) == Some(i as int) && i
                    < self.child_counts@.len(),
                None => count_at(self.counts(), generation, folder@, 0) is None,
            },
    {
        let ghost all = self.counts();
        let mut i: usize = 0;
        while i < self.child_counts.len()
            invariant
                i <= self.child_counts@.len(),
                all == counts_of(self.child_counts@),
                all.len() == self.child_counts@.len(),
                count_at(all, generation, folder@, 0) == count_at(
                    all,
                    generation,
                    folder@,
                    i as int,
                ),
            decreases self.child_counts@.len() - i,
        {
            assert(all[i as int] == self.child_counts@[i as int].kept());
            let entry = &self.child_counts[i];
            if entry.generation == generation && same_text(entry.folder.as_str(), folder) {
                return Some(i);
            }
            i += 1;
        }
        None
    }

    /// How many entries a folder has, where that is kept.
    pub fn child_count(&self, generation: u32, folder: &str) -> (result: Option<usize>)
        ensures
            result == match count_at(self.counts(), generation, folder@, 0) {
                Some(i) => Some(self.counts()[i].count),
                None => None,
            },
    {
        match self.count_position(generation, folder) {
            Some(i) => {
                assert(self.counts()[i as int] == self.child_counts@[i as int].kept());
                Some(self.child_counts[i].count)
            },
            None => None,
        }
    }

    /// Keeps how many entries a folder has, at a charge of `bytes`.
    pub fn insert_charged_child_count(
        &mut self,
        generation: u32,
        folder: String,
        count: usize,
        bytes: usize,
    ) -> (retired: Vec<ChildCount>)
        requires
            old(self).wf(),
        ensures
            final(self).wf(),
            final(self).pages() == old(self).pages(),
            if bytes > MAX_CHILD_COUNT_BYTES || count_at(
                old(self).counts(),
                generation,
                folder@,
                0,
            ) is Some {
                retired@.len() == 0 && final(self).counts() == old(self).counts()
            } else {
                let k = evicted_counts(old(self).counts(), bytes as nat) as int;
                let kept = Count { generation, folder: folder@, count, bytes };
                &&& counts_of(retired@) == old(self).counts().take(k)
                &&& final(self).counts() == old(self).counts().skip(k).push(kept)
            },
    {
        let ghost before = self.counts();
        let mut retired: Vec<ChildCount> = Vec::new();
        if bytes > MAX_CHILD_COUNT_BYTES || self.count_position(
            generation,
            folder.as_str(),
        ).is_some() {
            return retired;
        }
        let ghost k = evicted_counts(before, bytes as nat) as int;
        proof {
            lemma_evicted_counts(before, bytes as nat);
            lemma_count_at(before, generation, folder@, 0);
            assert(before.skip(0) =~= before);
            assert(counts_of(retired@) =~= before.take(0));
        }
        while self.child_counts.len() >= MAX_CHILD_COUNTS || self.child_count_bytes + bytes
            > MAX_CHILD_COUNT_BYTES
            invariant
                bytes <= MAX_CHILD_COUNT_BYTES,
                k == evicted_counts(before, bytes as nat),
                k <= before.len(),
                retired@.len() <= k,
                counts_of(retired@) == before.take(retired@.len() as int),
                self.counts() == before.skip(retired@.len() as int),
                self.counts().len() == self.child_counts@.len(),
                self.pages() == old(self).pages(),
                self.bytes == old(self).bytes,
                self.child_count_bytes == count_bytes(self.counts()),
                self.child_count_bytes <= MAX_CHILD_COUNT_BYTES,
                k == retired@.len() + evicted_counts(self.counts(), bytes as nat),
            ensures
                self.child_counts@.len() < MAX_CHILD_COUNTS,
                self.child_count_bytes + bytes <= MAX_CHILD_COUNT_BYTES,
            decreases self.child_counts@.len(),
        {
            let ghost counts = self.counts();
            let ghost done = retired@.len() as int;
            match self.child_counts.pop_front() {
                Some(entry) => {
                    proof {
                        assert(counts[0] == entry.kept());
                        assert(counts_of(self.child_counts@) =~= counts.skip(1));
                    }
                    self.child_count_bytes = self.child_count_bytes - entry.bytes;
                    let ghost leaving = entry.kept();
                    retired.push(entry);
                    proof {
                        assert(counts_of(retired@) =~= before.take(done).push(leaving));
                        assert(before.take(done + 1) =~= before.take(done).push(before[done]));
                        assert(self.counts() =~= before.skip(done + 1));
                    }
                },
                None => {
                    break;
                },
            }
        }
        self.child_count_bytes = self.child_count_bytes + bytes;
        let entry = ChildCount { generation, folder, count, bytes };
        let ghost counts = self.counts();
        let ghost kept = entry.kept();
        self.child_counts.push_back(entry);
        proof {
            assert(self.counts() =~= counts.push(kept));
            lemma_count_bytes_push(counts, kept);
            let all = self.counts();
            assert forall|a: int, b: int| 0 <= a < b < all.len() implies !((
            #[trigger] all[a]).generation == (#[trigger] all[b]).generation && all[a].folder
                == all[b].folder) by {
                assert(all[a] == before[a + k]);
                if b < all.len() - 1 {
                    assert(all[b] == before[b + k]);
                }
            }
        }
        retired
    }

    /// Keeps how many entries a folder has, at the charge of what it takes in
    /// memory. That charge counts the room the folder's identifier was given, which
    /// is the allocator's choice: only what it comes to at least is stated.
    pub fn insert_child_count(&mut self, generation: u32, folder: String, count: usize) -> (retired:
        Vec<ChildCount>)
        requires
            old(self).wf(),
        ensures
            final(self).wf(),
            final(self).pages() == old(self).pages(),
            count_at(old(self).counts(), generation, folder@, 0) is Some ==> retired@.len() == 0
                && final(self).counts() == old(self).counts(),
            count_at(old(self).counts(), generation, folder@, 0) is None ==> exists|bytes: usize|
                #![trigger evicted_counts(old(self).counts(), bytes as nat)]
                {
                    let k = evicted_counts(old(self).counts(), bytes as nat) as int;
                    let kept = Count { generation, folder: folder@, count, bytes };
                    &&& bytes == usize::MAX || size_of::<ChildCount>() + utf8_len(folder@) <= bytes
                    &&& if bytes > MAX_CHILD_COUNT_BYTES {
                        retired@.len() == 0 && final(self).counts() == old(self).counts()
                    } else {
                        &&& counts_of(retired@) == old(self).counts().take(k)
                        &&& final(self).counts() == old(self).counts().skip(k).push(kept)
                    }
                },
    {
        let bytes: usize = count_charge(&folder);
        let ghost k = evicted_counts(self.counts(), bytes as nat);
        self.insert_charged_child_count(generation, folder, count, bytes)
    }

    /// Keeps a list, and child counts one after the other. What leaves for them is
    /// given back, so that the caller frees it where that holds nobody up.
    pub fn keep(&mut self, generation: u32, list: NewList, more: Vec<NewCount>) -> (retired: (
        Vec<Projection>,
        Vec<ChildCount>,
    ))
        requires
            old(self).wf(),
        ensures
            final(self).wf(),
            final(self).pages() == pages_after(old(self).pages(), list.listed(generation)),
            pages_of(retired.0@) == leaving_pages(old(self).pages(), list.listed(generation)),
            final(self).counts() == counts_after(
                old(self).counts(),
                new_counts(generation, more@),
                more@.len() as int,
            ),
            counts_of(retired.1@) == leaving_counts(
                old(self).counts(),
                new_counts(generation, more@),
                more@.len() as int,
            ),
    {
        let ghost page = list.listed(generation);
        let ghost news = new_counts(generation, more@);
        let retired = self.insert(
            generation,
            list.folder.as_str(),
            list.query.as_str(),
            list.ids,
            list.bytes,
        );
        proof {
            assert(pages_of(retired@) =~= leaving_pages(old(self).pages(), page));
        }
        let ghost counts = self.counts();
        let ghost pages = self.pages();
        let ghost all = more@;
        let ghost mut done: int = 0;
        let mut rest = more;
        let mut retired_counts: Vec<ChildCount> = Vec::new();
        proof {
            assert(counts_of(retired_counts@) =~= leaving_counts(counts, news, 0));
            assert(all.skip(0) =~= all);
        }
        while rest.len() > 0
            invariant
                0 <= done <= all.len(),
                rest@ == all.skip(done),
                news == new_counts(generation, all),
                news.len() == all.len(),
                self.wf(),
                self.pages() == pages,
                self.counts() == counts_after(counts, news, done),
                counts_of(retired_counts@) == leaving_counts(counts, news, done),
            decreases rest@.len(),
        {
            let ghost before = self.counts();
            let ghost gone = retired_counts@;
            let new = rest.remove(0);
            proof {
                assert(all[done] == new);
                assert(news[done] == (Count {
                    generation,
                    folder: new.folder@,
                    count: new.count,
                    bytes: new.bytes,
                }));
                assert(rest@ =~= all.skip(done + 1));
            }
            let mut leaving = self.insert_charged_child_count(
                generation,
                new.folder,
                new.count,
                new.bytes,
            );
            let ghost left = leaving@;
            retired_counts.append(&mut leaving);
            proof {
                assert(counts_of(retired_counts@) =~= counts_of(gone) + counts_of(left));
                if is_passed_over(before, news[done]) {
                    assert(counts_of(left) =~= Seq::<Count>::empty());
                }
                done = done + 1;
            }
        }
        (retired, retired_counts)
    }

    /// How many lists are kept.
    pub fn len(&self) -> (n: usize)
        ensures
            n == self.pages().len(),
    {
        self.entries.len()
    }

    /// How many bytes the kept lists take.
    pub fn bytes(&self) -> (n: usize)
        requires
            self.wf(),
        ensures
            n == page_bytes(self.pages()),
    {
        self.bytes
    }

    /// How many child counts are kept.
    pub fn child_counts_len(&self) -> (n: usize)
        ensures
            n == self.counts().len(),
    {
        self.child_counts.len()
    }

    /// How many bytes the kept child counts take.
    pub fn child_count_bytes(&self) -> (n: usize)
        requires
            self.wf(),
        ensures
            n == count_bytes(self.counts()),
    {
        self.child_count_bytes
    }

    /// A handle whose identity is that of this cache. A cache that replaces it has
    /// another, also when the number of the catalog's generation comes round
    /// again. Which allocation a handle refers to is no part of its value, so
    /// nothing is stated of it.
    pub fn epoch(&self) -> (epoch: Arc<()>) {
        share(&self.epoch)
    }
}

impl Default for FolderProjectionCache {
    fn default() -> (cache: FolderProjectionCache)
        ensures
            cache.wf(),
            cache.pages() == Seq::<Page>::empty(),
            cache.counts() == Seq::<Count>::empty(),
    {
        let cache = FolderProjectionCache {
            entries: VecDeque::new(),
            bytes: 0,
            child_counts: VecDeque::new(),
            child_count_bytes: 0,
            epoch: Arc::new(()),
        };
        proof {
            assert(cache.pages() =~= Seq::<Page>::empty());
            assert(cache.counts() =~= Seq::<Count>::empty());
        }
        cache
    }
}


// -------------------------------------------------------------------- laws

proof fn lemma_page_at_end(
    pages: Seq<Page>,
    generation: u32,
    folder: Seq<char>,
    query: Seq<char>,
    from: int,
)
    requires
        0 <= from < pages.len(),
        is_page(pages.last(), generation, folder, query),
        forall|j: int|
            from <= j < pages.len() - 1 ==> !is_page(
                #[trigger] pages[j],
                generation,
                folder,
                query,
            ),
    ensures
        page_at(pages, generation, folder, query, from) == Some(pages.len() - 1),
    decreases pages.len() - from,
{
    if from < pages.len() - 1 {
        lemma_page_at_end(pages, generation, folder, query, from + 1);
    }
}

/// A list that was just kept is found under its key.
pub proof fn law_kept_list_is_found(pages: Seq<Page>, page: Page)
    requires
        page.bytes <= MAX_PROJECTION_BYTES,
        page_at(pages, page.generation, page.folder, page.query, 0) is None,
    ensures
        ({
            let k = evicted_pages(pages, page.bytes as nat) as int;
            let after = pages.skip(k).push(page);
            page_at(after, page.generation, page.folder, page.query, 0) == Some(after.len() - 1)
                && after[after.len() - 1] == page
        }),
{
    let k = evicted_pages(pages, page.bytes as nat) as int;
    let after = pages.skip(k).push(page);
    lemma_evicted_pages(pages, page.bytes as nat);
    lemma_page_at(pages, page.generation, page.folder, page.query, 0);
    assert forall|j: int| 0 <= j < after.len() - 1 implies !is_page(
        #[trigger] after[j],
        page.generation,
        page.folder,
        page.query,
    ) by {
        assert(after[j] == pages[j + k]);
    }
    lemma_page_at_end(after, page.generation, page.folder, page.query, 0);
}

/// What is found was kept under exactly the generation, folder and query that
/// were asked for.
pub proof fn law_found_list_has_the_key(
    pages: Seq<Page>,
    generation: u32,
    folder: Seq<char>,
    query: Seq<char>,
)
    ensures
        page_at(pages, generation, folder, query, 0) matches Some(i) ==> 0 <= i < pages.len()
            && is_page(pages[i], generation, folder, query),
{
    lemma_page_at(pages, generation, folder, query, 0);
}

/// The list that was used last is the last to leave: where there is room for it
/// beside the new one, it stays.
pub proof fn law_last_used_stays(pages: Seq<Page>, bytes: nat)
    requires
        pages.len() >= 1,
        pages.last().bytes + bytes <= MAX_PROJECTION_BYTES,
    ensures
        evicted_pages(pages, bytes) < pages.len(),
    decreases pages.len(),
{
    if pages.len() == 1 {
        reveal_with_fuel(page_bytes, 2);
        assert(pages.skip(1) =~= Seq::<Page>::empty());
        assert(page_bytes(pages) == pages[0].bytes);
    } else {
        assert(pages.skip(1).last() == pages.last());
        law_last_used_stays(pages.skip(1), bytes);
    }
}

} // verus!
