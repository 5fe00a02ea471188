//! Reading a folder a batch at a time, while the catalog may change in between.
use crate::budget::{capped, check_items, times, ProjectionStopped, QueryLimits, WorkBudget};
use crate::folder::{
    are_rooms, batch_end, child_kinds, count_children, extend_keys, held_bytes, is_folder_listing,
    keys_said, kinds_of, law_batches_make_the_list, listed_keys, passes_limit, rooms_of,
    shown_children, sorted_ids, strings, ChildFact, ChildKind, EntryKey, FolderChild, Key,
    CHILDREN_PER_BATCH,
};
use crate::projection::{
    counts_after, counts_of, leaving_counts, leaving_pages, new_counts, pages_after, pages_of,
    ChildCount, FolderProjectionCache, NewCount, NewList, Projection,
};
use vstd::layout::size_of;
use vstd::prelude::*;

verus! {

/// The end of the batch that starts at `start`.
pub open spec fn end_of_batch(start: int, total: int) -> int {
    if start + CHILDREN_PER_BATCH <= total {
        start + CHILDREN_PER_BATCH
    } else {
        total
    }
}

/// The listing of a folder, as far as it was read.
pub struct FolderScan {
    generation: u32,
    total: usize,
    read: usize,
    query: String,
    keys: Vec<EntryKey>,
    budget: WorkBudget,
    children: Ghost<Seq<FolderChild>>,
}

/// What the keys of a folder are reckoned at before they are read.
pub open spec fn fixed_bytes(total: nat) -> usize {
    capped(total * size_of::<(u8, String, String)>())
}

/// What putting keys in order and handing out their identifiers takes besides.
pub open spec fn scratch_bytes(keys: nat) -> usize {
    capped(
        keys * capped((3 * size_of::<usize>() + 2 * size_of::<String>()) as nat) as nat,
    )
}

impl FolderScan {
    /// The generation of the catalog that is read.
    pub closed spec fn generation(self) -> u32 {
        self.generation
    }

    /// How many children the folder has.
    pub closed spec fn total(self) -> nat {
        self.total as nat
    }

    /// The query, in lower case.
    pub closed spec fn query(self) -> Seq<char> {
        self.query@
    }

    /// The children that were read.
    pub closed spec fn children(self) -> Seq<FolderChild> {
        self.children@
    }

    /// What is held, and the most that may be.
    pub closed spec fn budget(self) -> WorkBudget {
        self.budget
    }

    /// What the titles of the keys have room for.
    pub closed spec fn rooms(self) -> Seq<usize> {
        rooms_of(self.keys@)
    }

    /// The keys of the children that were read.
    pub open spec fn listed(self) -> Seq<Key> {
        listed_keys(self.children(), self.query(), self.children().len() as int)
    }

    /// Whether the keys are those of the children that were read.
    pub closed spec fn wf(self) -> bool {
        &&& self.read <= self.total
        &&& self.children@.len() == self.read
        &&& keys_said(self.keys@) == listed_keys(self.children@, self.query@, self.read as int)
        &&& are_rooms(rooms_of(self.keys@), keys_said(self.keys@))
        &&& self.budget.holds()
    }

    /// Starts to read a folder, unless it has more children than one request may
    /// look at or hold the keys of.
    pub fn new(generation: u32, total: usize, query: &str, limits: QueryLimits) -> (result: Result<
        FolderScan,
        ProjectionStopped,
    >)
        ensures
            match result {
                Ok(scan) => {
                    &&& total <= limits.items
                    &&& scan.wf()
                    &&& scan.generation() == generation
                    &&& scan.total() == total
                    &&& scan.query() == query@
                    &&& scan.children() == Seq::<FolderChild>::empty()
                    &&& scan.rooms() == Seq::<usize>::empty()
                    &&& scan.budget() == (WorkBudget {
                        spent: fixed_bytes(total as nat),
                        limit: limits.bytes,
                    })
                    &&& scan.budget().holds()
                },
                Err(stopped) => {
                    &&& stopped == ProjectionStopped::Budget
                    &&& total > limits.items || fixed_bytes(total as nat) > limits.bytes
                },
            },
    {
        match check_items(limits, total) {
            Ok(()) => {},
            Err(stopped) => {
                return Err(stopped);
            },
        }
        let mut budget = WorkBudget { spent: 0, limit: limits.bytes };
        match budget.charge(times(total, core::mem::size_of::<(u8, String, String)>())) {
            Ok(()) => {},
            Err(stopped) => {
                return Err(stopped);
            },
        }
        let keys: Vec<EntryKey> = Vec::new();
        proof {
            assert(keys_said(keys@) =~= listed_keys(Seq::<FolderChild>::empty(), query@, 0));
            assert(rooms_of(keys@) =~= Seq::<usize>::empty());
        }
        Ok(
            FolderScan {
                generation,
                total,
                read: 0,
                query: query.to_owned(),
                keys,
                budget,
                children: Ghost(Seq::empty()),
            },
        )
    }

    /// The range of children to read next, until all are read.
    pub fn next_batch(&self) -> (range: Option<(usize, usize)>)
        requires
            self.wf(),
        ensures
            match range {
                Some((start, end)) => {
                    &&& start == self.children().len() < self.total()
                    &&& end == end_of_batch(start as int, self.total() as int)
                },
                None => self.children().len() == self.total(),
            },
    {
        if self.read < self.total {
            Some((self.read, batch_end(self.read, self.total)))
        } else {
            None
        }
    }

    /// Takes in a batch that was read at a generation of the catalog, or nothing
    /// where the folder or its range is gone. `in_time` says whether the catalog
    /// could be read in the time that is left. Nothing but the next batch of the
    /// same generation is taken in, and only where its keys keep within the budget.
    /// What they are charged counts the room that titles were given, which is the
    /// allocator's choice: only what it comes to at least is stated.
    pub fn accept(
        &mut self,
        generation: u32,
        batch: Option<Vec<FolderChild>>,
        in_time: bool,
    ) -> (result: Result<(), ProjectionStopped>)
        requires
            old(self).wf(),
            old(self).children().len() < old(self).total(),
        ensures
            final(self).wf(),
            final(self).generation() == old(self).generation(),
            final(self).total() == old(self).total(),
            final(self).query() == old(self).query(),
            result is Err ==> {
                &&& final(self).children() == old(self).children()
                &&& final(self).rooms() == old(self).rooms()
                &&& final(self).budget() == old(self).budget()
            },
            ({
                let start = old(self).children().len() as int;
                let wanted = end_of_batch(start, old(self).total() as int) - start;
                let changed = generation != old(self).generation() || (batch matches Some(children)
                    ==> children@.len() != wanted);
                match result {
                    Ok(_) => {
                        let children = batch->0@;
                        let more = listed_keys(children, old(self).query(), wanted);
                        let rooms = final(self).rooms().skip(old(self).rooms().len() as int);
                        &&& in_time
                        &&& !changed
                        &&& final(self).children() == old(self).children() + children
                        &&& final(self).listed() == old(self).listed() + more
                        &&& final(self).rooms() == old(self).rooms() + rooms
                        &&& are_rooms(rooms, more)
                        &&& final(self).budget() == old(self).budget().after(
                            held_bytes(more, rooms),
                        )
                        &&& final(self).budget().holds()
                    },
                    Err(ProjectionStopped::Changed) => in_time && changed,
                    Err(ProjectionStopped::Budget) => !in_time || (!changed && passes_limit(
                        old(self).budget(),
                        batch->0@,
                        old(self).query(),
                    )),
                }
            }),
    {
        if !in_time {
            return Err(ProjectionStopped::Budget);
        }
        if generation != self.generation {
            return Err(ProjectionStopped::Changed);
        }
        let children = match batch {
            Some(children) => children,
            None => {
                return Err(ProjectionStopped::Changed);
            },
        };
        let end: usize = batch_end(self.read, self.total);
        if children.len() != end - self.read {
            return Err(ProjectionStopped::Changed);
        }
        let ghost before = self.children@;
        match extend_keys(
            &mut self.keys,
            children.as_slice(),
            self.query.as_str(),
            &mut self.budget,
        ) {
            Ok(()) => {},
            Err(stopped) => {
                return Err(stopped);
            },
        }
        proof {
            let n = children@.len() as int;
            law_batches_make_the_list(before, children@, self.query@, n);
        }
        self.read = end;
        self.children = Ghost(before + children@);
        Ok(())
    }

    /// The identifiers of the entries, in order, once all children are read, unless
    /// putting them in order passes the budget.
    pub fn finish(self) -> (result: Result<Vec<String>, ProjectionStopped>)
        requires
            self.wf(),
            self.children().len() == self.total(),
        ensures
            match result {
                Ok(ids) => {
                    &&& is_folder_listing(self.listed(), strings(ids@))
                    &&& self.budget().after(scratch_bytes(self.listed().len()) as nat).holds()
                },
                Err(stopped) => {
                    &&& stopped == ProjectionStopped::Budget
                    &&& !self.budget().after(scratch_bytes(self.listed().len()) as nat).holds()
                },
            },
    {
        let each: usize = times(3, core::mem::size_of::<usize>()).saturating_add(
            times(2, core::mem::size_of::<String>()),
        );
        let mut budget = self.budget;
        match budget.charge(times(self.keys.len(), each)) {
            Ok(()) => {},
            Err(stopped) => {
                return Err(stopped);
            },
        }
        Ok(sorted_ids(self.keys.as_slice()))
    }
}

/// The number of entries of a folder, as far as it was read.
pub struct FolderCount {
    generation: u32,
    total: usize,
    read: usize,
    count: usize,
    kinds: Ghost<Seq<ChildKind>>,
}

impl FolderCount {
    /// The generation of the catalog that is read.
    pub closed spec fn generation(self) -> u32 {
        self.generation
    }

    /// How many children the folder has.
    pub closed spec fn total(self) -> nat {
        self.total as nat
    }

    /// The kinds of the children that were read.
    pub closed spec fn kinds(self) -> Seq<ChildKind> {
        self.kinds@
    }

    /// Whether the count is that of the children that were read.
    pub closed spec fn wf(self) -> bool {
        &&& self.read <= self.total
        &&& self.kinds@.len() == self.read
        &&& self.count == shown_children(self.kinds@, self.read as int)
        &&& self.count <= self.read
    }

    /// Starts to count the entries of a folder, unless it has more children than
    /// one request may look at.
    pub fn new(generation: u32, total: usize, limits: QueryLimits) -> (result: Result<
        FolderCount,
        ProjectionStopped,
    >)
        ensures
            match result {
                Ok(counter) => {
                    &&& total <= limits.items
                    &&& counter.wf()
                    &&& counter.generation() == generation
                    &&& counter.total() == total
                    &&& counter.kinds() == Seq::<ChildKind>::empty()
                },
                Err(stopped) => stopped == ProjectionStopped::Budget && total > limits.items,
            },
    {
        match check_items(limits, total) {
            Ok(()) => Ok(
                FolderCount { generation, total, read: 0, count: 0, kinds: Ghost(Seq::empty()) },
            ),
            Err(stopped) => Err(stopped),
        }
    }

    /// The range of children to read next, until all are read.
    pub fn next_batch(&self) -> (range: Option<(usize, usize)>)
        requires
            self.wf(),
        ensures
            match range {
                Some((start, end)) => {
                    &&& start == self.kinds().len() < self.total()
                    &&& end == end_of_batch(start as int, self.total() as int)
                },
                None => self.kinds().len() == self.total(),
            },
    {
        if self.read < self.total {
            Some((self.read, batch_end(self.read, self.total)))
        } else {
            None
        }
    }

    /// Takes in a batch that was read at a generation of the catalog, or nothing
    /// where the folder or its range is gone. `in_time` says whether the catalog
    /// could be read in the time that is left.
    pub fn accept(
        &mut self,
        generation: u32,
        batch: Option<Vec<ChildFact>>,
        in_time: bool,
    ) -> (result: Result<(), ProjectionStopped>)
        requires
            old(self).wf(),
            old(self).kinds().len() < old(self).total(),
        ensures
            final(self).wf(),
            final(self).generation() == old(self).generation(),
            final(self).total() == old(self).total(),
            ({
                let start = old(self).kinds().len() as int;
                let wanted = end_of_batch(start, old(self).total() as int) - start;
                let changed = generation != old(self).generation() || (batch matches Some(facts)
                    ==> facts@.len() != wanted);
                match result {
                    Ok(_) => {
                        &&& in_time
                        &&& !changed
                        &&& final(self).kinds() == old(self).kinds() + kinds_of(batch->0@)
                    },
                    Err(ProjectionStopped::Changed) => in_time && changed,
                    Err(ProjectionStopped::Budget) => !in_time,
                }
            }),
            result is Err ==> *final(self) == *old(self),
    {
        if !in_time {
            return Err(ProjectionStopped::Budget);
        }
        if generation != self.generation {
            return Err(ProjectionStopped::Changed);
        }
        let facts = match batch {
            Some(facts) => facts,
            None => {
                return Err(ProjectionStopped::Changed);
            },
        };
        let end: usize = batch_end(self.read, self.total);
        if facts.len() != end - self.read {
            return Err(ProjectionStopped::Changed);
        }
        let kinds = child_kinds(facts.as_slice());
        let ghost before = self.kinds@;
        let more: usize = count_children(kinds.as_slice());
        proof {
            lemma_counted(before, kinds@, kinds@.len() as int);
        }
        self.count = self.count + more;
        self.read = end;
        self.kinds = Ghost(before + kinds@);
        Ok(())
    }

    /// How many entries the folder shows, once all children are read.
    pub fn finish(self) -> (count: usize)
        requires
            self.wf(),
            self.kinds().len() == self.total(),
        ensures
            count == shown_children(self.kinds(), self.total() as int),
    {
        self.count
    }
}

proof fn lemma_counted(first: Seq<ChildKind>, second: Seq<ChildKind>, n: int)
    requires
        0 <= n <= second.len(),
    ensures
        shown_children(first + second, first.len() + n) == shown_children(
            first,
            first.len() as int,
        ) + shown_children(second, n),
    decreases n,
{
    if n == 0 {
        lemma_counted_prefix(first, second, first.len() as int);
    } else {
        lemma_counted(first, second, n - 1);
        assert((first + second)[first.len() + n - 1] == second[n - 1]);
    }
}

proof fn lemma_counted_prefix(first: Seq<ChildKind>, second: Seq<ChildKind>, n: int)
    requires
        0 <= n <= first.len(),
    ensures
        shown_children(first + second, n) == shown_children(first, n),
    decreases n,
{
    if n > 0 {
        lemma_counted_prefix(first, second, n - 1);
        assert((first + second)[n - 1] == first[n - 1]);
    }
}

/// Whether every entry of a page is still in the catalog.
pub open spec fn all_found(entries: Seq<FolderChild>) -> bool {
    forall|i: int| 0 <= i < entries.len() ==> !(#[trigger] entries[i] is Missing)
}

/// Looks whether every entry of a page is still in the catalog. `in_time` says
/// whether they were read in the time that is left.
pub fn page_entries(entries: &[FolderChild], in_time: bool) -> (result: Result<
    (),
    ProjectionStopped,
>)
    ensures
        result == if !in_time {
            Err::<(), ProjectionStopped>(ProjectionStopped::Budget)
        } else if !all_found(entries@) {
            Err(ProjectionStopped::Changed)
        } else {
            Ok(())
        },
{
    if !in_time {
        return Err(ProjectionStopped::Budget);
    }
    let mut i: usize = 0;
    while i < entries.len()
        invariant
            i <= entries.len(),
            in_time,
            forall|j: int| 0 <= j < i ==> !(#[trigger] entries@[j] is Missing),
        decreases entries.len() - i,
    {
        match &entries[i] {
            FolderChild::Missing => {
                assert(entries@[i as int] is Missing);
                return Err(ProjectionStopped::Changed);
            },
            _ => {},
        }
        i += 1;
    }
    Ok(())
}

/// Looks whether a page may be answered and kept: the catalog is of the
/// generation that was read, and was not published anew in between. `in_time`
/// says whether it could be read in the time that is left.
pub fn settle_page(read: u32, current: u32, same_epoch: bool, in_time: bool) -> (result: Result<
    (),
    ProjectionStopped,
>)
    ensures
        result == if !in_time {
            Err::<(), ProjectionStopped>(ProjectionStopped::Budget)
        } else if !(read == current && same_epoch) {
            Err(ProjectionStopped::Changed)
        } else {
            Ok(())
        },
{
    if !in_time {
        Err(ProjectionStopped::Budget)
    } else if read == current && same_epoch {
        Ok(())
    } else {
        Err(ProjectionStopped::Changed)
    }
}

/// Keeps what a page was made of, and gives back what leaves for it, where the
/// page may be answered. Where it may not, nothing is kept.
pub fn keep_page(
    cache: &mut FolderProjectionCache,
    read: u32,
    current: u32,
    same_epoch: bool,
    in_time: bool,
    list: NewList,
    counts: Vec<NewCount>,
) -> (result: Result<(Vec<Projection>, Vec<ChildCount>), ProjectionStopped>)
    requires
        old(cache).wf(),
    ensures
        final(cache).wf(),
        match result {
            Ok((lists, left)) => {
                let page = list.listed(read);
                let more = new_counts(read, counts@);
                let n = more.len() as int;
                &&& in_time && read == current && same_epoch
                &&& final(cache).pages() == pages_after(old(cache).pages(), page)
                &&& final(cache).counts() == counts_after(old(cache).counts(), more, n)
                &&& pages_of(lists@) == leaving_pages(old(cache).pages(), page)
                &&& counts_of(left@) == leaving_counts(old(cache).counts(), more, n)
            },
            Err(stopped) => {
                &&& stopped == if !in_time {
                    ProjectionStopped::Budget
                } else {
                    ProjectionStopped::Changed
                }
                &&& !(in_time && read == current && same_epoch)
                &&& final(cache).pages() == old(cache).pages()
                &&& final(cache).counts() == old(cache).counts()
            },
        },
{
    match settle_page(read, current, same_epoch, in_time) {
        Ok(()) => Ok(cache.keep(read, list, counts)),
        Err(stopped) => Err(stopped),
    }
}

} // verus!
