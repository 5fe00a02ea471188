//! The folder view: what a folder lists, in which order, and its breadcrumbs.
use crate::catalog::{
    file_name, is_match, is_playable, lowercase, media_file_name, media_matches, playable,
    to_lowercase, any_text_holds, CatalogContainer, MediaItem,
};
use crate::budget::{
    capped, law_a_passed_limit_stays_passed, law_charges_add_up, ProjectionStopped, WorkBudget,
};
use crate::encoding::utf8_len;
use crate::http::{generation_etag, generation_tag, is_current};
use crate::order::{
    is_text_at_most, lemma_bytes_reflexive, lemma_bytes_total, lemma_bytes_transitive,
    lemma_text_antisymmetric, ordered, text_at_most, Ranking,
};
use crate::problem::{optional_text, Problem};
use crate::projection::capacity_of;
use crate::query::same_text;
use crate::text::holds_text;
use crate::track::opt;
use vstd::prelude::*;
use vstd::utf8::encode_utf8;

verus! {

/// How many children are read at a time, so that a new catalog can be published
/// in between.
pub const CHILDREN_PER_BATCH: usize = 256;

/// A child of a folder.
pub enum FolderChild {
    /// A folder.
    Folder { id: String, title: String },
    /// A title.
    Media(MediaItem),
    /// Neither: it left the catalog.
    Missing,
}

/// What an entry is ordered by: folders first, then the name in lower case, then
/// the identifier.
pub struct EntryKey {
    pub rank: u8,
    pub title: String,
    pub id: String,
    /// How many bytes the title has room for.
    pub room: usize,
}

/// What a key says.
pub struct Key {
    pub rank: u8,
    pub title: Seq<char>,
    pub id: Seq<char>,
}

impl EntryKey {
    pub open spec fn says(self) -> Key {
        Key { rank: self.rank, title: self.title@, id: self.id@ }
    }
}

/// What keys say.
pub open spec fn keys_said(keys: Seq<EntryKey>) -> Seq<Key> {
    keys.map_values(|key: EntryKey| key.says())
}

/// What the titles of keys have room for.
pub open spec fn rooms_of(keys: Seq<EntryKey>) -> Seq<usize> {
    keys.map_values(|key: EntryKey| key.room)
}

/// Whether `rooms` could be what the titles of keys have room for: a title fits.
pub open spec fn are_rooms(rooms: Seq<usize>, keys: Seq<Key>) -> bool {
    &&& rooms.len() == keys.len()
    &&& forall|i: int| 0 <= i < keys.len() ==> utf8_len((#[trigger] keys[i]).title) <= rooms[i]
}

/// What keys hold besides their fixed part: the room of each title, and the
/// bytes of each identifier.
pub open spec fn held_bytes(keys: Seq<Key>, rooms: Seq<usize>) -> nat
    decreases keys.len(),
{
    if keys.len() == 0 {
        0
    } else {
        held_bytes(keys.drop_last(), rooms.drop_last()) + rooms.last() as nat + utf8_len(
            keys.last().id,
        )
    }
}

/// The key of a child that is listed under a query in lower case, of which an
/// empty one finds everything.
pub open spec fn listed_key(child: FolderChild, query: Seq<char>) -> Option<Key> {
    match child {
        FolderChild::Folder { id, title } => if query.len() == 0 || holds_text(
            lowercase(title@),
            query,
        ) {
            Some(Key { rank: 0, title: lowercase(title@), id: id@ })
        } else {
            None
        },
        FolderChild::Media(item) => if is_playable(item.mime@) && (query.len() == 0 || is_match(
            item,
            query,
        )) {
            Some(Key { rank: 1, title: lowercase(file_name(item)), id: item.object_id@ })
        } else {
            None
        },
        FolderChild::Missing => None,
    }
}

/// The keys of the first `n` children that are listed.
pub open spec fn listed_keys(children: Seq<FolderChild>, query: Seq<char>, n: int) -> Seq<Key>
    decreases n,
{
    if n <= 0 {
        Seq::empty()
    } else {
        match listed_key(children[n - 1], query) {
            Some(key) => listed_keys(children, query, n - 1).push(key),
            None => listed_keys(children, query, n - 1),
        }
    }
}

/// Whether entry `a` is to stand before entry `b`, or may.
pub open spec fn key_at_most(a: Key, b: Key) -> bool {
    if a.rank != b.rank {
        a.rank < b.rank
    } else if a.title != b.title {
        text_at_most(a.title, b.title)
    } else {
        text_at_most(a.id, b.id)
    }
}

/// Whether `ids` are the identifiers of the keys in order.
pub open spec fn is_folder_listing(keys: Seq<Key>, ids: Seq<Seq<char>>) -> bool {
    exists|order: Seq<usize>| #[trigger] is_key_order(keys, order) && ids == order.map_values(
        |i: usize| keys[i as int].id,
    )
}

/// Whether `order` names every key once, in order.
pub open spec fn is_key_order(keys: Seq<Key>, order: Seq<usize>) -> bool {
    &&& order.no_duplicates()
    &&& forall|x: usize| #[trigger] order.contains(x) <==> x < keys.len()
    &&& forall|i: int, j: int|
        0 <= i < j < order.len() ==> key_at_most(keys[order[i] as int], keys[order[j] as int])
}

fn lower_title_matches(lower: &String, query: &str) -> (found: bool)
    ensures
        found == (query@.len() == 0 || holds_text(lower@, query@)),
{
    if query.is_empty() {
        return true;
    }
    let texts: Vec<String> = vec![lower.clone()];
    assert(texts@[0]@ == lower@);
    any_text_holds(&texts, query)
}

fn key_of(child: &FolderChild, query: &str) -> (result: Option<EntryKey>)
    ensures
        match result {
            Some(key) => listed_key(*child, query@) == Some(key.says()) && utf8_len(key.title@)
                <= key.room,
            None => listed_key(*child, query@) is None,
        },
{
    match child {
        FolderChild::Folder { id, title } => {
            let lower = to_lowercase(title.as_str());
            if lower_title_matches(&lower, query) {
                let room: usize = capacity_of(&lower);
                Some(EntryKey { rank: 0, title: lower, id: id.clone(), room })
            } else {
                None
            }
        },
        FolderChild::Media(item) => if playable(item.mime.as_str()) && (query.is_empty()
            || media_matches(item, query)) {
            let title = to_lowercase(media_file_name(item).as_str());
            let room: usize = capacity_of(&title);
            Some(EntryKey { rank: 1, title, id: item.object_id.clone(), room })
        } else {
            None
        },
        FolderChild::Missing => None,
    }
}

/// The keys of a batch of children.
fn read_keys(children: &[FolderChild], query: &str) -> (keys: Vec<EntryKey>)
    ensures
        keys_said(keys@) == listed_keys(children@, query@, children@.len() as int),
        are_rooms(rooms_of(keys@), keys_said(keys@)),
{
    let mut keys: Vec<EntryKey> = Vec::new();
    let mut i: usize = 0;
    assert(keys_said(keys@) =~= Seq::<Key>::empty());
    while i < children.len()
        invariant
            i <= children.len(),
            keys_said(keys@) == listed_keys(children@, query@, i as int),
            are_rooms(rooms_of(keys@), keys_said(keys@)),
        decreases children.len() - i,
    {
        let ghost before = keys@;
        match key_of(&children[i], query) {
            Some(key) => {
                let ghost says = key.says();
                let ghost room = key.room;
                keys.push(key);
                proof {
                    assert(keys_said(keys@) =~= keys_said(before).push(says));
                    assert(rooms_of(keys@) =~= rooms_of(before).push(room));
                }
            },
            None => {},
        }
        i += 1;
    }
    keys
}

/// Holds what keys take, unless it passes the limit: then nothing is held.
pub fn charge_keys(keys: &[EntryKey], budget: &mut WorkBudget) -> (result: Result<
    (),
    ProjectionStopped,
>)
    requires
        old(budget).holds(),
    ensures
        ({
            let cost = held_bytes(keys_said(keys@), rooms_of(keys@));
            match result {
                Ok(_) => *final(budget) == old(budget).after(cost) && final(budget).holds(),
                Err(stopped) => {
                    &&& stopped == ProjectionStopped::Budget
                    &&& !old(budget).after(cost).holds()
                    &&& *final(budget) == *old(budget)
                },
            }
        }),
{
    let ghost said = keys_said(keys@);
    let ghost rooms = rooms_of(keys@);
    let mut charged: WorkBudget = *budget;
    let mut i: usize = 0;
    proof {
        assert(said.len() == keys@.len() && rooms.len() == keys@.len());
        assert(said.take(0) =~= Seq::<Key>::empty());
    }
    while i < keys.len()
        invariant
            i <= keys.len(),
            *budget == *old(budget),
            said == keys_said(keys@),
            rooms == rooms_of(keys@),
            said.len() == keys@.len(),
            rooms.len() == keys@.len(),
            charged.holds(),
            charged == budget.after(held_bytes(said.take(i as int), rooms.take(i as int))),
        decreases keys.len() - i,
    {
        let key = &keys[i];
        let bytes: usize = key.room.saturating_add(key.id.as_str().as_bytes().len());
        let ghost cost = (key.room + utf8_len(key.id@)) as nat;
        proof {
            let n = i + 1;
            assert(said.take(n).drop_last() =~= said.take(i as int));
            assert(rooms.take(n).drop_last() =~= rooms.take(i as int));
            assert(said.take(n).last() == key.says());
            assert(rooms.take(n).last() == key.room);
            assert(charged.after(bytes as nat) == charged.after(cost));
            law_charges_add_up(*budget, held_bytes(said.take(i as int), rooms.take(i as int)), cost);
        }
        match charged.charge(bytes) {
            Ok(()) => {},
            Err(stopped) => {
                proof {
                    let done = held_bytes(said.take(i + 1), rooms.take(i + 1));
                    lemma_held_grows(said, rooms, i + 1);
                    law_a_passed_limit_stays_passed(
                        *budget,
                        done,
                        (held_bytes(said, rooms) - done) as nat,
                    );
                }
                return Err(stopped);
            },
        }
        i += 1;
    }
    proof {
        assert(said.take(i as int) =~= said);
        assert(rooms.take(i as int) =~= rooms);
    }
    *budget = charged;
    Ok(())
}

/// More keys hold more.
proof fn lemma_held_grows(keys: Seq<Key>, rooms: Seq<usize>, n: int)
    requires
        0 <= n <= keys.len(),
        keys.len() == rooms.len(),
    ensures
        held_bytes(keys.take(n), rooms.take(n)) <= held_bytes(keys, rooms),
    decreases keys.len(),
{
    if n == keys.len() {
        assert(keys.take(n) =~= keys);
        assert(rooms.take(n) =~= rooms);
    } else {
        lemma_held_grows(keys.drop_last(), rooms.drop_last(), n);
        assert(keys.drop_last().take(n) =~= keys.take(n));
        assert(rooms.drop_last().take(n) =~= rooms.take(n));
    }
}

/// Whether the keys of children pass the limit of a budget where their titles
/// have those rooms.
pub open spec fn passes_limit_with(
    budget: WorkBudget,
    children: Seq<FolderChild>,
    query: Seq<char>,
    rooms: Seq<usize>,
) -> bool {
    let keys = listed_keys(children, query, children.len() as int);
    are_rooms(rooms, keys) && !budget.after(held_bytes(keys, rooms)).holds()
}

/// Whether the keys of children can pass the limit of a budget.
pub open spec fn passes_limit(
    budget: WorkBudget,
    children: Seq<FolderChild>,
    query: Seq<char>,
) -> bool {
    exists|rooms: Seq<usize>| #[trigger] passes_limit_with(budget, children, query, rooms)
}

/// Adds the keys of a batch of children to those of the batches before, unless
/// what they hold passes the budget: then nothing is added. What the titles have
/// room for is the allocator's choice; `charge_keys` says what follows from it.
pub fn extend_keys(
    keys: &mut Vec<EntryKey>,
    children: &[FolderChild],
    query: &str,
    budget: &mut WorkBudget,
) -> (result: Result<(), ProjectionStopped>)
    requires
        old(budget).holds(),
    ensures
        final(budget).holds(),
        match result {
            Ok(_) => {
                let more = listed_keys(children@, query@, children@.len() as int);
                let rooms = rooms_of(final(keys)@).skip(old(keys)@.len() as int);
                &&& keys_said(final(keys)@) == keys_said(old(keys)@) + more
                &&& rooms_of(final(keys)@) == rooms_of(old(keys)@) + rooms
                &&& are_rooms(rooms, more)
                &&& *final(budget) == old(budget).after(held_bytes(more, rooms))
            },
            Err(stopped) => {
                &&& stopped == ProjectionStopped::Budget
                &&& passes_limit(*old(budget), children@, query@)
                &&& final(keys)@ == old(keys)@
                &&& *final(budget) == *old(budget)
            },
        },
{
    let mut more = read_keys(children, query);
    match charge_keys(more.as_slice(), budget) {
        Ok(()) => {},
        Err(stopped) => {
            assert(passes_limit_with(*old(budget), children@, query@, rooms_of(more@)));
            return Err(stopped);
        },
    }
    let ghost read = more@;
    keys.append(&mut more);
    proof {
        let len = old(keys)@.len() as int;
        assert(keys_said(keys@) =~= keys_said(old(keys)@) + keys_said(read));
        assert(rooms_of(keys@) =~= rooms_of(old(keys)@) + rooms_of(read));
        assert(rooms_of(keys@).skip(len) =~= rooms_of(read));
    }
    Ok(())
}

/// Entries in the order of their keys.
pub struct KeyOrder<'a> {
    pub keys: &'a [EntryKey],
}

impl<'a> Ranking for KeyOrder<'a> {
    open spec fn knows(&self, a: usize) -> bool {
        a < self.keys@.len()
    }

    open spec fn at_most(&self, a: usize, b: usize) -> bool {
        key_at_most(self.keys@[a as int].says(), self.keys@[b as int].says())
    }

    proof fn total(&self, a: usize, b: usize) {
        let x = self.keys@[a as int].says();
        let y = self.keys@[b as int].says();
        lemma_bytes_total(encode_utf8(x.title), encode_utf8(y.title));
        lemma_bytes_total(encode_utf8(x.id), encode_utf8(y.id));
    }

    proof fn transitive(&self, a: usize, b: usize, c: usize) {
        let x = self.keys@[a as int].says();
        let y = self.keys@[b as int].says();
        let z = self.keys@[c as int].says();
        if x.rank == y.rank && y.rank == z.rank {
            lemma_bytes_reflexive(encode_utf8(x.title));
            lemma_bytes_reflexive(encode_utf8(y.title));
            lemma_bytes_transitive(
                encode_utf8(x.title),
                encode_utf8(y.title),
                encode_utf8(z.title),
            );
            if x.title == z.title && x.title != y.title {
                lemma_text_antisymmetric(x.title, y.title);
            }
            if x.title == y.title && y.title == z.title {
                lemma_bytes_transitive(encode_utf8(x.id), encode_utf8(y.id), encode_utf8(z.id));
            }
        }
    }

    fn is_at_most(&self, a: usize, b: usize) -> (result: bool) {
        let x = &self.keys[a];
        let y = &self.keys[b];
        if x.rank != y.rank {
            x.rank < y.rank
        } else if !same_text(x.title.as_str(), y.title.as_str()) {
            is_text_at_most(x.title.as_str(), y.title.as_str())
        } else {
            is_text_at_most(x.id.as_str(), y.id.as_str())
        }
    }
}

/// The texts of strings.
pub open spec fn strings(texts: Seq<String>) -> Seq<Seq<char>> {
    texts.map_values(|text: String| text@)
}

fn all_places(n: usize) -> (places: Vec<usize>)
    ensures
        places@.no_duplicates(),
        forall|x: usize| #[trigger] places@.contains(x) <==> x < n,
        forall|i: int| 0 <= i < places@.len() ==> #[trigger] places@[i] < n,
{
    let mut places: Vec<usize> = Vec::new();
    let mut i: usize = 0;
    while i < n
        invariant
            i <= n,
            places@.len() == i,
            forall|j: int| 0 <= j < i ==> #[trigger] places@[j] == j,
        decreases n - i,
    {
        places.push(i);
        i += 1;
    }
    proof {
        assert forall|x: usize| #[trigger] places@.contains(x) <==> x < n by {
            if x < n {
                assert(places@[x as int] == x);
            }
        }
    }
    places
}

/// The identifiers of the entries, in order.
pub fn sorted_ids(keys: &[EntryKey]) -> (ids: Vec<String>)
    ensures
        is_folder_listing(keys_said(keys@), strings(ids@)),
{
    let ghost said = keys_said(keys@);
    let ranking = KeyOrder { keys };
    let places = all_places(keys.len());
    let order = ordered(&ranking, &places);
    proof {
        crate::listing::lemma_same_multiset(order@, places@);
        assert(said.len() == keys@.len());
        assert forall|i: int, j: int| 0 <= i < j < order@.len() implies key_at_most(
            said[order@[i] as int],
            said[order@[j] as int],
        ) by {
            assert(ranking.at_most(order@[i], order@[j]));
            assert(ranking.knows(order@[i]));
            assert(ranking.knows(order@[j]));
        }
        assert(is_key_order(said, order@));
    }
    let mut ids: Vec<String> = Vec::new();
    let mut i: usize = 0;
    while i < order.len()
        invariant
            i <= order.len(),
            said == keys_said(keys@),
            forall|p: int| 0 <= p < order@.len() ==> (#[trigger] order@[p]) < keys@.len(),
            ids@.len() == i,
            forall|p: int| 0 <= p < i ==> (#[trigger] ids@[p])@ == said[order@[p] as int].id,
        decreases order.len() - i,
    {
        assert(order@[i as int] < keys@.len());
        ids.push(keys[order[i]].id.clone());
        i += 1;
    }
    assert(strings(ids@) =~= order@.map_values(|i: usize| said[i as int].id));
    ids
}

// ------------------------------------------------------------- child counts

/// What a child of a folder counts as.
#[derive(Clone, Copy, Debug, PartialEq, Eq, Structural)]
pub enum ChildKind {
    Folder,
    Playable,
    Other,
}

/// What is known of a child: whether it is a folder, and the media type of the
/// title that it is, if it is one.
pub struct ChildFact {
    pub is_folder: bool,
    pub mime: Option<String>,
}

/// What a child counts as: a folder, a title that can be played, or neither.
pub open spec fn kind_of(is_folder: bool, mime: Option<Seq<char>>) -> ChildKind {
    if is_folder {
        ChildKind::Folder
    } else {
        match mime {
            Some(mime) => if is_playable(mime) {
                ChildKind::Playable
            } else {
                ChildKind::Other
            },
            None => ChildKind::Other,
        }
    }
}

/// What a child counts as: a folder, a title that can be played, or neither.
pub fn child_kind(is_folder: bool, mime: Option<&str>) -> (kind: ChildKind)
    ensures
        kind == kind_of(is_folder, optional_text(mime)),
{
    if is_folder {
        return ChildKind::Folder;
    }
    match mime {
        Some(mime) => if playable(mime) {
            ChildKind::Playable
        } else {
            ChildKind::Other
        },
        None => ChildKind::Other,
    }
}

/// What children count as.
pub open spec fn kinds_of(facts: Seq<ChildFact>) -> Seq<ChildKind> {
    facts.map_values(|fact: ChildFact| kind_of(fact.is_folder, opt(fact.mime)))
}

/// What children count as.
pub fn child_kinds(facts: &[ChildFact]) -> (kinds: Vec<ChildKind>)
    ensures
        kinds@ == kinds_of(facts@),
{
    let mut kinds: Vec<ChildKind> = Vec::new();
    let mut i: usize = 0;
    while i < facts.len()
        invariant
            i <= facts.len(),
            kinds@.len() == i,
            forall|j: int| 0 <= j < i ==> #[trigger] kinds@[j] == kinds_of(facts@)[j],
        decreases facts.len() - i,
    {
        let fact = &facts[i];
        let mime = match &fact.mime {
            Some(mime) => Some(mime.as_str()),
            None => None,
        };
        kinds.push(child_kind(fact.is_folder, mime));
        i += 1;
    }
    assert(kinds@ =~= kinds_of(facts@));
    kinds
}

/// How many of the first `n` children are shown in a folder.
pub open spec fn shown_children(kinds: Seq<ChildKind>, n: int) -> nat
    decreases n,
{
    if n <= 0 {
        0
    } else {
        shown_children(kinds, n - 1) + if kinds[n - 1] == ChildKind::Other {
            0nat
        } else {
            1nat
        }
    }
}

/// How many of the children are shown in a folder.
pub fn count_children(kinds: &[ChildKind]) -> (count: usize)
    ensures
        count == shown_children(kinds@, kinds@.len() as int),
        count <= kinds@.len(),
{
    let mut count: usize = 0;
    let mut i: usize = 0;
    while i < kinds.len()
        invariant
            i <= kinds.len(),
            count <= i,
            count == shown_children(kinds@, i as int),
        decreases kinds.len() - i,
    {
        if kinds[i] != ChildKind::Other {
            count += 1;
        }
        i += 1;
    }
    count
}

/// The children from `start` on that are read at a time.
pub fn batch_end(start: usize, total: usize) -> (end: usize)
    ensures
        end == if start + CHILDREN_PER_BATCH <= total {
            start + CHILDREN_PER_BATCH
        } else {
            total as int
        },
{
    let end: usize = start.saturating_add(CHILDREN_PER_BATCH);
    if end <= total {
        end
    } else {
        total
    }
}

/// The sum of numbers.
pub open spec fn sum_of(numbers: Seq<usize>) -> nat
    decreases numbers.len(),
{
    if numbers.len() == 0 {
        0
    } else {
        sum_of(numbers.drop_last()) + numbers.last() as nat
    }
}

/// What a list is charged in a cache: a fixed amount, its folder and its query,
/// and for each identifier a fixed amount and what it has room for.
pub fn projection_charge(
    fixed: usize,
    folder_len: usize,
    query_len: usize,
    fixed_per_id: usize,
    capacities: &[usize],
) -> (bytes: usize)
    ensures
        bytes == capped(
            (fixed + folder_len + query_len + fixed_per_id * capacities@.len() + sum_of(
                capacities@,
            )) as nat,
        ),
{
    let mut bytes: usize = fixed.saturating_add(folder_len).saturating_add(query_len);
    let mut i: usize = 0;
    assert(capacities@.take(0) =~= Seq::<usize>::empty());
    assert(fixed_per_id * 0 == 0) by (nonlinear_arith);
    while i < capacities.len()
        invariant
            i <= capacities.len(),
            bytes == capped(
                (fixed + folder_len + query_len + fixed_per_id * i + sum_of(
                    capacities@.take(i as int),
                )) as nat,
            ),
        decreases capacities.len() - i,
    {
        proof {
            assert(capacities@.take(i + 1).drop_last() =~= capacities@.take(i as int));
            assert(fixed_per_id * (i + 1) == fixed_per_id * i + fixed_per_id) by (nonlinear_arith);
            assert(0 <= fixed_per_id * i) by (nonlinear_arith);
        }
        bytes = bytes.saturating_add(fixed_per_id).saturating_add(capacities[i]);
        i += 1;
    }
    assert(capacities@.take(i as int) =~= capacities@);
    bytes
}

// -------------------------------------------------------------- breadcrumbs

/// The title under which a folder is shown; the root is `Media`.
pub open spec fn shown_title(folder: CatalogContainer, root: Seq<char>) -> Seq<char> {
    if folder.object_id@ == root {
        "Media"@
    } else {
        folder.title@
    }
}

/// The title under which a folder is shown.
pub fn folder_title(folder: &CatalogContainer, root: &str) -> (title: String)
    ensures
        title@ == shown_title(*folder, root@),
{
    if same_text(folder.object_id.as_str(), root) {
        "Media".to_owned()
    } else {
        folder.title.clone()
    }
}

/// How a folder request begins.
#[derive(Clone, Copy, Debug, PartialEq, Eq, Structural)]
pub enum FolderStart {
    /// It is refused.
    Refused(Problem),
    /// The browser's copy is current.
    NotModified,
    /// The list is to be read.
    List,
}

/// Whether a generation that was asked for, if any, is the current one.
pub open spec fn is_wanted_generation(requested: Option<u32>, current: u32) -> bool {
    requested matches Some(requested) ==> requested == current
}

/// How a folder request begins: the generation and the folder are looked at
/// before an unchanged copy is acknowledged.
pub fn folder_start(
    requested: Option<u32>,
    generation: u32,
    folder_found: bool,
    held: Option<&str>,
) -> (start: FolderStart)
    ensures
        start == if !is_wanted_generation(requested, generation) {
            FolderStart::Refused(Problem::CatalogChanged)
        } else if !folder_found {
            FolderStart::Refused(Problem::FolderMissing)
        } else if is_current(held, generation_tag(generation)) {
            FolderStart::NotModified
        } else {
            FolderStart::List
        },
{
    if let Some(expected) = requested {
        if expected != generation {
            return FolderStart::Refused(Problem::CatalogChanged);
        }
    }
    if !folder_found {
        return FolderStart::Refused(Problem::FolderMissing);
    }
    let current = match held {
        Some(held) => same_text(held, generation_etag(generation).as_str()),
        None => false,
    };
    if current {
        FolderStart::NotModified
    } else {
        FolderStart::List
    }
}

// -------------------------------------------------------------------- laws

/// Folders stand before titles in every list.
pub proof fn law_folders_come_first(keys: Seq<Key>, order: Seq<usize>, i: int, j: int)
    requires
        is_key_order(keys, order),
        0 <= i < order.len(),
        0 <= j < order.len(),
        keys[order[i] as int].rank < keys[order[j] as int].rank,
    ensures
        i < j,
{
    if j < i {
        assert(key_at_most(keys[order[j] as int], keys[order[i] as int]));
    }
}

/// Reading the children in batches lists the same as reading them at once.
pub proof fn law_batches_make_the_list(
    first: Seq<FolderChild>,
    second: Seq<FolderChild>,
    query: Seq<char>,
    n: int,
)
    requires
        0 <= n <= second.len(),
    ensures
        listed_keys(first + second, query, first.len() + n) == listed_keys(
            first,
            query,
            first.len() as int,
        ) + listed_keys(second, query, n),
    decreases n,
{
    if n == 0 {
        lemma_listed_prefix(first, second, query, first.len() as int);
        assert(listed_keys(first, query, first.len() as int) + Seq::<Key>::empty() =~= listed_keys(
            first,
            query,
            first.len() as int,
        ));
    } else {
        law_batches_make_the_list(first, second, query, n - 1);
        assert((first + second)[first.len() + n - 1] == second[n - 1]);
        let head = listed_keys(first, query, first.len() as int);
        let tail = listed_keys(second, query, n - 1);
        match listed_key(second[n - 1], query) {
            Some(key) => {
                assert((head + tail).push(key) =~= head + tail.push(key));
            },
            None => {},
        }
    }
}

proof fn lemma_listed_prefix(
    first: Seq<FolderChild>,
    second: Seq<FolderChild>,
    query: Seq<char>,
    n: int,
)
    requires
        0 <= n <= first.len(),
    ensures
        listed_keys(first + second, query, n) == listed_keys(first, query, n),
    decreases n,
{
    if n > 0 {
        lemma_listed_prefix(first, second, query, n - 1);
        assert((first + second)[n - 1] == first[n - 1]);
    }
}

} // verus!
