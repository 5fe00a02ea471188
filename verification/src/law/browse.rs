//! Browsing a folder.
use crate::budget::{ProjectionStopped, QueryLimits};
use crate::catalog::{lowercase, physical_folder_chain, CatalogContainer, MediaItem};
use crate::folder::{
    child_kind, count_children, is_folder_listing, is_key_order, kinds_of, listed_key, listed_keys,
    shown_children, strings, ChildFact, ChildKind, FolderChild, Key,
};
use crate::law::search::{has_part, is_before, is_of_audio, lemma_is_before};
use crate::law::telling::is_of_video;
use crate::library::{
    folder_page, lemma_listed_keys, lemma_listed_len, lemma_order_len, normalized_query,
    LibraryRequest, PageHead,
};
use crate::scan::{page_entries, settle_page, FolderCount, FolderScan};
use crate::text::{holds_text, occurs_at};
use vstd::prelude::*;
use vstd::utf8::encode_utf8;

verus! {

/// The identifier of a child.
pub open spec fn child_id(child: FolderChild) -> Seq<char> {
    match child {
        FolderChild::Folder { id, title } => id@,
        FolderChild::Media(item) => item.object_id@,
        FolderChild::Missing => Seq::empty(),
    }
}

/// No two children have the same identifier.
pub open spec fn distinct_children(children: Seq<FolderChild>) -> bool {
    forall|i: int, j: int|
        0 <= i < j < children.len() && !(children[i] is Missing) && !(children[j] is Missing)
            ==> child_id(#[trigger] children[i]) != child_id(#[trigger] children[j])
}

/// The name that a title is listed under: that of its file, or its own where its
/// file has none.
pub open spec fn own_name(item: MediaItem) -> Seq<char> {
    if item.path_name is Some && item.path_name->0@.len() > 0 {
        item.path_name->0@
    } else {
        item.title@
    }
}

/// Whether a text in lower case stands before another in the order of their bytes.
pub open spec fn is_named_before(a: Seq<char>, b: Seq<char>, k: int) -> bool {
    is_before(encode_utf8(lowercase(a)), encode_utf8(lowercase(b)), k)
}

/// Every key is that of a child.
proof fn lemma_key_of_child(children: Seq<FolderChild>, query: Seq<char>, n: int, x: int) -> (c: int)
    requires
        0 <= n <= children.len(),
        0 <= x < listed_keys(children, query, n).len(),
    ensures
        0 <= c < n,
        listed_key(children[c], query) == Some(listed_keys(children, query, n)[x]),
    decreases n,
{
    let before = listed_keys(children, query, n - 1);
    if x < before.len() {
        lemma_key_of_child(children, query, n - 1, x)
    } else {
        n - 1
    }
}

proof fn lemma_listing(keys: Seq<Key>, ids: Seq<Seq<char>>) -> (order: Seq<usize>)
    requires
        is_folder_listing(keys, ids),
        keys.len() <= usize::MAX,
    ensures
        is_key_order(keys, order),
        ids == order.map_values(|i: usize| keys[i as int].id),
        order.len() == keys.len(),
        ids.len() == keys.len(),
        forall|p: int| 0 <= p < order.len() ==> (#[trigger] order[p]) < keys.len(),
        forall|p: int| 0 <= p < order.len() ==> #[trigger] ids[p] == keys[order[p] as int].id,
{
    let order = choose|order: Seq<usize>|
        #[trigger] is_key_order(keys, order) && ids == order.map_values(
            |i: usize| keys[i as int].id,
        );
    lemma_order_len(keys.len(), order);
    assert forall|p: int| 0 <= p < order.len() implies (#[trigger] order[p]) < keys.len() by {
        assert(order.contains(order[p]));
    }
    order
}

/// What stands at a place of the list is the child with that identifier.
proof fn lemma_place_of(
    children: Seq<FolderChild>,
    query: Seq<char>,
    order: Seq<usize>,
    ids: Seq<Seq<char>>,
    p: int,
    c: int,
)
    requires
        distinct_children(children),
        0 <= c < children.len(),
        !(children[c] is Missing),
        ({
            let keys = listed_keys(children, query, children.len() as int);
            &&& order.len() == ids.len()
            &&& forall|p: int| 0 <= p < order.len() ==> (#[trigger] order[p]) < keys.len()
            &&& forall|p: int| 0 <= p < order.len() ==> #[trigger] ids[p] == keys[order[p] as int].id
        }),
        0 <= p < ids.len(),
        ids[p] == child_id(children[c]),
    ensures
        listed_key(children[c], query) == Some(
            listed_keys(children, query, children.len() as int)[order[p] as int],
        ),
{
    let n = children.len() as int;
    let keys = listed_keys(children, query, n);
    let x = order[p] as int;
    let d = lemma_key_of_child(children, query, n, x);
    assert(child_id(children[d]) == keys[x].id);
    if c < d {
        assert(child_id(children[c]) != child_id(children[d]));
    } else if d < c {
        assert(child_id(children[d]) != child_id(children[c]));
    }
}

/// Two children of a list and where they stand.
pub open spec fn stand_at(
    scan: FolderScan,
    ids: Vec<String>,
    a: int,
    b: int,
    i: int,
    j: int,
) -> bool {
    &&& scan.children().len() <= usize::MAX
    &&& distinct_children(scan.children())
    &&& 0 <= a < scan.children().len()
    &&& 0 <= b < scan.children().len()
    &&& 0 <= i < ids@.len()
    &&& 0 <= j < ids@.len()
    &&& ids@[i]@ == child_id(scan.children()[a])
    &&& ids@[j]@ == child_id(scan.children()[b])
}

proof fn lemma_behind(scan: FolderScan, ids: Vec<String>, a: int, b: int, i: int, j: int)
    requires
        call_ensures(FolderScan::finish, (scan,), Ok(ids)),
        stand_at(scan, ids, a, b, i, j),
        !(scan.children()[a] is Missing),
        !(scan.children()[b] is Missing),
    ensures
        listed_key(scan.children()[a], scan.query()) is Some,
        listed_key(scan.children()[b], scan.query()) is Some,
        j < i ==> crate::folder::key_at_most(
            listed_key(scan.children()[b], scan.query())->0,
            listed_key(scan.children()[a], scan.query())->0,
        ),
        i == j ==> child_id(scan.children()[a]) == child_id(scan.children()[b]),
{
    let (children, query) = (scan.children(), scan.query());
    let n = children.len() as int;
    let keys = listed_keys(children, query, n);
    let all = strings(ids@);
    assert(all.len() == ids@.len());
    assert(all[i] == ids@[i]@ && all[j] == ids@[j]@);
    lemma_listed_len(children, query, n);
    let order = lemma_listing(keys, all);
    lemma_place_of(children, query, order, all, i, a);
    lemma_place_of(children, query, order, all, j, b);
}

/// Of two titles in the list of a folder, the one whose file name is smaller, in
/// lower case and byte by byte, comes first, whatever the titles are called
/// otherwise.
pub proof fn law_titles_stand_in_the_order_of_their_files(
    scan: FolderScan,
    ids: Vec<String>,
    a: int,
    b: int,
    i: int,
    j: int,
    k: int,
)
    requires
        call_ensures(FolderScan::finish, (scan,), Ok(ids)),
        stand_at(scan, ids, a, b, i, j),
        scan.children()[a] is Media,
        scan.children()[b] is Media,
        is_named_before(
            own_name(scan.children()[a]->Media_0),
            own_name(scan.children()[b]->Media_0),
            k,
        ),
    ensures
        i < j,
{
    let x = lowercase(own_name(scan.children()[a]->Media_0));
    let y = lowercase(own_name(scan.children()[b]->Media_0));
    lemma_behind(scan, ids, a, b, i, j);
    lemma_is_before(encode_utf8(x), encode_utf8(y), k);
}

/// Of two folders in the list of a folder, the one whose title is smaller, in
/// lower case and byte by byte, comes first.
pub proof fn law_folders_stand_in_the_order_of_their_titles(
    scan: FolderScan,
    ids: Vec<String>,
    a: int,
    b: int,
    i: int,
    j: int,
    k: int,
)
    requires
        call_ensures(FolderScan::finish, (scan,), Ok(ids)),
        stand_at(scan, ids, a, b, i, j),
        scan.children()[a] is Folder,
        scan.children()[b] is Folder,
        is_named_before(scan.children()[a]->title@, scan.children()[b]->title@, k),
    ensures
        i < j,
{
    let x = lowercase(scan.children()[a]->title@);
    let y = lowercase(scan.children()[b]->title@);
    lemma_behind(scan, ids, a, b, i, j);
    lemma_is_before(encode_utf8(x), encode_utf8(y), k);
}

/// Entries of one name stand in the order of their identifiers.
pub proof fn law_namesakes_stand_in_the_order_of_their_identifiers(
    scan: FolderScan,
    ids: Vec<String>,
    a: int,
    b: int,
    i: int,
    j: int,
    k: int,
)
    requires
        call_ensures(FolderScan::finish, (scan,), Ok(ids)),
        stand_at(scan, ids, a, b, i, j),
        ({
            let (x, y) = (scan.children()[a], scan.children()[b]);
            ||| x is Media && y is Media && own_name(x->Media_0) == own_name(y->Media_0)
            ||| x is Folder && y is Folder && x->title@ == y->title@
        }),
        is_before(
            encode_utf8(child_id(scan.children()[a])),
            encode_utf8(child_id(scan.children()[b])),
            k,
        ),
    ensures
        i < j,
{
    lemma_behind(scan, ids, a, b, i, j);
    lemma_is_before(
        encode_utf8(child_id(scan.children()[a])),
        encode_utf8(child_id(scan.children()[b])),
        k,
    );
}

/// Every folder stands before every title.
pub proof fn law_folders_stand_before_titles(
    scan: FolderScan,
    ids: Vec<String>,
    a: int,
    b: int,
    i: int,
    j: int,
)
    requires
        call_ensures(FolderScan::finish, (scan,), Ok(ids)),
        stand_at(scan, ids, a, b, i, j),
        scan.children()[a] is Folder,
        scan.children()[b] is Media,
    ensures
        i < j,
{
    let (x, y) = (scan.children()[a], scan.children()[b]);
    lemma_behind(scan, ids, a, b, i, j);
    if i == j {
        if a < b {
            assert(child_id(x) != child_id(y));
        } else if b < a {
            assert(child_id(y) != child_id(x));
        }
    }
}

/// Whether a child is one that a search in its folder is for: a folder by its
/// title; a title that can be played, by its file name, its title, its artist, its
/// album artist or its album; either where nothing is searched for.
pub open spec fn is_sought(child: FolderChild, query: Seq<char>, at: int) -> bool {
    match child {
        FolderChild::Folder { id, title } => query.len() == 0 || has_part(title@, query, at),
        FolderChild::Media(item) => {
            &&& is_of_video(item.mime@) || is_of_audio(item.mime@)
            &&& {
                ||| query.len() == 0
                ||| has_part(own_name(item), query, at)
                ||| has_part(item.title@, query, at)
                ||| item.artist is Some && has_part(item.artist->0@, query, at)
                ||| item.album_artist is Some && has_part(item.album_artist->0@, query, at)
                ||| item.album is Some && has_part(item.album->0@, query, at)
            }
        },
        FolderChild::Missing => false,
    }
}

proof fn lemma_is_sought(child: FolderChild, query: Seq<char>)
    ensures
        listed_key(child, query) is Some <==> exists|at: int| is_sought(child, query, at),
        listed_key(child, query) is Some ==> listed_key(child, query)->0.id == child_id(child),
{
    reveal_strlit("video/");
    reveal_strlit("audio/");
    assert("video/"@ =~= seq!['v', 'i', 'd', 'e', 'o', '/']);
    assert("audio/"@ =~= seq!['a', 'u', 'd', 'i', 'o', '/']);
    if listed_key(child, query) is Some {
        if query.len() == 0 {
            assert(is_sought(child, query, 0));
        } else {
            match child {
                FolderChild::Folder { id, title } => {
                    let at = choose|at: int| occurs_at(lowercase(title@), query, at);
                    assert(is_sought(child, query, at));
                },
                FolderChild::Media(item) => {
                    let at = lemma_match(item, query);
                    assert(is_sought(child, query, at));
                },
                FolderChild::Missing => {},
            }
        }
    }
    if exists|at: int| is_sought(child, query, at) {
        let at = choose|at: int| is_sought(child, query, at);
        match child {
            FolderChild::Folder { id, title } => {
                if query.len() > 0 {
                    assert(occurs_at(lowercase(title@), query, at));
                }
            },
            FolderChild::Media(item) => {
                if query.len() > 0 {
                    if has_part(own_name(item), query, at) {
                        assert(occurs_at(lowercase(own_name(item)), query, at));
                    } else if has_part(item.title@, query, at) {
                        assert(occurs_at(lowercase(item.title@), query, at));
                    } else if item.artist is Some && has_part(item.artist->0@, query, at) {
                        assert(occurs_at(lowercase(item.artist->0@), query, at));
                    } else if item.album_artist is Some && has_part(
                        item.album_artist->0@,
                        query,
                        at,
                    ) {
                        assert(occurs_at(lowercase(item.album_artist->0@), query, at));
                    } else {
                        assert(occurs_at(lowercase(item.album->0@), query, at));
                    }
                }
            },
            FolderChild::Missing => {},
        }
    }
}

proof fn lemma_match(item: MediaItem, query: Seq<char>) -> (at: int)
    requires
        crate::catalog::is_match(item, query),
    ensures
        has_part(own_name(item), query, at) || has_part(item.title@, query, at) || (item.artist
            is Some && has_part(item.artist->0@, query, at)) || (item.album_artist is Some
            && has_part(item.album_artist->0@, query, at)) || (item.album is Some && has_part(
            item.album->0@,
            query,
            at,
        )),
{
    let text = if holds_text(lowercase(own_name(item)), query) {
        own_name(item)
    } else if holds_text(lowercase(item.title@), query) {
        item.title@
    } else if item.artist is Some && holds_text(lowercase(item.artist->0@), query) {
        item.artist->0@
    } else if item.album_artist is Some && holds_text(lowercase(item.album_artist->0@), query) {
        item.album_artist->0@
    } else {
        item.album->0@
    };
    let at = choose|at: int| occurs_at(lowercase(text), query, at);
    assert(has_part(text, query, at));
    at
}

/// A search goes by the text asked for, whichever way it is capitalised.
pub proof fn law_searches_do_not_regard_case(
    request: &LibraryRequest,
    query: String,
    other: &LibraryRequest,
    other_query: String,
)
    requires
        call_ensures(normalized_query, (request,), query),
        call_ensures(normalized_query, (other,), other_query),
    ensures
        query@ == lowercase(request.query@),
        query@ == other_query@ <==> lowercase(request.query@) == lowercase(other.query@),
{
}

/// Everything that a search in a folder is for is listed.
pub proof fn law_what_is_sought_is_listed(
    scan: FolderScan,
    ids: Vec<String>,
    c: int,
    at: int,
)
    requires
        call_ensures(FolderScan::finish, (scan,), Ok(ids)),
        scan.children().len() <= usize::MAX,
        0 <= c < scan.children().len(),
        is_sought(scan.children()[c], scan.query(), at),
    ensures
        exists|p: int| 0 <= p < ids@.len() && (#[trigger] ids@[p])@ == child_id(scan.children()[c]),
{
    let (children, query) = (scan.children(), scan.query());
    let n = children.len() as int;
    let keys = listed_keys(children, query, n);
    let all = strings(ids@);
    assert(all.len() == ids@.len());
    lemma_is_sought(children[c], query);
    lemma_listed_keys(children, query, n, c);
    lemma_listed_len(children, query, n);
    let order = lemma_listing(keys, all);
    let key = listed_key(children[c], query)->0;
    let x = choose|x: int| 0 <= x < keys.len() && keys[x] == key;
    assert(order.contains(x as usize));
    let p = choose|p: int| 0 <= p < order.len() && order[p] == x as usize;
    assert(all[p] == keys[order[p] as int].id);
    assert(ids@[p]@ == child_id(children[c]));
}

/// Nothing else is listed, and nothing twice.
pub proof fn law_only_what_is_sought_is_listed(scan: FolderScan, ids: Vec<String>, p: int, q: int)
    requires
        call_ensures(FolderScan::finish, (scan,), Ok(ids)),
        scan.children().len() <= usize::MAX,
        0 <= p < ids@.len(),
        0 <= q < ids@.len(),
    ensures
        exists|c: int, at: int|
            0 <= c < scan.children().len() && child_id(#[trigger] scan.children()[c]) == ids@[p]@
                && #[trigger] is_sought(scan.children()[c], scan.query(), at),
        distinct_children(scan.children()) && p != q ==> ids@[p]@ != ids@[q]@,
{
    let (children, query) = (scan.children(), scan.query());
    let n = children.len() as int;
    let keys = listed_keys(children, query, n);
    let all = strings(ids@);
    assert(all.len() == ids@.len());
    assert(all[p] == ids@[p]@ && all[q] == ids@[q]@);
    lemma_listed_len(children, query, n);
    let order = lemma_listing(keys, all);
    let c = lemma_key_of_child(children, query, n, order[p] as int);
    lemma_is_sought(children[c], query);
    let at = choose|at: int| is_sought(children[c], query, at);
    assert(is_sought(scan.children()[c], scan.query(), at));
    if distinct_children(children) && p != q {
        assert(order[p] != order[q]);
        if order[p] < order[q] {
            lemma_keys_apart(children, query, n, order[p] as int, order[q] as int);
        } else {
            lemma_keys_apart(children, query, n, order[q] as int, order[p] as int);
        }
    }
}

/// Keys at two places are those of two children.
proof fn lemma_keys_apart(children: Seq<FolderChild>, query: Seq<char>, n: int, x: int, y: int)
    requires
        distinct_children(children),
        0 <= n <= children.len(),
        0 <= x < y < listed_keys(children, query, n).len(),
    ensures
        listed_keys(children, query, n)[x].id != listed_keys(children, query, n)[y].id,
    decreases n,
{
    let before = listed_keys(children, query, n - 1);
    if y < before.len() {
        lemma_keys_apart(children, query, n - 1, x, y);
    } else {
        let c = lemma_key_of_child(children, query, n - 1, x);
        assert(child_id(children[c]) != child_id(children[n - 1]));
    }
}

/// A folder is read under the query that it was asked for, at the generation it
/// was asked for, from its first child on.
pub proof fn law_reading_begins_as_asked(
    generation: u32,
    total: usize,
    query: &str,
    limits: QueryLimits,
    result: Result<FolderScan, ProjectionStopped>,
)
    requires
        call_ensures(FolderScan::new, (generation, total, query, limits), result),
    ensures
        result is Ok ==> {
            &&& result->Ok_0.query() == query@
            &&& result->Ok_0.generation() == generation
            &&& result->Ok_0.total() == total
            &&& result->Ok_0.children().len() == 0
            &&& total <= limits.items
        },
        result is Err ==> result->Err_0 == ProjectionStopped::Budget,
{
}

/// The next children to read follow those that were read, up to 256 at a time,
/// until none is left.
pub proof fn law_batches_follow_each_other(scan: &FolderScan, range: Option<(usize, usize)>)
    requires
        call_ensures(FolderScan::next_batch, (scan,), range),
        scan.children().len() <= scan.total(),
    ensures
        range is None <==> scan.children().len() == scan.total(),
        range matches Some((start, end)) ==> {
            &&& start == scan.children().len()
            &&& start < end <= scan.total()
            &&& end - start <= 256
            &&& end < scan.total() ==> end - start == 256
        },
{
}

/// A child counts as a folder, as a title that can be played, or as neither.
pub proof fn law_children_count_by_what_they_are(
    is_folder: bool,
    mime: Option<&str>,
    kind: ChildKind,
)
    requires
        call_ensures(child_kind, (is_folder, mime), kind),
    ensures
        is_folder ==> kind == ChildKind::Folder,
        !is_folder && mime is Some && (is_of_video(mime->0@) || is_of_audio(mime->0@)) ==> kind
            == ChildKind::Playable,
        !is_folder && mime is Some && !(is_of_video(mime->0@) || is_of_audio(mime->0@)) ==> kind
            == ChildKind::Other,
        !is_folder && mime is None ==> kind == ChildKind::Other,
{
    reveal_strlit("video/");
    reveal_strlit("audio/");
    assert("video/"@ =~= seq!['v', 'i', 'd', 'e', 'o', '/']);
    assert("audio/"@ =~= seq!['a', 'u', 'd', 'i', 'o', '/']);
}

/// One more child adds one to the count of a folder, unless it is neither folder
/// nor playable.
pub proof fn law_one_more_child_counts_one(
    kinds: &[ChildKind],
    more: &[ChildKind],
    kind: ChildKind,
    count: usize,
    after: usize,
)
    requires
        call_ensures(count_children, (kinds,), count),
        call_ensures(count_children, (more,), after),
        more@ == kinds@.push(kind),
    ensures
        kind == ChildKind::Other ==> after == count,
        kind != ChildKind::Other ==> after == count + 1,
        kinds@.len() == 0 ==> count == 0,
{
    lemma_counted(kinds@, more@, kinds@.len() as int);
}

proof fn lemma_counted(a: Seq<ChildKind>, b: Seq<ChildKind>, n: int)
    requires
        0 <= n <= a.len(),
        n <= b.len(),
        forall|i: int| 0 <= i < n ==> a[i] == b[i],
    ensures
        shown_children(a, n) == shown_children(b, n),
    decreases n,
{
    if n > 0 {
        lemma_counted(a, b, n - 1);
    }
}

/// Whether a child is what is known of it.
pub open spec fn describes(fact: ChildFact, child: FolderChild) -> bool {
    match child {
        FolderChild::Folder { id, title } => fact.is_folder,
        FolderChild::Media(item) => !fact.is_folder && fact.mime is Some && fact.mime->0@
            == item.mime@,
        FolderChild::Missing => !fact.is_folder && fact.mime is None,
    }
}

proof fn lemma_count_is_length(children: Seq<FolderChild>, facts: Seq<ChildFact>, n: int)
    requires
        facts.len() == children.len(),
        0 <= n <= children.len(),
        forall|i: int| 0 <= i < n ==> describes(#[trigger] facts[i], children[i]),
    ensures
        shown_children(kinds_of(facts), n) == listed_keys(children, Seq::empty(), n).len(),
    decreases n,
{
    if n > 0 {
        lemma_count_is_length(children, facts, n - 1);
        assert(describes(facts[n - 1], children[n - 1]));
    }
}

/// The number that is shown beside a folder is the length of its list.
pub proof fn law_the_count_of_a_folder_is_the_length_of_its_list(
    counted: FolderCount,
    facts: Seq<ChildFact>,
    count: usize,
    scan: FolderScan,
    ids: Vec<String>,
)
    requires
        call_ensures(FolderCount::finish, (counted,), count),
        call_ensures(FolderScan::finish, (scan,), Ok(ids)),
        counted.kinds() == kinds_of(facts),
        counted.kinds().len() == counted.total(),
        scan.children().len() <= usize::MAX,
        scan.query().len() == 0,
        facts.len() == scan.children().len(),
        forall|i: int| 0 <= i < facts.len() ==> describes(#[trigger] facts[i], scan.children()[i]),
    ensures
        count == ids@.len(),
{
    let n = scan.children().len() as int;
    lemma_count_is_length(scan.children(), facts, n);
    assert(scan.query() =~= Seq::<char>::empty());
    let all = strings(ids@);
    assert(all.len() == ids@.len());
    lemma_listed_len(scan.children(), scan.query(), n);
    let order = lemma_listing(listed_keys(scan.children(), scan.query(), n), all);
}

/// A page of a folder is the part of its list that was asked for, and its head
/// says how long the list is and whether there is more.
pub proof fn law_folder_pages_are_parts_of_the_list(
    request: &LibraryRequest,
    generation: u32,
    ids: &[String],
    result: (Vec<String>, PageHead),
    p: int,
)
    requires
        call_ensures(folder_page, (request, generation, ids), result),
    ensures
        0 <= p < result.0@.len() ==> request.offset + p < ids@.len() && result.0@[p]@
            == ids@[request.offset + p]@,
        request.offset >= ids@.len() ==> result.0@.len() == 0,
        request.offset + request.limit <= ids@.len() ==> result.0@.len() == request.limit,
        request.offset < ids@.len() < request.offset + request.limit ==> result.0@.len()
            == ids@.len() - request.offset,
        result.1.total == ids@.len(),
        result.1.has_more <==> request.offset + result.0@.len() < ids@.len(),
        result.1.generation == generation,
        result.1.offset == request.offset,
        result.1.limit == request.limit,
        ids@.len() > 0 ==> result.1.library_state@ == "ready"@,
        ids@.len() == 0 ==> result.1.library_state@ == "empty"@,
{
    let all = strings(ids@);
    let page = strings(result.0@);
    assert(ids.len() <= usize::MAX);
    assert(all.len() == ids@.len());
    assert(page.len() == result.0@.len());
    if 0 <= p < result.0@.len() {
        assert(page[p] == result.0@[p]@);
        assert(all[request.offset + p] == ids@[request.offset + p]@);
    }
}

/// A page is answered exactly where it was read in time and nothing of it left the
/// catalog; and kept exactly where the catalog is the one that was read.
pub proof fn law_pages_are_of_one_catalog(
    entries: &[FolderChild],
    read: u32,
    current: u32,
    same_epoch: bool,
    in_time: bool,
    found: Result<(), ProjectionStopped>,
    settled: Result<(), ProjectionStopped>,
)
    requires
        call_ensures(page_entries, (entries, in_time), found),
        call_ensures(settle_page, (read, current, same_epoch, in_time), settled),
    ensures
        found is Ok <==> in_time && forall|i: int|
            0 <= i < entries@.len() ==> !(#[trigger] entries@[i] is Missing),
        settled is Ok <==> in_time && read == current && same_epoch,
        !in_time ==> found->Err_0 == ProjectionStopped::Budget && settled->Err_0
            == ProjectionStopped::Budget,
        in_time && found is Err ==> found->Err_0 == ProjectionStopped::Changed,
        in_time && settled is Err ==> settled->Err_0 == ProjectionStopped::Changed,
{
}

/// Breadcrumbs lead from the root to the folder, each folder standing in the one
/// before it.
pub proof fn law_breadcrumbs_lead_to_the_folder(
    folders: &[CatalogContainer],
    root: &str,
    folder: &str,
    found: Vec<usize>,
)
    requires
        call_ensures(physical_folder_chain, (folders, root, folder), Some(found)),
    ensures
        found@.len() > 0,
        forall|i: int| 0 <= i < found@.len() ==> (#[trigger] found@[i]) < folders@.len(),
        folders@[found@[0] as int].object_id@ == root@,
        folders@[found@.last() as int].object_id@ == folder@,
        forall|i: int|
            0 < i < found@.len() ==> folders@[#[trigger] found@[i] as int].parent_id@
                == folders@[found@[i - 1] as int].object_id@,
{
    let chain = crate::catalog::places(found@);
    crate::catalog::law_breadcrumbs_lead_down(folders@, root@, folder@);
    assert(chain.len() == found@.len());
    assert forall|i: int| 0 <= i < found@.len() implies (#[trigger] found@[i]) < folders@.len() by {
        assert(chain[i] == found@[i]);
    }
    assert(chain[0] == found@[0]);
    assert(chain.last() == found@.last());
    assert forall|i: int| 0 < i < found@.len() implies folders@[
        #[trigger] found@[i] as int
    ].parent_id@ == folders@[found@[i - 1] as int].object_id@ by {
        assert(chain[i] == found@[i] && chain[i - 1] == found@[i - 1]);
    }
}

/// How many children are read next: 256, or as many as are left.
pub open spec fn next_len(read: nat, total: nat) -> int {
    if total - read < 256 {
        total - read
    } else {
        256
    }
}

/// What is read is taken in whole, in order and once: the next children of the
/// same catalog, or nothing.
pub proof fn law_children_are_taken_in_order(
    scan: &mut FolderScan,
    generation: u32,
    batch: Option<Vec<FolderChild>>,
    in_time: bool,
    result: Result<(), ProjectionStopped>,
)
    requires
        call_ensures(FolderScan::accept, (scan, generation, batch, in_time), result),
        scan.children().len() < scan.total(),
    ensures
        result is Ok ==> {
            &&& in_time && generation == old(scan).generation() && batch is Some
            &&& final(scan).children() == old(scan).children() + batch->0@
            &&& 0 < batch->0@.len() <= 256
            &&& final(scan).children().len() <= old(scan).total()
        },
        result is Err ==> final(scan).children() == old(scan).children(),
        result == Err::<(), ProjectionStopped>(ProjectionStopped::Changed) ==> in_time && (
        generation != old(scan).generation() || batch is None || batch->0@.len() != next_len(
            old(scan).children().len(),
            old(scan).total(),
        )),
        !in_time ==> result == Err::<(), ProjectionStopped>(ProjectionStopped::Budget),
        final(scan).query() == old(scan).query(),
        final(scan).generation() == old(scan).generation(),
        final(scan).total() == old(scan).total(),
{
}

/// What is counted is taken in whole and once: a child that is a folder or can be
/// played counts, in whichever batch it comes.
pub proof fn law_children_are_counted_in_order(
    counter: &mut FolderCount,
    generation: u32,
    batch: Option<Vec<ChildFact>>,
    in_time: bool,
    result: Result<(), ProjectionStopped>,
    i: int,
)
    requires
        call_ensures(FolderCount::accept, (counter, generation, batch, in_time), result),
        counter.kinds().len() < counter.total(),
    ensures
        result is Ok ==> {
            &&& in_time && generation == old(counter).generation() && batch is Some
            &&& final(counter).kinds().len() == old(counter).kinds().len() + batch->0@.len()
        },
        result is Ok && 0 <= i < batch->0@.len() ==> {
            let fact = batch->0@[i];
            let kind = final(counter).kinds()[old(counter).kinds().len() + i];
            &&& fact.is_folder ==> kind == ChildKind::Folder
            &&& !fact.is_folder && fact.mime is Some && (is_of_video(fact.mime->0@) || is_of_audio(
                fact.mime->0@,
            )) ==> kind == ChildKind::Playable
            &&& !fact.is_folder && !(fact.mime is Some && (is_of_video(fact.mime->0@) || is_of_audio(
                fact.mime->0@,
            ))) ==> kind == ChildKind::Other
        },
        result is Err ==> final(counter).kinds() == old(counter).kinds(),
{
    reveal_strlit("video/");
    reveal_strlit("audio/");
    assert("video/"@ =~= seq!['v', 'i', 'd', 'e', 'o', '/']);
    assert("audio/"@ =~= seq!['a', 'u', 'd', 'i', 'o', '/']);
}

} // verus!
