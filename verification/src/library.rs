//! Requests for pages of the library.
use crate::encoding::{string_of, utf8_len, utf8_len_of};
use crate::folder::{
    is_folder_listing, is_key_order, is_wanted_generation, listed_key, listed_keys, strings,
    FolderChild,
};
use crate::catalog::{is_playable, lowercase, playable, to_lowercase, MediaItem};
use crate::listing::{
    distinct_ids, has_more, is_listing, law_pages_in_turn_are_the_list, memory_web_page,
    more_follows, page_of, pages_in_turn, MediaFilter, Sort,
};
use crate::problem::Problem;
use crate::query::{
    all_allowed, optional_number, same_text, value_of, Entries, QueryParams,
};
use crate::route::{decimal_id, id_of};
use crate::text::{chars_of, split, split_text, texts, trim, trimmed, CharClass};
use vstd::prelude::*;

verus! {

/// How many entries a page has unless another number is asked for.
pub const DEFAULT_PAGE_SIZE: usize = 60;

/// How many entries a page has at most.
pub const MAX_PAGE_SIZE: usize = 200;

/// How many titles can be asked for to continue watching.
pub const MAX_CONTINUE_IDS: usize = 100;

/// How long a search text is at most, in bytes.
pub const MAX_QUERY_BYTES: usize = 256;

/// How often a list is read again because the catalog changed meanwhile.
pub const MAX_GENERATION_ATTEMPTS: usize = 3;

/// Which view of the library a request is for.
#[derive(Clone, Copy, Debug, PartialEq, Eq, Structural)]
pub enum LibraryView {
    Folders,
    Library,
}

/// A request for a page of the library.
pub struct LibraryRequest {
    pub view: LibraryView,
    pub filter: MediaFilter,
    pub folder: Option<String>,
    pub offset: usize,
    pub limit: usize,
    pub generation: Option<u32>,
    pub sort: Sort,
    pub query: String,
}

/// The value of a parameter, or `default` where it is not given.
pub open spec fn value_or(entries: Entries, name: Seq<char>, default: Seq<char>) -> Seq<char> {
    match value_of(entries, name) {
        Some(value) => value,
        None => default,
    }
}

/// The view that a value names.
pub open spec fn view_named(value: Seq<char>) -> Option<LibraryView> {
    if value == "folders"@ {
        Some(LibraryView::Folders)
    } else if value == "library"@ {
        Some(LibraryView::Library)
    } else {
        None
    }
}

/// The filter that a value names.
pub open spec fn filter_named(value: Seq<char>) -> Option<MediaFilter> {
    if value == "all"@ {
        Some(MediaFilter::All)
    } else if value == "video"@ {
        Some(MediaFilter::Video)
    } else if value == "audio"@ {
        Some(MediaFilter::Audio)
    } else {
        None
    }
}

/// The order that a value names.
pub open spec fn sort_named(value: Seq<char>) -> Option<Sort> {
    if value == "title"@ {
        Some(Sort::Title)
    } else if value == "date_desc"@ {
        Some(Sort::DateDescending)
    } else if value == "episode"@ {
        Some(Sort::Episode)
    } else {
        None
    }
}

/// The search text: what was given, white space around it aside.
pub open spec fn search_text(entries: Entries) -> Seq<char> {
    trim(value_or(entries, "q"@, Seq::empty()), CharClass::White)
}

/// The parameters of a library request.
pub open spec fn library_names() -> Seq<&'static str> {
    seq!["view", "folder", "kind", "q", "offset", "limit", "generation", "sort"]
}

/// The page size, where it is allowed.
pub open spec fn page_size(entries: Entries) -> Option<nat> {
    match optional_number(entries, "limit"@, usize::MAX as nat) {
        Ok(Some(n)) => if 1 <= n <= MAX_PAGE_SIZE {
            Some(n)
        } else {
            None
        },
        Ok(None) => Some(DEFAULT_PAGE_SIZE as nat),
        Err(_) => None,
    }
}

/// The generation that was asked for.
pub open spec fn asked_generation(entries: Entries) -> Option<u32> {
    match optional_number(entries, "generation"@, u32::MAX as nat) {
        Ok(Some(n)) => Some(n as u32),
        _ => None,
    }
}

/// Why a library request is refused, if it is.
pub open spec fn library_problem(params: QueryParams, generation: u32) -> Option<Problem> {
    let entries = params.entries();
    let view = view_named(value_or(entries, "view"@, "folders"@));
    let filter = filter_named(value_or(entries, "kind"@, "all"@));
    if params.invalid() || !all_allowed(entries, library_names()) {
        Some(Problem::LibraryParameter)
    } else if view is None {
        Some(Problem::InvalidView)
    } else if filter is None {
        Some(Problem::InvalidKind)
    } else if view == Some(LibraryView::Folders) && filter != Some(MediaFilter::All) {
        Some(Problem::FolderKind)
    } else if view == Some(LibraryView::Library) && value_of(entries, "folder"@) is Some {
        Some(Problem::FolderOutsideFolderView)
    } else if optional_number(entries, "offset"@, usize::MAX as nat) is Err {
        Some(Problem::InvalidOffset)
    } else if page_size(entries) is None {
        Some(Problem::InvalidLimit)
    } else if optional_number(entries, "generation"@, u32::MAX as nat) is Err {
        Some(Problem::InvalidGeneration)
    } else if !is_wanted_generation(asked_generation(entries), generation) {
        Some(Problem::CatalogChanged)
    } else if sort_named(value_or(entries, "sort"@, "title"@)) is None {
        Some(Problem::InvalidSort)
    } else if utf8_len(search_text(entries)) > MAX_QUERY_BYTES {
        Some(Problem::InvalidQuery)
    } else {
        None
    }
}

/// Whether a request is the one that the parameters make.
pub open spec fn is_library_request(request: LibraryRequest, entries: Entries) -> bool {
    &&& view_named(value_or(entries, "view"@, "folders"@)) == Some(request.view)
    &&& filter_named(value_or(entries, "kind"@, "all"@)) == Some(request.filter)
    &&& match value_of(entries, "folder"@) {
        Some(folder) => if folder.len() == 0 {
            request.folder is None
        } else {
            request.folder matches Some(given) && given@ == folder
        },
        None => request.folder is None,
    }
    &&& match optional_number(entries, "offset"@, usize::MAX as nat) {
        Ok(Some(n)) => request.offset == n,
        _ => request.offset == 0,
    }
    &&& page_size(entries) == Some(request.limit as nat)
    &&& request.generation == asked_generation(entries)
    &&& sort_named(value_or(entries, "sort"@, "title"@)) == Some(request.sort)
    &&& request.query@ == search_text(entries)
}

/// The value of a parameter, or `default` where it is not given.
pub fn get_or<'a>(params: &'a QueryParams, name: &str, default: &'a str) -> (value: &'a str)
    ensures
        value@ == value_or(params.entries(), name@, default@),
{
    match params.get(name) {
        Some(value) => value,
        None => default,
    }
}

fn read_view(value: &str) -> (view: Option<LibraryView>)
    ensures
        view == view_named(value@),
{
    if same_text(value, "folders") {
        Some(LibraryView::Folders)
    } else if same_text(value, "library") {
        Some(LibraryView::Library)
    } else {
        None
    }
}

fn read_filter(value: &str) -> (filter: Option<MediaFilter>)
    ensures
        filter == filter_named(value@),
{
    if same_text(value, "all") {
        Some(MediaFilter::All)
    } else if same_text(value, "video") {
        Some(MediaFilter::Video)
    } else if same_text(value, "audio") {
        Some(MediaFilter::Audio)
    } else {
        None
    }
}

fn read_sort(value: &str) -> (sort: Option<Sort>)
    ensures
        sort == sort_named(value@),
{
    if same_text(value, "title") {
        Some(Sort::Title)
    } else if same_text(value, "date_desc") {
        Some(Sort::DateDescending)
    } else if same_text(value, "episode") {
        Some(Sort::Episode)
    } else {
        None
    }
}

/// Reads a library request against the catalog's generation.
pub fn library_request(params: &QueryParams, generation: u32) -> (result: Result<
    LibraryRequest,
    Problem,
>)
    ensures
        match result {
            Ok(request) => library_problem(*params, generation) is None && is_library_request(
                request,
                params.entries(),
            ),
            Err(problem) => library_problem(*params, generation) == Some(problem),
        },
{
    let names: [&str; 8] = [
        "view",
        "folder",
        "kind",
        "q",
        "offset",
        "limit",
        "generation",
        "sort",
    ];
    assert(names@ =~= library_names());
    if params.has_unknown(&names) {
        return Err(Problem::LibraryParameter);
    }
    let view = match read_view(get_or(params, "view", "folders")) {
        Some(view) => view,
        None => {
            return Err(Problem::InvalidView);
        },
    };
    let filter = match read_filter(get_or(params, "kind", "all")) {
        Some(filter) => filter,
        None => {
            return Err(Problem::InvalidKind);
        },
    };
    if view == LibraryView::Folders && filter != MediaFilter::All {
        return Err(Problem::FolderKind);
    }
    let given_folder = params.get("folder");
    if view == LibraryView::Library && given_folder.is_some() {
        return Err(Problem::FolderOutsideFolderView);
    }
    let offset: usize = match params.optional_usize("offset") {
        Ok(Some(value)) => value,
        Ok(None) => 0,
        Err(_) => {
            return Err(Problem::InvalidOffset);
        },
    };
    let limit: usize = match params.optional_usize("limit") {
        Ok(Some(value)) => if 1 <= value && value <= MAX_PAGE_SIZE {
            value
        } else {
            return Err(Problem::InvalidLimit);
        },
        Ok(None) => DEFAULT_PAGE_SIZE,
        Err(_) => {
            return Err(Problem::InvalidLimit);
        },
    };
    let requested: Option<u32> = match params.optional_u32("generation") {
        Ok(value) => value,
        Err(_) => {
            return Err(Problem::InvalidGeneration);
        },
    };
    if let Some(expected) = requested {
        if expected != generation {
            return Err(Problem::CatalogChanged);
        }
    }
    let sort = match read_sort(get_or(params, "sort", "title")) {
        Some(sort) => sort,
        None => {
            return Err(Problem::InvalidSort);
        },
    };
    proof {
        reveal_strlit("");
        assert(""@ =~= Seq::<char>::empty());
    }
    let search = chars_of(get_or(params, "q", ""));
    let query = trimmed(&search, CharClass::White);
    if utf8_len_of(query) > MAX_QUERY_BYTES {
        return Err(Problem::InvalidQuery);
    }
    let folder = match given_folder {
        Some(folder) => if folder.is_empty() {
            None
        } else {
            Some(folder.to_owned())
        },
        None => None,
    };
    Ok(
        LibraryRequest {
            view,
            filter,
            folder,
            offset,
            limit,
            generation: requested,
            sort,
            query: string_of(query),
        },
    )
}

// ---------------------------------------------------------------- snapshots

/// What reading a page from the database gave.
#[derive(Clone, Copy, Debug, PartialEq, Eq, Structural)]
pub enum SnapshotOutcome {
    /// The catalog changed while the page was read.
    Unsettled,
    /// There is no database to read from.
    Absent,
    /// A page of that generation.
    Page(u32),
}

/// What to do with it.
#[derive(Clone, Copy, Debug, PartialEq, Eq, Structural)]
pub enum SnapshotStep {
    /// Read it again.
    Retry,
    /// Answer with it, or from memory where there is none.
    Use,
    /// Refuse the request.
    Refuse(Problem),
}

/// Whether what was read belongs to the current catalog.
pub open spec fn is_settled(outcome: SnapshotOutcome, generation: u32) -> bool {
    match outcome {
        SnapshotOutcome::Unsettled => false,
        SnapshotOutcome::Absent => true,
        SnapshotOutcome::Page(read) => read == generation,
    }
}

/// What to do with what attempt number `attempt`, counted from zero, gave.
pub open spec fn snapshot_decision(
    attempt: int,
    outcome: SnapshotOutcome,
    requested: Option<u32>,
    generation: u32,
) -> SnapshotStep {
    if is_settled(outcome, generation) {
        if is_wanted_generation(requested, generation) {
            SnapshotStep::Use
        } else {
            SnapshotStep::Refuse(Problem::CatalogChanged)
        }
    } else if attempt + 1 < MAX_GENERATION_ATTEMPTS {
        SnapshotStep::Retry
    } else {
        SnapshotStep::Refuse(Problem::CatalogChanged)
    }
}

/// What to do with what attempt number `attempt`, counted from zero, gave.
pub fn snapshot_step(
    attempt: usize,
    outcome: SnapshotOutcome,
    requested: Option<u32>,
    generation: u32,
) -> (step: SnapshotStep)
    ensures
        step == snapshot_decision(attempt as int, outcome, requested, generation),
{
    let settled = match outcome {
        SnapshotOutcome::Unsettled => false,
        SnapshotOutcome::Absent => true,
        SnapshotOutcome::Page(read) => read == generation,
    };
    if settled {
        match requested {
            Some(expected) => if expected == generation {
                SnapshotStep::Use
            } else {
                SnapshotStep::Refuse(Problem::CatalogChanged)
            },
            None => SnapshotStep::Use,
        }
    } else if attempt < MAX_GENERATION_ATTEMPTS - 1 {
        SnapshotStep::Retry
    } else {
        SnapshotStep::Refuse(Problem::CatalogChanged)
    }
}

// -------------------------------------------------------- continue watching

/// The titles that a list of identifiers names: at most a hundred, each once,
/// separated by commas.
pub open spec fn continue_ids(value: Seq<char>) -> Option<Seq<i64>> {
    let parts = split(value, seq![',']);
    if value.len() == 0 {
        Some(Seq::empty())
    } else if parts.len() <= MAX_CONTINUE_IDS && all_ids(parts) && distinct_parts(parts) {
        Some(ids_of(parts))
    } else {
        None
    }
}

pub open spec fn all_ids(parts: Seq<Seq<char>>) -> bool {
    forall|i: int| 0 <= i < parts.len() ==> id_of(#[trigger] parts[i]) is Some
}

/// No two parts name the same title.
pub open spec fn distinct_parts(parts: Seq<Seq<char>>) -> bool {
    forall|i: int, j: int|
        0 <= i < j < parts.len() ==> id_of(#[trigger] parts[i]) != id_of(#[trigger] parts[j])
}

pub open spec fn ids_of(parts: Seq<Seq<char>>) -> Seq<i64> {
    parts.map_values(|part: Seq<char>| id_of(part)->0)
}

fn is_among(ids: &Vec<i64>, id: i64) -> (found: bool)
    ensures
        found == ids@.contains(id),
{
    let mut i: usize = 0;
    while i < ids.len()
        invariant
            i <= ids.len(),
            forall|j: int| 0 <= j < i ==> ids@[j] != id,
        decreases ids.len() - i,
    {
        if ids[i] == id {
            return true;
        }
        i += 1;
    }
    false
}

/// Reads the identifiers of the titles to continue.
pub fn continue_detail_ids(value: &str) -> (result: Result<Vec<i64>, ()>)
    ensures
        match result {
            Ok(ids) => continue_ids(value@) == Some(ids@),
            Err(_) => continue_ids(value@) is None,
        },
{
    let mut ids: Vec<i64> = Vec::new();
    if value.is_empty() {
        return Ok(ids);
    }
    let chars = chars_of(value);
    let comma: [char; 1] = [','];
    assert(comma@ =~= seq![',']);
    let parts = split_text(&chars, &comma);
    let ghost all = split(value@, seq![',']);
    assert(all.len() == parts@.len());
    if parts.len() > MAX_CONTINUE_IDS {
        return Err(());
    }
    let mut i: usize = 0;
    while i < parts.len()
        invariant
            i <= parts.len(),
            value@.len() > 0,
            parts@.len() <= MAX_CONTINUE_IDS,
            all == split(value@, seq![',']),
            texts(parts@) == all,
            all.len() == parts@.len(),
            ids@.len() == i,
            forall|j: int| 0 <= j < i ==> id_of(#[trigger] all[j]) == Some(ids@[j]),
            forall|j: int, k: int| 0 <= j < k < i ==> ids@[j] != ids@[k],
        decreases parts.len() - i,
    {
        assert(all[i as int] == parts@[i as int]@);
        match decimal_id(string_of(parts[i]).as_str()) {
            Some(id) => {
                if is_among(&ids, id) {
                    proof {
                        let j = choose|j: int| 0 <= j < ids@.len() && ids@[j] == id;
                        assert(id_of(all[j]) == id_of(all[i as int]));
                    }
                    return Err(());
                }
                ids.push(id);
            },
            None => {
                assert(!all_ids(all));
                return Err(());
            },
        }
        i += 1;
    }
    proof {
        assert(ids@ =~= ids_of(all));
        assert forall|j: int, k: int| 0 <= j < k < all.len() implies id_of(#[trigger] all[j])
            != id_of(#[trigger] all[k]) by {
            assert(ids@[j] != ids@[k]);
        }
    }
    Ok(ids)
}

/// A request for the titles to continue.
pub struct ContinueRequest {
    pub ids: Vec<i64>,
    pub generation: Option<u32>,
}

/// The parameters of a request for the titles to continue.
pub open spec fn continue_names() -> Seq<&'static str> {
    seq!["view", "ids", "generation"]
}

/// Why a request for the titles to continue is refused, if it is.
pub open spec fn continue_problem(params: QueryParams, generation: u32) -> Option<Problem> {
    let entries = params.entries();
    if params.invalid() || !all_allowed(entries, continue_names()) {
        Some(Problem::ContinueParameter)
    } else if continue_ids(value_or(entries, "ids"@, Seq::empty())) is None {
        Some(Problem::InvalidIds)
    } else if optional_number(entries, "generation"@, u32::MAX as nat) is Err {
        Some(Problem::InvalidGeneration)
    } else if !is_wanted_generation(asked_generation(entries), generation) {
        Some(Problem::ContinueChanged)
    } else {
        None
    }
}

/// Reads a request for the titles to continue, against the catalog's generation.
pub fn continue_request(params: &QueryParams, generation: u32) -> (result: Result<
    ContinueRequest,
    Problem,
>)
    ensures
        match result {
            Ok(request) => {
                &&& continue_problem(*params, generation) is None
                &&& continue_ids(value_or(params.entries(), "ids"@, Seq::empty())) == Some(
                    request.ids@,
                )
                &&& request.generation == asked_generation(params.entries())
            },
            Err(problem) => continue_problem(*params, generation) == Some(problem),
        },
{
    let names: [&str; 3] = ["view", "ids", "generation"];
    assert(names@ =~= continue_names());
    if params.has_unknown(&names) {
        return Err(Problem::ContinueParameter);
    }
    proof {
        reveal_strlit("");
        assert(""@ =~= Seq::<char>::empty());
    }
    let ids = match continue_detail_ids(get_or(params, "ids", "")) {
        Ok(ids) => ids,
        Err(_) => {
            return Err(Problem::InvalidIds);
        },
    };
    let requested: Option<u32> = match params.optional_u32("generation") {
        Ok(requested) => requested,
        Err(_) => {
            return Err(Problem::InvalidGeneration);
        },
    };
    if let Some(expected) = requested {
        if expected != generation {
            return Err(Problem::ContinueChanged);
        }
    }
    Ok(ContinueRequest { ids, generation: requested })
}

/// The places of the titles that are found and can be played, in order.
pub open spec fn shown_places(mimes: Seq<Option<String>>, n: int) -> Seq<usize>
    decreases n,
{
    if n <= 0 {
        Seq::empty()
    } else if mimes[n - 1] matches Some(mime) && is_playable(mime@) {
        shown_places(mimes, n - 1).push((n - 1) as usize)
    } else {
        shown_places(mimes, n - 1)
    }
}

/// The places of the titles that are found and can be played, in order. Each
/// title is given by its media type, or by nothing where it left the catalog.
pub fn continue_places(mimes: &[Option<String>]) -> (places: Vec<usize>)
    ensures
        places@ == shown_places(mimes@, mimes@.len() as int),
{
    let mut places: Vec<usize> = Vec::new();
    let mut i: usize = 0;
    while i < mimes.len()
        invariant
            i <= mimes.len(),
            places@ == shown_places(mimes@, i as int),
        decreases mimes.len() - i,
    {
        let shown = match &mimes[i] {
            Some(mime) => playable(mime.as_str()),
            None => false,
        };
        if shown {
            places.push(i);
        }
        i += 1;
    }
    places
}

/// Whether the library has anything to play: something stands in the list of all
/// videos or in that of all music.
pub fn library_has_media(all_videos: usize, all_music: usize) -> (result: bool)
    ensures
        result == (all_videos > 0 || all_music > 0),
{
    all_videos > 0 || all_music > 0
}

// -------------------------------------------------------------------- pages

/// What a page says of itself, its entries aside.
pub struct PageHead {
    pub generation: u32,
    pub library_state: &'static str,
    pub view: &'static str,
    pub offset: usize,
    pub limit: usize,
    pub total: usize,
    pub has_more: bool,
    pub query: String,
    pub sort: &'static str,
}

/// Whether there is anything to show.
pub open spec fn state_name(ready: bool) -> Seq<char> {
    if ready {
        "ready"@
    } else {
        "empty"@
    }
}

fn state_text(ready: bool) -> (state: &'static str)
    ensures
        state@ == state_name(ready),
{
    if ready {
        "ready"
    } else {
        "empty"
    }
}

/// The name of a view.
pub open spec fn view_name(view: LibraryView) -> Seq<char> {
    match view {
        LibraryView::Folders => "folders"@,
        LibraryView::Library => "library"@,
    }
}

/// The name of an order.
pub open spec fn sort_name(sort: Sort) -> Seq<char> {
    match sort {
        Sort::Title => "title"@,
        Sort::DateDescending => "date_desc"@,
        Sort::Episode => "episode"@,
    }
}

/// Whether a head is that of a page with `shown` of the `total` entries that a
/// request finds.
pub open spec fn is_library_head(
    head: PageHead,
    request: LibraryRequest,
    generation: u32,
    total: usize,
    shown: int,
) -> bool {
    &&& head.generation == generation
    &&& head.library_state@ == state_name(total > 0)
    &&& head.view@ == view_name(request.view)
    &&& head.offset == request.offset
    &&& head.limit == request.limit
    &&& head.total == total
    &&& head.has_more == has_more(total as int, request.offset as int, shown)
    &&& head.query@ == request.query@
    &&& head.sort@ == sort_name(request.sort)
}

/// The head of a page with `shown` of the `total` entries that a request finds.
pub fn library_head(request: &LibraryRequest, generation: u32, total: usize, shown: usize) -> (head:
    PageHead)
    ensures
        is_library_head(head, *request, generation, total, shown as int),
{
    PageHead {
        generation,
        library_state: state_text(total > 0),
        view: match request.view {
            LibraryView::Folders => "folders",
            LibraryView::Library => "library",
        },
        offset: request.offset,
        limit: request.limit,
        total,
        has_more: more_follows(total, request.offset, shown),
        query: request.query.as_str().to_owned(),
        sort: match request.sort {
            Sort::Title => "title",
            Sort::DateDescending => "date_desc",
            Sort::Episode => "episode",
        },
    }
}

/// The search text in the form that titles are compared with.
pub fn normalized_query(request: &LibraryRequest) -> (query: String)
    ensures
        query@ == lowercase(request.query@),
{
    to_lowercase(request.query.as_str())
}

/// The page that a request asks for of titles in memory: their places, and the
/// head of the page.
pub fn library_page(request: &LibraryRequest, generation: u32, items: &[MediaItem]) -> (result: (
    Vec<usize>,
    PageHead,
))
    requires
        distinct_ids(items@),
    ensures
        exists|all: Seq<usize>|
            {
                &&& #[trigger] is_listing(
                    items@,
                    request.filter,
                    lowercase(request.query@),
                    request.sort,
                    all,
                )
                &&& result.0@ == page_of(all, request.offset as int, request.limit as int)
                &&& result.1.total == all.len()
            },
        is_library_head(result.1, *request, generation, result.1.total, result.0@.len() as int),
{
    let query = normalized_query(request);
    let (places, total) = memory_web_page(
        items,
        request.filter,
        query.as_str(),
        request.sort,
        request.offset,
        request.limit,
    );
    let head = library_head(request, generation, total, places.len());
    (places, head)
}

/// The page that a request asks for of a folder's entries: their identifiers,
/// and the head of the page.
pub fn folder_page(request: &LibraryRequest, generation: u32, ids: &[String]) -> (result: (
    Vec<String>,
    PageHead,
))
    ensures
        strings(result.0@) == page_of(
            strings(ids@),
            request.offset as int,
            request.limit as int,
        ),
        is_library_head(
            result.1,
            *request,
            generation,
            ids@.len() as usize,
            result.0@.len() as int,
        ),
{
    let total: usize = ids.len();
    let start: usize = if request.offset <= total {
        request.offset
    } else {
        total
    };
    let end: usize = if request.limit >= total - start {
        total
    } else {
        start + request.limit
    };
    let mut page: Vec<String> = Vec::new();
    let mut i: usize = start;
    while i < end
        invariant
            start <= i <= end <= ids@.len(),
            page@.len() == i - start,
            forall|j: int| 0 <= j < page@.len() ==> (#[trigger] page@[j])@ == ids@[start + j]@,
        decreases end - i,
    {
        page.push(ids[i].clone());
        i += 1;
    }
    proof {
        let all = strings(ids@);
        assert(all.len() == ids@.len());
        assert(strings(page@) =~= page_of(all, request.offset as int, request.limit as int));
    }
    let head = library_head(request, generation, total, page.len());
    (page, head)
}

/// The head of the page with the titles to continue, of which `shown` are still
/// there. It says whether the library has anything to play, not whether the page
/// has.
pub fn continue_head(request: &ContinueRequest, generation: u32, has_media: bool, shown: usize) -> (
    head: PageHead)
    ensures
        head.generation == generation,
        head.library_state@ == state_name(has_media),
        head.view@ == "continue"@,
        head.offset == 0,
        head.limit == request.ids@.len(),
        head.total == shown,
        !head.has_more,
        head.query@ == Seq::<char>::empty(),
        head.sort@ == "recent_progress"@,
{
    proof {
        reveal_strlit("");
        assert(""@ =~= Seq::<char>::empty());
    }
    PageHead {
        generation,
        library_state: state_text(has_media),
        view: "continue",
        offset: 0,
        limit: request.ids.len(),
        total: shown,
        has_more: false,
        query: "".to_owned(),
        sort: "recent_progress",
    }
}

// -------------------------------------------------------------------- laws

/// The identifiers to continue are distinct, positive, and at most a hundred.
pub proof fn law_continue_ids_are_bounded(value: Seq<char>)
    requires
        continue_ids(value) is Some,
    ensures
        continue_ids(value)->0.len() <= MAX_CONTINUE_IDS,
        continue_ids(value)->0.no_duplicates(),
        forall|i: int|
            0 <= i < continue_ids(value)->0.len() ==> #[trigger] continue_ids(value)->0[i] > 0,
{
    let ids = continue_ids(value)->0;
    if value.len() > 0 {
        let parts = split(value, seq![',']);
        assert forall|i: int| 0 <= i < ids.len() implies #[trigger] ids[i] > 0 by {
            assert(id_of(parts[i]) is Some);
        }
        assert forall|i: int, j: int| 0 <= i < ids.len() && 0 <= j < ids.len() && i != j implies ids[
            i
        ] != ids[j] by {
            assert(id_of(parts[i]) is Some);
            assert(id_of(parts[j]) is Some);
            if i < j {
                assert(id_of(parts[i]) != id_of(parts[j]));
            } else {
                assert(id_of(parts[j]) != id_of(parts[i]));
            }
        }
    }
}

/// A list is read at most three times, and whatever is answered from is of the
/// generation that was asked for.
pub proof fn law_snapshots_settle(
    attempt: int,
    outcome: SnapshotOutcome,
    requested: Option<u32>,
    generation: u32,
)
    ensures
        attempt >= MAX_GENERATION_ATTEMPTS - 1 ==> snapshot_decision(
            attempt,
            outcome,
            requested,
            generation,
        ) != SnapshotStep::Retry,
        snapshot_decision(attempt, outcome, requested, generation) == SnapshotStep::Use
            ==> is_settled(outcome, generation) && is_wanted_generation(requested, generation),
{
}


/// Whatever is asked for, a page has at most two hundred entries, and a search
/// text at most 256 bytes.
pub proof fn law_pages_are_bounded<T>(
    request: LibraryRequest,
    params: QueryParams,
    generation: u32,
    all: Seq<T>,
)
    requires
        library_problem(params, generation) is None,
        is_library_request(request, params.entries()),
    ensures
        1 <= request.limit <= MAX_PAGE_SIZE,
        page_of(all, request.offset as int, request.limit as int).len() <= request.limit,
        utf8_len(request.query@) <= MAX_QUERY_BYTES,
        request.view == LibraryView::Library ==> request.folder is None,
        request.view == LibraryView::Folders ==> request.filter == MediaFilter::All,
{
}

pub(crate) proof fn lemma_listed_keys(children: Seq<FolderChild>, query: Seq<char>, n: int, i: int)
    requires
        0 <= i < n <= children.len(),
        listed_key(children[i], query) is Some,
    ensures
        listed_keys(children, query, n).contains(listed_key(children[i], query)->0),
    decreases n,
{
    let keys = listed_keys(children, query, n);
    let before = listed_keys(children, query, n - 1);
    if i < n - 1 {
        lemma_listed_keys(children, query, n - 1, i);
        let key = listed_key(children[i], query)->0;
        let j = choose|j: int| 0 <= j < before.len() && before[j] == key;
        assert(keys[j] == key);
    } else {
        assert(keys[keys.len() - 1] == listed_key(children[i], query)->0);
    }
}

pub(crate) proof fn lemma_order_len(n: nat, order: Seq<usize>)
    requires
        order.no_duplicates(),
        n <= usize::MAX,
        forall|x: usize| #[trigger] order.contains(x) <==> x < n,
    ensures
        order.len() == n,
{
    let places = Seq::new(n, |i: int| i as usize);
    assert(places.no_duplicates());
    assert(order.to_set() =~= places.to_set()) by {
        assert forall|x: usize| places.contains(x) <==> x < n by {
            if x < n {
                assert(places[x as int] == x);
            }
        }
    }
    order.unique_seq_to_set();
    places.unique_seq_to_set();
}

/// The pages of a folder, one behind the other, list every child folder and every
/// title that matches exactly once, in order, and only the last of them has
/// nothing behind it.
pub proof fn law_folder_pages_list_every_entry(
    children: Seq<FolderChild>,
    query: Seq<char>,
    ids: Seq<Seq<char>>,
    limit: int,
    count: int,
)
    requires
        children.len() <= usize::MAX,
        is_folder_listing(listed_keys(children, query, children.len() as int), ids),
        0 < limit,
        0 < count,
        (count - 1) * limit < ids.len() <= count * limit,
    ensures
        ({
            let keys = listed_keys(children, query, children.len() as int);
            &&& forall|i: int|
                0 <= i < children.len() && (#[trigger] listed_key(children[i], query)) is Some
                    ==> keys.contains(listed_key(children[i], query)->0)
            &&& ids.len() == keys.len()
            &&& exists|order: Seq<usize>|
                {
                    &&& #[trigger] is_key_order(keys, order)
                    &&& order.len() == keys.len()
                    &&& pages_in_turn(ids, limit, count) == order.map_values(
                        |i: usize| keys[i as int].id,
                    )
                }
            &&& forall|k: int|
                0 <= k < count ==> (has_more(
                    ids.len() as int,
                    k * limit,
                    (#[trigger] page_of(ids, k * limit, limit)).len() as int,
                ) <==> k < count - 1)
        }),
{
    let n = children.len() as int;
    let keys = listed_keys(children, query, n);
    law_pages_in_turn_are_the_list(ids, limit, count);
    assert forall|i: int|
        0 <= i < children.len() && (#[trigger] listed_key(children[i], query)) is Some implies keys.contains(
        listed_key(children[i], query)->0,
    ) by {
        lemma_listed_keys(children, query, n, i);
    }
    lemma_listed_len(children, query, n);
    let order = choose|order: Seq<usize>|
        #[trigger] is_key_order(keys, order) && ids == order.map_values(
            |i: usize| keys[i as int].id,
        );
    lemma_order_len(keys.len(), order);
}

pub(crate) proof fn lemma_listed_len(children: Seq<FolderChild>, query: Seq<char>, n: int)
    requires
        0 <= n <= children.len(),
    ensures
        listed_keys(children, query, n).len() <= n,
    decreases n,
{
    if n > 0 {
        lemma_listed_len(children, query, n - 1);
    }
}

} // verus!
