//! Titles and folders of the library: searching, ordering and paging them.
use crate::caption::CaptionWebVttConversion;
use crate::codec::ProbeInfo;
use crate::query::same_text;
use crate::text::{begins_with, chars_of, holds_text, index_of, lemma_find, starts_with};
use crate::track::opt;
use vstd::prelude::*;

verus! {

/// The Unicode lower case of a text.
pub uninterp spec fn lowercase(text: Seq<char>) -> Seq<char>;

/// `str::to_lowercase` gives the Unicode lower case of a text.
#[verifier::external_body]
pub(crate) fn to_lowercase(text: &str) -> (result: String)
    ensures
        result@ == lowercase(text@),
{
    text.to_lowercase()
}

/// A caption file beside a title.
pub struct CaptionFile {
    pub index: u32,
    pub ext: String,
    pub language: Option<String>,
    /// How a file with that extension becomes WebVTT, where it can.
    pub conversion: Option<CaptionWebVttConversion>,
}

/// A title.
pub struct MediaItem {
    pub object_id: String,
    pub detail_id: i64,
    pub title: String,
    /// The last component of the path, where there is one.
    pub path_name: Option<String>,
    /// The key that titles are ordered by.
    pub title_key: String,
    pub mime: String,
    pub ext: String,
    pub date: String,
    pub duration: Option<String>,
    pub resolution: Option<String>,
    pub artist: Option<String>,
    pub album_artist: Option<String>,
    pub album: Option<String>,
    pub disc: Option<i64>,
    pub track: Option<i64>,
    pub about: Option<String>,
    pub plot: Option<String>,
    pub genre: Option<String>,
    pub creator: Option<String>,
    pub composer: Option<String>,
    pub bitrate: Option<i64>,
    pub channels: Option<i64>,
    pub samplerate: Option<i64>,
    pub size: u64,
    pub device: u64,
    pub inode: u64,
    pub album_art: i64,
    pub captions: Vec<CaptionFile>,
    pub probe: ProbeInfo,
}

/// A folder.
pub struct CatalogContainer {
    pub object_id: String,
    pub parent_id: String,
    pub title: String,
}

// ---------------------------------------------------------------- searching

pub open spec fn is_video(mime: Seq<char>) -> bool {
    starts_with(mime, "video/"@)
}

pub open spec fn is_audio(mime: Seq<char>) -> bool {
    starts_with(mime, "audio/"@)
}

/// Video or audio.
pub open spec fn is_playable(mime: Seq<char>) -> bool {
    is_video(mime) || is_audio(mime)
}

pub fn video(mime: &str) -> (result: bool)
    ensures
        result == is_video(mime@),
{
    begins_with(&chars_of(mime), "video/")
}

pub fn audio(mime: &str) -> (result: bool)
    ensures
        result == is_audio(mime@),
{
    begins_with(&chars_of(mime), "audio/")
}

/// Video or audio.
pub fn playable(mime: &str) -> (result: bool)
    ensures
        result == is_playable(mime@),
{
    video(mime) || audio(mime)
}

/// The name of a title's file, or its title where it has none.
pub open spec fn file_name(item: MediaItem) -> Seq<char> {
    match item.path_name {
        Some(name) => if name@.len() > 0 {
            name@
        } else {
            item.title@
        },
        None => item.title@,
    }
}

/// The name of a title's file, or its title where it has none.
pub fn media_file_name(item: &MediaItem) -> (name: String)
    ensures
        name@ == file_name(*item),
{
    match &item.path_name {
        Some(name) => if name.as_str().is_empty() {
            item.title.clone()
        } else {
            name.clone()
        },
        None => item.title.clone(),
    }
}

/// Whether one of the texts, each already in lower case, holds the query.
pub open spec fn any_holds(texts: Seq<String>, query: Seq<char>) -> bool {
    exists|i: int| 0 <= i < texts.len() && holds_text((#[trigger] texts[i])@, query)
}

/// Whether one of the texts, each already in lower case, holds the query.
pub fn any_text_holds(texts: &[String], query: &str) -> (found: bool)
    ensures
        found == any_holds(texts@, query@),
{
    let part = chars_of(query);
    let mut i: usize = 0;
    while i < texts.len()
        invariant
            i <= texts.len(),
            part@ == query@,
            forall|j: int| 0 <= j < i ==> !holds_text((#[trigger] texts@[j])@, query@),
        decreases texts.len() - i,
    {
        let text = chars_of(texts[i].as_str());
        proof {
            lemma_find(text@, query@);
        }
        if index_of(&text, &part).is_some() {
            return true;
        }
        i += 1;
    }
    false
}

/// Whether an optional text, in lower case, holds the query.
pub open spec fn optional_holds(text: Option<Seq<char>>, query: Seq<char>) -> bool {
    text matches Some(text) && holds_text(lowercase(text), query)
}

/// Whether a title is found under a query in lower case: by its file name, its
/// title, its artist, its album artist or its album.
pub open spec fn is_match(item: MediaItem, query: Seq<char>) -> bool {
    ||| holds_text(lowercase(file_name(item)), query)
    ||| holds_text(lowercase(item.title@), query)
    ||| optional_holds(opt(item.artist), query)
    ||| optional_holds(opt(item.album_artist), query)
    ||| optional_holds(opt(item.album), query)
}

/// Whether the lower case of a text holds a query.
fn lower_holds(text: &str, query: &str) -> (found: bool)
    ensures
        found == holds_text(lowercase(text@), query@),
{
    let lower: Vec<String> = vec![to_lowercase(text)];
    assert(lower@[0]@ == lowercase(text@));
    any_text_holds(&lower, query)
}

fn optional_lower_holds(text: &Option<String>, query: &str) -> (found: bool)
    ensures
        found == optional_holds(opt(*text), query@),
{
    match text {
        Some(text) => lower_holds(text.as_str(), query),
        None => false,
    }
}

/// Whether a title is found under a query in lower case.
pub fn media_matches(item: &MediaItem, query: &str) -> (found: bool)
    ensures
        found == is_match(*item, query@),
{
    lower_holds(media_file_name(item).as_str(), query) || lower_holds(item.title.as_str(), query)
        || optional_lower_holds(&item.artist, query) || optional_lower_holds(
        &item.album_artist,
        query,
    ) || optional_lower_holds(&item.album, query)
}

// -------------------------------------------------------------- breadcrumbs

/// The first index from `from` on of a folder with that identifier.
pub open spec fn folder_at(folders: Seq<CatalogContainer>, id: Seq<char>, from: int) -> Option<int>
    decreases folders.len() - from,
{
    if from < 0 || from >= folders.len() {
        None
    } else if folders[from].object_id@ == id {
        Some(from)
    } else {
        folder_at(folders, id, from + 1)
    }
}

/// The folders from the root down to `id`, found by at most `steps` steps up.
pub open spec fn chain(
    folders: Seq<CatalogContainer>,
    root: Seq<char>,
    id: Seq<char>,
    steps: nat,
) -> Option<Seq<int>>
    decreases steps,
{
    match folder_at(folders, id, 0) {
        Some(i) => if steps == 0 {
            None
        } else if folders[i].object_id@ == root {
            Some(seq![i])
        } else if folders[i].parent_id@ == folders[i].object_id@ {
            None
        } else {
            match chain(folders, root, folders[i].parent_id@, (steps - 1) as nat) {
                Some(above) => Some(above.push(i)),
                None => None,
            }
        },
        None => None,
    }
}

/// The folders from the root down to `id`, where steps up lead there.
pub open spec fn folder_chain(folders: Seq<CatalogContainer>, root: Seq<char>, id: Seq<char>) -> Option<
    Seq<int>,
> {
    chain(folders, root, id, folders.len() + 1)
}

fn find_folder(folders: &[CatalogContainer], id: &str) -> (result: Option<usize>)
    ensures
        match result {
            Some(i) => folder_at(folders@, id@, 0) == Some(i as int) && i < folders.len(),
            None => folder_at(folders@, id@, 0) is None,
        },
{
    let mut i: usize = 0;
    while i < folders.len()
        invariant
            i <= folders.len(),
            folder_at(folders@, id@, 0) == folder_at(folders@, id@, i as int),
        decreases folders.len() - i,
    {
        if same_text(folders[i].object_id.as_str(), id) {
            return Some(i);
        }
        i += 1;
    }
    None
}

/// The places of folders.
pub open spec fn places(indices: Seq<usize>) -> Seq<int> {
    indices.map_values(|i: usize| i as int)
}

/// The places of the folders from the root down to `folder_id`.
pub fn physical_folder_chain(folders: &[CatalogContainer], root: &str, folder_id: &str) -> (result:
    Option<Vec<usize>>)
    ensures
        match result {
            Some(found) => folder_chain(folders@, root@, folder_id@) == Some(places(found@)),
            None => folder_chain(folders@, root@, folder_id@) is None,
        },
{
    let mut upward: Vec<usize> = Vec::new();
    let mut current = folder_id.to_owned();
    let ghost total = (folders@.len() + 1) as nat;
    let mut used: usize = 0;
    loop
        invariant
            used <= folders.len(),
            total == folders@.len() + 1,
            upward@.len() == used,
            match chain(folders@, root@, current@, (total - used) as nat) {
                Some(above) => folder_chain(folders@, root@, folder_id@) == Some(
                    above + places(upward@).reverse(),
                ),
                None => folder_chain(folders@, root@, folder_id@) is None,
            },
        decreases folders.len() - used,
    {
        let ghost left = (total - used) as nat;
        let ghost before = upward@;
        let i: usize = match find_folder(folders, current.as_str()) {
            Some(i) => i,
            None => {
                return None;
            },
        };
        upward.push(i);
        assert(places(upward@) =~= places(before).push(i as int));
        if same_text(folders[i].object_id.as_str(), root) {
            let found = reversed(&upward);
            assert(places(found@) =~= seq![i as int] + places(before).reverse());
            return Some(found);
        }
        if same_text(folders[i].parent_id.as_str(), folders[i].object_id.as_str()) {
            return None;
        }
        if used == folders.len() {
            proof {
                assert(left == 1);
                assert(chain(folders@, root@, folders@[i as int].parent_id@, 0) is None);
            }
            return None;
        }
        current = folders[i].parent_id.clone();
        proof {
            let above = chain(folders@, root@, current@, (left - 1) as nat);
            if above is Some {
                assert(above->0.push(i as int) + places(before).reverse() =~= above->0 + places(
                    upward@,
                ).reverse());
            }
        }
        used += 1;
    }
}

fn reversed(items: &Vec<usize>) -> (result: Vec<usize>)
    ensures
        result@ == items@.reverse(),
{
    let mut result: Vec<usize> = Vec::new();
    let mut i: usize = items.len();
    while i > 0
        invariant
            i <= items.len(),
            result@.len() == items@.len() - i,
            forall|j: int| 0 <= j < result@.len() ==> result@[j] == items@.reverse()[j],
        decreases i,
    {
        i -= 1;
        result.push(items[i]);
    }
    assert(result@ =~= items@.reverse());
    result
}

proof fn lemma_folder_at(folders: Seq<CatalogContainer>, id: Seq<char>, from: int)
    requires
        0 <= from,
    ensures
        folder_at(folders, id, from) matches Some(i) ==> from <= i < folders.len()
            && folders[i].object_id@ == id,
    decreases folders.len() - from,
{
    if from < folders.len() && folders[from].object_id@ != id {
        lemma_folder_at(folders, id, from + 1);
    }
}

proof fn lemma_chain(folders: Seq<CatalogContainer>, root: Seq<char>, id: Seq<char>, steps: nat)
    ensures
        chain(folders, root, id, steps) matches Some(found) ==> {
            &&& found.len() > 0
            &&& forall|i: int| 0 <= i < found.len() ==> 0 <= #[trigger] found[i] < folders.len()
            &&& folders[found[0]].object_id@ == root
            &&& folders[found.last()].object_id@ == id
            &&& forall|i: int|
                0 < i < found.len() ==> folders[#[trigger] found[i]].parent_id@
                    == folders[found[i - 1]].object_id@
        },
    decreases steps,
{
    lemma_folder_at(folders, id, 0);
    match folder_at(folders, id, 0) {
        Some(k) => {
            if steps > 0 && folders[k].object_id@ != root && folders[k].parent_id@
                != folders[k].object_id@ {
                let up = folders[k].parent_id@;
                lemma_chain(folders, root, up, (steps - 1) as nat);
                match chain(folders, root, up, (steps - 1) as nat) {
                    Some(above) => {
                        let found = above.push(k);
                        assert(found[0] == above[0]);
                        assert forall|i: int| 0 < i < found.len() implies folders[
                            #[trigger] found[i]
                        ].parent_id@ == folders[found[i - 1]].object_id@ by {
                            if i < above.len() {
                                assert(found[i] == above[i]);
                                assert(found[i - 1] == above[i - 1]);
                            } else {
                                assert(found[i - 1] == above.last());
                            }
                        }
                    },
                    None => {},
                }
            }
        },
        None => {},
    }
}

/// Breadcrumbs begin at the root, end at the folder, and every folder among them
/// stands in the one before.
pub proof fn law_breadcrumbs_lead_down(
    folders: Seq<CatalogContainer>,
    root: Seq<char>,
    id: Seq<char>,
)
    ensures
        folder_chain(folders, root, id) matches Some(found) ==> {
            &&& found.len() > 0
            &&& forall|i: int| 0 <= i < found.len() ==> 0 <= #[trigger] found[i] < folders.len()
            &&& folders[found[0]].object_id@ == root
            &&& folders[found.last()].object_id@ == id
            &&& forall|i: int|
                0 < i < found.len() ==> folders[#[trigger] found[i]].parent_id@
                    == folders[found[i - 1]].object_id@
        },
{
    lemma_chain(folders, root, id, folders.len() + 1);
}

} // verus!
