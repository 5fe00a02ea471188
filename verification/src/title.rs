//! Requests for the details of a title and for its original file.
use crate::catalog::{file_name, is_playable, is_video, media_file_name, playable, video, MediaItem};
use crate::codec::ProbeInfo;
use crate::conversion::OpenFailure;
use crate::download::{disposition, download_content_disposition, download_name};
use crate::encoding::string_of;
use crate::http::{is_current, item_etag, item_tag, with_header, HttpResponse};
use crate::number::{signed_chars, signed_text};
use crate::problem::Problem;
use crate::query::{
    all_allowed, is_well_formed, query_entries, same_text, value_of, Entries, QueryParams,
};
use crate::route::{id_under, web_download_id, web_item_id};
use crate::text::{append_chars, chars_of};
use vstd::prelude::*;

verus! {

// ------------------------------------------------------------------ details

/// A request for the details of a title.
#[derive(Clone, Copy, Debug, PartialEq, Eq, Structural)]
pub struct ItemRequest {
    pub id: i64,
    /// Whether the file is looked into anew.
    pub enrich: bool,
}

/// Whether a request asks to look into the file anew, where it says so.
pub open spec fn enrichment(entries: Entries) -> Option<bool> {
    match value_of(entries, "enrich"@) {
        None => Some(false),
        Some(value) => if value == "0"@ {
            Some(false)
        } else if value == "1"@ {
            Some(true)
        } else {
            None
        },
    }
}

/// Why a request for details is refused, if it is. `known` says whether the
/// catalog has the title.
pub open spec fn item_problem(query: Seq<char>, path: Seq<char>, known: bool) -> Option<Problem> {
    let entries = query_entries(query);
    if !is_well_formed(query) || !all_allowed(entries, seq!["enrich"]) {
        Some(Problem::ItemParameter)
    } else if enrichment(entries) is None {
        Some(Problem::InvalidEnrichment)
    } else if id_under(path, "/api/web/item/"@) is None {
        Some(Problem::InvalidItem)
    } else if !known {
        Some(Problem::MediaMissing)
    } else {
        None
    }
}

/// Reads a request for details. `known` says whether the catalog has the title.
pub fn item_request(query: &str, path: &str, known: bool) -> (result: Result<ItemRequest, Problem>)
    ensures
        match result {
            Ok(request) => {
                &&& item_problem(query@, path@, known) is None
                &&& id_under(path@, "/api/web/item/"@) == Some(request.id)
                &&& enrichment(query_entries(query@)) == Some(request.enrich)
            },
            Err(problem) => item_problem(query@, path@, known) == Some(problem),
        },
{
    let params = QueryParams::parse(query);
    let names: [&str; 1] = ["enrich"];
    assert(names@ =~= seq!["enrich"]);
    if params.has_unknown(&names) {
        return Err(Problem::ItemParameter);
    }
    let enrich = match params.get("enrich") {
        None => false,
        Some(value) => if same_text(value, "0") {
            false
        } else if same_text(value, "1") {
            true
        } else {
            return Err(Problem::InvalidEnrichment);
        },
    };
    let id: i64 = match web_item_id(path) {
        Some(id) => id,
        None => {
            return Err(Problem::InvalidItem);
        },
    };
    if known {
        Ok(ItemRequest { id, enrich })
    } else {
        Err(Problem::MediaMissing)
    }
}

/// How the answer to a request for details begins.
#[derive(Clone, Copy, Debug, PartialEq, Eq, Structural)]
pub enum ItemStart {
    /// The browser's copy is current.
    NotModified,
    /// It is refused.
    Refused(Problem),
    /// The file is opened.
    Open,
}

/// How the answer to a request for details begins.
pub fn item_start(request: ItemRequest, generation: u32, held: Option<&str>, mime: &str) -> (start:
    ItemStart)
    ensures
        start == if is_current(held, item_tag(generation, request.id, request.enrich)) {
            ItemStart::NotModified
        } else if !is_playable(mime@) {
            ItemStart::Refused(Problem::ItemUnsupported)
        } else {
            ItemStart::Open
        },
{
    let etag = item_etag(generation, request.id, request.enrich);
    let current = match held {
        Some(held) => same_text(held, etag.as_str()),
        None => false,
    };
    if current {
        ItemStart::NotModified
    } else if !playable(mime) {
        ItemStart::Refused(Problem::ItemUnsupported)
    } else {
        ItemStart::Open
    }
}

/// The answer to a request for details whose file could not be opened.
pub fn item_open_problem(failure: OpenFailure) -> (problem: Problem)
    ensures
        problem == match failure {
            OpenFailure::PermissionDenied => Problem::FileForbidden,
            OpenFailure::Other => Problem::ItemFileMissing,
        },
{
    match failure {
        OpenFailure::PermissionDenied => Problem::FileForbidden,
        OpenFailure::Other => Problem::ItemFileMissing,
    }
}

/// What came of looking into a file.
#[derive(Clone, Copy, Debug, PartialEq, Eq, Structural)]
pub enum ProbeOutcome {
    /// No helper was free.
    Busy,
    /// The file could not be read.
    Failed,
    Probed,
}

/// Whether the details of a file that was looked into can be shown.
pub fn probe_problem(outcome: ProbeOutcome) -> (result: Result<(), Problem>)
    ensures
        result == match outcome {
            ProbeOutcome::Busy => Err(Problem::ProbeBusy),
            ProbeOutcome::Failed => Err(Problem::ProbeFailed),
            ProbeOutcome::Probed => Ok::<(), Problem>(()),
        },
{
    match outcome {
        ProbeOutcome::Busy => Err(Problem::ProbeBusy),
        ProbeOutcome::Failed => Err(Problem::ProbeFailed),
        ProbeOutcome::Probed => Ok(()),
    }
}

/// What looking into a file said of the whole of it.
pub struct AvInfo {
    pub duration: Option<String>,
    pub bitrate: Option<i64>,
    pub resolution: Option<String>,
    pub channels: Option<i64>,
    pub samplerate: Option<i64>,
}

/// The first of two values that is there.
pub open spec fn or_else<T>(a: Option<T>, b: Option<T>) -> Option<T> {
    if a is Some {
        a
    } else {
        b
    }
}

fn first_of<T>(a: Option<T>, b: Option<T>) -> (result: Option<T>)
    ensures
        result == or_else(a, b),
{
    match a {
        Some(value) => Some(value),
        None => b,
    }
}

/// A title with what looking into its file said: the streams are taken over, and
/// of the rest what was found.
pub fn enriched(item: MediaItem, probe: ProbeInfo, av: AvInfo) -> (result: MediaItem)
    ensures
        result == (MediaItem {
            probe,
            duration: or_else(av.duration, item.duration),
            bitrate: or_else(av.bitrate, item.bitrate),
            resolution: or_else(av.resolution, item.resolution),
            channels: or_else(av.channels, item.channels),
            samplerate: or_else(av.samplerate, item.samplerate),
            ..item
        }),
{
    let mut item = item;
    item.probe = probe;
    item.duration = first_of(av.duration, item.duration);
    item.bitrate = first_of(av.bitrate, item.bitrate);
    item.resolution = first_of(av.resolution, item.resolution);
    item.channels = first_of(av.channels, item.channels);
    item.samplerate = first_of(av.samplerate, item.samplerate);
    item
}

// ---------------------------------------------------------- original files

/// Why a download is refused, if it is. The title is given by its media type,
/// or by nothing where it left the catalog.
pub open spec fn download_problem(path: Seq<char>, query: Seq<char>, mime: Option<Seq<char>>) -> Option<
    Problem,
> {
    if id_under(path, "/web/download/"@) is None {
        Some(Problem::InvalidDownload)
    } else if query.len() > 0 {
        Some(Problem::DownloadParameter)
    } else {
        match mime {
            None => Some(Problem::MediaMissing),
            Some(mime) => if is_video(mime) {
                None
            } else {
                Some(Problem::DownloadUnsupported)
            },
        }
    }
}

/// Reads a download request. The title is given by its media type, or by nothing
/// where it left the catalog.
pub fn download_request(path: &str, query: &str, mime: Option<&str>) -> (result: Result<
    i64,
    Problem,
>)
    ensures
        match result {
            Ok(id) => download_problem(path@, query@, crate::problem::optional_text(mime)) is None
                && id_under(path@, "/web/download/"@) == Some(id),
            Err(problem) => download_problem(path@, query@, crate::problem::optional_text(mime))
                == Some(problem),
        },
{
    let id: i64 = match web_download_id(path) {
        Some(id) => id,
        None => {
            return Err(Problem::InvalidDownload);
        },
    };
    if !query.is_empty() {
        return Err(Problem::DownloadParameter);
    }
    match mime {
        None => Err(Problem::MediaMissing),
        Some(mime) => if video(mime) {
            Ok(id)
        } else {
            Err(Problem::DownloadUnsupported)
        },
    }
}

/// The headers of a response that is offered for download.
pub open spec fn download_fields(fields: Entries, item: MediaItem) -> Entries {
    with_header(
        with_header(
            with_header(
                fields,
                "Content-Disposition"@,
                disposition(download_name(file_name(item), item.detail_id as int, item.ext@)),
            ),
            "Cache-Control"@,
            "private, no-store"@,
        ),
        "X-Content-Type-Options"@,
        "nosniff"@,
    )
}

/// Offers a response with a file, or with part of one, for download.
pub fn offer_download(response: &mut HttpResponse, item: &MediaItem)
    ensures
        final(response).status == old(response).status,
        final(response).reason == old(response).reason,
        final(response).body == old(response).body,
        final(response).fields() == if old(response).status == 200 || old(response).status == 206 {
            download_fields(old(response).fields(), *item)
        } else {
            old(response).fields()
        },
{
    if response.status == 200 || response.status == 206 {
        let name = media_file_name(item);
        let value = download_content_disposition(
            name.as_str(),
            item.detail_id,
            item.ext.as_str(),
        );
        response.set("Content-Disposition", value.as_str());
        response.set("Cache-Control", "private, no-store");
        response.set("X-Content-Type-Options", "nosniff");
    }
}

/// The path under which an original file is served. It has no parameters: those
/// of a browser speak of a conversion.
pub fn original_path(detail_id: i64, extension: &str) -> (path: String)
    ensures
        path@ == "/MediaItems/"@ + signed_text(detail_id as int) + seq!['.'] + extension@,
{
    let mut path = chars_of("/MediaItems/");
    append_chars(&mut path, &signed_chars(detail_id));
    path.push('.');
    append_chars(&mut path, &chars_of(extension));
    assert(path@ =~= "/MediaItems/"@ + signed_text(detail_id as int) + seq!['.'] + extension@);
    string_of(&path)
}

// -------------------------------------------------------------------- laws

/// What is not found when a file is looked into stays as it was.
pub proof fn law_enrichment_loses_nothing(item: MediaItem, av: AvInfo)
    ensures
        item.duration is Some ==> or_else(av.duration, item.duration) is Some,
        item.bitrate is Some ==> or_else(av.bitrate, item.bitrate) is Some,
        item.resolution is Some ==> or_else(av.resolution, item.resolution) is Some,
        item.channels is Some ==> or_else(av.channels, item.channels) is Some,
        item.samplerate is Some ==> or_else(av.samplerate, item.samplerate) is Some,
        av.duration is None ==> or_else(av.duration, item.duration) == item.duration,
        av.bitrate is None ==> or_else(av.bitrate, item.bitrate) == item.bitrate,
        av.resolution is None ==> or_else(av.resolution, item.resolution) == item.resolution,
        av.channels is None ==> or_else(av.channels, item.channels) == item.channels,
        av.samplerate is None ==> or_else(av.samplerate, item.samplerate) == item.samplerate,
{
}

} // verus!
