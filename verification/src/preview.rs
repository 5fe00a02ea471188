//! Timeline previews: sheets of small pictures that were generated beside a
//! title.
use crate::catalog::{is_video, video};
use crate::http::{
    bytes_response, entity_fields, is_current, not_modified, sheet_etag, sheet_tag, HttpResponse,
};
use crate::jpeg::{dimensions, jpeg_dimensions};
use crate::problem::Problem;
use crate::query::same_text;
use crate::route::{
    is_asset_revision, preview_of, sheet_path, sheet_url, trickplay_request, valid_asset_revision,
    TrickplayRequest,
};
use crate::text::{chars_of, equals_ignoring_case, same_ignoring_case};
use vstd::prelude::*;

verus! {

// ----------------------------------------------------------------- requests

/// Why a preview request is refused, if it is.
pub open spec fn preview_problem(method: Seq<char>, query: Seq<char>, path: Seq<char>) -> Option<
    Problem,
> {
    if !reads(method) {
        Some(Problem::PreviewMethod)
    } else if query.len() > 0 {
        Some(Problem::PreviewParameter)
    } else if preview_of(path) is None {
        Some(Problem::InvalidPreview)
    } else {
        None
    }
}

/// Whether a method reads.
pub open spec fn reads(method: Seq<char>) -> bool {
    same_ignoring_case(method, "GET"@) || same_ignoring_case(method, "HEAD"@)
}

/// Reads a preview request.
pub fn preview_request(method: &str, query: &str, path: &str) -> (result: Result<
    TrickplayRequest,
    Problem,
>)
    ensures
        match result {
            Ok(request) => preview_problem(method@, query@, path@) is None && preview_of(path@)
                == Some(request.preview()),
            Err(problem) => preview_problem(method@, query@, path@) == Some(problem),
        },
{
    let method = chars_of(method);
    if !equals_ignoring_case(&method, "GET") && !equals_ignoring_case(&method, "HEAD") {
        return Err(Problem::PreviewMethod);
    }
    if !query.is_empty() {
        return Err(Problem::PreviewParameter);
    }
    match trickplay_request(path) {
        Some(request) => Ok(request),
        None => Err(Problem::InvalidPreview),
    }
}

/// What is answered where there are no previews.
#[derive(Clone, Copy, Debug, PartialEq, Eq, Structural)]
pub enum PreviewUnavailable {
    /// A manifest of the item that says so.
    Manifest(i64),
    /// An error.
    Refused(Problem),
}

/// What is answered where there are no previews: a manifest that says so, but no
/// sheet.
pub open spec fn unavailable(request: TrickplayRequest) -> PreviewUnavailable {
    match request {
        TrickplayRequest::Manifest(id) => PreviewUnavailable::Manifest(id),
        TrickplayRequest::Sheet { .. } => PreviewUnavailable::Refused(Problem::PreviewUnavailable),
    }
}

/// What is answered where there are no previews: a manifest that says so, but no
/// sheet.
pub fn preview_unavailable(request: &TrickplayRequest) -> (answer: PreviewUnavailable)
    ensures
        answer == unavailable(*request),
{
    match request {
        TrickplayRequest::Manifest(id) => PreviewUnavailable::Manifest(*id),
        TrickplayRequest::Sheet { .. } => PreviewUnavailable::Refused(Problem::PreviewUnavailable),
    }
}

/// Whether a title can have previews: it is in the catalog, and a video.
pub fn can_have_previews(mime: Option<&str>) -> (result: bool)
    ensures
        result == (mime matches Some(mime) && is_video(mime@)),
{
    match mime {
        Some(mime) => video(mime),
        None => false,
    }
}

// -------------------------------------------------------------------- files

/// Why a generated file is not used.
#[derive(Clone, Copy, Debug, PartialEq, Eq, Structural)]
pub enum PreviewFileError {
    /// It is empty or too large.
    InvalidSize,
    /// It grew while it was read.
    Grew,
    /// It shrank while it was read.
    Changed,
    /// It could not be read.
    Unreadable,
}

/// What reading at most as many bytes as a file had gave.
#[derive(Clone, Copy, Debug, PartialEq, Eq, Structural)]
pub enum ReadOutcome {
    Bytes(usize),
    LimitExceeded,
    Failed,
}

/// How many bytes to read of a file of that length.
pub fn bounded_length(length: u64, limit: u64) -> (result: Result<usize, PreviewFileError>)
    ensures
        match result {
            Ok(n) => n == length && 0 < length <= limit,
            Err(error) => error == PreviewFileError::InvalidSize && (length == 0 || length > limit
                || length > usize::MAX),
        },
{
    if length == 0 || length > limit || length > usize::MAX as u64 {
        Err(PreviewFileError::InvalidSize)
    } else {
        Ok(length as usize)
    }
}

/// Whether what was read of a file of `expected` bytes is the whole file.
pub fn bounded_read(expected: usize, outcome: ReadOutcome) -> (result: Result<(), PreviewFileError>)
    ensures
        result == match outcome {
            ReadOutcome::Bytes(n) => if n == expected {
                Ok(())
            } else {
                Err(PreviewFileError::Changed)
            },
            ReadOutcome::LimitExceeded => Err(PreviewFileError::Grew),
            ReadOutcome::Failed => Err(PreviewFileError::Unreadable),
        },
{
    match outcome {
        ReadOutcome::Bytes(n) => if n == expected {
            Ok(())
        } else {
            Err(PreviewFileError::Changed)
        },
        ReadOutcome::LimitExceeded => Err(PreviewFileError::Grew),
        ReadOutcome::Failed => Err(PreviewFileError::Unreadable),
    }
}

/// The time of a file in nanoseconds.
pub open spec fn nanoseconds(seconds: i64, nanos: i64) -> Option<i64> {
    let scaled = seconds * 1_000_000_000;
    if i64::MIN <= scaled <= i64::MAX && i64::MIN <= scaled + nanos <= i64::MAX {
        Some((scaled + nanos) as i64)
    } else {
        None
    }
}

/// The time of a file in nanoseconds, where it fits.
pub fn metadata_mtime_ns(seconds: i64, nanos: i64) -> (result: Option<i64>)
    ensures
        result == nanoseconds(seconds, nanos),
{
    match seconds.checked_mul(1_000_000_000) {
        Some(scaled) => scaled.checked_add(nanos),
        None => None,
    }
}

// ---------------------------------------------------------------- manifests

/// What a generated manifest says, the title's length aside.
pub struct TrickplaySidecarManifest {
    pub schema_version: u8,
    pub source_size: u64,
    pub source_mtime_ns: i64,
    pub interval_seconds: u32,
    pub frame_width: u32,
    pub frame_height: u32,
    pub columns: u32,
    pub rows: u32,
    pub frame_count: u32,
    pub asset_revision: String,
}

/// What a manifest has to say for a title of that length and that layout, and
/// how many sheets it then has.
pub struct TrickplayExpectation {
    pub schema_version: u8,
    pub interval_seconds: Option<u32>,
    pub frame_count: Option<u32>,
    pub sheet_count: Option<u32>,
    pub valid_layout: bool,
}

/// Whether a manifest belongs to a file of that size and time, and says what it
/// has to.
pub open spec fn is_valid_manifest(
    manifest: TrickplaySidecarManifest,
    size: u64,
    mtime_ns: Option<i64>,
    expected: TrickplayExpectation,
) -> bool {
    &&& manifest.schema_version == expected.schema_version
    &&& manifest.source_size == size
    &&& mtime_ns == Some(manifest.source_mtime_ns)
    &&& expected.interval_seconds == Some(manifest.interval_seconds)
    &&& expected.valid_layout
    &&& expected.frame_count == Some(manifest.frame_count)
    &&& expected.sheet_count is Some
    &&& is_asset_revision(manifest.asset_revision@)
}

/// The number of sheets of a manifest that belongs to a file of that size and
/// time, and says what it has to.
pub fn validate_trickplay_manifest(
    manifest: &TrickplaySidecarManifest,
    size: u64,
    mtime_ns: Option<i64>,
    expected: &TrickplayExpectation,
) -> (result: Option<u32>)
    ensures
        result == if is_valid_manifest(*manifest, size, mtime_ns, *expected) {
            expected.sheet_count
        } else {
            None
        },
{
    let interval: u32 = match expected.interval_seconds {
        Some(interval) => interval,
        None => {
            return None;
        },
    };
    let frame_count: u32 = match expected.frame_count {
        Some(frame_count) => frame_count,
        None => {
            return None;
        },
    };
    let same_time = match mtime_ns {
        Some(time) => time == manifest.source_mtime_ns,
        None => false,
    };
    if manifest.schema_version == expected.schema_version && manifest.source_size == size
        && same_time && manifest.interval_seconds == interval && expected.valid_layout
        && manifest.frame_count == frame_count && valid_asset_revision(
        manifest.asset_revision.as_str(),
    ) {
        expected.sheet_count
    } else {
        None
    }
}

// ------------------------------------------------------------------- sheets

/// Whether a sheet of that size can be handed out.
pub open spec fn is_sheet_size(size: Option<u64>, limit: u64) -> bool {
    size matches Some(n) && 0 < n <= limit
}

/// Whether every sheet is there, given by its size or by nothing.
pub fn sheets_complete(sizes: &[Option<u64>], sheet_count: u32, limit: u64) -> (result: bool)
    ensures
        result == (sizes@.len() >= sheet_count && forall|i: int|
            0 <= i < sheet_count ==> is_sheet_size(#[trigger] sizes@[i], limit)),
{
    if sizes.len() < sheet_count as usize {
        return false;
    }
    let mut i: u32 = 0;
    while i < sheet_count
        invariant
            i <= sheet_count <= sizes@.len(),
            forall|j: int| 0 <= j < i ==> is_sheet_size(#[trigger] sizes@[j], limit),
        decreases sheet_count - i,
    {
        let there = match sizes[i as usize] {
            Some(n) => 0 < n && n <= limit,
            None => false,
        };
        if !there {
            assert(!is_sheet_size(sizes@[i as int], limit));
            return false;
        }
        i += 1;
    }
    true
}

/// The paths of the sheets, in order.
pub fn sheet_urls(item_id: i64, revision: &str, sheet_count: u32) -> (urls: Vec<String>)
    ensures
        urls@.len() == sheet_count,
        forall|i: int|
            0 <= i < sheet_count ==> (#[trigger] urls@[i])@ == sheet_path(
                item_id as int,
                revision@,
                i as nat,
            ),
{
    let mut urls: Vec<String> = Vec::new();
    let mut i: u32 = 0;
    while i < sheet_count
        invariant
            i <= sheet_count,
            urls@.len() == i,
            forall|j: int|
                0 <= j < i ==> (#[trigger] urls@[j])@ == sheet_path(
                    item_id as int,
                    revision@,
                    j as nat,
                ),
        decreases sheet_count - i,
    {
        urls.push(sheet_url(item_id, revision, i));
        i += 1;
    }
    urls
}

/// Whether a picture has the size that a manifest gives its sheets.
pub open spec fn has_sheet_size(manifest: TrickplaySidecarManifest, bytes: Seq<u8>) -> bool {
    dimensions(bytes) == Some(
        (
            (manifest.frame_width * manifest.columns) as nat,
            (manifest.frame_height * manifest.rows) as nat,
        ),
    )
}

/// Whether a sheet is one of a manifest.
pub open spec fn has_sheet(
    manifest: TrickplaySidecarManifest,
    sheet_count: u32,
    revision: Seq<char>,
    index: u32,
) -> bool {
    revision == manifest.asset_revision@ && index < sheet_count
}

/// Whether a sheet is one of a manifest.
pub fn is_sheet_of(
    manifest: &TrickplaySidecarManifest,
    sheet_count: u32,
    revision: &str,
    index: u32,
) -> (result: bool)
    ensures
        result == has_sheet(*manifest, sheet_count, revision@, index),
{
    same_text(revision, manifest.asset_revision.as_str()) && index < sheet_count
}

/// How long a sheet is kept: its path changes where its contents do.
pub open spec fn immutable() -> Seq<char> {
    "private, max-age=31536000, immutable"@
}

/// The answer to a request for a sheet whose file holds `bytes`.
pub fn sheet_response(
    manifest: &TrickplaySidecarManifest,
    sheet_count: u32,
    revision: &str,
    index: u32,
    held: Option<&str>,
    bytes: &[u8],
) -> (result: Result<HttpResponse, Problem>)
    ensures
        match result {
            Ok(response) => {
                &&& has_sheet(*manifest, sheet_count, revision@, index)
                &&& has_sheet_size(*manifest, bytes@)
                &&& if is_current(held, sheet_tag(revision@, index)) {
                    &&& response.status == 304
                    &&& response.reason@ == "Not Modified"@
                    &&& response.fields() == seq![
                        ("ETag"@, sheet_tag(revision@, index)),
                        ("Cache-Control"@, immutable()),
                    ]
                    &&& response.body@ == Seq::<u8>::empty()
                } else {
                    &&& response.status == 200
                    &&& response.reason@ == "OK"@
                    &&& response.fields() == entity_fields(
                        "image/jpeg"@,
                        immutable(),
                        bytes@.len(),
                    ).push(("ETag"@, sheet_tag(revision@, index))).push(
                        ("X-Content-Type-Options"@, "nosniff"@),
                    )
                    &&& response.body@ == bytes@
                }
            },
            Err(problem) => problem == Problem::PreviewUnavailable && !(has_sheet(
                *manifest,
                sheet_count,
                revision@,
                index,
            ) && has_sheet_size(*manifest, bytes@)),
        },
{
    if !is_sheet_of(manifest, sheet_count, revision, index) {
        return Err(Problem::PreviewUnavailable);
    }
    let fits = match jpeg_dimensions(bytes) {
        Some((width, height)) => {
            proof {
                lemma_product(manifest.frame_width, manifest.columns);
                lemma_product(manifest.frame_height, manifest.rows);
            }
            width as u64 == manifest.frame_width as u64 * manifest.columns as u64 && height as u64
                == manifest.frame_height as u64 * manifest.rows as u64
        },
        None => false,
    };
    if !fits {
        return Err(Problem::PreviewUnavailable);
    }
    let etag = sheet_etag(revision, index);
    let current = match held {
        Some(held) => same_text(held, etag.as_str()),
        None => false,
    };
    if current {
        return Ok(not_modified(etag.as_str(), "private, max-age=31536000, immutable"));
    }
    let mut response = bytes_response(
        "image/jpeg",
        bytes,
        "private, max-age=31536000, immutable",
    );
    response.push("ETag", etag.as_str());
    response.push("X-Content-Type-Options", "nosniff");
    Ok(response)
}

proof fn lemma_product(a: u32, b: u32)
    ensures
        0 <= a * b <= 0xffff_ffff * 0xffff_ffff,
{
    assert(0 <= a * b <= 0xffff_ffff * 0xffff_ffff) by (nonlinear_arith)
        requires
            0 <= a <= 0xffff_ffff,
            0 <= b <= 0xffff_ffff,
    ;
}

// -------------------------------------------------------------------- laws

/// Every path that a manifest hands out asks for a sheet of it, so that a
/// browser gets what it was promised.
pub proof fn law_handed_out_sheets_are_served(
    manifest: TrickplaySidecarManifest,
    sheet_count: u32,
    item_id: i64,
    index: u32,
)
    requires
        item_id > 0,
        index < sheet_count,
        is_asset_revision(manifest.asset_revision@),
    ensures
        preview_of(sheet_path(item_id as int, manifest.asset_revision@, index as nat)) == Some(
            crate::route::Preview::Sheet { item_id, revision: manifest.asset_revision@, index },
        ),
        has_sheet(manifest, sheet_count, manifest.asset_revision@, index),
{
    crate::route::law_sheet_path_round_trip(item_id, manifest.asset_revision@, index);
}

} // verus!
