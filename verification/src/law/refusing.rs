//! What refusals say.
use crate::conversion::{open_problem, tool_failure_code, OpenFailure, ToolFailure};
use crate::http::{reason, transcode_stream_error};
use crate::problem::{api_error, retry_after_seconds, ApiError, Problem};
use crate::title::{item_open_problem, probe_problem, ProbeOutcome};
use vstd::prelude::*;

verus! {

/// Refusals of one sort have one status: what is not there is not found, what has
/// changed in between is a conflict, what cannot be shown is unsupported, what is
/// damaged cannot be processed, and what the server has no room for now is
/// unavailable. Everything else is a bad request.
pub proof fn law_refusals_of_one_sort_have_one_status(problem: Problem, error: ApiError)
    requires
        call_ensures(api_error, (problem,), error),
    ensures
        error.status == 409 <==> (problem == Problem::CatalogChanged || problem ==
            Problem::ContinueChanged || problem == Problem::TranscodeDisabled || problem ==
            Problem::SettingsDiffer),
        error.status == 404 <==> (problem == Problem::FolderMissing || problem ==
            Problem::MediaMissing || problem == Problem::ItemFileMissing || problem ==
            Problem::PreviewUnavailable || problem == Problem::StatusFileMissing || problem ==
            Problem::MediaFileMissing),
        error.status == 503 <==> (problem == Problem::CatalogBusy || problem ==
            Problem::ProbeBusy),
        error.status == 415 <==> (problem == Problem::ItemUnsupported || problem ==
            Problem::CaptionUnsupported || problem == Problem::MediaUnsupported || problem ==
            Problem::DownloadUnsupported),
        error.status == 403 <==> (problem == Problem::FileForbidden),
        error.status == 422 <==> (problem == Problem::ProbeFailed || problem ==
            Problem::CaptionEncoding || problem == Problem::CaptionMalformed),
        error.status == 405 <==> (problem == Problem::PreviewMethod || problem ==
            Problem::StatusMethod),
        error.status == 500 <==> (problem == Problem::TranscodeFailed),
        error.status == 400 <==> error.status != 409 && error.status != 404 && error.status != 503
            && error.status != 415 && error.status != 403 && error.status != 422 && error.status !=
            405 && error.status != 500,
{
}

/// Refusals for one reason carry one code, whichever request they answer.
pub proof fn law_refusals_for_one_reason_have_one_code(problem: Problem, error: ApiError)
    requires
        call_ensures(api_error, (problem,), error),
    ensures
        problem == Problem::LibraryParameter || problem == Problem::ContinueParameter || problem ==
            Problem::ItemParameter || problem == Problem::PreviewParameter || problem ==
            Problem::StatusParameter || problem == Problem::EventWithoutPost || problem ==
            Problem::MediaParameter || problem == Problem::DirectParameter || problem ==
            Problem::DownloadParameter ==> error.code@ == "invalid_parameter"@,
        problem == Problem::InvalidView ==> error.code@ == "invalid_view"@,
        problem == Problem::InvalidKind || problem == Problem::FolderKind ==> error.code@ ==
            "invalid_kind"@,
        problem == Problem::FolderOutsideFolderView ==> error.code@ == "invalid_folder"@,
        problem == Problem::InvalidOffset ==> error.code@ == "invalid_offset"@,
        problem == Problem::InvalidLimit ==> error.code@ == "invalid_limit"@,
        problem == Problem::InvalidGeneration ==> error.code@ == "invalid_generation"@,
        problem == Problem::CatalogChanged || problem == Problem::ContinueChanged ==> error.code@
            == "catalog_changed"@,
        problem == Problem::InvalidSort ==> error.code@ == "invalid_sort"@,
        problem == Problem::InvalidQuery ==> error.code@ == "invalid_query"@,
        problem == Problem::FolderMissing ==> error.code@ == "folder_missing"@,
        problem == Problem::CatalogBusy ==> error.code@ == "catalog_busy"@,
        problem == Problem::InvalidIds ==> error.code@ == "invalid_ids"@,
        problem == Problem::InvalidEnrichment ==> error.code@ == "invalid_enrichment"@,
        problem == Problem::InvalidItem || problem == Problem::InvalidDownload ==> error.code@ ==
            "invalid_item"@,
        problem == Problem::MediaMissing || problem == Problem::FileForbidden || problem ==
            Problem::ItemFileMissing || problem == Problem::StatusFileMissing || problem ==
            Problem::MediaFileMissing ==> error.code@ == "media_missing"@,
        problem == Problem::ItemUnsupported || problem == Problem::MediaUnsupported || problem ==
            Problem::DownloadUnsupported ==> error.code@ == "unsupported_media"@,
        problem == Problem::ProbeBusy ==> error.code@ == "transcode_busy"@,
        problem == Problem::ProbeFailed ==> error.code@ == "probe_failed"@,
        problem == Problem::PreviewMethod || problem == Problem::StatusMethod ==> error.code@ ==
            "method_not_allowed"@,
        problem == Problem::InvalidPreview ==> error.code@ == "invalid_preview"@,
        problem == Problem::PreviewUnavailable ==> error.code@ == "preview_unavailable"@,
        problem == Problem::InvalidRequest || problem == Problem::CancelWithoutRequest || problem
            == Problem::EventWithoutIds || problem == Problem::SettingsDiffer ==> error.code@ ==
            "invalid_request"@,
        problem == Problem::InvalidSession ==> error.code@ == "invalid_session"@,
        problem == Problem::InvalidEvent ==> error.code@ == "invalid_event"@,
        problem == Problem::CaptionUnsupported ==> error.code@ == "caption_unsupported"@,
        problem == Problem::CaptionEncoding ==> error.code@ == "caption_encoding"@,
        problem == Problem::CaptionMalformed ==> error.code@ == "caption_malformed"@,
        problem == Problem::InvalidStart || problem == Problem::StartPastEnd ==> error.code@ ==
            "invalid_start"@,
        problem == Problem::InvalidMode ==> error.code@ == "invalid_mode"@,
        problem == Problem::InvalidDelivery || problem == Problem::InvalidHlsOffset || problem ==
            Problem::InvalidHlsLength || problem == Problem::InvalidMseCursor || problem ==
            Problem::FragmentNotCanonical || problem == Problem::InvalidHlsResource ==> error.code@
            == "invalid_delivery"@,
        problem == Problem::InvalidQuality ==> error.code@ == "invalid_quality"@,
        problem == Problem::InvalidEncodingPreset ==> error.code@ == "invalid_encoding_preset"@,
        problem == Problem::InvalidVideoMode ==> error.code@ == "invalid_video_mode"@,
        problem == Problem::InvalidVideoOutput || problem == Problem::OutputIsAutomatic ==>
            error.code@ == "invalid_video_output"@,
        problem == Problem::InvalidAudioMode ==> error.code@ == "invalid_audio_mode"@,
        problem == Problem::InvalidReason ==> error.code@ == "invalid_reason"@,
        problem == Problem::TranscodeDisabled ==> error.code@ == "transcode_disabled"@,
        problem == Problem::InvalidAudio ==> error.code@ == "invalid_audio"@,
        problem == Problem::HdrUnavailable ==> error.code@ == "video_output_unavailable"@,
        problem == Problem::VideoCopyUnavailable ==> error.code@ == "video_copy_unavailable"@,
        problem == Problem::VideoRepairUnavailable ==> error.code@ == "video_repair_unavailable"@,
        problem == Problem::AudioCopyUnavailable ==> error.code@ == "audio_copy_unavailable"@,
        problem == Problem::TranscodeFailed ==> error.code@ == "transcode_failed"@,
{
}

/// Where trying again can help, the answer offers what to try; where it cannot, the
/// answer offers at most the way back to the library.
pub proof fn law_refusals_offer_what_can_help(problem: Problem, error: ApiError)
    requires
        call_ensures(api_error, (problem,), error),
    ensures
        error.recoverable ==> error.action is Some,
        !error.recoverable && error.action is Some ==> error.action->0@ == "return_to_library"@,
        error.recoverable <==> (problem == Problem::CatalogChanged || problem ==
            Problem::CatalogBusy || problem == Problem::ContinueChanged || problem ==
            Problem::FolderMissing || problem == Problem::MediaMissing || problem ==
            Problem::StatusFileMissing || problem == Problem::ItemFileMissing || problem ==
            Problem::ProbeBusy || problem == Problem::ProbeFailed || problem ==
            Problem::TranscodeDisabled || problem == Problem::HdrUnavailable || problem ==
            Problem::MediaFileMissing || problem == Problem::TranscodeFailed),
        problem == Problem::CatalogChanged || problem == Problem::CatalogBusy || problem ==
            Problem::ContinueChanged ==> error.action->0@ == "retry_library"@,
        problem == Problem::FolderMissing || problem == Problem::MediaMissing || problem ==
            Problem::StatusFileMissing ==> error.action->0@ == "return_to_library"@,
        problem == Problem::ItemFileMissing || problem == Problem::ProbeBusy || problem ==
            Problem::ProbeFailed ==> error.action->0@ == "retry_item"@,
        problem == Problem::TranscodeDisabled ==> error.action->0@ == "play_original"@,
        problem == Problem::HdrUnavailable ==> error.action->0@ == "play_compatible"@,
        problem == Problem::MediaFileMissing || problem == Problem::TranscodeFailed ==>
            error.action->0@ == "retry_media"@,
        !error.recoverable ==> (error.action is Some <==> (problem == Problem::ItemUnsupported ||
            problem == Problem::FileForbidden || problem == Problem::MediaUnsupported || problem ==
            Problem::DownloadUnsupported)),
{
}

/// A file that may not be read is refused as such; one that is not there can be
/// tried again, by playing it or by asking for its details.
pub proof fn law_files_that_cannot_be_opened_are_missing(
    failure: OpenFailure,
    played: Problem,
    asked: Problem,
    a: ApiError,
    b: ApiError,
)
    requires
        call_ensures(open_problem, (failure,), played),
        call_ensures(item_open_problem, (failure,), asked),
        call_ensures(api_error, (played,), a),
        call_ensures(api_error, (asked,), b),
    ensures
        a.status == b.status,
        a.code@ == "media_missing"@ && b.code@ == "media_missing"@,
        failure == OpenFailure::PermissionDenied <==> a.status == 403,
        failure == OpenFailure::Other <==> a.status == 404,
        a.recoverable <==> failure == OpenFailure::Other,
        b.recoverable <==> failure == OpenFailure::Other,
        a.recoverable ==> a.action->0@ == "retry_media"@,
        b.recoverable ==> b.action->0@ == "retry_item"@,
{
}

/// The details of a file are shown exactly where the file was looked into. Where no
/// helper was free, the browser is told to come back in a second, and only then.
pub proof fn law_details_wait_for_a_helper(
    outcome: ProbeOutcome,
    result: Result<(), Problem>,
    error: ApiError,
    seconds: Option<u64>,
)
    requires
        call_ensures(probe_problem, (outcome,), result),
        result is Err ==> call_ensures(api_error, (result->Err_0,), error),
        result is Err ==> call_ensures(retry_after_seconds, (result->Err_0,), seconds),
    ensures
        result is Ok <==> outcome == ProbeOutcome::Probed,
        outcome == ProbeOutcome::Busy ==> error.status == 503 && seconds == Some(1u64),
        outcome == ProbeOutcome::Failed ==> error.status == 422 && seconds is None,
        result is Err ==> error.recoverable,
{
}

/// A stream that could not be prepared is answered with the code of what went
/// wrong; only a server that is busy says when to come back.
pub proof fn law_streams_fail_with_the_code_of_their_failure(
    failure: ToolFailure,
    status: u16,
    code: &str,
    result: (ApiError, Option<u64>),
)
    requires
        call_ensures(tool_failure_code, (failure,), code),
        call_ensures(transcode_stream_error, (status, code), result),
    ensures
        result.0.status == status,
        result.0.code@ == code@,
        result.0.recoverable,
        result.0.action is Some && result.0.action->0@ == "retry_media"@,
        failure == ToolFailure::Busy <==> result.1 is Some,
        result.1 is Some ==> result.1 == Some(1u64),
        failure == ToolFailure::Busy <==> code@ == "transcode_busy"@,
        failure == ToolFailure::Cancelled <==> code@ == "transcode_cancelled"@,
        failure == ToolFailure::Deadline || failure == ToolFailure::Query <==> code@
            == "transcode_failed"@,
{
    reveal_strlit("transcode_busy");
    reveal_strlit("transcode_cancelled");
    reveal_strlit("transcode_failed");
    assert("transcode_busy"@.len() == 14);
    assert("transcode_cancelled"@.len() == 19);
    assert("transcode_failed"@.len() == 16);
}

/// A stream that failed for a reason that has no code of its own could not be
/// prepared.
pub proof fn law_unknown_failures_are_failures(
    status: u16,
    code: &str,
    result: (ApiError, Option<u64>),
)
    requires
        call_ensures(transcode_stream_error, (status, code), result),
        code@ != "transcode_busy"@,
        code@ != "transcode_cancelled"@,
    ensures
        result.0.status == status,
        result.0.code@ == "transcode_failed"@,
        result.1 is None,
{
}

/// A refusal is sent with the phrase of its status.
pub proof fn law_refusals_are_sent_with_their_phrase(
    problem: Problem,
    error: ApiError,
    phrase: &str,
)
    requires
        call_ensures(api_error, (problem,), error),
        call_ensures(reason, (error.status,), phrase),
    ensures
        problem == Problem::MediaMissing || problem == Problem::FolderMissing || problem
            == Problem::MediaFileMissing || problem == Problem::PreviewUnavailable ==> phrase@
            == "Not Found"@,
        problem == Problem::FileForbidden ==> phrase@ == "Forbidden"@,
        problem == Problem::StatusMethod || problem == Problem::PreviewMethod ==> phrase@
            == "Method Not Allowed"@,
        problem == Problem::CatalogChanged || problem == Problem::TranscodeDisabled ==> phrase@
            == "Conflict"@,
        problem == Problem::MediaUnsupported || problem == Problem::CaptionUnsupported ==> phrase@
            == "Unsupported Media Type"@,
        problem == Problem::CaptionMalformed || problem == Problem::ProbeFailed ==> phrase@
            == "Unprocessable Content"@,
        problem == Problem::CatalogBusy || problem == Problem::ProbeBusy ==> phrase@
            == "Service Unavailable"@,
        error.code@ == "invalid_parameter"@ && error.status == 400 ==> phrase@ == "Bad Request"@,
{
}

} // verus!
