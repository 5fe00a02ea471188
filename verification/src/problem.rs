//! What the browser interface refuses, and the answer to each refusal.
use vstd::prelude::*;

verus! {

/// A reason to refuse a request.
#[derive(Clone, Copy, Debug, PartialEq, Eq, Structural)]
pub enum Problem {
    LibraryParameter,
    InvalidView,
    InvalidKind,
    FolderKind,
    FolderOutsideFolderView,
    InvalidOffset,
    InvalidLimit,
    InvalidGeneration,
    CatalogChanged,
    InvalidSort,
    InvalidQuery,
    FolderMissing,
    CatalogBusy,
    ContinueParameter,
    InvalidIds,
    ContinueChanged,
    ItemParameter,
    InvalidEnrichment,
    InvalidItem,
    MediaMissing,
    ItemUnsupported,
    FileForbidden,
    ItemFileMissing,
    ProbeBusy,
    ProbeFailed,
    PreviewMethod,
    PreviewParameter,
    InvalidPreview,
    PreviewUnavailable,
    StatusMethod,
    StatusParameter,
    InvalidRequest,
    InvalidSession,
    InvalidEvent,
    EventWithoutPost,
    StatusFileMissing,
    CancelWithoutRequest,
    EventWithoutIds,
    CaptionUnsupported,
    CaptionEncoding,
    CaptionMalformed,
    MediaUnsupported,
    MediaParameter,
    InvalidStart,
    InvalidMode,
    InvalidDelivery,
    InvalidHlsOffset,
    InvalidHlsLength,
    InvalidMseCursor,
    FragmentNotCanonical,
    InvalidHlsResource,
    InvalidQuality,
    InvalidEncodingPreset,
    InvalidVideoMode,
    InvalidVideoOutput,
    OutputIsAutomatic,
    InvalidAudioMode,
    InvalidReason,
    DirectParameter,
    TranscodeDisabled,
    InvalidAudio,
    StartPastEnd,
    HdrUnavailable,
    VideoCopyUnavailable,
    VideoRepairUnavailable,
    AudioCopyUnavailable,
    SettingsDiffer,
    MediaFileMissing,
    TranscodeFailed,
    InvalidDownload,
    DownloadParameter,
    DownloadUnsupported,
}

/// The answer to a refused request: the HTTP status, a code for programs, a
/// sentence for people, whether trying again can help, and what to offer.
#[derive(Clone, Copy, Debug)]
pub struct ApiError {
    pub status: u16,
    pub code: &'static str,
    pub message: &'static str,
    pub recoverable: bool,
    pub action: Option<&'static str>,
}

/// The first of two problems.
pub open spec fn first_problem(a: Option<Problem>, b: Option<Problem>) -> Option<Problem> {
    if a is Some {
        a
    } else {
        b
    }
}

/// The text of an optional string.
pub open spec fn optional_text(text: Option<&str>) -> Option<Seq<char>> {
    match text {
        Some(text) => Some(text@),
        None => None,
    }
}

/// Whether an answer holds exactly these five things.
pub open spec fn answers(
    error: ApiError,
    status: u16,
    code: Seq<char>,
    message: Seq<char>,
    recoverable: bool,
    action: Option<Seq<char>>,
) -> bool {
    &&& error.status == status
    &&& error.code@ == code
    &&& error.message@ == message
    &&& error.recoverable == recoverable
    &&& optional_text(error.action) == action
}

/// Whether an answer is the one to a problem.
pub open spec fn is_answer(problem: Problem, error: ApiError) -> bool {
    match problem {
        Problem::LibraryParameter => answers(
            error,
            400,
            "invalid_parameter"@,
            "The library request contains an unsupported parameter."@,
            false,
            None,
        ),
        Problem::InvalidView => answers(
            error,
            400,
            "invalid_view"@,
            "Choose either the folder or library view."@,
            false,
            None,
        ),
        Problem::InvalidKind => answers(
            error,
            400,
            "invalid_kind"@,
            "Choose all media, video, or audio."@,
            false,
            None,
        ),
        Problem::FolderKind => answers(
            error,
            400,
            "invalid_kind"@,
            "Folder browsing does not accept a media-kind filter."@,
            false,
            None,
        ),
        Problem::FolderOutsideFolderView => answers(
            error,
            400,
            "invalid_folder"@,
            "A folder can only be used in folder view."@,
            false,
            None,
        ),
        Problem::InvalidOffset => answers(
            error,
            400,
            "invalid_offset"@,
            "The page offset must be a non-negative whole number."@,
            false,
            None,
        ),
        Problem::InvalidLimit => answers(
            error,
            400,
            "invalid_limit"@,
            "The page size must be between 1 and 200."@,
            false,
            None,
        ),
        Problem::InvalidGeneration => answers(
            error,
            400,
            "invalid_generation"@,
            "The catalog generation must be a non-negative whole number."@,
            false,
            None,
        ),
        Problem::CatalogChanged => answers(
            error,
            409,
            "catalog_changed"@,
            "The library changed while this list was loading. Refresh the list and try again."@,
            true,
            Some("retry_library"@),
        ),
        Problem::InvalidSort => answers(
            error,
            400,
            "invalid_sort"@,
            "Choose title, recently added, or episode/track order."@,
            false,
            None,
        ),
        Problem::InvalidQuery => answers(
            error,
            400,
            "invalid_query"@,
            "Search text must be 256 bytes or fewer."@,
            false,
            None,
        ),
        Problem::FolderMissing => answers(
            error,
            404,
            "folder_missing"@,
            "That folder is no longer available."@,
            true,
            Some("return_to_library"@),
        ),
        Problem::CatalogBusy => answers(
            error,
            503,
            "catalog_busy"@,
            "The library is being updated. Try again in a moment."@,
            true,
            Some("retry_library"@),
        ),
        Problem::ContinueParameter => answers(
            error,
            400,
            "invalid_parameter"@,
            "The Continue Watching request contains an unsupported parameter."@,
            false,
            None,
        ),
        Problem::InvalidIds => answers(
            error,
            400,
            "invalid_ids"@,
            "Continue Watching accepts up to 100 distinct media item IDs."@,
            false,
            None,
        ),
        Problem::ContinueChanged => answers(
            error,
            409,
            "catalog_changed"@,
            "The library changed while Continue Watching was loading. Refresh the list and try again."@,
            true,
            Some("retry_library"@),
        ),
        Problem::ItemParameter => answers(
            error,
            400,
            "invalid_parameter"@,
            "The item request contains an unsupported parameter."@,
            false,
            None,
        ),
        Problem::InvalidEnrichment => answers(
            error,
            400,
            "invalid_enrichment"@,
            "Item enrichment must be either 0 or 1."@,
            false,
            None,
        ),
        Problem::InvalidItem => answers(
            error,
            400,
            "invalid_item"@,
            "The media item ID is invalid."@,
            false,
            None,
        ),
        Problem::MediaMissing => answers(
            error,
            404,
            "media_missing"@,
            "This title is no longer in the library."@,
            true,
            Some("return_to_library"@),
        ),
        Problem::ItemUnsupported => answers(
            error,
            415,
            "unsupported_media"@,
            "This library item cannot be played in the browser."@,
            false,
            Some("return_to_library"@),
        ),
        Problem::FileForbidden => answers(
            error,
            403,
            "media_missing"@,
            "The media file is not available."@,
            false,
            Some("return_to_library"@),
        ),
        Problem::ItemFileMissing => answers(
            error,
            404,
            "media_missing"@,
            "The media file is not available."@,
            true,
            Some("retry_item"@),
        ),
        Problem::ProbeBusy => answers(
            error,
            503,
            "transcode_busy"@,
            "The server is preparing other media. Try again shortly."@,
            true,
            Some("retry_item"@),
        ),
        Problem::ProbeFailed => answers(
            error,
            422,
            "probe_failed"@,
            "Audio-track details could not be loaded."@,
            true,
            Some("retry_item"@),
        ),
        Problem::PreviewMethod => answers(
            error,
            405,
            "method_not_allowed"@,
            "This timeline preview operation is not supported."@,
            false,
            None,
        ),
        Problem::PreviewParameter => answers(
            error,
            400,
            "invalid_parameter"@,
            "The timeline preview request contains an unsupported parameter."@,
            false,
            None,
        ),
        Problem::InvalidPreview => answers(
            error,
            400,
            "invalid_preview"@,
            "The timeline preview path is invalid."@,
            false,
            None,
        ),
        Problem::PreviewUnavailable => answers(
            error,
            404,
            "preview_unavailable"@,
            "Timeline previews are not available for this title."@,
            false,
            None,
        ),
        Problem::StatusMethod => answers(
            error,
            405,
            "method_not_allowed"@,
            "This transcode operation is not supported."@,
            false,
            None,
        ),
        Problem::StatusParameter => answers(
            error,
            400,
            "invalid_parameter"@,
            "The status request contains an unsupported parameter."@,
            false,
            None,
        ),
        Problem::InvalidRequest => answers(
            error,
            400,
            "invalid_request"@,
            "The playback request ID is invalid."@,
            false,
            None,
        ),
        Problem::InvalidSession => answers(
            error,
            400,
            "invalid_session"@,
            "The playback session ID is invalid."@,
            false,
            None,
        ),
        Problem::InvalidEvent => answers(
            error,
            400,
            "invalid_event"@,
            "The playback timing event is invalid."@,
            false,
            None,
        ),
        Problem::EventWithoutPost => answers(
            error,
            400,
            "invalid_parameter"@,
            "Playback timing events require POST."@,
            false,
            None,
        ),
        Problem::StatusFileMissing => answers(
            error,
            404,
            "media_missing"@,
            "The media file is not available."@,
            true,
            Some("return_to_library"@),
        ),
        Problem::CancelWithoutRequest => answers(
            error,
            400,
            "invalid_request"@,
            "A playback request ID is required for cancellation."@,
            false,
            None,
        ),
        Problem::EventWithoutIds => answers(
            error,
            400,
            "invalid_request"@,
            "Playback request and session IDs are required for timing events."@,
            false,
            None,
        ),
        Problem::CaptionUnsupported => answers(
            error,
            415,
            "caption_unsupported"@,
            "This caption format cannot be shown in the browser."@,
            false,
            None,
        ),
        Problem::CaptionEncoding => answers(
            error,
            422,
            "caption_encoding"@,
            "The caption file is not valid UTF-8."@,
            false,
            None,
        ),
        Problem::CaptionMalformed => answers(
            error,
            422,
            "caption_malformed"@,
            "The caption file is malformed."@,
            false,
            None,
        ),
        Problem::MediaUnsupported => answers(
            error,
            415,
            "unsupported_media"@,
            "This item cannot be played in a browser."@,
            false,
            Some("return_to_library"@),
        ),
        Problem::MediaParameter => answers(
            error,
            400,
            "invalid_parameter"@,
            "The media request contains an unsupported parameter."@,
            false,
            None,
        ),
        Problem::InvalidStart => answers(
            error,
            400,
            "invalid_start"@,
            "The start offset must be a non-negative whole number."@,
            false,
            None,
        ),
        Problem::InvalidMode => answers(
            error,
            400,
            "invalid_mode"@,
            "Choose direct or compatible playback."@,
            false,
            None,
        ),
        Problem::InvalidDelivery => answers(
            error,
            400,
            "invalid_delivery"@,
            "Choose MP4, HLS, or Media Source compatible delivery."@,
            false,
            None,
        ),
        Problem::InvalidHlsOffset => answers(
            error,
            400,
            "invalid_delivery"@,
            "The HLS resource offset is invalid."@,
            false,
            None,
        ),
        Problem::InvalidHlsLength => answers(
            error,
            400,
            "invalid_delivery"@,
            "The HLS resource length is invalid."@,
            false,
            None,
        ),
        Problem::InvalidMseCursor => answers(
            error,
            400,
            "invalid_delivery"@,
            "The Media Source fragment cursor is invalid."@,
            false,
            None,
        ),
        Problem::FragmentNotCanonical => answers(
            error,
            400,
            "invalid_delivery"@,
            "The fragmented-media query is not canonical."@,
            false,
            None,
        ),
        Problem::InvalidHlsResource => answers(
            error,
            400,
            "invalid_delivery"@,
            "The HLS resource request is invalid."@,
            false,
            None,
        ),
        Problem::InvalidQuality => answers(
            error,
            400,
            "invalid_quality"@,
            "Choose an available playback quality."@,
            false,
            None,
        ),
        Problem::InvalidEncodingPreset => answers(
            error,
            400,
            "invalid_encoding_preset"@,
            "Choose an available encoding preset."@,
            false,
            None,
        ),
        Problem::InvalidVideoMode => answers(
            error,
            400,
            "invalid_video_mode"@,
            "Choose copy, repair, or transcode video mode."@,
            false,
            None,
        ),
        Problem::InvalidVideoOutput => answers(
            error,
            400,
            "invalid_video_output"@,
            "Choose an available video output format."@,
            false,
            None,
        ),
        Problem::OutputIsAutomatic => answers(
            error,
            400,
            "invalid_video_output"@,
            "Copied and repaired video chooses its output format automatically."@,
            false,
            None,
        ),
        Problem::InvalidAudioMode => answers(
            error,
            400,
            "invalid_audio_mode"@,
            "Choose copy or transcode audio mode."@,
            false,
            None,
        ),
        Problem::InvalidReason => answers(
            error,
            400,
            "invalid_reason"@,
            "The source reason is invalid."@,
            false,
            None,
        ),
        Problem::DirectParameter => answers(
            error,
            400,
            "invalid_parameter"@,
            "Direct playback does not accept transcode parameters."@,
            false,
            None,
        ),
        Problem::TranscodeDisabled => answers(
            error,
            409,
            "transcode_disabled"@,
            "Compatible playback is disabled on this server."@,
            true,
            Some("play_original"@),
        ),
        Problem::InvalidAudio => answers(
            error,
            400,
            "invalid_audio"@,
            "Choose an available audio track."@,
            false,
            None,
        ),
        Problem::StartPastEnd => answers(
            error,
            400,
            "invalid_start"@,
            "The start offset is past the end of this title."@,
            false,
            None,
        ),
        Problem::HdrUnavailable => answers(
            error,
            400,
            "video_output_unavailable"@,
            "HDR10 output is not available for this source and server."@,
            true,
            Some("play_compatible"@),
        ),
        Problem::VideoCopyUnavailable => answers(
            error,
            400,
            "video_copy_unavailable"@,
            "The source video cannot be copied into compatible playback."@,
            false,
            None,
        ),
        Problem::VideoRepairUnavailable => answers(
            error,
            400,
            "video_repair_unavailable"@,
            "This source cannot use display-order repair playback."@,
            false,
            None,
        ),
        Problem::AudioCopyUnavailable => answers(
            error,
            400,
            "audio_copy_unavailable"@,
            "The selected audio track cannot be copied into compatible playback."@,
            false,
            None,
        ),
        Problem::SettingsDiffer => answers(
            error,
            409,
            "invalid_request"@,
            "This playback generation already has different stream settings."@,
            false,
            None,
        ),
        Problem::MediaFileMissing => answers(
            error,
            404,
            "media_missing"@,
            "The media file is not available."@,
            true,
            Some("retry_media"@),
        ),
        Problem::TranscodeFailed => answers(
            error,
            500,
            "transcode_failed"@,
            "The server could not prepare this title."@,
            true,
            Some("retry_media"@),
        ),
        Problem::InvalidDownload => answers(
            error,
            400,
            "invalid_item"@,
            "The download item ID is invalid."@,
            false,
            None,
        ),
        Problem::DownloadParameter => answers(
            error,
            400,
            "invalid_parameter"@,
            "The download request does not accept parameters."@,
            false,
            None,
        ),
        Problem::DownloadUnsupported => answers(
            error,
            415,
            "unsupported_media"@,
            "Only original video files can be downloaded."@,
            false,
            Some("return_to_library"@),
        ),
    }
}

fn answer(
    status: u16,
    code: &'static str,
    message: &'static str,
    recoverable: bool,
    action: Option<&'static str>,
) -> (error: ApiError)
    ensures
        answers(error, status, code@, message@, recoverable, optional_text(action)),
{
    ApiError { status, code, message, recoverable, action }
}

/// The answer to a problem.
pub fn api_error(problem: Problem) -> (error: ApiError)
    ensures
        is_answer(problem, error),
{
    match problem {
        Problem::LibraryParameter => answer(
            400,
            "invalid_parameter",
            "The library request contains an unsupported parameter.",
            false,
            None,
        ),
        Problem::InvalidView => answer(
            400,
            "invalid_view",
            "Choose either the folder or library view.",
            false,
            None,
        ),
        Problem::InvalidKind => answer(
            400,
            "invalid_kind",
            "Choose all media, video, or audio.",
            false,
            None,
        ),
        Problem::FolderKind => answer(
            400,
            "invalid_kind",
            "Folder browsing does not accept a media-kind filter.",
            false,
            None,
        ),
        Problem::FolderOutsideFolderView => answer(
            400,
            "invalid_folder",
            "A folder can only be used in folder view.",
            false,
            None,
        ),
        Problem::InvalidOffset => answer(
            400,
            "invalid_offset",
            "The page offset must be a non-negative whole number.",
            false,
            None,
        ),
        Problem::InvalidLimit => answer(
            400,
            "invalid_limit",
            "The page size must be between 1 and 200.",
            false,
            None,
        ),
        Problem::InvalidGeneration => answer(
            400,
            "invalid_generation",
            "The catalog generation must be a non-negative whole number.",
            false,
            None,
        ),
        Problem::CatalogChanged => answer(
            409,
            "catalog_changed",
            "The library changed while this list was loading. Refresh the list and try again.",
            true,
            Some("retry_library"),
        ),
        Problem::InvalidSort => answer(
            400,
            "invalid_sort",
            "Choose title, recently added, or episode/track order.",
            false,
            None,
        ),
        Problem::InvalidQuery => answer(
            400,
            "invalid_query",
            "Search text must be 256 bytes or fewer.",
            false,
            None,
        ),
        Problem::FolderMissing => answer(
            404,
            "folder_missing",
            "That folder is no longer available.",
            true,
            Some("return_to_library"),
        ),
        Problem::CatalogBusy => answer(
            503,
            "catalog_busy",
            "The library is being updated. Try again in a moment.",
            true,
            Some("retry_library"),
        ),
        Problem::ContinueParameter => answer(
            400,
            "invalid_parameter",
            "The Continue Watching request contains an unsupported parameter.",
            false,
            None,
        ),
        Problem::InvalidIds => answer(
            400,
            "invalid_ids",
            "Continue Watching accepts up to 100 distinct media item IDs.",
            false,
            None,
        ),
        Problem::ContinueChanged => answer(
            409,
            "catalog_changed",
            "The library changed while Continue Watching was loading. Refresh the list and try again.",
            true,
            Some("retry_library"),
        ),
        Problem::ItemParameter => answer(
            400,
            "invalid_parameter",
            "The item request contains an unsupported parameter.",
            false,
            None,
        ),
        Problem::InvalidEnrichment => answer(
            400,
            "invalid_enrichment",
            "Item enrichment must be either 0 or 1.",
            false,
            None,
        ),
        Problem::InvalidItem => answer(
            400,
            "invalid_item",
            "The media item ID is invalid.",
            false,
            None,
        ),
        Problem::MediaMissing => answer(
            404,
            "media_missing",
            "This title is no longer in the library.",
            true,
            Some("return_to_library"),
        ),
        Problem::ItemUnsupported => answer(
            415,
            "unsupported_media",
            "This library item cannot be played in the browser.",
            false,
            Some("return_to_library"),
        ),
        Problem::FileForbidden => answer(
            403,
            "media_missing",
            "The media file is not available.",
            false,
            Some("return_to_library"),
        ),
        Problem::ItemFileMissing => answer(
            404,
            "media_missing",
            "The media file is not available.",
            true,
            Some("retry_item"),
        ),
        Problem::ProbeBusy => answer(
            503,
            "transcode_busy",
            "The server is preparing other media. Try again shortly.",
            true,
            Some("retry_item"),
        ),
        Problem::ProbeFailed => answer(
            422,
            "probe_failed",
            "Audio-track details could not be loaded.",
            true,
            Some("retry_item"),
        ),
        Problem::PreviewMethod => answer(
            405,
            "method_not_allowed",
            "This timeline preview operation is not supported.",
            false,
            None,
        ),
        Problem::PreviewParameter => answer(
            400,
            "invalid_parameter",
            "The timeline preview request contains an unsupported parameter.",
            false,
            None,
        ),
        Problem::InvalidPreview => answer(
            400,
            "invalid_preview",
            "The timeline preview path is invalid.",
            false,
            None,
        ),
        Problem::PreviewUnavailable => answer(
            404,
            "preview_unavailable",
            "Timeline previews are not available for this title.",
            false,
            None,
        ),
        Problem::StatusMethod => answer(
            405,
            "method_not_allowed",
            "This transcode operation is not supported.",
            false,
            None,
        ),
        Problem::StatusParameter => answer(
            400,
            "invalid_parameter",
            "The status request contains an unsupported parameter.",
            false,
            None,
        ),
        Problem::InvalidRequest => answer(
            400,
            "invalid_request",
            "The playback request ID is invalid.",
            false,
            None,
        ),
        Problem::InvalidSession => answer(
            400,
            "invalid_session",
            "The playback session ID is invalid.",
            false,
            None,
        ),
        Problem::InvalidEvent => answer(
            400,
            "invalid_event",
            "The playback timing event is invalid.",
            false,
            None,
        ),
        Problem::EventWithoutPost => answer(
            400,
            "invalid_parameter",
            "Playback timing events require POST.",
            false,
            None,
        ),
        Problem::StatusFileMissing => answer(
            404,
            "media_missing",
            "The media file is not available.",
            true,
            Some("return_to_library"),
        ),
        Problem::CancelWithoutRequest => answer(
            400,
            "invalid_request",
            "A playback request ID is required for cancellation.",
            false,
            None,
        ),
        Problem::EventWithoutIds => answer(
            400,
            "invalid_request",
            "Playback request and session IDs are required for timing events.",
            false,
            None,
        ),
        Problem::CaptionUnsupported => answer(
            415,
            "caption_unsupported",
            "This caption format cannot be shown in the browser.",
            false,
            None,
        ),
        Problem::CaptionEncoding => answer(
            422,
            "caption_encoding",
            "The caption file is not valid UTF-8.",
            false,
            None,
        ),
        Problem::CaptionMalformed => answer(
            422,
            "caption_malformed",
            "The caption file is malformed.",
            false,
            None,
        ),
        Problem::MediaUnsupported => answer(
            415,
            "unsupported_media",
            "This item cannot be played in a browser.",
            false,
            Some("return_to_library"),
        ),
        Problem::MediaParameter => answer(
            400,
            "invalid_parameter",
            "The media request contains an unsupported parameter.",
            false,
            None,
        ),
        Problem::InvalidStart => answer(
            400,
            "invalid_start",
            "The start offset must be a non-negative whole number.",
            false,
            None,
        ),
        Problem::InvalidMode => answer(
            400,
            "invalid_mode",
            "Choose direct or compatible playback.",
            false,
            None,
        ),
        Problem::InvalidDelivery => answer(
            400,
            "invalid_delivery",
            "Choose MP4, HLS, or Media Source compatible delivery.",
            false,
            None,
        ),
        Problem::InvalidHlsOffset => answer(
            400,
            "invalid_delivery",
            "The HLS resource offset is invalid.",
            false,
            None,
        ),
        Problem::InvalidHlsLength => answer(
            400,
            "invalid_delivery",
            "The HLS resource length is invalid.",
            false,
            None,
        ),
        Problem::InvalidMseCursor => answer(
            400,
            "invalid_delivery",
            "The Media Source fragment cursor is invalid.",
            false,
            None,
        ),
        Problem::FragmentNotCanonical => answer(
            400,
            "invalid_delivery",
            "The fragmented-media query is not canonical.",
            false,
            None,
        ),
        Problem::InvalidHlsResource => answer(
            400,
            "invalid_delivery",
            "The HLS resource request is invalid.",
            false,
            None,
        ),
        Problem::InvalidQuality => answer(
            400,
            "invalid_quality",
            "Choose an available playback quality.",
            false,
            None,
        ),
        Problem::InvalidEncodingPreset => answer(
            400,
            "invalid_encoding_preset",
            "Choose an available encoding preset.",
            false,
            None,
        ),
        Problem::InvalidVideoMode => answer(
            400,
            "invalid_video_mode",
            "Choose copy, repair, or transcode video mode.",
            false,
            None,
        ),
        Problem::InvalidVideoOutput => answer(
            400,
            "invalid_video_output",
            "Choose an available video output format.",
            false,
            None,
        ),
        Problem::OutputIsAutomatic => answer(
            400,
            "invalid_video_output",
            "Copied and repaired video chooses its output format automatically.",
            false,
            None,
        ),
        Problem::InvalidAudioMode => answer(
            400,
            "invalid_audio_mode",
            "Choose copy or transcode audio mode.",
            false,
            None,
        ),
        Problem::InvalidReason => answer(
            400,
            "invalid_reason",
            "The source reason is invalid.",
            false,
            None,
        ),
        Problem::DirectParameter => answer(
            400,
            "invalid_parameter",
            "Direct playback does not accept transcode parameters.",
            false,
            None,
        ),
        Problem::TranscodeDisabled => answer(
            409,
            "transcode_disabled",
            "Compatible playback is disabled on this server.",
            true,
            Some("play_original"),
        ),
        Problem::InvalidAudio => answer(
            400,
            "invalid_audio",
            "Choose an available audio track.",
            false,
            None,
        ),
        Problem::StartPastEnd => answer(
            400,
            "invalid_start",
            "The start offset is past the end of this title.",
            false,
            None,
        ),
        Problem::HdrUnavailable => answer(
            400,
            "video_output_unavailable",
            "HDR10 output is not available for this source and server.",
            true,
            Some("play_compatible"),
        ),
        Problem::VideoCopyUnavailable => answer(
            400,
            "video_copy_unavailable",
            "The source video cannot be copied into compatible playback.",
            false,
            None,
        ),
        Problem::VideoRepairUnavailable => answer(
            400,
            "video_repair_unavailable",
            "This source cannot use display-order repair playback.",
            false,
            None,
        ),
        Problem::AudioCopyUnavailable => answer(
            400,
            "audio_copy_unavailable",
            "The selected audio track cannot be copied into compatible playback.",
            false,
            None,
        ),
        Problem::SettingsDiffer => answer(
            409,
            "invalid_request",
            "This playback generation already has different stream settings.",
            false,
            None,
        ),
        Problem::MediaFileMissing => answer(
            404,
            "media_missing",
            "The media file is not available.",
            true,
            Some("retry_media"),
        ),
        Problem::TranscodeFailed => answer(
            500,
            "transcode_failed",
            "The server could not prepare this title.",
            true,
            Some("retry_media"),
        ),
        Problem::InvalidDownload => answer(
            400,
            "invalid_item",
            "The download item ID is invalid.",
            false,
            None,
        ),
        Problem::DownloadParameter => answer(
            400,
            "invalid_parameter",
            "The download request does not accept parameters.",
            false,
            None,
        ),
        Problem::DownloadUnsupported => answer(
            415,
            "unsupported_media",
            "Only original video files can be downloaded.",
            false,
            Some("return_to_library"),
        ),
    }
}

/// How long a client waits before it repeats a request that was refused because
/// the server is busy, in seconds.
pub open spec fn retry_after(problem: Problem) -> Option<u64> {
    match problem {
        Problem::ProbeBusy => Some(1),
        _ => None,
    }
}

/// How long a client waits before it repeats a request that was refused because
/// the server is busy, in seconds.
pub fn retry_after_seconds(problem: Problem) -> (seconds: Option<u64>)
    ensures
        seconds == retry_after(problem),
{
    match problem {
        Problem::ProbeBusy => Some(1),
        _ => None,
    }
}


// -------------------------------------------------------------------- laws

/// Every refusal has the status of an error, and one that can be recovered from
/// says how.
pub proof fn law_recoverable_answers_name_an_action(problem: Problem, error: ApiError)
    requires
        is_answer(problem, error),
    ensures
        400 <= error.status < 600,
        error.recoverable ==> error.action is Some,
{
}

} // verus!
