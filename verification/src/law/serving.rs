//! What is answered.
use crate::asset::{asset_at, asset_response, presentation, root_response, WebAsset};
use crate::capability::{web_capabilities, CapabilityFacts, WebCapabilities};
use crate::caption::cue::BrowserCaptionError;
use crate::caption::{caption_to_webvtt, CaptionWebVttConversion};
use crate::catalog::{CatalogContainer, MediaItem};
use crate::codec::ProbeInfo;
use crate::conversion::{
    fallback_plan, job_key, join_active_job, ActiveJob, JobSettings, TranscodePlan,
};
use crate::download::{
    download_content_disposition, is_safe_name, is_unsafe, lemma_kept_name,
    safe_download_file_name,
};
use crate::encoding::utf8_len;
use crate::entry::{mark_complete, WebMediaItem};
use crate::folder::{folder_start, folder_title, FolderStart};
use crate::http::{
    bytes_response, generation_etag, generation_json_response, html_response, item_etag,
    json_response_with_status, sheet_etag, HttpResponse,
};
use crate::job::{answered_state, StatusMethod, StatusRequest};
use crate::jpeg::{frame_from, jpeg_dimensions, past_fill, two_bytes};
use crate::law::clock::lemma_trim_nothing;
use crate::law::search::is_of_audio;
use crate::law::telling::is_of_video;
use crate::law::tracks::is_trim;
use crate::markup::html_esc;
use crate::number::{decimal_text, lemma_decimal_text, signed_text};
use crate::playback::{BrowserEncodingPreset, BrowserQuality};
use crate::player::{player_report, PlayerFacts, PlayerReport};
use crate::preview::{
    bounded_length, bounded_read, can_have_previews, is_sheet_of, metadata_mtime_ns,
    preview_request, preview_unavailable, sheet_response, sheet_urls, sheets_complete,
    validate_trickplay_manifest, PreviewFileError, PreviewUnavailable, ReadOutcome, TrickplayExpectation,
    TrickplaySidecarManifest,
};
use crate::problem::Problem;
use crate::query::unescaped;
use crate::route::{trickplay_request, valid_asset_revision, TrickplayRequest};
use crate::subtitle::{browser_caption_response, caption_label};
use crate::text::{lowered, CharClass};
use crate::title::{enriched, item_start, original_path, AvInfo, ItemRequest, ItemStart};
use vstd::prelude::*;
use vstd::utf8::encode_utf8;

verus! {

// -------------------------------------------------------------------- copies

/// A browser's copy of a page is current exactly where it holds the tag of the
/// catalog's generation; otherwise it gets the page, with that tag.
pub proof fn law_copies_are_current_or_replaced(
    held: Option<&str>,
    generation: u32,
    body: Vec<u8>,
    tag: String,
    response: HttpResponse,
)
    requires
        call_ensures(generation_etag, (generation,), tag),
        call_ensures(generation_json_response, (held, generation, body), response),
    ensures
        ({
            let current = held is Some && held->0@ == tag@;
            &&& current ==> response.status == 304 && response.body@.len() == 0
            &&& !current ==> response.status == 200 && response.body@ == body@
            &&& response.fields().contains(("ETag"@, tag@))
        }),
{
    let current = held is Some && held->0@ == tag@;
    if current {
        assert(response.fields()[0] == ("ETag"@, tag@));
    } else {
        assert(response.fields()[response.fields().len() - 1] == ("ETag"@, tag@));
    }
}

/// A folder is listed where it is there, of the generation that was asked for, and
/// not already held; each refusal says why.
pub proof fn law_folders_are_listed_or_refused(
    requested: Option<u32>,
    generation: u32,
    found: bool,
    held: Option<&str>,
    tag: String,
    start: FolderStart,
)
    requires
        call_ensures(generation_etag, (generation,), tag),
        call_ensures(folder_start, (requested, generation, found, held), start),
    ensures
        ({
            let wanted = requested is None || requested == Some(generation);
            let current = held is Some && held->0@ == tag@;
            &&& start == FolderStart::Refused(Problem::CatalogChanged) <==> !wanted
            &&& start == FolderStart::Refused(Problem::FolderMissing) <==> wanted && !found
            &&& start == FolderStart::NotModified <==> wanted && found && current
            &&& start == FolderStart::List <==> wanted && found && !current
        }),
{
}

/// A folder is shown under its own title, but for the root.
pub proof fn law_folders_are_shown_by_title(folder: &CatalogContainer, root: &str, title: String)
    requires
        call_ensures(folder_title, (folder, root), title),
    ensures
        folder.object_id@ == root@ ==> title@ == "Media"@,
        folder.object_id@ != root@ ==> title@ == folder.title@,
{
}

/// The details of a title are read where it can be played and the browser's copy
/// is not of it.
pub proof fn law_details_are_read_or_refused(
    request: ItemRequest,
    generation: u32,
    held: Option<&str>,
    mime: &str,
    tag: String,
    start: ItemStart,
)
    requires
        call_ensures(item_etag, (generation, request.id, request.enrich), tag),
        call_ensures(item_start, (request, generation, held, mime), start),
    ensures
        ({
            let current = held is Some && held->0@ == tag@;
            let playable = is_of_video(mime@) || is_of_audio(mime@);
            &&& start == ItemStart::NotModified <==> current
            &&& start == ItemStart::Open <==> !current && playable
            &&& start == ItemStart::Refused(Problem::ItemUnsupported) <==> !current && !playable
        }),
{
    reveal_strlit("video/");
    reveal_strlit("audio/");
    assert("video/"@ =~= seq!['v', 'i', 'd', 'e', 'o', '/']);
    assert("audio/"@ =~= seq!['a', 'u', 'd', 'i', 'o', '/']);
}

/// What was found in a file takes the place of what the catalog says of it; what
/// was not found, and everything else, stays.
pub proof fn law_findings_take_the_place_of_the_catalog(
    item: MediaItem,
    probe: ProbeInfo,
    av: AvInfo,
    result: MediaItem,
)
    requires
        call_ensures(enriched, (item, probe, av), result),
    ensures
        result.probe == probe,
        av.duration is Some ==> result.duration == av.duration,
        av.duration is None ==> result.duration == item.duration,
        av.bitrate is Some ==> result.bitrate == av.bitrate,
        av.bitrate is None ==> result.bitrate == item.bitrate,
        av.resolution is Some ==> result.resolution == av.resolution,
        av.resolution is None ==> result.resolution == item.resolution,
        av.channels is Some ==> result.channels == av.channels,
        av.channels is None ==> result.channels == item.channels,
        av.samplerate is Some ==> result.samplerate == av.samplerate,
        av.samplerate is None ==> result.samplerate == item.samplerate,
        result.object_id == item.object_id,
        result.detail_id == item.detail_id,
        result.title == item.title,
        result.path_name == item.path_name,
        result.mime == item.mime,
        result.artist == item.artist,
        result.album == item.album,
        result.captions == item.captions,
        result.size == item.size,
{
}

/// A title whose file was looked into is told as before, and as completely known.
pub proof fn law_completeness_changes_nothing_else(dto: WebMediaItem, result: WebMediaItem)
    requires
        call_ensures(mark_complete, (dto,), result),
    ensures
        result.stream_metadata_complete,
        result.id == dto.id && result.title == dto.title && result.artist == dto.artist,
        result.audio_tracks == dto.audio_tracks && result.captions == dto.captions,
        result.default_audio_index == dto.default_audio_index,
        result.source_url == dto.source_url && result.fallback_url == dto.fallback_url,
{
}

// ------------------------------------------------------------------ captions

/// A caption file is answered with its track, or refused for what is wrong with it.
pub proof fn law_captions_are_served(
    kind: CaptionWebVttConversion,
    body: &[u8],
    track: Result<Vec<u8>, BrowserCaptionError>,
    result: Result<HttpResponse, Problem>,
)
    requires
        call_ensures(caption_to_webvtt, (kind, body), track),
        call_ensures(browser_caption_response, (Some(kind), body), result),
    ensures
        track is Ok ==> result is Ok && result->Ok_0.status == 200 && result->Ok_0.body@
            == track->Ok_0@,
        track == Err::<Vec<u8>, BrowserCaptionError>(BrowserCaptionError::Encoding) ==> result
            == Err::<HttpResponse, Problem>(Problem::CaptionEncoding),
        track == Err::<Vec<u8>, BrowserCaptionError>(BrowserCaptionError::Malformed) ==> result
            == Err::<HttpResponse, Problem>(Problem::CaptionMalformed),
{
}

/// A caption track is labelled by its language, as far as that has a name here.
pub proof fn law_captions_are_labelled(index: u32, language: Option<&str>, label: String)
    requires
        call_ensures(caption_label, (index, language), label),
    ensures
        language is None ==> label@ == "Caption "@ + decimal_text((index + 1) as nat),
        language is Some && (language->0@ == "en"@ || language->0@ == "eng"@) ==> label@
            == "English"@,
        language is Some && (language->0@ == "es"@ || language->0@ == "spa"@) ==> label@
            == "Spanish"@,
        language is Some && (language->0@ == "fr"@ || language->0@ == "fra"@ || language->0@
            == "fre"@) ==> label@ == "French"@,
        language is Some && (language->0@ == "de"@ || language->0@ == "deu"@ || language->0@
            == "ger"@) ==> label@ == "German"@,
        language is Some && (language->0@ == "it"@ || language->0@ == "ita"@) ==> label@
            == "Italian"@,
        language is Some && (language->0@ == "ja"@ || language->0@ == "jpn"@) ==> label@
            == "Japanese"@,
        language is Some && (language->0@ == "ko"@ || language->0@ == "kor"@) ==> label@
            == "Korean"@,
        language is Some && (language->0@ == "zh"@ || language->0@ == "zho"@ || language->0@
            == "chi"@) ==> label@ == "Chinese"@,
{
    reveal_strlit("en");
    reveal_strlit("eng");
    reveal_strlit("es");
    reveal_strlit("spa");
    reveal_strlit("fr");
    reveal_strlit("fra");
    reveal_strlit("fre");
    reveal_strlit("de");
    reveal_strlit("deu");
    reveal_strlit("ger");
    reveal_strlit("it");
    reveal_strlit("ita");
    reveal_strlit("ja");
    reveal_strlit("jpn");
    reveal_strlit("ko");
    reveal_strlit("kor");
    reveal_strlit("zh");
    reveal_strlit("zho");
    reveal_strlit("chi");
    assert("en"@[0] == 'e' && "en"@[1] == 'n' && "es"@[0] == 'e' && "es"@[1] == 's');
    assert("fr"@[0] == 'f' && "de"@[0] == 'd' && "it"@[0] == 'i' && "ja"@[0] == 'j');
    assert("ko"@[0] == 'k' && "zh"@[0] == 'z');
    assert("eng"@[0] == 'e' && "spa"@[0] == 's' && "fra"@[0] == 'f' && "fre"@[0] == 'f');
    assert("deu"@[0] == 'd' && "ger"@[0] == 'g' && "ita"@[0] == 'i' && "jpn"@[0] == 'j');
    assert("kor"@[0] == 'k' && "zho"@[0] == 'z' && "chi"@[0] == 'c');
}

// ----------------------------------------------------------------- downloads

/// A file that can be offered under its own name is.
pub proof fn law_ordinary_names_are_kept(
    file_name: &str,
    id: i64,
    extension: &str,
    name: String,
)
    requires
        call_ensures(safe_download_file_name, (file_name, id, extension), name),
        is_trim(file_name@),
        file_name@ != seq!['.'],
        file_name@ != seq!['.', '.'],
        utf8_len(file_name@) <= 240,
        forall|i: int|
            0 <= i < file_name@.len() ==> {
                &&& (#[trigger] file_name@[i]) as int >= 0x20
                &&& !(0x7f <= file_name@[i] as int <= 0x9f)
                &&& file_name@[i] != '/'
                &&& file_name@[i] != '\\'
            },
    ensures
        name@ == file_name@,
{
    lemma_trim_nothing(file_name@, CharClass::White);
    assert forall|i: int| 0 <= i < file_name@.len() implies !is_unsafe(
        #[trigger] file_name@[i],
    ) by {}
    assert(is_safe_name(file_name@));
    lemma_kept_name(file_name@, id as int, extension@);
}

/// A file without a name of its own is offered under its number.
pub proof fn law_nameless_files_are_named_by_number(
    file_name: &str,
    id: i64,
    extension: &str,
    name: String,
)
    requires
        call_ensures(safe_download_file_name, (file_name, id, extension), name),
        file_name@.len() == 0 || file_name@ == seq!['.'] || file_name@ == seq!['.', '.'],
        0 < extension@.len() <= 16,
        forall|i: int|
            0 <= i < extension@.len() ==> 'a' <= #[trigger] extension@[i] <= 'z' || '0'
                <= extension@[i] <= '9',
    ensures
        name@ == "video-"@ + signed_text(id as int) + seq!['.'] + extension@,
{
    let shown = crate::download::replaced_unsafe(file_name@);
    assert(shown =~= file_name@);
    lemma_trim_nothing(file_name@, CharClass::White);
    lemma_alphanumerics(extension@);
    reveal_strlit("video-");
    assert("video-"@ =~= seq!['v', 'i', 'd', 'e', 'o', '-']);
}

pub(crate) proof fn lemma_alphanumerics(s: Seq<char>)
    requires
        forall|i: int|
            0 <= i < s.len() ==> 'a' <= #[trigger] s[i] <= 'z' || '0' <= s[i] <= '9',
    ensures
        crate::download::alphanumerics(s) == s,
    decreases s.len(),
{
    if s.len() > 0 {
        let t = s.drop_last();
        assert forall|i: int| 0 <= i < t.len() implies 'a' <= #[trigger] t[i] <= 'z' || '0' <= t[i]
            <= '9' by {
            assert(t[i] == s[i]);
        }
        lemma_alphanumerics(t);
        assert(s[s.len() - 1] == s.last());
        assert(t.push(s.last()) =~= s);
    } else {
        assert(s =~= Seq::<char>::empty());
    }
}

/// A download is offered under the name that a file gets: an attachment whose
/// extended name decodes to it.
pub proof fn law_downloads_carry_their_name(
    file_name: &str,
    id: i64,
    extension: &str,
    name: String,
    value: String,
)
    requires
        call_ensures(safe_download_file_name, (file_name, id, extension), name),
        call_ensures(download_content_disposition, (file_name, id, extension), value),
        forall|i: int| 0 <= i < name@.len() ==> name@[i] != '+',
    ensures
        exists|plain: Seq<char>, extended: Seq<char>|
            value@ == "attachment; filename=\""@ + plain + "\"; filename*=UTF-8''"@ + extended
                && plain.len() == name@.len() && #[trigger] is_offered(plain, extended, name@),
{
    crate::download::law_extended_name_round_trip(name@);
    let plain = crate::download::ascii_name(name@);
    let extended = crate::download::escaped_bytes(encode_utf8(name@));
    assert(is_offered(plain, extended, name@));
}

/// Whether a name is offered in full, and in plain letters as far as it has any.
pub open spec fn is_offered(plain: Seq<char>, extended: Seq<char>, name: Seq<char>) -> bool {
    &&& unescaped(extended) == Some(name)
    &&& plain.len() == name.len()
    &&& forall|i: int|
        0 <= i < name.len() ==> ('a' <= #[trigger] name[i] <= 'z' || 'A' <= name[i] <= 'Z' || '0'
            <= name[i] <= '9' || name[i] == '.' || name[i] == ' ') ==> plain[i] == name[i]
}

/// An original file is served under its number and its extension.
pub proof fn law_originals_are_named_by_number(id: i64, extension: &str, path: String)
    requires
        call_ensures(original_path, (id, extension), path),
    ensures
        path@ == "/MediaItems/"@ + signed_text(id as int) + seq!['.'] + extension@,
{
}

// ------------------------------------------------------------------ previews

/// Every sheet that is handed out is asked for as itself: by the title, the set
/// and the place that its path names.
pub proof fn law_sheets_are_asked_for_as_themselves(
    id: i64,
    revision: &str,
    count: u32,
    urls: Vec<String>,
    i: int,
    path: &str,
    result: Option<TrickplayRequest>,
)
    requires
        call_ensures(sheet_urls, (id, revision, count), urls),
        id > 0,
        forall|j: int| 0 <= j < revision@.len() ==> revision@[j] != '/',
        0 <= i < count,
        path@ == urls@[i]@,
        call_ensures(trickplay_request, (path,), result),
    ensures
        urls@.len() == count,
        result is Some,
        result->0 matches TrickplayRequest::Sheet { item_id, revision: set, index } && item_id == id
            && set@ == revision@ && index == i,
{
    crate::route::law_sheet_path_round_trip(id, revision@, i as u32);
}

/// A manifest is used exactly where it belongs to the file, and says what a title
/// of that length has to have.
pub proof fn law_manifests_belong_to_their_file(
    manifest: &TrickplaySidecarManifest,
    size: u64,
    time: Option<i64>,
    expected: &TrickplayExpectation,
    revision: &str,
    valid: bool,
    result: Option<u32>,
)
    requires
        call_ensures(validate_trickplay_manifest, (manifest, size, time, expected), result),
        revision@ == manifest.asset_revision@,
        call_ensures(valid_asset_revision, (revision,), valid),
    ensures
        result is Some <==> {
            &&& manifest.schema_version == expected.schema_version
            &&& manifest.source_size == size
            &&& time == Some(manifest.source_mtime_ns)
            &&& expected.interval_seconds == Some(manifest.interval_seconds)
            &&& expected.frame_count == Some(manifest.frame_count)
            &&& expected.valid_layout
            &&& expected.sheet_count is Some
            &&& valid
        },
        result is Some ==> result == expected.sheet_count,
        valid <==> revision@.len() == 16 && forall|i: int|
            0 <= i < revision@.len() ==> '0' <= #[trigger] revision@[i] <= '9' || 'a' <= revision@[i]
                <= 'f',
{
    if valid {
        assert forall|i: int| 0 <= i < revision@.len() implies '0' <= #[trigger] revision@[i] <= '9'
            || 'a' <= revision@[i] <= 'f' by {
            assert(crate::text::is_digit(revision@[i]) || 'a' <= revision@[i] <= 'f');
        }
    }
}

/// A sheet is of a manifest exactly where its set is and its place is one; all of
/// them are there where each has a size within the limit.
pub proof fn law_sheets_belong_to_their_manifest(
    manifest: &TrickplaySidecarManifest,
    count: u32,
    revision: &str,
    index: u32,
    result: bool,
    sizes: &[Option<u64>],
    limit: u64,
    complete: bool,
)
    requires
        call_ensures(is_sheet_of, (manifest, count, revision, index), result),
        call_ensures(sheets_complete, (sizes, count, limit), complete),
    ensures
        result <==> revision@ == manifest.asset_revision@ && index < count,
        complete && index < count ==> index < sizes@.len() && sizes@[index as int] is Some && 0
            < sizes@[index as int]->0 <= limit,
        index < count && index < sizes@.len() && sizes@[index as int] is None ==> !complete,
        sizes@.len() < count ==> !complete,
        count == 0 ==> complete,
{
    if complete && index < count {
        assert(crate::preview::is_sheet_size(sizes@[index as int], limit));
    }
}

/// A sheet is answered with its own bytes, or with word that the browser's copy of
/// it is current; nothing that is no sheet of the manifest is answered.
pub proof fn law_sheets_are_served(
    manifest: &TrickplaySidecarManifest,
    count: u32,
    revision: &str,
    index: u32,
    held: Option<&str>,
    bytes: &[u8],
    tag: String,
    result: Result<HttpResponse, Problem>,
)
    requires
        call_ensures(sheet_response, (manifest, count, revision, index, held, bytes), result),
        call_ensures(sheet_etag, (revision, index), tag),
    ensures
        result is Ok ==> revision@ == manifest.asset_revision@ && index < count,
        result is Ok && held is Some && held->0@ == tag@ ==> result->Ok_0.status == 304
            && result->Ok_0.body@.len() == 0,
        result is Ok && !(held is Some && held->0@ == tag@) ==> result->Ok_0.status == 200
            && result->Ok_0.body@ == bytes@,
        result is Err ==> result->Err_0 == Problem::PreviewUnavailable,
{
}

/// Only videos have previews; where there are none a manifest says so, for the
/// title that was asked for, and a sheet is refused.
pub proof fn law_only_videos_have_previews(
    mime: Option<&str>,
    possible: bool,
    request: &TrickplayRequest,
    answer: PreviewUnavailable,
)
    requires
        call_ensures(can_have_previews, (mime,), possible),
        call_ensures(preview_unavailable, (request,), answer),
    ensures
        possible <==> mime is Some && is_of_video(mime->0@),
        *request matches TrickplayRequest::Manifest(id) ==> answer == PreviewUnavailable::Manifest(
            id,
        ),
        *request is Sheet ==> answer == PreviewUnavailable::Refused(Problem::PreviewUnavailable),
{
    reveal_strlit("video/");
    assert("video/"@ =~= seq!['v', 'i', 'd', 'e', 'o', '/']);
}

/// A generated file is read whole or not at all.
pub proof fn law_files_are_read_whole(
    length: u64,
    limit: u64,
    planned: Result<usize, PreviewFileError>,
    outcome: ReadOutcome,
    read: Result<(), PreviewFileError>,
)
    requires
        call_ensures(bounded_length, (length, limit), planned),
        planned is Ok,
        call_ensures(bounded_read, (planned->Ok_0, outcome), read),
    ensures
        0 < length <= limit,
        read is Ok <==> outcome == ReadOutcome::Bytes(planned->Ok_0),
        planned->Ok_0 == length,
        outcome == ReadOutcome::LimitExceeded ==> read->Err_0 == PreviewFileError::Grew,
        outcome == ReadOutcome::Failed ==> read->Err_0 == PreviewFileError::Unreadable,
{
}

/// The time of a file is its seconds and its nanoseconds together.
pub proof fn law_file_times_add_up(seconds: i64, nanos: i64, result: Option<i64>)
    requires
        call_ensures(metadata_mtime_ns, (seconds, nanos), result),
        0 <= nanos < 1_000_000_000,
    ensures
        result is Some ==> result->0 == seconds * 1_000_000_000 + nanos,
        0 <= seconds && seconds * 1_000_000_000 + nanos <= i64::MAX ==> result is Some,
{
}

// -------------------------------------------------------------- capabilities

/// A browser is told of every quality and every preset by the name under which it
/// can ask for it, with the numbers and the words that go with it.
pub proof fn law_capabilities_go_with_their_names(
    facts: &CapabilityFacts,
    told: WebCapabilities,
    i: int,
)
    requires
        call_ensures(web_capabilities, (facts,), told),
        facts.qualities@.len() == 7,
        facts.presets@.len() == 3,
    ensures
        told.transcoding == facts.transcoding,
        told.captions == facts.captions,
        told.quality_profiles@.len() == 7,
        told.encoding_presets@.len() == 3,
        told.quality_profiles@[0].id@ == "auto"@,
        told.quality_profiles@[1].id@ == "uhd_high"@,
        told.quality_profiles@[2].id@ == "uhd_optimized"@,
        told.quality_profiles@[3].id@ == "full_hd"@,
        told.quality_profiles@[4].id@ == "data_saver"@,
        told.quality_profiles@[5].id@ == "sd_480"@,
        told.quality_profiles@[6].id@ == "low_360"@,
        0 <= i < 7 ==> {
            let (quality, numbers) = (told.quality_profiles@[i], facts.qualities@[i]);
            &&& quality.max_width == numbers.max_width
            &&& quality.max_height == numbers.max_height
            &&& quality.max_fps == numbers.max_fps
            &&& quality.h264_profile@ == numbers.h264_profile@
            &&& quality.h264_level@ == numbers.h264_level@
            &&& quality.max_video_kbps == numbers.max_video_kbps
            &&& quality.audio_kbps == numbers.audio_kbps
            &&& quality.expected_bandwidth_kbps == numbers.expected_bandwidth_kbps
            &&& quality.automatic_fallback == numbers.automatic_fallback
        },
        told.quality_profiles@[0].label@ == "Auto · up to 4K"@,
        told.quality_profiles@[1].label@ == "4K High · 25 Mbps"@,
        told.quality_profiles@[2].label@ == "4K Optimized · 16 Mbps"@,
        told.quality_profiles@[3].label@ == "1080p · 8 Mbps"@,
        told.quality_profiles@[4].label@ == "720p · 3 Mbps"@,
        told.quality_profiles@[5].label@ == "480p · 1.5 Mbps"@,
        told.quality_profiles@[6].label@ == "360p · 0.8 Mbps"@,
        told.encoding_presets@[0].id@ == "balanced"@,
        told.encoding_presets@[1].id@ == "fast_start"@,
        told.encoding_presets@[2].id@ == "maximum_speed"@,
        0 <= i < 3 ==> told.encoding_presets@[i].label@ == facts.presets@[i].label@
            && told.encoding_presets@[i].description@ == facts.presets@[i].description@,
{
    let all = told.quality_profiles@;
    assert(all[0].id@ == BrowserQuality::Auto.name());
    assert(all[1].id@ == BrowserQuality::UhdHigh.name());
    assert(all[2].id@ == BrowserQuality::UhdOptimized.name());
    assert(all[3].id@ == BrowserQuality::FullHd.name());
    assert(all[4].id@ == BrowserQuality::DataSaver.name());
    assert(all[5].id@ == BrowserQuality::Sd480.name());
    assert(all[6].id@ == BrowserQuality::Low360.name());
    let presets = told.encoding_presets@;
    assert(presets[0].id@ == BrowserEncodingPreset::Balanced.name());
    assert(presets[1].id@ == BrowserEncodingPreset::FastStart.name());
    assert(presets[2].id@ == BrowserEncodingPreset::MaximumSpeed.name());
    if 0 <= i < 7 {
        assert(crate::capability::tells_quality(
            all[i],
            crate::capability::qualities()[i],
            facts.qualities@[i],
        ));
    }
}

/// A browser is told of the outputs that the server has: none where it does not
/// convert, and high dynamic range only with the encoder that has it. It is told of
/// every model that enlarges, in order.
pub proof fn law_outputs_are_told_as_they_are(
    facts: &CapabilityFacts,
    told: WebCapabilities,
    i: int,
)
    requires
        call_ensures(web_capabilities, (facts,), told),
    ensures
        !facts.transcoding ==> told.video_outputs@.len() == 0,
        facts.transcoding ==> told.video_outputs@.len() >= 1 && told.video_outputs@[0].id@
            == "h264_sdr"@ && told.video_outputs@[0].bit_depth == 8,
        facts.transcoding && facts.encoder@ == "h264_nvenc"@ ==> told.video_outputs@.len() == 2
            && told.video_outputs@[1].id@ == "hevc_hdr10"@ && told.video_outputs@[1].bit_depth == 10,
        facts.transcoding && facts.encoder@ != "h264_nvenc"@ ==> told.video_outputs@.len() == 1,
        told.ai_upscale is Some <==> facts.profiles@.len() > 0,
        told.ai_upscale is Some ==> told.ai_upscale->0.profiles@.len() == facts.profiles@.len(),
        told.ai_upscale is Some && 0 <= i < facts.profiles@.len() ==> {
            let (model, profile) = (told.ai_upscale->0.profiles@[i], facts.profiles@[i]);
            &&& model.name@ == profile.name@
            &&& model.max_source_width == profile.max_source_width
            &&& model.max_source_height == profile.max_source_height
            &&& model.max_source_pixels_per_second == profile.max_source_pixels_per_second
        },
{
    if told.ai_upscale is Some && 0 <= i < facts.profiles@.len() {
        assert(crate::capability::tells_model(
            told.ai_upscale->0.profiles@[i],
            facts.profiles@[i],
        ));
    }
}

// --------------------------------------------------------------- conversions

/// Conversions share a name exactly where they are of one title, with one output and
/// the same arguments.
pub proof fn law_conversions_have_names_of_their_own(
    item: i64,
    output: &str,
    arguments: &str,
    key: String,
    other_item: i64,
    other_output: &str,
    other_arguments: &str,
    other: String,
)
    requires
        call_ensures(job_key, (item, output, arguments), key),
        call_ensures(job_key, (other_item, other_output, other_arguments), other),
        item >= 0,
        other_item >= 0,
        output@.len() == other_output@.len(),
    ensures
        key@ == other@ <==> item == other_item && output@ == other_output@ && arguments@
            == other_arguments@,
{
    let head = "web:"@;
    let (x, y) = (signed_text(item as int), signed_text(other_item as int));
    let (a, b) = (":"@ + output@ + ":"@ + arguments@, ":"@ + other_output@ + ":"@ + other_arguments@);
    reveal_strlit(":");
    lemma_decimal_text(item as nat);
    lemma_decimal_text(other_item as nat);
    assert(key@ =~= head + (x + a));
    assert(other@ =~= head + (y + b));
    if key@ == other@ {
        let n = head.len() as int;
        assert(key@.skip(n) =~= x + a);
        assert(other@.skip(n) =~= y + b);
        assert((x + a)[x.len() as int] == ':' && (y + b)[y.len() as int] == ':');
        if x.len() < y.len() {
            assert((y + b)[x.len() as int] == y[x.len() as int]);
        } else if y.len() < x.len() {
            assert((x + a)[y.len() as int] == x[y.len() as int]);
        }
        assert(x =~= (x + a).take(x.len() as int));
        assert(y =~= (y + b).take(x.len() as int));
        assert(a =~= (x + a).skip(x.len() as int));
        assert(b =~= (y + b).skip(x.len() as int));
        let m = output@.len() as int;
        assert(output@ =~= a.subrange(1, 1 + m));
        assert(other_output@ =~= b.subrange(1, 1 + m));
        assert(arguments@ =~= a.skip(m + 2));
        assert(other_arguments@ =~= b.skip(m + 2));
    }
}

/// Previews are read, without parameters, under the paths that are previews.
pub proof fn law_previews_are_only_read(
    method: &str,
    query: &str,
    path: &str,
    result: Result<TrickplayRequest, Problem>,
    at: Option<TrickplayRequest>,
)
    requires
        call_ensures(preview_request, (method, query, path), result),
        call_ensures(trickplay_request, (path,), at),
    ensures
        method@ == "GET"@ || method@ == "HEAD"@ || method@ == "get"@ ==> {
            &&& query@.len() > 0 ==> result == Err::<TrickplayRequest, Problem>(
                Problem::PreviewParameter,
            )
            &&& query@.len() == 0 && at is None ==> result == Err::<TrickplayRequest, Problem>(
                Problem::InvalidPreview,
            )
            &&& query@.len() == 0 && at is Some ==> result is Ok && result->Ok_0.preview()
                == at->0.preview()
        },
        method@ == "POST"@ || method@ == "PUT"@ || method@ == "DELETE"@ ==> result == Err::<
            TrickplayRequest,
            Problem,
        >(Problem::PreviewMethod),
{
    reveal_strlit("GET");
    reveal_strlit("get");
    reveal_strlit("HEAD");
    reveal_strlit("POST");
    reveal_strlit("PUT");
    reveal_strlit("DELETE");
    assert(lowered("get"@) =~= lowered("GET"@));
    assert(lowered("PUT"@)[0] == 'p' && lowered("GET"@)[0] == 'g');
    assert(lowered("POST"@)[0] == 'p' && lowered("HEAD"@)[0] == 'h');
    assert(lowered("DELETE"@).len() == 6 && lowered("HEAD"@).len() == 4);
    assert(lowered("GET"@).len() == 3 && lowered("POST"@).len() == 4);
    assert(lowered("PUT"@).len() == 3);
}

/// Falling back keeps the track, the quality and the model, takes the encoder that
/// every server has, and decodes and encodes everything in software.
pub proof fn law_falling_back_keeps_what_is_played(
    plan: &TranscodePlan,
    is_video: bool,
    result: Option<TranscodePlan>,
)
    requires
        call_ensures(fallback_plan, (plan, is_video), result),
    ensures
        result is Some <==> plan.copy_audio || (is_video && plan.video_encoder@ != "libx264"@),
        result is Some ==> {
            &&& result->0.audio_index == plan.audio_index
            &&& result->0.quality == plan.quality
            &&& !result->0.copy_audio
            &&& result->0.hardware_decode is None
            &&& result->0.ai_upscale is Some <==> plan.ai_upscale is Some
            &&& result->0.ai_upscale is Some ==> result->0.ai_upscale->0.model@
                == plan.ai_upscale->0.model@
            &&& is_video ==> result->0.video_encoder@ == "libx264"@
            &&& !is_video ==> result->0.video_encoder@ == plan.video_encoder@
        },
{
}

/// A conversion under way is joined exactly where it gives what is asked for.
pub proof fn law_conversions_are_joined_where_they_fit(
    active: &ActiveJob,
    settings: &JobSettings,
    result: Result<(), Problem>,
)
    requires
        call_ensures(join_active_job, (active, settings), result),
    ensures
        result is Ok <==> active.mime@ == settings.mime@ && active.same_arguments
            && active.audio_index == settings.audio_index && active.copy_audio
            == settings.copy_audio && active.cacheable == settings.cacheable
            && active.all_fragments_independent == settings.all_fragments_independent,
        result is Err ==> result->Err_0 == Problem::SettingsDiffer,
{
}

// -------------------------------------------------------------------- assets

/// Each file of the interface stands under its own path, and is answered as what
/// it is.
pub proof fn law_assets_stand_under_their_paths(
    path: &str,
    asset: Option<WebAsset>,
    body: &[u8],
    response: HttpResponse,
)
    requires
        call_ensures(asset_at, (path,), asset),
        asset is Some ==> call_ensures(asset_response, (asset->0, body), response),
    ensures
        path@ == "/favicon.ico"@ <==> asset == Some(WebAsset::Favicon),
        path@ == "/web/app.css"@ <==> asset == Some(WebAsset::AppCss),
        path@ == "/web/app.js"@ <==> asset == Some(WebAsset::AppJs),
        path@ == "/web/api.js"@ <==> asset == Some(WebAsset::ApiJs),
        path@ == "/web/core.js"@ <==> asset == Some(WebAsset::CoreJs),
        path@ == "/web/library.js"@ <==> asset == Some(WebAsset::LibraryJs),
        path@ == "/web/player.js"@ <==> asset == Some(WebAsset::PlayerJs),
        path@ == "/web/preferences.js"@ <==> asset == Some(WebAsset::PreferencesJs),
        path@ == "/web/store.js"@ <==> asset == Some(WebAsset::StoreJs),
        asset is Some ==> response.status == 200 && response.body@ == body@,
        asset is Some ==> response.fields()[0] == ("Content-Type"@, if path@ == "/favicon.ico"@ {
            "image/png"@
        } else if path@ == "/web/app.css"@ {
            "text/css; charset=utf-8"@
        } else {
            "text/javascript; charset=utf-8"@
        }),
{
    reveal_strlit("/favicon.ico");
    reveal_strlit("/web/app.css");
    reveal_strlit("/web/app.js");
    reveal_strlit("/web/api.js");
    reveal_strlit("/web/core.js");
    reveal_strlit("/web/library.js");
    reveal_strlit("/web/player.js");
    reveal_strlit("/web/preferences.js");
    reveal_strlit("/web/store.js");
    assert("/favicon.ico"@[1] == 'f' && "/web/app.css"@[1] == 'w');
    assert("/web/app.css"@[9] == 'c' && "/web/core.js"@[9] == '.' && "/web/core.js"@[5] == 'c');
    assert("/web/app.css"@[5] == 'a');
    assert("/web/app.js"@[6] == 'p' && "/web/app.js"@[7] == 'p' && "/web/api.js"@[7] == 'i');
    assert("/web/store.js"@.len() == 13 && "/web/library.js"@.len() == 15);
    assert("/web/player.js"@.len() == 14 && "/web/preferences.js"@.len() == 19);
    assert("/web/core.js"@.len() == 12 && "/web/app.css"@.len() == 12 && "/favicon.ico"@.len() == 12);
    assert("/web/app.js"@.len() == 11 && "/web/api.js"@.len() == 11);
}

/// The root answers with the interface where it is switched on, and with the
/// status page where it is not.
pub proof fn law_the_root_answers_with_the_interface(
    enabled: bool,
    page: String,
    status_page: String,
    response: HttpResponse,
)
    requires
        call_ensures(root_response, (enabled, page, status_page), response),
    ensures
        response.status == 200,
        enabled ==> response.body@ == encode_utf8(page@),
        !enabled ==> response.body@ == encode_utf8(status_page@),
{
}

/// The interface's page says what it may load, and that nobody is told where it was
/// opened.
pub proof fn law_the_interface_loads_only_its_own(page: String, response: HttpResponse)
    requires
        call_ensures(presentation, (page,), response),
    ensures
        response.status == 200,
        response.body@ == encode_utf8(page@),
        response.fields().contains(("Referrer-Policy"@, "no-referrer"@)),
        response.fields().contains(
            (
                "Content-Security-Policy"@,
                "default-src 'self'; img-src 'self' data:; media-src 'self' blob:; script-src 'self'; style-src 'self'; object-src 'none'; base-uri 'none'; frame-ancestors 'none'"@,
            ),
        ),
{
    let fields = response.fields();
    let n = fields.len() as int;
    assert(fields[n - 1] == ("Referrer-Policy"@, "no-referrer"@));
    assert(fields[n - 2].0 == "Content-Security-Policy"@);
}

// ------------------------------------------------------------------- players

/// What is counted of playback is reported under its own name.
pub proof fn law_playback_is_reported_by_name(facts: &PlayerFacts, report: PlayerReport)
    requires
        call_ensures(player_report, (facts,), report),
    ensures
        report.totals@.len() == 5,
        report.totals@[0].name@ == "requests_total"@ && report.totals@[0].total
            == facts.requests_total,
        report.totals@[1].name@ == "seek_restarts_total"@ && report.totals@[1].total
            == facts.seek_restarts_total,
        report.totals@[2].name@ == "cache_reuses_total"@ && report.totals@[2].total
            == facts.cache_reuses_total,
        report.totals@[3].name@ == "prepared_reuses_total"@ && report.totals@[3].total
            == facts.prepared_reuses_total,
        report.totals@[4].name@ == "cancellations_total"@ && report.totals@[4].total
            == facts.cancellations_total,
        report.failures@.len() == 2,
        report.failures@[0].name@ == "busy_total"@ && report.failures@[0].total
            == facts.busy_failures_total,
        report.failures@[1].name@ == "producer_total"@ && report.failures@[1].total
            == facts.producer_failures_total,
        report.startup@.len() == 10,
        report.startup@[0].name@ == "startup_to_initial_bytes_ms"@ && report.startup@[0].times
            == facts.startup.initial_bytes,
        report.startup@[1].name@ == "startup_to_first_playable_ms"@ && report.startup@[1].times
            == facts.startup.first_playable,
        report.startup@[2].name@ == "startup_to_playlist_ready_ms"@ && report.startup@[2].times
            == facts.startup.playlist_ready,
        report.startup@[3].name@ == "startup_to_mse_playlist_received_ms"@
            && report.startup@[3].times == facts.startup.mse_playlist_received,
        report.startup@[4].name@ == "startup_to_mse_init_fetched_ms"@ && report.startup@[4].times
            == facts.startup.mse_init_fetched,
        report.startup@[5].name@ == "startup_to_mse_init_appended_ms"@ && report.startup@[5].times
            == facts.startup.mse_init_appended,
        report.startup@[6].name@ == "startup_to_mse_first_fragment_fetched_ms"@
            && report.startup@[6].times == facts.startup.mse_first_fragment_fetched,
        report.startup@[7].name@ == "startup_to_mse_first_fragment_appended_ms"@
            && report.startup@[7].times == facts.startup.mse_first_fragment_appended,
        report.startup@[8].name@ == "startup_to_canplay_ms"@ && report.startup@[8].times
            == facts.startup.canplay,
        report.startup@[9].name@ == "startup_to_playing_ms"@ && report.startup@[9].times
            == facts.startup.playing,
{
    let totals = crate::player::totals_said(report.totals@);
    let failures = crate::player::totals_said(report.failures@);
    assert(totals == crate::player::player_totals(*facts));
    assert(failures == crate::player::player_failures(*facts));
    assert(totals.len() == report.totals@.len());
    assert(failures.len() == report.failures@.len());
    assert forall|i: int| 0 <= i < 5 implies totals[i] == (
        (#[trigger] report.totals@[i]).name@,
        report.totals@[i].total,
    ) by {}
    assert forall|i: int| 0 <= i < 2 implies failures[i] == (
        (#[trigger] report.failures@[i]).name@,
        report.failures@[i].total,
    ) by {}
}

// ------------------------------------------------------------------ pictures

/// A JPEG file: the start of an image, a segment of other data, the frame, and
/// whatever follows up to the end of the image.
pub open spec fn jpeg_file(
    other: Seq<u8>,
    width: u16,
    height: u16,
    rest: Seq<u8>,
) -> Seq<u8> {
    let n = other.len() + 2;
    seq![0xffu8, 0xd8, 0xff, 0xe0, (n / 256) as u8, (n % 256) as u8] + other + seq![
        0xffu8,
        0xc0,
        0,
        8,
        8,
        (height / 256) as u8,
        (height % 256) as u8,
        (width / 256) as u8,
        (width % 256) as u8,
        1,
    ] + rest + seq![0xffu8, 0xd9]
}

/// The dimensions of a JPEG file are those of its frame, the width first.
pub proof fn law_pictures_have_the_size_of_their_frame(
    other: Seq<u8>,
    width: u16,
    height: u16,
    rest: Seq<u8>,
    bytes: &[u8],
    result: Option<(u32, u32)>,
)
    requires
        call_ensures(jpeg_dimensions, (bytes,), result),
        bytes@ == jpeg_file(other, width, height, rest),
        other.len() + 2 <= 0xffff,
        width > 0,
        height > 0,
    ensures
        result == Some((width as u32, height as u32)),
{
    let s = bytes@;
    let n = other.len() + 2;
    assert(s.len() == 6 + other.len() + 10 + rest.len() + 2);
    assert(s[0] == 0xff && s[1] == 0xd8 && s[2] == 0xff && s[3] == 0xe0);
    assert(s[4] == (n / 256) as u8 && s[5] == (n % 256) as u8);
    let at = 6 + other.len() as int;
    assert(s[at as int] == 0xff && s[at + 1] == 0xc0 && s[at + 2] == 0 && s[at + 3] == 8);
    assert(s[at + 5] == (height / 256) as u8 && s[at + 6] == (height % 256) as u8);
    assert(s[at + 7] == (width / 256) as u8 && s[at + 8] == (width % 256) as u8);
    assert(s[s.len() - 2] == 0xff && s[s.len() - 1] == 0xd9);
    reveal_with_fuel(past_fill, 3);
    assert(past_fill(s, 2) == 3);
    assert(past_fill(s, at as int) == at + 1);
    assert(two_bytes(s, 4) == n);
    assert(two_bytes(s, at + 2) == 8);
    assert(two_bytes(s, at + 5) == height);
    assert(two_bytes(s, at + 7) == width);
    assert(frame_from(s, at as int) == Some((width as nat, height as nat)));
    assert(frame_from(s, 2) == frame_from(s, at as int));
}

// -------------------------------------------------------------------- markup

/// Of the characters of a text, those of markup become references, and every other
/// that a document may hold stays as it is.
pub proof fn law_markup_is_written_as_references(text: &str, escaped: String)
    requires
        call_ensures(html_esc, (text,), escaped),
        text@.len() == 1,
    ensures
        text@[0] == '&' ==> escaped@ == "&amp;"@,
        text@[0] == '<' ==> escaped@ == "&lt;"@,
        text@[0] == '>' ==> escaped@ == "&gt;"@,
        text@[0] == '"' ==> escaped@ == "&quot;"@,
        text@[0] == '\'' ==> escaped@ == "&apos;"@,
        text@[0] != '&' && text@[0] != '<' && text@[0] != '>' && text@[0] != '"' && text@[0] != '\''
            && text@[0] as int >= 0x20 ==> escaped@ == text@,
{
    reveal_with_fuel(crate::markup::escaped, 2);
    assert(text@.drop_last() =~= Seq::<char>::empty());
    assert(escaped@ =~= crate::markup::escape(text@[0]));
    assert(text@ =~= seq![text@[0]]);
}

/// A text is written piece by piece, in order, with nothing lost between.
pub proof fn law_markup_goes_by_pieces(
    a: &str,
    b: &str,
    both: &str,
    escaped_a: String,
    escaped_b: String,
    escaped: String,
)
    requires
        call_ensures(html_esc, (a,), escaped_a),
        call_ensures(html_esc, (b,), escaped_b),
        call_ensures(html_esc, (both,), escaped),
        both@ == a@ + b@,
    ensures
        escaped@ == escaped_a@ + escaped_b@,
{
    crate::markup::law_escaping_goes_by_pieces(a@, b@);
}

// ----------------------------------------------------------------- responses

/// An answer with a body says what it is and how long it is.
pub proof fn law_answers_say_what_they_hold(
    mime: &str,
    body: &[u8],
    cache: &str,
    bytes: HttpResponse,
    status: u16,
    document: Vec<u8>,
    json: HttpResponse,
    page: String,
    html: HttpResponse,
)
    requires
        call_ensures(bytes_response, (mime, body, cache), bytes),
        call_ensures(json_response_with_status, (status, document), json),
        call_ensures(html_response, (page,), html),
    ensures
        bytes.status == 200 && bytes.body@ == body@,
        bytes.fields().contains(("Content-Type"@, mime@)),
        bytes.fields().contains(("Cache-Control"@, cache@)),
        bytes.fields().contains(("Content-Length"@, decimal_text(body@.len()))),
        json.status == status && json.body@ == document@,
        json.fields().contains(("Content-Type"@, "application/json; charset=utf-8"@)),
        json.fields().contains(("Cache-Control"@, "no-store"@)),
        json.fields().contains(("Content-Length"@, decimal_text(document@.len()))),
        html.status == 200 && html.body@ == encode_utf8(page@),
        html.fields().contains(("Content-Type"@, "text/html; charset=utf-8"@)),
        html.fields().contains(("Content-Length"@, decimal_text(encode_utf8(page@).len()))),
{
    assert(bytes.fields()[0] == ("Content-Type"@, mime@));
    assert(bytes.fields()[1] == ("Cache-Control"@, cache@));
    assert(bytes.fields()[2] == ("Content-Length"@, decimal_text(body@.len())));
    assert(json.fields()[0] == ("Content-Type"@, "application/json; charset=utf-8"@));
    assert(json.fields()[1] == ("Cache-Control"@, "no-store"@));
    assert(json.fields()[2] == ("Content-Length"@, decimal_text(document@.len())));
    assert(html.fields()[0] == ("Content-Type"@, "text/html; charset=utf-8"@));
    assert(html.fields()[2] == ("Content-Length"@, decimal_text(encode_utf8(page@).len())));
}

/// Between the same texts only the same text stands twice.
proof fn lemma_cancel(a: Seq<char>, x: Seq<char>, y: Seq<char>, b: Seq<char>)
    requires
        a + x + b == a + y + b,
    ensures
        x == y,
{
    let s = a + x + b;
    assert(s.len() == (a + y + b).len());
    assert(x.len() == y.len());
    assert(s.subrange(a.len() as int, (a + x).len() as int) =~= x);
    assert((a + y + b).subrange(a.len() as int, (a + y).len() as int) =~= y);
}

/// The details of a title have a tag of their own: another for every catalog, for
/// every title, and for what was looked into anew.
pub proof fn law_details_have_a_tag_of_their_own(
    generation: u32,
    other: u32,
    id: i64,
    another: i64,
    anew: bool,
    tag: String,
    later: String,
    neighbour: String,
    opposite: String,
)
    requires
        call_ensures(item_etag, (generation, id, anew), tag),
        call_ensures(item_etag, (other, id, anew), later),
        call_ensures(item_etag, (generation, another, anew), neighbour),
        call_ensures(item_etag, (generation, id, !anew), opposite),
        id > 0,
        another > 0,
    ensures
        tag@ == later@ <==> generation == other,
        tag@ == neighbour@ <==> id == another,
        tag@ != opposite@,
{
    let head = "W/\"web-v"@ + decimal_text(crate::http::WEB_SCHEMA_VERSION as nat) + "-r"@
        + decimal_text(crate::http::WEB_API_CACHE_REVISION as nat) + seq!['-'];
    let (g, h) = (decimal_text(generation as nat), decimal_text(other as nat));
    let (x, y) = (signed_text(id as int), signed_text(another as int));
    let mark = if anew {
        "-enriched"@
    } else {
        Seq::empty()
    };
    let end = seq!['"'];
    lemma_decimal_text(generation as nat);
    lemma_decimal_text(other as nat);
    lemma_decimal_text(id as nat);
    lemma_decimal_text(another as nat);
    reveal_strlit("-enriched");
    if tag@ == later@ {
        let behind = "-item-"@ + x + mark + end;
        assert(head + g + behind =~= head + g + "-item-"@ + x + mark + end);
        assert(head + h + behind =~= head + h + "-item-"@ + x + mark + end);
        lemma_cancel(head, g, h, behind);
    }
    if tag@ == neighbour@ {
        let before = head + g + "-item-"@;
        let behind = mark + end;
        assert(before + x + behind =~= before + x + mark + end);
        assert(before + y + behind =~= before + y + mark + end);
        lemma_cancel(before, x, y, behind);
    }
    assert(tag@.len() != opposite@.len());
}

/// What is said of a conversion is what it says of itself, unless it was just
/// cancelled.
pub proof fn law_conversions_speak_for_themselves(
    request: StatusRequest,
    cancelled: bool,
    state: String,
    retry: Option<u64>,
    result: (String, Option<u64>),
)
    requires
        call_ensures(answered_state, (request, cancelled, state, retry), result),
    ensures
        request.method == StatusMethod::Cancel && cancelled ==> result.0@ == "cancelled"@ && result.1
            is None,
        request.method != StatusMethod::Cancel || !cancelled ==> result.0@ == state@ && result.1
            == retry,
{
}

} // verus!
