//! What a browser is told of a title.
use crate::catalog::MediaItem;
use crate::entry::{media_dto, MediaFacts, WebMediaItem};
use crate::number::{decimal_text, signed_text};
use crate::subtitle::{caption_dtos, WebCaption};
use crate::track::opt;
use vstd::prelude::*;

verus! {

/// Every tag that a browser is told is the one of that name in the catalog,
/// whatever the others are.
pub proof fn law_tags_keep_their_names(item: &MediaItem, facts: &MediaFacts, dto: WebMediaItem)
    requires
        call_ensures(media_dto, (item, facts), dto),
    ensures
        dto.title@ == item.title@,
        opt(dto.artist) == opt(item.artist),
        opt(dto.album_artist) == opt(item.album_artist),
        opt(dto.album) == opt(item.album),
        opt(dto.about) == opt(item.about),
        opt(dto.plot) == opt(item.plot),
        opt(dto.genre) == opt(item.genre),
        opt(dto.creator) == opt(item.creator),
        opt(dto.composer) == opt(item.composer),
        opt(dto.duration) == opt(item.duration),
        opt(dto.resolution) == opt(item.resolution),
        item.date@.len() > 0 ==> opt(dto.date) == Some(item.date@),
        item.date@.len() == 0 ==> dto.date is None,
        dto.mime@ == item.mime@,
        dto.ext@ == item.ext@,
{
}

/// Two entries with the same artist are told with the same artist, whatever else
/// tells them apart; so it is with each of the other tags.
pub proof fn law_tags_do_not_mix(
    a: &MediaItem,
    b: &MediaItem,
    a_facts: &MediaFacts,
    b_facts: &MediaFacts,
    told_a: WebMediaItem,
    told_b: WebMediaItem,
)
    requires
        call_ensures(media_dto, (a, a_facts), told_a),
        call_ensures(media_dto, (b, b_facts), told_b),
    ensures
        opt(told_a.artist) == opt(told_b.artist) <==> opt(a.artist) == opt(b.artist),
        opt(told_a.album_artist) == opt(told_b.album_artist) <==> opt(a.album_artist) == opt(
            b.album_artist,
        ),
        opt(told_a.album) == opt(told_b.album) <==> opt(a.album) == opt(b.album),
        opt(told_a.genre) == opt(told_b.genre) <==> opt(a.genre) == opt(b.genre),
        opt(told_a.creator) == opt(told_b.creator) <==> opt(a.creator) == opt(b.creator),
        opt(told_a.composer) == opt(told_b.composer) <==> opt(a.composer) == opt(b.composer),
        told_a.title@ == told_b.title@ <==> a.title@ == b.title@,
        told_a.id == told_b.id <==> a.detail_id == b.detail_id,
{
}

/// Every number that a browser is told is the one of that name in the catalog or
/// in what was read from the file.
pub proof fn law_numbers_keep_their_names(item: &MediaItem, facts: &MediaFacts, dto: WebMediaItem)
    requires
        call_ensures(media_dto, (item, facts), dto),
    ensures
        dto.id.id == item.detail_id,
        dto.disc == item.disc,
        dto.track == item.track,
        dto.bitrate == item.bitrate,
        dto.channels == item.channels,
        dto.sample_rate == item.samplerate,
        dto.size_bytes == item.size,
        dto.width == item.probe.width,
        dto.height == item.probe.height,
        dto.duration_seconds == facts.duration_seconds,
        item.probe.video_level > 0 ==> dto.video_level == Some(item.probe.video_level),
        item.probe.video_level == 0 ==> dto.video_level is None,
        item.probe.bit_depth > 0 ==> dto.bit_depth == Some(item.probe.bit_depth),
        item.probe.bit_depth == 0 ==> dto.bit_depth is None,
{
}

/// Every word on the streams that a browser is told is the one that was read from
/// the file; what was not read is left out.
pub proof fn law_streams_keep_their_names(item: &MediaItem, facts: &MediaFacts, dto: WebMediaItem)
    requires
        call_ensures(media_dto, (item, facts), dto),
    ensures
        dto.container@ == item.probe.container@,
        dto.video_codec@ == item.probe.video@,
        dto.audio_codec@ == item.probe.audio@,
        dto.hdr@ == item.probe.hdr@,
        item.probe.video_profile@.len() > 0 ==> opt(dto.video_profile) == Some(
            item.probe.video_profile@,
        ),
        item.probe.video_profile@.len() == 0 ==> dto.video_profile is None,
        item.probe.pixel_format@.len() > 0 ==> opt(dto.pixel_format) == Some(
            item.probe.pixel_format@,
        ),
        item.probe.pixel_format@.len() == 0 ==> dto.pixel_format is None,
        item.probe.frame_rate@.len() > 0 ==> opt(dto.frame_rate) == Some(item.probe.frame_rate@),
        item.probe.frame_rate@.len() == 0 ==> dto.frame_rate is None,
        item.probe.video_timestamp_mode@.len() > 0 ==> opt(dto.video_timestamp_mode) == Some(
            item.probe.video_timestamp_mode@,
        ),
        item.probe.video_timestamp_mode@.len() == 0 ==> dto.video_timestamp_mode is None,
        item.probe.audio_layout@.len() > 0 ==> opt(dto.audio_layout) == Some(
            item.probe.audio_layout@,
        ),
        item.probe.audio_layout@.len() == 0 ==> dto.audio_layout is None,
        dto.video_repair_required <==> item.probe.video_timestamp_mode@ == "broken-reordered"@,
{
}

/// A title is told under the name of its file, or under its own name where its
/// file has none.
pub proof fn law_file_names_are_told(item: &MediaItem, facts: &MediaFacts, dto: WebMediaItem)
    requires
        call_ensures(media_dto, (item, facts), dto),
    ensures
        item.path_name matches Some(name) && name@.len() > 0 ==> dto.file_name@
            == item.path_name->0@,
        item.path_name is None ==> dto.file_name@ == item.title@,
        item.path_name matches Some(name) && name@.len() == 0 ==> dto.file_name@ == item.title@,
{
}

/// Whether a text begins with `video/`.
pub open spec fn is_of_video(mime: Seq<char>) -> bool {
    mime.len() >= 6 && mime.take(6) == seq!['v', 'i', 'd', 'e', 'o', '/']
}

proof fn lemma_is_of_video(mime: Seq<char>)
    ensures
        crate::catalog::is_video(mime) == is_of_video(mime),
{
    reveal_strlit("video/");
    assert("video/"@ =~= seq!['v', 'i', 'd', 'e', 'o', '/']);
}

/// What is a video is told as one, with what only videos have: a summary that is
/// its plot, the encoders of the server, previews and a download. Everything else
/// is told as audio, with what it is about as its summary.
pub proof fn law_kinds_are_told(item: &MediaItem, facts: &MediaFacts, dto: WebMediaItem)
    requires
        call_ensures(media_dto, (item, facts), dto),
    ensures
        is_of_video(item.mime@) ==> {
            &&& dto.kind@ == "video"@
            &&& opt(dto.summary) == opt(item.plot)
            &&& dto.compatible_video_encoder@ == facts.browser_encoder@
            &&& dto.repair_video_encoder@ == if item.probe.video_timestamp_mode@
                == "broken-reordered"@ {
                facts.repair_encoder@
            } else {
                facts.browser_encoder@
            }
            &&& opt(dto.preview_url) == Some(
                "/api/web/preview/"@ + signed_text(item.detail_id as int),
            )
            &&& opt(dto.download_url) == Some(
                "/web/download/"@ + signed_text(item.detail_id as int),
            )
        },
        !is_of_video(item.mime@) ==> {
            &&& dto.kind@ == "audio"@
            &&& opt(dto.summary) == opt(item.about)
            &&& dto.compatible_video_encoder@ == "none"@
            &&& dto.repair_video_encoder@ == "none"@
            &&& dto.preview_url is None
            &&& dto.download_url is None
        },
{
    lemma_is_of_video(item.mime@);
    reveal_strlit("");
    let id = signed_text(item.detail_id as int);
    assert("/api/web/preview/"@ + id + ""@ =~= "/api/web/preview/"@ + id);
    assert("/web/download/"@ + id + ""@ =~= "/web/download/"@ + id);
}

/// The picture of a title is its cover; a video without one has a thumbnail where
/// the server makes them; nothing else has a picture.
pub proof fn law_pictures_are_told(item: &MediaItem, facts: &MediaFacts, dto: WebMediaItem)
    requires
        call_ensures(media_dto, (item, facts), dto),
    ensures
        item.album_art > 0 ==> opt(dto.art_url) == Some(
            "/AlbumArt/"@ + signed_text(item.album_art as int) + seq!['-'] + signed_text(
                item.detail_id as int,
            ) + ".jpg"@,
        ),
        item.album_art <= 0 && is_of_video(item.mime@) && facts.thumbnails ==> opt(dto.art_url)
            == Some("/Thumbnails/"@ + signed_text(item.detail_id as int) + ".jpg"@),
        item.album_art <= 0 && !(is_of_video(item.mime@) && facts.thumbnails) ==> dto.art_url
            is None,
{
    lemma_is_of_video(item.mime@);
}

/// A title is played under its own number: as it is, or converted.
pub proof fn law_streams_are_named_by_the_title(
    item: &MediaItem,
    facts: &MediaFacts,
    dto: WebMediaItem,
)
    requires
        call_ensures(media_dto, (item, facts), dto),
    ensures
        dto.fallback_url@ == "/web/media/"@ + signed_text(item.detail_id as int) + ".mp4"@,
        dto.source_url@ == dto.fallback_url@ + "?mode=direct"@,
{
    reveal_strlit(".mp4");
    reveal_strlit("?mode=direct");
    reveal_strlit(".mp4?mode=direct");
    let id = signed_text(item.detail_id as int);
    assert(".mp4?mode=direct"@ =~= ".mp4"@ + "?mode=direct"@);
    assert("/web/media/"@ + id + (".mp4"@ + "?mode=direct"@) =~= "/web/media/"@ + id + ".mp4"@
        + "?mode=direct"@);
}

/// The films that a film belongs to are told as they are known.
pub proof fn law_collections_are_told(item: &MediaItem, facts: &MediaFacts, dto: WebMediaItem)
    requires
        call_ensures(media_dto, (item, facts), dto),
    ensures
        dto.collection is Some <==> facts.collection is Some,
        dto.collection matches Some(told) ==> {
            &&& told.id@ == facts.collection->0.id@
            &&& told.title@ == facts.collection->0.title@
            &&& told.sequence == facts.collection->0.sequence
        },
{
}

/// Chapters are told one for one, in order, with their own times; one without a
/// title is named by its place counted from one.
pub proof fn law_chapters_are_told(
    item: &MediaItem,
    facts: &MediaFacts,
    dto: WebMediaItem,
    i: int,
)
    requires
        call_ensures(media_dto, (item, facts), dto),
        0 <= i < facts.chapters@.len(),
    ensures
        dto.chapters@.len() == facts.chapters@.len(),
        dto.chapters@[i].index == facts.chapters@[i].source_index,
        dto.chapters@[i].start_millis == facts.chapters@[i].start_millis,
        dto.chapters@[i].end_millis == facts.chapters@[i].end_millis,
        facts.chapters@[i].title matches Some(title) ==> dto.chapters@[i].title@
            == facts.chapters@[i].title->0@,
        facts.chapters@[i].title is None ==> dto.chapters@[i].title@ == "Chapter "@ + decimal_text(
            (facts.chapters@[i].source_index + 1) as nat,
        ),
{
}

/// Caption files are told one for one, in order: each with its own language and
/// format, and with a path of its own exactly where it can become WebVTT. None is
/// on unless it is chosen.
pub proof fn law_captions_are_told(item: &MediaItem, facts: &MediaFacts, dto: WebMediaItem, i: int)
    requires
        call_ensures(media_dto, (item, facts), dto),
        0 <= i < item.captions@.len(),
    ensures
        dto.captions@.len() == item.captions@.len(),
        is_told_caption(dto.captions@[i], item.captions@[i], item.detail_id),
{
}

/// The same of the captions alone.
pub proof fn law_caption_files_are_told(
    captions: &[crate::catalog::CaptionFile],
    detail_id: i64,
    result: Vec<WebCaption>,
    i: int,
)
    requires
        call_ensures(caption_dtos, (captions, detail_id), result),
        0 <= i < captions@.len(),
    ensures
        result@.len() == captions@.len(),
        is_told_caption(result@[i], captions@[i], detail_id),
{
}

/// Whether a caption track is told of a file as it is.
pub open spec fn is_told_caption(
    told: WebCaption,
    file: crate::catalog::CaptionFile,
    detail_id: i64,
) -> bool {
    &&& told.index == file.index
    &&& opt(told.language) == opt(file.language)
    &&& told.source_format@ == file.ext@
    &&& !told.default
    &&& told.browser_supported <==> file.conversion is Some
    &&& file.conversion is None ==> told.url is None
    &&& file.conversion is Some ==> opt(told.url) == Some(
        "/Captions/"@ + signed_text(detail_id as int) + seq!['/'] + decimal_text(file.index as nat)
            + ".vtt?format=webvtt"@,
    )
    &&& file.language is None ==> told.label@ == "Caption "@ + decimal_text(
        (file.index + 1) as nat,
    )
}

} // verus!
