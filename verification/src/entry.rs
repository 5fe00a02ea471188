//! Titles as a browser is told of them.
use crate::catalog::{file_name, is_video, media_file_name, video, MediaItem};
use crate::codec::{
    browser_video_content_type, is_broken, is_likely_native, likely_browser_native, needs_repair,
    video_content_type, SourceMedia,
};
use crate::encoding::string_of;
use crate::number::{signed_chars, signed_text};
use crate::route::{
    id_under, law_media_path_round_trip, law_path_round_trip, media_id, numbered_path, path_of,
    preview_of, Preview,
};
use crate::subtitle::{caption_dtos, has_label, offers, WebCaption};
use crate::text::{append_chars, chars_of, split, split_text, texts};
use crate::track::{
    browser_direct_codec_string, default_audio_index, direct_codecs, has_title, needs_timestamps, opt,
    original_audio_index, original_index, preferred_index, said, shows, stored_audio_tracks,
    stored_chapters, stream_metadata_complete, title_tracks, AudioRecord, ChapterRecord,
    StreamMarkers, Track, WebAudioTrack, WebChapter,
};
use vstd::prelude::*;

verus! {

/// The identifier of a title. A browser gets it as text: it may be larger than
/// the numbers that a script can hold exactly.
#[derive(Clone, Copy, Debug, PartialEq, Eq, Structural)]
pub struct WebItemId {
    pub id: i64,
}

impl WebItemId {
    /// The identifier in base ten.
    pub fn text(self) -> (text: String)
        ensures
            text@ == signed_text(self.id as int),
    {
        string_of(&signed_chars(self.id))
    }
}

impl From<i64> for WebItemId {
    fn from(value: i64) -> (id: WebItemId) {
        WebItemId { id: value }
    }
}

impl vstd::std_specs::convert::FromSpecImpl<i64> for WebItemId {
    open spec fn obeys_from_spec() -> bool {
        true
    }

    open spec fn from_spec(value: i64) -> WebItemId {
        WebItemId { id: value }
    }
}

/// The films that a film belongs to.
pub struct WebMovieCollection {
    pub id: String,
    pub title: String,
    pub sequence: u32,
}

/// What is known of a title besides its catalog entry.
pub struct MediaFacts {
    pub source: SourceMedia,
    /// The recorded audio streams, where they could be read.
    pub records: Option<Vec<AudioRecord>>,
    /// The audio stream that plays where no track is preferred.
    pub picked_audio: usize,
    pub chapters: Vec<ChapterRecord>,
    pub markers: Option<StreamMarkers>,
    pub collection: Option<WebMovieCollection>,
    pub duration_seconds: Option<usize>,
    /// Whether the server makes thumbnails.
    pub thumbnails: bool,
    /// The encoder that videos are converted with.
    pub browser_encoder: String,
    /// The encoder that repairs this video.
    pub repair_encoder: String,
}

/// A title as a browser is told of it.
pub struct WebMediaItem {
    pub id: WebItemId,
    pub title: String,
    pub file_name: String,
    pub collection: Option<WebMovieCollection>,
    pub kind: &'static str,
    pub mime: String,
    pub ext: String,
    pub date: Option<String>,
    pub duration: Option<String>,
    pub duration_seconds: Option<usize>,
    pub resolution: Option<String>,
    pub width: u32,
    pub height: u32,
    pub artist: Option<String>,
    pub album_artist: Option<String>,
    pub album: Option<String>,
    pub disc: Option<i64>,
    pub track: Option<i64>,
    pub about: Option<String>,
    pub plot: Option<String>,
    pub summary: Option<String>,
    pub genre: Option<String>,
    pub creator: Option<String>,
    pub composer: Option<String>,
    pub bitrate: Option<i64>,
    pub channels: Option<i64>,
    pub sample_rate: Option<i64>,
    pub size_bytes: u64,
    pub container: String,
    pub video_codec: String,
    pub video_profile: Option<String>,
    pub video_level: Option<u32>,
    pub pixel_format: Option<String>,
    pub bit_depth: Option<u32>,
    pub frame_rate: Option<String>,
    pub video_timestamp_mode: Option<String>,
    pub video_repair_required: bool,
    pub audio_codec: String,
    pub audio_layout: Option<String>,
    pub codec_string: Option<String>,
    pub video_content_type: Option<String>,
    pub hdr: String,
    pub audio_tracks: Vec<WebAudioTrack>,
    pub default_audio_index: usize,
    pub captions: Vec<WebCaption>,
    pub chapters: Vec<WebChapter>,
    pub stream_metadata_complete: bool,
    pub art_url: Option<String>,
    pub preview_url: Option<String>,
    pub download_url: Option<String>,
    pub source_url: String,
    pub fallback_url: String,
    pub transcode_likely: bool,
    pub compatible_video_encoder: String,
    pub repair_video_encoder: String,
}

/// A text that says something.
pub open spec fn present(text: Seq<char>) -> Option<Seq<char>> {
    if text.len() > 0 {
        Some(text)
    } else {
        None
    }
}

/// A number that says something.
pub open spec fn positive(n: u32) -> Option<u32> {
    if n > 0 {
        Some(n)
    } else {
        None
    }
}

/// The number of channels of a title, where it can be one.
pub open spec fn channel_count(channels: Option<i64>) -> u32 {
    match channels {
        Some(n) => if 0 <= n <= u32::MAX {
            n as u32
        } else {
            0
        },
        None => 0,
    }
}

/// The audio tracks of a title.
pub open spec fn tracks_of(item: MediaItem, facts: MediaFacts) -> Seq<Track> {
    title_tracks(
        match facts.records {
            Some(records) => Some(records@),
            None => None,
        },
        item.probe.audio@,
        channel_count(item.channels),
    )
}

/// Whether everything that a browser needs to know of the streams is stored.
pub open spec fn is_complete(item: MediaItem, facts: MediaFacts) -> bool {
    facts.markers matches Some(markers) && markers.video_capabilities && (needs_timestamps(
        item.mime@,
        item.probe.container@,
        item.probe.video@,
    ) ==> markers.timestamps)
}

/// The path of a title's picture: its cover, or a thumbnail of a video.
pub open spec fn art_path(item: MediaItem, thumbnails: bool) -> Option<Seq<char>> {
    if item.album_art > 0 {
        Some(
            "/AlbumArt/"@ + signed_text(item.album_art as int) + seq!['-'] + signed_text(
                item.detail_id as int,
            ) + ".jpg"@,
        )
    } else if is_video(item.mime@) && thumbnails {
        Some(path_of("/Thumbnails/"@, item.detail_id as int, ".jpg"@))
    } else {
        None
    }
}

/// A path that only videos have.
pub open spec fn video_path(item: MediaItem, prefix: Seq<char>) -> Option<Seq<char>> {
    if is_video(item.mime@) {
        Some(path_of(prefix, item.detail_id as int, ""@))
    } else {
        None
    }
}

/// The encoder that a title is converted with.
pub open spec fn encoder_of(item: MediaItem, facts: MediaFacts) -> Seq<char> {
    if is_video(item.mime@) {
        facts.browser_encoder@
    } else {
        "none"@
    }
}

/// The encoder that a title is repaired with, where it needs that.
pub open spec fn repair_encoder_of(item: MediaItem, facts: MediaFacts) -> Seq<char> {
    if is_video(item.mime@) && is_broken(item.probe) {
        facts.repair_encoder@
    } else {
        encoder_of(item, facts)
    }
}

/// Whether two collections are the same.
pub open spec fn same_collection(
    a: Option<WebMovieCollection>,
    b: Option<WebMovieCollection>,
) -> bool {
    match (a, b) {
        (Some(a), Some(b)) => a.id@ == b.id@ && a.title@ == b.title@ && a.sequence == b.sequence,
        (None, None) => true,
        _ => false,
    }
}

/// Whether the caption tracks are those of a title.
pub open spec fn offers_all(captions: Seq<WebCaption>, item: MediaItem) -> bool {
    &&& captions.len() == item.captions@.len()
    &&& forall|i: int|
        0 <= i < captions.len() ==> offers(
            #[trigger] captions[i],
            item.captions@[i],
            item.detail_id,
        )
}

/// Whether the chapters are the recorded ones.
pub open spec fn shows_all(chapters: Seq<WebChapter>, facts: MediaFacts) -> bool {
    &&& chapters.len() == facts.chapters@.len()
    &&& forall|i: int|
        0 <= i < chapters.len() ==> shows(#[trigger] chapters[i], facts.chapters@[i])
}

/// Whether a browser is told of a title what there is to tell.
pub open spec fn tells(dto: WebMediaItem, item: MediaItem, facts: MediaFacts) -> bool {
    &&& dto.id.id == item.detail_id
    &&& dto.title@ == item.title@
    &&& dto.file_name@ == file_name(item)
    &&& same_collection(dto.collection, facts.collection)
    &&& dto.kind@ == if is_video(item.mime@) {
        "video"@
    } else {
        "audio"@
    }
    &&& dto.mime@ == item.mime@
    &&& dto.ext@ == item.ext@
    &&& opt(dto.date) == present(item.date@)
    &&& opt(dto.duration) == opt(item.duration)
    &&& dto.duration_seconds == facts.duration_seconds
    &&& opt(dto.resolution) == opt(item.resolution)
    &&& dto.width == item.probe.width
    &&& dto.height == item.probe.height
    &&& opt(dto.artist) == opt(item.artist)
    &&& opt(dto.album_artist) == opt(item.album_artist)
    &&& opt(dto.album) == opt(item.album)
    &&& dto.disc == item.disc
    &&& dto.track == item.track
    &&& opt(dto.about) == opt(item.about)
    &&& opt(dto.plot) == opt(item.plot)
    &&& opt(dto.summary) == if is_video(item.mime@) {
        opt(item.plot)
    } else {
        opt(item.about)
    }
    &&& opt(dto.genre) == opt(item.genre)
    &&& opt(dto.creator) == opt(item.creator)
    &&& opt(dto.composer) == opt(item.composer)
    &&& dto.bitrate == item.bitrate
    &&& dto.channels == item.channels
    &&& dto.sample_rate == item.samplerate
    &&& dto.size_bytes == item.size
    &&& dto.container@ == item.probe.container@
    &&& dto.video_codec@ == item.probe.video@
    &&& opt(dto.video_profile) == present(item.probe.video_profile@)
    &&& dto.video_level == positive(item.probe.video_level)
    &&& opt(dto.pixel_format) == present(item.probe.pixel_format@)
    &&& dto.bit_depth == positive(item.probe.bit_depth)
    &&& opt(dto.frame_rate) == present(item.probe.frame_rate@)
    &&& opt(dto.video_timestamp_mode) == present(item.probe.video_timestamp_mode@)
    &&& dto.video_repair_required == is_broken(item.probe)
    &&& dto.audio_codec@ == item.probe.audio@
    &&& opt(dto.audio_layout) == present(item.probe.audio_layout@)
    &&& opt(dto.codec_string) == direct_codecs(
        item.mime@,
        item.probe.video@,
        item.probe.codec_string@,
        tracks_of(item, facts),
        original_index(tracks_of(item, facts)),
    )
    &&& opt(dto.video_content_type) == video_content_type(item.probe, facts.source)
    &&& dto.hdr@ == item.probe.hdr@
    &&& said(dto.audio_tracks@) == tracks_of(item, facts)
    &&& dto.default_audio_index == preferred_index(tracks_of(item, facts), facts.picked_audio)
    &&& offers_all(dto.captions@, item)
    &&& shows_all(dto.chapters@, facts)
    &&& dto.stream_metadata_complete == is_complete(item, facts)
    &&& opt(dto.art_url) == art_path(item, facts.thumbnails)
    &&& opt(dto.preview_url) == video_path(item, "/api/web/preview/"@)
    &&& opt(dto.download_url) == video_path(item, "/web/download/"@)
    &&& dto.source_url@ == path_of("/web/media/"@, item.detail_id as int, ".mp4?mode=direct"@)
    &&& dto.fallback_url@ == path_of("/web/media/"@, item.detail_id as int, ".mp4"@)
    &&& dto.transcode_likely == !is_likely_native(item.mime@, facts.source)
    &&& dto.compatible_video_encoder@ == encoder_of(item, facts)
    &&& dto.repair_video_encoder@ == repair_encoder_of(item, facts)
}

fn present_text(text: &String) -> (result: Option<String>)
    ensures
        opt(result) == present(text@),
{
    if text.as_str().is_empty() {
        None
    } else {
        Some(text.clone())
    }
}

fn copy_text(text: &Option<String>) -> (result: Option<String>)
    ensures
        opt(result) == opt(*text),
{
    match text {
        Some(text) => Some(text.clone()),
        None => None,
    }
}

fn positive_number(n: u32) -> (result: Option<u32>)
    ensures
        result == positive(n),
{
    if n > 0 {
        Some(n)
    } else {
        None
    }
}

fn copy_collection(collection: &Option<WebMovieCollection>) -> (result: Option<WebMovieCollection>)
    ensures
        same_collection(result, *collection),
{
    match collection {
        Some(collection) => Some(
            WebMovieCollection {
                id: collection.id.clone(),
                title: collection.title.clone(),
                sequence: collection.sequence,
            },
        ),
        None => None,
    }
}

/// The number of channels of a title, where it can be one.
pub fn fallback_channels(channels: Option<i64>) -> (count: u32)
    ensures
        count == channel_count(channels),
{
    match channels {
        Some(n) => if 0 <= n && n <= u32::MAX as i64 {
            n as u32
        } else {
            0
        },
        None => 0,
    }
}

fn art_url(item: &MediaItem, thumbnails: bool) -> (result: Option<String>)
    ensures
        opt(result) == art_path(*item, thumbnails),
{
    if item.album_art > 0 {
        let mut url = chars_of("/AlbumArt/");
        append_chars(&mut url, &signed_chars(item.album_art));
        url.push('-');
        append_chars(&mut url, &signed_chars(item.detail_id));
        append_chars(&mut url, &chars_of(".jpg"));
        assert(url@ =~= art_path(*item, thumbnails)->0);
        Some(string_of(&url))
    } else if video(item.mime.as_str()) && thumbnails {
        Some(numbered_path("/Thumbnails/", item.detail_id, ".jpg"))
    } else {
        None
    }
}

fn video_url(item: &MediaItem, prefix: &str) -> (result: Option<String>)
    ensures
        opt(result) == video_path(*item, prefix@),
{
    if video(item.mime.as_str()) {
        Some(numbered_path(prefix, item.detail_id, ""))
    } else {
        None
    }
}

/// Tells a browser of a title.
pub fn media_dto(item: &MediaItem, facts: &MediaFacts) -> (dto: WebMediaItem)
    requires
        forall|i: int| 0 <= i < item.captions@.len() ==> has_label(#[trigger] item.captions@[i]),
        forall|i: int| 0 <= i < facts.chapters@.len() ==> has_title(#[trigger] facts.chapters@[i]),
    ensures
        tells(dto, *item, *facts),
{
    let is_video = video(item.mime.as_str());
    let records = match &facts.records {
        Some(records) => Some(records.as_slice()),
        None => None,
    };
    let audio_tracks = stored_audio_tracks(
        records,
        item.probe.audio.as_str(),
        fallback_channels(item.channels),
    );
    let default_index: usize = default_audio_index(&audio_tracks, facts.picked_audio);
    let codec_string = browser_direct_codec_string(
        item.mime.as_str(),
        item.probe.video.as_str(),
        item.probe.codec_string.as_str(),
        &audio_tracks,
        original_audio_index(&audio_tracks),
    );
    let repair = needs_repair(&item.probe);
    let compatible = if is_video {
        facts.browser_encoder.clone()
    } else {
        "none".to_owned()
    };
    let repair_encoder = if is_video && repair {
        facts.repair_encoder.clone()
    } else {
        compatible.clone()
    };
    let captions = caption_dtos(&item.captions, item.detail_id);
    let chapters = stored_chapters(&facts.chapters);
    let complete = stream_metadata_complete(
        facts.markers,
        item.mime.as_str(),
        item.probe.container.as_str(),
        item.probe.video.as_str(),
    );
    WebMediaItem {
        id: WebItemId::from(item.detail_id),
        title: item.title.clone(),
        file_name: media_file_name(item),
        collection: copy_collection(&facts.collection),
        kind: if is_video {
            "video"
        } else {
            "audio"
        },
        mime: item.mime.clone(),
        ext: item.ext.clone(),
        date: present_text(&item.date),
        duration: copy_text(&item.duration),
        duration_seconds: facts.duration_seconds,
        resolution: copy_text(&item.resolution),
        width: item.probe.width,
        height: item.probe.height,
        artist: copy_text(&item.artist),
        album_artist: copy_text(&item.album_artist),
        album: copy_text(&item.album),
        disc: item.disc,
        track: item.track,
        about: copy_text(&item.about),
        plot: copy_text(&item.plot),
        summary: if is_video {
            copy_text(&item.plot)
        } else {
            copy_text(&item.about)
        },
        genre: copy_text(&item.genre),
        creator: copy_text(&item.creator),
        composer: copy_text(&item.composer),
        bitrate: item.bitrate,
        channels: item.channels,
        sample_rate: item.samplerate,
        size_bytes: item.size,
        container: item.probe.container.clone(),
        video_codec: item.probe.video.clone(),
        video_profile: present_text(&item.probe.video_profile),
        video_level: positive_number(item.probe.video_level),
        pixel_format: present_text(&item.probe.pixel_format),
        bit_depth: positive_number(item.probe.bit_depth),
        frame_rate: present_text(&item.probe.frame_rate),
        video_timestamp_mode: present_text(&item.probe.video_timestamp_mode),
        video_repair_required: repair,
        audio_codec: item.probe.audio.clone(),
        audio_layout: present_text(&item.probe.audio_layout),
        codec_string,
        video_content_type: browser_video_content_type(&item.probe, &facts.source),
        hdr: item.probe.hdr.clone(),
        audio_tracks,
        default_audio_index: default_index,
        captions,
        chapters,
        stream_metadata_complete: complete,
        art_url: art_url(item, facts.thumbnails),
        preview_url: video_url(item, "/api/web/preview/"),
        download_url: video_url(item, "/web/download/"),
        source_url: numbered_path("/web/media/", item.detail_id, ".mp4?mode=direct"),
        fallback_url: numbered_path("/web/media/", item.detail_id, ".mp4"),
        transcode_likely: !likely_browser_native(item.mime.as_str(), &facts.source),
        compatible_video_encoder: compatible,
        repair_video_encoder: repair_encoder,
    }
}

/// A title whose file was looked into anew: all of its streams are known.
pub fn mark_complete(dto: WebMediaItem) -> (result: WebMediaItem)
    ensures
        result == (WebMediaItem { stream_metadata_complete: true, ..dto }),
{
    let mut dto = dto;
    dto.stream_metadata_complete = true;
    dto
}

// ------------------------------------------------------------------ lengths

/// The hours, minutes and seconds of a length, as they are written.
pub open spec fn length_parts(value: Seq<char>) -> Option<(Seq<char>, Seq<char>, Seq<char>)> {
    let parts = split(value, seq![':']);
    if parts.len() == 3 {
        Some((parts[0], parts[1], parts[2]))
    } else {
        None
    }
}

/// The hours, minutes and seconds of a length, as they are written.
pub fn duration_parts(value: &str) -> (result: Option<(String, String, String)>)
    ensures
        match result {
            Some((hours, minutes, seconds)) => length_parts(value@) == Some(
                (hours@, minutes@, seconds@),
            ),
            None => length_parts(value@) is None,
        },
{
    let chars = chars_of(value);
    let colon: [char; 1] = [':'];
    assert(colon@ =~= seq![':']);
    let parts = split_text(&chars, &colon);
    assert(texts(parts@).len() == parts@.len());
    if parts.len() == 3 {
        assert(texts(parts@)[0] == parts@[0]@);
        assert(texts(parts@)[1] == parts@[1]@);
        assert(texts(parts@)[2] == parts@[2]@);
        Some((string_of(parts[0]), string_of(parts[1]), string_of(parts[2])))
    } else {
        None
    }
}

// -------------------------------------------------------------------- laws

/// The paths that a browser is told of a title lead back to it.
pub proof fn law_told_paths_lead_back(item: MediaItem)
    requires
        item.detail_id > 0,
    ensures
        video_path(item, "/web/download/"@) matches Some(path) ==> id_under(
            path,
            "/web/download/"@,
        ) == Some(item.detail_id),
        video_path(item, "/api/web/preview/"@) matches Some(path) ==> preview_of(path) == Some(
            Preview::Manifest(item.detail_id),
        ),
        media_id(path_of("/web/media/"@, item.detail_id as int, ".mp4"@)) == Some(item.detail_id),
{
    reveal_strlit("");
    assert(""@ =~= Seq::<char>::empty());
    law_path_round_trip("/web/download/"@, item.detail_id);
    law_path_round_trip("/api/web/preview/"@, item.detail_id);
    law_media_path_round_trip(item.detail_id);
}

} // verus!
