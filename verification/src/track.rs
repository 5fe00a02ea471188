//! Audio tracks and chapters of a title.
use crate::codec::{
    audio_codec_string, audio_content_type, browser_audio_codec_string, browser_audio_content_type,
    browser_stored_video_codec_string, stored_video_codec,
};
use crate::encoding::string_of;
use crate::number::{decimal_chars, decimal_text};
use crate::problem::optional_text;
use crate::query::same_text;
use crate::text::{
    append_chars, begins_with, chars_of, equals_ignoring_case, first_in, index_in,
    same_ignoring_case, split, split_text, starts_with, texts, trim, trimmed, CharClass,
};
use vstd::prelude::*;
use vstd::slice::slice_subrange;

verus! {

/// An audio stream as it was recorded when the file was scanned. A label that
/// could not be decoded is left out.
pub struct AudioRecord {
    pub audio_index: usize,
    pub codec: String,
    pub channels: Option<u32>,
    pub language: Option<String>,
    pub title: Option<String>,
    pub default: bool,
}

/// An audio track that a browser can choose.
pub struct WebAudioTrack {
    pub index: usize,
    pub codec: String,
    pub content_type: Option<String>,
    pub channels: u32,
    pub language: Option<String>,
    pub title: Option<String>,
    pub default: bool,
}

/// What a track says.
pub struct Track {
    pub index: usize,
    pub codec: Seq<char>,
    pub content_type: Option<Seq<char>>,
    pub channels: u32,
    pub language: Option<Seq<char>>,
    pub title: Option<Seq<char>>,
    pub default: bool,
}

/// The text of an optional string.
pub open spec fn opt(text: Option<String>) -> Option<Seq<char>> {
    match text {
        Some(text) => Some(text@),
        None => None,
    }
}

impl WebAudioTrack {
    /// What the track says.
    pub open spec fn says(self) -> Track {
        Track {
            index: self.index,
            codec: self.codec@,
            content_type: opt(self.content_type),
            channels: self.channels,
            language: opt(self.language),
            title: opt(self.title),
            default: self.default,
        }
    }
}

/// What the tracks say.
pub open spec fn said(tracks: Seq<WebAudioTrack>) -> Seq<Track> {
    tracks.map_values(|track: WebAudioTrack| track.says())
}

/// The track of a record, where it has a number of channels.
pub open spec fn recorded(record: AudioRecord) -> Option<Track> {
    match record.channels {
        Some(channels) => Some(
            Track {
                index: record.audio_index,
                codec: record.codec@,
                content_type: audio_content_type(record.codec@),
                channels,
                language: opt(record.language),
                title: opt(record.title),
                default: record.default,
            },
        ),
        None => None,
    }
}

/// The tracks of the first `n` records.
pub open spec fn recorded_tracks(records: Seq<AudioRecord>, n: int) -> Seq<Track>
    decreases n,
{
    if n <= 0 {
        Seq::empty()
    } else {
        match recorded(records[n - 1]) {
            Some(track) => recorded_tracks(records, n - 1).push(track),
            None => recorded_tracks(records, n - 1),
        }
    }
}

/// The codecs of the first `n` parts of a list, white space and empty parts
/// aside.
pub open spec fn codecs(parts: Seq<Seq<char>>, n: int) -> Seq<Seq<char>>
    decreases n,
{
    if n <= 0 {
        Seq::empty()
    } else {
        let codec = trim(parts[n - 1], CharClass::White);
        if codec.len() == 0 {
            codecs(parts, n - 1)
        } else {
            codecs(parts, n - 1).push(codec)
        }
    }
}

/// The codecs of a list.
pub open spec fn listed_codecs(list: Seq<char>) -> Seq<Seq<char>> {
    let parts = split(list, seq![',']);
    codecs(parts, parts.len() as int)
}

/// The tracks of a list of codecs, of which the first is the default.
pub open spec fn listed_tracks(list: Seq<char>, channels: u32) -> Seq<Track> {
    let all = listed_codecs(list);
    Seq::new(
        all.len(),
        |i: int|
            Track {
                index: i as usize,
                codec: all[i],
                content_type: audio_content_type(all[i]),
                channels,
                language: None,
                title: None,
                default: i == 0,
            },
    )
}

/// The tracks of the records, or where those show none, of the codec list.
pub open spec fn title_tracks(
    records: Option<Seq<AudioRecord>>,
    list: Seq<char>,
    channels: u32,
) -> Seq<Track> {
    let shown = match records {
        Some(records) => recorded_tracks(records, records.len() as int),
        None => Seq::empty(),
    };
    if shown.len() == 0 {
        listed_tracks(list, channels)
    } else {
        shown
    }
}

fn copy_text(text: &Option<String>) -> (copy: Option<String>)
    ensures
        opt(copy) == opt(*text),
{
    match text {
        Some(text) => Some(text.clone()),
        None => None,
    }
}

/// The codecs of a list, in order.
pub fn codec_list(list: &str) -> (result: Vec<String>)
    ensures
        result@.map_values(|codec: String| codec@) == listed_codecs(list@),
{
    let chars = chars_of(list);
    let comma: [char; 1] = [','];
    assert(comma@ =~= seq![',']);
    let parts = split_text(&chars, &comma);
    let ghost all = split(list@, seq![',']);
    let mut result: Vec<String> = Vec::new();
    let mut i: usize = 0;
    while i < parts.len()
        invariant
            i <= parts.len(),
            texts(parts@) == all,
            all.len() == parts@.len(),
            result@.map_values(|codec: String| codec@) =~= codecs(all, i as int),
        decreases parts.len() - i,
    {
        assert(all[i as int] == parts@[i as int]@);
        let codec = trimmed(parts[i], CharClass::White);
        if codec.len() > 0 {
            result.push(string_of(codec));
        }
        i += 1;
    }
    result
}

/// The tracks that a browser can choose.
pub fn stored_audio_tracks(
    records: Option<&[AudioRecord]>,
    fallback_audio_csv: &str,
    fallback_channels: u32,
) -> (tracks: Vec<WebAudioTrack>)
    ensures
        said(tracks@) == title_tracks(
            match records {
                Some(records) => Some(records@),
                None => None,
            },
            fallback_audio_csv@,
            fallback_channels,
        ),
{
    let mut tracks: Vec<WebAudioTrack> = Vec::new();
    match records {
        Some(records) => {
            let mut i: usize = 0;
            while i < records.len()
                invariant
                    i <= records.len(),
                    said(tracks@) =~= recorded_tracks(records@, i as int),
                decreases records.len() - i,
            {
                let record = &records[i];
                match record.channels {
                    Some(channels) => {
                        let ghost before = tracks@;
                        tracks.push(
                            WebAudioTrack {
                                index: record.audio_index,
                                codec: record.codec.clone(),
                                content_type: browser_audio_content_type(record.codec.as_str()),
                                channels,
                                language: copy_text(&record.language),
                                title: copy_text(&record.title),
                                default: record.default,
                            },
                        );
                        assert(said(tracks@) =~= said(before).push(tracks@.last().says()));
                    },
                    None => {},
                }
                i += 1;
            }
        },
        None => {
            assert(said(tracks@) =~= Seq::<Track>::empty());
        },
    }
    assert(said(tracks@).len() == tracks@.len());
    if tracks.len() > 0 {
        return tracks;
    }
    let listed = codec_list(fallback_audio_csv);
    let ghost all = listed_codecs(fallback_audio_csv@);
    assert(all.len() == listed@.len());
    let mut i: usize = 0;
    while i < listed.len()
        invariant
            i <= listed.len(),
            listed@.map_values(|codec: String| codec@) == all,
            all == listed_codecs(fallback_audio_csv@),
            all.len() == listed@.len(),
            tracks@.len() == i,
            forall|j: int|
                0 <= j < i ==> (#[trigger] said(tracks@)[j]) == listed_tracks(
                    fallback_audio_csv@,
                    fallback_channels,
                )[j],
        decreases listed.len() - i,
    {
        let ghost before = tracks@;
        assert(all[i as int] == listed@[i as int]@);
        tracks.push(
            WebAudioTrack {
                index: i,
                codec: listed[i].clone(),
                content_type: browser_audio_content_type(listed[i].as_str()),
                channels: fallback_channels,
                language: None,
                title: None,
                default: i == 0,
            },
        );
        proof {
            assert forall|j: int| 0 <= j < i + 1 implies (#[trigger] said(tracks@)[j])
                == listed_tracks(fallback_audio_csv@, fallback_channels)[j] by {
                if j < i {
                    assert(said(tracks@)[j] == said(before)[j]);
                }
            }
        }
        i += 1;
    }
    assert(said(tracks@) =~= listed_tracks(fallback_audio_csv@, fallback_channels));
    tracks
}

// ------------------------------------------------------------------ choice

/// Whether a language tag says English.
pub open spec fn is_english(language: Option<Seq<char>>) -> bool {
    match language {
        Some(language) => {
            let tag = trim(language, CharClass::White);
            let primary = tag.take(first_in(tag, CharClass::Dash) as int);
            tag.len() > 0 && (same_ignoring_case(tag, "english"@) || same_ignoring_case(
                primary,
                "en"@,
            ) || same_ignoring_case(primary, "eng"@))
        },
        None => false,
    }
}

/// Whether a track is English, where that is asked for, and the default, where
/// that is.
pub open spec fn wanted(track: Track, english: bool, default: bool) -> bool {
    (english ==> is_english(track.language)) && (default ==> track.default)
}

/// The first index from `from` on of a wanted track.
pub open spec fn first_wanted(tracks: Seq<Track>, english: bool, default: bool, from: int) -> Option<
    int,
>
    decreases tracks.len() - from,
{
    if from < 0 || from >= tracks.len() {
        None
    } else if wanted(tracks[from], english, default) {
        Some(from)
    } else {
        first_wanted(tracks, english, default, from + 1)
    }
}

/// The audio index that is played unless another is asked for: the English
/// default, an English track, the default, or the one picked from the codecs.
pub open spec fn preferred_index(tracks: Seq<Track>, picked: usize) -> usize {
    match first_wanted(tracks, true, true, 0) {
        Some(i) => tracks[i].index,
        None => match first_wanted(tracks, true, false, 0) {
            Some(i) => tracks[i].index,
            None => match first_wanted(tracks, false, true, 0) {
                Some(i) => tracks[i].index,
                None => picked,
            },
        },
    }
}

/// The audio index that plays when the original file is played.
pub open spec fn original_index(tracks: Seq<Track>) -> usize {
    match first_wanted(tracks, false, true, 0) {
        Some(i) => tracks[i].index,
        None => if tracks.len() > 0 {
            tracks[0].index
        } else {
            0
        },
    }
}

/// Whether a language tag says English.
pub fn is_english_audio_language(language: Option<&str>) -> (result: bool)
    ensures
        result == is_english(optional_text(language)),
{
    let language = match language {
        Some(language) => language,
        None => {
            return false;
        },
    };
    let chars = chars_of(language);
    let tag = trimmed(&chars, CharClass::White);
    if tag.len() == 0 {
        return false;
    }
    let n: usize = index_in(tag, CharClass::Dash);
    let primary = slice_subrange(tag, 0, n);
    assert(primary@ =~= tag@.take(n as int));
    equals_ignoring_case(tag, "english") || equals_ignoring_case(primary, "en")
        || equals_ignoring_case(primary, "eng")
}

fn find_wanted(tracks: &[WebAudioTrack], english: bool, default: bool) -> (result: Option<usize>)
    ensures
        match result {
            Some(i) => first_wanted(said(tracks@), english, default, 0) == Some(i as int) && i
                < tracks.len(),
            None => first_wanted(said(tracks@), english, default, 0) is None,
        },
{
    let ghost all = said(tracks@);
    let mut i: usize = 0;
    while i < tracks.len()
        invariant
            i <= tracks.len(),
            all == said(tracks@),
            all.len() == tracks@.len(),
            first_wanted(all, english, default, 0) == first_wanted(
                all,
                english,
                default,
                i as int,
            ),
        decreases tracks.len() - i,
    {
        assert(all[i as int] == tracks@[i as int].says());
        let track = &tracks[i];
        let speaks = match &track.language {
            Some(language) => is_english_audio_language(Some(language.as_str())),
            None => false,
        };
        if (!english || speaks) && (!default || track.default) {
            return Some(i);
        }
        i += 1;
    }
    None
}

/// The audio index that is played unless another is asked for.
pub fn default_audio_index(tracks: &[WebAudioTrack], picked: usize) -> (index: usize)
    ensures
        index == preferred_index(said(tracks@), picked),
{
    assert(forall|i: int| 0 <= i < tracks@.len() ==> said(tracks@)[i].index == (#[trigger] tracks@[i]).index);
    match find_wanted(tracks, true, true) {
        Some(i) => tracks[i].index,
        None => match find_wanted(tracks, true, false) {
            Some(i) => tracks[i].index,
            None => match find_wanted(tracks, false, true) {
                Some(i) => tracks[i].index,
                None => picked,
            },
        },
    }
}

/// The audio index that plays when the original file is played.
pub fn original_audio_index(tracks: &[WebAudioTrack]) -> (index: usize)
    ensures
        index == original_index(said(tracks@)),
{
    assert(forall|i: int| 0 <= i < tracks@.len() ==> said(tracks@)[i].index == (#[trigger] tracks@[i]).index);
    match find_wanted(tracks, false, true) {
        Some(i) => tracks[i].index,
        None => if tracks.len() > 0 {
            tracks[0].index
        } else {
            0
        },
    }
}

// ------------------------------------------------------------ codec strings

/// The first index from `from` on of a track with that audio index.
pub open spec fn track_at(tracks: Seq<Track>, index: usize, from: int) -> Option<int>
    decreases tracks.len() - from,
{
    if from < 0 || from >= tracks.len() {
        None
    } else if tracks[from].index == index {
        Some(from)
    } else {
        track_at(tracks, index, from + 1)
    }
}

/// The place of a track with that audio index.
pub fn find_track(tracks: &[WebAudioTrack], index: usize) -> (result: Option<usize>)
    ensures
        match result {
            Some(i) => track_at(said(tracks@), index, 0) == Some(i as int) && i < tracks.len(),
            None => track_at(said(tracks@), index, 0) is None,
        },
{
    let ghost all = said(tracks@);
    let mut i: usize = 0;
    while i < tracks.len()
        invariant
            i <= tracks.len(),
            all == said(tracks@),
            all.len() == tracks@.len(),
            track_at(all, index, 0) == track_at(all, index, i as int),
        decreases tracks.len() - i,
    {
        assert(all[i as int] == tracks@[i as int].says());
        if tracks[i].index == index {
            return Some(i);
        }
        i += 1;
    }
    None
}

/// The codec string of the original file: for video, that of the video stream
/// and of the audio track that plays with it; for audio, the stored one.
pub open spec fn direct_codecs(
    mime: Seq<char>,
    video: Seq<char>,
    codec_string: Seq<char>,
    tracks: Seq<Track>,
    original: usize,
) -> Option<Seq<char>> {
    if !starts_with(mime, "video/"@) {
        if codec_string.len() == 0 {
            None
        } else {
            Some(codec_string)
        }
    } else {
        match stored_video_codec(video, codec_string) {
            Some(video) => match track_at(tracks, original, 0) {
                Some(i) => Some(
                    video + seq![','] + match audio_codec_string(tracks[i].codec) {
                        Some(codec) => codec,
                        None => tracks[i].codec,
                    },
                ),
                None => Some(video),
            },
            None => None,
        }
    }
}

/// The codec string of the original file. A stored audio codec never stands in
/// for a video codec that has none: a browser would then answer for audio while
/// the video goes untested.
pub fn browser_direct_codec_string(
    mime: &str,
    video: &str,
    codec_string: &str,
    tracks: &[WebAudioTrack],
    original_audio_index: usize,
) -> (result: Option<String>)
    ensures
        match result {
            Some(text) => direct_codecs(
                mime@,
                video@,
                codec_string@,
                said(tracks@),
                original_audio_index,
            ) == Some(text@),
            None => direct_codecs(
                mime@,
                video@,
                codec_string@,
                said(tracks@),
                original_audio_index,
            ) is None,
        },
{
    if !begins_with(&chars_of(mime), "video/") {
        return if codec_string.is_empty() {
            None
        } else {
            Some(codec_string.to_owned())
        };
    }
    let video = match browser_stored_video_codec_string(video, codec_string) {
        Some(video) => video,
        None => {
            return None;
        },
    };
    match find_track(tracks, original_audio_index) {
        Some(i) => {
            assert(said(tracks@)[i as int] == tracks@[i as int].says());
            let mut text = chars_of(video.as_str());
            text.push(',');
            let track = &tracks[i];
            match browser_audio_codec_string(track.codec.as_str()) {
                Some(codec) => {
                    append_chars(&mut text, &chars_of(codec));
                },
                None => {
                    append_chars(&mut text, &chars_of(track.codec.as_str()));
                },
            }
            assert(text@ =~= video@ + seq![','] + match audio_codec_string(track.codec@) {
                Some(codec) => codec,
                None => track.codec@,
            });
            Some(string_of(&text))
        },
        None => Some(video),
    }
}

// ----------------------------------------------------------------- metadata

/// What the stored stream description of a title marks as read.
#[derive(Clone, Copy, PartialEq, Eq, Structural)]
pub struct StreamMarkers {
    pub video_capabilities: bool,
    pub timestamps: bool,
}

/// Whether timestamps must have been checked: H.264 and HEVC in MP4 and MOV.
pub open spec fn needs_timestamps(mime: Seq<char>, container: Seq<char>, video: Seq<char>) -> bool {
    &&& starts_with(mime, "video/"@)
    &&& container == "mp4"@ || container == "mov"@
    &&& video == "h264"@ || video == "hevc"@
}

/// Whether everything that a browser needs to know of the streams is stored.
pub fn stream_metadata_complete(
    markers: Option<StreamMarkers>,
    mime: &str,
    container: &str,
    video_codec: &str,
) -> (result: bool)
    ensures
        result == (markers matches Some(markers) && markers.video_capabilities && (needs_timestamps(
            mime@,
            container@,
            video_codec@,
        ) ==> markers.timestamps)),
{
    match markers {
        Some(markers) => {
            let needed = begins_with(&chars_of(mime), "video/") && (same_text(container, "mp4")
                || same_text(container, "mov")) && (same_text(video_codec, "h264") || same_text(
                video_codec,
                "hevc",
            ));
            markers.video_capabilities && (!needed || markers.timestamps)
        },
        None => false,
    }
}

/// A chapter as it was recorded.
pub struct ChapterRecord {
    pub source_index: usize,
    pub title: Option<String>,
    pub start_millis: u64,
    pub end_millis: u64,
}

/// A chapter that a browser shows.
pub struct WebChapter {
    pub index: usize,
    pub title: String,
    pub start_millis: u64,
    pub end_millis: u64,
}

/// The title of a chapter: its own, or its place in the file counted from one.
pub open spec fn chapter_title(record: ChapterRecord) -> Seq<char> {
    match record.title {
        Some(title) => title@,
        None => "Chapter "@ + decimal_text((record.source_index + 1) as nat),
    }
}

/// Whether a chapter shows a record.
pub open spec fn shows(chapter: WebChapter, record: ChapterRecord) -> bool {
    &&& chapter.index == record.source_index
    &&& chapter.title@ == chapter_title(record)
    &&& chapter.start_millis == record.start_millis
    &&& chapter.end_millis == record.end_millis
}

/// Whether a chapter can be titled: it has a title, or a place to count from one.
pub open spec fn has_title(record: ChapterRecord) -> bool {
    record.title is None ==> record.source_index < usize::MAX
}

/// The chapters that a browser shows.
pub fn stored_chapters(records: &[ChapterRecord]) -> (chapters: Vec<WebChapter>)
    requires
        forall|i: int| 0 <= i < records@.len() ==> has_title(#[trigger] records@[i]),
    ensures
        chapters@.len() == records@.len(),
        forall|i: int| 0 <= i < records@.len() ==> shows(#[trigger] chapters@[i], records@[i]),
{
    let mut chapters: Vec<WebChapter> = Vec::new();
    let mut i: usize = 0;
    while i < records.len()
        invariant
            i <= records.len(),
            forall|j: int| 0 <= j < records@.len() ==> has_title(#[trigger] records@[j]),
            chapters@.len() == i,
            forall|j: int| 0 <= j < i ==> shows(#[trigger] chapters@[j], records@[j]),
        decreases records.len() - i,
    {
        let record = &records[i];
        assert(has_title(records@[i as int]));
        let title = match &record.title {
            Some(title) => title.clone(),
            None => {
                let mut text = chars_of("Chapter ");
                append_chars(&mut text, &decimal_chars(record.source_index as u64 + 1));
                string_of(&text)
            },
        };
        chapters.push(
            WebChapter {
                index: record.source_index,
                title,
                start_millis: record.start_millis,
                end_millis: record.end_millis,
            },
        );
        i += 1;
    }
    chapters
}

// -------------------------------------------------------------------- laws

proof fn lemma_first_wanted(tracks: Seq<Track>, english: bool, default: bool, from: int)
    requires
        0 <= from,
    ensures
        match first_wanted(tracks, english, default, from) {
            Some(i) => from <= i < tracks.len() && wanted(tracks[i], english, default),
            None => forall|j: int|
                from <= j < tracks.len() ==> !wanted(#[trigger] tracks[j], english, default),
        },
    decreases tracks.len() - from,
{
    if from < tracks.len() && !wanted(tracks[from], english, default) {
        lemma_first_wanted(tracks, english, default, from + 1);
    }
}

/// Where a title has an English track, an English track is played.
pub proof fn law_english_is_preferred(tracks: Seq<Track>, picked: usize, j: int)
    requires
        0 <= j < tracks.len(),
        is_english(tracks[j].language),
    ensures
        exists|i: int|
            0 <= i < tracks.len() && is_english((#[trigger] tracks[i]).language)
                && preferred_index(tracks, picked) == tracks[i].index,
{
    lemma_first_wanted(tracks, true, true, 0);
    lemma_first_wanted(tracks, true, false, 0);
    assert(wanted(tracks[j], true, false));
    match first_wanted(tracks, true, true, 0) {
        Some(i) => {
            assert(is_english(tracks[i].language));
        },
        None => {
            let i = first_wanted(tracks, true, false, 0)->0;
            assert(is_english(tracks[i].language));
        },
    }
}

/// A title with a default track but no English one plays a default track, in the
/// browser as in the original file.
pub proof fn law_default_without_english(tracks: Seq<Track>, picked: usize, j: int)
    requires
        0 <= j < tracks.len(),
        tracks[j].default,
        forall|i: int| 0 <= i < tracks.len() ==> !is_english((#[trigger] tracks[i]).language),
    ensures
        preferred_index(tracks, picked) == original_index(tracks),
        exists|i: int|
            0 <= i < tracks.len() && (#[trigger] tracks[i]).default && original_index(tracks)
                == tracks[i].index,
{
    lemma_first_wanted(tracks, true, true, 0);
    lemma_first_wanted(tracks, true, false, 0);
    lemma_first_wanted(tracks, false, true, 0);
    assert(wanted(tracks[j], false, true));
    let i = first_wanted(tracks, false, true, 0)->0;
    assert(tracks[i].default);
}

} // verus!
