//! Audio tracks, codecs, and what browsers can play.
use crate::codec::{
    browser_audio_codec_string, browser_audio_content_type, browser_can_remux_audio,
    browser_can_remux_video, browser_stored_video_codec_string, browser_video_content_type,
    likely_browser_native, AudioCodec, Container, HdrKind, ProbeInfo, SourceMedia, VideoCodec,
};
use crate::entry::{fallback_channels, media_dto, MediaFacts, WebMediaItem};
use crate::catalog::MediaItem;
use crate::law::captions::{in_a_row, is_without, lemma_split_row};
use crate::law::clock::lemma_trim_nothing;
use crate::law::search::is_of_audio;
use crate::law::telling::is_of_video;
use crate::text::{
    first_in, is_white_space, lemma_first_in, lowered, CharClass,
};
use crate::track::{
    browser_direct_codec_string, codecs, default_audio_index, first_wanted, is_english,
    is_english_audio_language, listed_codecs, opt, original_audio_index, recorded, recorded_tracks,
    said, stored_audio_tracks, stream_metadata_complete, track_at, wanted, AudioRecord,
    StreamMarkers, Track, WebAudioTrack,
};
use vstd::prelude::*;

verus! {

/// A text that neither begins nor ends with white space.
pub open spec fn is_trim(s: Seq<char>) -> bool {
    s.len() > 0 && !is_white_space(s[0]) && !is_white_space(s.last())
}

// -------------------------------------------------------------------- tracks

proof fn lemma_recorded_prefix(a: Seq<AudioRecord>, b: Seq<AudioRecord>, n: int)
    requires
        0 <= n <= a.len(),
        n <= b.len(),
        forall|i: int| 0 <= i < n ==> a[i] == b[i],
    ensures
        recorded_tracks(a, n) == recorded_tracks(b, n),
    decreases n,
{
    if n > 0 {
        lemma_recorded_prefix(a, b, n - 1);
    }
}

proof fn lemma_all_recorded(records: Seq<AudioRecord>, n: int)
    requires
        0 <= n <= records.len(),
        forall|i: int| 0 <= i < n ==> (#[trigger] records[i]).channels is Some,
    ensures
        recorded_tracks(records, n).len() == n,
        forall|i: int|
            0 <= i < n ==> recorded(records[i]) == Some(#[trigger] recorded_tracks(records, n)[i]),
    decreases n,
{
    if n > 0 {
        lemma_all_recorded(records, n - 1);
        assert(records[n - 1].channels is Some);
    }
}

/// Recorded streams are the tracks that can be chosen, one for one and in order,
/// each with its own number, codec, channels, language and title.
pub proof fn law_recorded_streams_are_tracks(
    records: &[AudioRecord],
    list: &str,
    channels: u32,
    tracks: Vec<WebAudioTrack>,
    i: int,
)
    requires
        call_ensures(stored_audio_tracks, (Some(records), list, channels), tracks),
        forall|i: int| 0 <= i < records@.len() ==> (#[trigger] records@[i]).channels is Some,
        0 <= i < records@.len(),
    ensures
        tracks@.len() == records@.len(),
        tracks@[i].index == records@[i].audio_index,
        tracks@[i].codec@ == records@[i].codec@,
        tracks@[i].channels == records@[i].channels->0,
        opt(tracks@[i].language) == opt(records@[i].language),
        opt(tracks@[i].title) == opt(records@[i].title),
        tracks@[i].default == records@[i].default,
{
    lemma_all_recorded(records@, records@.len() as int);
    let all = said(tracks@);
    assert(all.len() == tracks@.len());
    assert(all[i] == tracks@[i].says());
}

/// A stream whose channels are not known is no track, and takes none from the
/// others.
pub proof fn law_streams_without_channels_are_left_out(
    records: &[AudioRecord],
    more: &[AudioRecord],
    record: AudioRecord,
    list: &str,
    channels: u32,
    tracks: Vec<WebAudioTrack>,
    after: Vec<WebAudioTrack>,
)
    requires
        call_ensures(stored_audio_tracks, (Some(records), list, channels), tracks),
        call_ensures(stored_audio_tracks, (Some(more), list, channels), after),
        more@ == records@.push(record),
        record.channels is None,
    ensures
        said(after@) == said(tracks@),
{
    lemma_recorded_prefix(records@, more@, records@.len() as int);
}

pub(crate) proof fn lemma_codecs(parts: Seq<Seq<char>>, n: int)
    requires
        0 <= n <= parts.len(),
        forall|i: int| 0 <= i < parts.len() ==> is_trim(#[trigger] parts[i]),
    ensures
        codecs(parts, n) == parts.take(n),
    decreases n,
{
    if n > 0 {
        lemma_codecs(parts, n - 1);
        assert(is_trim(parts[n - 1]));
        lemma_trim_nothing(parts[n - 1], CharClass::White);
        assert(parts.take(n) =~= parts.take(n - 1).push(parts[n - 1]));
    } else {
        assert(parts.take(0) =~= Seq::<Seq<char>>::empty());
    }
}

/// Without records the codecs of the file are its tracks, counted from zero, of
/// which the first is the default.
pub proof fn law_listed_codecs_are_tracks(
    names: Seq<Seq<char>>,
    list: &str,
    channels: u32,
    tracks: Vec<WebAudioTrack>,
    i: int,
)
    requires
        call_ensures(stored_audio_tracks, (None::<&[AudioRecord]>, list, channels), tracks),
        list@ == in_a_row(names, ','),
        forall|i: int|
            0 <= i < names.len() ==> is_trim(#[trigger] names[i]) && is_without(names[i], ','),
        0 <= i < names.len() <= usize::MAX,
    ensures
        tracks@.len() == names.len(),
        tracks@[i].index == i,
        tracks@[i].codec@ == names[i],
        tracks@[i].channels == channels,
        tracks@[i].language is None,
        tracks@[i].title is None,
        tracks@[i].default <==> i == 0,
{
    lemma_split_row(names, ',');
    lemma_codecs(names, names.len() as int);
    assert(names.take(names.len() as int) =~= names);
    assert(listed_codecs(list@) == names);
    let all = said(tracks@);
    assert(all.len() == tracks@.len());
    assert(all[i] == tracks@[i].says());
}

/// A language tag says English where it is `english`, or where what stands before
/// its first hyphen or underscore is `en` or `eng`, in whatever case; nowhere else.
pub proof fn law_english_is_told_by_the_tag(language: &str, k: int, result: bool)
    requires
        call_ensures(is_english_audio_language, (Some(language),), result),
        is_trim(language@),
        0 <= k <= language@.len(),
        is_without(language@.take(k), '-') && is_without(language@.take(k), '_'),
        k < language@.len() ==> language@[k] == '-' || language@[k] == '_',
    ensures
        result <==> lowered(language@) == "english"@ || lowered(language@.take(k)) == "en"@
            || lowered(language@.take(k)) == "eng"@,
{
    let tag = language@;
    lemma_trim_nothing(tag, CharClass::White);
    lemma_first_in(tag, CharClass::Dash);
    let n = first_in(tag, CharClass::Dash) as int;
    if n < k {
        assert(tag.take(k)[n] == tag[n]);
    }
    if k < n {
        assert(!CharClass::Dash.has(tag[k]));
    }
    reveal_strlit("english");
    reveal_strlit("en");
    reveal_strlit("eng");
    assert(lowered("english"@) =~= "english"@);
    assert(lowered("en"@) =~= "en"@);
    assert(lowered("eng"@) =~= "eng"@);
}

/// Nothing is no language.
pub proof fn law_no_tag_is_not_english(result: bool)
    requires
        call_ensures(is_english_audio_language, (None::<&str>,), result),
    ensures
        !result,
{
}

proof fn lemma_first_wanted(tracks: Seq<Track>, english: bool, default: bool, from: int)
    requires
        0 <= from,
    ensures
        match first_wanted(tracks, english, default, from) {
            Some(i) => from <= i < tracks.len() && wanted(tracks[i], english, default)
                && forall|j: int|
                from <= j < i ==> !wanted(#[trigger] tracks[j], english, default),
            None => forall|j: int|
                from <= j < tracks.len() ==> !wanted(#[trigger] tracks[j], english, default),
        },
    decreases tracks.len() - from,
{
    if from < tracks.len() && !wanted(tracks[from], english, default) {
        lemma_first_wanted(tracks, english, default, from + 1);
    }
}

/// Whether a track is English.
pub open spec fn speaks_english(track: WebAudioTrack) -> bool {
    is_english(opt(track.language))
}

/// What is played unless another track is asked for: the first English track that
/// is a default; without one, the first English track; without one, the first
/// default; without any, the one that was picked.
pub proof fn law_the_preferred_track_is_played(
    tracks: &[WebAudioTrack],
    picked: usize,
    index: usize,
    i: int,
)
    requires
        call_ensures(default_audio_index, (tracks, picked), index),
    ensures
        ({
            let n = tracks@.len() as int;
            let first_of_both = 0 <= i < n && speaks_english(tracks@[i]) && tracks@[i].default
                && forall|j: int|
                0 <= j < i ==> !(speaks_english(#[trigger] tracks@[j]) && tracks@[j].default);
            let none_of_both = forall|j: int|
                0 <= j < n ==> !(speaks_english(#[trigger] tracks@[j]) && tracks@[j].default);
            let first_english = 0 <= i < n && speaks_english(tracks@[i]) && forall|j: int|
                0 <= j < i ==> !speaks_english(#[trigger] tracks@[j]);
            let none_english = forall|j: int| 0 <= j < n ==> !speaks_english(#[trigger] tracks@[j]);
            let first_default = 0 <= i < n && tracks@[i].default && forall|j: int|
                0 <= j < i ==> !(#[trigger] tracks@[j]).default;
            let none_default = forall|j: int| 0 <= j < n ==> !(#[trigger] tracks@[j]).default;
            &&& first_of_both ==> index == tracks@[i].index
            &&& none_of_both && first_english ==> index == tracks@[i].index
            &&& none_english && first_default ==> index == tracks@[i].index
            &&& none_english && none_default ==> index == picked
        }),
{
    let all = said(tracks@);
    assert(all.len() == tracks@.len());
    assert forall|j: int| 0 <= j < all.len() implies (#[trigger] all[j]).index == tracks@[j].index
        && all[j].default == tracks@[j].default && is_english(all[j].language) == speaks_english(
        tracks@[j],
    ) by {}
    lemma_first_wanted(all, true, true, 0);
    lemma_first_wanted(all, true, false, 0);
    lemma_first_wanted(all, false, true, 0);
    lemma_same_first(all, true, true, i);
    lemma_same_first(all, true, false, i);
    lemma_same_first(all, false, true, i);
    if let Some(k) = first_wanted(all, true, true, 0) {
        assert(speaks_english(tracks@[k]) && tracks@[k].default);
    }
    if let Some(k) = first_wanted(all, true, false, 0) {
        assert(speaks_english(tracks@[k]));
    }
    if let Some(k) = first_wanted(all, false, true, 0) {
        assert(tracks@[k].default);
    }
}

proof fn lemma_same_first(tracks: Seq<Track>, english: bool, default: bool, i: int)
    ensures
        0 <= i < tracks.len() && wanted(tracks[i], english, default) && (forall|j: int|
            0 <= j < i ==> !wanted(#[trigger] tracks[j], english, default)) ==> first_wanted(
            tracks,
            english,
            default,
            0,
        ) == Some(i),
{
    lemma_first_wanted(tracks, english, default, 0);
    if 0 <= i < tracks.len() && wanted(tracks[i], english, default) && (forall|j: int|
        0 <= j < i ==> !wanted(#[trigger] tracks[j], english, default)) {
        let k = first_wanted(tracks, english, default, 0);
        if k->0 < i {
            assert(!wanted(tracks[k->0], english, default));
        }
    }
}

/// What plays with the original file is its first default track, without one its
/// first track, and without any track zero.
pub proof fn law_the_original_plays_its_default(tracks: &[WebAudioTrack], index: usize, i: int)
    requires
        call_ensures(original_audio_index, (tracks,), index),
    ensures
        0 <= i < tracks@.len() && tracks@[i].default && (forall|j: int|
            0 <= j < i ==> !(#[trigger] tracks@[j]).default) ==> index == tracks@[i].index,
        tracks@.len() > 0 && (forall|j: int|
            0 <= j < tracks@.len() ==> !(#[trigger] tracks@[j]).default) ==> index
            == tracks@[0].index,
        tracks@.len() == 0 ==> index == 0,
{
    let all = said(tracks@);
    assert(all.len() == tracks@.len());
    assert forall|j: int| 0 <= j < all.len() implies (#[trigger] all[j]).index == tracks@[j].index
        && all[j].default == tracks@[j].default by {}
    lemma_first_wanted(all, false, true, 0);
    lemma_same_first(all, false, true, i);
    if let Some(k) = first_wanted(all, false, true, 0) {
        assert(tracks@[k].default);
    }
}

/// A browser is told exactly the tracks that a request can choose from, and the
/// one that it gets without asking.
pub proof fn law_told_tracks_can_be_chosen(
    item: &MediaItem,
    facts: &MediaFacts,
    dto: WebMediaItem,
    records: &[AudioRecord],
    list: &str,
    channels: u32,
    tracks: Vec<WebAudioTrack>,
    chosen: &[WebAudioTrack],
    index: usize,
)
    requires
        call_ensures(media_dto, (item, facts), dto),
        facts.records is Some,
        records@ == facts.records->0@,
        list@ == item.probe.audio@,
        item.channels matches Some(n) && 0 <= n <= u32::MAX ==> channels == item.channels->0,
        !(item.channels matches Some(n) && 0 <= n <= u32::MAX) ==> channels == 0,
        call_ensures(stored_audio_tracks, (Some(records), list, channels), tracks),
        chosen@ == tracks@,
        call_ensures(default_audio_index, (chosen, facts.picked_audio), index),
    ensures
        said(dto.audio_tracks@) == said(tracks@),
        dto.default_audio_index == index,
{
}

// -------------------------------------------------------------------- codecs

/// The audio codecs that browsers play in an MP4, in whatever case they are
/// written, and no others.
pub proof fn law_audio_codecs_of_browsers(codec: &str, result: Option<&'static str>)
    requires
        call_ensures(browser_audio_codec_string, (codec,), result),
        is_trim(codec@),
    ensures
        lowered(codec@) == "aac"@ ==> result is Some && result->0@ == "mp4a.40.2"@,
        lowered(codec@) == "ac3"@ ==> result is Some && result->0@ == "ac-3"@,
        lowered(codec@) == "eac3"@ ==> result is Some && result->0@ == "ec-3"@,
        lowered(codec@) == "mp3"@ ==> result is Some && result->0@ == "mp4a.6B"@,
        result is Some ==> lowered(codec@) == "aac"@ || lowered(codec@) == "ac3"@ || lowered(codec@)
            == "eac3"@ || lowered(codec@) == "mp3"@,
{
    lemma_trim_nothing(codec@, CharClass::White);
    reveal_strlit("aac");
    reveal_strlit("ac3");
    reveal_strlit("eac3");
    reveal_strlit("mp3");
    assert("aac"@[1] == 'a' && "ac3"@[1] == 'c' && "mp3"@[1] == 'p');
    assert("eac3"@.len() == 4 && "ac3"@.len() == 3 && "aac"@.len() == 3 && "mp3"@.len() == 3);
}

/// Audio can be copied exactly where browsers have a name for its codec, and its
/// content type then says that name.
pub proof fn law_copied_audio_has_a_name(
    codec: &str,
    name: Option<&'static str>,
    content_type: Option<String>,
    copied: bool,
)
    requires
        call_ensures(browser_audio_codec_string, (codec,), name),
        call_ensures(browser_audio_content_type, (codec,), content_type),
        call_ensures(browser_can_remux_audio, (codec,), copied),
    ensures
        copied <==> name is Some,
        content_type is Some <==> name is Some,
        name is Some ==> content_type->0@ == "audio/mp4; codecs=\""@ + name->0@ + seq!['"'],
{
    reveal_strlit("audio/mp4; codecs=\"");
    reveal_strlit("audio");
    reveal_strlit("/mp4; codecs=\"");
    assert("audio"@ + "/mp4; codecs=\""@ =~= "audio/mp4; codecs=\""@);
}

/// Whether a text begins with another.
pub open spec fn begins(s: Seq<char>, p: Seq<char>) -> bool {
    s.len() >= p.len() && s.take(p.len() as int) == p
}

proof fn lemma_begins(s: Seq<char>, p: Seq<char>)
    ensures
        crate::text::starts_with(s, p) == begins(s, p),
{
    if s.len() >= p.len() {
        assert(s.subrange(0, p.len() as int) =~= s.take(p.len() as int));
    }
}

/// One name, without a comma.
pub open spec fn is_name(s: Seq<char>) -> bool {
    is_trim(s) && is_without(s, ',')
}

proof fn lemma_first_item(s: Seq<char>)
    requires
        is_without(s, ','),
    ensures
        crate::codec::first_item(s) == s,
{
    lemma_first_in(s, CharClass::Comma);
    let n = first_in(s, CharClass::Comma) as int;
    if n < s.len() {
        assert(s[n] == ',');
    }
    assert(s.take(n) =~= s);
}

/// A stored codec string stands for a video codec only where it is of its family.
pub proof fn law_stored_codecs_are_of_their_family(
    video: &str,
    stored: &str,
    result: Option<String>,
)
    requires
        call_ensures(browser_stored_video_codec_string, (video, stored), result),
        is_name(video@),
        is_name(stored@),
    ensures
        ({
            let name = lowered(video@);
            let fits = (name == "h264"@ && begins(stored@, "avc1."@)) || (name == "hevc"@ && (
            begins(stored@, "hvc1."@) || begins(stored@, "hev1."@))) || (name == "mpeg4"@ && begins(
                stored@,
                "mp4v."@,
            )) || (name == "vp9"@ && begins(stored@, "vp09."@)) || (name == "av1"@ && begins(
                stored@,
                "av01."@,
            ));
            &&& result is Some <==> fits
            &&& result is Some ==> result->0@ == stored@
        }),
{
    lemma_first_item(video@);
    lemma_first_item(stored@);
    lemma_trim_nothing(video@, CharClass::White);
    lemma_trim_nothing(stored@, CharClass::White);
    lemma_begins(stored@, "avc1."@);
    lemma_begins(stored@, "hvc1."@);
    lemma_begins(stored@, "hev1."@);
    lemma_begins(stored@, "mp4v."@);
    lemma_begins(stored@, "vp09."@);
    lemma_begins(stored@, "av01."@);
    reveal_strlit("h264");
    reveal_strlit("hevc");
    reveal_strlit("mpeg4");
    reveal_strlit("vp9");
    reveal_strlit("av1");
    assert("h264"@[1] == '2' && "hevc"@[1] == 'e');
    assert("vp9"@[0] == 'v' && "av1"@[0] == 'a');
    assert("h264"@.len() == 4 && "hevc"@.len() == 4 && "mpeg4"@.len() == 5 && "vp9"@.len() == 3
        && "av1"@.len() == 3);
}

proof fn lemma_track_at(tracks: Seq<Track>, index: usize, from: int)
    requires
        0 <= from,
    ensures
        match track_at(tracks, index, from) {
            Some(i) => from <= i < tracks.len() && tracks[i].index == index && forall|j: int|
                from <= j < i ==> (#[trigger] tracks[j]).index != index,
            None => forall|j: int|
                from <= j < tracks.len() ==> (#[trigger] tracks[j]).index != index,
        },
    decreases tracks.len() - from,
{
    if from < tracks.len() && tracks[from].index != index {
        lemma_track_at(tracks, index, from + 1);
    }
}

/// The codecs of an original file are those of its video and of the track that
/// plays with it; a video that has no codec string of its own has none at all. The
/// codec string of audio is the stored one.
pub proof fn law_direct_codecs_name_both_streams(
    mime: &str,
    video: &str,
    stored: &str,
    tracks: &[WebAudioTrack],
    index: usize,
    own: Option<String>,
    i: int,
    codec: &str,
    name: Option<&'static str>,
    result: Option<String>,
)
    requires
        call_ensures(browser_direct_codec_string, (mime, video, stored, tracks, index), result),
        call_ensures(browser_stored_video_codec_string, (video, stored), own),
    ensures
        !is_of_video(mime@) && stored@.len() > 0 ==> result is Some && result->0@ == stored@,
        !is_of_video(mime@) && stored@.len() == 0 ==> result is None,
        is_of_video(mime@) && own is None ==> result is None,
        is_of_video(mime@) && own is Some && (forall|j: int|
            0 <= j < tracks@.len() ==> (#[trigger] tracks@[j]).index != index) ==> result is Some
            && result->0@ == own->0@,
        is_of_video(mime@) && own is Some && 0 <= i < tracks@.len() && tracks@[i].index == index
            && (forall|j: int| 0 <= j < i ==> (#[trigger] tracks@[j]).index != index) && codec@
            == tracks@[i].codec@ && call_ensures(browser_audio_codec_string, (codec,), name)
            ==> result is Some && result->0@ == own->0@ + seq![','] + if name is Some {
            name->0@
        } else {
            codec@
        },
{
    reveal_strlit("video/");
    assert("video/"@ =~= seq!['v', 'i', 'd', 'e', 'o', '/']);
    let all = said(tracks@);
    assert(all.len() == tracks@.len());
    assert forall|j: int| 0 <= j < all.len() implies (#[trigger] all[j]).index == tracks@[j].index
        && all[j].codec == tracks@[j].codec@ by {}
    lemma_track_at(all, index, 0);
    if let Some(k) = track_at(all, index, 0) {
        assert(tracks@[k].index == index);
        if 0 <= i < tracks@.len() && tracks@[i].index == index && (forall|j: int|
            0 <= j < i ==> (#[trigger] tracks@[j]).index != index) {
            assert(all[i].index == index);
        }
    } else {
        if 0 <= i < tracks@.len() {
            assert(all[i].index != index);
        }
    }
}

/// What browsers can be expected to play as it is: MP3 and AAC, AAC in an MP4,
/// H.264 with AAC in an MP4, and WebM; nothing else.
pub proof fn law_native_media(mime: &str, source: &SourceMedia, result: bool)
    requires
        call_ensures(likely_browser_native, (mime, source), result),
    ensures
        is_of_audio(mime@) ==> (result <==> mime@ == "audio/mpeg"@ || mime@ == "audio/aac"@ || (
        mime@ == "audio/mp4"@ && source.audio == AudioCodec::Aac)),
        !is_of_audio(mime@) ==> (result <==> mime@ == "video/webm"@ || (source.container
            == Container::Mp4 && source.video_codec == VideoCodec::H264 && source.audio
            == AudioCodec::Aac)),
{
    reveal_strlit("audio/");
    assert("audio/"@ =~= seq!['a', 'u', 'd', 'i', 'o', '/']);
}

/// A title is told as one to be converted exactly where browsers cannot be
/// expected to play it.
pub proof fn law_conversion_is_foretold(
    item: &MediaItem,
    facts: &MediaFacts,
    dto: WebMediaItem,
    mime: &str,
    source: &SourceMedia,
    native: bool,
)
    requires
        call_ensures(media_dto, (item, facts), dto),
        mime@ == item.mime@,
        *source == facts.source,
        call_ensures(likely_browser_native, (mime, source), native),
    ensures
        dto.transcode_likely <==> !native,
{
}

/// Whether an H.264 profile is one that every browser decodes, or not known.
pub open spec fn is_common_profile(profile: Seq<char>) -> bool {
    ||| profile.len() == 0
    ||| lowered(profile) == "baseline"@
    ||| lowered(profile) == "constrained baseline"@
    ||| lowered(profile) == "main"@
    ||| lowered(profile) == "high"@
}

/// Video can be copied where its timestamps are in order and browsers decode it:
/// H.264 of a common profile, of eight bits, up to level 5.1 and of standard
/// dynamic range; HEVC of a dynamic range that browsers show; nothing else.
pub proof fn law_videos_that_can_be_copied(probe: &ProbeInfo, source: &SourceMedia, result: bool)
    requires
        call_ensures(browser_can_remux_video, (probe, source), result),
        is_name(probe.codec_string@),
        probe.video_profile@.len() > 0 ==> is_trim(probe.video_profile@),
    ensures
        result <==> probe.video_timestamp_mode@ != "broken-reordered"@ && match source.video_codec {
            VideoCodec::H264 => begins(probe.codec_string@, "avc1."@) && is_common_profile(
                probe.video_profile@,
            ) && (probe.pixel_format@ == "yuv420p"@ || probe.pixel_format@ == "yuvj420p"@)
                && probe.bit_depth <= 8 && probe.video_level <= 51 && !source.requires_sdr_tonemap,
            VideoCodec::Hevc => source.hdr == HdrKind::Sdr || source.hdr == HdrKind::Hdr10
                || source.hdr == HdrKind::DolbyVisionProfile8,
            VideoCodec::Other => false,
        },
{
    lemma_first_item(probe.codec_string@);
    lemma_trim_nothing(probe.codec_string@, CharClass::White);
    lemma_trim_nothing(probe.video_profile@, CharClass::White);
    lemma_begins(probe.codec_string@, "avc1."@);
    assert(lowered(probe.video_profile@).len() == probe.video_profile@.len());
}

/// The content type of a video names its stored codec; HEVC is always named the
/// way that browsers take it.
pub proof fn law_video_types_name_the_codec(
    probe: &ProbeInfo,
    source: &SourceMedia,
    result: Option<String>,
)
    requires
        call_ensures(browser_video_content_type, (probe, source), result),
        is_name(probe.codec_string@),
    ensures
        ({
            let stored = probe.codec_string@;
            let shown = if source.video_codec == VideoCodec::Hevc && begins(stored, "hev1."@) {
                "hvc1."@ + stored.skip(5)
            } else {
                stored
            };
            &&& result is Some ==> result->0@ == "video/mp4; codecs=\""@ + shown + seq!['"']
            &&& result is Some && source.video_codec == VideoCodec::H264 ==> begins(
                stored,
                "avc1."@,
            )
            &&& result is Some && source.video_codec == VideoCodec::Hevc ==> begins(
                stored,
                "hvc1."@,
            ) || begins(stored, "hev1."@)
            &&& source.video_codec == VideoCodec::Other ==> result is None
            &&& source.video_codec == VideoCodec::Hevc && source.hdr == HdrKind::Sdr && (begins(
                stored,
                "hvc1."@,
            ) || begins(stored, "hev1."@)) ==> result is Some
        }),
{
    let stored = probe.codec_string@;
    lemma_first_item(stored);
    lemma_trim_nothing(stored, CharClass::White);
    lemma_begins(stored, "avc1."@);
    lemma_begins(stored, "hvc1."@);
    lemma_begins(stored, "hev1."@);
    reveal_strlit("hvc1.");
    reveal_strlit("hev1.");
    if begins(stored, "hvc1."@) && begins(stored, "hev1."@) {
        assert(stored.take(5)[1] == 'v');
        assert(stored.take(5)[1] == 'e');
    }
    reveal_strlit("video/mp4; codecs=\"");
    reveal_strlit("video");
    reveal_strlit("/mp4; codecs=\"");
    assert("video"@ + "/mp4; codecs=\""@ =~= "video/mp4; codecs=\""@);
}

/// What is known of the streams is complete where their capabilities were read,
/// and for H.264 and HEVC in MP4 and MOV their timestamps too.
pub proof fn law_streams_are_known_completely(
    markers: Option<StreamMarkers>,
    mime: &str,
    container: &str,
    video: &str,
    result: bool,
)
    requires
        call_ensures(stream_metadata_complete, (markers, mime, container, video), result),
    ensures
        markers is None ==> !result,
        markers is Some && !markers->0.video_capabilities ==> !result,
        markers is Some && markers->0.video_capabilities && markers->0.timestamps ==> result,
        markers is Some && markers->0.video_capabilities && !markers->0.timestamps ==> (result
            <==> !(is_of_video(mime@) && (container@ == "mp4"@ || container@ == "mov"@) && (video@
            == "h264"@ || video@ == "hevc"@))),
{
    reveal_strlit("video/");
    assert("video/"@ =~= seq!['v', 'i', 'd', 'e', 'o', '/']);
}

/// The codecs that a browser is told of a title are those of its original file, and
/// what is told of its streams is what is known of them.
pub proof fn law_told_codecs_are_those_of_the_original(
    item: &MediaItem,
    facts: &MediaFacts,
    dto: WebMediaItem,
    mime: &str,
    video: &str,
    stored: &str,
    container: &str,
    tracks: &[WebAudioTrack],
    index: usize,
    codecs_told: Option<String>,
    probe: &ProbeInfo,
    source: &SourceMedia,
    content_type: Option<String>,
    complete: bool,
)
    requires
        call_ensures(media_dto, (item, facts), dto),
        mime@ == item.mime@,
        video@ == item.probe.video@,
        stored@ == item.probe.codec_string@,
        container@ == item.probe.container@,
        said(tracks@) == said(dto.audio_tracks@),
        call_ensures(original_audio_index, (tracks,), index),
        call_ensures(
            browser_direct_codec_string,
            (mime, video, stored, tracks, index),
            codecs_told,
        ),
        *probe == item.probe,
        *source == facts.source,
        call_ensures(browser_video_content_type, (probe, source), content_type),
        call_ensures(stream_metadata_complete, (facts.markers, mime, container, video), complete),
    ensures
        opt(dto.codec_string) == opt(codecs_told),
        opt(dto.video_content_type) == opt(content_type),
        dto.stream_metadata_complete == complete,
{
}

/// A title without tracks of its own has as many channels as it says, where it says
/// a number of them.
pub proof fn law_channels_are_those_of_the_title(channels: Option<i64>, count: u32)
    requires
        call_ensures(fallback_channels, (channels,), count),
    ensures
        channels matches Some(n) && 0 <= n <= 4_294_967_295 ==> count == channels->0,
        !(channels matches Some(n) && 0 <= n <= 4_294_967_295) ==> count == 0,
{
}

} // verus!
