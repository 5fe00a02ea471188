//! How a title is converted for a browser.
use crate::catalog::MediaItem;
use crate::codec::{
    browser_can_remux_audio, browser_can_remux_video, HdrKind, ProbeInfo, SourceMedia, VideoCodec,
};
use crate::conversion::{
    choose_conversion, first_profile, job_settings, output_options, source_pixel_rate,
    transcode_plan, BrowserOutputOptions, ConversionChoice, Converter, JobSettings, PixelRate,
    QualityLimits, TranscodePlan, UpscaleProfile,
};
use crate::law::captions::{in_a_row, is_without, lemma_split_row};
use crate::law::telling::is_of_video;
use crate::law::tracks::{is_trim, lemma_codecs};
use crate::number::{all_digits, decimal_value};
use crate::playback::{
    AudioChoice, BrowserQuality, BrowserVideoOutput, Delivery, PlaybackRequest, VideoMode,
};
use crate::problem::Problem;
use crate::text::lemma_find_char;
use crate::track::{listed_codecs, said, track_at, Track, WebAudioTrack};
use vstd::prelude::*;

verus! {

/// Everything that a conversion is chosen by.
pub struct Asked<'a> {
    pub request: &'a PlaybackRequest,
    pub item: &'a MediaItem,
    pub source: &'a SourceMedia,
    pub tracks: &'a [WebAudioTrack],
    pub default_audio: usize,
    pub duration: Option<usize>,
    pub limits: QualityLimits,
    pub rate: Option<u64>,
    pub converter: &'a Converter,
}

impl<'a> Asked<'a> {
    /// Whether that is what was answered.
    pub open spec fn gives(self, result: Result<ConversionChoice, Problem>) -> bool {
        call_ensures(
            choose_conversion,
            (
                self.request,
                self.item,
                self.source,
                self.tracks,
                self.default_audio,
                self.duration,
                self.limits,
                self.rate,
                self.converter,
            ),
            result,
        )
    }
}

proof fn lemma_track_at(tracks: Seq<Track>, index: usize, from: int)
    requires
        0 <= from,
    ensures
        match track_at(tracks, index, from) {
            Some(i) => from <= i < tracks.len() && tracks[i].index == index && forall|j: int|
                from <= j < i ==> (#[trigger] tracks[j]).index != index,
            None => forall|j: int|
                from <= j < tracks.len() ==> (#[trigger] tracks[j]).index != index,
        },
    decreases tracks.len() - from,
{
    if from < tracks.len() && tracks[from].index != index {
        lemma_track_at(tracks, index, from + 1);
    }
}

proof fn lemma_said(tracks: Seq<WebAudioTrack>)
    ensures
        said(tracks).len() == tracks.len(),
        forall|i: int|
            0 <= i < tracks.len() ==> #[trigger] said(tracks)[i] == tracks[i].says()
                && said(tracks)[i].index == tracks[i].index && said(tracks)[i].codec
                == tracks[i].codec@,
{
}

/// A track that is asked for is the one that is played; only a request that names
/// none gets the default.
pub proof fn law_the_track_asked_for_is_played(asked: Asked, choice: ConversionChoice)
    requires
        asked.gives(Ok(choice)),
    ensures
        asked.request.audio matches AudioChoice::Track(n) ==> choice.audio_index == n,
        asked.request.audio == AudioChoice::Default ==> choice.audio_index == asked.default_audio,
        asked.request.audio != AudioChoice::Invalid,
{
}

/// The codec that a conversion goes by is that of the track that is played: the
/// first known track with its number.
pub proof fn law_the_codec_is_that_of_the_track(asked: Asked, choice: ConversionChoice, i: int)
    requires
        asked.gives(Ok(choice)),
        0 <= i < asked.tracks@.len(),
        asked.tracks@[i].index == choice.audio_index,
        forall|j: int| 0 <= j < i ==> (#[trigger] asked.tracks@[j]).index != choice.audio_index,
    ensures
        choice.audio_codec@ == asked.tracks@[i].codec@,
{
    let all = said(asked.tracks@);
    lemma_said(asked.tracks@);
    lemma_track_at(all, choice.audio_index, 0);
    let k = track_at(all, choice.audio_index, 0);
    assert(all[i].index == choice.audio_index);
    if k->0 < i {
        assert(all[k->0].index == asked.tracks@[k->0].index);
    }
}

/// A track that a title with known tracks does not have is refused, and so is a
/// track that is no number; every track that it has can be asked for.
pub proof fn law_tracks_can_be_asked_for(
    asked: Asked,
    result: Result<ConversionChoice, Problem>,
)
    requires
        asked.gives(result),
        asked.converter.enabled,
    ensures
        result == Err::<ConversionChoice, Problem>(Problem::InvalidAudio) <==> match asked.request.audio {
            AudioChoice::Default => false,
            AudioChoice::Invalid => true,
            AudioChoice::Track(n) => (forall|i: int|
                0 <= i < asked.tracks@.len() ==> (#[trigger] asked.tracks@[i]).index != n) && !(n
                == 0 && asked.tracks@.len() == 0),
        },
{
    let all = said(asked.tracks@);
    lemma_said(asked.tracks@);
    if let AudioChoice::Track(n) = asked.request.audio {
        lemma_track_at(all, n, 0);
        if let Some(i) = track_at(all, n, 0) {
            assert(asked.tracks@[i].index == n);
        } else {
            assert forall|i: int| 0 <= i < asked.tracks@.len() implies (
            #[trigger] asked.tracks@[i]).index != n by {
                assert(all[i].index != n);
            }
        }
    }
}

/// A server that does not convert refuses every conversion, and no other gives
/// that as its reason.
pub proof fn law_conversion_can_be_switched_off(
    asked: Asked,
    result: Result<ConversionChoice, Problem>,
)
    requires
        asked.gives(result),
    ensures
        result == Err::<ConversionChoice, Problem>(Problem::TranscodeDisabled)
            <==> !asked.converter.enabled,
{
}

/// Nothing is converted from behind the end of a title whose length is known, and
/// only that is refused for where it begins.
pub proof fn law_conversions_begin_within_the_title(
    asked: Asked,
    result: Result<ConversionChoice, Problem>,
)
    requires
        asked.gives(result),
    ensures
        result is Ok && asked.duration is Some && asked.duration->0 > 0
            ==> asked.request.start_seconds < asked.duration->0,
        result == Err::<ConversionChoice, Problem>(Problem::StartPastEnd) ==> asked.duration
            is Some && 0 < asked.duration->0 <= asked.request.start_seconds,
{
}

/// Video is copied exactly where that is asked for: a video, at its own quality,
/// whose timestamps are in order. What is copied goes through no encoder, and so
/// does what is no video.
pub proof fn law_copies_are_asked_for(asked: Asked, choice: ConversionChoice)
    requires
        asked.gives(Ok(choice)),
    ensures
        choice.is_video <==> is_of_video(asked.item.mime@),
        choice.copy_video <==> asked.request.video_mode == VideoMode::Copy,
        choice.copy_video ==> choice.is_video && asked.request.quality == BrowserQuality::Auto
            && asked.item.probe.video_timestamp_mode@ != "broken-reordered"@
            && asked.source.video_codec != VideoCodec::Other,
        choice.copy_video || !choice.is_video ==> choice.video_encoder@ == "copy"@,
{
    reveal_strlit("video/");
    assert("video/"@ =~= seq!['v', 'i', 'd', 'e', 'o', '/']);
}

/// A video that is encoded anew is encoded by the one encoder that goes with the
/// request: the one that keeps high dynamic range where that is asked for, else
/// the one that repairs where that is, else the usual one.
pub proof fn law_the_encoder_goes_with_the_request(asked: Asked, choice: ConversionChoice)
    requires
        asked.gives(Ok(choice)),
        is_of_video(asked.item.mime@),
        asked.request.video_mode != VideoMode::Copy,
    ensures
        asked.request.video_output == BrowserVideoOutput::HevcHdr10 ==> choice.video_encoder@
            == "hevc_nvenc"@ && choice.keep_hdr10,
        asked.request.video_output == BrowserVideoOutput::H264Sdr && asked.request.video_mode
            == VideoMode::Repair ==> choice.video_encoder@ == asked.converter.repair_encoder@,
        asked.request.video_output == BrowserVideoOutput::H264Sdr && asked.request.video_mode
            == VideoMode::Transcode ==> choice.video_encoder@ == asked.converter.browser_encoder@
            && !choice.keep_hdr10,
{
    reveal_strlit("video/");
    assert("video/"@ =~= seq!['v', 'i', 'd', 'e', 'o', '/']);
}

/// High dynamic range is kept exactly where that is asked for, or where the video
/// is repaired by an encoder that keeps it.
pub proof fn law_hdr_is_kept_where_asked_for(asked: Asked, choice: ConversionChoice)
    requires
        asked.gives(Ok(choice)),
    ensures
        choice.keep_hdr10 <==> asked.request.video_output == BrowserVideoOutput::HevcHdr10 || (
        asked.request.video_mode == VideoMode::Repair && asked.converter.repair_encoder@
            == "hevc_nvenc"@),
{
}

/// High dynamic range can be asked for exactly of a video of more than eight bits
/// that has it, encoded as HEVC, on a server whose encoder can put it out.
pub proof fn law_hdr_is_offered_by_the_source(
    asked: Asked,
    result: Result<ConversionChoice, Problem>,
)
    requires
        asked.gives(result),
        asked.request.video_output == BrowserVideoOutput::HevcHdr10,
    ensures
        ({
            let possible = is_of_video(asked.item.mime@) && asked.converter.encoder@
                == "h264_nvenc"@ && asked.source.video_codec == VideoCodec::Hevc
                && asked.item.probe.bit_depth > 8 && (asked.source.hdr == HdrKind::Hdr10
                || asked.source.hdr == HdrKind::DolbyVisionProfile7 || asked.source.hdr
                == HdrKind::DolbyVisionProfile8);
            &&& result is Ok ==> possible
            &&& result == Err::<ConversionChoice, Problem>(Problem::HdrUnavailable) ==> !possible
        }),
{
    reveal_strlit("video/");
    assert("video/"@ =~= seq!['v', 'i', 'd', 'e', 'o', '/']);
}

/// Only H.264 and HEVC videos are repaired, at their own quality.
pub proof fn law_only_known_videos_are_repaired(
    asked: Asked,
    result: Result<ConversionChoice, Problem>,
)
    requires
        asked.gives(result),
    ensures
        ({
            let possible = is_of_video(asked.item.mime@) && asked.request.quality
                == BrowserQuality::Auto && (asked.source.video_codec == VideoCodec::H264
                || asked.source.video_codec == VideoCodec::Hevc);
            &&& result is Ok && asked.request.video_mode == VideoMode::Repair ==> possible
            &&& result == Err::<ConversionChoice, Problem>(Problem::VideoRepairUnavailable)
                ==> asked.request.video_mode == VideoMode::Repair && !possible
        }),
{
    reveal_strlit("video/");
    assert("video/"@ =~= seq!['v', 'i', 'd', 'e', 'o', '/']);
}

/// A request that asks for nothing special of a server that converts is met: the
/// default track, from the start, encoded anew.
pub proof fn law_plain_requests_are_met(asked: Asked, result: Result<ConversionChoice, Problem>)
    requires
        asked.gives(result),
        asked.converter.enabled,
        asked.request.audio == AudioChoice::Default,
        asked.request.start_seconds == 0,
        asked.request.video_mode == VideoMode::Transcode,
        asked.request.video_output == BrowserVideoOutput::H264Sdr,
        !asked.request.copy_audio,
    ensures
        result is Ok,
{
}

proof fn lemma_first_profile(
    profiles: Seq<UpscaleProfile>,
    source: SourceMedia,
    rate: u64,
    from: int,
)
    requires
        0 <= from,
    ensures
        match first_profile(profiles, source, rate, from) {
            Some(i) => from <= i < profiles.len() && takes_in(profiles[i], source, rate)
                && forall|j: int| from <= j < i ==> !takes_in(#[trigger] profiles[j], source, rate),
            None => forall|j: int|
                from <= j < profiles.len() ==> !takes_in(#[trigger] profiles[j], source, rate),
        },
    decreases profiles.len() - from,
{
    if from < profiles.len() && !takes_in(profiles[from], source, rate) {
        lemma_first_profile(profiles, source, rate, from + 1);
    }
}

/// Whether pictures of a source are no larger, and no more in a second, than a
/// model can take in.
pub open spec fn takes_in(profile: UpscaleProfile, source: SourceMedia, rate: u64) -> bool {
    &&& source.width <= profile.max_source_width
    &&& source.height <= profile.max_source_height
    &&& rate <= profile.max_source_pixels_per_second
}

/// Whether a title can be enlarged to a quality at all: a video of eight bits and
/// standard dynamic range, smaller on both sides than the quality, of which one
/// side at most doubles, whose rate is known.
pub open spec fn can_grow(asked: Asked) -> bool {
    let (width, height) = (asked.source.width, asked.source.height);
    let (wide, high) = (asked.limits.max_width, asked.limits.max_height);
    &&& is_of_video(asked.item.mime@)
    &&& asked.request.quality != BrowserQuality::Auto
    &&& asked.source.hdr == HdrKind::Sdr
    &&& asked.item.probe.bit_depth == 8
    &&& 0 < width < wide
    &&& 0 < height < high
    &&& wide <= 2 * width || high <= 2 * height
    &&& asked.rate is Some
}

/// A title is enlarged by the first model that can take it in, wherever it can be
/// enlarged and there is one; and only there.
pub proof fn law_the_first_model_enlarges(asked: Asked, choice: ConversionChoice)
    requires
        asked.gives(Ok(choice)),
    ensures
        choice.upscale matches Some(i) ==> {
            &&& can_grow(asked)
            &&& i < asked.converter.profiles@.len()
            &&& takes_in(asked.converter.profiles@[i as int], *asked.source, asked.rate->0)
            &&& forall|j: int|
                0 <= j < i ==> !takes_in(
                    #[trigger] asked.converter.profiles@[j],
                    *asked.source,
                    asked.rate->0,
                )
        },
        choice.upscale is None && can_grow(asked) ==> forall|j: int|
            0 <= j < asked.converter.profiles@.len() ==> !takes_in(
                #[trigger] asked.converter.profiles@[j],
                *asked.source,
                asked.rate->0,
            ),
{
    reveal_strlit("video/");
    assert("video/"@ =~= seq!['v', 'i', 'd', 'e', 'o', '/']);
    if asked.rate is Some {
        lemma_first_profile(asked.converter.profiles@, *asked.source, asked.rate->0, 0);
    }
}

/// A plan does what was chosen and what was asked for: it plays the chosen track,
/// at the quality that was asked for, with the chosen encoder and model.
pub proof fn law_plans_do_what_was_chosen(
    asked: Asked,
    choice: &ConversionChoice,
    profiles: &[UpscaleProfile],
    decoder: Option<String>,
    plan: TranscodePlan,
)
    requires
        asked.gives(Ok(*choice)),
        profiles@ == asked.converter.profiles@,
        call_ensures(transcode_plan, (asked.request, choice, profiles, decoder), plan),
    ensures
        asked.request.audio matches AudioChoice::Track(n) ==> plan.audio_index == n,
        asked.request.audio == AudioChoice::Default ==> plan.audio_index == asked.default_audio,
        plan.copy_audio == asked.request.copy_audio,
        plan.quality == asked.request.quality,
        plan.video_encoder@ == choice.video_encoder@,
        plan.keep_hdr10 == choice.keep_hdr10,
        plan.hardware_decode == decoder,
        plan.ai_upscale is Some <==> choice.upscale is Some,
        plan.ai_upscale matches Some(model) ==> model.model@ == asked.converter.profiles@[
            choice.upscale->0 as int
        ].name@ && model.shader_sha256@ == asked.converter.profiles@[
            choice.upscale->0 as int
        ].shader_sha256@,
{
}

/// The encoder is told where to begin, what the source is, and which audio was
/// chosen, as the request and the choice have it.
pub proof fn law_encoders_are_told_the_request(
    request: &PlaybackRequest,
    choice: &ConversionChoice,
    source: &SourceMedia,
    options: BrowserOutputOptions,
    settings: JobSettings,
)
    requires
        call_ensures(output_options, (request, choice, source), options),
        call_ensures(job_settings, (request, choice), settings),
    ensures
        options.start_seconds == request.start_seconds,
        options.encoding_preset == request.encoding_preset,
        options.selected_audio@ == choice.audio_codec@,
        options.source_hdr == source.hdr,
        choice.is_video ==> options.source_video == Some(source.video_codec),
        !choice.is_video ==> options.source_video is None,
        options.hls <==> request.delivery != Delivery::Mp4,
        settings.audio_index == choice.audio_index,
        settings.copy_audio == request.copy_audio,
        settings.cacheable <==> request.start_seconds == 0,
        choice.is_video ==> settings.mime@ == "video/mp4"@,
        !choice.is_video ==> settings.mime@ == "audio/mp4"@,
        settings.all_fragments_independent <==> options.hls && choice.video_encoder@ != "copy"@,
{
}

/// The rate of pictures at `n/d` frames a second is the least whole number that
/// times `d` reaches the pixels of `n` pictures, as far as that can be counted.
pub proof fn law_pixel_rates_round_up(
    width: u32,
    height: u32,
    frame_rate: &str,
    n: Seq<char>,
    d: Seq<char>,
    rate: PixelRate,
)
    requires
        call_ensures(source_pixel_rate, (width, height, frame_rate), rate),
        frame_rate@ == n + seq!['/'] + d,
        n.len() > 0 && d.len() > 0,
        all_digits(n) && all_digits(d),
        0 < decimal_value(n) <= u64::MAX,
        0 < decimal_value(d) <= u64::MAX,
        width * height * decimal_value(n) <= u64::MAX,
    ensures
        rate is Rate,
        rate->Rate_0 * decimal_value(d) >= width * height * decimal_value(n),
        (rate->Rate_0 - 1) * decimal_value(d) < width * height * decimal_value(n),
{
    assert forall|i: int| 0 <= i < n.len() implies n[i] != '/' by {
        assert(crate::text::is_digit(n[i]));
    }
    lemma_find_char(n, '/', d);
    let whole = n + seq!['/'] + d;
    assert(whole.take(n.len() as int) =~= n);
    assert(whole.skip(n.len() as int + 1) =~= d);
    lemma_unsigned(n, u64::MAX as nat);
    lemma_unsigned(d, u64::MAX as nat);
    let total = width * height * decimal_value(n);
    let by = decimal_value(d) as int;
    assert(0 <= total) by (nonlinear_arith)
        requires
            total == width * height * decimal_value(n),
    ;
    assert(total / by <= total) by (nonlinear_arith)
        requires
            0 <= total,
            0 < by,
    ;
    assert(total == by * (total / by) + total % by && 0 <= total % by < by) by (nonlinear_arith)
        requires
            0 < by,
    ;
    let whole_part = total / by;
    assert(whole_part * by == by * whole_part && (whole_part + 1) * by == by * whole_part + by && (
    whole_part - 1) * by == by * whole_part - by) by (nonlinear_arith);
    if total % by != 0 {
        assert(whole_part + 1 <= total) by (nonlinear_arith)
            requires
                total == by * whole_part + total % by,
                total % by > 0,
                0 < by,
                0 <= whole_part,
                total % by < by,
        ;
    }
}

/// Digits are a number.
proof fn lemma_unsigned(s: Seq<char>, max: nat)
    requires
        s.len() > 0,
        all_digits(s),
        decimal_value(s) <= max,
    ensures
        crate::query::unsigned(s, max) == Some(decimal_value(s)),
{
    assert(crate::text::is_digit(s[0]));
}

/// Where no known track has the number that is played, its codec is the one at
/// that place in the list of the file, and none behind its end.
pub proof fn law_unknown_tracks_go_by_the_list(
    asked: Asked,
    choice: ConversionChoice,
    names: Seq<Seq<char>>,
)
    requires
        asked.gives(Ok(choice)),
        forall|i: int|
            0 <= i < asked.tracks@.len() ==> (#[trigger] asked.tracks@[i]).index
                != choice.audio_index,
        names.len() > 0,
        forall|i: int|
            0 <= i < names.len() ==> is_trim(#[trigger] names[i]) && is_without(names[i], ','),
        asked.item.probe.audio@ == in_a_row(names, ','),
    ensures
        choice.audio_index < names.len() ==> choice.audio_codec@
            == names[choice.audio_index as int],
        choice.audio_index >= names.len() ==> choice.audio_codec@.len() == 0,
{
    let all = said(asked.tracks@);
    lemma_said(asked.tracks@);
    lemma_track_at(all, choice.audio_index, 0);
    if let Some(i) = track_at(all, choice.audio_index, 0) {
        assert(asked.tracks@[i].index == choice.audio_index);
    }
    lemma_split_row(names, ',');
    lemma_codecs(names, names.len() as int);
    assert(names.take(names.len() as int) =~= names);
    assert(listed_codecs(asked.item.probe.audio@) == names);
}

/// Audio is copied only where browsers have a name for the codec of the track that
/// is played, and refused for that only where they have none.
pub proof fn law_audio_copies_are_possible(
    asked: Asked,
    result: Result<ConversionChoice, Problem>,
    i: int,
    codec: &str,
    copied: bool,
)
    requires
        asked.gives(result),
        0 <= i < asked.tracks@.len(),
        forall|j: int|
            0 <= j < i ==> (#[trigger] asked.tracks@[j]).index != asked.tracks@[i].index,
        asked.request.audio == AudioChoice::Track(asked.tracks@[i].index),
        codec@ == asked.tracks@[i].codec@,
        call_ensures(browser_can_remux_audio, (codec,), copied),
    ensures
        result is Ok && asked.request.copy_audio ==> copied,
        result == Err::<ConversionChoice, Problem>(Problem::AudioCopyUnavailable)
            ==> asked.request.copy_audio && !copied,
{
    let all = said(asked.tracks@);
    let index = asked.tracks@[i].index;
    lemma_said(asked.tracks@);
    lemma_track_at(all, index, 0);
    assert(all[i].index == index);
    let k = track_at(all, index, 0)->0;
    if k < i {
        assert(all[k].index == asked.tracks@[k].index);
    }
}

/// Video is copied only where browsers take it as it is, and refused for that only
/// where they do not, where it is no video, or where another quality is asked for.
pub proof fn law_video_copies_are_possible(
    asked: Asked,
    result: Result<ConversionChoice, Problem>,
    probe: &ProbeInfo,
    copied: bool,
)
    requires
        asked.gives(result),
        *probe == asked.item.probe,
        call_ensures(browser_can_remux_video, (probe, asked.source), copied),
    ensures
        result is Ok && asked.request.video_mode == VideoMode::Copy ==> copied,
        result == Err::<ConversionChoice, Problem>(Problem::VideoCopyUnavailable)
            ==> asked.request.video_mode == VideoMode::Copy && !(copied && is_of_video(
            asked.item.mime@,
        ) && asked.request.quality == BrowserQuality::Auto),
{
    reveal_strlit("video/");
    assert("video/"@ =~= seq!['v', 'i', 'd', 'e', 'o', '/']);
}

/// What can be had is not refused: a track that is there, from within the title,
/// encoded anew at any quality.
pub proof fn law_what_can_be_had_is_not_refused(
    asked: Asked,
    result: Result<ConversionChoice, Problem>,
    i: int,
)
    requires
        asked.gives(result),
        asked.converter.enabled,
        0 <= i < asked.tracks@.len(),
        asked.request.audio == AudioChoice::Track(asked.tracks@[i].index),
        asked.duration matches Some(seconds) ==> asked.request.start_seconds < seconds || seconds
            == 0,
        asked.request.video_mode == VideoMode::Transcode,
        asked.request.video_output == BrowserVideoOutput::H264Sdr,
        !asked.request.copy_audio,
    ensures
        result is Ok,
        result->Ok_0.audio_index == asked.tracks@[i].index,
{
    let all = said(asked.tracks@);
    let index = asked.tracks@[i].index;
    lemma_said(asked.tracks@);
    lemma_track_at(all, index, 0);
    assert(all[i].index == index);
}

/// A frame rate that is no fraction is left to be read as a decimal number, and a
/// fraction of nothing is no rate.
pub proof fn law_other_rates_are_unknown(
    width: u32,
    height: u32,
    frame_rate: &str,
    n: Seq<char>,
    d: Seq<char>,
    rate: PixelRate,
)
    requires
        call_ensures(source_pixel_rate, (width, height, frame_rate), rate),
    ensures
        is_without(frame_rate@, '/') ==> rate == PixelRate::Decimal,
        frame_rate@ == n + seq!['/'] + d && n.len() > 0 && all_digits(n) && d.len() > 0
            && all_digits(d) && (decimal_value(n) == 0 || decimal_value(d) == 0) ==> rate
            == PixelRate::Unknown,
{
    if is_without(frame_rate@, '/') {
        crate::text::lemma_split_whole_char(frame_rate@, '/');
    }
    if frame_rate@ == n + seq!['/'] + d && n.len() > 0 && all_digits(n) && d.len() > 0
        && all_digits(d) {
        assert forall|i: int| 0 <= i < n.len() implies n[i] != '/' by {
            assert(crate::text::is_digit(n[i]));
        }
        lemma_find_char(n, '/', d);
        let whole = n + seq!['/'] + d;
        assert(whole.take(n.len() as int) =~= n);
        assert(whole.skip(n.len() as int + 1) =~= d);
        assert(crate::text::is_digit(n[0]) && crate::text::is_digit(d[0]));
    }
}

} // verus!
