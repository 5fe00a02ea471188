//! How a title is converted for a browser.
use crate::catalog::{is_video, video, MediaItem};
use crate::codec::{
    audio_content_type, browser_can_remux_audio, browser_can_remux_video, can_copy_video, HdrKind,
    SourceMedia, VideoCodec,
};
use crate::encoding::string_of;
use crate::number::{signed_chars, signed_text};
use crate::playback::{
    AudioChoice, BrowserEncodingPreset, BrowserQuality, BrowserVideoOutput, Delivery,
    PlaybackRequest, VideoMode,
};
use crate::problem::Problem;
use crate::query::{parse_unsigned, same_text, unsigned};
use crate::text::{append_chars, chars_of, find, index_of, lemma_find};
use crate::track::{
    codec_list, find_track, listed_codecs, said, track_at, Track, WebAudioTrack,
};
use vstd::prelude::*;
use vstd::slice::slice_subrange;

verus! {

/// The largest picture of a quality.
#[derive(Clone, Copy, Debug)]
pub struct QualityLimits {
    pub max_width: u32,
    pub max_height: u32,
}

/// A model that enlarges pictures, and what it can take in.
pub struct UpscaleProfile {
    pub name: String,
    pub shader_sha256: String,
    pub max_source_width: u32,
    pub max_source_height: u32,
    pub max_source_pixels_per_second: u64,
}

/// What the server can convert with.
pub struct Converter {
    /// Whether titles are converted at all.
    pub enabled: bool,
    /// The configured encoder.
    pub encoder: String,
    /// The encoder that the configured one stands for.
    pub browser_encoder: String,
    /// The encoder that repairs the title at hand.
    pub repair_encoder: String,
    pub profiles: Vec<UpscaleProfile>,
}

// -------------------------------------------------------------- pixel rates

/// How many pixels a second of video has.
#[derive(Clone, Copy, Debug, PartialEq, Eq, Structural)]
pub enum PixelRate {
    Rate(u64),
    Unknown,
    /// The frame rate is no fraction: it may be a decimal number.
    Decimal,
}

/// The least whole number that is at least `n` divided by `d`.
pub open spec fn ceiling(n: nat, d: nat) -> nat
    recommends
        d > 0,
{
    if n % d == 0 {
        n / d
    } else {
        n / d + 1
    }
}

pub open spec fn at_most_u64(n: int) -> nat {
    if n > u64::MAX {
        u64::MAX as nat
    } else {
        n as nat
    }
}

/// The pixels per second of pictures of that size at a frame rate that is
/// written as a fraction.
pub open spec fn pixel_rate(width: u32, height: u32, frame_rate: Seq<char>) -> PixelRate {
    match find(frame_rate, seq!['/']) {
        Some(k) => match (
            unsigned(frame_rate.take(k), u64::MAX as nat),
            unsigned(frame_rate.skip(k + 1), u64::MAX as nat),
        ) {
            (Some(n), Some(d)) => if n > 0 && d > 0 {
                PixelRate::Rate(ceiling(at_most_u64(width * height * n), d) as u64)
            } else {
                PixelRate::Unknown
            },
            _ => PixelRate::Unknown,
        },
        None => PixelRate::Decimal,
    }
}

proof fn lemma_ceiling(n: nat, d: nat)
    requires
        0 < d,
    ensures
        ceiling(n, d) <= n,
        n / d <= n,
{
    assert(n / d <= n && (n % d != 0 ==> n / d + 1 <= n)) by (nonlinear_arith)
        requires
            0 < d,
    {
        assert(n == d * (n / d) + n % d);
        if n % d != 0 && d == 1 {
            assert(n % 1 == 0);
        }
    }
}

/// The pixels per second of pictures of that size at a frame rate that is
/// written as a fraction.
pub fn source_pixel_rate(width: u32, height: u32, frame_rate: &str) -> (rate: PixelRate)
    ensures
        rate == pixel_rate(width, height, frame_rate@),
{
    assert(width * height <= 0xffff_ffff * 0xffff_ffff) by (nonlinear_arith)
        requires
            width <= 0xffff_ffff,
            height <= 0xffff_ffff,
    ;
    let pixels: u64 = width as u64 * height as u64;
    let chars = chars_of(frame_rate);
    let slash: [char; 1] = ['/'];
    assert(slash@ =~= seq!['/']);
    let k: usize = match index_of(&chars, &slash) {
        Some(k) => k,
        None => {
            return PixelRate::Decimal;
        },
    };
    proof {
        lemma_find(chars@, seq!['/']);
    }
    let len: usize = chars.len();
    assert(k + 1 <= len);
    let left = slice_subrange(chars.as_slice(), 0, k);
    let right = slice_subrange(chars.as_slice(), k + 1, len);
    proof {
        assert(left@ =~= frame_rate@.take(k as int));
        assert(right@ =~= frame_rate@.skip(k + 1));
    }
    let numerator = parse_unsigned(string_of(left).as_str(), u64::MAX);
    let denominator = parse_unsigned(string_of(right).as_str(), u64::MAX);
    match (numerator, denominator) {
        (Some(n), Some(d)) => if n > 0 && d > 0 {
            let total: u64 = match pixels.checked_mul(n) {
                Some(total) => total,
                None => u64::MAX,
            };
            proof {
                assert(pixels * n == width * height * n);
                lemma_ceiling(total as nat, d as nat);
            }
            let whole: u64 = total / d;
            if total % d == 0 {
                PixelRate::Rate(whole)
            } else {
                PixelRate::Rate(whole + 1)
            }
        } else {
            PixelRate::Unknown
        },
        _ => PixelRate::Unknown,
    }
}

// ---------------------------------------------------------------- upscaling

/// Whether a quality asks for a larger picture than the source has.
pub open spec fn wants_upscale(
    quality: BrowserQuality,
    limits: QualityLimits,
    source: SourceMedia,
) -> bool {
    &&& quality != BrowserQuality::Auto
    &&& limits.max_width > source.width
    &&& limits.max_height > source.height
}

/// Whether a quality asks for a larger picture than the source has.
pub fn quality_requests_upscale(
    quality: BrowserQuality,
    limits: QualityLimits,
    source: &SourceMedia,
) -> (result: bool)
    ensures
        result == wants_upscale(quality, limits, *source),
{
    quality != BrowserQuality::Auto && limits.max_width > source.width && limits.max_height
        > source.height
}

/// Whether one side of the picture at most doubles.
pub open spec fn at_most_doubles(limits: QualityLimits, source: SourceMedia) -> bool {
    &&& source.width > 0
    &&& source.height > 0
    &&& limits.max_width <= 2 * source.width || limits.max_height <= 2 * source.height
}

/// Whether one side of the picture at most doubles.
pub fn quality_within_ai_scale_limit(limits: QualityLimits, source: &SourceMedia) -> (result: bool)
    ensures
        result == at_most_doubles(limits, *source),
{
    source.width > 0 && source.height > 0 && (limits.max_width as u64 <= 2 * (
    source.width as u64) || limits.max_height as u64 <= 2 * (source.height as u64))
}

/// Whether a model can take in pictures of that source at that rate.
pub open spec fn can_enlarge(profile: UpscaleProfile, source: SourceMedia, rate: u64) -> bool {
    &&& source.width <= profile.max_source_width
    &&& source.height <= profile.max_source_height
    &&& rate <= profile.max_source_pixels_per_second
}

/// The first model from `from` on that can.
pub open spec fn first_profile(
    profiles: Seq<UpscaleProfile>,
    source: SourceMedia,
    rate: u64,
    from: int,
) -> Option<int>
    decreases profiles.len() - from,
{
    if from < 0 || from >= profiles.len() {
        None
    } else if can_enlarge(profiles[from], source, rate) {
        Some(from)
    } else {
        first_profile(profiles, source, rate, from + 1)
    }
}

/// The model that enlarges a title: the first that can, where the quality asks
/// for a larger picture, the source has standard dynamic range and eight bits,
/// one side at most doubles, and the pixel rate is known.
pub open spec fn upscale_profile(
    request: PlaybackRequest,
    item: MediaItem,
    source: SourceMedia,
    limits: QualityLimits,
    rate: Option<u64>,
    profiles: Seq<UpscaleProfile>,
) -> Option<int> {
    if is_video(item.mime@) && wants_upscale(request.quality, limits, source) && source.hdr
        == HdrKind::Sdr && item.probe.bit_depth == 8 && at_most_doubles(limits, source)
        && rate is Some {
        first_profile(profiles, source, rate->0, 0)
    } else {
        None
    }
}

fn find_profile(profiles: &[UpscaleProfile], source: &SourceMedia, rate: u64) -> (result: Option<
    usize,
>)
    ensures
        match result {
            Some(i) => i < profiles@.len() && first_profile(profiles@, *source, rate, 0) == Some(
                i as int,
            ),
            None => first_profile(profiles@, *source, rate, 0) is None,
        },
{
    let mut i: usize = 0;
    while i < profiles.len()
        invariant
            i <= profiles.len(),
            first_profile(profiles@, *source, rate, 0) == first_profile(
                profiles@,
                *source,
                rate,
                i as int,
            ),
        decreases profiles.len() - i,
    {
        let profile = &profiles[i];
        if source.width <= profile.max_source_width && source.height <= profile.max_source_height
            && rate <= profile.max_source_pixels_per_second {
            return Some(i);
        }
        i += 1;
    }
    None
}

// ------------------------------------------------------------------ choices

/// Whether the audio track that is asked for can be had. A title without known
/// tracks has track zero.
pub open spec fn has_audio(choice: AudioChoice, tracks: Seq<Track>) -> bool {
    match choice {
        AudioChoice::Default => true,
        AudioChoice::Track(index) => track_at(tracks, index, 0) is Some || (index == 0
            && tracks.len() == 0),
        AudioChoice::Invalid => false,
    }
}

/// The audio track that is played.
pub open spec fn chosen_audio(choice: AudioChoice, default: usize) -> usize {
    match choice {
        AudioChoice::Track(index) => index,
        _ => default,
    }
}

/// The codec of a track: that of the track itself, else the one listed at its
/// place, else none.
pub open spec fn selected_codec(tracks: Seq<Track>, list: Seq<char>, index: usize) -> Seq<char> {
    match track_at(tracks, index, 0) {
        Some(i) => tracks[i].codec,
        None => if index < listed_codecs(list).len() {
            listed_codecs(list)[index as int]
        } else {
            Seq::empty()
        },
    }
}

/// Whether high dynamic range can be kept.
pub open spec fn can_keep_hdr(item: MediaItem, source: SourceMedia, encoder: Seq<char>) -> bool {
    &&& is_video(item.mime@)
    &&& encoder == "h264_nvenc"@
    &&& source.video_codec == VideoCodec::Hevc
    &&& item.probe.bit_depth > 8
    &&& (source.hdr == HdrKind::Hdr10 || source.hdr == HdrKind::DolbyVisionProfile7 || source.hdr
        == HdrKind::DolbyVisionProfile8)
}

/// Why a title cannot be converted as a request asks, if it cannot.
pub open spec fn conversion_problem(
    request: PlaybackRequest,
    item: MediaItem,
    source: SourceMedia,
    tracks: Seq<Track>,
    default_audio: usize,
    duration: Option<usize>,
    converter: Converter,
) -> Option<Problem> {
    let video = is_video(item.mime@);
    let auto = request.quality == BrowserQuality::Auto;
    let index = chosen_audio(request.audio, default_audio);
    if !converter.enabled {
        Some(Problem::TranscodeDisabled)
    } else if !has_audio(request.audio, tracks) {
        Some(Problem::InvalidAudio)
    } else if duration matches Some(seconds) && seconds > 0 && request.start_seconds >= seconds {
        Some(Problem::StartPastEnd)
    } else if request.video_output == BrowserVideoOutput::HevcHdr10 && !can_keep_hdr(
        item,
        source,
        converter.encoder@,
    ) {
        Some(Problem::HdrUnavailable)
    } else if request.video_mode == VideoMode::Copy && !(video && auto && can_copy_video(
        item.probe,
        source,
    )) {
        Some(Problem::VideoCopyUnavailable)
    } else if request.video_mode == VideoMode::Repair && !(video && auto && (source.video_codec
        == VideoCodec::H264 || source.video_codec == VideoCodec::Hevc)) {
        Some(Problem::VideoRepairUnavailable)
    } else if request.copy_audio && audio_content_type(
        selected_codec(tracks, item.probe.audio@, index),
    ) is None {
        Some(Problem::AudioCopyUnavailable)
    } else {
        None
    }
}

/// The video encoder: none where nothing is encoded, one that keeps high dynamic
/// range where that is asked for, one that repairs, or the usual one.
pub open spec fn chosen_encoder(
    request: PlaybackRequest,
    item: MediaItem,
    converter: Converter,
) -> Seq<char> {
    if !is_video(item.mime@) || request.video_mode == VideoMode::Copy {
        "copy"@
    } else if request.video_output == BrowserVideoOutput::HevcHdr10 {
        "hevc_nvenc"@
    } else if request.video_mode == VideoMode::Repair {
        converter.repair_encoder@
    } else {
        converter.browser_encoder@
    }
}

/// Whether high dynamic range is kept.
pub open spec fn keeps_hdr(request: PlaybackRequest, converter: Converter) -> bool {
    ||| request.video_mode == VideoMode::Repair && converter.repair_encoder@ == "hevc_nvenc"@
    ||| request.video_output == BrowserVideoOutput::HevcHdr10
}

/// What is chosen for a conversion before a decoder is.
pub struct ConversionChoice {
    pub is_video: bool,
    pub copy_video: bool,
    pub audio_index: usize,
    pub audio_codec: String,
    pub upscale: Option<usize>,
    pub keep_hdr10: bool,
    pub video_encoder: String,
}

/// Whether a choice is the one that a request makes.
pub open spec fn is_choice(
    choice: ConversionChoice,
    request: PlaybackRequest,
    item: MediaItem,
    source: SourceMedia,
    tracks: Seq<Track>,
    default_audio: usize,
    limits: QualityLimits,
    rate: Option<u64>,
    converter: Converter,
) -> bool {
    &&& choice.is_video == is_video(item.mime@)
    &&& choice.copy_video == (request.video_mode == VideoMode::Copy)
    &&& choice.audio_index == chosen_audio(request.audio, default_audio)
    &&& choice.audio_codec@ == selected_codec(tracks, item.probe.audio@, choice.audio_index)
    &&& match choice.upscale {
        Some(i) => upscale_profile(request, item, source, limits, rate, converter.profiles@)
            == Some(i as int),
        None => upscale_profile(request, item, source, limits, rate, converter.profiles@) is None,
    }
    &&& choice.keep_hdr10 == keeps_hdr(request, converter)
    &&& choice.video_encoder@ == chosen_encoder(request, item, converter)
}

fn codec_of_track(tracks: &[WebAudioTrack], list: &str, index: usize) -> (codec: String)
    ensures
        codec@ == selected_codec(said(tracks@), list@, index),
{
    match find_track(tracks, index) {
        Some(i) => {
            assert(said(tracks@)[i as int] == tracks@[i as int].says());
            tracks[i].codec.as_str().to_owned()
        },
        None => {
            let listed = codec_list(list);
            if index < listed.len() {
                listed[index].as_str().to_owned()
            } else {
                proof {
                    reveal_strlit("");
                    assert(""@ =~= Seq::<char>::empty());
                }
                "".to_owned()
            }
        },
    }
}

fn hdr_kept(item: &MediaItem, source: &SourceMedia, encoder: &str) -> (result: bool)
    ensures
        result == can_keep_hdr(*item, *source, encoder@),
{
    video(item.mime.as_str()) && same_text(encoder, "h264_nvenc") && source.video_codec
        == VideoCodec::Hevc && item.probe.bit_depth > 8 && (source.hdr == HdrKind::Hdr10
        || source.hdr == HdrKind::DolbyVisionProfile7 || source.hdr
        == HdrKind::DolbyVisionProfile8)
}

/// Chooses how to convert a title. `default_audio` is the track that is played
/// unless another is asked for, `duration` the title's length in seconds,
/// `limits` those of the quality, and `rate` the source's pixels per second,
/// where they are known.
pub fn choose_conversion(
    request: &PlaybackRequest,
    item: &MediaItem,
    source: &SourceMedia,
    tracks: &[WebAudioTrack],
    default_audio: usize,
    duration: Option<usize>,
    limits: QualityLimits,
    rate: Option<u64>,
    converter: &Converter,
) -> (result: Result<ConversionChoice, Problem>)
    ensures
        match result {
            Ok(choice) => conversion_problem(
                *request,
                *item,
                *source,
                said(tracks@),
                default_audio,
                duration,
                *converter,
            ) is None && is_choice(
                choice,
                *request,
                *item,
                *source,
                said(tracks@),
                default_audio,
                limits,
                rate,
                *converter,
            ),
            Err(problem) => conversion_problem(
                *request,
                *item,
                *source,
                said(tracks@),
                default_audio,
                duration,
                *converter,
            ) == Some(problem),
        },
{
    if !converter.enabled {
        return Err(Problem::TranscodeDisabled);
    }
    let audio_index: usize = match request.audio {
        AudioChoice::Default => default_audio,
        AudioChoice::Track(index) => {
            if find_track(tracks, index).is_none() && !(index == 0 && tracks.len() == 0) {
                return Err(Problem::InvalidAudio);
            }
            index
        },
        AudioChoice::Invalid => {
            return Err(Problem::InvalidAudio);
        },
    };
    if let Some(seconds) = duration {
        if seconds > 0 && request.start_seconds >= seconds {
            return Err(Problem::StartPastEnd);
        }
    }
    let is_video = video(item.mime.as_str());
    let auto = request.quality == BrowserQuality::Auto;
    let hdr_output = request.video_output == BrowserVideoOutput::HevcHdr10;
    if hdr_output && !hdr_kept(item, source, converter.encoder.as_str()) {
        return Err(Problem::HdrUnavailable);
    }
    let copy_video = request.video_mode == VideoMode::Copy;
    if copy_video && !(is_video && auto && browser_can_remux_video(&item.probe, source)) {
        return Err(Problem::VideoCopyUnavailable);
    }
    let repair_video = request.video_mode == VideoMode::Repair;
    if repair_video && !(is_video && auto && (source.video_codec == VideoCodec::H264
        || source.video_codec == VideoCodec::Hevc)) {
        return Err(Problem::VideoRepairUnavailable);
    }
    let audio_codec = codec_of_track(tracks, item.probe.audio.as_str(), audio_index);
    if request.copy_audio && !browser_can_remux_audio(audio_codec.as_str()) {
        return Err(Problem::AudioCopyUnavailable);
    }
    let upscale = match rate {
        Some(rate) => if is_video && quality_requests_upscale(request.quality, limits, source)
            && source.hdr == HdrKind::Sdr && item.probe.bit_depth == 8
            && quality_within_ai_scale_limit(limits, source) {
            find_profile(&converter.profiles, source, rate)
        } else {
            None
        },
        None => None,
    };
    let keep_hdr10 = (repair_video && same_text(converter.repair_encoder.as_str(), "hevc_nvenc"))
        || hdr_output;
    let video_encoder = if !is_video || copy_video {
        "copy".to_owned()
    } else if hdr_output {
        "hevc_nvenc".to_owned()
    } else if repair_video {
        converter.repair_encoder.as_str().to_owned()
    } else {
        converter.browser_encoder.as_str().to_owned()
    };
    Ok(
        ConversionChoice {
            is_video,
            copy_video,
            audio_index,
            audio_codec,
            upscale,
            keep_hdr10,
            video_encoder,
        },
    )
}


// -------------------------------------------------------------------- plans

/// A model that enlarges the picture.
pub struct BrowserAiUpscale {
    pub model: String,
    pub shader_sha256: String,
}

/// How a title is converted.
pub struct TranscodePlan {
    pub keep_hdr10: bool,
    pub drop_dolby_vision: bool,
    pub video_encoder: String,
    /// The hardware decoder, where one is used.
    pub hardware_decode: Option<String>,
    /// Whether audio is copied; otherwise it becomes AAC.
    pub copy_audio: bool,
    pub audio_index: usize,
    pub quality: BrowserQuality,
    pub ai_upscale: Option<BrowserAiUpscale>,
}

/// Whether a plan enlarges with that model.
pub open spec fn enlarges_with(upscale: Option<BrowserAiUpscale>, profile: UpscaleProfile) -> bool {
    upscale matches Some(model) && model.model@ == profile.name@ && model.shader_sha256@
        == profile.shader_sha256@
}

/// What the encoder is told besides the plan.
#[derive(Debug, PartialEq, Eq)]
pub struct BrowserOutputOptions {
    pub encoding_preset: BrowserEncodingPreset,
    pub source_video: Option<VideoCodec>,
    /// The name of the codec of the audio that was selected.
    pub selected_audio: String,
    pub source_hdr: HdrKind,
    pub start_seconds: usize,
    pub hls: bool,
}

/// What tells the output of one conversion from that of another.
pub struct JobSettings {
    pub mime: &'static str,
    pub audio_index: usize,
    pub copy_audio: bool,
    /// Whether the output can be kept for later requests.
    pub cacheable: bool,
    pub all_fragments_independent: bool,
}

/// Makes a plan of what was chosen.
pub fn transcode_plan(
    request: &PlaybackRequest,
    choice: &ConversionChoice,
    profiles: &[UpscaleProfile],
    hardware_decode: Option<String>,
) -> (plan: TranscodePlan)
    requires
        choice.upscale matches Some(i) ==> i < profiles@.len(),
    ensures
        plan.keep_hdr10 == choice.keep_hdr10,
        plan.drop_dolby_vision,
        plan.video_encoder@ == choice.video_encoder@,
        plan.hardware_decode == hardware_decode,
        plan.copy_audio == request.copy_audio,
        plan.audio_index == choice.audio_index,
        plan.quality == request.quality,
        match choice.upscale {
            Some(i) => enlarges_with(plan.ai_upscale, profiles@[i as int]),
            None => plan.ai_upscale is None,
        },
{
    let ai_upscale = match choice.upscale {
        Some(i) => Some(
            BrowserAiUpscale {
                model: profiles[i].name.as_str().to_owned(),
                shader_sha256: profiles[i].shader_sha256.as_str().to_owned(),
            },
        ),
        None => None,
    };
    TranscodePlan {
        keep_hdr10: choice.keep_hdr10,
        drop_dolby_vision: true,
        video_encoder: choice.video_encoder.as_str().to_owned(),
        hardware_decode,
        copy_audio: request.copy_audio,
        audio_index: choice.audio_index,
        quality: request.quality,
        ai_upscale,
    }
}

/// What the encoder is told besides the plan.
pub fn output_options(
    request: &PlaybackRequest,
    choice: &ConversionChoice,
    source: &SourceMedia,
) -> (options: BrowserOutputOptions)
    ensures
        options.encoding_preset == request.encoding_preset,
        options.source_video == if choice.is_video {
            Some(source.video_codec)
        } else {
            None
        },
        options.selected_audio@ == choice.audio_codec@,
        options.source_hdr == source.hdr,
        options.start_seconds == request.start_seconds,
        options.hls == (request.delivery != Delivery::Mp4),
{
    BrowserOutputOptions {
        encoding_preset: request.encoding_preset,
        source_video: if choice.is_video {
            Some(source.video_codec)
        } else {
            None
        },
        selected_audio: choice.audio_codec.as_str().to_owned(),
        source_hdr: source.hdr,
        start_seconds: request.start_seconds,
        hls: request.delivery != Delivery::Mp4,
    }
}

/// The media type of a conversion.
pub open spec fn output_mime(is_video: bool) -> Seq<char> {
    if is_video {
        "video/mp4"@
    } else {
        "audio/mp4"@
    }
}

/// What tells the output of this conversion from that of another. Only a stream
/// from the start can be kept, and fragments stand for themselves where the
/// video is encoded anew.
pub fn job_settings(request: &PlaybackRequest, choice: &ConversionChoice) -> (settings: JobSettings)
    ensures
        settings.mime@ == output_mime(choice.is_video),
        settings.audio_index == choice.audio_index,
        settings.copy_audio == request.copy_audio,
        settings.cacheable == (request.start_seconds == 0),
        settings.all_fragments_independent == (request.delivery != Delivery::Mp4
            && choice.video_encoder@ != "copy"@),
{
    JobSettings {
        mime: if choice.is_video {
            "video/mp4"
        } else {
            "audio/mp4"
        },
        audio_index: choice.audio_index,
        copy_audio: request.copy_audio,
        cacheable: request.start_seconds == 0,
        all_fragments_independent: request.delivery != Delivery::Mp4 && !same_text(
            choice.video_encoder.as_str(),
            "copy",
        ),
    }
}

/// The name of a conversion among those under way: its title, the key of its
/// output, and the arguments of the encoder.
pub open spec fn key_of_job(item: i64, cache_key: Seq<char>, arguments: Seq<char>) -> Seq<char> {
    "web:"@ + signed_text(item as int) + ":"@ + cache_key + ":"@ + arguments
}

/// The name of a conversion among those under way; `arguments` are those of the
/// encoder, written out.
pub fn job_key(item: i64, cache_key: &str, arguments: &str) -> (key: String)
    ensures
        key@ == key_of_job(item, cache_key@, arguments@),
{
    let mut key = chars_of("web:");
    append_chars(&mut key, &signed_chars(item));
    append_chars(&mut key, &chars_of(":"));
    append_chars(&mut key, &chars_of(cache_key));
    append_chars(&mut key, &chars_of(":"));
    append_chars(&mut key, &chars_of(arguments));
    string_of(&key)
}

/// A conversion that is under way for the same session and request.
pub struct ActiveJob {
    pub mime: String,
    /// Whether the encoder was given the arguments that it would be given now.
    pub same_arguments: bool,
    pub audio_index: usize,
    pub copy_audio: bool,
    pub cacheable: bool,
    pub all_fragments_independent: bool,
}

/// Whether a conversion under way gives what is asked for.
pub open spec fn gives_the_same(active: ActiveJob, settings: JobSettings) -> bool {
    &&& active.mime@ == settings.mime@
    &&& active.same_arguments
    &&& active.audio_index == settings.audio_index
    &&& active.copy_audio == settings.copy_audio
    &&& active.cacheable == settings.cacheable
    &&& active.all_fragments_independent == settings.all_fragments_independent
}

/// Joins a conversion under way, or refuses the request where it gives something
/// else: what one request converts to never changes.
pub fn join_active_job(active: &ActiveJob, settings: &JobSettings) -> (result: Result<(), Problem>)
    ensures
        match result {
            Ok(_) => gives_the_same(*active, *settings),
            Err(problem) => problem == Problem::SettingsDiffer && !gives_the_same(
                *active,
                *settings,
            ),
        },
{
    if same_text(active.mime.as_str(), settings.mime) && active.same_arguments
        && active.audio_index == settings.audio_index && active.copy_audio == settings.copy_audio
        && active.cacheable == settings.cacheable && active.all_fragments_independent
        == settings.all_fragments_independent {
        Ok(())
    } else {
        Err(Problem::SettingsDiffer)
    }
}

/// Whether there is anything simpler to fall back to.
pub open spec fn has_fallback(plan: TranscodePlan, is_video: bool) -> bool {
    (is_video && plan.video_encoder@ != "libx264"@) || plan.copy_audio
}

/// Whether a plan is the one to fall back to from another.
pub open spec fn is_fallback(fallback: TranscodePlan, plan: TranscodePlan, is_video: bool) -> bool {
    &&& fallback.keep_hdr10 == plan.keep_hdr10
    &&& fallback.drop_dolby_vision == plan.drop_dolby_vision
    &&& fallback.video_encoder@ == if is_video {
        "libx264"@
    } else {
        plan.video_encoder@
    }
    &&& fallback.hardware_decode is None
    &&& !fallback.copy_audio
    &&& fallback.audio_index == plan.audio_index
    &&& fallback.quality == plan.quality
    &&& same_upscale(fallback.ai_upscale, plan.ai_upscale)
}

/// The plan to fall back to: software decoding and encoding, and AAC.
pub fn fallback_plan(plan: &TranscodePlan, is_video: bool) -> (result: Option<TranscodePlan>)
    ensures
        match result {
            Some(fallback) => has_fallback(*plan, is_video) && is_fallback(fallback, *plan, is_video),
            None => !has_fallback(*plan, is_video),
        },
{
    if !((is_video && !same_text(plan.video_encoder.as_str(), "libx264")) || plan.copy_audio) {
        return None;
    }
    let ai_upscale = match &plan.ai_upscale {
        Some(upscale) => Some(
            BrowserAiUpscale {
                model: upscale.model.as_str().to_owned(),
                shader_sha256: upscale.shader_sha256.as_str().to_owned(),
            },
        ),
        None => None,
    };
    Some(
        TranscodePlan {
            keep_hdr10: plan.keep_hdr10,
            drop_dolby_vision: plan.drop_dolby_vision,
            video_encoder: if is_video {
                "libx264".to_owned()
            } else {
                plan.video_encoder.as_str().to_owned()
            },
            hardware_decode: None,
            copy_audio: false,
            audio_index: plan.audio_index,
            quality: plan.quality,
            ai_upscale,
        },
    )
}

/// Whether two plans enlarge in the same way.
pub open spec fn same_upscale(a: Option<BrowserAiUpscale>, b: Option<BrowserAiUpscale>) -> bool {
    match (a, b) {
        (Some(a), Some(b)) => a.model@ == b.model@ && a.shader_sha256@ == b.shader_sha256@,
        (None, None) => true,
        _ => false,
    }
}

/// Why the file of a title could not be opened.
#[derive(Clone, Copy, Debug, PartialEq, Eq, Structural)]
pub enum OpenFailure {
    PermissionDenied,
    Other,
}

/// The answer to a request whose file could not be opened.
pub fn open_problem(failure: OpenFailure) -> (problem: Problem)
    ensures
        problem == match failure {
            OpenFailure::PermissionDenied => Problem::FileForbidden,
            OpenFailure::Other => Problem::MediaFileMissing,
        },
{
    match failure {
        OpenFailure::PermissionDenied => Problem::FileForbidden,
        OpenFailure::Other => Problem::MediaFileMissing,
    }
}

/// Why the tools that convert could not be asked about.
#[derive(Clone, Copy, Debug, PartialEq, Eq, Structural)]
pub enum ToolFailure {
    Busy,
    Cancelled,
    Deadline,
    Query,
}

/// The code of that failure in an answer.
pub fn tool_failure_code(failure: ToolFailure) -> (code: &'static str)
    ensures
        code@ == match failure {
            ToolFailure::Busy => "transcode_busy"@,
            ToolFailure::Cancelled => "transcode_cancelled"@,
            ToolFailure::Deadline => "transcode_failed"@,
            ToolFailure::Query => "transcode_failed"@,
        },
{
    match failure {
        ToolFailure::Busy => "transcode_busy",
        ToolFailure::Cancelled => "transcode_cancelled",
        ToolFailure::Deadline => "transcode_failed",
        ToolFailure::Query => "transcode_failed",
    }
}

// -------------------------------------------------------------------- laws

/// A title is enlarged only by a model that can take it in.
pub proof fn law_model_takes_in_the_source(
    request: PlaybackRequest,
    item: MediaItem,
    source: SourceMedia,
    limits: QualityLimits,
    rate: Option<u64>,
    profiles: Seq<UpscaleProfile>,
)
    ensures
        upscale_profile(request, item, source, limits, rate, profiles) matches Some(i) ==> 0 <= i
            < profiles.len() && rate is Some && can_enlarge(profiles[i], source, rate->0),
{
    if rate is Some {
        lemma_first_profile(profiles, source, rate->0, 0);
    }
}

proof fn lemma_first_profile(
    profiles: Seq<UpscaleProfile>,
    source: SourceMedia,
    rate: u64,
    from: int,
)
    ensures
        first_profile(profiles, source, rate, from) matches Some(i) ==> from <= i < profiles.len()
            && can_enlarge(profiles[i], source, rate),
    decreases profiles.len() - from,
{
    if 0 <= from < profiles.len() {
        lemma_first_profile(profiles, source, rate, from + 1);
    }
}

/// Video that is copied or repaired is never enlarged, and what is copied goes
/// through no encoder.
pub proof fn law_copied_video_is_left_alone(
    choice: ConversionChoice,
    request: PlaybackRequest,
    item: MediaItem,
    source: SourceMedia,
    tracks: Seq<Track>,
    default_audio: usize,
    duration: Option<usize>,
    limits: QualityLimits,
    rate: Option<u64>,
    converter: Converter,
)
    requires
        conversion_problem(request, item, source, tracks, default_audio, duration, converter) is None,
        is_choice(
            choice,
            request,
            item,
            source,
            tracks,
            default_audio,
            limits,
            rate,
            converter,
        ),
        request.video_mode != VideoMode::Transcode,
    ensures
        choice.upscale is None,
        request.video_mode == VideoMode::Copy ==> choice.video_encoder@ == "copy"@,
{
}

/// High dynamic range is put out only for sources that have it, by a server that
/// can encode it, and with an encoder that keeps it.
pub proof fn law_hdr_output_is_capability_gated(
    request: PlaybackRequest,
    item: MediaItem,
    source: SourceMedia,
    tracks: Seq<Track>,
    default_audio: usize,
    duration: Option<usize>,
    converter: Converter,
)
    requires
        conversion_problem(request, item, source, tracks, default_audio, duration, converter) is None,
        request.video_output == BrowserVideoOutput::HevcHdr10,
        request.video_mode == VideoMode::Transcode,
    ensures
        can_keep_hdr(item, source, converter.encoder@),
        keeps_hdr(request, converter),
        chosen_encoder(request, item, converter) == "hevc_nvenc"@,
{
}

/// What falls back has nothing left to fall back to.
pub proof fn law_fallback_is_final(fallback: TranscodePlan, plan: TranscodePlan, is_video: bool)
    requires
        is_fallback(fallback, plan, is_video),
    ensures
        !has_fallback(fallback, is_video),
{
}

} // verus!
