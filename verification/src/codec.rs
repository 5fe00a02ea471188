//! What browsers are told of codecs, and which streams they take as they are.
use crate::encoding::string_of;
use crate::text::{
    append_chars, begins_with, chars_of, first_in, index_in, is_text, lowered, lowered_chars,
    starts_with, trim, trimmed, CharClass,
};
use vstd::prelude::*;
use vstd::slice::slice_subrange;

verus! {

/// A video codec, as far as browsers tell them apart.
#[derive(Clone, Copy, Debug, PartialEq, Eq, Structural)]
pub enum VideoCodec {
    H264,
    Hevc,
    Other,
}

/// An audio codec, as far as browsers tell them apart.
#[derive(Clone, Copy, Debug, PartialEq, Eq, Structural)]
pub enum AudioCodec {
    Aac,
    Other,
}

/// A container, as far as browsers tell them apart.
#[derive(Clone, Copy, Debug, PartialEq, Eq, Structural)]
pub enum Container {
    Mp4,
    Other,
}

/// A dynamic range.
#[derive(Clone, Copy, Debug, PartialEq, Eq, Structural)]
pub enum HdrKind {
    Sdr,
    Hdr10,
    DolbyVisionProfile7,
    DolbyVisionProfile8,
    Other,
}

/// What is known of a source's streams.
#[derive(Clone, Copy, Debug, PartialEq, Eq, Structural)]
pub struct SourceMedia {
    pub container: Container,
    pub video_codec: VideoCodec,
    pub hdr: HdrKind,
    pub audio: AudioCodec,
    pub width: u32,
    pub height: u32,
    /// Whether its dynamic range must be mapped to the standard one for browsers.
    pub requires_sdr_tonemap: bool,
}

/// What was read from a media file's streams.
pub struct ProbeInfo {
    pub container: String,
    pub video: String,
    pub hdr: String,
    pub audio: String,
    pub width: u32,
    pub height: u32,
    pub codec_string: String,
    pub video_profile: String,
    pub video_level: u32,
    pub pixel_format: String,
    pub bit_depth: u32,
    pub frame_rate: String,
    pub video_timestamp_mode: String,
    pub audio_layout: String,
}

/// What stands before the first comma.
pub open spec fn first_item(s: Seq<char>) -> Seq<char> {
    s.take(first_in(s, CharClass::Comma) as int)
}

/// The codec string of an audio codec that browsers play in an MP4.
pub open spec fn audio_codec_string(codec: Seq<char>) -> Option<Seq<char>> {
    let name = lowered(trim(codec, CharClass::White));
    if name == "aac"@ {
        Some("mp4a.40.2"@)
    } else if name == "ac3"@ {
        Some("ac-3"@)
    } else if name == "eac3"@ {
        Some("ec-3"@)
    } else if name == "mp3"@ {
        Some("mp4a.6B"@)
    } else {
        None
    }
}

/// A content type that names a codec.
pub open spec fn content_type(kind: Seq<char>, codec: Seq<char>) -> Seq<char> {
    kind + "/mp4; codecs=\""@ + codec + seq!['"']
}

/// The content type of an audio codec that browsers play in an MP4.
pub open spec fn audio_content_type(codec: Seq<char>) -> Option<Seq<char>> {
    match audio_codec_string(codec) {
        Some(codec) => Some(content_type("audio"@, codec)),
        None => None,
    }
}

/// The stored codec string of a video stream, where it is one for its codec.
pub open spec fn stored_video_codec(video: Seq<char>, codec_string: Seq<char>) -> Option<
    Seq<char>,
> {
    let name = lowered(trim(first_item(video), CharClass::White));
    let stored = trim(first_item(codec_string), CharClass::White);
    let fits = if name == "h264"@ {
        starts_with(stored, "avc1."@)
    } else if name == "hevc"@ {
        starts_with(stored, "hvc1."@) || starts_with(stored, "hev1."@)
    } else if name == "mpeg4"@ {
        starts_with(stored, "mp4v."@)
    } else if name == "vp9"@ {
        starts_with(stored, "vp09."@)
    } else if name == "av1"@ {
        starts_with(stored, "av01."@)
    } else {
        false
    };
    if fits {
        Some(stored)
    } else {
        None
    }
}

/// An H.264 profile that every browser decodes, or none that is known.
pub open spec fn is_safe_profile(profile: Seq<char>) -> bool {
    let name = lowered(trim(profile, CharClass::White));
    name.len() == 0 || name == "baseline"@ || name == "constrained baseline"@ || name == "main"@
        || name == "high"@
}

/// Whether browsers can be expected to decode the video stream as it is.
pub open spec fn is_video_compatible(probe: ProbeInfo, source: SourceMedia) -> bool {
    match source.video_codec {
        VideoCodec::H264 => {
            &&& starts_with(trim(first_item(probe.codec_string@), CharClass::White), "avc1."@)
            &&& is_safe_profile(probe.video_profile@)
            &&& probe.pixel_format@ == "yuv420p"@ || probe.pixel_format@ == "yuvj420p"@
            &&& probe.bit_depth <= 8
            &&& probe.video_level <= 51
            &&& !source.requires_sdr_tonemap
        },
        VideoCodec::Hevc => {
            source.hdr == HdrKind::Sdr || source.hdr == HdrKind::Hdr10 || source.hdr
                == HdrKind::DolbyVisionProfile8
        },
        VideoCodec::Other => false,
    }
}

/// Whether the timestamps of the video stream are out of order.
pub open spec fn is_broken(probe: ProbeInfo) -> bool {
    probe.video_timestamp_mode@ == "broken-reordered"@
}

/// Whether the video stream can be copied into an MP4 for browsers.
pub open spec fn can_copy_video(probe: ProbeInfo, source: SourceMedia) -> bool {
    !is_broken(probe) && is_video_compatible(probe, source)
}

/// The content type of a compatible video stream in an MP4.
pub open spec fn video_content_type(probe: ProbeInfo, source: SourceMedia) -> Option<Seq<char>> {
    let stored = trim(first_item(probe.codec_string@), CharClass::White);
    if !is_video_compatible(probe, source) {
        None
    } else if source.video_codec == VideoCodec::H264 && starts_with(stored, "avc1."@) {
        Some(content_type("video"@, stored))
    } else if source.video_codec == VideoCodec::Hevc && starts_with(stored, "hvc1."@) {
        Some(content_type("video"@, stored))
    } else if source.video_codec == VideoCodec::Hevc && starts_with(stored, "hev1."@) {
        Some(content_type("video"@, "hvc1."@ + stored.skip(5)))
    } else {
        None
    }
}

/// Whether browsers can be expected to play the file as it is.
pub open spec fn is_likely_native(mime: Seq<char>, source: SourceMedia) -> bool {
    if starts_with(mime, "audio/"@) {
        ||| mime == "audio/mpeg"@
        ||| mime == "audio/aac"@
        ||| mime == "audio/mp4"@ && source.audio == AudioCodec::Aac
    } else {
        ||| source.container == Container::Mp4 && source.video_codec == VideoCodec::H264
            && source.audio == AudioCodec::Aac
        ||| mime == "video/webm"@
    }
}

fn first_item_of<'a>(text: &'a [char]) -> (result: &'a [char])
    ensures
        result@ == first_item(text@),
{
    let n: usize = index_in(text, CharClass::Comma);
    let result = slice_subrange(text, 0, n);
    assert(result@ =~= first_item(text@));
    result
}

/// The codec string of an audio codec that browsers play in an MP4.
pub fn browser_audio_codec_string(codec: &str) -> (result: Option<&'static str>)
    ensures
        match result {
            Some(name) => audio_codec_string(codec@) == Some(name@),
            None => audio_codec_string(codec@) is None,
        },
{
    let chars = chars_of(codec);
    let name = lowered_chars(trimmed(&chars, CharClass::White));
    if is_text(&name, "aac") {
        Some("mp4a.40.2")
    } else if is_text(&name, "ac3") {
        Some("ac-3")
    } else if is_text(&name, "eac3") {
        Some("ec-3")
    } else if is_text(&name, "mp3") {
        Some("mp4a.6B")
    } else {
        None
    }
}

fn content_type_chars(kind: &str, codec: &[char]) -> (result: String)
    ensures
        result@ == content_type(kind@, codec@),
{
    let mut result = chars_of(kind);
    append_chars(&mut result, &chars_of("/mp4; codecs=\""));
    append_chars(&mut result, codec);
    result.push('"');
    assert(result@ =~= content_type(kind@, codec@));
    string_of(&result)
}

/// The content type of an audio codec that browsers play in an MP4.
pub fn browser_audio_content_type(codec: &str) -> (result: Option<String>)
    ensures
        match result {
            Some(name) => audio_content_type(codec@) == Some(name@),
            None => audio_content_type(codec@) is None,
        },
{
    match browser_audio_codec_string(codec) {
        Some(name) => Some(content_type_chars("audio", &chars_of(name))),
        None => None,
    }
}

/// Whether an audio stream can be copied into an MP4 for browsers.
pub fn browser_can_remux_audio(codec: &str) -> (result: bool)
    ensures
        result == audio_content_type(codec@) is Some,
{
    browser_audio_codec_string(codec).is_some()
}

/// The stored codec string of a video stream, where it is one for its codec.
pub fn browser_stored_video_codec_string(video: &str, codec_string: &str) -> (result: Option<
    String,
>)
    ensures
        match result {
            Some(name) => stored_video_codec(video@, codec_string@) == Some(name@),
            None => stored_video_codec(video@, codec_string@) is None,
        },
{
    let video_chars = chars_of(video);
    let codec_chars = chars_of(codec_string);
    let name = lowered_chars(trimmed(first_item_of(&video_chars), CharClass::White));
    let stored = trimmed(first_item_of(&codec_chars), CharClass::White);
    let fits = if is_text(&name, "h264") {
        begins_with(stored, "avc1.")
    } else if is_text(&name, "hevc") {
        begins_with(stored, "hvc1.") || begins_with(stored, "hev1.")
    } else if is_text(&name, "mpeg4") {
        begins_with(stored, "mp4v.")
    } else if is_text(&name, "vp9") {
        begins_with(stored, "vp09.")
    } else if is_text(&name, "av1") {
        begins_with(stored, "av01.")
    } else {
        false
    };
    if fits {
        Some(string_of(stored))
    } else {
        None
    }
}

fn text_is(text: &String, literal: &str) -> (same: bool)
    ensures
        same == (text@ == literal@),
{
    is_text(&chars_of(text.as_str()), literal)
}

fn safe_profile(profile: &String) -> (result: bool)
    ensures
        result == is_safe_profile(profile@),
{
    let chars = chars_of(profile.as_str());
    let name = lowered_chars(trimmed(&chars, CharClass::White));
    name.len() == 0 || is_text(&name, "baseline") || is_text(&name, "constrained baseline")
        || is_text(&name, "main") || is_text(&name, "high")
}

/// Whether browsers can be expected to decode the video stream as it is.
pub fn browser_video_codec_compatible(probe: &ProbeInfo, source: &SourceMedia) -> (result: bool)
    ensures
        result == is_video_compatible(*probe, *source),
{
    match source.video_codec {
        VideoCodec::H264 => {
            let chars = chars_of(probe.codec_string.as_str());
            let codec = trimmed(first_item_of(&chars), CharClass::White);
            begins_with(codec, "avc1.") && safe_profile(&probe.video_profile) && (text_is(
                &probe.pixel_format,
                "yuv420p",
            ) || text_is(&probe.pixel_format, "yuvj420p")) && probe.bit_depth <= 8
                && probe.video_level <= 51 && !source.requires_sdr_tonemap
        },
        VideoCodec::Hevc => source.hdr == HdrKind::Sdr || source.hdr == HdrKind::Hdr10 || source.hdr
            == HdrKind::DolbyVisionProfile8,
        VideoCodec::Other => false,
    }
}

/// Whether the timestamps of the video stream are out of order.
pub fn needs_repair(probe: &ProbeInfo) -> (result: bool)
    ensures
        result == is_broken(*probe),
{
    text_is(&probe.video_timestamp_mode, "broken-reordered")
}

/// Whether the video stream can be copied into an MP4 for browsers.
pub fn browser_can_remux_video(probe: &ProbeInfo, source: &SourceMedia) -> (result: bool)
    ensures
        result == can_copy_video(*probe, *source),
{
    !needs_repair(probe) && browser_video_codec_compatible(probe, source)
}

/// The content type of a compatible video stream in an MP4.
pub fn browser_video_content_type(probe: &ProbeInfo, source: &SourceMedia) -> (result: Option<
    String,
>)
    ensures
        match result {
            Some(name) => video_content_type(*probe, *source) == Some(name@),
            None => video_content_type(*probe, *source) is None,
        },
{
    if !browser_video_codec_compatible(probe, source) {
        return None;
    }
    let chars = chars_of(probe.codec_string.as_str());
    let stored = trimmed(first_item_of(&chars), CharClass::White);
    match source.video_codec {
        VideoCodec::H264 => if begins_with(stored, "avc1.") {
            Some(content_type_chars("video", stored))
        } else {
            None
        },
        VideoCodec::Hevc => if begins_with(stored, "hvc1.") {
            Some(content_type_chars("video", stored))
        } else if begins_with(stored, "hev1.") {
            proof {
                reveal_strlit("hev1.");
            }
            let mut codec = chars_of("hvc1.");
            let tail = slice_subrange(stored, 5, stored.len());
            assert(tail@ =~= stored@.skip(5));
            append_chars(&mut codec, tail);
            Some(content_type_chars("video", &codec))
        } else {
            None
        },
        VideoCodec::Other => None,
    }
}

/// Whether browsers can be expected to play the file as it is.
pub fn likely_browser_native(mime: &str, source: &SourceMedia) -> (result: bool)
    ensures
        result == is_likely_native(mime@, *source),
{
    let chars = chars_of(mime);
    if begins_with(&chars, "audio/") {
        is_text(&chars, "audio/mpeg") || is_text(&chars, "audio/aac") || (is_text(
            &chars,
            "audio/mp4",
        ) && source.audio == AudioCodec::Aac)
    } else {
        (source.container == Container::Mp4 && source.video_codec == VideoCodec::H264
            && source.audio == AudioCodec::Aac) || is_text(&chars, "video/webm")
    }
}

} // verus!
