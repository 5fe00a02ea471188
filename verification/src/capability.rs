//! What a browser is told that the server can do.
use crate::conversion::UpscaleProfile;
use crate::playback::{BrowserEncodingPreset, BrowserQuality};
use crate::problem::optional_text;
use crate::query::same_text;
use vstd::prelude::*;

verus! {

/// The limits of a quality.
pub struct QualityNumbers {
    pub max_width: u32,
    pub max_height: u32,
    pub max_fps: u32,
    pub h264_profile: String,
    pub h264_level: String,
    pub max_video_kbps: u32,
    pub audio_kbps: u32,
    pub expected_bandwidth_kbps: u32,
    pub automatic_fallback: bool,
}

/// An encoding preset in words.
pub struct PresetWords {
    pub label: String,
    pub description: String,
}

/// What is known of the server.
pub struct CapabilityFacts {
    pub transcoding: bool,
    pub captions: bool,
    /// The configured encoder.
    pub encoder: String,
    /// The limits of each quality, in the order of `qualities`.
    pub qualities: Vec<QualityNumbers>,
    /// Each encoding preset in words, in the order of `presets`.
    pub presets: Vec<PresetWords>,
    pub profiles: Vec<UpscaleProfile>,
}

/// A quality that a browser can choose.
pub struct WebQualityProfile {
    pub id: &'static str,
    pub label: &'static str,
    pub max_width: u32,
    pub max_height: u32,
    pub max_fps: u32,
    pub h264_profile: String,
    pub h264_level: String,
    pub pixel_format: &'static str,
    pub max_video_kbps: u32,
    pub audio_kbps: u32,
    pub audio_layout: &'static str,
    pub expected_bandwidth_kbps: u32,
    pub automatic_fallback: bool,
}

/// An encoding preset that a browser can choose.
pub struct WebEncodingPreset {
    pub id: &'static str,
    pub label: String,
    pub description: String,
}

/// A format that video is converted to.
pub struct WebVideoOutput {
    pub id: &'static str,
    pub label: &'static str,
    pub codec: &'static str,
    pub video_content_type: &'static str,
    pub mse_content_type: &'static str,
    pub dynamic_range: &'static str,
    pub bit_depth: u8,
    pub hdr_metadata_type: Option<&'static str>,
    pub color_gamut: Option<&'static str>,
    pub transfer_function: Option<&'static str>,
}

/// What a model that enlarges pictures can take in.
pub struct WebAiUpscaleEnvelope {
    pub name: String,
    pub max_source_width: u32,
    pub max_source_height: u32,
    pub max_source_pixels_per_second: u64,
}

/// How pictures are enlarged.
pub struct WebAiUpscaleCapability {
    pub label: &'static str,
    pub max_scale: u8,
    pub sdr_only: bool,
    pub bit_depth: u8,
    pub profiles: Vec<WebAiUpscaleEnvelope>,
}

/// What the server can do.
pub struct WebCapabilities {
    pub transcoding: bool,
    pub captions: bool,
    pub resume: &'static str,
    pub queue: bool,
    pub media_session: bool,
    pub quality_profiles: Vec<WebQualityProfile>,
    pub encoding_presets: Vec<WebEncodingPreset>,
    pub video_outputs: Vec<WebVideoOutput>,
    pub ai_upscale: Option<WebAiUpscaleCapability>,
}

// ---------------------------------------------------------------- qualities

/// The qualities, best first.
pub open spec fn qualities() -> Seq<BrowserQuality> {
    seq![
        BrowserQuality::Auto,
        BrowserQuality::UhdHigh,
        BrowserQuality::UhdOptimized,
        BrowserQuality::FullHd,
        BrowserQuality::DataSaver,
        BrowserQuality::Sd480,
        BrowserQuality::Low360,
    ]
}

/// A quality in words.
pub open spec fn quality_label(quality: BrowserQuality) -> Seq<char> {
    match quality {
        BrowserQuality::Auto => "Auto · up to 4K"@,
        BrowserQuality::UhdHigh => "4K High · 25 Mbps"@,
        BrowserQuality::UhdOptimized => "4K Optimized · 16 Mbps"@,
        BrowserQuality::FullHd => "1080p · 8 Mbps"@,
        BrowserQuality::DataSaver => "720p · 3 Mbps"@,
        BrowserQuality::Sd480 => "480p · 1.5 Mbps"@,
        BrowserQuality::Low360 => "360p · 0.8 Mbps"@,
    }
}

fn label_of(quality: BrowserQuality) -> (label: &'static str)
    ensures
        label@ == quality_label(quality),
{
    match quality {
        BrowserQuality::Auto => "Auto · up to 4K",
        BrowserQuality::UhdHigh => "4K High · 25 Mbps",
        BrowserQuality::UhdOptimized => "4K Optimized · 16 Mbps",
        BrowserQuality::FullHd => "1080p · 8 Mbps",
        BrowserQuality::DataSaver => "720p · 3 Mbps",
        BrowserQuality::Sd480 => "480p · 1.5 Mbps",
        BrowserQuality::Low360 => "360p · 0.8 Mbps",
    }
}

/// Whether a browser is told of a quality what there is to tell.
pub open spec fn tells_quality(
    profile: WebQualityProfile,
    quality: BrowserQuality,
    numbers: QualityNumbers,
) -> bool {
    &&& profile.id@ == quality.name()
    &&& profile.label@ == quality_label(quality)
    &&& profile.max_width == numbers.max_width
    &&& profile.max_height == numbers.max_height
    &&& profile.max_fps == numbers.max_fps
    &&& profile.h264_profile@ == numbers.h264_profile@
    &&& profile.h264_level@ == numbers.h264_level@
    &&& profile.pixel_format@ == "yuv420p"@
    &&& profile.max_video_kbps == numbers.max_video_kbps
    &&& profile.audio_kbps == numbers.audio_kbps
    &&& profile.audio_layout@ == "stereo"@
    &&& profile.expected_bandwidth_kbps == numbers.expected_bandwidth_kbps
    &&& profile.automatic_fallback == numbers.automatic_fallback
}

fn quality_profile(quality: BrowserQuality, numbers: &QualityNumbers) -> (profile:
    WebQualityProfile)
    ensures
        tells_quality(profile, quality, *numbers),
{
    WebQualityProfile {
        id: quality.id(),
        label: label_of(quality),
        max_width: numbers.max_width,
        max_height: numbers.max_height,
        max_fps: numbers.max_fps,
        h264_profile: numbers.h264_profile.clone(),
        h264_level: numbers.h264_level.clone(),
        pixel_format: "yuv420p",
        max_video_kbps: numbers.max_video_kbps,
        audio_kbps: numbers.audio_kbps,
        audio_layout: "stereo",
        expected_bandwidth_kbps: numbers.expected_bandwidth_kbps,
        automatic_fallback: numbers.automatic_fallback,
    }
}

/// Whether a browser is told of every quality.
pub open spec fn tells_qualities(
    profiles: Seq<WebQualityProfile>,
    numbers: Seq<QualityNumbers>,
) -> bool {
    &&& profiles.len() == qualities().len()
    &&& forall|i: int|
        0 <= i < profiles.len() ==> tells_quality(
            #[trigger] profiles[i],
            qualities()[i],
            numbers[i],
        )
}

fn quality_profiles(numbers: &[QualityNumbers]) -> (profiles: Vec<WebQualityProfile>)
    requires
        numbers@.len() == qualities().len(),
    ensures
        tells_qualities(profiles@, numbers@),
{
    let all: [BrowserQuality; 7] = [
        BrowserQuality::Auto,
        BrowserQuality::UhdHigh,
        BrowserQuality::UhdOptimized,
        BrowserQuality::FullHd,
        BrowserQuality::DataSaver,
        BrowserQuality::Sd480,
        BrowserQuality::Low360,
    ];
    assert(all@ =~= qualities());
    let mut profiles: Vec<WebQualityProfile> = Vec::new();
    let mut i: usize = 0;
    while i < all.len()
        invariant
            i <= all.len(),
            all@ == qualities(),
            numbers@.len() == all@.len(),
            profiles@.len() == i,
            forall|j: int|
                0 <= j < i ==> tells_quality(#[trigger] profiles@[j], qualities()[j], numbers@[j]),
        decreases all.len() - i,
    {
        profiles.push(quality_profile(all[i], &numbers[i]));
        i += 1;
    }
    profiles
}

// ------------------------------------------------------------------ presets

/// The encoding presets.
pub open spec fn presets() -> Seq<BrowserEncodingPreset> {
    seq![
        BrowserEncodingPreset::Balanced,
        BrowserEncodingPreset::FastStart,
        BrowserEncodingPreset::MaximumSpeed,
    ]
}

/// Whether a browser is told of every encoding preset.
pub open spec fn tells_presets(told: Seq<WebEncodingPreset>, words: Seq<PresetWords>) -> bool {
    &&& told.len() == presets().len()
    &&& forall|i: int|
        0 <= i < told.len() ==> {
            &&& (#[trigger] told[i]).id@ == presets()[i].name()
            &&& told[i].label@ == words[i].label@
            &&& told[i].description@ == words[i].description@
        }
}

fn encoding_presets(words: &[PresetWords]) -> (told: Vec<WebEncodingPreset>)
    requires
        words@.len() == presets().len(),
    ensures
        tells_presets(told@, words@),
{
    let all: [BrowserEncodingPreset; 3] = [
        BrowserEncodingPreset::Balanced,
        BrowserEncodingPreset::FastStart,
        BrowserEncodingPreset::MaximumSpeed,
    ];
    assert(all@ =~= presets());
    let mut told: Vec<WebEncodingPreset> = Vec::new();
    let mut i: usize = 0;
    while i < all.len()
        invariant
            i <= all.len(),
            all@ == presets(),
            words@.len() == all@.len(),
            told@.len() == i,
            forall|j: int|
                0 <= j < i ==> {
                    &&& (#[trigger] told@[j]).id@ == presets()[j].name()
                    &&& told@[j].label@ == words@[j].label@
                    &&& told@[j].description@ == words@[j].description@
                },
        decreases all.len() - i,
    {
        told.push(
            WebEncodingPreset {
                id: all[i].id(),
                label: words[i].label.clone(),
                description: words[i].description.clone(),
            },
        );
        i += 1;
    }
    told
}

// ------------------------------------------------------------------ outputs

/// Whether an output is H.264 in standard dynamic range.
pub open spec fn is_h264_output(output: WebVideoOutput) -> bool {
    &&& output.id@ == "h264_sdr"@
    &&& output.label@ == "H.264 SDR"@
    &&& output.codec@ == "avc1.640033"@
    &&& output.video_content_type@ == "video/mp4; codecs=\"avc1.640033\""@
    &&& output.mse_content_type@ == "video/mp4; codecs=\"avc1.640033,mp4a.40.2\""@
    &&& output.dynamic_range@ == "sdr"@
    &&& output.bit_depth == 8
    &&& output.hdr_metadata_type is None
    &&& output.color_gamut is None
    &&& output.transfer_function is None
}

/// Whether an output is HEVC in high dynamic range. Nothing is promised of the
/// metadata of the display that the source was made on.
pub open spec fn is_hdr_output(output: WebVideoOutput) -> bool {
    &&& output.id@ == "hevc_hdr10"@
    &&& output.label@ == "HEVC Main 10 · HDR10"@
    &&& output.codec@ == "hvc1.2.4.L153.B0"@
    &&& output.video_content_type@ == "video/mp4; codecs=\"hvc1.2.4.L153.B0\""@
    &&& output.mse_content_type@ == "video/mp4; codecs=\"hvc1.2.4.L153.B0,mp4a.40.2\""@
    &&& output.dynamic_range@ == "hdr"@
    &&& output.bit_depth == 10
    &&& output.hdr_metadata_type is None
    &&& optional_text(output.color_gamut) == Some("rec2020"@)
    &&& optional_text(output.transfer_function) == Some("pq"@)
}

/// Whether the outputs are those of a server with that encoder.
pub open spec fn tells_outputs(
    outputs: Seq<WebVideoOutput>,
    transcoding: bool,
    encoder: Seq<char>,
) -> bool {
    if !transcoding {
        outputs.len() == 0
    } else if encoder != "h264_nvenc"@ {
        outputs.len() == 1 && is_h264_output(outputs[0])
    } else {
        outputs.len() == 2 && is_h264_output(outputs[0]) && is_hdr_output(outputs[1])
    }
}

fn video_outputs(transcoding: bool, encoder: &str) -> (outputs: Vec<WebVideoOutput>)
    ensures
        tells_outputs(outputs@, transcoding, encoder@),
{
    let mut outputs: Vec<WebVideoOutput> = Vec::new();
    if transcoding {
        outputs.push(
            WebVideoOutput {
                id: "h264_sdr",
                label: "H.264 SDR",
                codec: "avc1.640033",
                video_content_type: "video/mp4; codecs=\"avc1.640033\"",
                mse_content_type: "video/mp4; codecs=\"avc1.640033,mp4a.40.2\"",
                dynamic_range: "sdr",
                bit_depth: 8,
                hdr_metadata_type: None,
                color_gamut: None,
                transfer_function: None,
            },
        );
        if same_text(encoder, "h264_nvenc") {
            outputs.push(
                WebVideoOutput {
                    id: "hevc_hdr10",
                    label: "HEVC Main 10 · HDR10",
                    codec: "hvc1.2.4.L153.B0",
                    video_content_type: "video/mp4; codecs=\"hvc1.2.4.L153.B0\"",
                    mse_content_type: "video/mp4; codecs=\"hvc1.2.4.L153.B0,mp4a.40.2\"",
                    dynamic_range: "hdr",
                    bit_depth: 10,
                    hdr_metadata_type: None,
                    color_gamut: Some("rec2020"),
                    transfer_function: Some("pq"),
                },
            );
        }
    }
    outputs
}

// ---------------------------------------------------------------- upscaling

/// Whether a browser is told of a model what there is to tell.
pub open spec fn tells_model(envelope: WebAiUpscaleEnvelope, profile: UpscaleProfile) -> bool {
    &&& envelope.name@ == profile.name@
    &&& envelope.max_source_width == profile.max_source_width
    &&& envelope.max_source_height == profile.max_source_height
    &&& envelope.max_source_pixels_per_second == profile.max_source_pixels_per_second
}

/// Whether a browser is told of the models, where there are any.
pub open spec fn tells_upscale(
    told: Option<WebAiUpscaleCapability>,
    profiles: Seq<UpscaleProfile>,
) -> bool {
    match told {
        None => profiles.len() == 0,
        Some(told) => {
            &&& profiles.len() > 0
            &&& told.label@ == "AI upscale"@
            &&& told.max_scale == 2
            &&& told.sdr_only
            &&& told.bit_depth == 8
            &&& told.profiles@.len() == profiles.len()
            &&& forall|i: int|
                0 <= i < profiles.len() ==> tells_model(#[trigger] told.profiles@[i], profiles[i])
        },
    }
}

fn ai_upscale(profiles: &[UpscaleProfile]) -> (told: Option<WebAiUpscaleCapability>)
    ensures
        tells_upscale(told, profiles@),
{
    if profiles.len() == 0 {
        return None;
    }
    let mut models: Vec<WebAiUpscaleEnvelope> = Vec::new();
    let mut i: usize = 0;
    while i < profiles.len()
        invariant
            i <= profiles.len(),
            models@.len() == i,
            forall|j: int| 0 <= j < i ==> tells_model(#[trigger] models@[j], profiles@[j]),
        decreases profiles.len() - i,
    {
        models.push(
            WebAiUpscaleEnvelope {
                name: profiles[i].name.clone(),
                max_source_width: profiles[i].max_source_width,
                max_source_height: profiles[i].max_source_height,
                max_source_pixels_per_second: profiles[i].max_source_pixels_per_second,
            },
        );
        i += 1;
    }
    Some(
        WebAiUpscaleCapability {
            label: "AI upscale",
            max_scale: 2,
            sdr_only: true,
            bit_depth: 8,
            profiles: models,
        },
    )
}

/// Tells a browser what the server can do. Where a title is continued is kept in
/// the browser.
pub fn web_capabilities(facts: &CapabilityFacts) -> (told: WebCapabilities)
    requires
        facts.qualities@.len() == qualities().len(),
        facts.presets@.len() == presets().len(),
    ensures
        told.transcoding == facts.transcoding,
        told.captions == facts.captions,
        told.resume@ == "browser_local"@,
        told.queue,
        told.media_session,
        tells_qualities(told.quality_profiles@, facts.qualities@),
        tells_presets(told.encoding_presets@, facts.presets@),
        tells_outputs(told.video_outputs@, facts.transcoding, facts.encoder@),
        tells_upscale(told.ai_upscale, facts.profiles@),
{
    WebCapabilities {
        transcoding: facts.transcoding,
        captions: facts.captions,
        resume: "browser_local",
        queue: true,
        media_session: true,
        quality_profiles: quality_profiles(&facts.qualities),
        encoding_presets: encoding_presets(&facts.presets),
        video_outputs: video_outputs(facts.transcoding, facts.encoder.as_str()),
        ai_upscale: ai_upscale(&facts.profiles),
    }
}

// -------------------------------------------------------------------- laws

/// Every quality that a browser is told of can be asked for.
pub proof fn law_told_qualities_can_be_asked_for(i: int)
    requires
        0 <= i < qualities().len(),
    ensures
        crate::playback::quality_named(qualities()[i].name()) == Some(qualities()[i]),
{
    reveal_strlit("auto");
    reveal_strlit("uhd_high");
    reveal_strlit("uhd_optimized");
    reveal_strlit("full_hd");
    reveal_strlit("data_saver");
    reveal_strlit("sd_480");
    reveal_strlit("low_360");
    assert("auto"@.len() == 4);
    assert("uhd_high"@.len() == 8);
    assert("uhd_optimized"@.len() == 13);
    assert("full_hd"@.len() == 7 && "full_hd"@[0] == 'f');
    assert("data_saver"@.len() == 10);
    assert("sd_480"@.len() == 6);
    assert("low_360"@.len() == 7 && "low_360"@[0] == 'l');
}

/// Every encoding preset that a browser is told of can be asked for.
pub proof fn law_told_presets_can_be_asked_for(i: int)
    requires
        0 <= i < presets().len(),
    ensures
        crate::playback::preset_named(presets()[i].name()) == Some(presets()[i]),
{
    reveal_strlit("balanced");
    reveal_strlit("fast_start");
    reveal_strlit("maximum_speed");
    assert("balanced"@.len() == 8);
    assert("fast_start"@.len() == 10);
    assert("maximum_speed"@.len() == 13);
}

} // verus!
