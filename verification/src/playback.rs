//! Requests to play a title.
use crate::catalog::{is_playable, playable};
use crate::library::{get_or, value_or};
use crate::number::{decimal_chars, decimal_text};
use crate::problem::{first_problem, optional_text, Problem};
use crate::query::{
    all_allowed, is_well_formed, optional_number, query_entries, same_text, value_of, Entries,
    QueryParams,
};
use crate::route::{ends_with, media_id, strip_suffix, web_media_id};
use crate::text::{chars_of, find, index_of, is_text, lemma_find, split, split_text, texts, CharClass};
use vstd::prelude::*;
use vstd::slice::slice_subrange;

verus! {

/// How many bytes a part of a segmented stream has at most: 64 MiB.
pub const MAX_HLS_RESOURCE_BYTES: u64 = 67108864;

/// The largest fragment that a media source can ask to go on after. It has to be
/// the bound up to which the segmenter numbers fragments.
pub const MAX_MSE_FRAGMENT_CURSOR: usize = 20000;

/// How long a reason is at most.
pub const MAX_REASON_LEN: usize = 64;

/// How a stream is delivered.
#[derive(Clone, Copy, Debug, PartialEq, Eq, Structural)]
pub enum Delivery {
    Mp4,
    Hls,
    HlsInit,
    HlsSegment,
    Mse,
    MseInit,
    MseSegment,
}

/// A playback quality.
#[derive(Clone, Copy, Debug, PartialEq, Eq, Structural)]
pub enum BrowserQuality {
    Auto,
    UhdHigh,
    UhdOptimized,
    FullHd,
    DataSaver,
    Sd480,
    Low360,
}

/// How much work goes into encoding.
#[derive(Clone, Copy, Debug, PartialEq, Eq, Structural)]
pub enum BrowserEncodingPreset {
    Balanced,
    FastStart,
    MaximumSpeed,
}

/// What becomes of the video stream.
#[derive(Clone, Copy, Debug, PartialEq, Eq, Structural)]
pub enum VideoMode {
    Copy,
    Repair,
    Transcode,
}

/// A video output format.
#[derive(Clone, Copy, Debug, PartialEq, Eq, Structural)]
pub enum BrowserVideoOutput {
    H264Sdr,
    HevcHdr10,
}

/// Which audio track is asked for.
#[derive(Clone, Copy, Debug, PartialEq, Eq, Structural)]
pub enum AudioChoice {
    Default,
    Track(usize),
    Invalid,
}

/// A request to play a title.
pub struct PlaybackRequest {
    pub item: i64,
    pub start_seconds: usize,
    pub request_id: Option<u64>,
    pub session_id: Option<u64>,
    pub direct: bool,
    pub delivery: Delivery,
    pub hls_offset: Option<u64>,
    pub hls_length: Option<u64>,
    pub mse_after: Option<usize>,
    pub quality: BrowserQuality,
    pub encoding_preset: BrowserEncodingPreset,
    pub video_mode: VideoMode,
    pub video_output: BrowserVideoOutput,
    pub copy_audio: bool,
    pub reason: String,
    pub audio: AudioChoice,
}

// ------------------------------------------------------------------- names

pub open spec fn delivery_named(value: Seq<char>) -> Option<Delivery> {
    if value == "mp4"@ {
        Some(Delivery::Mp4)
    } else if value == "hls"@ {
        Some(Delivery::Hls)
    } else if value == "hls_init"@ {
        Some(Delivery::HlsInit)
    } else if value == "hls_segment"@ {
        Some(Delivery::HlsSegment)
    } else if value == "mse"@ {
        Some(Delivery::Mse)
    } else if value == "mse_init"@ {
        Some(Delivery::MseInit)
    } else if value == "mse_segment"@ {
        Some(Delivery::MseSegment)
    } else {
        None
    }
}

fn read_delivery_name(value: &str) -> (delivery: Option<Delivery>)
    ensures
        delivery == delivery_named(value@),
{
    if same_text(value, "mp4") {
        Some(Delivery::Mp4)
    } else if same_text(value, "hls") {
        Some(Delivery::Hls)
    } else if same_text(value, "hls_init") {
        Some(Delivery::HlsInit)
    } else if same_text(value, "hls_segment") {
        Some(Delivery::HlsSegment)
    } else if same_text(value, "mse") {
        Some(Delivery::Mse)
    } else if same_text(value, "mse_init") {
        Some(Delivery::MseInit)
    } else if same_text(value, "mse_segment") {
        Some(Delivery::MseSegment)
    } else {
        None
    }
}

impl BrowserQuality {
    /// The name of the quality.
    pub open spec fn name(self) -> Seq<char> {
        match self {
            BrowserQuality::Auto => "auto"@,
            BrowserQuality::UhdHigh => "uhd_high"@,
            BrowserQuality::UhdOptimized => "uhd_optimized"@,
            BrowserQuality::FullHd => "full_hd"@,
            BrowserQuality::DataSaver => "data_saver"@,
            BrowserQuality::Sd480 => "sd_480"@,
            BrowserQuality::Low360 => "low_360"@,
        }
    }

    /// The name of the quality.
    pub fn id(self) -> (name: &'static str)
        ensures
            name@ == self.name(),
    {
        match self {
            BrowserQuality::Auto => "auto",
            BrowserQuality::UhdHigh => "uhd_high",
            BrowserQuality::UhdOptimized => "uhd_optimized",
            BrowserQuality::FullHd => "full_hd",
            BrowserQuality::DataSaver => "data_saver",
            BrowserQuality::Sd480 => "sd_480",
            BrowserQuality::Low360 => "low_360",
        }
    }
}

/// The quality of that name.
pub open spec fn quality_named(value: Seq<char>) -> Option<BrowserQuality> {
    if value == BrowserQuality::Auto.name() {
        Some(BrowserQuality::Auto)
    } else if value == BrowserQuality::UhdHigh.name() {
        Some(BrowserQuality::UhdHigh)
    } else if value == BrowserQuality::UhdOptimized.name() {
        Some(BrowserQuality::UhdOptimized)
    } else if value == BrowserQuality::FullHd.name() {
        Some(BrowserQuality::FullHd)
    } else if value == BrowserQuality::DataSaver.name() {
        Some(BrowserQuality::DataSaver)
    } else if value == BrowserQuality::Sd480.name() {
        Some(BrowserQuality::Sd480)
    } else if value == BrowserQuality::Low360.name() {
        Some(BrowserQuality::Low360)
    } else {
        None
    }
}

fn read_quality(value: &str) -> (quality: Option<BrowserQuality>)
    ensures
        quality == quality_named(value@),
{
    if same_text(value, "auto") {
        Some(BrowserQuality::Auto)
    } else if same_text(value, "uhd_high") {
        Some(BrowserQuality::UhdHigh)
    } else if same_text(value, "uhd_optimized") {
        Some(BrowserQuality::UhdOptimized)
    } else if same_text(value, "full_hd") {
        Some(BrowserQuality::FullHd)
    } else if same_text(value, "data_saver") {
        Some(BrowserQuality::DataSaver)
    } else if same_text(value, "sd_480") {
        Some(BrowserQuality::Sd480)
    } else if same_text(value, "low_360") {
        Some(BrowserQuality::Low360)
    } else {
        None
    }
}

impl BrowserEncodingPreset {
    /// The name of the preset.
    pub open spec fn name(self) -> Seq<char> {
        match self {
            BrowserEncodingPreset::Balanced => "balanced"@,
            BrowserEncodingPreset::FastStart => "fast_start"@,
            BrowserEncodingPreset::MaximumSpeed => "maximum_speed"@,
        }
    }

    /// The name of the preset.
    pub fn id(self) -> (name: &'static str)
        ensures
            name@ == self.name(),
    {
        match self {
            BrowserEncodingPreset::Balanced => "balanced",
            BrowserEncodingPreset::FastStart => "fast_start",
            BrowserEncodingPreset::MaximumSpeed => "maximum_speed",
        }
    }

    /// The preset of that name.
    pub fn parse(value: &str) -> (preset: Option<BrowserEncodingPreset>)
        ensures
            preset == preset_named(value@),
    {
        if same_text(value, "balanced") {
            Some(BrowserEncodingPreset::Balanced)
        } else if same_text(value, "fast_start") {
            Some(BrowserEncodingPreset::FastStart)
        } else if same_text(value, "maximum_speed") {
            Some(BrowserEncodingPreset::MaximumSpeed)
        } else {
            None
        }
    }
}

/// The preset of that name.
pub open spec fn preset_named(value: Seq<char>) -> Option<BrowserEncodingPreset> {
    if value == BrowserEncodingPreset::Balanced.name() {
        Some(BrowserEncodingPreset::Balanced)
    } else if value == BrowserEncodingPreset::FastStart.name() {
        Some(BrowserEncodingPreset::FastStart)
    } else if value == BrowserEncodingPreset::MaximumSpeed.name() {
        Some(BrowserEncodingPreset::MaximumSpeed)
    } else {
        None
    }
}

pub open spec fn video_mode_named(value: Seq<char>) -> Option<VideoMode> {
    if value == "copy"@ {
        Some(VideoMode::Copy)
    } else if value == "repair"@ {
        Some(VideoMode::Repair)
    } else if value == "transcode"@ {
        Some(VideoMode::Transcode)
    } else {
        None
    }
}

fn read_video_mode(value: &str) -> (mode: Option<VideoMode>)
    ensures
        mode == video_mode_named(value@),
{
    if same_text(value, "copy") {
        Some(VideoMode::Copy)
    } else if same_text(value, "repair") {
        Some(VideoMode::Repair)
    } else if same_text(value, "transcode") {
        Some(VideoMode::Transcode)
    } else {
        None
    }
}

pub open spec fn video_output_named(value: Seq<char>) -> Option<BrowserVideoOutput> {
    if value == "h264_sdr"@ {
        Some(BrowserVideoOutput::H264Sdr)
    } else if value == "hevc_hdr10"@ {
        Some(BrowserVideoOutput::HevcHdr10)
    } else {
        None
    }
}

fn read_video_output(value: &str) -> (output: Option<BrowserVideoOutput>)
    ensures
        output == video_output_named(value@),
{
    if same_text(value, "h264_sdr") {
        Some(BrowserVideoOutput::H264Sdr)
    } else if same_text(value, "hevc_hdr10") {
        Some(BrowserVideoOutput::HevcHdr10)
    } else {
        None
    }
}

/// Whether audio is copied, in a request that says whether it is.
pub open spec fn copies_audio(value: Seq<char>) -> Option<bool> {
    if value == "copy"@ {
        Some(true)
    } else if value == "transcode"@ {
        Some(false)
    } else {
        None
    }
}

/// Whether the original file is played, in a request that says whether it is.
pub open spec fn plays_original(value: Seq<char>) -> Option<bool> {
    if value == "direct"@ {
        Some(true)
    } else if value == "compatible"@ {
        Some(false)
    } else {
        None
    }
}

/// Whether a reason is made of letters, digits and underscores.
pub open spec fn is_reason(value: Seq<char>) -> bool {
    &&& 1 <= value.len() <= MAX_REASON_LEN
    &&& forall|i: int|
        0 <= i < value.len() ==> (CharClass::Alphanumeric.has(#[trigger] value[i]) || value[i]
            == '_')
}

fn valid_reason(value: &str) -> (valid: bool)
    ensures
        valid == is_reason(value@),
{
    let chars = chars_of(value);
    if chars.len() == 0 || chars.len() > MAX_REASON_LEN {
        return false;
    }
    let mut i: usize = 0;
    while i < chars.len()
        invariant
            i <= chars.len(),
            chars@ == value@,
            forall|j: int|
                0 <= j < i ==> (CharClass::Alphanumeric.has(#[trigger] value@[j]) || value@[j]
                    == '_'),
        decreases chars.len() - i,
    {
        if !(CharClass::Alphanumeric.test(chars[i]) || chars[i] == '_') {
            assert(!(CharClass::Alphanumeric.has(value@[i as int]) || value@[i as int] == '_'));
            return false;
        }
        i += 1;
    }
    true
}

// ------------------------------------------------------------ raw parameters

/// Whether a part of a query is written exactly as `name=value`.
pub open spec fn is_written(part: Seq<char>, name: Seq<char>, value: Seq<char>) -> bool {
    find(part, seq!['=']) matches Some(k) && part.take(k) == name && part.skip(k + 1) == value
}

/// Whether a query holds a part that is written exactly as `name=value`.
pub open spec fn holds_raw(query: Seq<char>, name: Seq<char>, value: Seq<char>) -> bool {
    exists|i: int|
        0 <= i < split(query, seq!['&']).len() && is_written(
            #[trigger] split(query, seq!['&'])[i],
            name,
            value,
        )
}

fn written(part: &[char], name: &str, value: &[char]) -> (result: bool)
    ensures
        result == is_written(part@, name@, value@),
{
    let equals: [char; 1] = ['='];
    assert(equals@ =~= seq!['=']);
    let k: usize = match index_of(part, &equals) {
        Some(k) => k,
        None => {
            return false;
        },
    };
    proof {
        lemma_find(part@, seq!['=']);
    }
    let len: usize = part.len();
    assert(k + 1 <= len);
    let left = slice_subrange(part, 0, k);
    let right = slice_subrange(part, k + 1, len);
    proof {
        assert(left@ =~= part@.take(k as int));
        assert(right@ =~= part@.skip(k + 1));
        assert(right@.subrange(0, right@.len() as int) =~= right@);
    }
    is_text(left, name) && right.len() == value.len() && crate::text::is_at(right, value, 0)
}

/// Whether a query holds a part that is written exactly as `name=value`.
pub fn raw_parameter_is(query: &[char], name: &str, value: &[char]) -> (found: bool)
    ensures
        found == holds_raw(query@, name@, value@),
{
    let ampersand: [char; 1] = ['&'];
    assert(ampersand@ =~= seq!['&']);
    let parts = split_text(query, &ampersand);
    let ghost all = split(query@, seq!['&']);
    assert(all.len() == parts@.len());
    let mut i: usize = 0;
    while i < parts.len()
        invariant
            i <= parts.len(),
            all == split(query@, seq!['&']),
            texts(parts@) == all,
            all.len() == parts@.len(),
            forall|j: int| 0 <= j < i ==> !is_written(#[trigger] all[j], name@, value@),
        decreases parts.len() - i,
    {
        assert(all[i as int] == parts@[i as int]@);
        if written(parts[i], name, value) {
            return true;
        }
        i += 1;
    }
    false
}


// ----------------------------------------------------------------- delivery

/// Whether every number that the parameters give is written as it would be
/// printed, and the delivery without escapes.
pub open spec fn is_canonical(entries: Entries, query: Seq<char>) -> bool {
    &&& value_of(entries, "delivery"@) matches Some(value) ==> holds_raw(
        query,
        "delivery"@,
        value,
    )
    &&& is_canonical_number(entries, query, "hls_offset"@, u64::MAX as nat)
    &&& is_canonical_number(entries, query, "hls_length"@, u64::MAX as nat)
    &&& is_canonical_number(entries, query, "mse_after"@, usize::MAX as nat)
}

pub open spec fn is_canonical_number(
    entries: Entries,
    query: Seq<char>,
    name: Seq<char>,
    max: nat,
) -> bool {
    optional_number(entries, name, max) matches Ok(Some(n)) ==> holds_raw(
        query,
        name,
        decimal_text(n),
    )
}

/// Whether the number of a parameter is given.
pub open spec fn gives(entries: Entries, name: Seq<char>) -> bool {
    value_of(entries, name) is Some
}

/// Whether a part of the stream is named by an offset and a length that is not
/// too large.
pub open spec fn names_range(entries: Entries) -> bool {
    &&& gives(entries, "hls_offset"@)
    &&& optional_number(entries, "hls_length"@, u64::MAX as nat) matches Ok(Some(n)) && 1 <= n
        <= MAX_HLS_RESOURCE_BYTES
}

/// Whether a delivery goes with the path and with the numbers that are given.
pub open spec fn fits_delivery(delivery: Delivery, entries: Entries, path: Seq<char>) -> bool {
    let whole = !gives(entries, "hls_offset"@) && !gives(entries, "hls_length"@);
    let anew = !gives(entries, "mse_after"@);
    match delivery {
        Delivery::Mp4 => ends_with(path, ".mp4"@) && whole && anew,
        Delivery::Hls => ends_with(path, ".m3u8"@) && whole && anew,
        Delivery::Mse => ends_with(path, ".m3u8"@) && whole,
        Delivery::HlsInit => ends_with(path, ".mp4"@) && names_range(entries) && anew,
        Delivery::MseInit => ends_with(path, ".mp4"@) && names_range(entries) && anew,
        Delivery::HlsSegment => ends_with(path, ".m4s"@) && names_range(entries) && anew,
        Delivery::MseSegment => ends_with(path, ".m4s"@) && names_range(entries) && anew,
    }
}

/// Why a delivery is refused, if it is.
pub open spec fn delivery_problem(entries: Entries, query: Seq<char>, path: Seq<char>) -> Option<
    Problem,
> {
    match delivery_named(value_or(entries, "delivery"@, "mp4"@)) {
        None => Some(Problem::InvalidDelivery),
        Some(delivery) => if optional_number(entries, "hls_offset"@, u64::MAX as nat) is Err {
            Some(Problem::InvalidHlsOffset)
        } else if optional_number(entries, "hls_length"@, u64::MAX as nat) is Err {
            Some(Problem::InvalidHlsLength)
        } else if !is_cursor(entries) {
            Some(Problem::InvalidMseCursor)
        } else if !is_canonical(entries, query) {
            Some(Problem::FragmentNotCanonical)
        } else if !fits_delivery(delivery, entries, path) {
            Some(Problem::InvalidHlsResource)
        } else {
            None
        },
    }
}

/// Whether the fragment to go on after is left out or in range.
pub open spec fn is_cursor(entries: Entries) -> bool {
    match optional_number(entries, "mse_after"@, usize::MAX as nat) {
        Ok(Some(n)) => n <= MAX_MSE_FRAGMENT_CURSOR,
        Ok(None) => true,
        Err(_) => false,
    }
}

/// How a stream is delivered, and which part of it.
pub struct DeliveryRequest {
    pub delivery: Delivery,
    pub hls_offset: Option<u64>,
    pub hls_length: Option<u64>,
    pub mse_after: Option<usize>,
}

/// The number of a parameter, where it is given.
pub open spec fn number_in(entries: Entries, name: Seq<char>, max: nat) -> Option<nat> {
    match optional_number(entries, name, max) {
        Ok(n) => n,
        Err(_) => None,
    }
}

pub open spec fn as_nat(n: Option<u64>) -> Option<nat> {
    match n {
        Some(n) => Some(n as nat),
        None => None,
    }
}

pub open spec fn as_index(n: Option<usize>) -> Option<nat> {
    match n {
        Some(n) => Some(n as nat),
        None => None,
    }
}

/// Whether a delivery is the one that the parameters ask for.
pub open spec fn is_delivery(
    delivery: Delivery,
    offset: Option<u64>,
    length: Option<u64>,
    after: Option<usize>,
    entries: Entries,
) -> bool {
    &&& delivery_named(value_or(entries, "delivery"@, "mp4"@)) == Some(delivery)
    &&& as_nat(offset) == number_in(entries, "hls_offset"@, u64::MAX as nat)
    &&& as_nat(length) == number_in(entries, "hls_length"@, u64::MAX as nat)
    &&& as_index(after) == number_in(entries, "mse_after"@, usize::MAX as nat)
}

fn path_ends(path: &[char], suffix: &str) -> (result: bool)
    ensures
        result == ends_with(path@, suffix@),
{
    strip_suffix(path, suffix).is_some()
}

fn canonical_number(query: &[char], name: &str, value: Option<u64>) -> (result: bool)
    ensures
        result == (value matches Some(n) ==> holds_raw(query@, name@, decimal_text(n as nat))),
{
    match value {
        Some(n) => {
            let digits = decimal_chars(n);
            raw_parameter_is(query, name, &digits)
        },
        None => true,
    }
}

/// Reads how a stream is to be delivered.
pub fn delivery_request(params: &QueryParams, query: &str, path: &str) -> (result: Result<
    DeliveryRequest,
    Problem,
>)
    ensures
        match result {
            Ok(request) => delivery_problem(params.entries(), query@, path@) is None && is_delivery(
                request.delivery,
                request.hls_offset,
                request.hls_length,
                request.mse_after,
                params.entries(),
            ),
            Err(problem) => delivery_problem(params.entries(), query@, path@) == Some(problem),
        },
{
    let given = params.get("delivery");
    let delivery = match read_delivery_name(get_or(params, "delivery", "mp4")) {
        Some(delivery) => delivery,
        None => {
            return Err(Problem::InvalidDelivery);
        },
    };
    let hls_offset = match params.optional_u64("hls_offset") {
        Ok(value) => value,
        Err(_) => {
            return Err(Problem::InvalidHlsOffset);
        },
    };
    let hls_length = match params.optional_u64("hls_length") {
        Ok(value) => value,
        Err(_) => {
            return Err(Problem::InvalidHlsLength);
        },
    };
    let mse_after = match params.optional_usize("mse_after") {
        Ok(Some(value)) => if value <= MAX_MSE_FRAGMENT_CURSOR {
            Some(value)
        } else {
            return Err(Problem::InvalidMseCursor);
        },
        Ok(None) => None,
        Err(_) => {
            return Err(Problem::InvalidMseCursor);
        },
    };
    let raw = chars_of(query);
    let plain_delivery = match given {
        Some(value) => {
            let value = chars_of(value);
            raw_parameter_is(&raw, "delivery", &value)
        },
        None => true,
    };
    let cursor: Option<u64> = match mse_after {
        Some(n) => Some(n as u64),
        None => None,
    };
    let canonical = plain_delivery && canonical_number(&raw, "hls_offset", hls_offset)
        && canonical_number(&raw, "hls_length", hls_length) && canonical_number(
        &raw,
        "mse_after",
        cursor,
    );
    if !canonical {
        return Err(Problem::FragmentNotCanonical);
    }
    let path = chars_of(path);
    let whole = hls_offset.is_none() && hls_length.is_none();
    let anew = mse_after.is_none();
    let range = hls_offset.is_some() && match hls_length {
        Some(n) => 1 <= n && n <= MAX_HLS_RESOURCE_BYTES,
        None => false,
    };
    let fits = match delivery {
        Delivery::Mp4 => path_ends(&path, ".mp4") && whole && anew,
        Delivery::Hls => path_ends(&path, ".m3u8") && whole && anew,
        Delivery::Mse => path_ends(&path, ".m3u8") && whole,
        Delivery::HlsInit => path_ends(&path, ".mp4") && range && anew,
        Delivery::MseInit => path_ends(&path, ".mp4") && range && anew,
        Delivery::HlsSegment => path_ends(&path, ".m4s") && range && anew,
        Delivery::MseSegment => path_ends(&path, ".m4s") && range && anew,
    };
    if !fits {
        return Err(Problem::InvalidHlsResource);
    }
    Ok(DeliveryRequest { delivery, hls_offset, hls_length, mse_after })
}


// ----------------------------------------------------------------- settings

/// Why the numbers and the mode of a request are refused, if they are.
pub open spec fn session_problem(entries: Entries) -> Option<Problem> {
    if optional_number(entries, "start"@, usize::MAX as nat) is Err {
        Some(Problem::InvalidStart)
    } else if optional_number(entries, "request"@, u64::MAX as nat) is Err {
        Some(Problem::InvalidRequest)
    } else if optional_number(entries, "session"@, u64::MAX as nat) is Err {
        Some(Problem::InvalidSession)
    } else if plays_original(value_or(entries, "mode"@, "compatible"@)) is None {
        Some(Problem::InvalidMode)
    } else {
        None
    }
}

/// Why the settings of a request are refused, if they are.
pub open spec fn settings_problem(entries: Entries) -> Option<Problem> {
    let mode = video_mode_named(value_or(entries, "video_mode"@, "transcode"@));
    if quality_named(value_or(entries, "quality"@, "auto"@)) is None {
        Some(Problem::InvalidQuality)
    } else if preset_named(value_or(entries, "encoding_preset"@, "balanced"@)) is None {
        Some(Problem::InvalidEncodingPreset)
    } else if mode is None {
        Some(Problem::InvalidVideoMode)
    } else if video_output_named(value_or(entries, "video_output"@, "h264_sdr"@)) is None {
        Some(Problem::InvalidVideoOutput)
    } else if mode != Some(VideoMode::Transcode) && gives(entries, "video_output"@) {
        Some(Problem::OutputIsAutomatic)
    } else if copies_audio(value_or(entries, "audio_mode"@, "transcode"@)) is None {
        Some(Problem::InvalidAudioMode)
    } else if !is_reason(value_or(entries, "reason"@, "unspecified"@)) {
        Some(Problem::InvalidReason)
    } else {
        None
    }
}

/// The parameters that mean nothing where the original file is played.
pub open spec fn conversion_names() -> Seq<&'static str> {
    seq![
        "audio",
        "start",
        "quality",
        "video_mode",
        "video_output",
        "audio_mode",
        "delivery",
        "hls_offset",
        "hls_length",
        "mse_after",
    ]
}

/// Whether any of those parameters is given.
pub open spec fn gives_any(entries: Entries, names: Seq<&str>) -> bool {
    exists|i: int| 0 <= i < names.len() && gives(entries, (#[trigger] names[i])@)
}

/// The parameters of a playback request.
pub open spec fn playback_names() -> Seq<&'static str> {
    seq![
        "audio",
        "start",
        "quality",
        "encoding_preset",
        "reason",
        "request",
        "session",
        "mode",
        "video_mode",
        "video_output",
        "audio_mode",
        "delivery",
        "hls_offset",
        "hls_length",
        "mse_after",
    ]
}

/// Why a playback request is refused, if it is.
pub open spec fn playback_problem(entries: Entries, query: Seq<char>, path: Seq<char>) -> Option<
    Problem,
> {
    if !is_well_formed(query) || !all_allowed(entries, playback_names()) {
        Some(Problem::MediaParameter)
    } else {
        first_problem(
            session_problem(entries),
            first_problem(
                delivery_problem(entries, query, path),
                first_problem(
                    settings_problem(entries),
                    if plays_original(value_or(entries, "mode"@, "compatible"@)) == Some(true)
                        && gives_any(entries, conversion_names()) {
                        Some(Problem::DirectParameter)
                    } else {
                        None
                    },
                ),
            ),
        )
    }
}

/// Why a request to play the title at a path is refused, if it is. The title is
/// given by its media type, or by nothing where it left the catalog.
pub open spec fn media_problem(path: Seq<char>, query: Seq<char>, mime: Option<Seq<char>>) -> Option<
    Problem,
> {
    if media_id(path) is None {
        Some(Problem::InvalidItem)
    } else {
        match mime {
            None => Some(Problem::MediaMissing),
            Some(mime) => if !is_playable(mime) {
                Some(Problem::MediaUnsupported)
            } else {
                playback_problem(query_entries(query), query, path)
            },
        }
    }
}

/// The audio track that the parameters ask for.
pub open spec fn audio_choice(entries: Entries) -> AudioChoice {
    match optional_number(entries, "audio"@, usize::MAX as nat) {
        Ok(Some(n)) => AudioChoice::Track(n as usize),
        Ok(None) => AudioChoice::Default,
        Err(_) => AudioChoice::Invalid,
    }
}

/// Whether a request has the settings that the parameters make.
pub open spec fn has_settings(request: PlaybackRequest, entries: Entries) -> bool {
    &&& quality_named(value_or(entries, "quality"@, "auto"@)) == Some(request.quality)
    &&& preset_named(value_or(entries, "encoding_preset"@, "balanced"@)) == Some(
        request.encoding_preset,
    )
    &&& video_mode_named(value_or(entries, "video_mode"@, "transcode"@)) == Some(request.video_mode)
    &&& video_output_named(value_or(entries, "video_output"@, "h264_sdr"@)) == Some(
        request.video_output,
    )
    &&& copies_audio(value_or(entries, "audio_mode"@, "transcode"@)) == Some(request.copy_audio)
    &&& request.reason@ == value_or(entries, "reason"@, "unspecified"@)
}

/// Whether a request is the one that the path and the parameters make.
pub open spec fn is_playback_request(
    request: PlaybackRequest,
    entries: Entries,
    path: Seq<char>,
) -> bool {
    &&& media_id(path) == Some(request.item)
    &&& request.start_seconds == match number_in(entries, "start"@, usize::MAX as nat) {
        Some(n) => n,
        None => 0,
    }
    &&& as_nat(request.request_id) == number_in(entries, "request"@, u64::MAX as nat)
    &&& as_nat(request.session_id) == number_in(entries, "session"@, u64::MAX as nat)
    &&& plays_original(value_or(entries, "mode"@, "compatible"@)) == Some(request.direct)
    &&& is_delivery(
        request.delivery,
        request.hls_offset,
        request.hls_length,
        request.mse_after,
        entries,
    )
    &&& has_settings(request, entries)
    &&& request.audio == audio_choice(entries)
}

fn any_given(params: &QueryParams, names: &[&str]) -> (found: bool)
    ensures
        found == gives_any(params.entries(), names@),
{
    let mut i: usize = 0;
    while i < names.len()
        invariant
            i <= names.len(),
            forall|j: int| 0 <= j < i ==> !gives(params.entries(), (#[trigger] names@[j])@),
        decreases names.len() - i,
    {
        if params.get(names[i]).is_some() {
            assert(gives(params.entries(), names@[i as int]@));
            return true;
        }
        i += 1;
    }
    false
}

struct Settings {
    quality: BrowserQuality,
    encoding_preset: BrowserEncodingPreset,
    video_mode: VideoMode,
    video_output: BrowserVideoOutput,
    copy_audio: bool,
}

fn read_settings(params: &QueryParams) -> (result: Result<Settings, Problem>)
    ensures
        match result {
            Ok(settings) => ({
                let entries = params.entries();
                &&& settings_problem(entries) is None
                &&& quality_named(value_or(entries, "quality"@, "auto"@)) == Some(settings.quality)
                &&& preset_named(value_or(entries, "encoding_preset"@, "balanced"@)) == Some(
                    settings.encoding_preset,
                )
                &&& video_mode_named(value_or(entries, "video_mode"@, "transcode"@)) == Some(
                    settings.video_mode,
                )
                &&& video_output_named(value_or(entries, "video_output"@, "h264_sdr"@)) == Some(
                    settings.video_output,
                )
                &&& copies_audio(value_or(entries, "audio_mode"@, "transcode"@)) == Some(
                    settings.copy_audio,
                )
            }),
            Err(problem) => settings_problem(params.entries()) == Some(problem),
        },
{
    let quality = match read_quality(get_or(params, "quality", "auto")) {
        Some(quality) => quality,
        None => {
            return Err(Problem::InvalidQuality);
        },
    };
    let encoding_preset = match BrowserEncodingPreset::parse(
        get_or(params, "encoding_preset", "balanced"),
    ) {
        Some(preset) => preset,
        None => {
            return Err(Problem::InvalidEncodingPreset);
        },
    };
    let video_mode = match read_video_mode(get_or(params, "video_mode", "transcode")) {
        Some(mode) => mode,
        None => {
            return Err(Problem::InvalidVideoMode);
        },
    };
    let video_output = match read_video_output(get_or(params, "video_output", "h264_sdr")) {
        Some(output) => output,
        None => {
            return Err(Problem::InvalidVideoOutput);
        },
    };
    if video_mode != VideoMode::Transcode && params.get("video_output").is_some() {
        return Err(Problem::OutputIsAutomatic);
    }
    let audio_mode = get_or(params, "audio_mode", "transcode");
    let copy_audio = if same_text(audio_mode, "copy") {
        true
    } else if same_text(audio_mode, "transcode") {
        false
    } else {
        return Err(Problem::InvalidAudioMode);
    };
    if !valid_reason(get_or(params, "reason", "unspecified")) {
        return Err(Problem::InvalidReason);
    }
    Ok(Settings { quality, encoding_preset, video_mode, video_output, copy_audio })
}

/// Reads a request to play the title at a path. The title is given by its media
/// type, or by nothing where it left the catalog.
pub fn media_request(path: &str, query: &str, mime: Option<&str>) -> (result: Result<
    PlaybackRequest,
    Problem,
>)
    ensures
        match result {
            Ok(request) => media_problem(path@, query@, optional_text(mime)) is None
                && is_playback_request(request, query_entries(query@), path@),
            Err(problem) => media_problem(path@, query@, optional_text(mime))
                == Some(problem),
        },
{
    let item: i64 = match web_media_id(path) {
        Some(item) => item,
        None => {
            return Err(Problem::InvalidItem);
        },
    };
    match mime {
        Some(mime) => if !playable(mime) {
            return Err(Problem::MediaUnsupported);
        },
        None => {
            return Err(Problem::MediaMissing);
        },
    }
    let params = QueryParams::parse(query);
    let names: [&str; 15] = [
        "audio",
        "start",
        "quality",
        "encoding_preset",
        "reason",
        "request",
        "session",
        "mode",
        "video_mode",
        "video_output",
        "audio_mode",
        "delivery",
        "hls_offset",
        "hls_length",
        "mse_after",
    ];
    assert(names@ =~= playback_names());
    if params.has_unknown(&names) {
        return Err(Problem::MediaParameter);
    }
    let start_seconds: usize = match params.optional_usize("start") {
        Ok(Some(value)) => value,
        Ok(None) => 0,
        Err(_) => {
            return Err(Problem::InvalidStart);
        },
    };
    let request_id = match params.optional_u64("request") {
        Ok(value) => value,
        Err(_) => {
            return Err(Problem::InvalidRequest);
        },
    };
    let session_id = match params.optional_u64("session") {
        Ok(value) => value,
        Err(_) => {
            return Err(Problem::InvalidSession);
        },
    };
    let mode = get_or(&params, "mode", "compatible");
    let direct = if same_text(mode, "direct") {
        true
    } else if same_text(mode, "compatible") {
        false
    } else {
        return Err(Problem::InvalidMode);
    };
    let delivered = match delivery_request(&params, query, path) {
        Ok(delivered) => delivered,
        Err(problem) => {
            return Err(problem);
        },
    };
    let settings = match read_settings(&params) {
        Ok(settings) => settings,
        Err(problem) => {
            return Err(problem);
        },
    };
    let conversions: [&str; 10] = [
        "audio",
        "start",
        "quality",
        "video_mode",
        "video_output",
        "audio_mode",
        "delivery",
        "hls_offset",
        "hls_length",
        "mse_after",
    ];
    assert(conversions@ =~= conversion_names());
    if direct && any_given(&params, &conversions) {
        return Err(Problem::DirectParameter);
    }
    let audio = match params.optional_usize("audio") {
        Ok(Some(n)) => AudioChoice::Track(n),
        Ok(None) => AudioChoice::Default,
        Err(_) => AudioChoice::Invalid,
    };
    let reason = get_or(&params, "reason", "unspecified").to_owned();
    Ok(
        PlaybackRequest {
            item,
            start_seconds,
            request_id,
            session_id,
            direct,
            delivery: delivered.delivery,
            hls_offset: delivered.hls_offset,
            hls_length: delivered.hls_length,
            mse_after: delivered.mse_after,
            quality: settings.quality,
            encoding_preset: settings.encoding_preset,
            video_mode: settings.video_mode,
            video_output: settings.video_output,
            copy_audio: settings.copy_audio,
            reason,
            audio,
        },
    )
}


// -------------------------------------------------------------------- laws

/// A part of a stream is asked for exactly by an offset and a length, and is
/// never larger than its bound; whole streams and playlists have neither.
pub proof fn law_parts_name_their_range(
    delivered: DeliveryRequest,
    entries: Entries,
    query: Seq<char>,
    path: Seq<char>,
)
    requires
        delivery_problem(entries, query, path) is None,
        is_delivery(
            delivered.delivery,
            delivered.hls_offset,
            delivered.hls_length,
            delivered.mse_after,
            entries,
        ),
    ensures
        delivered.hls_offset is Some <==> delivered.hls_length is Some,
        delivered.hls_offset is Some <==> (delivered.delivery == Delivery::HlsInit
            || delivered.delivery == Delivery::HlsSegment || delivered.delivery
            == Delivery::MseInit || delivered.delivery == Delivery::MseSegment),
        delivered.hls_length matches Some(n) ==> 1 <= n <= MAX_HLS_RESOURCE_BYTES,
        delivered.mse_after matches Some(n) ==> n <= MAX_MSE_FRAGMENT_CURSOR
            && delivered.delivery == Delivery::Mse,
{
}

/// A request for the original file asks for no conversion: it begins at the
/// start, and every setting of a conversion is the default.
pub proof fn law_original_is_never_converted(
    request: PlaybackRequest,
    path: Seq<char>,
    query: Seq<char>,
    mime: Option<Seq<char>>,
)
    requires
        media_problem(path, query, mime) is None,
        is_playback_request(request, query_entries(query), path),
        request.direct,
    ensures
        request.start_seconds == 0,
        request.delivery == Delivery::Mp4,
        request.hls_offset is None && request.hls_length is None && request.mse_after is None,
        request.quality == BrowserQuality::Auto,
        request.video_mode == VideoMode::Transcode,
        request.video_output == BrowserVideoOutput::H264Sdr,
        !request.copy_audio,
        request.audio == AudioChoice::Default,
{
    let entries = query_entries(query);
    let names = conversion_names();
    assert(!gives_any(entries, names));
    assert(!gives(entries, names[0]@));
    assert(!gives(entries, names[1]@));
    assert(!gives(entries, names[2]@));
    assert(!gives(entries, names[3]@));
    assert(!gives(entries, names[4]@));
    assert(!gives(entries, names[5]@));
    assert(!gives(entries, names[6]@));
    assert(!gives(entries, names[7]@));
    assert(!gives(entries, names[8]@));
    assert(!gives(entries, names[9]@));
    reveal_strlit("copy");
    reveal_strlit("repair");
    reveal_strlit("transcode");
    assert("copy"@.len() == 4 && "repair"@.len() == 6 && "transcode"@.len() == 9);
}

} // verus!
