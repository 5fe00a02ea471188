//! What requests ask for.
use crate::encoding::utf8_len;
use crate::entry::duration_parts;
use crate::job::{startup_event, status_action, status_request, StatusAction, StatusRequest};
use crate::law::captions::{in_a_row, is_without, lemma_split_row};
use crate::law::search::is_of_audio;
use crate::law::telling::is_of_video;
use crate::library::{
    continue_detail_ids, continue_head, continue_places, continue_request, library_head,
    library_request, shown_places, snapshot_step, ContinueRequest, LibraryRequest, LibraryView,
    PageHead, SnapshotOutcome, SnapshotStep,
};
use crate::listing::{MediaFilter, Sort};
use crate::number::{all_digits, decimal_text, decimal_value, lemma_decimal_text};
use crate::playback::{
    media_request, AudioChoice, BrowserEncodingPreset, BrowserQuality, BrowserVideoOutput, Delivery,
    PlaybackRequest, VideoMode,
};
use crate::problem::Problem;
use crate::query::{
    entries_of, named, parameter, percent_decode, query_entries, query_parts, unescaped,
    unescaped_from, value_of, QueryParams,
};
use crate::route::{
    ends_with, law_id_round_trip, media_id, web_download_id, web_item_id, web_media_id,
    web_transcode_status_id,
};
use crate::text::{is_digit, lemma_find_char, split, trim, CharClass};
use crate::title::{download_request, item_request, ItemRequest};
use vstd::prelude::*;
use vstd::utf8::{encode_scalar, encode_utf8};

verus! {

// ---------------------------------------------------------------- parameters

/// Text that stands for itself in a query.
pub open spec fn is_literal(s: Seq<char>) -> bool {
    forall|i: int|
        0 <= i < s.len() ==> {
            &&& #[trigger] s[i] != '+'
            &&& s[i] != '%'
            &&& s[i] != '&'
            &&& s[i] != '='
        }
}

/// A percent sign takes part in the encoding of a percent sign alone.
proof fn lemma_no_percent(s: Seq<char>)
    requires
        forall|i: int| 0 <= i < s.len() ==> s[i] != '%',
    ensures
        forall|i: int| 0 <= i < encode_utf8(s).len() ==> #[trigger] encode_utf8(s)[i] != 0x25,
    decreases s.len(),
{
    if s.len() > 0 {
        let rest = s.drop_first();
        let code: u32 = s[0] as u32;
        assert(code != 0x25) by {
            assert(s[0] != '%');
            vstd::utf8::char_u32_cast(s[0], code);
        }
        assert forall|i: int| 0 <= i < rest.len() implies rest[i] != '%' by {
            assert(rest[i] == s[i + 1]);
        }
        lemma_no_percent(rest);
        let head = encode_scalar(code);
        assert(code <= 0x7f && code != 0x25 ==> (code & 0x7f) as u8 != 0x25) by (bit_vector);
        assert((0xc0u8 | ((code >> 6) & 0x1f) as u8) != 0x25) by (bit_vector);
        assert((0xe0u8 | ((code >> 12) & 0x0f) as u8) != 0x25) by (bit_vector);
        assert((0xf0u8 | ((code >> 18) & 0x07) as u8) != 0x25) by (bit_vector);
        assert((0x80u8 | (code & 0x3f) as u8) != 0x25) by (bit_vector);
        assert((0x80u8 | ((code >> 6) & 0x3f) as u8) != 0x25) by (bit_vector);
        assert((0x80u8 | ((code >> 12) & 0x3f) as u8) != 0x25) by (bit_vector);
        assert forall|i: int| 0 <= i < head.len() implies #[trigger] head[i] != 0x25 by {}
        let all = encode_utf8(s);
        assert forall|i: int| 0 <= i < all.len() implies #[trigger] all[i] != 0x25 by {
            if i < head.len() {
                assert(all[i] == head[i]);
            } else {
                assert(all[i] == encode_utf8(rest)[i - head.len()]);
            }
        }
    }
}

proof fn lemma_literal_from(bytes: Seq<u8>, i: int)
    requires
        0 <= i <= bytes.len(),
        forall|i: int| 0 <= i < bytes.len() ==> #[trigger] bytes[i] != 0x2b && bytes[i] != 0x25,
    ensures
        unescaped_from(bytes, i) == Some(bytes.skip(i)),
    decreases bytes.len() - i,
{
    if i < bytes.len() {
        lemma_literal_from(bytes, i + 1);
        assert(bytes[i] != 0x2b && bytes[i] != 0x25);
        assert(seq![bytes[i]] + bytes.skip(i + 1) =~= bytes.skip(i));
    } else {
        assert(bytes.skip(i) =~= Seq::<u8>::empty());
    }
}

proof fn lemma_literal(s: Seq<char>)
    requires
        is_literal(s),
    ensures
        unescaped(s) == Some(s),
{
    let bytes = encode_utf8(s);
    crate::download::lemma_no_plus(s);
    lemma_no_percent(s);
    lemma_literal_from(bytes, 0);
    assert(bytes.skip(0) =~= bytes);
    vstd::utf8::encode_utf8_valid_utf8(s);
    vstd::utf8::encode_utf8_decode_utf8(s);
}

/// A parameter as it is written.
pub open spec fn written(pair: (Seq<char>, Seq<char>)) -> Seq<char> {
    pair.0 + seq!['='] + pair.1
}

/// Parameters of distinct names that can be written into a query as they are.
pub open spec fn can_be_written(pairs: Seq<(Seq<char>, Seq<char>)>) -> bool {
    &&& 0 < pairs.len() <= 16
    &&& forall|i: int|
        0 <= i < pairs.len() ==> is_literal((#[trigger] pairs[i]).0) && is_literal(pairs[i].1)
            && pairs[i].0.len() > 0
    &&& forall|i: int, j: int|
        0 <= i < j < pairs.len() ==> (#[trigger] pairs[i]).0 != (#[trigger] pairs[j]).0
}

/// The query of parameters.
pub open spec fn query_of(pairs: Seq<(Seq<char>, Seq<char>)>) -> Seq<char> {
    in_a_row(pairs.map_values(|pair: (Seq<char>, Seq<char>)| written(pair)), '&')
}

proof fn lemma_parameter(pair: (Seq<char>, Seq<char>))
    requires
        is_literal(pair.0),
        is_literal(pair.1),
        pair.0.len() > 0,
    ensures
        parameter(written(pair)) == Some(pair),
        is_without(written(pair), '&'),
{
    let (name, value) = pair;
    let part = written(pair);
    assert forall|i: int| 0 <= i < name.len() implies name[i] != '=' by {}
    lemma_find_char(name, '=', value);
    assert(part.take(name.len() as int) =~= name);
    assert(part.skip(name.len() as int + 1) =~= value);
    lemma_literal(name);
    lemma_literal(value);
    assert forall|i: int| 0 <= i < part.len() implies #[trigger] part[i] != '&' by {
        if i < name.len() {
            assert(part[i] == name[i]);
        } else if i > name.len() {
            assert(part[i] == value[i - name.len() - 1]);
        }
    }
}

proof fn lemma_entries(pairs: Seq<(Seq<char>, Seq<char>)>, n: int)
    requires
        can_be_written(pairs),
        0 <= n <= pairs.len(),
    ensures
        entries_of(pairs.map_values(|pair: (Seq<char>, Seq<char>)| written(pair)), n) == pairs.take(
            n,
        ),
    decreases n,
{
    let parts = pairs.map_values(|pair: (Seq<char>, Seq<char>)| written(pair));
    if n > 0 {
        lemma_entries(pairs, n - 1);
        let before = pairs.take(n - 1);
        assert(parts[n - 1] == written(pairs[n - 1]));
        lemma_parameter(pairs[n - 1]);
        assert(!named(before, pairs[n - 1].0)) by {
            if named(before, pairs[n - 1].0) {
                let i = choose|i: int| 0 <= i < before.len() && (#[trigger] before[i]).0 == pairs[n
                    - 1].0;
                assert(before[i] == pairs[i]);
            }
        }
        assert(pairs.take(n) =~= before.push(pairs[n - 1]));
    } else {
        assert(pairs.take(0) =~= Seq::<(Seq<char>, Seq<char>)>::empty());
    }
}

proof fn lemma_value_at(entries: Seq<(Seq<char>, Seq<char>)>, i: int)
    requires
        0 <= i < entries.len(),
        forall|j: int| 0 <= j < i ==> (#[trigger] entries[j]).0 != entries[i].0,
    ensures
        value_of(entries, entries[i].0) == Some(entries[i].1),
    decreases i,
{
    if i > 0 {
        let rest = entries.skip(1);
        assert(entries[0].0 != entries[i].0);
        assert(rest[i - 1] == entries[i]);
        assert forall|j: int| 0 <= j < i - 1 implies (#[trigger] rest[j]).0 != rest[i - 1].0 by {
            assert(rest[j] == entries[j + 1]);
        }
        lemma_value_at(rest, i - 1);
    }
}

proof fn lemma_no_value(entries: Seq<(Seq<char>, Seq<char>)>, name: Seq<char>)
    requires
        forall|j: int| 0 <= j < entries.len() ==> (#[trigger] entries[j]).0 != name,
    ensures
        value_of(entries, name) is None,
    decreases entries.len(),
{
    if entries.len() > 0 {
        let rest = entries.skip(1);
        assert(entries[0].0 != name);
        assert forall|j: int| 0 <= j < rest.len() implies (#[trigger] rest[j]).0 != name by {
            assert(rest[j] == entries[j + 1]);
        }
        lemma_no_value(rest, name);
    }
}

/// Every parameter of a query is found under its name, with its own value; a name
/// that the query does not have is not found.
pub proof fn law_parameters_are_found_by_name(
    pairs: Seq<(Seq<char>, Seq<char>)>,
    query: &str,
    params: QueryParams,
    name: &str,
    result: Option<&str>,
    i: int,
)
    requires
        can_be_written(pairs),
        query@ == query_of(pairs),
        call_ensures(QueryParams::parse, (query,), params),
        call_ensures(QueryParams::get, (&params, name), result),
    ensures
        0 <= i < pairs.len() && name@ == pairs[i].0 ==> result is Some && result->0@ == pairs[i].1,
        (forall|j: int| 0 <= j < pairs.len() ==> (#[trigger] pairs[j]).0 != name@) ==> result
            is None,
        !params.invalid(),
{
    let parts = pairs.map_values(|pair: (Seq<char>, Seq<char>)| written(pair));
    let n = pairs.len() as int;
    assert forall|i: int| 0 <= i < parts.len() implies is_without(#[trigger] parts[i], '&') by {
        lemma_parameter(pairs[i]);
    }
    lemma_split_row(parts, '&');
    assert(query@.len() > 0) by {
        assert(parts[0] == written(pairs[0]));
        assert(pairs[0].0.len() > 0);
    }
    assert(query_parts(query@) == parts);
    lemma_entries(pairs, n);
    assert(pairs.take(n) =~= pairs);
    assert forall|k: int| 0 <= k < n implies #[trigger] crate::query::accepted(parts, k) by {
        lemma_entries(pairs, k);
        assert(parts[k] == written(pairs[k]));
        lemma_parameter(pairs[k]);
        let before = pairs.take(k);
        if named(before, pairs[k].0) {
            let m = choose|m: int| 0 <= m < before.len() && (#[trigger] before[m]).0 == pairs[k].0;
            assert(before[m] == pairs[m]);
        }
    }
    if 0 <= i < n && name@ == pairs[i].0 {
        lemma_value_at(pairs, i);
    }
    if forall|j: int| 0 <= j < pairs.len() ==> (#[trigger] pairs[j]).0 != name@ {
        lemma_no_value(pairs, name@);
    }
}

/// The value that a query gives under a name, if it gives one.
pub open spec fn given(query: Seq<char>, name: Seq<char>) -> Option<Seq<char>> {
    value_of(query_entries(query), name)
}

/// Whether a query says `name=value`, or where `is_default` holds says nothing of
/// that name.
pub open spec fn says(query: Seq<char>, name: Seq<char>, value: Seq<char>, is_default: bool) -> bool {
    given(query, name) == Some(value) || (is_default && given(query, name) is None)
}

/// Words that are not the same.
proof fn lemma_words()
    ensures
        "auto"@.len() == 4 && "uhd_high"@.len() == 8 && "uhd_optimized"@.len() == 13
            && "full_hd"@.len() == 7 && "data_saver"@.len() == 10 && "sd_480"@.len() == 6
            && "low_360"@.len() == 7 && "full_hd"@[0] == 'f' && "low_360"@[0] == 'l',
        "balanced"@.len() == 8 && "fast_start"@.len() == 10 && "maximum_speed"@.len() == 13,
        "copy"@.len() == 4 && "repair"@.len() == 6 && "transcode"@.len() == 9,
        "h264_sdr"@.len() == 8 && "hevc_hdr10"@.len() == 10,
        "direct"@.len() == 6 && "compatible"@.len() == 10,
{
    reveal_strlit("auto");
    reveal_strlit("uhd_high");
    reveal_strlit("uhd_optimized");
    reveal_strlit("full_hd");
    reveal_strlit("data_saver");
    reveal_strlit("sd_480");
    reveal_strlit("low_360");
    reveal_strlit("balanced");
    reveal_strlit("fast_start");
    reveal_strlit("maximum_speed");
    reveal_strlit("copy");
    reveal_strlit("repair");
    reveal_strlit("transcode");
    reveal_strlit("h264_sdr");
    reveal_strlit("hevc_hdr10");
    reveal_strlit("direct");
    reveal_strlit("compatible");
}

/// A request to play has the quality, the preset and the modes that its query
/// names, and the usual ones where it names none.
pub proof fn law_playback_settings_are_the_named_ones(
    path: &str,
    query: &str,
    mime: Option<&str>,
    request: PlaybackRequest,
)
    requires
        call_ensures(media_request, (path, query, mime), Ok(request)),
    ensures
        request.quality == BrowserQuality::Auto <==> says(query@, "quality"@, "auto"@, true),
        request.quality == BrowserQuality::UhdHigh <==> says(
            query@,
            "quality"@,
            "uhd_high"@,
            false,
        ),
        request.quality == BrowserQuality::UhdOptimized <==> says(
            query@,
            "quality"@,
            "uhd_optimized"@,
            false,
        ),
        request.quality == BrowserQuality::FullHd <==> says(query@, "quality"@, "full_hd"@, false),
        request.quality == BrowserQuality::DataSaver <==> says(
            query@,
            "quality"@,
            "data_saver"@,
            false,
        ),
        request.quality == BrowserQuality::Sd480 <==> says(query@, "quality"@, "sd_480"@, false),
        request.quality == BrowserQuality::Low360 <==> says(query@, "quality"@, "low_360"@, false),
        request.encoding_preset == BrowserEncodingPreset::Balanced <==> says(
            query@,
            "encoding_preset"@,
            "balanced"@,
            true,
        ),
        request.encoding_preset == BrowserEncodingPreset::FastStart <==> says(
            query@,
            "encoding_preset"@,
            "fast_start"@,
            false,
        ),
        request.encoding_preset == BrowserEncodingPreset::MaximumSpeed <==> says(
            query@,
            "encoding_preset"@,
            "maximum_speed"@,
            false,
        ),
        request.video_mode == VideoMode::Copy <==> says(query@, "video_mode"@, "copy"@, false),
        request.video_mode == VideoMode::Repair <==> says(query@, "video_mode"@, "repair"@, false),
        request.video_mode == VideoMode::Transcode <==> says(
            query@,
            "video_mode"@,
            "transcode"@,
            true,
        ),
        request.video_output == BrowserVideoOutput::H264Sdr <==> says(
            query@,
            "video_output"@,
            "h264_sdr"@,
            true,
        ),
        request.video_output == BrowserVideoOutput::HevcHdr10 <==> says(
            query@,
            "video_output"@,
            "hevc_hdr10"@,
            false,
        ),
        request.copy_audio <==> says(query@, "audio_mode"@, "copy"@, false),
        request.direct <==> says(query@, "mode"@, "direct"@, false),
        given(query@, "reason"@) is Some ==> request.reason@ == given(query@, "reason"@)->0,
        given(query@, "reason"@) is None ==> request.reason@ == "unspecified"@,
{
    lemma_words();
}

/// Whether a number that is read is the one that a query gives.
pub open spec fn is_number(read: Option<nat>, query: Seq<char>, name: Seq<char>) -> bool {
    match given(query, name) {
        None => read is None,
        Some(text) => text.len() > 0 && all_digits(text) ==> read == Some(decimal_value(text)),
    }
}

/// A request to play has the numbers that its query gives: where to begin, which
/// request and which session it is, which part of the stream it is for, and which
/// track is played.
pub proof fn law_playback_numbers_are_the_given_ones(
    path: &str,
    query: &str,
    mime: Option<&str>,
    request: PlaybackRequest,
)
    requires
        call_ensures(media_request, (path, query, mime), Ok(request)),
    ensures
        given(query@, "start"@) is None ==> request.start_seconds == 0,
        given(query@, "start"@) is Some ==> is_number(
            Some(request.start_seconds as nat),
            query@,
            "start"@,
        ),
        is_number(crate::playback::as_nat(request.request_id), query@, "request"@),
        is_number(crate::playback::as_nat(request.session_id), query@, "session"@),
        is_number(crate::playback::as_nat(request.hls_offset), query@, "hls_offset"@),
        is_number(crate::playback::as_nat(request.hls_length), query@, "hls_length"@),
        is_number(crate::playback::as_index(request.mse_after), query@, "mse_after"@),
        given(query@, "audio"@) is None <==> request.audio == AudioChoice::Default,
        request.audio matches AudioChoice::Track(n) ==> is_number(
            Some(n as nat),
            query@,
            "audio"@,
        ),
        given(query@, "audio"@) matches Some(text) ==> (text.len() > 0 && all_digits(text)
            && decimal_value(text) <= usize::MAX ==> request.audio == AudioChoice::Track(
            decimal_value(text) as usize,
        )),
{
    let names = seq!["start", "request", "session", "hls_offset", "hls_length", "mse_after", "audio"];
    assert forall|k: int| 0 <= k < names.len() implies (given(query@, #[trigger] names[k]@) matches Some(
        text,
    ) ==> (text.len() > 0 && all_digits(text) ==> is_digit(text[0]))) by {}
    assert(names[0]@ == "start"@ && names[1]@ == "request"@ && names[2]@ == "session"@ && names[3]@
        == "hls_offset"@ && names[4]@ == "hls_length"@ && names[5]@ == "mse_after"@ && names[6]@
        == "audio"@);
}

/// A part of a stream is delivered as its query says, from a path of the kind that
/// goes with it.
pub proof fn law_deliveries_are_the_named_ones(
    path: &str,
    query: &str,
    mime: Option<&str>,
    request: PlaybackRequest,
)
    requires
        call_ensures(media_request, (path, query, mime), Ok(request)),
    ensures
        request.delivery == Delivery::Mp4 <==> says(query@, "delivery"@, "mp4"@, true),
        request.delivery == Delivery::Hls <==> says(query@, "delivery"@, "hls"@, false),
        request.delivery == Delivery::HlsInit <==> says(query@, "delivery"@, "hls_init"@, false),
        request.delivery == Delivery::HlsSegment <==> says(
            query@,
            "delivery"@,
            "hls_segment"@,
            false,
        ),
        request.delivery == Delivery::Mse <==> says(query@, "delivery"@, "mse"@, false),
        request.delivery == Delivery::MseInit <==> says(query@, "delivery"@, "mse_init"@, false),
        request.delivery == Delivery::MseSegment <==> says(
            query@,
            "delivery"@,
            "mse_segment"@,
            false,
        ),
        request.delivery == Delivery::Mp4 || request.delivery == Delivery::HlsInit
            || request.delivery == Delivery::MseInit ==> ends_with(path@, ".mp4"@),
        request.delivery == Delivery::Hls || request.delivery == Delivery::Mse ==> ends_with(
            path@,
            ".m3u8"@,
        ),
        request.delivery == Delivery::HlsSegment || request.delivery == Delivery::MseSegment
            ==> ends_with(path@, ".m4s"@),
{
    reveal_strlit("mp4");
    reveal_strlit("hls");
    reveal_strlit("hls_init");
    reveal_strlit("hls_segment");
    reveal_strlit("mse");
    reveal_strlit("mse_init");
    reveal_strlit("mse_segment");
    assert("mp4"@[1] == 'p' && "hls"@[1] == 'l' && "mse"@[1] == 's');
    assert("hls_init"@[0] == 'h' && "mse_init"@[0] == 'm');
    assert("hls_segment"@[0] == 'h' && "mse_segment"@[0] == 'm');
    assert("mp4"@.len() == 3 && "hls"@.len() == 3 && "mse"@.len() == 3 && "hls_init"@.len() == 8
        && "mse_init"@.len() == 8 && "hls_segment"@.len() == 11 && "mse_segment"@.len() == 11);
}

proof fn lemma_media_path(id: i64, suffix: Seq<char>)
    requires
        id > 0,
        suffix == ".mp4"@ || suffix == ".m3u8"@ || suffix == ".m4s"@,
    ensures
        media_id("/web/media/"@ + decimal_text(id as nat) + suffix) == Some(id),
{
    reveal_strlit("/web/media/");
    reveal_strlit(".mp4");
    reveal_strlit(".m3u8");
    reveal_strlit(".m4s");
    let digits = decimal_text(id as nat);
    let name = digits + suffix;
    let prefix = "/web/media/"@;
    let path = prefix + digits + suffix;
    law_id_round_trip(id);
    assert(path.subrange(0, prefix.len() as int) =~= prefix);
    assert(path.skip(prefix.len() as int) =~= name);
    let k = digits.len() as int;
    assert(name.subrange(k, k + suffix.len()) =~= suffix);
    assert(name.take(k) =~= digits);
    let last = name.len() - 1;
    assert(name[last] == suffix[suffix.len() - 1]);
    if ends_with(name, ".mp4"@) {
        assert(name.subrange(name.len() - 4, name.len() as int)[3] == name[last]);
        assert(".mp4"@[3] == '4');
    }
    if ends_with(name, ".m3u8"@) {
        assert(name.subrange(name.len() - 5, name.len() as int)[4] == name[last]);
        assert(".m3u8"@[4] == '8');
    }
    assert(".m4s"@[3] == 's' && ".m3u8"@[4] == '8' && ".mp4"@[3] == '4');
}

/// A request to play is for the title that its path names.
pub proof fn law_the_path_names_the_title(
    path: &str,
    query: &str,
    mime: Option<&str>,
    request: PlaybackRequest,
    id: i64,
    suffix: Seq<char>,
)
    requires
        call_ensures(media_request, (path, query, mime), Ok(request)),
        id > 0,
        path@ == "/web/media/"@ + decimal_text(id as nat) + suffix,
        suffix == ".mp4"@ || suffix == ".m3u8"@ || suffix == ".m4s"@,
    ensures
        request.item == id,
{
    lemma_media_path(id, suffix);
}

/// Only what is there and can be played is played, and a plain request for it is
/// met.
pub proof fn law_what_can_be_played_is_played(
    path: &str,
    query: &str,
    mime: Option<&str>,
    result: Result<PlaybackRequest, Problem>,
    id: i64,
)
    requires
        call_ensures(media_request, (path, query, mime), result),
        id > 0,
        path@ == "/web/media/"@ + decimal_text(id as nat) + ".mp4"@,
    ensures
        mime is None <==> result == Err::<PlaybackRequest, Problem>(Problem::MediaMissing),
        mime is Some && !(is_of_video(mime->0@) || is_of_audio(mime->0@)) <==> result == Err::<
            PlaybackRequest,
            Problem,
        >(Problem::MediaUnsupported),
        mime is Some && (is_of_video(mime->0@) || is_of_audio(mime->0@)) && query@.len() == 0
            ==> result is Ok,
{
    lemma_media_path(id, ".mp4"@);
    reveal_strlit("video/");
    reveal_strlit("audio/");
    assert("video/"@ =~= seq!['v', 'i', 'd', 'e', 'o', '/']);
    assert("audio/"@ =~= seq!['a', 'u', 'd', 'i', 'o', '/']);
    if query@.len() == 0 {
        let entries = query_entries(query@);
        assert(entries =~= Seq::<(Seq<char>, Seq<char>)>::empty());
        reveal_strlit("unspecified");
        reveal_strlit(".mp4");
        let n = path@.len() as int;
        assert(path@.subrange(n - 4, n) =~= ".mp4"@);
        let reason = "unspecified"@;
        assert forall|i: int| 0 <= i < reason.len() implies (CharClass::Alphanumeric.has(
            #[trigger] reason[i],
        ) || reason[i] == '_') by {}
        let names = crate::playback::conversion_names();
        assert forall|i: int| 0 <= i < names.len() implies !crate::playback::gives(
            entries,
            (#[trigger] names[i])@,
        ) by {}
    }
}

// ------------------------------------------------------------------- library

/// A page of the library is asked for with the view, the media, the order and the
/// place that the parameters name, and with the usual ones where they name none.
pub proof fn law_library_requests_are_the_named_ones(
    params: &QueryParams,
    generation: u32,
    request: LibraryRequest,
)
    requires
        call_ensures(library_request, (params, generation), Ok(request)),
    ensures
        ({
            let view = value_of(params.entries(), "view"@);
            let kind = value_of(params.entries(), "kind"@);
            let sort = value_of(params.entries(), "sort"@);
            &&& request.view == LibraryView::Folders <==> view is None || view == Some("folders"@)
            &&& request.view == LibraryView::Library <==> view == Some("library"@)
            &&& request.filter == MediaFilter::All <==> kind is None || kind == Some("all"@)
            &&& request.filter == MediaFilter::Video <==> kind == Some("video"@)
            &&& request.filter == MediaFilter::Audio <==> kind == Some("audio"@)
            &&& request.sort == Sort::Title <==> sort is None || sort == Some("title"@)
            &&& request.sort == Sort::DateDescending <==> sort == Some("date_desc"@)
            &&& request.sort == Sort::Episode <==> sort == Some("episode"@)
        }),
{
    reveal_strlit("folders");
    reveal_strlit("library");
    reveal_strlit("all");
    reveal_strlit("video");
    reveal_strlit("audio");
    reveal_strlit("title");
    reveal_strlit("date_desc");
    reveal_strlit("episode");
    assert("folders"@[0] == 'f' && "library"@[0] == 'l');
    assert("video"@[0] == 'v' && "audio"@[0] == 'a' && "all"@.len() == 3);
    assert("title"@.len() == 5 && "date_desc"@.len() == 9 && "episode"@.len() == 7);
}

/// The place, the size and the generation of a page are those that the parameters
/// give; sixty titles from the start where they give none. The search text is what
/// was given, without the white space around it.
pub proof fn law_library_numbers_are_the_given_ones(
    params: &QueryParams,
    generation: u32,
    request: LibraryRequest,
)
    requires
        call_ensures(library_request, (params, generation), Ok(request)),
    ensures
        ({
            let offset = value_of(params.entries(), "offset"@);
            let limit = value_of(params.entries(), "limit"@);
            let asked = value_of(params.entries(), "generation"@);
            let folder = value_of(params.entries(), "folder"@);
            let text = value_of(params.entries(), "q"@);
            &&& offset is None ==> request.offset == 0
            &&& offset is Some && offset->0.len() > 0 && all_digits(offset->0) ==> request.offset
                == decimal_value(offset->0)
            &&& limit is None ==> request.limit == 60
            &&& limit is Some && limit->0.len() > 0 && all_digits(limit->0) ==> request.limit
                == decimal_value(limit->0)
            &&& 1 <= request.limit <= 200
            &&& asked is None ==> request.generation is None
            &&& asked is Some && asked->0.len() > 0 && all_digits(asked->0) ==> request.generation
                == Some(generation) && decimal_value(asked->0) == generation
            &&& folder is None ==> request.folder is None
            &&& folder is Some && folder->0.len() > 0 ==> request.folder is Some
                && request.folder->0@ == folder->0
            &&& text is None ==> request.query@.len() == 0
            &&& text is Some ==> request.query@ == trim(text->0, CharClass::White)
        }),
{
    let entries = params.entries();
    let offset = value_of(entries, "offset"@);
    let limit = value_of(entries, "limit"@);
    let asked = value_of(entries, "generation"@);
    if offset is Some && offset->0.len() > 0 && all_digits(offset->0) {
        assert(is_digit(offset->0[0]));
    }
    if limit is Some && limit->0.len() > 0 && all_digits(limit->0) {
        assert(is_digit(limit->0[0]));
    }
    if asked is Some && asked->0.len() > 0 && all_digits(asked->0) {
        assert(is_digit(asked->0[0]));
    }
    if value_of(entries, "q"@) is None {
        crate::law::clock::lemma_trim_nothing(Seq::empty(), CharClass::White);
    }
}

/// A request for the library that names nothing wrong is met, and each that names
/// something wrong is refused for it.
pub proof fn law_library_requests_are_refused_for_a_reason(
    params: &QueryParams,
    generation: u32,
    result: Result<LibraryRequest, Problem>,
)
    requires
        call_ensures(library_request, (params, generation), result),
    ensures
        ({
            let entries = params.entries();
            let refused = |problem: Problem| result == Err::<LibraryRequest, Problem>(problem);
            let limit = value_of(entries, "limit"@);
            let asked = value_of(entries, "generation"@);
            &&& params.invalid() ==> refused(Problem::LibraryParameter)
            &&& !params.invalid() && entries.len() == 0 ==> result is Ok
            &&& refused(Problem::InvalidLimit) ==> limit is Some && !(limit->0.len() > 0
                && all_digits(limit->0) && 1 <= decimal_value(limit->0) <= 200)
            &&& refused(Problem::CatalogChanged) ==> asked is Some && !(asked->0.len() > 0
                && all_digits(asked->0) && decimal_value(asked->0) == generation)
            &&& refused(Problem::InvalidQuery) ==> value_of(entries, "q"@) is Some && utf8_len(
                trim(value_of(entries, "q"@)->0, CharClass::White),
            ) > 256
            &&& result is Ok ==> utf8_len(result->Ok_0.query@) <= 256
            &&& result is Ok && asked is Some && asked->0.len() > 0 && all_digits(asked->0)
                ==> decimal_value(asked->0) == generation
        }),
{
    let entries = params.entries();
    let limit = value_of(entries, "limit"@);
    let asked = value_of(entries, "generation"@);
    if limit is Some && limit->0.len() > 0 && all_digits(limit->0) {
        assert(is_digit(limit->0[0]));
    }
    if asked is Some && asked->0.len() > 0 && all_digits(asked->0) {
        assert(is_digit(asked->0[0]));
    }
    reveal_strlit("folders");
    reveal_strlit("all");
    reveal_strlit("title");
    crate::law::clock::lemma_trim_nothing(Seq::empty(), CharClass::White);
    assert(encode_utf8(Seq::<char>::empty()) =~= Seq::<u8>::empty());
}

// ------------------------------------------------------------------ continue

proof fn lemma_id_texts(ids: Seq<i64>)
    requires
        0 < ids.len(),
        forall|i: int| 0 <= i < ids.len() ==> #[trigger] ids[i] > 0,
    ensures
        ({
            let parts = ids.map_values(|id: i64| decimal_text(id as nat));
            &&& split(in_a_row(parts, ','), seq![',']) == parts
            &&& in_a_row(parts, ',').len() > 0
        }),
{
    let parts = ids.map_values(|id: i64| decimal_text(id as nat));
    assert forall|i: int| 0 <= i < parts.len() implies is_without(#[trigger] parts[i], ',') by {
        let digits = decimal_text(ids[i] as nat);
        lemma_decimal_text(ids[i] as nat);
        assert forall|j: int| 0 <= j < digits.len() implies #[trigger] digits[j] != ',' by {
            assert(is_digit(digits[j]));
        }
    }
    lemma_split_row(parts, ',');
    lemma_decimal_text(ids[0] as nat);
    assert(parts[0] == decimal_text(ids[0] as nat));
}

/// The titles to continue are those whose numbers are listed, in order: up to a
/// hundred of them, each once.
pub proof fn law_titles_to_continue_are_the_listed_ones(
    ids: Seq<i64>,
    value: &str,
    result: Result<Vec<i64>, ()>,
)
    requires
        call_ensures(continue_detail_ids, (value,), result),
        0 < ids.len(),
        forall|i: int| 0 <= i < ids.len() ==> #[trigger] ids[i] > 0,
        value@ == in_a_row(ids.map_values(|id: i64| decimal_text(id as nat)), ','),
    ensures
        ids.no_duplicates() && ids.len() <= 100 ==> result is Ok && result->Ok_0@ == ids,
        !ids.no_duplicates() || ids.len() > 100 ==> result is Err,
{
    let parts = ids.map_values(|id: i64| decimal_text(id as nat));
    lemma_id_texts(ids);
    assert forall|i: int| 0 <= i < ids.len() implies crate::route::id_of(#[trigger] parts[i])
        == Some(ids[i]) by {
        law_id_round_trip(ids[i]);
    }
    if result is Ok {
        assert(result->Ok_0@ =~= ids);
        if !ids.no_duplicates() {
            let (i, j) = choose|i: int, j: int|
                0 <= i < ids.len() && 0 <= j < ids.len() && i != j && ids[i] == ids[j];
            if i < j {
                assert(crate::route::id_of(parts[i]) != crate::route::id_of(parts[j]));
            } else {
                assert(crate::route::id_of(parts[j]) != crate::route::id_of(parts[i]));
            }
        }
    } else if ids.no_duplicates() && ids.len() <= 100 {
        assert(crate::library::all_ids(parts));
        assert(crate::library::distinct_parts(parts));
    }
}

/// Nothing is continued where nothing is listed.
pub proof fn law_nothing_is_continued_of_nothing(value: &str, result: Result<Vec<i64>, ()>)
    requires
        call_ensures(continue_detail_ids, (value,), result),
        value@.len() == 0,
    ensures
        result is Ok,
        result->Ok_0@.len() == 0,
{
}

/// A request to continue is for the titles that its list of numbers gives.
pub proof fn law_continue_requests_list_titles(
    params: &QueryParams,
    generation: u32,
    request: ContinueRequest,
    value: &str,
    ids: Vec<i64>,
)
    requires
        call_ensures(continue_request, (params, generation), Ok(request)),
        value_of(params.entries(), "ids"@) == Some(value@),
        call_ensures(continue_detail_ids, (value,), Ok(ids)),
    ensures
        request.ids@ == ids@,
        request.generation is Some ==> request.generation == Some(generation),
{
}

proof fn lemma_shown_places(mimes: Seq<Option<String>>, n: int)
    requires
        0 <= n <= mimes.len() <= usize::MAX,
    ensures
        ({
            let places = shown_places(mimes, n);
            &&& forall|p: int, q: int|
                0 <= p < q < places.len() ==> #[trigger] places[p] < #[trigger] places[q]
            &&& forall|p: int| 0 <= p < places.len() ==> (#[trigger] places[p]) < n
            &&& forall|i: usize|
                #[trigger] places.contains(i) <==> i < n && mimes[i as int] is Some
                    && crate::catalog::is_playable(mimes[i as int]->0@)
        }),
    decreases n,
{
    if n > 0 {
        lemma_shown_places(mimes, n - 1);
        let before = shown_places(mimes, n - 1);
        let places = shown_places(mimes, n);
        let last = (n - 1) as usize;
        assert forall|i: usize| #[trigger] places.contains(i) <==> i < n && mimes[i as int] is Some
            && crate::catalog::is_playable(mimes[i as int]->0@) by {
            if places.len() > before.len() {
                assert(places == before.push(last));
                if before.contains(i) {
                    let k = choose|k: int| 0 <= k < before.len() && before[k] == i;
                    assert(places[k] == i);
                }
                if i == last {
                    assert(places[before.len() as int] == i);
                }
                if places.contains(i) {
                    let k = choose|k: int| 0 <= k < places.len() && places[k] == i;
                    if k < before.len() {
                        assert(before[k] == i);
                    }
                }
            }
        }
    }
}

/// Of the titles to continue, those that are still there and can be played are
/// shown, in the order in which they were asked for.
pub proof fn law_titles_to_continue_are_shown(mimes: &[Option<String>], places: Vec<usize>, i: usize)
    requires
        call_ensures(continue_places, (mimes,), places),
    ensures
        places@.contains(i) <==> i < mimes@.len() && mimes@[i as int] is Some && (is_of_video(
            mimes@[i as int]->0@,
        ) || is_of_audio(mimes@[i as int]->0@)),
        forall|p: int, q: int|
            0 <= p < q < places@.len() ==> #[trigger] places@[p] < #[trigger] places@[q],
{
    assert(mimes.len() <= usize::MAX);
    lemma_shown_places(mimes@, mimes@.len() as int);
    reveal_strlit("video/");
    reveal_strlit("audio/");
    assert("video/"@ =~= seq!['v', 'i', 'd', 'e', 'o', '/']);
    assert("audio/"@ =~= seq!['a', 'u', 'd', 'i', 'o', '/']);
}

/// A page that was read is used exactly where it is of the current catalog and of
/// the one that was asked for; one that is not is read again, up to three times in
/// all, unless the catalog is not the one that was asked for.
pub proof fn law_snapshots_are_of_the_current_catalog(
    attempt: usize,
    outcome: SnapshotOutcome,
    requested: Option<u32>,
    generation: u32,
    step: SnapshotStep,
)
    requires
        call_ensures(snapshot_step, (attempt, outcome, requested, generation), step),
    ensures
        ({
            let wanted = requested is None || requested == Some(generation);
            let current = outcome == SnapshotOutcome::Absent || outcome == SnapshotOutcome::Page(
                generation,
            );
            &&& step == SnapshotStep::Use <==> current && wanted
            &&& step == SnapshotStep::Retry <==> !current && attempt < 2
            &&& step matches SnapshotStep::Refuse(problem) ==> problem == Problem::CatalogChanged
        }),
{
}

// -------------------------------------------------------------------- titles

/// The details of a title, and its original file, are asked for by its number.
pub proof fn law_titles_are_asked_for_by_number(
    id: i64,
    query: &str,
    item_path: &str,
    known: bool,
    item: Result<ItemRequest, Problem>,
    download_path: &str,
    none: &str,
    mime: Option<&str>,
    download: Result<i64, Problem>,
)
    requires
        id > 0,
        item_path@ == "/api/web/item/"@ + decimal_text(id as nat),
        call_ensures(item_request, (query, item_path, known), item),
        download_path@ == "/web/download/"@ + decimal_text(id as nat),
        none@.len() == 0,
        call_ensures(download_request, (download_path, none, mime), download),
    ensures
        item is Ok ==> item->Ok_0.id == id && known,
        item is Ok ==> (item->Ok_0.enrich <==> given(query@, "enrich"@) == Some("1"@)),
        query@.len() == 0 && known ==> item is Ok,
        query@.len() == 0 && !known ==> item == Err::<ItemRequest, Problem>(Problem::MediaMissing),
        mime is Some && is_of_video(mime->0@) ==> download == Ok::<i64, Problem>(id),
        mime is Some && !is_of_video(mime->0@) ==> download == Err::<i64, Problem>(
            Problem::DownloadUnsupported,
        ),
        mime is None ==> download == Err::<i64, Problem>(Problem::MediaMissing),
{
    let digits = decimal_text(id as nat);
    law_id_round_trip(id);
    assert(item_path@.subrange(0, "/api/web/item/"@.len() as int) =~= "/api/web/item/"@);
    assert(item_path@.skip("/api/web/item/"@.len() as int) =~= digits);
    assert(download_path@.subrange(0, "/web/download/"@.len() as int) =~= "/web/download/"@);
    assert(download_path@.skip("/web/download/"@.len() as int) =~= digits);
    reveal_strlit("video/");
    assert("video/"@ =~= seq!['v', 'i', 'd', 'e', 'o', '/']);
    reveal_strlit("0");
    reveal_strlit("1");
    assert("0"@[0] == '0' && "1"@[0] == '1');
}

// --------------------------------------------------------------- conversions

/// A conversion is looked at, cancelled or reported on as the method of the
/// request says, and only for the title of its path and the request of its query.
pub proof fn law_conversions_are_asked_about(
    method: &str,
    query: &str,
    path: &str,
    known_event: bool,
    id: i64,
    request: StatusRequest,
    action: StatusAction,
)
    requires
        call_ensures(status_request, (method, query, path, known_event), Ok(request)),
        call_ensures(status_action, (request, true, true), Ok(action)),
        id > 0,
        path@ == "/api/web/transcode/"@ + decimal_text(id as nat),
    ensures
        request.item == id,
        is_number(crate::playback::as_nat(request.request_id), query@, "request"@),
        is_number(crate::playback::as_nat(request.session_id), query@, "session"@),
        method@ == "DELETE"@ ==> request.request_id is Some && action == (StatusAction::Cancel {
            request_id: request.request_id->0,
        }),
        method@ == "POST"@ ==> request.request_id is Some && request.session_id is Some && action
            == (StatusAction::Report {
            request_id: request.request_id->0,
            session_id: request.session_id->0,
        }) && given(query@, "event"@) is Some && known_event,
        method@ == "GET"@ || method@ == "HEAD"@ ==> action == if request.request_id is Some {
            StatusAction::KeepAlive { request_id: request.request_id->0 }
        } else {
            StatusAction::Look
        },
{
    let digits = decimal_text(id as nat);
    law_id_round_trip(id);
    let prefix = "/api/web/transcode/"@;
    assert(path@.subrange(0, prefix.len() as int) =~= prefix);
    assert(path@.skip(prefix.len() as int) =~= digits);
    reveal_strlit("DELETE");
    reveal_strlit("POST");
    reveal_strlit("GET");
    reveal_strlit("HEAD");
    let (d, p, g, h) = (
        crate::text::lowered("DELETE"@),
        crate::text::lowered("POST"@),
        crate::text::lowered("GET"@),
        crate::text::lowered("HEAD"@),
    );
    assert(d.len() == 6 && p.len() == 4 && g.len() == 3 && h.len() == 4);
    assert(p[0] == 'p' && h[0] == 'h');
    let numbers = seq!["request", "session"];
    assert forall|k: int| 0 <= k < numbers.len() implies (given(
        query@,
        #[trigger] numbers[k]@,
    ) matches Some(text) ==> (text.len() > 0 && all_digits(text) ==> is_digit(text[0]))) by {}
    assert(numbers[0]@ == "request"@ && numbers[1]@ == "session"@);
}

// ------------------------------------------------------------------ refusals

proof fn lemma_named(entries: Seq<(Seq<char>, Seq<char>)>, name: Seq<char>)
    requires
        value_of(entries, name) is Some,
    ensures
        exists|i: int| 0 <= i < entries.len() && (#[trigger] entries[i]).0 == name,
    decreases entries.len(),
{
    if entries[0].0 != name {
        let rest = entries.skip(1);
        lemma_named(rest, name);
        let i = choose|i: int| 0 <= i < rest.len() && (#[trigger] rest[i]).0 == name;
        assert(entries[i + 1] == rest[i]);
    }
}

/// Whether a text is a word of letters, digits and underscores, of a usual length.
pub open spec fn is_word(text: Seq<char>) -> bool {
    &&& 0 < text.len() <= 64
    &&& forall|i: int|
        0 <= i < text.len() ==> 'a' <= #[trigger] text[i] <= 'z' || 'A' <= text[i] <= 'Z' || '0'
            <= text[i] <= '9' || text[i] == '_'
}

/// A reason to convert is a word; a request with any other reason is not met, and
/// none is refused for a reason that is a word.
pub proof fn law_reasons_are_words(
    path: &str,
    query: &str,
    mime: Option<&str>,
    result: Result<PlaybackRequest, Problem>,
)
    requires
        call_ensures(media_request, (path, query, mime), result),
    ensures
        result is Ok && given(query@, "reason"@) is Some ==> is_word(given(query@, "reason"@)->0),
        result == Err::<PlaybackRequest, Problem>(Problem::InvalidReason) ==> given(
            query@,
            "reason"@,
        ) is Some && !is_word(given(query@, "reason"@)->0),
{
    reveal_strlit("unspecified");
    let reason = match given(query@, "reason"@) {
        Some(reason) => reason,
        None => "unspecified"@,
    };
    assert(is_word("unspecified"@));
    if crate::playback::is_reason(reason) {
        assert forall|i: int| 0 <= i < reason.len() implies 'a' <= #[trigger] reason[i] <= 'z' || 'A'
            <= reason[i] <= 'Z' || '0' <= reason[i] <= '9' || reason[i] == '_' by {
            assert(CharClass::Alphanumeric.has(reason[i]) || reason[i] == '_');
        }
        assert(is_word(reason));
    } else if is_word(reason) {
        assert forall|i: int| 0 <= i < reason.len() implies (CharClass::Alphanumeric.has(
            #[trigger] reason[i],
        ) || reason[i] == '_') by {}
    }
}

/// Whether a query gives something else than one of those words.
pub open spec fn says_another(query: Seq<char>, name: Seq<char>, words: Seq<Seq<char>>) -> bool {
    given(query, name) is Some && forall|i: int|
        0 <= i < words.len() ==> given(query, name) != Some(#[trigger] words[i])
}

/// Whether a query gives something that is no number up to `max`.
pub open spec fn gives_no_number(query: Seq<char>, name: Seq<char>, max: nat) -> bool {
    given(query, name) is Some && !(given(query, name)->0.len() > 0 && all_digits(
        given(query, name)->0,
    ) && decimal_value(given(query, name)->0) <= max)
}

/// A request to play is refused for what its query says, and only for that.
pub proof fn law_playback_is_refused_for_what_is_said(
    path: &str,
    query: &str,
    mime: Option<&str>,
    problem: Problem,
)
    requires
        call_ensures(media_request, (path, query, mime), Err(problem)),
    ensures
        problem == Problem::InvalidStart ==> gives_no_number(
            query@,
            "start"@,
            usize::MAX as nat,
        ),
        problem == Problem::InvalidRequest ==> gives_no_number(
            query@,
            "request"@,
            u64::MAX as nat,
        ),
        problem == Problem::InvalidSession ==> gives_no_number(
            query@,
            "session"@,
            u64::MAX as nat,
        ),
        problem == Problem::InvalidMode ==> says_another(
            query@,
            "mode"@,
            seq!["direct"@, "compatible"@],
        ),
        problem == Problem::InvalidQuality ==> says_another(
            query@,
            "quality"@,
            seq![
                "auto"@,
                "uhd_high"@,
                "uhd_optimized"@,
                "full_hd"@,
                "data_saver"@,
                "sd_480"@,
                "low_360"@,
            ],
        ),
        problem == Problem::InvalidEncodingPreset ==> says_another(
            query@,
            "encoding_preset"@,
            seq!["balanced"@, "fast_start"@, "maximum_speed"@],
        ),
        problem == Problem::InvalidVideoMode ==> says_another(
            query@,
            "video_mode"@,
            seq!["copy"@, "repair"@, "transcode"@],
        ),
        problem == Problem::InvalidVideoOutput ==> says_another(
            query@,
            "video_output"@,
            seq!["h264_sdr"@, "hevc_hdr10"@],
        ),
        problem == Problem::InvalidAudioMode ==> says_another(
            query@,
            "audio_mode"@,
            seq!["copy"@, "transcode"@],
        ),
        problem == Problem::DirectParameter ==> given(query@, "mode"@) == Some("direct"@),
        problem == Problem::OutputIsAutomatic ==> given(query@, "video_output"@) is Some && given(
            query@,
            "video_mode"@,
        ) is Some,
{
    let entries = query_entries(query@);
    lemma_words();
    let numbers = seq!["start", "request", "session"];
    assert forall|k: int| 0 <= k < numbers.len() implies (given(
        query@,
        #[trigger] numbers[k]@,
    ) matches Some(text) ==> (text.len() > 0 && all_digits(text) ==> is_digit(text[0]))) by {}
    assert(numbers[0]@ == "start"@ && numbers[1]@ == "request"@ && numbers[2]@ == "session"@);
    if problem == Problem::OutputIsAutomatic {
        assert(crate::playback::video_mode_named("transcode"@) == Some(VideoMode::Transcode));
    }
}

/// A parameter that playing does not know is refused.
pub proof fn law_unknown_parameters_are_refused(
    path: &str,
    query: &str,
    mime: Option<&str>,
    result: Result<PlaybackRequest, Problem>,
    name: Seq<char>,
)
    requires
        call_ensures(media_request, (path, query, mime), result),
        given(query@, name) is Some,
        name != "audio"@ && name != "start"@ && name != "quality"@ && name != "encoding_preset"@,
        name != "reason"@ && name != "request"@ && name != "session"@ && name != "mode"@,
        name != "video_mode"@ && name != "video_output"@ && name != "audio_mode"@,
        name != "delivery"@ && name != "hls_offset"@ && name != "hls_length"@ && name
            != "mse_after"@,
    ensures
        result is Err,
{
    let entries = query_entries(query@);
    lemma_named(entries, name);
    let i = choose|i: int| 0 <= i < entries.len() && (#[trigger] entries[i]).0 == name;
    let names = crate::playback::playback_names();
    assert(!crate::query::is_allowed(entries[i].0, names)) by {
        if crate::query::is_allowed(entries[i].0, names) {
            let j = choose|j: int| 0 <= j < names.len() && entries[i].0 == (#[trigger] names[j])@;
            assert(names[j]@ == name);
        }
    }
}

/// A request for the original file says nothing of a conversion.
pub proof fn law_originals_are_asked_for_plainly(
    path: &str,
    query: &str,
    mime: Option<&str>,
    request: PlaybackRequest,
)
    requires
        call_ensures(media_request, (path, query, mime), Ok(request)),
        request.direct,
    ensures
        given(query@, "audio"@) is None,
        given(query@, "start"@) is None,
        given(query@, "quality"@) is None,
        given(query@, "video_mode"@) is None,
        given(query@, "video_output"@) is None,
        given(query@, "audio_mode"@) is None,
        given(query@, "delivery"@) is None,
        request.start_seconds == 0,
        request.audio == AudioChoice::Default,
        request.delivery == Delivery::Mp4,
        !request.copy_audio,
{
    crate::playback::law_original_is_never_converted(
        request,
        path@,
        query@,
        crate::problem::optional_text(mime),
    );
    let entries = query_entries(query@);
    let names = crate::playback::conversion_names();
    assert(!crate::playback::gives_any(entries, names));
    assert(!crate::playback::gives(entries, names[0]@));
    assert(!crate::playback::gives(entries, names[1]@));
    assert(!crate::playback::gives(entries, names[2]@));
    assert(!crate::playback::gives(entries, names[3]@));
    assert(!crate::playback::gives(entries, names[4]@));
    assert(!crate::playback::gives(entries, names[5]@));
    assert(!crate::playback::gives(entries, names[6]@));
}

/// A part of a stream is asked for by an offset and a length of at most 64 MiB, and
/// only a playlist goes on after a fragment.
pub proof fn law_parts_are_asked_for_by_range(
    path: &str,
    query: &str,
    mime: Option<&str>,
    request: PlaybackRequest,
)
    requires
        call_ensures(media_request, (path, query, mime), Ok(request)),
    ensures
        ({
            let part = request.delivery == Delivery::HlsInit || request.delivery
                == Delivery::HlsSegment || request.delivery == Delivery::MseInit || request.delivery
                == Delivery::MseSegment;
            &&& part <==> request.hls_offset is Some
            &&& part <==> request.hls_length is Some
            &&& request.hls_length is Some ==> 1 <= request.hls_length->0 <= 67_108_864
            &&& request.mse_after is Some ==> request.delivery == Delivery::Mse
        }),
{
}

// --------------------------------------------------------------------- paths

/// A path names a title only by its number, written in one way: a path of a title
/// is exactly the prefix, its number, and the ending.
pub proof fn law_paths_are_written_in_one_way(
    path: &str,
    item: Option<i64>,
    download: Option<i64>,
    status: Option<i64>,
    media: Option<i64>,
)
    requires
        call_ensures(web_item_id, (path,), item),
        call_ensures(web_download_id, (path,), download),
        call_ensures(web_transcode_status_id, (path,), status),
        call_ensures(web_media_id, (path,), media),
    ensures
        item is Some ==> item->0 > 0 && path@ == "/api/web/item/"@ + decimal_text(item->0 as nat),
        download is Some ==> download->0 > 0 && path@ == "/web/download/"@ + decimal_text(
            download->0 as nat,
        ),
        status is Some ==> status->0 > 0 && path@ == "/api/web/transcode/"@ + decimal_text(
            status->0 as nat,
        ),
        media is Some ==> media->0 > 0 && (path@ == "/web/media/"@ + decimal_text(media->0 as nat)
            + ".mp4"@ || path@ == "/web/media/"@ + decimal_text(media->0 as nat) + ".m3u8"@ || path@
            == "/web/media/"@ + decimal_text(media->0 as nat) + ".m4s"@),
{
    lemma_prefixed(path@, "/api/web/item/"@);
    lemma_prefixed(path@, "/web/download/"@);
    lemma_prefixed(path@, "/api/web/transcode/"@);
    lemma_prefixed(path@, "/web/media/"@);
    if media is Some {
        let prefix = "/web/media/"@;
        let name = path@.skip(prefix.len() as int);
        let suffix = if ends_with(name, ".mp4"@) {
            ".mp4"@
        } else if ends_with(name, ".m3u8"@) {
            ".m3u8"@
        } else {
            ".m4s"@
        };
        let digits = name.take(name.len() - suffix.len());
        assert(name =~= digits + suffix) by {
            assert(name.subrange(name.len() - suffix.len(), name.len() as int) == suffix);
        }
        assert(path@ =~= prefix + digits + suffix);
    }
}

proof fn lemma_prefixed(s: Seq<char>, prefix: Seq<char>)
    ensures
        crate::text::starts_with(s, prefix) ==> s == prefix + s.skip(prefix.len() as int),
{
    if crate::text::starts_with(s, prefix) {
        assert(s.subrange(0, prefix.len() as int) == prefix);
        assert(s =~= s.subrange(0, prefix.len() as int) + s.skip(prefix.len() as int));
    }
}

/// The length of a title comes apart into hours, minutes and seconds.
pub proof fn law_lengths_come_apart(
    value: &str,
    parts: Seq<Seq<char>>,
    result: Option<(String, String, String)>,
)
    requires
        call_ensures(duration_parts, (value,), result),
        parts.len() > 0,
        forall|i: int| 0 <= i < parts.len() ==> is_without(#[trigger] parts[i], ':'),
        value@ == in_a_row(parts, ':'),
    ensures
        parts.len() == 3 <==> result is Some,
        result matches Some((hours, minutes, seconds)) ==> hours@ == parts[0] && minutes@ == parts[1]
            && seconds@ == parts[2],
{
    lemma_split_row(parts, ':');
}

// -------------------------------------------------------------------- escapes

/// Whether a byte is the hexadecimal digit of a number.
pub open spec fn is_hex_of(byte: u8, number: int) -> bool {
    ||| 0 <= number < 10 && byte == 0x30 + number
    ||| 10 <= number < 16 && (byte == 0x61 + (number - 10) || byte == 0x41 + (number - 10))
}

/// Whether a byte is a hexadecimal digit.
pub open spec fn is_hex(byte: u8) -> bool {
    0x30 <= byte <= 0x39 || 0x61 <= byte <= 0x66 || 0x41 <= byte <= 0x46
}

/// Whether bytes write another byte: as itself, a space as a plus sign, or anything
/// as a percent sign and two hexadecimal digits.
pub open spec fn writes(piece: Seq<u8>, byte: u8) -> bool {
    ||| piece == seq![byte] && byte != 0x2b && byte != 0x25
    ||| piece == seq![0x2bu8] && byte == 0x20
    ||| piece.len() == 3 && piece[0] == 0x25 && is_hex_of(piece[1], byte as int / 16) && is_hex_of(
        piece[2],
        byte as int % 16,
    )
}

proof fn lemma_escapes(bytes: Seq<u8>, i: int, pieces: Seq<Seq<u8>>, meant: Seq<u8>)
    requires
        0 <= i <= bytes.len(),
        bytes.skip(i) == pieces.flatten(),
        pieces.len() == meant.len(),
        forall|k: int| 0 <= k < pieces.len() ==> writes(#[trigger] pieces[k], meant[k]),
    ensures
        unescaped_from(bytes, i) == Some(meant),
    decreases pieces.len(),
{
    if pieces.len() == 0 {
        assert(bytes.skip(i).len() == 0);
        assert(meant =~= Seq::<u8>::empty());
    } else {
        let piece = pieces[0];
        let rest = pieces.drop_first();
        let n = piece.len() as int;
        assert(writes(pieces[0], meant[0]));
        assert(pieces.flatten() =~= piece + rest.flatten());
        assert(bytes.skip(i).len() == n + rest.flatten().len());
        assert forall|k: int| 0 <= k < n implies bytes[i + k] == #[trigger] piece[k] by {
            assert(bytes.skip(i)[k] == (piece + rest.flatten())[k]);
        }
        assert(bytes.skip(i + n) =~= rest.flatten()) by {
            assert(bytes.skip(i + n) =~= bytes.skip(i).skip(n));
            assert((piece + rest.flatten()).skip(n) =~= rest.flatten());
        }
        assert forall|k: int| 0 <= k < rest.len() implies writes(
            #[trigger] rest[k],
            meant.drop_first()[k],
        ) by {
            assert(rest[k] == pieces[k + 1]);
        }
        lemma_escapes(bytes, i + n, rest, meant.drop_first());
        assert(seq![meant[0]] + meant.drop_first() =~= meant);
        assert(bytes[i] == piece[0]);
        if n == 3 {
            assert(bytes[i + 1] == piece[1] && bytes[i + 2] == piece[2]);
        }
    }
}

/// A text is given back however its bytes are written.
pub proof fn law_escapes_are_undone(
    pieces: Seq<Seq<u8>>,
    meant: Seq<char>,
    value: &str,
    result: Result<String, ()>,
)
    requires
        call_ensures(percent_decode, (value,), result),
        pieces.len() == encode_utf8(meant).len(),
        forall|k: int|
            0 <= k < pieces.len() ==> writes(#[trigger] pieces[k], encode_utf8(meant)[k]),
        encode_utf8(value@) == pieces.flatten(),
    ensures
        result is Ok,
        result->Ok_0@ == meant,
{
    let bytes = encode_utf8(value@);
    assert(bytes.skip(0) =~= bytes);
    lemma_escapes(bytes, 0, pieces, encode_utf8(meant));
    vstd::utf8::encode_utf8_valid_utf8(meant);
    vstd::utf8::encode_utf8_decode_utf8(meant);
}

proof fn lemma_broken_from(bytes: Seq<u8>, i: int, k: int)
    requires
        0 <= i <= k < bytes.len(),
        bytes[k] == 0x25,
        forall|j: int| 0 <= j < k ==> #[trigger] bytes[j] != 0x25,
        k + 2 >= bytes.len() || !is_hex(bytes[k + 1]) || !is_hex(bytes[k + 2]),
    ensures
        unescaped_from(bytes, i) is None,
    decreases k - i,
{
    if i < k {
        lemma_broken_from(bytes, i + 1, k);
        assert(bytes[i] != 0x25);
    }
}

/// A percent sign that two hexadecimal digits do not follow is refused.
pub proof fn law_broken_escapes_are_refused(value: &str, result: Result<String, ()>, k: int)
    requires
        call_ensures(percent_decode, (value,), result),
        ({
            let bytes = encode_utf8(value@);
            &&& 0 <= k < bytes.len() && bytes[k] == 0x25
            &&& forall|j: int| 0 <= j < k ==> #[trigger] bytes[j] != 0x25
            &&& k + 2 >= bytes.len() || !is_hex(bytes[k + 1]) || !is_hex(bytes[k + 2])
        }),
    ensures
        result is Err,
{
    lemma_broken_from(encode_utf8(value@), 0, k);
}

/// The event that a query reports is what it gives under that name.
pub proof fn law_events_are_reported_by_name(
    pairs: Seq<(Seq<char>, Seq<char>)>,
    query: &str,
    result: Option<String>,
    params: QueryParams,
    name: &str,
    value: Option<&str>,
)
    requires
        can_be_written(pairs),
        query@ == query_of(pairs),
        call_ensures(startup_event, (query,), result),
        call_ensures(QueryParams::parse, (query,), params),
        name@ == "event"@,
        call_ensures(QueryParams::get, (&params, name), value),
    ensures
        result is Some <==> exists|i: int|
            0 <= i < pairs.len() && (#[trigger] pairs[i]).0 == "event"@,
        forall|i: int|
            0 <= i < pairs.len() && (#[trigger] pairs[i]).0 == "event"@ ==> result is Some
                && result->0@ == pairs[i].1,
{
    assert forall|i: int| 0 <= i < pairs.len() && (#[trigger] pairs[i]).0 == "event"@ implies result
        is Some && result->0@ == pairs[i].1 by {
        law_parameters_are_found_by_name(pairs, query, params, name, value, i);
    }
    law_parameters_are_found_by_name(pairs, query, params, name, value, -1);
}

/// The head of a page repeats what was asked for, by the names under which it can be
/// asked for, and says whether anything follows.
pub proof fn law_heads_repeat_the_request(
    request: &LibraryRequest,
    generation: u32,
    total: usize,
    shown: usize,
    head: PageHead,
)
    requires
        call_ensures(library_head, (request, generation, total, shown), head),
    ensures
        head.generation == generation,
        head.offset == request.offset && head.limit == request.limit,
        head.total == total,
        head.query@ == request.query@,
        request.view == LibraryView::Folders ==> head.view@ == "folders"@,
        request.view == LibraryView::Library ==> head.view@ == "library"@,
        request.sort == Sort::Title ==> head.sort@ == "title"@,
        request.sort == Sort::DateDescending ==> head.sort@ == "date_desc"@,
        request.sort == Sort::Episode ==> head.sort@ == "episode"@,
        total == 0 ==> head.library_state@ == "empty"@ && !head.has_more,
        total > 0 ==> head.library_state@ == "ready"@,
        head.has_more <==> request.offset + shown < total,
{
}

/// The head of a page of titles to continue says how many were asked for and how
/// many are shown, and that nothing follows.
pub proof fn law_heads_of_titles_to_continue_count_them(
    request: &ContinueRequest,
    generation: u32,
    has_media: bool,
    shown: usize,
    head: PageHead,
)
    requires
        call_ensures(continue_head, (request, generation, has_media, shown), head),
    ensures
        head.generation == generation,
        head.offset == 0 && head.limit == request.ids@.len() && head.total == shown,
        !head.has_more,
        head.view@ == "continue"@ && head.sort@ == "recent_progress"@,
        has_media ==> head.library_state@ == "ready"@,
        !has_media ==> head.library_state@ == "empty"@,
{
}

} // verus!
