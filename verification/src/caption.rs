//! Conversion of bounded text-caption sidecars to browser WebVTT.
use crate::caption::again::{
    is_foreign, lacks, lemma_ass_lacks, lemma_newlines_are_there, lemma_smi_lacks,
    lemma_srt_lacks, lemma_track_begins, lemma_track_lacks, lemma_validated_lacks,
};
use crate::caption::ass::{ass_file_cues, ass_to_webvtt, ass_track, law_ass_cues_are_sound};
use crate::caption::cue::{
    lemma_newlines_from, newlines, newlines_from, unified_newlines, BrowserCaptionError, MAX_INPUT_BYTES,
    MAX_OUTPUT_BYTES,
};
use crate::caption::smi::{law_smi_cues_are_sound, smi_file_cues, smi_to_webvtt, smi_track};
use crate::caption::srt::{law_srt_cues_are_sound, srt_file_cues, srt_to_webvtt, srt_track};
use crate::caption::vtt::{
    is_track, law_sound_cues_make_a_track, law_validated_is_a_track, validate_webvtt, validated,
};
use crate::encoding::{bytes_of, decoded, lemma_encode_concat, lemma_len_push, utf8_len};
use crate::text::{trim_end, CharClass};
use vstd::prelude::*;
use vstd::slice::slice_subrange;
use vstd::utf8::{decode_utf8, encode_utf8, valid_utf8};

pub mod again;
pub mod ass;
pub mod cue;
pub mod smi;
pub mod srt;
pub mod time;
pub mod vtt;

verus! {

/// How a caption format becomes WebVTT.
#[derive(Clone, Copy, Debug, PartialEq, Eq, Structural)]
pub enum CaptionWebVttConversion {
    ValidateWebVtt,
    SubRipToWebVtt,
    SubStationAlphaToWebVtt,
    SamiToWebVtt,
}

/// The text without a byte order mark at its front.
pub open spec fn without_mark(s: Seq<char>) -> Seq<char> {
    if s.len() > 0 && s[0] == '\u{feff}' {
        s.skip(1)
    } else {
        s
    }
}

/// The text of a sidecar: no byte order mark, every line end written as `\n`.
pub open spec fn sidecar_text(body: Seq<u8>) -> Seq<char> {
    newlines(without_mark(decode_utf8(body)))
}

/// The track of a sidecar's text.
pub open spec fn converted_text(conversion: CaptionWebVttConversion, text: Seq<char>) -> Option<
    Seq<char>,
> {
    match conversion {
        CaptionWebVttConversion::ValidateWebVtt => validated(text),
        CaptionWebVttConversion::SubRipToWebVtt => srt_track(text),
        CaptionWebVttConversion::SubStationAlphaToWebVtt => ass_track(text),
        CaptionWebVttConversion::SamiToWebVtt => smi_track(text),
    }
}

/// The track of a sidecar, or why it has none.
pub open spec fn converted(conversion: CaptionWebVttConversion, body: Seq<u8>) -> Result<
    Seq<char>,
    BrowserCaptionError,
> {
    if body.len() > MAX_INPUT_BYTES {
        Err(BrowserCaptionError::Malformed)
    } else if !valid_utf8(body) {
        Err(BrowserCaptionError::Encoding)
    } else if sidecar_text(body).contains('\0') {
        Err(BrowserCaptionError::Malformed)
    } else {
        match converted_text(conversion, sidecar_text(body)) {
            Some(text) => Ok(text),
            None => Err(BrowserCaptionError::Malformed),
        }
    }
}

fn has_null(text: &[char]) -> (found: bool)
    ensures
        found == text@.contains('\0'),
{
    let mut i: usize = 0;
    while i < text.len()
        invariant
            i <= text.len(),
            forall|j: int| 0 <= j < i ==> text@[j] != '\0',
        decreases text.len() - i,
    {
        if text[i] == '\0' {
            return true;
        }
        i += 1;
    }
    false
}

/// Converts a caption sidecar to a UTF-8 WebVTT track.
pub fn caption_to_webvtt(conversion: CaptionWebVttConversion, body: &[u8]) -> (result: Result<
    Vec<u8>,
    BrowserCaptionError,
>)
    ensures
        match result {
            Ok(bytes) => converted(conversion, body@) matches Ok(text) && bytes@ == encode_utf8(
                text,
            ),
            Err(error) => converted(conversion, body@) == Err::<Seq<char>, BrowserCaptionError>(
                error,
            ),
        },
{
    if body.len() > MAX_INPUT_BYTES {
        return Err(BrowserCaptionError::Malformed);
    }
    let chars = match decoded(body) {
        Some(chars) => chars,
        None => {
            return Err(BrowserCaptionError::Encoding);
        },
    };
    let marked: usize = if chars.len() > 0 && chars[0] == '\u{feff}' {
        1
    } else {
        0
    };
    let unmarked = slice_subrange(chars.as_slice(), marked, chars.len());
    assert(unmarked@ =~= without_mark(decode_utf8(body@)));
    let text = unified_newlines(unmarked);
    if has_null(&text) {
        return Err(BrowserCaptionError::Malformed);
    }
    let output = match conversion {
        CaptionWebVttConversion::ValidateWebVtt => validate_webvtt(&text),
        CaptionWebVttConversion::SubRipToWebVtt => srt_to_webvtt(&text),
        CaptionWebVttConversion::SubStationAlphaToWebVtt => ass_to_webvtt(&text),
        CaptionWebVttConversion::SamiToWebVtt => smi_to_webvtt(&text),
    };
    match output {
        Ok(output) => Ok(bytes_of(&output)),
        Err(error) => Err(error),
    }
}

// -------------------------------------------------------------------- laws

/// Whatever a sidecar holds, what its conversion gives is a valid WebVTT track.
pub proof fn law_conversion_gives_a_track(conversion: CaptionWebVttConversion, body: Seq<u8>)
    requires
        converted(conversion, body) is Ok,
    ensures
        is_track(converted(conversion, body)->Ok_0),
{
    let text = sidecar_text(body);
    match conversion {
        CaptionWebVttConversion::ValidateWebVtt => {
            law_validated_is_a_track(text);
        },
        CaptionWebVttConversion::SubRipToWebVtt => {
            law_srt_cues_are_sound(text);
            law_sound_cues_make_a_track(srt_file_cues(text)->0);
        },
        CaptionWebVttConversion::SubStationAlphaToWebVtt => {
            law_ass_cues_are_sound(text);
            law_sound_cues_make_a_track(ass_file_cues(text)->0);
        },
        CaptionWebVttConversion::SamiToWebVtt => {
            law_smi_cues_are_sound(text);
            law_sound_cues_make_a_track(smi_file_cues(text)->0);
        },
    }
}

/// The text of a sidecar that is converted holds no carriage return and no null
/// character, and neither does its track.
proof fn lemma_conversion_lacks(conversion: CaptionWebVttConversion, body: Seq<u8>, c: char)
    requires
        is_foreign(c),
        converted(conversion, body) is Ok,
    ensures
        lacks(converted(conversion, body)->Ok_0, c),
{
    let text = sidecar_text(body);
    lemma_newlines_from(without_mark(decode_utf8(body)), 0);
    assert forall|i: int| 0 <= i < text.len() implies #[trigger] text[i] != '\0' by {
        assert(text.contains(text[i]));
    }
    match conversion {
        CaptionWebVttConversion::ValidateWebVtt => {
            lemma_validated_lacks(text, c);
        },
        CaptionWebVttConversion::SubRipToWebVtt => {
            lemma_srt_lacks(text, c);
            lemma_track_lacks(srt_file_cues(text)->0, c);
        },
        CaptionWebVttConversion::SubStationAlphaToWebVtt => {
            lemma_ass_lacks(text, c);
            lemma_track_lacks(ass_file_cues(text)->0, c);
        },
        CaptionWebVttConversion::SamiToWebVtt => {
            lemma_smi_lacks(text, c);
            lemma_track_lacks(smi_file_cues(text)->0, c);
        },
    }
}

/// Whatever a sidecar was converted to is itself accepted as WebVTT, and comes
/// back as it is but for exactly one line feed at its end.
pub proof fn law_converted_bytes_are_accepted(conversion: CaptionWebVttConversion, body: Seq<u8>)
    requires
        converted(conversion, body) is Ok,
        utf8_len(converted(conversion, body)->Ok_0) <= MAX_INPUT_BYTES,
    ensures
        ({
            let text = converted(conversion, body)->Ok_0;
            converted(CaptionWebVttConversion::ValidateWebVtt, encode_utf8(text)) == Ok::<
                Seq<char>,
                BrowserCaptionError,
            >(trim_end(text, CharClass::Newline).push('\n'))
        }),
{
    let text = converted(conversion, body)->Ok_0;
    law_conversion_gives_a_track(conversion, body);
    lemma_conversion_lacks(conversion, body, '\r');
    lemma_conversion_lacks(conversion, body, '\0');
    lemma_track_begins(text);
    vstd::utf8::encode_utf8_valid_utf8(text);
    vstd::utf8::encode_utf8_decode_utf8(text);
    assert(without_mark(text) == text);
    lemma_newlines_are_there(text, 0);
    assert(text.skip(0) =~= text);
    assert(sidecar_text(encode_utf8(text)) == text);
    assert(!text.contains('\0'));
}

proof fn lemma_newlines_len(s: Seq<char>, from: int)
    requires
        0 <= from <= s.len(),
    ensures
        utf8_len(newlines_from(s, from)) <= utf8_len(s.skip(from)),
    decreases s.len() - from,
{
    if from < s.len() {
        let next = if s[from] == '\r' && from + 1 < s.len() && s[from + 1] == '\n' {
            from + 2
        } else {
            from + 1
        };
        lemma_newlines_len(s, next);
        let head = newlines_from(s, from).take(1);
        let c = head[0];
        assert(newlines_from(s, from) =~= seq![c] + newlines_from(s, next));
        lemma_encode_concat(seq![c], newlines_from(s, next));
        crate::encoding::lemma_encode_one(c);
        crate::encoding::lemma_encode_one(s[from]);
        assert(s.skip(from) =~= s.subrange(from, next) + s.skip(next));
        lemma_encode_concat(s.subrange(from, next), s.skip(next));
        assert(s.subrange(from, next) =~= seq![s[from]] + s.subrange(from + 1, next));
        lemma_encode_concat(seq![s[from]], s.subrange(from + 1, next));
    }
}

/// What a conversion gives is never larger than its bound.
pub proof fn law_conversion_is_bounded(conversion: CaptionWebVttConversion, body: Seq<u8>)
    requires
        converted(conversion, body) is Ok,
    ensures
        utf8_len(converted(conversion, body)->Ok_0) <= MAX_OUTPUT_BYTES,
{
    if conversion == CaptionWebVttConversion::ValidateWebVtt {
        let all = decode_utf8(body);
        let unmarked = without_mark(all);
        let text = sidecar_text(body);
        vstd::utf8::decode_utf8_encode_utf8(body);
        assert(utf8_len(all) == body.len());
        assert(all =~= all.take(all.len() - unmarked.len()) + unmarked);
        lemma_encode_concat(all.take(all.len() - unmarked.len()), unmarked);
        assert(unmarked.skip(0) =~= unmarked);
        lemma_newlines_len(unmarked, 0);
        let core = trim_end(text, CharClass::Newline);
        crate::text::lemma_tail_run(text, CharClass::Newline);
        assert(text =~= core + text.skip(core.len() as int));
        lemma_encode_concat(core, text.skip(core.len() as int));
        lemma_len_push(core, '\n');
    }
}

} // verus!
