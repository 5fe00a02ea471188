use rusty_dlna_web::caption::cue::{
    check_output_growth, BrowserCaptionError, MAX_INPUT_BYTES, MAX_OUTPUT_BYTES,
};
use rusty_dlna_web::caption::smi::decode_smi_entities;
use rusty_dlna_web::caption::time::{ass_time, millis_vtt, parse_caption_time};
use rusty_dlna_web::caption::{caption_to_webvtt, CaptionWebVttConversion};

fn minimal_valid_input(conversion: CaptionWebVttConversion) -> &'static [u8] {
    match conversion {
        CaptionWebVttConversion::ValidateWebVtt => {
            b"WEBVTT\n\n00:00:00.000 --> 00:00:01.000\nText\n"
        }
        CaptionWebVttConversion::SubRipToWebVtt => b"1\n00:00:00,000 --> 00:00:01,000\nText\n",
        CaptionWebVttConversion::SubStationAlphaToWebVtt => {
            b"[Events]\nFormat: Start, End, Text\nDialogue: 0:00:00.00,0:00:01.00,Text\n"
        }
        CaptionWebVttConversion::SamiToWebVtt => b"<SAMI><SYNC Start=0><P>Text</P></SAMI>",
    }
}

#[test]
fn every_protocol_conversion_has_executable_dispatch() {
    for conversion in [
        CaptionWebVttConversion::ValidateWebVtt,
        CaptionWebVttConversion::SubRipToWebVtt,
        CaptionWebVttConversion::SubStationAlphaToWebVtt,
        CaptionWebVttConversion::SamiToWebVtt,
    ] {
        let converted = caption_to_webvtt(conversion, minimal_valid_input(conversion));
        assert!(converted.is_ok(), "{conversion:?}: {converted:?}");
    }
}

fn converted(conversion: CaptionWebVttConversion, input: &[u8]) -> String {
    String::from_utf8(caption_to_webvtt(conversion, input).unwrap()).unwrap()
}

#[test]
fn srt_conversion_preserves_multiline_unicode_and_overlap() {
    let input = "1\r\n00:00:01,250 --> 00:00:04,000\r\nHello\r\n世界\r\n\r\n2\r\n00:00:03,500 --> 00:00:05,000\r\nOverlap\r\n";
    let output = converted(CaptionWebVttConversion::SubRipToWebVtt, input.as_bytes());
    assert!(output.starts_with("WEBVTT\n\n"));
    assert!(output.contains("00:00:01.250 --> 00:00:04.000\nHello\n世界"));
    assert!(output.contains("00:00:03.500 --> 00:00:05.000\nOverlap"));
}

#[test]
fn srt_literal_arrows_remain_text_and_preserve_cue_markup() {
    let output = converted(
        CaptionWebVttConversion::SubRipToWebVtt,
        b"1\n00:00:01,250 --> 00:00:02,500\nGo --> <b>next</b>\n00:00 --> still text\n",
    );
    assert!(output.contains("Go --&gt; <b>next</b>\n00:00 --&gt; still text"));
    assert!(
        caption_to_webvtt(CaptionWebVttConversion::ValidateWebVtt, output.as_bytes()).is_ok()
    );
}

#[test]
fn ass_conversion_uses_declared_columns_and_removes_override_commands() {
    let input = "[Events]\nFormat: Layer, Start, End, Style, Text\nDialogue: 0,0:00:01.20,0:00:03.40,Default,{\\i1}Hello\\Nworld";
    let output = converted(
        CaptionWebVttConversion::SubStationAlphaToWebVtt,
        input.as_bytes(),
    );
    assert!(output.contains("00:00:01.200 --> 00:00:03.400"));
    assert!(output.contains("Hello\nworld"));
    assert!(!output.contains("\\i1"));
}

#[test]
fn ass_conversion_carries_rounded_milliseconds_into_the_next_minute() {
    let input =
        "[Events]\nFormat: Start, End, Text\nDialogue: 0:00:59.9996,0:59:59.9996,Boundary";
    let output = converted(
        CaptionWebVttConversion::SubStationAlphaToWebVtt,
        input.as_bytes(),
    );
    assert!(output.contains("00:01:00.000 --> 01:00:00.000"));
    assert!(!output.contains(":60.000"));
}

#[test]
fn smi_conversion_strips_markup_and_decodes_text_entities() {
    let input = "<SAMI><BODY><SYNC Start=1000><P Class=ENCC>Hello<br>Tom &amp; Jerry &lt;3&gt;</P><SYNC Start='2500'><P>Bye &gt; now</P></BODY></SAMI>";
    let output = converted(CaptionWebVttConversion::SamiToWebVtt, input.as_bytes());
    assert_eq!(output, "WEBVTT\n\n00:00:01.000 --> 00:00:02.500\nHello\nTom &amp; Jerry &lt;3&gt;\n\n00:00:02.500 --> 00:00:07.500\nBye &gt; now\n\n");
    assert!(!output.contains("<P"));
}

#[test]
fn webvtt_normalizes_bom_and_crlf_but_preserves_cue_settings() {
    let input = b"\xef\xbb\xbfWEBVTT\r\n\r\nintro\r\n00:00:01.000 --> 00:00:02.500 line:90% position:20%\r\nHello\r\n";
    assert_eq!(
        converted(CaptionWebVttConversion::ValidateWebVtt, input),
        "WEBVTT\n\nintro\n00:00:01.000 --> 00:00:02.500 line:90% position:20%\nHello\n"
    );
}

#[test]
fn webvtt_rejects_malformed_or_reversed_timings() {
    for input in [
        "WEBVTTjunk\n\n00:00:01.000 --> 00:00:02.000\nBad\n",
        "WEBVTT\u{a0}junk\n\n00:00:01.000 --> 00:00:02.000\nBad\n",
        "WEBVTT\n00:00:01.000 --> 00:00:02.000\nMissing blank line\n",
        "WEBVTT\n\n00:00:01,000 --> 00:00:02,000\nComma\n",
        "WEBVTT\n\n0:00:01.000 --> 00:00:02.000\nShort hours\n",
        "WEBVTT\n\n00:0:01.000 --> 00:00:02.000\nShort minutes\n",
        "WEBVTT\n\n00:00:01 --> 00:00:02\nMissing milliseconds\n",
        "WEBVTT\n\n00:00:01.00 --> 00:00:02.000\nShort milliseconds\n",
        "WEBVTT\n\n00:00:01.0000 --> 00:00:02.000\nLong milliseconds\n",
        "WEBVTT\n\n00:00:1e1 --> 00:00:20.000\nExponent\n",
        "WEBVTT\n\n00:00:01.000-->00:00:02.000\nMissing spaces\n",
        "WEBVTT\n\n00:00:01.000 --> 00:00:01.000\nZero length\n",
        "WEBVTT\n\n00:00:60.000 --> 00:01:01.000\nBad\n",
        "WEBVTT\n\n00:00:03.000 --> 00:00:02.000\nBackwards\n",
        "WEBVTT\n\n00:00:01.000 --> nope\nBad\n",
    ] {
        assert_eq!(
            caption_to_webvtt(CaptionWebVttConversion::ValidateWebVtt, input.as_bytes()),
            Err(BrowserCaptionError::Malformed),
            "{input:?}"
        );
    }
}

#[test]
fn webvtt_preserves_supported_headers_blocks_and_payloads() {
    let input = "WEBVTT\tCaption --> annotation\nX-TIMESTAMP-MAP=LOCAL:00:00:00.000,MPEGTS:0\n\nNOTE commentary\nThis is not cue text.\n\nSTYLE\n::cue { color: lime; }\n\nREGION\nid:bottom\nwidth:80%\n\nopening\n00:01.250\t-->\t00:02.750 line:90% position:20% region:bottom\n<v Alice><b>Hello</b> &amp; <c.color>world</c></v>\n\nNOTE\nEnd of scene\n\n00:02.500 --> 00:03.000\nOverlapping <00:02.750>text\n";
    for newline in ["\n", "\r", "\r\n"] {
        let source = format!("\u{feff}{}", input.replace('\n', newline));
        assert_eq!(
            converted(CaptionWebVttConversion::ValidateWebVtt, source.as_bytes()),
            input
        );
    }
    for empty in ["WEBVTT", "WEBVTT\n\n", "WEBVTT\n\nNOTE Empty track\n"] {
        assert!(
            caption_to_webvtt(CaptionWebVttConversion::ValidateWebVtt, empty.as_bytes())
                .is_ok()
        );
    }
}

#[test]
fn sami_clear_markers_preserve_gaps_and_terminal_boundaries() {
    for clear in ["", "<P>&nbsp;</P>", "<P>&#160; &#xA0;</P>", "<P>\n \t</P>"] {
        let input = format!("<SAMI><SYNC Start=1000><P>First</P><SYNC Start=2000>{clear}<SYNC Start=5000><P>Next</P><SYNC Start=6500><P>&nbsp;</P></SAMI>");
        assert_eq!(converted(CaptionWebVttConversion::SamiToWebVtt, input.as_bytes()),
            "WEBVTT\n\n00:00:01.000 --> 00:00:02.000\nFirst\n\n00:00:05.000 --> 00:00:06.500\nNext\n\n");
    }
    assert_eq!(
        converted(
            CaptionWebVttConversion::SamiToWebVtt,
            b"<SYNC Start=1000><P>&nbsp;</P>"
        ),
        "WEBVTT\n\n"
    );
}

#[test]
fn sami_decodes_once_and_keeps_literal_angles_and_line_breaks() {
    let input = "<SAMI><!-- <SYNC Start=0>ignored --><SyNc title='x > y' START = \"1250\"><P><b>Bold</b> &lt;b&gt;literal&lt;/b&gt; &amp;lt;i&amp;gt;<bR />Tom &amp; Jerry &#60;3&#x3E; &quot;yes&quot; &apos;ok&apos; &unknown;<P>2 < 3 > 1<SYNC Start=2750><P>&nbsp;</P></SAMI>";
    assert_eq!(converted(CaptionWebVttConversion::SamiToWebVtt, input.as_bytes()),
        "WEBVTT\n\n00:00:01.250 --> 00:00:02.750\nBold &lt;b&gt;literal&lt;/b&gt; &amp;lt;i&amp;gt;\nTom &amp; Jerry &lt;3&gt; \"yes\" 'ok' &amp;unknown;\n2 &lt; 3 &gt; 1\n\n");
}

#[test]
fn ass_keeps_literal_markup_entities_and_plain_braces() {
    let input = "[Events]\nFoRmAt: Start, End, Text\nDiAlOgUe: 0:00:01.25,0:00:02.75,{\\i1}Italic{\\i0} <b>literal</b> &lt;3&gt; {braces}\\Nnext\\nline\\hword, comma";
    assert_eq!(converted(CaptionWebVttConversion::SubStationAlphaToWebVtt, input.as_bytes()),
        "WEBVTT\n\n00:00:01.250 --> 00:00:02.750\nItalic &lt;b&gt;literal&lt;/b&gt; &amp;lt;3&amp;gt; {braces}\nnext\nline\u{a0}word, comma\n\n");
    let blank =
        "[Events]\nFormat: Start, End, Text\nDialogue: 0:00:01.00,0:00:02.00,First\\N\\NLast";
    assert_eq!(
        converted(
            CaptionWebVttConversion::SubStationAlphaToWebVtt,
            blank.as_bytes()
        ),
        "WEBVTT\n\n00:00:01.000 --> 00:00:02.000\nFirst\n&nbsp;\nLast\n\n"
    );
}

#[test]
fn sami_rejects_ambiguous_decreasing_and_overflow_timestamps() {
    for input in [
        "<SYNC Restart=1000>Wrong attribute",
        "<SYNC Start=1000junk>Bad number",
        "<SYNC Start=+1000>Signed",
        "<SYNC Start='1000' Start=2000>Duplicate",
        "<SYNC Start='1000>Unclosed quote",
        "<SYNC Start=2000>Backwards<SYNC Start=1000>Text",
        "<SYNC Start=18446744073709551615>Final cue overflows",
        "<SYNC Start=18446744073709551616>Timestamp overflows",
    ] {
        assert_eq!(
            caption_to_webvtt(CaptionWebVttConversion::SamiToWebVtt, input.as_bytes()),
            Err(BrowserCaptionError::Malformed),
            "{input}"
        );
    }
}

#[test]
fn timestamp_arithmetic_and_conversion_inputs_are_bounded() {
    assert_eq!(check_output_growth(MAX_OUTPUT_BYTES - 1, 1), Ok(()));
    assert_eq!(
        check_output_growth(MAX_OUTPUT_BYTES, 1),
        Err(BrowserCaptionError::Malformed)
    );
    assert_eq!(
        check_output_growth(usize::MAX, 1),
        Err(BrowserCaptionError::Malformed)
    );
    assert_eq!(parse_caption_time("5124095576031:00:00.000", false), None);
    assert_eq!(ass_time("5124095576031:00:00.000"), None);
    assert_eq!(ass_time("0:00:5e1"), None);
    assert_eq!(ass_time("0:00:NaN"), None);
    assert_eq!(
        parse_caption_time("100:00:00.001", false),
        Some(360_000_001)
    );
    let oversized = vec![b'x'; MAX_INPUT_BYTES + 1];
    assert_eq!(
        caption_to_webvtt(CaptionWebVttConversion::ValidateWebVtt, &oversized),
        Err(BrowserCaptionError::Malformed)
    );
    assert_eq!(
        caption_to_webvtt(CaptionWebVttConversion::ValidateWebVtt, b"WEBVTT\0\n\n"),
        Err(BrowserCaptionError::Malformed)
    );
}

#[test]
fn sami_numeric_line_endings_cannot_terminate_a_cue() {
    let input = b"<SYNC Start=1000><P>First&#13;&#13;Last<SYNC Start=2000><P>&nbsp;";
    assert_eq!(
        converted(CaptionWebVttConversion::SamiToWebVtt, input),
        "WEBVTT\n\n00:00:01.000 --> 00:00:02.000\nFirst\n&nbsp;\nLast\n\n"
    );
}

#[test]
fn sami_entity_decoding_preserves_unsupported_or_malformed_references() {
    assert_eq!(
        decode_smi_entities("&AMP;&LT;&GT;&QUOT; &#+65; &#x+41; &#xD800; &#0; &unknown;"),
        "&<>\" &#+65; &#x+41; &#xD800; &#0; &unknown;"
    );
}

#[test]
fn caption_conversion_rejects_invalid_text_input() {
    assert_eq!(
        caption_to_webvtt(CaptionWebVttConversion::SubRipToWebVtt, b"not a cue"),
        Err(BrowserCaptionError::Malformed)
    );
    assert_eq!(
        caption_to_webvtt(CaptionWebVttConversion::ValidateWebVtt, &[0xff, 0xfe]),
        Err(BrowserCaptionError::Encoding)
    );
}

#[test]
fn caption_times_are_read_back_from_what_is_written() {
    for millis in [0, 1, 999, 59_999, 3_599_999, 3_600_000, 360_000_001] {
        assert_eq!(parse_caption_time(&millis_vtt(millis), false), Some(millis));
    }
    assert_eq!(millis_vtt(3_723_004), "01:02:03.004");
}

#[test]
fn every_conversion_gives_a_track_that_is_accepted_as_one() {
    for conversion in [
        CaptionWebVttConversion::ValidateWebVtt,
        CaptionWebVttConversion::SubRipToWebVtt,
        CaptionWebVttConversion::SubStationAlphaToWebVtt,
        CaptionWebVttConversion::SamiToWebVtt,
    ] {
        let track = caption_to_webvtt(conversion, minimal_valid_input(conversion)).unwrap();
        assert!(track.starts_with(b"WEBVTT\n"), "{conversion:?}");
        assert!(track.len() <= MAX_OUTPUT_BYTES, "{conversion:?}");
        let again = caption_to_webvtt(CaptionWebVttConversion::ValidateWebVtt, &track);
        let mut ended = track.clone();
        while ended.last() == Some(&b'\n') {
            ended.pop();
        }
        ended.push(b'\n');
        assert_eq!(again, Ok(ended), "{conversion:?}");
    }
}
