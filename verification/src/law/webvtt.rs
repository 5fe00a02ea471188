//! WebVTT files that are refused.
use crate::caption::cue::{arrow, is_settings, timing_line, BrowserCaptionError, Cue};
use crate::caption::vtt::{
    block_of, is_body, is_definition, is_header, is_note, is_track, lemma_timing_line,
    lemma_timing_line_chars, lemma_vtt_time_chars, timing, Block,
};
use crate::caption::{caption_to_webvtt, CaptionWebVttConversion};
use crate::law::captions::{
    in_a_row, is_plain, is_sidecar, is_without, lemma_lines_row, lemma_row_without, lemma_sidecar,
    Caption,
};
use crate::law::clock::{lemma_trim_nothing, webvtt_stamp};
use crate::law::subrip::{is_dense, lemma_apart_without, lemma_dense, lemma_split_apart, set_apart};
use crate::text::{
    holds_text, is_digit, lemma_find, lemma_tail_run, lines, occurs_at, split, starts_with, trim_end,
    CharClass,
};
use vstd::prelude::*;

verus! {

/// The first part of a text is where the text begins.
proof fn lemma_first_part(s: Seq<char>, sep: Seq<char>)
    ensures
        split(s, sep).len() > 0,
        split(s, sep)[0].len() <= s.len(),
        split(s, sep)[0] == s.take(split(s, sep)[0].len() as int),
{
    lemma_find(s, sep);
    assert(s.take(s.len() as int) =~= s);
}

/// A first line that names the format begins with the word.
proof fn lemma_word(first: Seq<char>)
    requires
        first == "WEBVTT"@ || starts_with(first, "WEBVTT "@) || starts_with(first, "WEBVTT\t"@),
    ensures
        first.len() >= 6,
        first.take(6) == "WEBVTT"@,
{
    reveal_strlit("WEBVTT");
    reveal_strlit("WEBVTT ");
    reveal_strlit("WEBVTT\t");
    let word = "WEBVTT"@;
    if first != word {
        let other = first.subrange(0, 7);
        assert(other == "WEBVTT "@ || other == "WEBVTT\t"@);
        assert(other.take(6) =~= word);
        assert(first.take(6) =~= other.take(6));
    } else {
        assert(first.take(6) =~= first);
    }
}

proof fn lemma_header(text: Seq<char>)
    requires
        is_header(split(text, seq!['\n', '\n'])[0]),
    ensures
        text.len() >= 6,
        text.take(6) == "WEBVTT"@,
{
    let part = split(text, seq!['\n', '\n'])[0];
    let first = lines(part)[0];
    lemma_first_part(text, seq!['\n', '\n']);
    lemma_first_part(part, seq!['\n']);
    assert(first == split(part, seq!['\n'])[0]);
    lemma_word(first);
    assert(part.take(6) =~= first.take(6));
    assert(text.take(6) =~= part.take(6));
}

/// A file that does not begin with the word that names the format is malformed.
pub proof fn law_webvtt_files_begin_with_their_name(
    text: Seq<char>,
    body: &[u8],
    result: Result<Vec<u8>, BrowserCaptionError>,
)
    requires
        call_ensures(caption_to_webvtt, (CaptionWebVttConversion::ValidateWebVtt, body), result),
        is_sidecar(body@, text),
        is_without(text, '\r'),
        is_without(text, '\0'),
        text.len() > 0 ==> text[0] != '\u{feff}',
        text.len() < 6 || text.take(6) != "WEBVTT"@,
    ensures
        result == Err::<Vec<u8>, BrowserCaptionError>(BrowserCaptionError::Malformed),
{
    lemma_sidecar(body@, text);
    if is_track(text) {
        lemma_header(text);
    }
}

/// A caption as a WebVTT file has it.
pub open spec fn caption_block(caption: Caption) -> Seq<char> {
    in_a_row(seq![times(caption), caption.text], '\n')
}

/// The blocks of a WebVTT file with captions.
pub open spec fn webvtt_blocks(captions: Seq<Caption>) -> Seq<Seq<char>> {
    seq!["WEBVTT"@] + captions.map_values(|caption: Caption| caption_block(caption))
}

/// The line with the times of a caption.
pub open spec fn times(caption: Caption) -> Seq<char> {
    webvtt_stamp(caption.start) + " --> "@ + webvtt_stamp(caption.end)
}

proof fn lemma_line(start: Seq<char>, end: Seq<char>)
    ensures
        start + " --> "@ + end == start + seq![' '] + arrow() + seq![' '] + end
            + Seq::<char>::empty(),
{
    reveal_strlit(" --> ");
    assert(seq![' '] + arrow() + seq![' '] =~= " --> "@);
    assert(start + seq![' '] + arrow() + seq![' '] =~= start + (seq![' '] + arrow() + seq![' ']));
    let line = start + " --> "@ + end;
    assert(line + Seq::<char>::empty() =~= line);
}

proof fn lemma_line_without(start: Seq<char>, end: Seq<char>, x: char)
    requires
        is_without(start, x),
        is_without(end, x),
        x == '\r' || x == '\0',
    ensures
        is_without(start + " --> "@ + end, x),
{
    reveal_strlit(" --> ");
    let line = start + " --> "@ + end;
    let n = start.len() as int;
    assert forall|i: int| 0 <= i < line.len() implies #[trigger] line[i] != x by {
        if i < n {
            assert(line[i] == start[i]);
        } else if i < n + 5 {
            assert(line[i] == " --> "@[i - n]);
        } else {
            assert(line[i] == end[i - n - 5]);
        }
    }
}

proof fn lemma_times(caption: Caption)
    requires
        caption.start <= u64::MAX,
        caption.end <= u64::MAX,
    ensures
        times(caption).len() > 0,
        is_digit(times(caption)[0]),
        is_without(times(caption), '\n'),
        is_without(times(caption), '\r'),
        is_without(times(caption), '\0'),
        holds_text(times(caption), arrow()),
        timing(times(caption), false) == Some(
            (caption.start as u64, caption.end as u64, Seq::<char>::empty()),
        ),
{
    let cue = Cue {
        start: caption.start as u64,
        end: caption.end as u64,
        settings: Seq::empty(),
        text: caption.text,
    };
    let (start, end) = (webvtt_stamp(caption.start), webvtt_stamp(caption.end));
    let line = times(caption);
    assert(is_settings(cue.settings)) by {
        assert forall|k: int| !occurs_at(cue.settings, arrow(), k) by {}
    }
    lemma_line(start, end);
    assert(line == timing_line(cue));
    lemma_timing_line(cue);
    lemma_timing_line_chars(cue);
    lemma_vtt_time_chars(caption.start);
    lemma_vtt_time_chars(caption.end);
    lemma_line_without(start, end, '\r');
    lemma_line_without(start, end, '\0');
}

/// A line that begins with a digit is no comment and defines nothing.
proof fn lemma_no_word(line: Seq<char>)
    requires
        line.len() > 0,
        is_digit(line[0]),
    ensures
        !is_note(line),
        !is_definition(line),
{
    reveal_strlit("NOTE");
    reveal_strlit("NOTE ");
    reveal_strlit("NOTE\t");
    reveal_strlit("STYLE");
    reveal_strlit("REGION");
    if starts_with(line, "NOTE "@) || starts_with(line, "NOTE\t"@) {
        assert(line.subrange(0, 5)[0] == line[0]);
    }
    let word = trim_end(line, CharClass::Blank);
    lemma_tail_run(line, CharClass::Blank);
    if word.len() > 0 {
        assert(word[0] == line[0]);
    }
}

proof fn lemma_caption_block(caption: Caption)
    requires
        caption.start <= u64::MAX,
        caption.end <= u64::MAX,
        is_plain(caption.text),
    ensures
        is_dense(caption_block(caption)),
        is_without(caption_block(caption), '\r'),
        is_without(caption_block(caption), '\0'),
        lines(caption_block(caption)) == seq![times(caption), caption.text],
{
    let ls = seq![times(caption), caption.text];
    lemma_times(caption);
    assert forall|i: int| 0 <= i < ls.len() implies (#[trigger] ls[i]).len() > 0 && is_without(
        ls[i],
        '\n',
    ) && is_without(ls[i], '\r') && is_without(ls[i], '\0') by {
        assert(i == 0 || i == 1);
    }
    lemma_dense(ls);
    lemma_row_without(ls, '\n', '\r');
    lemma_row_without(ls, '\n', '\0');
    lemma_lines_row(ls);
}

proof fn lemma_backwards(caption: Caption)
    requires
        caption.end <= caption.start <= u64::MAX,
        is_plain(caption.text),
    ensures
        block_of(caption_block(caption)) == Block::Invalid,
{
    lemma_caption_block(caption);
    lemma_times(caption);
    lemma_no_word(times(caption));
    lemma_trim_nothing(caption_block(caption), CharClass::Newline);
}

/// A WebVTT file with a caption that does not end after it begins is malformed,
/// wherever that stands.
pub proof fn law_webvtt_times_move_forward(
    captions: Seq<Caption>,
    body: &[u8],
    result: Result<Vec<u8>, BrowserCaptionError>,
    k: int,
)
    requires
        call_ensures(caption_to_webvtt, (CaptionWebVttConversion::ValidateWebVtt, body), result),
        forall|i: int|
            0 <= i < captions.len() ==> (#[trigger] captions[i]).start <= u64::MAX
                && captions[i].end <= u64::MAX && is_plain(captions[i].text),
        is_sidecar(body@, set_apart(webvtt_blocks(captions))),
        0 <= k < captions.len(),
        captions[k].start >= captions[k].end,
    ensures
        result == Err::<Vec<u8>, BrowserCaptionError>(BrowserCaptionError::Malformed),
{
    let blocks = webvtt_blocks(captions);
    let text = set_apart(blocks);
    reveal_strlit("WEBVTT");
    assert forall|i: int| 0 <= i < blocks.len() implies is_dense(#[trigger] blocks[i])
        && is_without(blocks[i], '\r') && is_without(blocks[i], '\0') by {
        if i > 0 {
            assert(captions[i - 1].start <= u64::MAX);
            assert(blocks[i] == caption_block(captions[i - 1]));
            lemma_caption_block(captions[i - 1]);
        } else {
            assert(blocks[0] == "WEBVTT"@);
        }
    }
    lemma_split_apart(blocks);
    lemma_apart_without(blocks, '\r');
    lemma_apart_without(blocks, '\0');
    assert(text[0] == blocks[0][0]);
    lemma_sidecar(body@, text);
    assert(captions[k].start <= u64::MAX);
    lemma_backwards(captions[k]);
    assert(blocks[k + 1] == caption_block(captions[k]));
    assert(block_of(blocks[k + 1]) == Block::Invalid);
    assert(!is_body(blocks, blocks.len() as int));
    assert(!is_track(text));
}

} // verus!
