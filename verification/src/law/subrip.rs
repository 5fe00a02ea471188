//! Captions in SubRip and in WebVTT.
use crate::caption::cue::{arrow, BrowserCaptionError, Cue};
use crate::caption::time::caption_time;
use crate::caption::srt::{escaped_arrow, srt_cue, srt_cues, srt_file_cues};
use crate::caption::vtt::{law_sound_cues_make_a_track, lemma_arrow_at, lemma_split_gap, timing};
use crate::caption::{caption_to_webvtt, CaptionWebVttConversion};
use crate::law::captions::{
    in_a_row, is_plain, is_sidecar, is_without, lemma_lines_row, lemma_row_without, lemma_sidecar,
    lemma_track_of, track_of, Caption,
};
use crate::law::clock::{lemma_subrip_stamp, lemma_trim_nothing, subrip_stamp};
use crate::number::{all_digits, lemma_padded, padded};
use crate::text::{
    first_in, holds_text, is_digit, join, lemma_first_in, lemma_run_is, lemma_split_whole,
    lemma_tail_run, lemma_tail_run_is, occurs_at, replaced, split, trim, trim_end,
    trim_start, CharClass,
};
use vstd::prelude::*;
use vstd::utf8::encode_utf8;

verus! {

/// A subtitle: its counter, which may be left out, from when to when it is shown,
/// in milliseconds, and its lines.
pub struct Subtitle {
    pub counter: Option<Seq<char>>,
    pub start: nat,
    pub end: nat,
    pub lines: Seq<Seq<char>>,
}

/// Whether a subtitle is one: it can be written, and its times move forward.
pub open spec fn is_subtitle(subtitle: Subtitle) -> bool {
    is_block(subtitle) && subtitle.start < subtitle.end
}

/// Whether a subtitle can be written: a counter of digits, two times, and at least
/// one line, none of them empty, without an arrow.
pub open spec fn is_block(subtitle: Subtitle) -> bool {
    let text = in_a_row(subtitle.lines, '\n');
    &&& subtitle.counter matches Some(digits) ==> digits.len() > 0 && all_digits(digits)
    &&& subtitle.start <= u64::MAX
    &&& subtitle.end <= u64::MAX
    &&& subtitle.lines.len() > 0
    &&& forall|i: int|
        0 <= i < subtitle.lines.len() ==> {
            &&& (#[trigger] subtitle.lines[i]).len() > 0
            &&& is_without(subtitle.lines[i], '\n')
            &&& is_without(subtitle.lines[i], '\r')
            &&& is_without(subtitle.lines[i], '\0')
        }
    &&& forall|k: int|
        0 <= k < text.len() - 2 ==> !(#[trigger] text[k] == '-' && text[k + 1] == '-' && text[k + 2]
            == '>')
}

/// `start --> end`, as SubRip writes it.
pub open spec fn subrip_times(subtitle: Subtitle) -> Seq<char> {
    subrip_stamp(subtitle.start) + " --> "@ + subrip_stamp(subtitle.end)
}

/// The lines of a subtitle's block.
pub open spec fn block_lines(subtitle: Subtitle) -> Seq<Seq<char>> {
    match subtitle.counter {
        Some(digits) => seq![digits, subrip_times(subtitle)] + subtitle.lines,
        None => seq![subrip_times(subtitle)] + subtitle.lines,
    }
}

/// Blocks one behind the other, with an empty line between them.
pub open spec fn set_apart(blocks: Seq<Seq<char>>) -> Seq<char>
    decreases blocks.len(),
{
    if blocks.len() == 0 {
        Seq::empty()
    } else if blocks.len() == 1 {
        blocks[0]
    } else {
        blocks[0] + seq!['\n', '\n'] + set_apart(blocks.skip(1))
    }
}

/// What a subtitle says.
pub open spec fn subtitle_caption(subtitle: Subtitle) -> Caption {
    Caption {
        start: subtitle.start,
        end: subtitle.end,
        text: in_a_row(subtitle.lines, '\n'),
    }
}

/// A text whose lines are not empty.
pub(crate) open spec fn is_dense(s: Seq<char>) -> bool {
    &&& s.len() > 0
    &&& s[0] != '\n'
    &&& s.last() != '\n'
    &&& forall|i: int| 0 <= i < s.len() - 1 ==> !(#[trigger] s[i] == '\n' && s[i + 1] == '\n')
}

pub(crate) proof fn lemma_dense(ls: Seq<Seq<char>>)
    requires
        ls.len() > 0,
        forall|i: int|
            0 <= i < ls.len() ==> (#[trigger] ls[i]).len() > 0 && is_without(ls[i], '\n'),
    ensures
        is_dense(in_a_row(ls, '\n')),
        in_a_row(ls, '\n')[0] == ls[0][0],
    decreases ls.len(),
{
    let all = in_a_row(ls, '\n');
    let head = ls[0];
    assert(is_without(head, '\n'));
    assert(head.last() == head[head.len() - 1]);
    if ls.len() > 1 {
        let rest = ls.skip(1);
        assert forall|i: int| 0 <= i < rest.len() implies (#[trigger] rest[i]).len() > 0
            && is_without(rest[i], '\n') by {
            assert(rest[i] == ls[i + 1]);
        }
        lemma_dense(rest);
        let tail = in_a_row(rest, '\n');
        let k = head.len() as int;
        assert(all.last() == tail.last());
        assert forall|i: int| 0 <= i < all.len() - 1 implies !(#[trigger] all[i] == '\n' && all[i
            + 1] == '\n') by {
            if i < k {
                assert(all[i] == head[i]);
            } else if i == k {
                assert(all[i + 1] == tail[0]);
            } else {
                assert(all[i] == tail[i - k - 1]);
                assert(all[i + 1] == tail[i - k]);
            }
        }
    }
}

pub(crate) proof fn lemma_split_apart(blocks: Seq<Seq<char>>)
    requires
        blocks.len() > 0,
        forall|i: int| 0 <= i < blocks.len() ==> is_dense(#[trigger] blocks[i]),
    ensures
        split(set_apart(blocks), seq!['\n', '\n']) == blocks,
    decreases blocks.len(),
{
    let gap = seq!['\n', '\n'];
    let head = blocks[0];
    assert(is_dense(blocks[0]));
    if blocks.len() == 1 {
        assert forall|k: int| !occurs_at(head, gap, k) by {
            if occurs_at(head, gap, k) {
                assert(head.subrange(k, k + 2)[0] == head[k]);
                assert(head.subrange(k, k + 2)[1] == head[k + 1]);
            }
        }
        lemma_split_whole(head, gap);
        assert(seq![head] =~= blocks);
    } else {
        let rest = blocks.skip(1);
        assert forall|i: int| 0 <= i < rest.len() implies is_dense(#[trigger] rest[i]) by {
            assert(rest[i] == blocks[i + 1]);
        }
        lemma_split_apart(rest);
        lemma_split_gap(head, set_apart(rest));
        assert(seq![head] + rest =~= blocks);
    }
}

pub(crate) proof fn lemma_apart_without(blocks: Seq<Seq<char>>, x: char)
    requires
        x != '\n',
        forall|i: int| 0 <= i < blocks.len() ==> is_without(#[trigger] blocks[i], x),
    ensures
        is_without(set_apart(blocks), x),
    decreases blocks.len(),
{
    if blocks.len() > 0 {
        assert(is_without(blocks[0], x));
    }
    if blocks.len() > 1 {
        let rest = blocks.skip(1);
        assert forall|i: int| 0 <= i < rest.len() implies is_without(#[trigger] rest[i], x) by {
            assert(rest[i] == blocks[i + 1]);
        }
        lemma_apart_without(rest, x);
        let all = set_apart(blocks);
        let k = blocks[0].len() as int;
        assert forall|i: int| 0 <= i < all.len() implies #[trigger] all[i] != x by {
            if i < k {
                assert(all[i] == blocks[0][i]);
            } else if i >= k + 2 {
                assert(all[i] == set_apart(rest)[i - k - 2]);
            }
        }
    }
}

/// The characters of a time in a SubRip file.
proof fn lemma_stamp_chars(n: nat)
    ensures
        subrip_stamp(n).len() > 0,
        forall|i: int|
            0 <= i < subrip_stamp(n).len() ==> is_digit(#[trigger] subrip_stamp(n)[i])
                || subrip_stamp(n)[i] == ':' || subrip_stamp(n)[i] == ',',
{
    let h = padded(n / 3_600_000, 2);
    let m = padded((n / 60_000) % 60, 2);
    let s = padded((n / 1_000) % 60, 2);
    let f = padded(n % 1_000, 3);
    lemma_padded(n / 3_600_000, 2);
    lemma_padded((n / 60_000) % 60, 2);
    lemma_padded((n / 1_000) % 60, 2);
    lemma_padded(n % 1_000, 3);
    let t = subrip_stamp(n);
    let a = h.len() as int;
    let b = a + 1 + m.len();
    let c = b + 1 + s.len();
    assert forall|i: int| 0 <= i < t.len() implies is_digit(#[trigger] t[i]) || t[i] == ':' || t[i]
        == ',' by {
        if i < a {
            assert(t[i] == h[i]);
        } else if a < i < b {
            assert(t[i] == m[i - a - 1]);
        } else if b < i < c {
            assert(t[i] == s[i - b - 1]);
        } else if c < i {
            assert(t[i] == f[i - c - 1]);
        }
    }
}

/// The characters of a time.
spec fn is_clock(s: Seq<char>) -> bool {
    &&& s.len() > 0
    &&& is_digit(s[0])
    &&& forall|i: int| 0 <= i < s.len() ==> is_digit(#[trigger] s[i]) || s[i] == ':' || s[i] == ','
}

proof fn lemma_before(start: Seq<char>)
    requires
        is_clock(start),
    ensures
        trim(start + seq![' '], CharClass::Blank) == start,
        is_without(start + seq![' '], '-'),
{
    let before = start + seq![' '];
    assert forall|i: int| 0 <= i < before.len() implies #[trigger] before[i] != '-' by {
        if i < start.len() {
            assert(before[i] == start[i]);
        }
    }
    assert(before[before.len() - 2] == start[start.len() - 1]);
    lemma_tail_run_is(before, CharClass::Blank, 1);
    assert(trim_end(before, CharClass::Blank) =~= start);
    lemma_run_is(start, CharClass::Blank, 0);
    assert(start.skip(0) =~= start);
}

proof fn lemma_behind(end: Seq<char>)
    requires
        is_clock(end),
    ensures
        ({
            let rest = trim_start(seq![' '] + end, CharClass::Blank);
            &&& rest == end
            &&& first_in(rest, CharClass::Blank) == end.len()
        }),
        !holds_text(seq![' '] + end, arrow()),
{
    let behind = seq![' '] + end;
    assert(behind[1] == end[0]);
    lemma_run_is(behind, CharClass::Blank, 1);
    assert(trim_start(behind, CharClass::Blank) =~= end);
    lemma_first_in(end, CharClass::Blank);
    let n = first_in(end, CharClass::Blank) as int;
    if n < end.len() {
        assert(is_digit(end[n]) || end[n] == ':' || end[n] == ',');
    }
    assert forall|k: int| !occurs_at(behind, arrow(), k) by {
        if occurs_at(behind, arrow(), k) {
            assert(behind.subrange(k, k + 3)[0] == behind[k]);
            if k > 0 {
                assert(behind[k] == end[k - 1]);
            }
        }
    }
}

proof fn lemma_timing(start: Seq<char>, end: Seq<char>, a: u64, b: u64)
    requires
        is_clock(start),
        is_clock(end),
        caption_time(start, true) == Some(a),
        caption_time(end, true) == Some(b),
    ensures
        timing(start + " --> "@ + end, true) == Some((a, b, Seq::<char>::empty())),
        holds_text(start + " --> "@ + end, arrow()),
{
    let line = start + " --> "@ + end;
    reveal_strlit(" --> ");
    let before = start + seq![' '];
    let behind = seq![' '] + end;
    assert(line =~= before + arrow() + behind);
    lemma_before(start);
    lemma_behind(end);
    lemma_arrow_at(before, behind);
    assert(end.take(end.len() as int) =~= end);
    assert(end.skip(end.len() as int) =~= Seq::<char>::empty());
}

proof fn lemma_timing_chars(start: Seq<char>, end: Seq<char>)
    requires
        is_clock(start),
        is_clock(end),
    ensures
        ({
            let line = start + " --> "@ + end;
            &&& is_digit(line[0])
            &&& line.len() > 0
            &&& is_without(line, '\n') && is_without(line, '\r') && is_without(line, '\0')
        }),
{
    let line = start + " --> "@ + end;
    reveal_strlit(" --> ");
    assert(line[0] == start[0]);
    assert forall|i: int| 0 <= i < line.len() implies #[trigger] line[i] != '\n' && line[i] != '\r'
        && line[i] != '\0' by {
        if i < start.len() {
            assert(line[i] == start[i]);
        } else if i >= start.len() + 5 {
            assert(line[i] == end[i - start.len() - 5]);
        }
    }
}

proof fn lemma_times(subtitle: Subtitle)
    requires
        is_block(subtitle),
    ensures
        timing(subrip_times(subtitle), true) == Some(
            (subtitle.start as u64, subtitle.end as u64, Seq::<char>::empty()),
        ),
        holds_text(subrip_times(subtitle), arrow()),
        is_digit(subrip_times(subtitle)[0]),
        subrip_times(subtitle).len() > 0,
        is_without(subrip_times(subtitle), '\n'),
        is_without(subrip_times(subtitle), '\r'),
        is_without(subrip_times(subtitle), '\0'),
{
    let start = subrip_stamp(subtitle.start);
    let end = subrip_stamp(subtitle.end);
    lemma_stamp_chars(subtitle.start);
    lemma_stamp_chars(subtitle.end);
    lemma_stamp_begins(subtitle.start);
    lemma_stamp_begins(subtitle.end);
    lemma_subrip_stamp(subtitle.start as u64);
    lemma_subrip_stamp(subtitle.end as u64);
    lemma_timing(start, end, subtitle.start as u64, subtitle.end as u64);
    lemma_timing_chars(start, end);
}

proof fn lemma_stamp_begins(n: nat)
    ensures
        is_digit(subrip_stamp(n)[0]),
{
    let h = padded(n / 3_600_000, 2);
    lemma_padded(n / 3_600_000, 2);
    assert(subrip_stamp(n)[0] == h[0]);
}

proof fn lemma_join_is_row(parts: Seq<Seq<char>>)
    ensures
        join(parts, seq!['\n']) == in_a_row(parts, '\n'),
    decreases parts.len(),
{
    if parts.len() > 1 {
        lemma_join_is_row(parts.skip(1));
    }
}

proof fn lemma_no_arrow(text: Seq<char>)
    requires
        forall|k: int|
            0 <= k < text.len() - 2 ==> !(#[trigger] text[k] == '-' && text[k + 1] == '-' && text[k
                + 2] == '>'),
    ensures
        !holds_text(text, arrow()),
        replaced(text, arrow(), escaped_arrow()) == text,
{
    assert forall|k: int| !occurs_at(text, arrow(), k) by {
        if occurs_at(text, arrow(), k) {
            let part = text.subrange(k, k + 3);
            assert(part[0] == text[k] && part[1] == text[k + 1] && part[2] == text[k + 2]);
        }
    }
    lemma_split_whole(text, arrow());
    assert(seq![text][0] == text);
}

/// The lines of a block are lines.
proof fn lemma_block_lines(subtitle: Subtitle, i: int)
    requires
        is_block(subtitle),
        0 <= i < block_lines(subtitle).len(),
    ensures
        block_lines(subtitle)[i].len() > 0,
        is_without(block_lines(subtitle)[i], '\n'),
        is_without(block_lines(subtitle)[i], '\r'),
        is_without(block_lines(subtitle)[i], '\0'),
        i == 0 ==> is_digit(block_lines(subtitle)[0][0]),
{
    let ls = block_lines(subtitle);
    lemma_times(subtitle);
    match subtitle.counter {
        Some(digits) => {
            if i == 0 {
                assert forall|j: int| 0 <= j < digits.len() implies is_digit(#[trigger] digits[j]) by {}
            } else if i > 1 {
                assert(ls[i] == subtitle.lines[i - 2]);
            }
        },
        None => {
            if i > 0 {
                assert(ls[i] == subtitle.lines[i - 1]);
            }
        },
    }
}

/// The cue of a subtitle.
spec fn cue_of(subtitle: Subtitle) -> Cue {
    Cue {
        start: subtitle.start as u64,
        end: subtitle.end as u64,
        settings: Seq::empty(),
        text: in_a_row(subtitle.lines, '\n'),
    }
}

/// The block of a subtitle.
pub open spec fn subtitle_block(subtitle: Subtitle) -> Seq<char> {
    in_a_row(block_lines(subtitle), '\n')
}

proof fn lemma_subtitle(subtitle: Subtitle)
    requires
        is_block(subtitle),
    ensures
        subtitle.start < subtitle.end ==> srt_cue(subtitle_block(subtitle)) == Some(
            cue_of(subtitle),
        ),
        subtitle.start >= subtitle.end ==> srt_cue(subtitle_block(subtitle)) is None,
        is_dense(subtitle_block(subtitle)),
        is_digit(subtitle_block(subtitle)[0]),
        is_without(subtitle_block(subtitle), '\r'),
        is_without(subtitle_block(subtitle), '\0'),
        trim(subtitle_block(subtitle), CharClass::White).len() > 0,
{
    let ls = block_lines(subtitle);
    let block = subtitle_block(subtitle);
    assert forall|i: int| 0 <= i < ls.len() implies (#[trigger] ls[i]).len() > 0 && is_without(
        ls[i],
        '\n',
    ) && is_without(ls[i], '\r') && is_without(ls[i], '\0') by {
        lemma_block_lines(subtitle, i);
    }
    lemma_block_lines(subtitle, 0);
    lemma_dense(ls);
    lemma_row_without(ls, '\n', '\r');
    lemma_row_without(ls, '\n', '\0');
    lemma_lines_row(ls);
    lemma_times(subtitle);
    let at: int = match subtitle.counter {
        Some(digits) => {
            assert(!holds_text(digits, arrow())) by {
                assert forall|k: int| !occurs_at(digits, arrow(), k) by {
                    if occurs_at(digits, arrow(), k) {
                        assert(digits.subrange(k, k + 3)[0] == digits[k]);
                        assert(is_digit(digits[k]));
                    }
                }
            }
            assert(is_digit(digits[0]) && is_digit(digits[digits.len() - 1]));
            lemma_trim_nothing(digits, CharClass::White);
            1
        },
        None => 0,
    };
    assert(ls[at] == subrip_times(subtitle));
    assert(ls.skip(at + 1) =~= subtitle.lines);
    lemma_join_is_row(subtitle.lines);
    lemma_no_arrow(in_a_row(subtitle.lines, '\n'));
    lemma_tail_run(block, CharClass::White);
    let end = trim_end(block, CharClass::White);
    if end.len() == 0 {
        assert(CharClass::White.has(block[0]));
    }
    assert(end[0] == block[0]);
    lemma_run_is(end, CharClass::White, 0);
}

proof fn lemma_subtitles(subtitles: Seq<Subtitle>, n: int)
    requires
        0 <= n <= subtitles.len(),
        forall|i: int| 0 <= i < subtitles.len() ==> is_subtitle(#[trigger] subtitles[i]),
    ensures
        srt_cues(subtitles.map_values(|subtitle: Subtitle| subtitle_block(subtitle)), n) == Some(
            Seq::new(n as nat, |i: int| cue_of(subtitles[i])),
        ),
    decreases n,
{
    let blocks = subtitles.map_values(|subtitle: Subtitle| subtitle_block(subtitle));
    if n == 0 {
        assert(Seq::new(0, |i: int| cue_of(subtitles[i])) =~= Seq::<Cue>::empty());
    } else {
        lemma_subtitles(subtitles, n - 1);
        assert(is_subtitle(subtitles[n - 1]));
        assert(blocks[n - 1] == subtitle_block(subtitles[n - 1]));
        lemma_subtitle(subtitles[n - 1]);
        assert(Seq::new((n - 1) as nat, |i: int| cue_of(subtitles[i])).push(
            cue_of(subtitles[n - 1]),
        ) =~= Seq::new(n as nat, |i: int| cue_of(subtitles[i])));
    }
}

/// A SubRip file becomes the track of exactly its subtitles, in order, each shown
/// from its start to its end with its lines as they are.
pub proof fn law_subrip_files_become_their_captions(
    subtitles: Seq<Subtitle>,
    body: &[u8],
    result: Result<Vec<u8>, BrowserCaptionError>,
)
    requires
        call_ensures(caption_to_webvtt, (CaptionWebVttConversion::SubRipToWebVtt, body), result),
        subtitles.len() > 0,
        forall|i: int| 0 <= i < subtitles.len() ==> is_subtitle(#[trigger] subtitles[i]),
        is_sidecar(
            body@,
            set_apart(subtitles.map_values(|subtitle: Subtitle| subtitle_block(subtitle))),
        ),
        ({
            let captions = subtitles.map_values(|subtitle: Subtitle| subtitle_caption(subtitle));
            encode_utf8(track_of(captions)).len() <= 6 * 8_388_608
        }),
    ensures
        result is Ok,
        result->Ok_0@ == encode_utf8(
            track_of(subtitles.map_values(|subtitle: Subtitle| subtitle_caption(subtitle))),
        ),
{
    let blocks = subtitles.map_values(|subtitle: Subtitle| subtitle_block(subtitle));
    let captions = subtitles.map_values(|subtitle: Subtitle| subtitle_caption(subtitle));
    let text = set_apart(blocks);
    let n = subtitles.len() as int;
    assert forall|i: int| 0 <= i < blocks.len() implies is_dense(#[trigger] blocks[i])
        && is_without(blocks[i], '\r') && is_without(blocks[i], '\0') by {
        assert(is_subtitle(subtitles[i]));
        lemma_subtitle(subtitles[i]);
    }
    assert(is_subtitle(subtitles[0]));
    lemma_subtitle(subtitles[0]);
    lemma_split_apart(blocks);
    lemma_apart_without(blocks, '\r');
    lemma_apart_without(blocks, '\0');
    assert(text[0] == blocks[0][0]);
    lemma_sidecar(body@, text);
    lemma_subtitles(subtitles, n);
    let cues = Seq::new(n as nat, |i: int| cue_of(subtitles[i]));
    assert forall|i: int| 0 <= i < cues.len() implies {
        &&& (#[trigger] cues[i]).start == captions[i].start
        &&& cues[i].end == captions[i].end
        &&& cues[i].text == captions[i].text
        &&& cues[i].settings.len() == 0
    } by {
        assert(is_subtitle(subtitles[i]));
    }
    lemma_track_of(captions, cues);
    assert(srt_file_cues(text) == Some(cues));
}

proof fn lemma_backwards(subtitles: Seq<Subtitle>, n: int, k: int)
    requires
        0 <= k < n <= subtitles.len(),
        forall|i: int| 0 <= i < subtitles.len() ==> is_block(#[trigger] subtitles[i]),
        subtitles[k].start >= subtitles[k].end,
    ensures
        srt_cues(subtitles.map_values(|subtitle: Subtitle| subtitle_block(subtitle)), n) is None,
    decreases n,
{
    let blocks = subtitles.map_values(|subtitle: Subtitle| subtitle_block(subtitle));
    if k < n - 1 {
        lemma_backwards(subtitles, n - 1, k);
    } else {
        assert(is_block(subtitles[k]));
        assert(blocks[k] == subtitle_block(subtitles[k]));
        lemma_subtitle(subtitles[k]);
    }
}

/// A SubRip file with a subtitle that does not end after it begins is malformed,
/// wherever that stands.
pub proof fn law_subrip_times_move_forward(
    subtitles: Seq<Subtitle>,
    body: &[u8],
    result: Result<Vec<u8>, BrowserCaptionError>,
    k: int,
)
    requires
        call_ensures(caption_to_webvtt, (CaptionWebVttConversion::SubRipToWebVtt, body), result),
        forall|i: int| 0 <= i < subtitles.len() ==> is_block(#[trigger] subtitles[i]),
        is_sidecar(
            body@,
            set_apart(subtitles.map_values(|subtitle: Subtitle| subtitle_block(subtitle))),
        ),
        0 <= k < subtitles.len(),
        subtitles[k].start >= subtitles[k].end,
    ensures
        result == Err::<Vec<u8>, BrowserCaptionError>(BrowserCaptionError::Malformed),
{
    let blocks = subtitles.map_values(|subtitle: Subtitle| subtitle_block(subtitle));
    let text = set_apart(blocks);
    assert forall|i: int| 0 <= i < blocks.len() implies is_dense(#[trigger] blocks[i])
        && is_without(blocks[i], '\r') && is_without(blocks[i], '\0') by {
        assert(is_block(subtitles[i]));
        lemma_subtitle(subtitles[i]);
    }
    assert(is_block(subtitles[0]));
    lemma_subtitle(subtitles[0]);
    lemma_split_apart(blocks);
    lemma_apart_without(blocks, '\r');
    lemma_apart_without(blocks, '\0');
    assert(text[0] == blocks[0][0]);
    lemma_sidecar(body@, text);
    lemma_backwards(subtitles, subtitles.len() as int, k);
    assert(srt_file_cues(text) is None);
}

/// Whether a caption is one of plain text.
pub open spec fn is_caption(caption: Caption) -> bool {
    caption.start < caption.end <= u64::MAX && is_plain(caption.text)
}

/// A WebVTT file stays as it is, but for the empty line at its end.
pub proof fn law_webvtt_files_stay(
    captions: Seq<Caption>,
    body: &[u8],
    result: Result<Vec<u8>, BrowserCaptionError>,
)
    requires
        call_ensures(caption_to_webvtt, (CaptionWebVttConversion::ValidateWebVtt, body), result),
        captions.len() > 0,
        forall|i: int| 0 <= i < captions.len() ==> is_caption(#[trigger] captions[i]),
        is_sidecar(body@, track_of(captions)),
    ensures
        result is Ok,
        result->Ok_0@ == encode_utf8(track_of(captions).drop_last()),
{
    let text = track_of(captions);
    let cues = captions.map_values(|caption: Caption| plain_cue(caption));
    assert forall|i: int| 0 <= i < cues.len() implies {
        &&& (#[trigger] cues[i]).start == captions[i].start
        &&& cues[i].end == captions[i].end
        &&& cues[i].text == captions[i].text
        &&& cues[i].settings.len() == 0
        &&& crate::caption::cue::is_sound_cue(cues[i])
    } by {
        assert(is_caption(captions[i]));
        lemma_plain_cue(captions[i]);
    }
    lemma_track_of(captions, cues);
    law_sound_cues_make_a_track(cues);
    assert forall|i: int| 0 <= i < captions.len() implies is_without(
        (#[trigger] captions[i]).text,
        '\r',
    ) && is_without(captions[i].text, '\0') by {
        assert(is_caption(captions[i]));
    }
    lemma_track_without(captions, '\r');
    lemma_track_without(captions, '\0');
    lemma_track_begins(captions);
    lemma_sidecar(body@, text);
    let last = captions.last();
    assert(is_caption(captions[captions.len() - 1]));
    lemma_track_ends(
        track_of(captions.drop_last()) + crate::law::clock::webvtt_stamp(last.start) + " --> "@
            + crate::law::clock::webvtt_stamp(last.end) + seq!['\n'],
        last.text,
    );
}

/// Of the two line feeds behind a text one is kept.
proof fn lemma_track_ends(head: Seq<char>, said: Seq<char>)
    requires
        is_plain(said),
    ensures
        ({
            let text = head + said + seq!['\n', '\n'];
            trim_end(text, CharClass::Newline).push('\n') == text.drop_last()
        }),
{
    let text = head + said + seq!['\n', '\n'];
    assert(text[text.len() - 3] == said[said.len() - 1]);
    lemma_tail_run_is(text, CharClass::Newline, 2);
    assert(trim_end(text, CharClass::Newline).push('\n') =~= text.drop_last());
}

/// The cue of a caption of plain text.
spec fn plain_cue(caption: Caption) -> Cue {
    Cue {
        start: caption.start as u64,
        end: caption.end as u64,
        settings: Seq::empty(),
        text: caption.text,
    }
}

proof fn lemma_plain_cue(caption: Caption)
    requires
        is_caption(caption),
    ensures
        crate::caption::cue::is_sound_cue(plain_cue(caption)),
{
    let said = caption.text;
    assert forall|k: int| 0 <= k < said.len() - 2 implies !(#[trigger] said[k] == '-' && said[k + 1]
        == '-' && said[k + 2] == '>') by {
        assert(said[k + 2] != '>');
    }
    lemma_no_arrow(said);
    assert(said.last() == said[said.len() - 1]);
    lemma_no_arrow(Seq::empty());
}

proof fn lemma_track_without(captions: Seq<Caption>, x: char)
    requires
        x == '\r' || x == '\0',
        forall|i: int| 0 <= i < captions.len() ==> is_without((#[trigger] captions[i]).text, x),
    ensures
        is_without(track_of(captions), x),
    decreases captions.len(),
{
    let all = track_of(captions);
    reveal_strlit("WEBVTT");
    reveal_strlit(" --> ");
    if captions.len() > 0 {
        let before = captions.drop_last();
        let last = captions.last();
        assert(last == captions[captions.len() - 1]);
        assert forall|i: int| 0 <= i < before.len() implies is_without(
            (#[trigger] before[i]).text,
            x,
        ) by {
            assert(before[i] == captions[i]);
        }
        lemma_track_without(before, x);
        let a = crate::law::clock::webvtt_stamp(last.start);
        let b = crate::law::clock::webvtt_stamp(last.end);
        crate::caption::vtt::lemma_vtt_time_chars(last.start);
        crate::caption::vtt::lemma_vtt_time_chars(last.end);
        let head = track_of(before);
        let p = head.len() as int;
        let q = p + a.len();
        let r = q + 5 + b.len();
        assert forall|i: int| 0 <= i < all.len() implies #[trigger] all[i] != x by {
            if i < p {
                assert(all[i] == head[i]);
            } else if i < q {
                assert(all[i] == a[i - p]);
            } else if q + 5 <= i < r {
                assert(all[i] == b[i - q - 5]);
            } else if r + 1 <= i < r + 1 + last.text.len() {
                assert(all[i] == last.text[i - r - 1]);
            }
        }
    }
}

proof fn lemma_track_begins(captions: Seq<Caption>)
    ensures
        track_of(captions).len() > 0,
        track_of(captions)[0] == 'W',
    decreases captions.len(),
{
    reveal_strlit("WEBVTT");
    if captions.len() > 0 {
        lemma_track_begins(captions.drop_last());
    }
}

} // verus!
