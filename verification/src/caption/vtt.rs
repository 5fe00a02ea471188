//! WebVTT: timing lines and the structure of a track.
use crate::caption::cue::{
    all_sound, arrow, cue_block, cue_blocks, is_settings, is_sound_cue, timing_line, track,
    BrowserCaptionError, Cue,
};
use crate::caption::time::{caption_time, law_time_round_trip, parse_caption_chars, vtt_time};
use crate::text::{
    append_chars, begins_with, find, first_in, holds_text, index_in, index_of, is_text,
    lemma_find, lemma_find_is, lines, lines_of, occurs_at, split, split_text, starts_with,
    texts, trim, trim_end, trim_start, trimmed, trimmed_end, trimmed_start, CharClass,
};
use vstd::prelude::*;
use vstd::slice::slice_subrange;

verus! {

/// The start, the end and the settings of a timing line: two timestamps around
/// one arrow that blanks set off, and what follows the second.
pub open spec fn timing(line: Seq<char>, subrip: bool) -> Option<(u64, u64, Seq<char>)> {
    match find(line, arrow()) {
        Some(k) => {
            let before = line.take(k);
            let behind = line.skip(k + 3);
            let rest = trim_start(behind, CharClass::Blank);
            let n = first_in(rest, CharClass::Blank) as int;
            if before.len() > 0 && CharClass::Blank.has(before.last()) && behind.len() > 0
                && CharClass::Blank.has(behind[0]) && !holds_text(behind, arrow()) {
                match (
                    caption_time(trim(before, CharClass::Blank), subrip),
                    caption_time(rest.take(n), subrip),
                ) {
                    (Some(start), Some(end)) => Some((start, end, rest.skip(n))),
                    _ => None,
                }
            } else {
                None
            }
        },
        None => None,
    }
}

/// What a block of a track is.
#[derive(Clone, Copy, PartialEq, Eq, Structural)]
pub enum Block {
    /// No text at all.
    Empty,
    /// A comment.
    Note,
    /// A style or a region.
    Definition,
    /// A caption.
    Cue,
    /// None of these.
    Invalid,
}

/// `NOTE`, alone or followed by a blank.
pub open spec fn is_note(first: Seq<char>) -> bool {
    first == "NOTE"@ || starts_with(first, "NOTE "@) || starts_with(first, "NOTE\t"@)
}

/// `STYLE` or `REGION`, blanks behind it aside.
pub open spec fn is_definition(first: Seq<char>) -> bool {
    let word = trim_end(first, CharClass::Blank);
    word == "STYLE"@ || word == "REGION"@
}

/// The lines from index `from` on hold no arrow.
pub open spec fn no_arrow_from(ls: Seq<Seq<char>>, from: int) -> bool {
    forall|i: int| from <= i < ls.len() ==> !holds_text(#[trigger] ls[i], arrow())
}

/// A cue: an optional identifier line, a timing line that moves forward, and
/// text without an arrow.
pub open spec fn is_cue(ls: Seq<Seq<char>>) -> bool {
    let at: int = if holds_text(ls[0], arrow()) {
        0
    } else {
        1
    };
    at < ls.len() && no_arrow_from(ls, at + 1) && match timing(ls[at], false) {
        Some((start, end, _)) => start < end,
        None => false,
    }
}

/// What the part between two empty lines is.
pub open spec fn block_of(part: Seq<char>) -> Block {
    let block = trim(part, CharClass::Newline);
    let ls = lines(block);
    if block.len() == 0 {
        Block::Empty
    } else if (is_note(ls[0]) || is_definition(ls[0])) && !(ls.len() > 1 && holds_text(
        ls[1],
        arrow(),
    )) {
        if holds_text(block, arrow()) {
            Block::Invalid
        } else if is_definition(ls[0]) {
            Block::Definition
        } else {
            Block::Note
        }
    } else if is_cue(ls) {
        Block::Cue
    } else {
        Block::Invalid
    }
}

/// `WEBVTT`, alone or followed by a blank, with no arrow in the lines below.
pub open spec fn is_header(part: Seq<char>) -> bool {
    let ls = lines(part);
    &&& ls.len() > 0
    &&& ls[0] == "WEBVTT"@ || starts_with(ls[0], "WEBVTT "@) || starts_with(ls[0], "WEBVTT\t"@)
    &&& no_arrow_from(ls, 1)
}

/// Whether a cue stands among the parts from the second up to index `end`.
pub open spec fn cue_before(parts: Seq<Seq<char>>, end: int) -> bool {
    exists|i: int| 1 <= i < end && #[trigger] block_of(parts[i]) == Block::Cue
}

/// The parts up to index `end` are blocks of a track, and no definition follows
/// a cue.
pub open spec fn is_body(parts: Seq<Seq<char>>, end: int) -> bool {
    forall|i: int|
        1 <= i < end ==> {
            &&& #[trigger] block_of(parts[i]) != Block::Invalid
            &&& block_of(parts[i]) == Block::Definition ==> !cue_before(parts, i)
        }
}

/// The text is a WebVTT track.
pub open spec fn is_track(text: Seq<char>) -> bool {
    let parts = split(text, seq!['\n', '\n']);
    is_header(parts[0]) && is_body(parts, parts.len() as int)
}

/// A valid track with exactly one line feed at its end.
pub open spec fn validated(text: Seq<char>) -> Option<Seq<char>> {
    if is_track(text) {
        Some(trim_end(text, CharClass::Newline).push('\n'))
    } else {
        None
    }
}

/// Reads a timing line.
pub fn caption_timing(line: &[char], subrip: bool) -> (result: Result<
    (u64, u64, &[char]),
    BrowserCaptionError,
>)
    ensures
        match result {
            Ok((start, end, settings)) => timing(line@, subrip) == Some((start, end, settings@)),
            Err(error) => error == BrowserCaptionError::Malformed && timing(line@, subrip) is None,
        },
{
    let mark: [char; 3] = ['-', '-', '>'];
    assert(mark@ =~= arrow());
    let k: usize = match index_of(line, &mark) {
        Some(k) => k,
        None => {
            return Err(BrowserCaptionError::Malformed);
        },
    };
    proof {
        lemma_find(line@, arrow());
    }
    let len: usize = line.len();
    assert(k + 3 <= len);
    let before = slice_subrange(line, 0, k);
    let behind = slice_subrange(line, k + 3, len);
    proof {
        assert(before@ =~= line@.take(k as int));
        assert(behind@ =~= line@.skip(k + 3));
        lemma_find(behind@, arrow());
    }
    if before.len() == 0 || !CharClass::Blank.test(before[before.len() - 1]) || behind.len() == 0
        || !CharClass::Blank.test(behind[0]) || index_of(behind, &mark).is_some() {
        return Err(BrowserCaptionError::Malformed);
    }
    let rest = trimmed_start(behind, CharClass::Blank);
    let n: usize = index_in(rest, CharClass::Blank);
    let end_text = slice_subrange(rest, 0, n);
    let settings = slice_subrange(rest, n, rest.len());
    proof {
        assert(end_text@ =~= rest@.take(n as int));
        assert(settings@ =~= rest@.skip(n as int));
    }
    let start = parse_caption_chars(trimmed(before, CharClass::Blank), subrip);
    let end = parse_caption_chars(end_text, subrip);
    match (start, end) {
        (Some(start), Some(end)) => Ok((start, end, settings)),
        _ => Err(BrowserCaptionError::Malformed),
    }
}

fn any_arrow_from(ls: &Vec<&[char]>, from: usize) -> (found: bool)
    ensures
        found == !no_arrow_from(texts(ls@), from as int),
{
    let mark: [char; 3] = ['-', '-', '>'];
    assert(mark@ =~= arrow());
    let mut i: usize = from;
    while i < ls.len()
        invariant
            from <= i,
            mark@ == arrow(),
            forall|j: int| from <= j < i && j < ls@.len() ==> !holds_text(#[trigger] texts(ls@)[j], arrow()),
        decreases ls.len() - i,
    {
        proof {
            lemma_find(ls@[i as int]@, arrow());
            assert(texts(ls@)[i as int] == ls@[i as int]@);
        }
        if index_of(ls[i], &mark).is_some() {
            return true;
        }
        i += 1;
    }
    false
}

fn has_arrow(text: &[char]) -> (found: bool)
    ensures
        found == holds_text(text@, arrow()),
{
    let mark: [char; 3] = ['-', '-', '>'];
    proof {
        assert(mark@ =~= arrow());
        lemma_find(text@, arrow());
    }
    index_of(text, &mark).is_some()
}

/// Text with something in it has a line.
pub proof fn lemma_lines_nonempty(s: Seq<char>)
    requires
        s.len() > 0,
    ensures
        lines(s).len() > 0,
{
    let parts = split(s, seq!['\n']);
    lemma_find(s, seq!['\n']);
    match find(s, seq!['\n']) {
        Some(k) => {
            crate::text::lemma_split_nonempty(s.skip(k + 1), seq!['\n']);
            assert(parts.len() >= 2);
        },
        None => {
            assert(parts =~= seq![s]);
            assert(parts.last() == s);
        },
    }
}

fn classify(part: &[char]) -> (result: Block)
    ensures
        result == block_of(part@),
{
    let block = trimmed(part, CharClass::Newline);
    if block.len() == 0 {
        return Block::Empty;
    }
    proof {
        lemma_lines_nonempty(block@);
    }
    let ls = lines_of(block);
    proof {
        assert(texts(ls@).len() == ls@.len());
        assert(forall|i: int| 0 <= i < ls@.len() ==> #[trigger] texts(ls@)[i] == ls@[i]@);
        assert(texts(ls@)[0] == ls@[0]@);
    }
    let first = ls[0];
    let note = is_text(first, "NOTE") || begins_with(first, "NOTE ") || begins_with(
        first,
        "NOTE\t",
    );
    let word = trimmed_end(first, CharClass::Blank);
    let definition = is_text(word, "STYLE") || is_text(word, "REGION");
    if note || definition {
        let cue_follows = if ls.len() > 1 {
            assert(texts(ls@)[1] == ls@[1]@);
            has_arrow(ls[1])
        } else {
            false
        };
        if !cue_follows {
            return if has_arrow(block) {
                Block::Invalid
            } else if definition {
                Block::Definition
            } else {
                Block::Note
            };
        }
    }
    let at: usize = if has_arrow(first) {
        0
    } else {
        1
    };
    if at >= ls.len() {
        return Block::Invalid;
    }
    assert(texts(ls@)[at as int] == ls@[at as int]@);
    match caption_timing(ls[at], false) {
        Ok((start, end, _)) => {
            if end <= start || any_arrow_from(&ls, at + 1) {
                Block::Invalid
            } else {
                Block::Cue
            }
        },
        Err(_) => Block::Invalid,
    }
}

fn check_header(part: &[char]) -> (result: bool)
    ensures
        result == is_header(part@),
{
    let ls = lines_of(part);
    assert(texts(ls@).len() == ls@.len());
    if ls.len() == 0 {
        return false;
    }
    assert(texts(ls@)[0] == ls@[0]@);
    let first = ls[0];
    (is_text(first, "WEBVTT") || begins_with(first, "WEBVTT ") || begins_with(first, "WEBVTT\t"))
        && !any_arrow_from(&ls, 1)
}

/// Accepts a WebVTT track and gives it one line feed at its end.
pub fn validate_webvtt(text: &[char]) -> (result: Result<Vec<char>, BrowserCaptionError>)
    ensures
        match result {
            Ok(track) => validated(text@) == Some(track@),
            Err(error) => error == BrowserCaptionError::Malformed && validated(text@) is None,
        },
{
    let gap: [char; 2] = ['\n', '\n'];
    assert(gap@ =~= seq!['\n', '\n']);
    let blocks = split_text(text, &gap);
    let ghost parts = split(text@, seq!['\n', '\n']);
    proof {
        crate::text::lemma_split_nonempty(text@, seq!['\n', '\n']);
        assert(texts(blocks@) == parts);
        assert(parts.len() == blocks@.len());
        assert(parts[0] == blocks@[0]@);
    }
    if !check_header(blocks[0]) {
        return Err(BrowserCaptionError::Malformed);
    }
    let mut saw_cue = false;
    let mut i: usize = 1;
    while i < blocks.len()
        invariant
            1 <= i <= blocks.len(),
            texts(blocks@) == parts,
            parts == split(text@, seq!['\n', '\n']),
            parts.len() == blocks@.len(),
            is_header(parts[0]),
            is_body(parts, i as int),
            saw_cue == cue_before(parts, i as int),
        decreases blocks.len() - i,
    {
        assert(parts[i as int] == blocks@[i as int]@);
        let block = classify(blocks[i]);
        if block == Block::Invalid || (block == Block::Definition && saw_cue) {
            assert(block_of(parts[i as int]) == block);
            assert(!is_body(parts, parts.len() as int));
            return Err(BrowserCaptionError::Malformed);
        }
        proof {
            assert(block_of(parts[i as int]) == block);
            if block == Block::Cue {
                assert(cue_before(parts, i + 1));
            } else if cue_before(parts, i + 1) {
                let j = choose|j: int|
                    1 <= j < i + 1 && #[trigger] block_of(parts[j]) == Block::Cue;
                assert(j < i);
                assert(cue_before(parts, i as int));
            } else {
                assert(!cue_before(parts, i as int)) by {
                    if cue_before(parts, i as int) {
                        let j = choose|j: int|
                            1 <= j < i && #[trigger] block_of(parts[j]) == Block::Cue;
                        assert(1 <= j < i + 1);
                    }
                }
            }
        }
        if block == Block::Cue {
            saw_cue = true;
        }
        i += 1;
    }
    let mut track: Vec<char> = Vec::new();
    append_chars(&mut track, trimmed_end(text, CharClass::Newline));
    track.push('\n');
    assert(track@ =~= trim_end(text@, CharClass::Newline).push('\n'));
    Ok(track)
}


// -------------------------------------------------------------------- laws

/// A timestamp is made of digits, colons and a full stop.
pub(crate) proof fn lemma_vtt_time_chars(n: nat)
    ensures
        vtt_time(n).len() > 0,
        crate::text::is_digit(vtt_time(n)[0]),
        forall|i: int|
            0 <= i < vtt_time(n).len() ==> {
                ||| crate::text::is_digit(#[trigger] vtt_time(n)[i])
                ||| vtt_time(n)[i] == ':'
                ||| vtt_time(n)[i] == '.'
            },
{
    let hours = crate::number::padded(n / 3_600_000, 2);
    let minutes = crate::number::padded((n / 60_000) % 60, 2);
    let seconds = crate::number::padded((n / 1_000) % 60, 2);
    let fraction = crate::number::padded(n % 1_000, 3);
    crate::number::lemma_padded(n / 3_600_000, 2);
    crate::number::lemma_padded((n / 60_000) % 60, 2);
    crate::number::lemma_padded((n / 1_000) % 60, 2);
    crate::number::lemma_padded(n % 1_000, 3);
    let t = vtt_time(n);
    let a = hours.len() as int;
    let b = a + 1 + minutes.len();
    let c = b + 1 + seconds.len();
    assert(t.len() == c + 1 + fraction.len());
    assert(t[0] == hours[0]);
    assert(crate::text::is_digit(hours[0]));
    assert forall|i: int| 0 <= i < t.len() implies {
        ||| crate::text::is_digit(#[trigger] t[i])
        ||| t[i] == ':'
        ||| t[i] == '.'
    } by {
        if i < a {
            assert(t[i] == hours[i]);
        } else if a < i < b {
            assert(t[i] == minutes[i - a - 1]);
        } else if b < i < c {
            assert(t[i] == seconds[i - b - 1]);
        } else if c < i {
            assert(t[i] == fraction[i - c - 1]);
        }
    }
}

/// A prefix without a hyphen adds no arrow.
proof fn lemma_prefix_no_arrow(prefix: Seq<char>, s: Seq<char>)
    requires
        forall|i: int| 0 <= i < prefix.len() ==> prefix[i] != '-',
        !holds_text(s, arrow()),
    ensures
        !holds_text(prefix + s, arrow()),
{
    let t = prefix + s;
    assert forall|k: int| !occurs_at(t, arrow(), k) by {
        if occurs_at(t, arrow(), k) {
            assert(t.subrange(k, k + 3)[0] == t[k]);
            assert(k >= prefix.len());
            let j = k - prefix.len();
            assert(s.subrange(j, j + 3) =~= t.subrange(k, k + 3));
            assert(occurs_at(s, arrow(), j));
        }
    }
}

/// The timing line of a cue is one line that begins with a digit.
pub(crate) proof fn lemma_timing_line_chars(cue: Cue)
    requires
        is_settings(cue.settings),
    ensures
        timing_line(cue).len() > 0,
        crate::text::is_digit(timing_line(cue)[0]),
        forall|i: int| 0 <= i < timing_line(cue).len() ==> #[trigger] timing_line(cue)[i] != '\n',
{
    let start = vtt_time(cue.start as nat);
    let end = vtt_time(cue.end as nat);
    lemma_vtt_time_chars(cue.start as nat);
    lemma_vtt_time_chars(cue.end as nat);
    let line = timing_line(cue);
    let k = start.len() as int + 1;
    let n = end.len() as int;
    assert(line[0] == start[0]);
    assert forall|i: int| 0 <= i < line.len() implies #[trigger] line[i] != '\n' by {
        if i < start.len() {
            assert(line[i] == start[i]);
        } else if i < k {
            assert(line[i] == ' ');
        } else if i < k + 3 {
            assert(line[i] == arrow()[i - k]);
        } else if i == k + 3 {
            assert(line[i] == ' ');
        } else if i < k + 4 + n {
            assert(line[i] == end[i - k - 4]);
        } else {
            assert(line[i] == cue.settings[i - k - 4 - n]);
        }
    }
}

/// What stands behind the arrow reads back as the end and the settings.
proof fn lemma_timing_behind(cue: Cue)
    requires
        is_settings(cue.settings),
    ensures
        ({
            let end = vtt_time(cue.end as nat);
            let behind = seq![' '] + (end + cue.settings);
            let rest = trim_start(behind, CharClass::Blank);
            &&& !holds_text(behind, arrow())
            &&& rest == end + cue.settings
            &&& first_in(rest, CharClass::Blank) == end.len()
            &&& rest.take(end.len() as int) == end
            &&& rest.skip(end.len() as int) == cue.settings
        }),
{
    let end = vtt_time(cue.end as nat);
    lemma_vtt_time_chars(cue.end as nat);
    let behind = seq![' '] + (end + cue.settings);
    let rest = end + cue.settings;
    let prefix = seq![' '] + end;
    assert forall|i: int| 0 <= i < prefix.len() implies prefix[i] != '-' by {
        if i > 0 {
            assert(prefix[i] == end[i - 1]);
        }
    }
    lemma_prefix_no_arrow(prefix, cue.settings);
    assert(behind =~= prefix + cue.settings);
    assert(rest[0] == end[0]);
    assert(behind[1] == rest[0]);
    crate::text::lemma_run_is(behind, CharClass::Blank, 1);
    assert(trim_start(behind, CharClass::Blank) =~= rest);
    let n = end.len() as int;
    crate::text::lemma_first_in(rest, CharClass::Blank);
    let f = first_in(rest, CharClass::Blank) as int;
    if f < n {
        assert(rest[f] == end[f]);
    }
    if n < f {
        assert(rest[n] == cue.settings[0]);
    }
    assert(rest.take(n) =~= end);
    assert(rest.skip(n) =~= cue.settings);
}

/// What stands before the arrow reads back as the start.
proof fn lemma_timing_before(cue: Cue)
    ensures
        trim(vtt_time(cue.start as nat) + seq![' '], CharClass::Blank) == vtt_time(
            cue.start as nat,
        ),
{
    let start = vtt_time(cue.start as nat);
    lemma_vtt_time_chars(cue.start as nat);
    let before = start + seq![' '];
    assert(before[before.len() - 2] == start[start.len() - 1]);
    crate::text::lemma_tail_run_is(before, CharClass::Blank, 1);
    assert(trim_end(before, CharClass::Blank) =~= start);
    crate::text::lemma_run_is(start, CharClass::Blank, 0);
    assert(trim(before, CharClass::Blank) =~= start);
}

/// Behind text without a hyphen the first arrow stands.
pub(crate) proof fn lemma_arrow_at(before: Seq<char>, behind: Seq<char>)
    requires
        forall|i: int| 0 <= i < before.len() ==> before[i] != '-',
    ensures
        find(before + arrow() + behind, arrow()) == Some(before.len() as int),
        holds_text(before + arrow() + behind, arrow()),
        (before + arrow() + behind).take(before.len() as int) == before,
        (before + arrow() + behind).skip(before.len() as int + 3) == behind,
{
    let line = before + arrow() + behind;
    let k = before.len() as int;
    assert(line.subrange(k, k + 3) =~= arrow());
    assert forall|j: int| 0 <= j < k implies !occurs_at(line, arrow(), j) by {
        if occurs_at(line, arrow(), j) {
            assert(line.subrange(j, j + 3)[0] == line[j]);
            assert(line[j] == before[j]);
        }
    }
    lemma_find_is(line, arrow(), k);
    lemma_find(line, arrow());
    assert(line.take(k) =~= before);
    assert(line.skip(k + 3) =~= behind);
}

/// A line whose pieces are timestamps is a timing line.
proof fn lemma_timing_is(before: Seq<char>, behind: Seq<char>, start: u64, end: u64)
    requires
        forall|i: int| 0 <= i < before.len() ==> before[i] != '-',
        before.len() > 0,
        CharClass::Blank.has(before.last()),
        behind.len() > 0,
        CharClass::Blank.has(behind[0]),
        !holds_text(behind, arrow()),
        caption_time(trim(before, CharClass::Blank), false) == Some(start),
        ({
            let rest = trim_start(behind, CharClass::Blank);
            caption_time(rest.take(first_in(rest, CharClass::Blank) as int), false) == Some(end)
        }),
    ensures
        ({
            let rest = trim_start(behind, CharClass::Blank);
            timing(before + arrow() + behind, false) == Some(
                (start, end, rest.skip(first_in(rest, CharClass::Blank) as int)),
            )
        }),
{
    lemma_arrow_at(before, behind);
}

/// The timing line of a cue reads back as its times and settings.
pub(crate) proof fn lemma_timing_line(cue: Cue)
    requires
        is_settings(cue.settings),
    ensures
        timing(timing_line(cue), false) == Some((cue.start, cue.end, cue.settings)),
        holds_text(timing_line(cue), arrow()),
{
    let start = vtt_time(cue.start as nat);
    let end = vtt_time(cue.end as nat);
    let before = start + seq![' '];
    let behind = seq![' '] + (end + cue.settings);
    lemma_vtt_time_chars(cue.start as nat);
    assert forall|i: int| 0 <= i < before.len() implies before[i] != '-' by {
        if i < start.len() {
            assert(before[i] == start[i]);
        }
    }
    lemma_timing_behind(cue);
    lemma_timing_before(cue);
    law_time_round_trip(cue.start, false);
    law_time_round_trip(cue.end, false);
    lemma_timing_is(before, behind, cue.start, cue.end);
    lemma_arrow_at(before, behind);
    assert(timing_line(cue) =~= before + arrow() + behind);
}

/// The block of a sound cue, without the empty line behind it.
spec fn cue_body(cue: Cue) -> Seq<char> {
    timing_line(cue) + seq!['\n'] + cue.text
}

/// A sound cue is a cue of the track.
proof fn lemma_cue_body(cue: Cue)
    requires
        is_sound_cue(cue),
    ensures
        block_of(cue_body(cue)) == Block::Cue,
{
    let line = timing_line(cue);
    let body = cue_body(cue);
    lemma_timing_line(cue);
    lemma_timing_line_chars(cue);
    assert(body[0] == line[0]);
    assert(body.last() == cue.text.last());
    crate::text::lemma_tail_run_is(body, CharClass::Newline, 0);
    assert(trim_end(body, CharClass::Newline) =~= body);
    crate::text::lemma_run_is(body, CharClass::Newline, 0);
    assert(trim(body, CharClass::Newline) =~= body);
    crate::text::lemma_split_head_char(line, '\n', cue.text);
    let parts = split(body, seq!['\n']);
    let tail = split(cue.text, seq!['\n']);
    crate::text::lemma_split_last(cue.text, '\n');
    crate::text::lemma_split_nonempty(cue.text, seq!['\n']);
    assert(parts =~= seq![line] + tail);
    assert(parts.last() == tail.last());
    assert(lines(body) == parts);
    let ls = lines(body);
    assert(ls[0] == line);
    assert forall|i: int| 1 <= i < ls.len() implies !holds_text(#[trigger] ls[i], arrow()) by {
        if holds_text(ls[i], arrow()) {
            assert(ls[i] == tail[i - 1]);
            crate::text::lemma_split_part_holds(cue.text, seq!['\n'], i - 1, arrow());
        }
    }
    assert(!is_note(line)) by {
        reveal_strlit("NOTE");
        reveal_strlit("NOTE ");
        reveal_strlit("NOTE\t");
        if starts_with(line, "NOTE "@) {
            assert(line.subrange(0, 5)[0] == line[0]);
        }
        if starts_with(line, "NOTE\t"@) {
            assert(line.subrange(0, 5)[0] == line[0]);
        }
    }
    assert(!is_definition(line)) by {
        reveal_strlit("STYLE");
        reveal_strlit("REGION");
        let word = trim_end(line, CharClass::Blank);
        crate::text::lemma_tail_run(line, CharClass::Blank);
        if word.len() > 0 {
            assert(word[0] == line[0]);
        }
    }
}

/// The first cue stands first.
proof fn lemma_cue_blocks_front(cues: Seq<Cue>)
    requires
        cues.len() > 0,
    ensures
        cue_blocks(cues) == cue_block(cues[0]) + cue_blocks(cues.drop_first()),
    decreases cues.len(),
{
    if cues.len() == 1 {
        assert(cues.drop_last() =~= Seq::<Cue>::empty());
        assert(cues.drop_first() =~= Seq::<Cue>::empty());
        assert(cue_blocks(cues) =~= cue_block(cues[0]) + cue_blocks(cues.drop_first()));
    } else {
        lemma_cue_blocks_front(cues.drop_last());
        assert(cues.drop_last().drop_first() =~= cues.drop_first().drop_last());
        assert(cue_blocks(cues) =~= cue_block(cues[0]) + cue_blocks(cues.drop_first()));
    }
}

/// Text without an empty line in it or a line feed at its end, and an empty line
/// behind it, is the first part.
pub(crate) proof fn lemma_split_gap(head: Seq<char>, rest: Seq<char>)
    requires
        head.len() > 0,
        head.last() != '\n',
        forall|i: int|
            0 <= i < head.len() - 1 ==> !(#[trigger] head[i] == '\n' && head[i + 1] == '\n'),
    ensures
        split(head + seq!['\n', '\n'] + rest, seq!['\n', '\n']) == seq![head] + split(
            rest,
            seq!['\n', '\n'],
        ),
{
    let gap = seq!['\n', '\n'];
    let s = head + gap + rest;
    assert forall|k: int| 0 <= k < head.len() implies !occurs_at(s, gap, k) by {
        if occurs_at(s, gap, k) {
            assert(s.subrange(k, k + 2)[0] == s[k]);
            assert(s.subrange(k, k + 2)[1] == s[k + 1]);
            assert(s[k] == head[k]);
            if k + 1 < head.len() {
                assert(s[k + 1] == head[k + 1]);
            }
        }
    }
    crate::text::lemma_split_head(head, gap, rest);
}

/// The blocks of sound cues split into one part for each, and an empty one.
proof fn lemma_cue_blocks_split(cues: Seq<Cue>)
    requires
        all_sound(cues),
    ensures
        ({
            let parts = split(cue_blocks(cues), seq!['\n', '\n']);
            &&& parts.len() == cues.len() + 1
            &&& parts.last().len() == 0
            &&& forall|i: int| 0 <= i < cues.len() ==> #[trigger] parts[i] == cue_body(cues[i])
        }),
    decreases cues.len(),
{
    let gap = seq!['\n', '\n'];
    if cues.len() == 0 {
        let nothing = Seq::<char>::empty();
        assert forall|k: int| !occurs_at(nothing, gap, k) by {}
        crate::text::lemma_split_whole(nothing, gap);
    } else {
        let rest = cues.drop_first();
        let cue = cues[0];
        assert(is_sound_cue(cue));
        assert forall|i: int| 0 <= i < rest.len() implies is_sound_cue(#[trigger] rest[i]) by {
            assert(rest[i] == cues[i + 1]);
        }
        lemma_cue_blocks_split(rest);
        lemma_cue_blocks_front(cues);
        lemma_timing_line_chars(cue);
        let body = cue_body(cue);
        let line = timing_line(cue);
        assert(body.last() == cue.text.last());
        assert forall|i: int| 0 <= i < body.len() - 1 implies !(#[trigger] body[i] == '\n' && body[
        i + 1] == '\n') by {
            if i < line.len() {
                assert(body[i] == line[i]);
            } else if i == line.len() {
                assert(body[i + 1] == cue.text[0]);
            } else {
                let j = i - line.len() - 1;
                assert(body[i] == cue.text[j]);
                assert(body[i + 1] == cue.text[j + 1]);
            }
        }
        assert(cue_blocks(cues) =~= body + gap + cue_blocks(rest));
        lemma_split_gap(body, cue_blocks(rest));
        let parts = split(cue_blocks(cues), gap);
        let tail = split(cue_blocks(rest), gap);
        assert(parts =~= seq![body] + tail);
        assert forall|i: int| 0 <= i < cues.len() implies #[trigger] parts[i] == cue_body(
            cues[i],
        ) by {
            if i > 0 {
                assert(parts[i] == tail[i - 1]);
                assert(tail[i - 1] == cue_body(rest[i - 1]));
            }
        }
    }
}

/// Whatever sound cues are written, the track that holds them is valid WebVTT.
pub proof fn law_sound_cues_make_a_track(cues: Seq<Cue>)
    requires
        all_sound(cues),
    ensures
        is_track(track(cues)),
{
    let gap = seq!['\n', '\n'];
    let word = seq!['W', 'E', 'B', 'V', 'T', 'T'];
    let text = track(cues);
    assert(text =~= word + gap + cue_blocks(cues));
    lemma_split_gap(word, cue_blocks(cues));
    lemma_cue_blocks_split(cues);
    let parts = split(text, gap);
    let tail = split(cue_blocks(cues), gap);
    assert(parts =~= seq![word] + tail);
    crate::text::lemma_split_whole_char(word, '\n');
    assert(lines(word) =~= seq![word]);
    reveal_strlit("WEBVTT");
    assert("WEBVTT"@ =~= word);
    assert(is_header(parts[0]));
    assert forall|i: int| 1 <= i < parts.len() implies {
        &&& #[trigger] block_of(parts[i]) != Block::Invalid
        &&& block_of(parts[i]) != Block::Definition
    } by {
        assert(parts[i] == tail[i - 1]);
        if i - 1 < cues.len() {
            assert(is_sound_cue(cues[i - 1]));
            lemma_cue_body(cues[i - 1]);
        } else {
            crate::text::lemma_tail_run(parts[i], CharClass::Newline);
            assert(trim(parts[i], CharClass::Newline).len() == 0);
        }
    }
}


/// `count` line feeds.
spec fn feeds(count: nat) -> Seq<char> {
    Seq::new(count, |i: int| '\n')
}

/// Text of line feeds alone splits into parts of line feeds alone.
proof fn lemma_feeds_split(count: nat, j: int)
    requires
        0 <= j < split(feeds(count), seq!['\n', '\n']).len(),
    ensures
        block_of(split(feeds(count), seq!['\n', '\n'])[j]) == Block::Empty,
    decreases count,
{
    let gap = seq!['\n', '\n'];
    let s = feeds(count);
    let part = split(s, gap)[j];
    if count >= 2 {
        let rest = feeds((count - 2) as nat);
        assert(s =~= Seq::<char>::empty() + gap + rest);
        crate::text::lemma_split_head(Seq::<char>::empty(), gap, rest);
        if j > 0 {
            assert(part == split(rest, gap)[j - 1]);
            lemma_feeds_split((count - 2) as nat, j - 1);
        } else {
            lemma_blank_part(part);
        }
    } else {
        assert forall|k: int| !occurs_at(s, gap, k) by {}
        crate::text::lemma_split_whole(s, gap);
        lemma_blank_part(part);
    }
}

/// Line feeds alone are no block.
proof fn lemma_blank_part(part: Seq<char>)
    requires
        forall|i: int| 0 <= i < part.len() ==> part[i] == '\n',
    ensures
        block_of(part) == Block::Empty,
{
    crate::text::lemma_tail_run_is(part, CharClass::Newline, part.len() as int);
    assert(trim_end(part, CharClass::Newline).len() == 0);
    crate::text::lemma_run(trim_end(part, CharClass::Newline), CharClass::Newline);
}

/// The part that the last text of a track becomes with `count` line feeds behind
/// it.
spec fn padded_part(part: Seq<char>, count: nat) -> Seq<char> {
    if count >= 2 {
        part
    } else {
        part + feeds(count)
    }
}

/// Line feeds behind a text change its last part by at most one line feed, and
/// add only empty parts.
proof fn lemma_split_feeds(core: Seq<char>, count: nat)
    requires
        core.len() > 0,
        core.last() != '\n',
    ensures
        ({
            let gap = seq!['\n', '\n'];
            let parts = split(core + feeds(count), gap);
            let bare = split(core, gap);
            let n = bare.len() as int;
            &&& n >= 1
            &&& parts.len() >= n
            &&& forall|i: int| 0 <= i < n - 1 ==> #[trigger] parts[i] == bare[i]
            &&& parts[n - 1] == padded_part(bare[n - 1], count)
            &&& bare[n - 1].len() > 0
            &&& bare[n - 1].last() != '\n'
            &&& forall|i: int| n <= i < parts.len() ==> block_of(#[trigger] parts[i]) == Block::Empty
        }),
    decreases core.len(),
{
    let gap = seq!['\n', '\n'];
    let s = core + feeds(count);
    let parts = split(s, gap);
    let bare = split(core, gap);
    lemma_find(core, gap);
    match find(core, gap) {
        Some(k) => {
            assert(core.subrange(k, k + 2)[1] == core[k + 1]);
            let rest = core.skip(k + 2);
            assert(k + 2 < core.len());
            assert(rest.last() == core.last());
            lemma_split_feeds(rest, count);
            assert forall|j: int| 0 <= j < k implies !occurs_at(s, gap, j) by {
                if occurs_at(s, gap, j) {
                    assert(core.subrange(j, j + 2) =~= s.subrange(j, j + 2));
                    assert(occurs_at(core, gap, j));
                }
            }
            assert(s.subrange(k, k + 2) =~= core.subrange(k, k + 2));
            lemma_find_is(s, gap, k);
            assert(s.take(k) =~= core.take(k));
            assert(s.skip(k + 2) =~= rest + feeds(count));
            let tail = split(rest + feeds(count), gap);
            let bare_tail = split(rest, gap);
            assert(parts =~= seq![core.take(k)] + tail);
            assert(bare =~= seq![core.take(k)] + bare_tail);
            let n = bare.len() as int;
            assert forall|i: int| 0 <= i < n - 1 implies #[trigger] parts[i] == bare[i] by {
                if i > 0 {
                    assert(parts[i] == tail[i - 1]);
                    assert(bare[i] == bare_tail[i - 1]);
                }
            }
            assert(parts[n - 1] == tail[n - 2]);
            assert(bare[n - 1] == bare_tail[n - 2]);
            assert forall|i: int| n <= i < parts.len() implies block_of(#[trigger] parts[i])
                == Block::Empty by {
                assert(parts[i] == tail[i - 1]);
            }
        },
        None => {
            assert(bare =~= seq![core]);
            if count >= 2 {
                let rest = feeds((count - 2) as nat);
                assert(s =~= core + gap + rest);
                assert forall|i: int| 0 <= i < core.len() - 1 implies !(#[trigger] core[i] == '\n'
                    && core[i + 1] == '\n') by {
                    if core[i] == '\n' && core[i + 1] == '\n' {
                        assert(core.subrange(i, i + 2) =~= gap);
                        assert(occurs_at(core, gap, i));
                    }
                }
                lemma_split_gap(core, rest);
                let tail = split(rest, gap);
                assert(parts =~= seq![core] + tail);
                assert forall|i: int| 1 <= i < parts.len() implies block_of(#[trigger] parts[i])
                    == Block::Empty by {
                    assert(parts[i] == tail[i - 1]);
                    lemma_feeds_split((count - 2) as nat, i - 1);
                }
            } else {
                assert forall|j: int| !occurs_at(s, gap, j) by {
                    if occurs_at(s, gap, j) {
                        let w = s.subrange(j, j + 2);
                        assert(w[0] == s[j] && w[1] == s[j + 1]);
                        if j + 1 < core.len() {
                            assert(core.subrange(j, j + 2) =~= w);
                            assert(occurs_at(core, gap, j));
                        } else {
                            assert(j == core.len() - 1);
                        }
                    }
                }
                crate::text::lemma_split_whole(s, gap);
            }
        },
    }
}

/// A line feed behind a part does not change its lines or what it is.
proof fn lemma_padded_part(part: Seq<char>, count: nat)
    requires
        part.len() > 0,
        part.last() != '\n',
    ensures
        block_of(padded_part(part, count)) == block_of(part),
        lines(padded_part(part, count)) == lines(part),
{
    if count == 0 {
        assert(padded_part(part, count) =~= part);
    } else if count == 1 {
        let long = part + feeds(1);
        assert(long =~= part + seq!['\n']);
        assert(long.last() == '\n');
        assert(long[long.len() - 2] == part.last());
        crate::text::lemma_tail_run_is(long, CharClass::Newline, 1);
        crate::text::lemma_tail_run_is(part, CharClass::Newline, 0);
        assert(trim_end(long, CharClass::Newline) =~= part);
        assert(trim_end(part, CharClass::Newline) =~= part);
        lemma_lines_feed(part);
    }
}

/// A line feed at the end of a text ends its last line and adds none.
proof fn lemma_lines_feed(s: Seq<char>)
    requires
        s.len() > 0,
        s.last() != '\n',
    ensures
        lines(s + seq!['\n']) == lines(s),
{
    lemma_split_feed(s);
    crate::text::lemma_split_last(s, '\n');
    let long = split(s + seq!['\n'], seq!['\n']);
    assert(long.last().len() == 0);
    assert(long.drop_last() =~= split(s, seq!['\n']));
}

/// A line feed at the end of a text adds one empty part.
proof fn lemma_split_feed(s: Seq<char>)
    ensures
        split(s + seq!['\n'], seq!['\n']) == split(s, seq!['\n']).push(Seq::empty()),
    decreases s.len(),
{
    let sep = seq!['\n'];
    let long = s + sep;
    let nothing = Seq::<char>::empty();
    lemma_find(s, sep);
    match find(s, sep) {
        Some(k) => {
            crate::text::lemma_occurs_char(s, '\n', k);
            let rest = s.skip(k + 1);
            lemma_split_feed(rest);
            assert forall|i: int| 0 <= i < s.take(k).len() implies s.take(k)[i] != '\n' by {
                crate::text::lemma_occurs_char(s, '\n', i);
            }
            assert(long =~= s.take(k) + sep + (rest + sep));
            crate::text::lemma_split_head_char(s.take(k), '\n', rest + sep);
            assert(split(s, sep) =~= seq![s.take(k)] + split(rest, sep));
            assert(split(long, sep) =~= split(s, sep).push(nothing));
        },
        None => {
            assert forall|i: int| 0 <= i < s.len() implies s[i] != '\n' by {
                crate::text::lemma_occurs_char(s, '\n', i);
            }
            assert(long =~= s + sep + nothing);
            crate::text::lemma_split_head_char(s, '\n', nothing);
            crate::text::lemma_split_whole_char(nothing, '\n');
            assert(split(long, sep) =~= split(s, sep).push(nothing));
        },
    }
}

/// Whether parts make a track depends only on the header's lines and on what the
/// blocks are.
proof fn lemma_feeds_keep_track(core: Seq<char>, count: nat)
    requires
        core.len() > 0,
        core.last() != '\n',
    ensures
        is_track(core + feeds(count)) <==> is_track(core),
{
    let gap = seq!['\n', '\n'];
    let parts = split(core + feeds(count), gap);
    let bare = split(core, gap);
    let n = bare.len() as int;
    lemma_split_feeds(core, count);
    lemma_padded_part(bare[n - 1], count);
    assert(lines(parts[0]) == lines(bare[0]));
    assert forall|i: int| 0 <= i < n implies #[trigger] block_of(parts[i]) == block_of(bare[i]) by {
        if i < n - 1 {
            assert(parts[i] == bare[i]);
        }
    }
    assert forall|i: int| 1 <= i < n implies (#[trigger] cue_before(parts, i) <==> cue_before(
        bare,
        i,
    )) by {
        if cue_before(parts, i) {
            let j = choose|j: int| 1 <= j < i && #[trigger] block_of(parts[j]) == Block::Cue;
            assert(block_of(bare[j]) == Block::Cue);
        }
        if cue_before(bare, i) {
            let j = choose|j: int| 1 <= j < i && #[trigger] block_of(bare[j]) == Block::Cue;
            assert(block_of(parts[j]) == Block::Cue);
        }
    }
    if is_body(parts, parts.len() as int) {
        assert forall|i: int| 1 <= i < n implies {
            &&& #[trigger] block_of(bare[i]) != Block::Invalid
            &&& block_of(bare[i]) == Block::Definition ==> !cue_before(bare, i)
        } by {
            assert(block_of(parts[i]) == block_of(bare[i]));
            assert(cue_before(parts, i) <==> cue_before(bare, i));
        }
    }
    if is_body(bare, n) {
        assert forall|i: int| 1 <= i < parts.len() implies {
            &&& #[trigger] block_of(parts[i]) != Block::Invalid
            &&& block_of(parts[i]) == Block::Definition ==> !cue_before(parts, i)
        } by {
            if i < n {
                assert(block_of(parts[i]) == block_of(bare[i]));
                assert(cue_before(parts, i) <==> cue_before(bare, i));
            }
        }
    }
}

/// What validation gives out it would accept again, unchanged.
pub proof fn law_validated_is_a_track(text: Seq<char>)
    requires
        is_track(text),
    ensures
        is_track(validated(text)->0),
        validated(validated(text)->0) == validated(text),
{
    let core = trim_end(text, CharClass::Newline);
    let tail = crate::text::tail_run(text, CharClass::Newline);
    crate::text::lemma_tail_run(text, CharClass::Newline);
    assert(core.len() > 0) by {
        if core.len() == 0 {
            assert(text =~= feeds(text.len()));
            lemma_feeds_header(text.len());
        }
    }
    assert(text =~= core + feeds(tail));
    lemma_feeds_keep_track(core, tail);
    lemma_feeds_keep_track(core, 1);
    let out = validated(text)->0;
    assert(out =~= core + feeds(1));
    assert(out[out.len() - 2] == core.last());
    crate::text::lemma_tail_run_is(out, CharClass::Newline, 1);
    assert(trim_end(out, CharClass::Newline) =~= core);
}

/// Line feeds alone have no header.
proof fn lemma_feeds_header(count: nat)
    ensures
        !is_track(feeds(count)),
{
    let gap = seq!['\n', '\n'];
    let s = feeds(count);
    let head = split(s, gap)[0];
    if count >= 2 {
        let rest = feeds((count - 2) as nat);
        assert(s =~= Seq::<char>::empty() + gap + rest);
        crate::text::lemma_split_head(Seq::<char>::empty(), gap, rest);
        assert(head =~= Seq::<char>::empty());
    } else {
        assert forall|k: int| !occurs_at(s, gap, k) by {}
        crate::text::lemma_split_whole(s, gap);
        assert(head == s);
    }
    let nothing = Seq::<char>::empty();
    crate::text::lemma_split_whole_char(nothing, '\n');
    reveal_strlit("WEBVTT");
    reveal_strlit("WEBVTT ");
    reveal_strlit("WEBVTT\t");
    if count == 1 {
        assert(head =~= nothing + seq!['\n']);
        lemma_split_feed(nothing);
        assert(lines(head) =~= seq![nothing]);
    } else {
        assert(head =~= nothing);
        assert(lines(head).len() == 0);
    }
}

} // verus!
