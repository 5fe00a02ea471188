//! SubRip.
use crate::caption::cue::{
    all_sound, arrow, bounded_track, is_cue_text, is_settings, is_sound_cue, BrowserCaptionError,
    Cue, Track, MAX_OUTPUT_BYTES,
};
use crate::caption::vtt::{caption_timing, lemma_lines_nonempty, timing};
use crate::number::{all_digits, is_all_digits};
use crate::text::{
    find, holds_text, index_of, join, joined, lemma_find, lemma_occurs_char, lemma_part_holds,
    lemma_split_lacks, lemma_split_without, lines, lines_of, occurs_at, replaced, split, split_text, texts, trim, trimmed, CharClass,
};
use vstd::prelude::*;
use vstd::slice::slice_subrange;

verus! {

/// `--&gt;`.
pub open spec fn escaped_arrow() -> Seq<char> {
    seq!['-', '-', '&', 'g', 't', ';']
}

/// The cue that a block of SubRip holds: a counter of digits that may be left
/// out, a timing line that moves forward, and at least one line of text, in
/// which only arrows are escaped.
pub open spec fn srt_cue(block: Seq<char>) -> Option<Cue> {
    let ls = lines(block);
    let at: int = if holds_text(ls[0], arrow()) {
        0
    } else {
        1
    };
    if (at == 1 && !all_digits(trim(ls[0], CharClass::White))) || at + 1 >= ls.len() {
        None
    } else {
        match timing(ls[at], true) {
            Some((start, end, settings)) if start < end => Some(
                Cue {
                    start,
                    end,
                    settings,
                    text: replaced(
                        join(ls.skip(at + 1), seq!['\n']),
                        arrow(),
                        escaped_arrow(),
                    ),
                },
            ),
            _ => None,
        }
    }
}

/// The cues of the first `n` blocks, those of white space alone aside.
pub open spec fn srt_cues(blocks: Seq<Seq<char>>, n: int) -> Option<Seq<Cue>>
    decreases n,
{
    if n <= 0 {
        Some(Seq::empty())
    } else {
        match srt_cues(blocks, n - 1) {
            Some(cues) => if trim(blocks[n - 1], CharClass::White).len() == 0 {
                Some(cues)
            } else {
                match srt_cue(blocks[n - 1]) {
                    Some(cue) => Some(cues.push(cue)),
                    None => None,
                }
            },
            None => None,
        }
    }
}

/// The cues of a SubRip file, of which there is at least one.
pub open spec fn srt_file_cues(text: Seq<char>) -> Option<Seq<Cue>> {
    let blocks = split(text, seq!['\n', '\n']);
    match srt_cues(blocks, blocks.len() as int) {
        Some(cues) if cues.len() > 0 => Some(cues),
        _ => None,
    }
}

/// A SubRip file as a WebVTT track.
pub open spec fn srt_track(text: Seq<char>) -> Option<Seq<char>> {
    bounded_track(srt_file_cues(text))
}

proof fn lemma_srt_grows(blocks: Seq<Seq<char>>, i: int, n: int)
    requires
        i <= n,
        srt_cues(blocks, n) is Some,
    ensures
        srt_cues(blocks, i) is Some,
        srt_cues(blocks, i)->0.is_prefix_of(srt_cues(blocks, n)->0),
    decreases n - i,
{
    if i < n {
        lemma_srt_grows(blocks, i, n - 1);
    }
}


fn append_block(output: &mut Track, block: &[char]) -> (result: Result<(), BrowserCaptionError>)
    requires
        old(output).wf(),
        block@.len() > 0,
    ensures
        match srt_cue(block@) {
            Some(cue) => {
                let cues = old(output).cues().push(cue);
                if crate::encoding::utf8_len(crate::caption::cue::track(cues)) <= MAX_OUTPUT_BYTES {
                    result is Ok && final(output).wf() && final(output).cues() == cues
                } else {
                    result == Err::<(), BrowserCaptionError>(BrowserCaptionError::Malformed)
                }
            },
            None => result == Err::<(), BrowserCaptionError>(BrowserCaptionError::Malformed),
        },
{
    let mark: [char; 3] = ['-', '-', '>'];
    let escaped: [char; 6] = ['-', '-', '&', 'g', 't', ';'];
    let newline: [char; 1] = ['\n'];
    proof {
        lemma_lines_nonempty(block@);
        assert(mark@ =~= arrow());
        assert(escaped@ =~= escaped_arrow());
        assert(newline@ =~= seq!['\n']);
    }
    let ls = lines_of(block);
    proof {
        assert(texts(ls@).len() == ls@.len());
        assert(texts(ls@)[0] == ls@[0]@);
        lemma_find(ls@[0]@, arrow());
    }
    let at: usize = if index_of(ls[0], &mark).is_some() {
        0
    } else {
        1
    };
    if at == 1 && !is_all_digits(trimmed(ls[0], CharClass::White)) {
        return Err(BrowserCaptionError::Malformed);
    }
    if at >= ls.len() {
        return Err(BrowserCaptionError::Malformed);
    }
    assert(texts(ls@)[at as int] == ls@[at as int]@);
    let (start, end, settings) = match caption_timing(ls[at], true) {
        Ok(found) => found,
        Err(error) => {
            return Err(error);
        },
    };
    if end <= start || at + 1 >= ls.len() {
        return Err(BrowserCaptionError::Malformed);
    }
    let payload = slice_subrange(ls.as_slice(), at + 1, ls.len());
    assert(texts(payload@) =~= texts(ls@).skip(at + 1));
    let text = joined(payload, &newline);
    let pieces = split_text(&text, &mark);
    let escaped_text = joined(pieces.as_slice(), &escaped);
    output.append_cue(start, end, settings, &escaped_text)
}

/// Converts a SubRip file to a WebVTT track.
pub fn srt_to_webvtt(text: &[char]) -> (result: Result<Vec<char>, BrowserCaptionError>)
    ensures
        match result {
            Ok(track) => srt_track(text@) == Some(track@),
            Err(error) => error == BrowserCaptionError::Malformed && srt_track(text@) is None,
        },
{
    let gap: [char; 2] = ['\n', '\n'];
    assert(gap@ =~= seq!['\n', '\n']);
    let blocks = split_text(text, &gap);
    let ghost parts = split(text@, seq!['\n', '\n']);
    let mut output = Track::new();
    let mut cues: usize = 0;
    let mut i: usize = 0;
    while i < blocks.len()
        invariant
            i <= blocks.len(),
            parts == split(text@, seq!['\n', '\n']),
            texts(blocks@) == parts,
            parts.len() == blocks@.len(),
            output.wf(),
            srt_cues(parts, i as int) == Some(output.cues()),
            cues == output.cues().len(),
            cues <= i,
        decreases blocks.len() - i,
    {
        let block = blocks[i];
        assert(parts[i as int] == block@);
        if trimmed(block, CharClass::White).len() > 0 {
            proof {
                crate::text::lemma_tail_run(block@, CharClass::White);
            }
            match append_block(&mut output, block) {
                Ok(()) => {},
                Err(error) => {
                    proof {
                        let n = parts.len() as int;
                        if srt_cues(parts, n) is Some {
                            lemma_srt_grows(parts, i + 1, n);
                            crate::caption::cue::lemma_track_grows(
                                srt_cues(parts, i + 1)->0,
                                srt_cues(parts, n)->0,
                            );
                        }
                    }
                    return Err(error);
                },
            }
            cues += 1;
        }
        i += 1;
    }
    if cues > 0 {
        Ok(output.into_chars())
    } else {
        Err(BrowserCaptionError::Malformed)
    }
}


// -------------------------------------------------------------------- laws

/// Between the first line and the last part no line of text without an empty
/// line is empty.
proof fn lemma_inner_lines(s: Seq<char>, j: int)
    requires
        !holds_text(s, seq!['\n', '\n']),
        1 <= j < split(s, seq!['\n']).len() - 1,
    ensures
        split(s, seq!['\n'])[j].len() > 0,
    decreases s.len(),
{
    let gap = seq!['\n', '\n'];
    let sep = seq!['\n'];
    lemma_find(s, sep);
    match find(s, sep) {
        Some(k) => {
            lemma_occurs_char(s, '\n', k);
            let rest = s.skip(k + 1);
            let tail = split(rest, sep);
            assert(split(s, sep) =~= seq![s.take(k)] + tail);
            assert(!holds_text(rest, gap)) by {
                if holds_text(rest, gap) {
                    assert(rest =~= s.subrange(k + 1, s.len() as int));
                    lemma_part_holds(s, k + 1, s.len() as int, gap);
                }
            }
            if j == 1 {
                lemma_find(rest, sep);
                match find(rest, sep) {
                    Some(m) => {
                        lemma_occurs_char(rest, '\n', m);
                        assert(tail[0] == rest.take(m));
                        if m == 0 {
                            assert(rest[0] == s[k + 1]);
                            assert(s.subrange(k, k + 2) =~= gap);
                            assert(occurs_at(s, gap, k));
                        }
                    },
                    None => {
                        assert(tail =~= seq![rest]);
                    },
                }
            } else {
                lemma_inner_lines(rest, j - 1);
                assert(split(s, sep)[j] == tail[j - 1]);
            }
        },
        None => {
            assert(split(s, sep) =~= seq![s]);
        },
    }
}

/// The lines of text without an empty line are not empty, but for the first.
proof fn lemma_full_lines(s: Seq<char>, j: int)
    requires
        !holds_text(s, seq!['\n', '\n']),
        0 <= j < lines(s).len(),
    ensures
        j >= 1 ==> lines(s)[j].len() > 0,
        forall|i: int| 0 <= i < lines(s)[j].len() ==> #[trigger] lines(s)[j][i] != '\n',
{
    let parts = split(s, seq!['\n']);
    assert(lines(s)[j] == parts[j]);
    lemma_split_without(s, '\n', j);
    if 1 <= j < parts.len() - 1 {
        lemma_inner_lines(s, j);
    }
}

/// Text with no two line feeds in a row.
spec fn no_empty_line(s: Seq<char>) -> bool {
    forall|i: int| 0 <= i < s.len() - 1 ==> !(#[trigger] s[i] == '\n' && s[i + 1] == '\n')
}

/// Full lines joined have no empty line, and no line feed at either end.
proof fn lemma_join_full(parts: Seq<Seq<char>>)
    requires
        parts.len() > 0,
        forall|j: int| 0 <= j < parts.len() ==> (#[trigger] parts[j]).len() > 0,
        forall|j: int, i: int|
            0 <= j < parts.len() && 0 <= i < parts[j].len() ==> #[trigger] parts[j][i] != '\n',
    ensures
        ({
            let s = join(parts, seq!['\n']);
            s.len() > 0 && s[0] != '\n' && s.last() != '\n' && no_empty_line(s)
        }),
    decreases parts.len(),
{
    let s = join(parts, seq!['\n']);
    let head = parts[0];
    assert(head.len() > 0);
    assert(head[0] != '\n');
    assert(head[head.len() - 1] != '\n');
    if parts.len() == 1 {
        assert forall|i: int| 0 <= i < s.len() - 1 implies !(#[trigger] s[i] == '\n' && s[i + 1]
            == '\n') by {
            assert(parts[0][i] != '\n');
        }
    } else {
        let tail = parts.skip(1);
        assert forall|j: int| 0 <= j < tail.len() implies (#[trigger] tail[j]).len() > 0 by {
            assert(tail[j] == parts[j + 1]);
        }
        assert forall|j: int, i: int|
            0 <= j < tail.len() && 0 <= i < tail[j].len() implies #[trigger] tail[j][i] != '\n' by {
            assert(tail[j] == parts[j + 1]);
            assert(parts[j + 1][i] != '\n');
        }
        lemma_join_full(tail);
        let rest = join(tail, seq!['\n']);
        assert(s =~= head + seq!['\n'] + rest);
        assert(s.last() == rest.last());
        assert forall|i: int| 0 <= i < s.len() - 1 implies !(#[trigger] s[i] == '\n' && s[i + 1]
            == '\n') by {
            if i < head.len() {
                assert(s[i] == parts[0][i]);
            } else if i == head.len() {
                assert(s[i + 1] == rest[0]);
            } else {
                let m = i - head.len() - 1;
                assert(s[i] == rest[m]);
                assert(s[i + 1] == rest[m + 1]);
            }
        }
    }
}

/// Replacing the arrows leaves none, and no empty line where there was none.
proof fn lemma_arrows_replaced(s: Seq<char>)
    requires
        no_empty_line(s),
        s.len() > 0 ==> s.last() != '\n',
    ensures
        ({
            let r = replaced(s, arrow(), escaped_arrow());
            &&& !holds_text(r, arrow())
            &&& no_empty_line(r)
            &&& s.len() > 0 ==> r.len() > 0 && r.last() != '\n'
            &&& s.len() > 0 && s[0] != '\n' ==> r[0] != '\n'
            &&& s.len() == 0 ==> r.len() == 0
        }),
    decreases s.len(),
{
    let e = escaped_arrow();
    let r = replaced(s, arrow(), e);
    lemma_find(s, arrow());
    match find(s, arrow()) {
        Some(k) => {
            let head = s.take(k);
            let rest = s.skip(k + 3);
            assert forall|i: int| 0 <= i < rest.len() - 1 implies !(#[trigger] rest[i] == '\n'
                && rest[i + 1] == '\n') by {
                assert(rest[i] == s[i + k + 3]);
                assert(rest[i + 1] == s[i + 1 + k + 3]);
            }
            if rest.len() > 0 {
                assert(rest.last() == s.last());
            }
            lemma_arrows_replaced(rest);
            let q = replaced(rest, arrow(), e);
            let parts = split(s, arrow());
            let tail = split(rest, arrow());
            crate::text::lemma_split_nonempty(rest, arrow());
            assert(parts =~= seq![head] + tail);
            assert(parts.skip(1) =~= tail);
            assert(r =~= head + e + q);
            let n = head.len() as int;
            assert forall|j: int| !occurs_at(r, arrow(), j) by {
                if occurs_at(r, arrow(), j) {
                    let w = r.subrange(j, j + 3);
                    assert(w[0] == r[j] && w[1] == r[j + 1] && w[2] == r[j + 2]);
                    if j + 2 < n {
                        assert(s.subrange(j, j + 3) =~= w);
                        assert(occurs_at(s, arrow(), j));
                    } else if j + 2 < n + 6 {
                        assert(r[j + 2] == e[j + 2 - n]);
                    } else if j + 2 < n + 8 {
                        assert(r[n + 5] == e[5]);
                    } else {
                        let m = j - n - 6;
                        assert(q.subrange(m, m + 3) =~= w);
                        assert(occurs_at(q, arrow(), m));
                    }
                }
            }
            assert forall|i: int| 0 <= i < r.len() - 1 implies !(#[trigger] r[i] == '\n' && r[i + 1]
                == '\n') by {
                if i + 1 < n {
                    assert(r[i] == s[i] && r[i + 1] == s[i + 1]);
                } else if i < n {
                    assert(r[i + 1] == e[0]);
                } else if i < n + 6 {
                    assert(r[i] == e[i - n]);
                } else {
                    assert(r[i] == q[i - n - 6] && r[i + 1] == q[i + 1 - n - 6]);
                }
            }
            if q.len() > 0 {
                assert(r.last() == q.last());
            } else {
                assert(r.last() == e[5]);
            }
            if n > 0 {
                assert(r[0] == s[0]);
            } else {
                assert(r[0] == e[0]);
            }
        },
        None => {
            assert(split(s, arrow()) =~= seq![s]);
            assert(r == s);
        },
    }
}

/// What follows the second timestamp of a timing line are settings.
pub(crate) proof fn lemma_timing_settings(line: Seq<char>, subrip: bool)
    requires
        forall|i: int| 0 <= i < line.len() ==> #[trigger] line[i] != '\n',
        timing(line, subrip) is Some,
    ensures
        timing(line, subrip) matches Some((_, _, settings)) ==> is_settings(settings),
{
    lemma_find(line, arrow());
    let k = find(line, arrow())->0;
    let behind = line.skip(k + 3);
    let rest = crate::text::trim_start(behind, CharClass::Blank);
    let n = crate::text::first_in(rest, CharClass::Blank) as int;
    let settings = rest.skip(n);
    let skipped = crate::text::run(behind, CharClass::Blank) as int;
    crate::text::lemma_run(behind, CharClass::Blank);
    crate::text::lemma_first_in(rest, CharClass::Blank);
    assert(settings =~= behind.subrange(skipped + n, behind.len() as int));
    if holds_text(settings, arrow()) {
        lemma_part_holds(behind, skipped + n, behind.len() as int, arrow());
    }
    assert forall|i: int| 0 <= i < settings.len() implies settings[i] != '\n' by {
        assert(settings[i] == line[i + skipped + n + k + 3]);
    }
    if settings.len() > 0 {
        assert(settings[0] == rest[n]);
    }
}

/// The cue of a block without an empty line is sound.
proof fn lemma_srt_cue_sound(block: Seq<char>)
    requires
        !holds_text(block, seq!['\n', '\n']),
        block.len() > 0,
        srt_cue(block) is Some,
    ensures
        is_sound_cue(srt_cue(block)->0),
{
    let ls = lines(block);
    lemma_lines_nonempty(block);
    let at: int = if holds_text(ls[0], arrow()) {
        0
    } else {
        1
    };
    let payload = ls.skip(at + 1);
    lemma_full_lines(block, at);
    lemma_timing_settings(ls[at], true);
    assert forall|j: int| 0 <= j < payload.len() implies (#[trigger] payload[j]).len() > 0 by {
        lemma_full_lines(block, j + at + 1);
        assert(payload[j] == ls[j + at + 1]);
    }
    assert forall|j: int, i: int|
        0 <= j < payload.len() && 0 <= i < payload[j].len() implies #[trigger] payload[j][i]
        != '\n' by {
        lemma_full_lines(block, j + at + 1);
        assert(payload[j] == ls[j + at + 1]);
        assert(ls[j + at + 1][i] != '\n');
    }
    lemma_join_full(payload);
    lemma_arrows_replaced(join(payload, seq!['\n']));
    let text = srt_cue(block)->0.text;
    assert(is_cue_text(text));
}

proof fn lemma_srt_cues_sound(text: Seq<char>, n: int)
    requires
        0 <= n <= split(text, seq!['\n', '\n']).len(),
        srt_cues(split(text, seq!['\n', '\n']), n) is Some,
    ensures
        all_sound(srt_cues(split(text, seq!['\n', '\n']), n)->0),
    decreases n,
{
    let blocks = split(text, seq!['\n', '\n']);
    if n > 0 {
        lemma_srt_cues_sound(text, n - 1);
        let block = blocks[n - 1];
        if trim(block, CharClass::White).len() > 0 {
            crate::text::lemma_tail_run(block, CharClass::White);
            lemma_split_lacks(text, seq!['\n', '\n'], n - 1);
            lemma_srt_cue_sound(block);
        }
    }
}

/// The cues of every SubRip file are sound: whatever the file holds, none of its
/// text can end a cue or be taken for a timing line.
pub proof fn law_srt_cues_are_sound(text: Seq<char>)
    requires
        srt_file_cues(text) is Some,
    ensures
        all_sound(srt_file_cues(text)->0),
{
    lemma_srt_cues_sound(text, split(text, seq!['\n', '\n']).len() as int);
}

} // verus!
