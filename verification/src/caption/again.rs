//! A converted file, read again: no conversion puts a carriage return or a null
//! character where the sidecar had none.
use crate::caption::ass::{
    ass_context, ass_cues, ass_file_cues, dialogue_cues, dialogue_of, field, keyed, position,
    stripped_from,
};
use crate::caption::cue::{
    arrow, cue_block, cue_blocks, cue_text, escaped_char, escaped_chars, escaped_line,
    escaped_lines, lemma_newlines_from, newlines, newlines_from, timing_line, track, Cue,
};
use crate::caption::smi::{
    decoded_from, entity_char, flattened, lemma_tag_scan, reference_at, shown_cue, smi_cues,
    smi_file_cues, smi_text, start_of, tag_scan, TagScan,
};
use crate::caption::srt::{escaped_arrow, srt_cue, srt_cues, srt_file_cues};
use crate::caption::time::vtt_time;
use crate::caption::vtt::{is_header, is_track, lemma_lines_nonempty, lemma_vtt_time_chars};
use crate::text::{
    find, find_from, first_in, holds_text, join, lemma_find, lemma_first_in, lemma_run,
    lemma_tail_run, lines, run, same_ignoring_case, split, split_up_to, starts_with, tail_run, trim,
    trim_end, trim_start, CharClass,
};
use vstd::prelude::*;

verus! {

/// Whether a text is without a character.
pub open spec fn lacks(s: Seq<char>, c: char) -> bool {
    forall|i: int| 0 <= i < s.len() ==> #[trigger] s[i] != c
}

/// Whether every text of a list is without a character.
pub open spec fn all_lack(parts: Seq<Seq<char>>, c: char) -> bool {
    forall|j: int| 0 <= j < parts.len() ==> lacks(#[trigger] parts[j], c)
}

/// The characters that a sidecar's text is without.
pub open spec fn is_foreign(c: char) -> bool {
    c == '\r' || c == '\0'
}

/// Whether cues are without a character.
pub open spec fn cues_lack(cues: Seq<Cue>, c: char) -> bool {
    forall|j: int|
        0 <= j < cues.len() ==> lacks((#[trigger] cues[j]).settings, c) && lacks(cues[j].text, c)
}

// -------------------------------------------------------------------- parts

proof fn lemma_part(s: Seq<char>, from: int, to: int, c: char)
    requires
        lacks(s, c),
        0 <= from <= to <= s.len(),
    ensures
        lacks(s.subrange(from, to), c),
{
    assert forall|i: int| 0 <= i < s.subrange(from, to).len() implies #[trigger] s.subrange(
        from,
        to,
    )[i] != c by {
        assert(s[from + i] != c);
    }
}

proof fn lemma_joined(a: Seq<char>, b: Seq<char>, c: char)
    requires
        lacks(a, c),
        lacks(b, c),
    ensures
        lacks(a + b, c),
{
    assert forall|i: int| 0 <= i < (a + b).len() implies #[trigger] (a + b)[i] != c by {
        if i < a.len() {
            assert(a[i] != c);
        } else {
            assert(b[i - a.len()] != c);
        }
    }
}

proof fn lemma_trimmed(s: Seq<char>, class: CharClass, c: char)
    requires
        lacks(s, c),
    ensures
        lacks(trim_start(s, class), c),
        lacks(trim_end(s, class), c),
        lacks(trim(s, class), c),
{
    lemma_run(s, class);
    lemma_tail_run(s, class);
    lemma_part(s, run(s, class) as int, s.len() as int, c);
    assert(trim_start(s, class) =~= s.subrange(run(s, class) as int, s.len() as int));
    lemma_part(s, 0, s.len() - tail_run(s, class), c);
    let t = trim_end(s, class);
    assert(t =~= s.subrange(0, s.len() - tail_run(s, class)));
    lemma_run(t, class);
    lemma_part(t, run(t, class) as int, t.len() as int, c);
    assert(trim_start(t, class) =~= t.subrange(run(t, class) as int, t.len() as int));
}

proof fn lemma_split(s: Seq<char>, sep: Seq<char>, c: char)
    requires
        lacks(s, c),
        sep.len() > 0,
    ensures
        all_lack(split(s, sep), c),
    decreases s.len(),
{
    lemma_find(s, sep);
    match find(s, sep) {
        Some(k) => {
            let rest = s.skip(k + sep.len());
            lemma_part(s, k + sep.len(), s.len() as int, c);
            assert(rest =~= s.subrange(k + sep.len(), s.len() as int));
            lemma_part(s, 0, k, c);
            assert(s.take(k) =~= s.subrange(0, k));
            lemma_split(rest, sep, c);
            let parts = split(s, sep);
            assert forall|j: int| 0 <= j < parts.len() implies lacks(#[trigger] parts[j], c) by {
                if j > 0 {
                    assert(parts[j] == split(rest, sep)[j - 1]);
                }
            }
        },
        None => {},
    }
}

proof fn lemma_lines(s: Seq<char>, c: char)
    requires
        lacks(s, c),
    ensures
        all_lack(lines(s), c),
{
    lemma_split(s, seq!['\n'], c);
    assert forall|j: int| 0 <= j < lines(s).len() implies lacks(#[trigger] lines(s)[j], c) by {
        assert(lines(s)[j] == split(s, seq!['\n'])[j]);
    }
}

proof fn lemma_join(parts: Seq<Seq<char>>, sep: Seq<char>, c: char)
    requires
        all_lack(parts, c),
        lacks(sep, c),
    ensures
        lacks(join(parts, sep), c),
    decreases parts.len(),
{
    if parts.len() == 1 {
        assert(lacks(parts[0], c));
    } else if parts.len() > 1 {
        let tail = parts.skip(1);
        assert forall|j: int| 0 <= j < tail.len() implies lacks(#[trigger] tail[j], c) by {
            assert(tail[j] == parts[j + 1]);
        }
        lemma_join(tail, sep, c);
        assert(lacks(parts[0], c));
        lemma_joined(parts[0], sep, c);
        lemma_joined(parts[0] + sep, join(tail, sep), c);
    }
}

proof fn lemma_split_up_to(s: Seq<char>, n: nat, c: char)
    requires
        lacks(s, c),
    ensures
        all_lack(split_up_to(s, seq![','], n), c),
    decreases n,
{
    if n > 1 {
        let sep = seq![','];
        lemma_find(s, sep);
        match find(s, sep) {
            Some(k) => {
                let rest = s.skip(k + sep.len());
                lemma_part(s, k + 1, s.len() as int, c);
                assert(rest =~= s.subrange(k + 1, s.len() as int));
                lemma_part(s, 0, k, c);
                assert(s.take(k) =~= s.subrange(0, k));
                lemma_split_up_to(rest, (n - 1) as nat, c);
                let parts = split_up_to(s, sep, n);
                assert forall|j: int| 0 <= j < parts.len() implies lacks(#[trigger] parts[j], c) by {
                    if j > 0 {
                        assert(parts[j] == split_up_to(rest, sep, (n - 1) as nat)[j - 1]);
                    }
                }
            },
            None => {},
        }
    }
}

// ----------------------------------------------------------------- escaping

proof fn lemma_newlines(s: Seq<char>, from: int, c: char)
    requires
        0 <= from,
        is_foreign(c),
        c == '\0' ==> lacks(s, c),
    ensures
        lacks(newlines_from(s, from), c),
    decreases s.len() - from,
{
    if c == '\r' {
        lemma_newlines_from(s, from);
    } else if from < s.len() {
        let next = if s[from] == '\r' && from + 1 < s.len() && s[from + 1] == '\n' {
            from + 2
        } else {
            from + 1
        };
        lemma_newlines(s, next, c);
        assert(s[from] != c);
        let head = seq![newlines_from(s, from)[0]];
        assert(newlines_from(s, from) =~= head + newlines_from(s, next));
        lemma_joined(head, newlines_from(s, next), c);
    }
}

/// A text without carriage returns has its line ends already.
pub proof fn lemma_newlines_are_there(s: Seq<char>, from: int)
    requires
        0 <= from <= s.len(),
        lacks(s, '\r'),
    ensures
        newlines_from(s, from) == s.skip(from),
    decreases s.len() - from,
{
    if from < s.len() {
        lemma_newlines_are_there(s, from + 1);
        assert(s[from] != '\r');
        assert(s.skip(from) =~= seq![s[from]] + s.skip(from + 1));
    } else {
        assert(s.skip(from) =~= Seq::<char>::empty());
    }
}

proof fn lemma_escaped(s: Seq<char>, c: char)
    requires
        is_foreign(c),
        lacks(s, c),
    ensures
        lacks(escaped_chars(s), c),
    decreases s.len(),
{
    if s.len() > 0 {
        lemma_part(s, 0, s.len() - 1, c);
        assert(s.drop_last() =~= s.subrange(0, s.len() - 1));
        lemma_escaped(s.drop_last(), c);
        assert(s[s.len() - 1] != c);
        assert(lacks(escaped_char(s.last()), c));
        lemma_joined(escaped_chars(s.drop_last()), escaped_char(s.last()), c);
    }
}

proof fn lemma_escaped_lines(parts: Seq<Seq<char>>, c: char)
    requires
        is_foreign(c),
        all_lack(parts, c),
    ensures
        lacks(escaped_lines(parts), c),
    decreases parts.len(),
{
    if parts.len() > 0 {
        let last = parts[parts.len() - 1];
        assert(lacks(last, c));
        lemma_escaped(last, c);
        assert(lacks(escaped_line(last), c));
        if parts.len() > 1 {
            let init = parts.drop_last();
            assert forall|j: int| 0 <= j < init.len() implies lacks(#[trigger] init[j], c) by {
                assert(init[j] == parts[j]);
            }
            lemma_escaped_lines(init, c);
            let feed = seq!['\n'];
            lemma_joined(escaped_lines(init), feed, c);
            lemma_joined(escaped_lines(init) + feed, escaped_line(last), c);
        }
    }
}

proof fn lemma_cue_text(value: Seq<char>, c: char)
    requires
        is_foreign(c),
        c == '\0' ==> lacks(value, c),
    ensures
        lacks(cue_text(value), c),
{
    lemma_newlines(value, 0, c);
    lemma_split(newlines(value), seq!['\n'], c);
    lemma_escaped_lines(split(newlines(value), seq!['\n']), c);
}

// ------------------------------------------------------------------- tracks

proof fn lemma_block(cue: Cue, c: char)
    requires
        is_foreign(c),
        lacks(cue.settings, c),
        lacks(cue.text, c),
    ensures
        lacks(cue_block(cue), c),
{
    let start = vtt_time(cue.start as nat);
    let end = vtt_time(cue.end as nat);
    lemma_vtt_time_chars(cue.start as nat);
    lemma_vtt_time_chars(cue.end as nat);
    assert(lacks(start, c));
    assert(lacks(end, c));
    let blank = seq![' '];
    lemma_joined(start, blank, c);
    lemma_joined(start + blank, arrow(), c);
    lemma_joined(start + blank + arrow(), blank, c);
    lemma_joined(start + blank + arrow() + blank, end, c);
    lemma_joined(start + blank + arrow() + blank + end, cue.settings, c);
    lemma_joined(timing_line(cue), seq!['\n'], c);
    lemma_joined(timing_line(cue) + seq!['\n'], cue.text, c);
    lemma_joined(timing_line(cue) + seq!['\n'] + cue.text, seq!['\n', '\n'], c);
}

proof fn lemma_blocks(cues: Seq<Cue>, c: char)
    requires
        is_foreign(c),
        cues_lack(cues, c),
    ensures
        lacks(cue_blocks(cues), c),
    decreases cues.len(),
{
    if cues.len() > 0 {
        let init = cues.drop_last();
        assert forall|j: int| 0 <= j < init.len() implies lacks((#[trigger] init[j]).settings, c)
            && lacks(init[j].text, c) by {
            assert(init[j] == cues[j]);
        }
        lemma_blocks(init, c);
        assert(lacks(cues[cues.len() - 1].settings, c));
        lemma_block(cues.last(), c);
        lemma_joined(cue_blocks(init), cue_block(cues.last()), c);
    }
}

/// The track of cues without a character is without it.
pub proof fn lemma_track_lacks(cues: Seq<Cue>, c: char)
    requires
        is_foreign(c),
        cues_lack(cues, c),
    ensures
        lacks(track(cues), c),
{
    lemma_blocks(cues, c);
    let header = crate::caption::cue::track_header();
    assert(lacks(header, c));
    lemma_joined(header, cue_blocks(cues), c);
}

/// A track begins with its name.
pub proof fn lemma_track_begins(text: Seq<char>)
    requires
        is_track(text),
    ensures
        text.len() > 0,
        text[0] == 'W',
{
    let gap = seq!['\n', '\n'];
    let head = split(text, gap)[0];
    assert(is_header(head));
    let first = lines(head)[0];
    reveal_strlit("WEBVTT");
    reveal_strlit("WEBVTT ");
    reveal_strlit("WEBVTT\t");
    assert(first.len() > 0 && first[0] == 'W') by {
        if starts_with(first, "WEBVTT "@) {
            assert(first.take(7)[0] == first[0]);
        } else if starts_with(first, "WEBVTT\t"@) {
            assert(first.take(7)[0] == first[0]);
        }
    }
    lemma_find(head, seq!['\n']);
    assert(first == split(head, seq!['\n'])[0]);
    match find(head, seq!['\n']) {
        Some(k) => {
            assert(first == head.take(k));
        },
        None => {},
    }
    lemma_find(text, gap);
    match find(text, gap) {
        Some(k) => {
            assert(head == text.take(k));
        },
        None => {},
    }
}

// ------------------------------------------------------------------- SubRip

proof fn lemma_srt_cue(block: Seq<char>, c: char)
    requires
        is_foreign(c),
        lacks(block, c),
        block.len() > 0,
        srt_cue(block) is Some,
    ensures
        lacks(srt_cue(block)->0.settings, c),
        lacks(srt_cue(block)->0.text, c),
{
    let ls = lines(block);
    lemma_lines(block, c);
    lemma_lines_nonempty(block);
    let at: int = if holds_text(ls[0], arrow()) {
        0
    } else {
        1
    };
    let line = ls[at];
    assert(lacks(line, c));
    lemma_find(line, arrow());
    let k = find(line, arrow())->0;
    let behind = line.skip(k + 3);
    lemma_part(line, k + 3, line.len() as int, c);
    assert(behind =~= line.subrange(k + 3, line.len() as int));
    let rest = trim_start(behind, CharClass::Blank);
    lemma_trimmed(behind, CharClass::Blank, c);
    let n = first_in(rest, CharClass::Blank) as int;
    lemma_first_in(rest, CharClass::Blank);
    lemma_part(rest, n, rest.len() as int, c);
    assert(rest.skip(n) =~= rest.subrange(n, rest.len() as int));
    let payload = ls.skip(at + 1);
    assert forall|j: int| 0 <= j < payload.len() implies lacks(#[trigger] payload[j], c) by {
        assert(payload[j] == ls[j + at + 1]);
    }
    lemma_join(payload, seq!['\n'], c);
    let text = join(payload, seq!['\n']);
    lemma_split(text, arrow(), c);
    lemma_join(split(text, arrow()), escaped_arrow(), c);
}

proof fn lemma_srt_cues(blocks: Seq<Seq<char>>, n: int, c: char)
    requires
        is_foreign(c),
        all_lack(blocks, c),
        0 <= n <= blocks.len(),
        srt_cues(blocks, n) is Some,
    ensures
        cues_lack(srt_cues(blocks, n)->0, c),
    decreases n,
{
    if n > 0 {
        lemma_srt_cues(blocks, n - 1, c);
        let block = blocks[n - 1];
        assert(lacks(block, c));
        if trim(block, CharClass::White).len() > 0 {
            lemma_tail_run(block, CharClass::White);
            lemma_srt_cue(block, c);
        }
    }
}

/// No conversion from SubRip adds a carriage return or a null character.
pub proof fn lemma_srt_lacks(text: Seq<char>, c: char)
    requires
        is_foreign(c),
        lacks(text, c),
        srt_file_cues(text) is Some,
    ensures
        cues_lack(srt_file_cues(text)->0, c),
{
    let blocks = split(text, seq!['\n', '\n']);
    lemma_split(text, seq!['\n', '\n'], c);
    lemma_srt_cues(blocks, blocks.len() as int, c);
}

// --------------------------------------------------------- SubStation Alpha

proof fn lemma_stripped(s: Seq<char>, from: int, c: char)
    requires
        is_foreign(c),
        lacks(s, c),
        0 <= from,
    ensures
        stripped_from(s, from) matches Some(text) ==> lacks(text, c),
    decreases s.len() - from,
{
    if from < s.len() {
        assert(s[from] != c);
        if s[from] == '{' && from + 1 < s.len() && s[from + 1] == '\\' {
            match find_from(s, seq!['}'], from) {
                Some(k) if from <= k < s.len() => {
                    lemma_stripped(s, k + 1, c);
                },
                _ => {},
            }
        } else if s[from] == '\\' && from + 1 < s.len() && (s[from + 1] == 'N' || s[from + 1] == 'n'
            || s[from + 1] == 'h') {
            lemma_stripped(s, from + 2, c);
            if let Some(rest) = stripped_from(s, from + 2) {
                lemma_joined(seq!['\n'], rest, c);
                lemma_joined(seq!['\u{a0}'], rest, c);
            }
        } else {
            lemma_stripped(s, from + 1, c);
            if let Some(rest) = stripped_from(s, from + 1) {
                lemma_joined(seq![s[from]], rest, c);
            }
        }
    }
}

proof fn lemma_position(columns: Seq<Seq<char>>, name: Seq<char>, from: int)
    requires
        0 <= from,
    ensures
        position(columns, name, from) matches Some(i) ==> from <= i < columns.len(),
    decreases columns.len() - from,
{
    if from < columns.len() && columns[from] != name {
        lemma_position(columns, name, from + 1);
    }
}

proof fn lemma_dialogue(columns: Seq<Seq<char>>, dialogue: Seq<char>, c: char)
    requires
        is_foreign(c),
        lacks(dialogue, c),
        dialogue_cues(columns, dialogue) is Some,
    ensures
        cues_lack(dialogue_cues(columns, dialogue)->0, c),
{
    let fields = split_up_to(dialogue, seq![','], columns.len());
    lemma_split_up_to(dialogue, columns.len(), c);
    lemma_position(columns, "text"@, 0);
    let i = position(columns, "text"@, 0)->0;
    assert(lacks(fields[i], c));
    lemma_trimmed(fields[i], CharClass::White, c);
    let text = field(columns, fields, "text"@)->0;
    lemma_stripped(text, 0, c);
    lemma_cue_text(stripped_from(text, 0)->0, c);
}

proof fn lemma_keyed(line: Seq<char>, key: Seq<char>, c: char)
    requires
        lacks(line, c),
    ensures
        keyed(line, key) matches Some(rest) ==> lacks(rest, c),
{
    lemma_find(line, seq![':']);
    if let Some(k) = find(line, seq![':']) {
        lemma_part(line, k + 1, line.len() as int, c);
        assert(line.skip(k + 1) =~= line.subrange(k + 1, line.len() as int));
    }
}

proof fn lemma_ass_cues(ls: Seq<Seq<char>>, n: int, c: char)
    requires
        is_foreign(c),
        all_lack(ls, c),
        0 <= n <= ls.len(),
        ass_cues(ls, n) is Some,
    ensures
        cues_lack(ass_cues(ls, n)->0, c),
    decreases n,
{
    if n > 0 {
        lemma_ass_cues(ls, n - 1, c);
        let context = ass_context(ls, n - 1);
        let raw = ls[n - 1];
        assert(lacks(raw, c));
        lemma_trimmed(raw, CharClass::White, c);
        lemma_keyed(trim(raw, CharClass::White), "dialogue"@, c);
        if let Some(dialogue) = dialogue_of(context, raw) {
            lemma_dialogue(context.columns, dialogue, c);
        }
    }
}

/// No conversion from SubStation Alpha adds a carriage return or a null
/// character.
pub proof fn lemma_ass_lacks(text: Seq<char>, c: char)
    requires
        is_foreign(c),
        lacks(text, c),
        ass_file_cues(text) is Some,
    ensures
        cues_lack(ass_file_cues(text)->0, c),
{
    lemma_lines(text, c);
    lemma_ass_cues(lines(text), lines(text).len() as int, c);
}

// --------------------------------------------------------------------- SAMI

proof fn lemma_decoded(s: Seq<char>, i: int)
    requires
        lacks(s, '\0'),
        0 <= i,
    ensures
        lacks(decoded_from(s, i), '\0'),
    decreases s.len() - i,
{
    if i < s.len() {
        assert(s[i] != '\0');
        match reference_at(s, i) {
            Some((c, next)) if i < next <= s.len() => {
                lemma_decoded(s, next);
                let k = find_from(s, seq![';'], i)->0;
                assert(entity_char(s.subrange(i + 1, k)) == Some(c));
                assert(c != '\0');
                lemma_joined(seq![c], decoded_from(s, next), '\0');
            },
            _ => {
                lemma_decoded(s, i + 1);
                lemma_joined(seq![s[i]], decoded_from(s, i + 1), '\0');
            },
        }
    }
}

proof fn lemma_flattened(s: Seq<char>, cursor: int, out: Seq<char>)
    requires
        lacks(s, '\0'),
        lacks(out, '\0'),
        0 <= cursor <= s.len(),
    ensures
        flattened(s, cursor, out) matches Some(text) ==> lacks(text, '\0'),
    decreases s.len() - cursor,
{
    lemma_tag_scan(s, cursor);
    match tag_scan(s, cursor) {
        TagScan::Malformed => {},
        TagScan::End => {
            lemma_part(s, cursor, s.len() as int, '\0');
            assert(s.skip(cursor) =~= s.subrange(cursor, s.len() as int));
            lemma_joined(out, s.skip(cursor), '\0');
        },
        TagScan::Found(tag) => {
            let part = s.subrange(cursor, tag.start);
            lemma_part(s, cursor, tag.start, '\0');
            lemma_joined(out, part, '\0');
            let more = out + part;
            lemma_joined(more, seq!['\n'], '\0');
            assert(more.push('\n') =~= more + seq!['\n']);
            lemma_flattened(s, tag.end, more);
            lemma_flattened(s, tag.end, more.push('\n'));
        },
    }
}

proof fn lemma_smi_text(payload: Seq<char>, c: char)
    requires
        is_foreign(c),
        lacks(payload, '\0'),
    ensures
        smi_text(payload) matches Some(text) ==> lacks(text, c),
{
    lemma_flattened(payload, 0, Seq::empty());
    if let Some(flat) = flattened(payload, 0, Seq::empty()) {
        lemma_decoded(flat, 0);
        let shown = trim(decoded_from(flat, 0), CharClass::White);
        lemma_trimmed(decoded_from(flat, 0), CharClass::White, '\0');
        lemma_cue_text(shown, c);
    }
}

proof fn lemma_smi_cues(s: Seq<char>, cursor: int, previous: Option<u64>, payload: int, c: char)
    requires
        is_foreign(c),
        lacks(s, '\0'),
        0 <= payload <= cursor <= s.len(),
        smi_cues(s, cursor, previous, payload) is Some,
    ensures
        cues_lack(smi_cues(s, cursor, previous, payload)->0, c),
    decreases s.len() - cursor,
{
    lemma_tag_scan(s, cursor);
    match tag_scan(s, cursor) {
        TagScan::Malformed => {},
        TagScan::End => {
            lemma_part(s, payload, s.len() as int, '\0');
            assert(s.skip(payload) =~= s.subrange(payload, s.len() as int));
            lemma_smi_text(s.skip(payload), c);
        },
        TagScan::Found(tag) => {
            if tag.closing || !same_ignoring_case(tag.name, "sync"@) {
                lemma_smi_cues(s, tag.end, previous, payload, c);
            } else {
                let start = start_of(tag.attributes, None)->0;
                lemma_smi_cues(s, tag.end, Some(start), tag.end, c);
                if let Some(last) = previous {
                    let part = s.subrange(payload, tag.start);
                    lemma_part(s, payload, tag.start, '\0');
                    lemma_smi_text(part, c);
                    let first = shown_cue(last, start, smi_text(part)->0);
                    let rest = smi_cues(s, tag.end, Some(start), tag.end)->0;
                    let all = first + rest;
                    assert forall|j: int| 0 <= j < all.len() implies lacks(
                        (#[trigger] all[j]).settings,
                        c,
                    ) && lacks(all[j].text, c) by {
                        if j < first.len() {
                            assert(all[j] == first[j]);
                        } else {
                            assert(all[j] == rest[j - first.len()]);
                        }
                    }
                }
            }
        },
    }
}

/// No conversion from SAMI adds a carriage return or a null character.
pub proof fn lemma_smi_lacks(text: Seq<char>, c: char)
    requires
        is_foreign(c),
        lacks(text, '\0'),
        smi_file_cues(text) is Some,
    ensures
        cues_lack(smi_file_cues(text)->0, c),
{
    lemma_smi_cues(text, 0, None, 0, c);
}

/// What is trimmed behind is without a character where the whole is.
pub proof fn lemma_validated_lacks(text: Seq<char>, c: char)
    requires
        is_foreign(c),
        lacks(text, c),
    ensures
        lacks(trim_end(text, CharClass::Newline).push('\n'), c),
{
    lemma_trimmed(text, CharClass::Newline, c);
    let core = trim_end(text, CharClass::Newline);
    lemma_joined(core, seq!['\n'], c);
    assert(core.push('\n') =~= core + seq!['\n']);
}

} // verus!
