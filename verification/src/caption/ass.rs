//! SubStation Alpha and Advanced SubStation Alpha.
use crate::caption::cue::{
    all_sound, arrow, bounded_track, cue_text, escape_cue_text, is_sound_cue,
    law_escaped_text_is_cue_text, lemma_track_grows, track, BrowserCaptionError, Cue, Track,
    MAX_OUTPUT_BYTES,
};
use crate::caption::time::{ass_clock, ass_time_chars};
use crate::encoding::utf8_len;
use crate::text::{
    equals_ignoring_case, find, find_from, holds_text, index_of, index_of_from, is_text, lemma_find,
    lemma_find_from, lines, lines_of, lowered, lowered_chars, same_ignoring_case, split,
    split_text, split_text_up_to, split_up_to, texts, trim, trimmed, CharClass,
};
use vstd::prelude::*;
use vstd::slice::slice_subrange;

verus! {

/// What the lines above say of a line: whether it stands in the events section,
/// and the columns that were declared last.
pub struct AssContext {
    pub in_events: bool,
    pub columns: Seq<Seq<char>>,
}

/// What follows the first colon, where the name before it is `key`.
pub open spec fn keyed(line: Seq<char>, key: Seq<char>) -> Option<Seq<char>> {
    match find(line, seq![':']) {
        Some(k) if same_ignoring_case(line.take(k), key) => Some(line.skip(k + 1)),
        _ => None,
    }
}

/// The declared columns: trimmed, in lower case.
pub open spec fn declared(format: Seq<char>) -> Seq<Seq<char>> {
    split(format, seq![',']).map_values(|field: Seq<char>| lowered(trim(field, CharClass::White)))
}

/// The context below a line.
pub open spec fn ass_after(context: AssContext, raw: Seq<char>) -> AssContext {
    let line = trim(raw, CharClass::White);
    if same_ignoring_case(line, "[events]"@) {
        AssContext { in_events: true, columns: context.columns }
    } else if line.len() > 0 && line[0] == '[' {
        AssContext { in_events: false, columns: context.columns }
    } else if !context.in_events {
        context
    } else {
        match keyed(line, "format"@) {
            Some(format) => AssContext { in_events: true, columns: declared(format) },
            None => context,
        }
    }
}

/// The text of a dialogue line, where the line is one.
pub open spec fn dialogue_of(context: AssContext, raw: Seq<char>) -> Option<Seq<char>> {
    let line = trim(raw, CharClass::White);
    if same_ignoring_case(line, "[events]"@) || (line.len() > 0 && line[0] == '[')
        || !context.in_events || keyed(line, "format"@) is Some {
        None
    } else {
        keyed(line, "dialogue"@)
    }
}

/// The first index from `from` on at which `name` stands among the columns.
pub open spec fn position(columns: Seq<Seq<char>>, name: Seq<char>, from: int) -> Option<int>
    decreases columns.len() - from,
{
    if from < 0 || from >= columns.len() {
        None
    } else if columns[from] == name {
        Some(from)
    } else {
        position(columns, name, from + 1)
    }
}

/// The field of a dialogue line in the column of that name.
pub open spec fn field(columns: Seq<Seq<char>>, fields: Seq<Seq<char>>, name: Seq<char>) -> Option<
    Seq<char>,
> {
    match position(columns, name, 0) {
        Some(i) => Some(trim(fields[i], CharClass::White)),
        None => None,
    }
}

/// Dialogue text from index `from` on, without override commands and with its
/// line breaks and hard spaces as characters; nothing where a command is not
/// closed.
pub open spec fn stripped_from(s: Seq<char>, from: int) -> Option<Seq<char>>
    decreases s.len() - from,
{
    if from < 0 || from >= s.len() {
        Some(Seq::empty())
    } else if s[from] == '{' && from + 1 < s.len() && s[from + 1] == '\\' {
        match find_from(s, seq!['}'], from) {
            Some(k) if from <= k < s.len() => stripped_from(s, k + 1),
            _ => None,
        }
    } else if s[from] == '\\' && from + 1 < s.len() && (s[from + 1] == 'N' || s[from + 1] == 'n') {
        prefixed('\n', stripped_from(s, from + 2))
    } else if s[from] == '\\' && from + 1 < s.len() && s[from + 1] == 'h' {
        prefixed('\u{a0}', stripped_from(s, from + 2))
    } else {
        prefixed(s[from], stripped_from(s, from + 1))
    }
}

pub open spec fn prefixed(c: char, rest: Option<Seq<char>>) -> Option<Seq<char>> {
    match rest {
        Some(s) => Some(seq![c] + s),
        None => None,
    }
}

/// The cue of a dialogue line, if it has text to show; nothing where the line is
/// malformed.
pub open spec fn dialogue_cues(columns: Seq<Seq<char>>, dialogue: Seq<char>) -> Option<Seq<Cue>> {
    let fields = split_up_to(dialogue, seq![','], columns.len());
    if columns.len() == 0 || columns.last() != "text"@ || fields.len() != columns.len() {
        None
    } else {
        match (
            field(columns, fields, "start"@),
            field(columns, fields, "end"@),
            field(columns, fields, "text"@),
        ) {
            (Some(start), Some(end), Some(text)) => match (
                ass_clock(start),
                ass_clock(end),
                stripped_from(text, 0),
            ) {
                (Some(start), Some(end), Some(text)) => if start >= end {
                    None
                } else if trim(text, CharClass::White).len() == 0 {
                    Some(Seq::empty())
                } else {
                    Some(seq![Cue { start, end, settings: Seq::empty(), text: cue_text(text) }])
                },
                _ => None,
            },
            _ => None,
        }
    }
}

/// The context below the first `n` lines.
pub open spec fn ass_context(ls: Seq<Seq<char>>, n: int) -> AssContext
    decreases n,
{
    if n <= 0 {
        AssContext { in_events: false, columns: Seq::empty() }
    } else {
        ass_after(ass_context(ls, n - 1), ls[n - 1])
    }
}

/// The cues of the first `n` lines.
pub open spec fn ass_cues(ls: Seq<Seq<char>>, n: int) -> Option<Seq<Cue>>
    decreases n,
{
    if n <= 0 {
        Some(Seq::empty())
    } else {
        let context = ass_context(ls, n - 1);
        match ass_cues(ls, n - 1) {
            Some(cues) => match dialogue_of(context, ls[n - 1]) {
                Some(dialogue) => match dialogue_cues(context.columns, dialogue) {
                    Some(more) => Some(cues + more),
                    None => None,
                },
                None => Some(cues),
            },
            None => None,
        }
    }
}

/// The cues of a SubStation Alpha file, of which there is at least one.
pub open spec fn ass_file_cues(text: Seq<char>) -> Option<Seq<Cue>> {
    let ls = lines(text);
    match ass_cues(ls, ls.len() as int) {
        Some(cues) if cues.len() > 0 => Some(cues),
        _ => None,
    }
}

/// A SubStation Alpha file as a WebVTT track.
pub open spec fn ass_track(text: Seq<char>) -> Option<Seq<char>> {
    bounded_track(ass_file_cues(text))
}

proof fn lemma_ass_grows(ls: Seq<Seq<char>>, i: int, n: int)
    requires
        i <= n,
        ass_cues(ls, n) is Some,
    ensures
        ass_cues(ls, i) is Some,
        ass_cues(ls, i)->0.is_prefix_of(ass_cues(ls, n)->0),
    decreases n - i,
{
    if i < n {
        lemma_ass_grows(ls, i, n - 1);
        assert(ass_cues(ls, i)->0.is_prefix_of(ass_cues(ls, n)->0));
    }
}

/// Removes the override commands of dialogue text.
pub fn strip_ass_overrides(value: &[char]) -> (result: Result<Vec<char>, BrowserCaptionError>)
    ensures
        match result {
            Ok(text) => stripped_from(value@, 0) matches Some(plain) && text@ == if trim(
                plain,
                CharClass::White,
            ).len() == 0 {
                Seq::<char>::empty()
            } else {
                cue_text(plain)
            },
            Err(error) => error == BrowserCaptionError::Malformed && stripped_from(value@, 0)
                is None,
        },
{
    let close: [char; 1] = ['}'];
    assert(close@ =~= seq!['}']);
    let mut output: Vec<char> = Vec::new();
    let mut cursor: usize = 0;
    while cursor < value.len()
        invariant
            cursor <= value.len(),
            close@ == seq!['}'],
            match stripped_from(value@, cursor as int) {
                Some(rest) => stripped_from(value@, 0) == Some(output@ + rest),
                None => stripped_from(value@, 0) is None,
            },
        decreases value.len() - cursor,
    {
        let ghost before = output@;
        let ghost from = cursor as int;
        let c = value[cursor];
        let len: usize = value.len();
        if c == '{' && cursor + 1 < value.len() && value[cursor + 1] == '\\' {
            proof {
                lemma_find_from(value@, seq!['}'], cursor as int);
            }
            match index_of_from(value, &close, cursor) {
                Some(k) => {
                    assert(k + 1 <= len);
                    cursor = k + 1;
                },
                None => {
                    return Err(BrowserCaptionError::Malformed);
                },
            }
        } else if c == '\\' && cursor + 1 < value.len() && (value[cursor + 1] == 'N' || value[cursor
            + 1] == 'n') {
            output.push('\n');
            cursor += 2;
            proof {
                if stripped_from(value@, cursor as int) is Some {
                    let rest = stripped_from(value@, cursor as int)->0;
                    assert(before + (seq!['\n'] + rest) =~= output@ + rest);
                }
            }
        } else if c == '\\' && cursor + 1 < value.len() && value[cursor + 1] == 'h' {
            output.push('\u{a0}');
            cursor += 2;
            proof {
                if stripped_from(value@, cursor as int) is Some {
                    let rest = stripped_from(value@, cursor as int)->0;
                    assert(before + (seq!['\u{a0}'] + rest) =~= output@ + rest);
                }
            }
        } else {
            output.push(c);
            cursor += 1;
            proof {
                if stripped_from(value@, cursor as int) is Some {
                    let rest = stripped_from(value@, cursor as int)->0;
                    assert(before + (seq![c] + rest) =~= output@ + rest);
                }
            }
        }
    }
    assert(output@ + Seq::<char>::empty() =~= output@);
    if trimmed(&output, CharClass::White).len() == 0 {
        let none: Vec<char> = Vec::new();
        assert(none@ =~= Seq::<char>::empty());
        Ok(none)
    } else {
        Ok(escape_cue_text(&output))
    }
}

fn keyed_by<'a>(line: &'a [char], key: &str) -> (result: Option<&'a [char]>)
    ensures
        match result {
            Some(body) => keyed(line@, key@) == Some(body@),
            None => keyed(line@, key@) is None,
        },
{
    let colon: [char; 1] = [':'];
    assert(colon@ =~= seq![':']);
    match index_of(line, &colon) {
        Some(k) => {
            proof {
                lemma_find(line@, seq![':']);
            }
            let len: usize = line.len();
            assert(k + 1 <= len);
            let name = slice_subrange(line, 0, k);
            assert(name@ =~= line@.take(k as int));
            if equals_ignoring_case(name, key) {
                let body = slice_subrange(line, k + 1, len);
                assert(body@ =~= line@.skip(k + 1));
                Some(body)
            } else {
                None
            }
        },
        None => None,
    }
}

/// The texts of a list of character vectors.
pub open spec fn vec_texts(parts: Seq<Vec<char>>) -> Seq<Seq<char>> {
    parts.map_values(|part: Vec<char>| part@)
}

fn declared_columns(format: &[char]) -> (columns: Vec<Vec<char>>)
    ensures
        vec_texts(columns@) == declared(format@),
{
    let comma: [char; 1] = [','];
    assert(comma@ =~= seq![',']);
    let parts = split_text(format, &comma);
    let ghost all = split(format@, seq![',']);
    let mut columns: Vec<Vec<char>> = Vec::new();
    let mut i: usize = 0;
    while i < parts.len()
        invariant
            i <= parts.len(),
            texts(parts@) == all,
            all.len() == parts@.len(),
            columns@.len() == i,
            forall|j: int|
                0 <= j < i ==> (#[trigger] columns@[j])@ == lowered(
                    trim(all[j], CharClass::White),
                ),
        decreases parts.len() - i,
    {
        assert(all[i as int] == parts@[i as int]@);
        columns.push(lowered_chars(trimmed(parts[i], CharClass::White)));
        i += 1;
    }
    assert(vec_texts(columns@) =~= declared(format@));
    columns
}

fn column(columns: &Vec<Vec<char>>, name: &str) -> (result: Option<usize>)
    ensures
        match result {
            Some(i) => position(vec_texts(columns@), name@, 0) == Some(i as int) && i
                < columns.len(),
            None => position(vec_texts(columns@), name@, 0) is None,
        },
{
    let ghost all = vec_texts(columns@);
    let mut i: usize = 0;
    while i < columns.len()
        invariant
            i <= columns.len(),
            all == vec_texts(columns@),
            all.len() == columns@.len(),
            position(all, name@, 0) == position(all, name@, i as int),
        decreases columns.len() - i,
    {
        assert(all[i as int] == columns@[i as int]@);
        if is_text(&columns[i], name) {
            return Some(i);
        }
        i += 1;
    }
    None
}

/// Appends the cue of a dialogue line, where it has text to show.
fn append_dialogue(output: &mut Track, columns: &Vec<Vec<char>>, dialogue: &[char]) -> (result:
    Result<bool, BrowserCaptionError>)
    requires
        old(output).wf(),
    ensures
        match dialogue_cues(vec_texts(columns@), dialogue@) {
            Some(more) => {
                let cues = old(output).cues() + more;
                if utf8_len(track(cues)) <= MAX_OUTPUT_BYTES {
                    &&& result == Ok::<bool, BrowserCaptionError>(more.len() > 0)
                    &&& final(output).wf()
                    &&& final(output).cues() == cues
                    &&& more.len() <= 1
                } else {
                    result == Err::<bool, BrowserCaptionError>(BrowserCaptionError::Malformed)
                }
            },
            None => result == Err::<bool, BrowserCaptionError>(BrowserCaptionError::Malformed),
        },
{
    let ghost names = vec_texts(columns@);
    assert(names.len() == columns@.len());
    if columns.len() == 0 {
        return Err(BrowserCaptionError::Malformed);
    }
    assert(names.last() == columns@.last()@);
    if !is_text(&columns[columns.len() - 1], "text") {
        return Err(BrowserCaptionError::Malformed);
    }
    let comma: [char; 1] = [','];
    assert(comma@ =~= seq![',']);
    let fields = split_text_up_to(dialogue, &comma, columns.len());
    let ghost parts = split_up_to(dialogue@, seq![','], columns@.len());
    assert(texts(fields@) == parts);
    assert(parts.len() == fields@.len());
    if fields.len() != columns.len() {
        return Err(BrowserCaptionError::Malformed);
    }
    let (start_at, end_at, text_at) = match (
        column(columns, "start"),
        column(columns, "end"),
        column(columns, "text"),
    ) {
        (Some(start), Some(end), Some(text)) => (start, end, text),
        _ => {
            return Err(BrowserCaptionError::Malformed);
        },
    };
    proof {
        assert(parts[start_at as int] == fields@[start_at as int]@);
        assert(parts[end_at as int] == fields@[end_at as int]@);
        assert(parts[text_at as int] == fields@[text_at as int]@);
    }
    let start = ass_time_chars(trimmed(fields[start_at], CharClass::White));
    let end = ass_time_chars(trimmed(fields[end_at], CharClass::White));
    let (start, end) = match (start, end) {
        (Some(start), Some(end)) => (start, end),
        _ => {
            return Err(BrowserCaptionError::Malformed);
        },
    };
    if end <= start {
        return Err(BrowserCaptionError::Malformed);
    }
    let ghost plain = stripped_from(trim(parts[text_at as int], CharClass::White), 0);
    let cue = match strip_ass_overrides(trimmed(fields[text_at], CharClass::White)) {
        Ok(cue) => cue,
        Err(error) => {
            return Err(error);
        },
    };
    if cue.len() == 0 {
        proof {
            if trim(plain->0, CharClass::White).len() > 0 {
                law_escaped_text_is_cue_text(plain->0);
            }
            assert(output.cues() + Seq::<Cue>::empty() =~= output.cues());
            output.lemma_within();
        }
        return Ok(false);
    }
    let none: [char; 0] = [];
    assert(none@ =~= Seq::<char>::empty());
    proof {
        let made = Cue { start, end, settings: Seq::empty(), text: cue@ };
        assert(output.cues().push(made) =~= output.cues() + seq![made]);
    }
    match output.append_cue(start, end, &none, &cue) {
        Ok(()) => Ok(true),
        Err(error) => Err(error),
    }
}

/// Converts a SubStation Alpha file to a WebVTT track.
pub fn ass_to_webvtt(text: &[char]) -> (result: Result<Vec<char>, BrowserCaptionError>)
    ensures
        match result {
            Ok(track) => ass_track(text@) == Some(track@),
            Err(error) => error == BrowserCaptionError::Malformed && ass_track(text@) is None,
        },
{
    let raw = lines_of(text);
    let ghost ls = lines(text@);
    let mut in_events = false;
    let mut columns: Vec<Vec<char>> = Vec::new();
    let mut output = Track::new();
    let mut cues: usize = 0;
    let mut i: usize = 0;
    assert(vec_texts(columns@) =~= Seq::<Seq<char>>::empty());
    while i < raw.len()
        invariant
            i <= raw.len(),
            ls == lines(text@),
            texts(raw@) == ls,
            ls.len() == raw@.len(),
            output.wf(),
            ass_context(ls, i as int) == (AssContext { in_events, columns: vec_texts(columns@) }),
            ass_cues(ls, i as int) == Some(output.cues()),
            cues == output.cues().len(),
            cues <= i,
        decreases raw.len() - i,
    {
        let ghost context = ass_context(ls, i as int);
        assert(ls[i as int] == raw@[i as int]@);
        let line = trimmed(raw[i], CharClass::White);
        let is_events = equals_ignoring_case(line, "[events]");
        if is_events {
            in_events = true;
        } else if line.len() > 0 && line[0] == '[' {
            in_events = false;
        } else if in_events {
            match keyed_by(line, "format") {
                Some(format) => {
                    columns = declared_columns(format);
                },
                None => match keyed_by(line, "dialogue") {
                    Some(dialogue) => {
                        match append_dialogue(&mut output, &columns, dialogue) {
                            Ok(shown) => {
                                if shown {
                                    cues += 1;
                                }
                            },
                            Err(error) => {
                                proof {
                                    let n = ls.len() as int;
                                    if ass_cues(ls, n) is Some {
                                        lemma_ass_grows(ls, i + 1, n);
                                        lemma_track_grows(
                                            ass_cues(ls, i + 1)->0,
                                            ass_cues(ls, n)->0,
                                        );
                                    }
                                }
                                return Err(error);
                            },
                        }
                    },
                    None => {},
                },
            }
        }
        i += 1;
    }
    if cues > 0 {
        Ok(output.into_chars())
    } else {
        Err(BrowserCaptionError::Malformed)
    }
}

// -------------------------------------------------------------------- laws

proof fn lemma_ass_cues_sound(ls: Seq<Seq<char>>, n: int)
    requires
        ass_cues(ls, n) is Some,
    ensures
        all_sound(ass_cues(ls, n)->0),
    decreases n,
{
    if n > 0 {
        lemma_ass_cues_sound(ls, n - 1);
        let context = ass_context(ls, n - 1);
        match dialogue_of(context, ls[n - 1]) {
            Some(dialogue) => {
                let more = dialogue_cues(context.columns, dialogue)->0;
                assert forall|j: int| 0 <= j < more.len() implies is_sound_cue(#[trigger] more[j]) by {
                    let fields = split_up_to(dialogue, seq![','], context.columns.len());
                    let text = field(context.columns, fields, "text"@)->0;
                    law_escaped_text_is_cue_text(stripped_from(text, 0)->0);
                    assert(!holds_text(more[j].settings, arrow()));
                }
            },
            None => {},
        }
    }
}

/// The cues of every SubStation Alpha file are sound: none of its text can end a
/// cue or be taken for a timing line.
pub proof fn law_ass_cues_are_sound(text: Seq<char>)
    requires
        ass_file_cues(text) is Some,
    ensures
        all_sound(ass_file_cues(text)->0),
{
    lemma_ass_cues_sound(lines(text), lines(text).len() as int);
}

} // verus!
