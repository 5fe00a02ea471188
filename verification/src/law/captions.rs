//! Captions that say the same, in whatever format they are written.
use crate::caption::ass::{
    ass_context, ass_cues, ass_track, declared, dialogue_cues, dialogue_of, keyed,
    position, stripped_from,
};
use crate::caption::again::lemma_newlines_are_there;
use crate::caption::cue::{
    cue_blocks, cue_text, escaped_chars, track, BrowserCaptionError, Cue,
};
use crate::caption::{caption_to_webvtt, sidecar_text, CaptionWebVttConversion};
use crate::law::clock::{
    lemma_substation_stamp, lemma_trim_nothing, substation_stamp, webvtt_stamp,
};
use crate::text::{
    is_white_space, lemma_find_char, lemma_split_head_char, lemma_split_whole_char,
    lines, lower, lowered, split, split_up_to, trim, CharClass,
};
use vstd::prelude::*;
use vstd::utf8::encode_utf8;

verus! {

// ---------------------------------------------------------------------- rows

/// The parts one behind the other, with a character between them.
pub open spec fn in_a_row(parts: Seq<Seq<char>>, c: char) -> Seq<char>
    decreases parts.len(),
{
    if parts.len() == 0 {
        Seq::empty()
    } else if parts.len() == 1 {
        parts[0]
    } else {
        parts[0] + seq![c] + in_a_row(parts.skip(1), c)
    }
}

/// A text does not hold a character.
pub open spec fn is_without(s: Seq<char>, c: char) -> bool {
    forall|i: int| 0 <= i < s.len() ==> #[trigger] s[i] != c
}

pub(crate) proof fn lemma_split_row(parts: Seq<Seq<char>>, c: char)
    requires
        parts.len() > 0,
        forall|i: int| 0 <= i < parts.len() ==> is_without(#[trigger] parts[i], c),
    ensures
        split(in_a_row(parts, c), seq![c]) == parts,
    decreases parts.len(),
{
    assert(is_without(parts[0], c));
    if parts.len() == 1 {
        lemma_split_whole_char(parts[0], c);
        assert(seq![parts[0]] =~= parts);
    } else {
        let rest = parts.skip(1);
        assert forall|i: int| 0 <= i < rest.len() implies is_without(#[trigger] rest[i], c) by {
            assert(rest[i] == parts[i + 1]);
        }
        lemma_split_row(rest, c);
        lemma_split_head_char(parts[0], c, in_a_row(rest, c));
        assert(seq![parts[0]] + rest =~= parts);
    }
}

pub(crate) proof fn lemma_split_up_to_row(parts: Seq<Seq<char>>, c: char)
    requires
        parts.len() > 0,
        forall|i: int| 0 <= i < parts.len() - 1 ==> is_without(#[trigger] parts[i], c),
    ensures
        split_up_to(in_a_row(parts, c), seq![c], parts.len()) == parts,
    decreases parts.len(),
{
    if parts.len() == 1 {
        assert(seq![parts[0]] =~= parts);
    } else {
        let rest = parts.skip(1);
        let behind = in_a_row(rest, c);
        let all = in_a_row(parts, c);
        assert(is_without(parts[0], c));
        assert forall|i: int| 0 <= i < rest.len() - 1 implies is_without(#[trigger] rest[i], c) by {
            assert(rest[i] == parts[i + 1]);
        }
        lemma_split_up_to_row(rest, c);
        lemma_find_char(parts[0], c, behind);
        assert(all.take(parts[0].len() as int) =~= parts[0]);
        assert(all.skip(parts[0].len() as int + 1) =~= behind);
        assert(seq![parts[0]] + rest =~= parts);
    }
}

pub(crate) proof fn lemma_row_without(parts: Seq<Seq<char>>, c: char, x: char)
    requires
        x != c,
        forall|i: int| 0 <= i < parts.len() ==> is_without(#[trigger] parts[i], x),
    ensures
        is_without(in_a_row(parts, c), x),
    decreases parts.len(),
{
    if parts.len() > 0 {
        assert(is_without(parts[0], x));
    }
    if parts.len() > 1 {
        let rest = parts.skip(1);
        assert forall|i: int| 0 <= i < rest.len() implies is_without(#[trigger] rest[i], x) by {
            assert(rest[i] == parts[i + 1]);
        }
        lemma_row_without(rest, c, x);
        let all = in_a_row(parts, c);
        let k = parts[0].len() as int;
        assert forall|i: int| 0 <= i < all.len() implies #[trigger] all[i] != x by {
            if i < k {
                assert(all[i] == parts[0][i]);
            } else if i > k {
                assert(all[i] == in_a_row(rest, c)[i - k - 1]);
            }
        }
    }
}

/// A row ends as its last part does.
pub(crate) proof fn lemma_row_ends(parts: Seq<Seq<char>>, c: char)
    requires
        parts.len() > 0,
        parts.last().len() > 0,
    ensures
        in_a_row(parts, c).len() > 0,
        in_a_row(parts, c).last() == parts.last().last(),
    decreases parts.len(),
{
    if parts.len() > 1 {
        assert(parts.skip(1).last() == parts.last());
        lemma_row_ends(parts.skip(1), c);
    }
}

/// The lines of a text are the lines that it was put together from.
pub(crate) proof fn lemma_lines_row(ls: Seq<Seq<char>>)
    requires
        ls.len() > 0,
        ls.last().len() > 0,
        forall|i: int| 0 <= i < ls.len() ==> is_without(#[trigger] ls[i], '\n'),
    ensures
        lines(in_a_row(ls, '\n')) == ls,
{
    lemma_split_row(ls, '\n');
}

// --------------------------------------------------------------------- texts

/// One line of text that means in every format what it says: it begins and ends
/// with something to see, and holds no mark-up.
pub open spec fn is_plain(text: Seq<char>) -> bool {
    &&& text.len() > 0
    &&& !is_white_space(text[0])
    &&& !is_white_space(text.last())
    &&& forall|i: int|
        0 <= i < text.len() ==> {
            &&& #[trigger] text[i] != '\n'
            &&& text[i] != '\r'
            &&& text[i] != '\0'
            &&& text[i] != '{'
            &&& text[i] != '\\'
            &&& text[i] != '&'
            &&& text[i] != '<'
            &&& text[i] != '>'
        }
}

/// Text that needs no escaping is left alone.
proof fn lemma_plain_is_unescaped(text: Seq<char>)
    requires
        forall|i: int|
            0 <= i < text.len() ==> #[trigger] text[i] != '&' && text[i] != '<' && text[i] != '>',
    ensures
        escaped_chars(text) == text,
    decreases text.len(),
{
    if text.len() > 0 {
        let rest = text.drop_last();
        assert forall|i: int| 0 <= i < rest.len() implies #[trigger] rest[i] != '&' && rest[i] != '<'
            && rest[i] != '>' by {
            assert(rest[i] == text[i]);
        }
        lemma_plain_is_unescaped(rest);
        assert(text[text.len() - 1] == text.last());
        assert(rest + seq![text.last()] =~= text);
    } else {
        assert(text =~= Seq::<char>::empty());
    }
}

/// Plain text is shown as it is.
pub(crate) proof fn lemma_plain_cue_text(text: Seq<char>)
    requires
        is_plain(text),
    ensures
        cue_text(text) == text,
{
    assert(crate::caption::again::lacks(text, '\r'));
    lemma_newlines_are_there(text, 0);
    assert(text.skip(0) =~= text);
    lemma_split_whole_char(text, '\n');
    lemma_plain_is_unescaped(text);
}

/// Plain text holds no command.
proof fn lemma_plain_has_no_commands(text: Seq<char>, from: int)
    requires
        is_plain(text),
        0 <= from <= text.len(),
    ensures
        stripped_from(text, from) == Some(text.skip(from)),
    decreases text.len() - from,
{
    if from < text.len() {
        lemma_plain_has_no_commands(text, from + 1);
        assert(text[from] != '{' && text[from] != '\\');
        assert(seq![text[from]] + text.skip(from + 1) =~= text.skip(from));
    } else {
        assert(text.skip(from) =~= Seq::<char>::empty());
    }
}

// -------------------------------------------------------------------- tracks

/// A caption: from when to when it is shown, in milliseconds, and what it says.
pub struct Caption {
    pub start: nat,
    pub end: nat,
    pub text: Seq<char>,
}

/// The WebVTT track of captions: a heading, and for each of them the times and the
/// text, with an empty line behind it.
pub open spec fn track_of(captions: Seq<Caption>) -> Seq<char>
    decreases captions.len(),
{
    if captions.len() == 0 {
        "WEBVTT"@ + seq!['\n', '\n']
    } else {
        let last = captions.last();
        track_of(captions.drop_last()) + webvtt_stamp(last.start) + " --> "@ + webvtt_stamp(
            last.end,
        ) + seq!['\n'] + last.text + seq!['\n', '\n']
    }
}

pub(crate) proof fn lemma_track_of(captions: Seq<Caption>, cues: Seq<Cue>)
    requires
        captions.len() == cues.len(),
        forall|i: int|
            0 <= i < cues.len() ==> {
                &&& (#[trigger] cues[i]).start == captions[i].start
                &&& cues[i].end == captions[i].end
                &&& cues[i].text == captions[i].text
                &&& cues[i].settings.len() == 0
            },
    ensures
        track(cues) == track_of(captions),
    decreases captions.len(),
{
    if captions.len() == 0 {
        reveal_strlit("WEBVTT");
        assert(track(cues) =~= "WEBVTT"@ + seq!['\n', '\n']);
    } else {
        let (before, earlier) = (captions.drop_last(), cues.drop_last());
        assert forall|i: int| 0 <= i < earlier.len() implies {
            &&& (#[trigger] earlier[i]).start == before[i].start
            &&& earlier[i].end == before[i].end
            &&& earlier[i].text == before[i].text
            &&& earlier[i].settings.len() == 0
        } by {
            assert(earlier[i] == cues[i] && before[i] == captions[i]);
        }
        lemma_track_of(before, earlier);
        let (cue, caption) = (cues.last(), captions.last());
        assert(cue == cues[cues.len() - 1]);
        assert(cue.settings =~= Seq::<char>::empty());
        lemma_block(
            crate::caption::cue::track_header(),
            cue_blocks(earlier),
            webvtt_stamp(caption.start),
            webvtt_stamp(caption.end),
            caption.text,
        );
    }
}

/// The pieces of a cue, put together in turn.
proof fn lemma_block(
    header: Seq<char>,
    blocks: Seq<char>,
    start: Seq<char>,
    end: Seq<char>,
    text: Seq<char>,
)
    ensures
        header + (blocks + (start + seq![' '] + crate::caption::cue::arrow() + seq![' '] + end
            + Seq::<char>::empty() + seq!['\n'] + text + seq!['\n', '\n'])) == (header + blocks)
            + start + " --> "@ + end + seq!['\n'] + text + seq!['\n', '\n'],
{
    reveal_strlit(" --> ");
    assert(seq![' '] + crate::caption::cue::arrow() + seq![' '] =~= " --> "@);
    assert(start + seq![' '] + crate::caption::cue::arrow() + seq![' '] =~= start + (seq![' ']
        + crate::caption::cue::arrow() + seq![' ']));
    let middle = start + " --> "@;
    assert(middle + end + Seq::<char>::empty() =~= middle + end);
    let whole = header + blocks;
    let tail = seq!['\n', '\n'];
    assert(header + (blocks + (middle + end + seq!['\n'] + text + tail)) =~= whole + (middle + end
        + seq!['\n'] + text + tail));
    assert(whole + (middle + end + seq!['\n'] + text + tail) =~= whole + middle + end + seq!['\n']
        + text + tail);
    assert(whole + middle =~= whole + start + " --> "@);
}

/// A sidecar of that text.
pub open spec fn is_sidecar(body: Seq<u8>, text: Seq<char>) -> bool {
    &&& body == encode_utf8(text)
    &&& body.len() <= 8_388_608
}

pub(crate) proof fn lemma_sidecar(body: Seq<u8>, text: Seq<char>)
    requires
        is_sidecar(body, text),
        is_without(text, '\r'),
        is_without(text, '\0'),
        text.len() > 0 ==> text[0] != '\u{feff}',
    ensures
        sidecar_text(body) == text,
        vstd::utf8::valid_utf8(body),
        !text.contains('\0'),
{
    vstd::utf8::encode_utf8_valid_utf8(text);
    vstd::utf8::encode_utf8_decode_utf8(text);
    assert(crate::caption::again::lacks(text, '\r'));
    lemma_newlines_are_there(text, 0);
    assert(text.skip(0) =~= text);
}

// ---------------------------------------------------------- SubStation Alpha

/// A dialogue line: a caption, in hundredths of a second, and the fields of the
/// line.
pub struct Dialogue {
    pub start: nat,
    pub end: nat,
    pub text: Seq<char>,
    pub fields: Seq<Seq<char>>,
}

/// The name of a column, as it is compared.
pub open spec fn column_name(written: Seq<char>) -> Seq<char> {
    lowered(trim(written, CharClass::White))
}

/// Columns of which the one at `s` is for the start, the one at `e` for the end,
/// and the last for the text.
pub open spec fn are_columns(columns: Seq<Seq<char>>, s: int, e: int) -> bool {
    let n = columns.len() as int;
    &&& 0 <= s < n - 1
    &&& 0 <= e < n - 1
    &&& column_name(columns[s]) == "start"@
    &&& column_name(columns[e]) == "end"@
    &&& column_name(columns[n - 1]) == "text"@
    &&& columns[n - 1].len() > 0
    &&& !is_white_space(columns[n - 1].last())
    &&& forall|i: int|
        0 <= i < n ==> is_without(#[trigger] columns[i], ',') && is_without(columns[i], '\n')
            && is_without(columns[i], '\r') && is_without(columns[i], '\0')
    &&& forall|i: int| 0 <= i < s ==> column_name(#[trigger] columns[i]) != "start"@
    &&& forall|i: int| 0 <= i < e ==> column_name(#[trigger] columns[i]) != "end"@
    &&& forall|i: int| 0 <= i < n - 1 ==> column_name(#[trigger] columns[i]) != "text"@
}

/// Whether a dialogue line fills those columns, with times that move forward.
pub open spec fn fills(line: Dialogue, columns: Seq<Seq<char>>, s: int, e: int) -> bool {
    is_line(line, columns, s, e) && line.start < line.end
}

/// Whether a dialogue line has those columns: the times where they belong, the
/// text at the end, and anything else without a comma in between.
pub open spec fn is_line(line: Dialogue, columns: Seq<Seq<char>>, s: int, e: int) -> bool {
    let n = columns.len() as int;
    &&& line.fields.len() == n
    &&& trim(line.fields[s], CharClass::White) == substation_stamp(line.start)
    &&& trim(line.fields[e], CharClass::White) == substation_stamp(line.end)
    &&& line.fields[n - 1] == line.text
    &&& is_plain(line.text)
    &&& 10 * line.start <= u64::MAX
    &&& 10 * line.end <= u64::MAX
    &&& forall|i: int|
        0 <= i < n - 1 ==> is_without(#[trigger] line.fields[i], ',') && is_without(
            line.fields[i],
            '\n',
        ) && is_without(line.fields[i], '\r') && is_without(line.fields[i], '\0')
}

/// The lines of a SubStation Alpha file: the events, their columns, and the
/// dialogue.
pub open spec fn substation_lines(columns: Seq<Seq<char>>, dialogue: Seq<Dialogue>) -> Seq<
    Seq<char>,
> {
    seq!["[Events]"@, "Format:"@ + in_a_row(columns, ',')] + dialogue.map_values(
        |line: Dialogue| "Dialogue:"@ + in_a_row(line.fields, ','),
    )
}

/// What a dialogue line says.
pub open spec fn caption_of(line: Dialogue) -> Caption {
    Caption { start: 10 * line.start, end: 10 * line.end, text: line.text }
}

/// The cue of a dialogue line.
spec fn cue_of(line: Dialogue) -> Cue {
    Cue {
        start: (10 * line.start) as u64,
        end: (10 * line.end) as u64,
        settings: Seq::empty(),
        text: line.text,
    }
}

proof fn lemma_key(name: Seq<char>, key: Seq<char>, rest: Seq<char>)
    requires
        is_without(name, ':'),
        lowered(name) == lowered(key),
    ensures
        keyed(name + seq![':'] + rest, key) == Some(rest),
{
    let line = name + seq![':'] + rest;
    lemma_find_char(name, ':', rest);
    assert(line.take(name.len() as int) =~= name);
    assert(line.skip(name.len() as int + 1) =~= rest);
}

proof fn lemma_not_key(name: Seq<char>, key: Seq<char>, rest: Seq<char>)
    requires
        is_without(name, ':'),
        name.len() != key.len(),
    ensures
        keyed(name + seq![':'] + rest, key) is None,
{
    let line = name + seq![':'] + rest;
    lemma_find_char(name, ':', rest);
    assert(line.take(name.len() as int) =~= name);
    assert(lowered(name).len() == name.len());
    assert(lowered(key).len() == key.len());
}

proof fn lemma_position_is(columns: Seq<Seq<char>>, name: Seq<char>, from: int, k: int)
    requires
        0 <= from <= k < columns.len(),
        columns[k] == name,
        forall|i: int| from <= i < k ==> #[trigger] columns[i] != name,
    ensures
        position(columns, name, from) == Some(k),
    decreases k - from,
{
    if from < k {
        lemma_position_is(columns, name, from + 1, k);
    }
}

proof fn lemma_dialogue(columns: Seq<Seq<char>>, line: Dialogue, s: int, e: int)
    requires
        are_columns(columns, s, e),
        is_line(line, columns, s, e),
    ensures
        dialogue_cues(
            columns.map_values(|column: Seq<char>| column_name(column)),
            in_a_row(line.fields, ','),
        ) == if line.start < line.end {
            Some(seq![cue_of(line)])
        } else {
            None
        },
{
    let n = columns.len() as int;
    let names = columns.map_values(|column: Seq<char>| column_name(column));
    assert(names.len() == n);
    assert(names.last() == column_name(columns[n - 1]));
    lemma_split_up_to_row(line.fields, ',');
    lemma_position_is(names, "start"@, 0, s);
    lemma_position_is(names, "end"@, 0, e);
    lemma_position_is(names, "text"@, 0, n - 1);
    lemma_substation_stamp(line.start);
    lemma_substation_stamp(line.end);
    lemma_trim_nothing(line.text, CharClass::White);
    lemma_plain_has_no_commands(line.text, 0);
    assert(line.text.skip(0) =~= line.text);
    lemma_plain_cue_text(line.text);
}

proof fn lemma_format_line(columns: Seq<Seq<char>>, s: int, e: int)
    requires
        are_columns(columns, s, e),
    ensures
        ({
            let line = "Format:"@ + in_a_row(columns, ',');
            &&& trim(line, CharClass::White) == line
            &&& line.len() > 0 && line[0] == 'F'
            &&& keyed(line, "format"@) == Some(in_a_row(columns, ','))
            &&& declared(in_a_row(columns, ',')) == columns.map_values(
                |column: Seq<char>| column_name(column),
            )
            &&& is_without(line, '\n') && is_without(line, '\r') && is_without(line, '\0')
        }),
{
    let row = in_a_row(columns, ',');
    let line = "Format:"@ + row;
    reveal_strlit("Format:");
    reveal_strlit("format");
    let name = seq!['F', 'o', 'r', 'm', 'a', 't'];
    assert(line =~= name + seq![':'] + row);
    assert(lowered(name) =~= lowered("format"@));
    lemma_key(name, "format"@, row);
    lemma_row_ends(columns, ',');
    assert(line.last() == row.last());
    lemma_trim_nothing(line, CharClass::White);
    lemma_split_row(columns, ',');
    assert(declared(row) =~= columns.map_values(|column: Seq<char>| column_name(column)));
    lemma_line_without("Format:"@, columns, '\n');
    lemma_line_without("Format:"@, columns, '\r');
    lemma_line_without("Format:"@, columns, '\0');
}

proof fn lemma_line_without(key: Seq<char>, parts: Seq<Seq<char>>, x: char)
    requires
        x != ',',
        is_without(key, x),
        forall|i: int| 0 <= i < parts.len() ==> is_without(#[trigger] parts[i], x),
    ensures
        is_without(key + in_a_row(parts, ','), x),
{
    lemma_row_without(parts, ',', x);
    let line = key + in_a_row(parts, ',');
    assert forall|i: int| 0 <= i < line.len() implies #[trigger] line[i] != x by {
        if i < key.len() {
            assert(line[i] == key[i]);
        } else {
            assert(line[i] == in_a_row(parts, ',')[i - key.len()]);
        }
    }
}

proof fn lemma_dialogue_line(columns: Seq<Seq<char>>, dialogue: Dialogue, s: int, e: int)
    requires
        are_columns(columns, s, e),
        is_line(dialogue, columns, s, e),
    ensures
        ({
            let line = "Dialogue:"@ + in_a_row(dialogue.fields, ',');
            &&& trim(line, CharClass::White) == line
            &&& line.len() > 0 && line[0] == 'D'
            &&& keyed(line, "format"@) is None
            &&& keyed(line, "dialogue"@) == Some(in_a_row(dialogue.fields, ','))
            &&& is_without(line, '\n') && is_without(line, '\r') && is_without(line, '\0')
        }),
{
    let fields = dialogue.fields;
    let row = in_a_row(fields, ',');
    let line = "Dialogue:"@ + row;
    reveal_strlit("Dialogue:");
    reveal_strlit("dialogue");
    reveal_strlit("format");
    let name = seq!['D', 'i', 'a', 'l', 'o', 'g', 'u', 'e'];
    assert(line =~= name + seq![':'] + row);
    assert(lowered(name) =~= lowered("dialogue"@));
    lemma_key(name, "dialogue"@, row);
    lemma_not_key(name, "format"@, row);
    assert(fields.last() == dialogue.text);
    lemma_row_ends(fields, ',');
    assert(line.last() == row.last());
    lemma_trim_nothing(line, CharClass::White);
    let n = fields.len() as int;
    assert forall|i: int| 0 <= i < n implies is_without(#[trigger] fields[i], '\n') && is_without(
        fields[i],
        '\r',
    ) && is_without(fields[i], '\0') by {
        if i == n - 1 {
            assert(fields[i] == dialogue.text);
        }
    }
    lemma_line_without("Dialogue:"@, fields, '\n');
    lemma_line_without("Dialogue:"@, fields, '\r');
    lemma_line_without("Dialogue:"@, fields, '\0');
}

proof fn lemma_not_events(line: Seq<char>)
    requires
        line.len() > 0,
        line[0] == 'D' || line[0] == 'F',
    ensures
        lowered(line) != lowered("[events]"@),
{
    reveal_strlit("[events]");
    assert(lowered(line)[0] == lower(line[0]));
    assert(lowered("[events]"@)[0] == '[');
}

/// The lines before the dialogue begin the events, name their columns and show
/// nothing.
proof fn lemma_substation_head(columns: Seq<Seq<char>>, dialogue: Seq<Dialogue>, s: int, e: int)
    requires
        are_columns(columns, s, e),
    ensures
        ({
            let ls = substation_lines(columns, dialogue);
            let context = ass_context(ls, 2);
            &&& context.in_events
            &&& context.columns == columns.map_values(|column: Seq<char>| column_name(column))
            &&& ass_cues(ls, 2) == Some(Seq::<Cue>::empty())
        }),
{
    let ls = substation_lines(columns, dialogue);
    reveal_strlit("[Events]");
    reveal_strlit("[events]");
    let events = "[Events]"@;
    assert(ls[0] == events);
    assert(ls[1] == "Format:"@ + in_a_row(columns, ','));
    reveal_with_fuel(ass_context, 3);
    reveal_with_fuel(ass_cues, 3);
    lemma_trim_nothing(events, CharClass::White);
    assert(lowered(events) =~= lowered("[events]"@));
    lemma_format_line(columns, s, e);
    lemma_not_events(ls[1]);
    assert(ass_context(ls, 1).in_events);
    assert(ass_cues(ls, 1) == Some(Seq::<Cue>::empty()));
    assert(dialogue_of(ass_context(ls, 1), ls[1]) is None);
}

/// A dialogue line leaves the columns as they are and adds its caption, if its
/// times move forward.
proof fn lemma_substation_step(
    columns: Seq<Seq<char>>,
    dialogue: Seq<Dialogue>,
    s: int,
    e: int,
    n: int,
)
    requires
        are_columns(columns, s, e),
        0 < n <= dialogue.len(),
        is_line(dialogue[n - 1], columns, s, e),
        ({
            let context = ass_context(substation_lines(columns, dialogue), n + 1);
            &&& context.in_events
            &&& context.columns == columns.map_values(|column: Seq<char>| column_name(column))
        }),
    ensures
        ({
            let ls = substation_lines(columns, dialogue);
            let line = dialogue[n - 1];
            &&& ass_context(ls, n + 2) == ass_context(ls, n + 1)
            &&& ass_cues(ls, n + 2) == match ass_cues(ls, n + 1) {
                Some(cues) => if line.start < line.end {
                    Some(cues + seq![cue_of(line)])
                } else {
                    None
                },
                None => None,
            }
        }),
{
    let ls = substation_lines(columns, dialogue);
    let line = dialogue[n - 1];
    assert(ls[n + 1] == "Dialogue:"@ + in_a_row(line.fields, ','));
    lemma_dialogue_line(columns, line, s, e);
    lemma_not_events(ls[n + 1]);
    lemma_dialogue(columns, line, s, e);
}

proof fn lemma_substation_context(
    columns: Seq<Seq<char>>,
    dialogue: Seq<Dialogue>,
    s: int,
    e: int,
    n: int,
)
    requires
        are_columns(columns, s, e),
        forall|i: int| 0 <= i < dialogue.len() ==> is_line(#[trigger] dialogue[i], columns, s, e),
        0 <= n <= dialogue.len(),
    ensures
        ({
            let context = ass_context(substation_lines(columns, dialogue), n + 2);
            &&& context.in_events
            &&& context.columns == columns.map_values(|column: Seq<char>| column_name(column))
        }),
    decreases n,
{
    if n == 0 {
        lemma_substation_head(columns, dialogue, s, e);
    } else {
        lemma_substation_context(columns, dialogue, s, e, n - 1);
        assert(is_line(dialogue[n - 1], columns, s, e));
        lemma_substation_step(columns, dialogue, s, e, n);
    }
}

proof fn lemma_substation_cues(
    columns: Seq<Seq<char>>,
    dialogue: Seq<Dialogue>,
    s: int,
    e: int,
    n: int,
)
    requires
        are_columns(columns, s, e),
        forall|i: int| 0 <= i < dialogue.len() ==> is_line(#[trigger] dialogue[i], columns, s, e),
        forall|i: int| 0 <= i < n ==> (#[trigger] dialogue[i]).start < dialogue[i].end,
        0 <= n <= dialogue.len(),
    ensures
        ass_cues(substation_lines(columns, dialogue), n + 2) == Some(
            Seq::new(n as nat, |i: int| cue_of(dialogue[i])),
        ),
    decreases n,
{
    if n == 0 {
        lemma_substation_head(columns, dialogue, s, e);
        assert(Seq::<Cue>::empty() =~= Seq::new(0, |i: int| cue_of(dialogue[i])));
    } else {
        lemma_substation_cues(columns, dialogue, s, e, n - 1);
        lemma_substation_context(columns, dialogue, s, e, n - 1);
        let line = dialogue[n - 1];
        assert(is_line(dialogue[n - 1], columns, s, e));
        lemma_substation_step(columns, dialogue, s, e, n);
        assert(Seq::new((n - 1) as nat, |i: int| cue_of(dialogue[i])) + seq![cue_of(line)]
            =~= Seq::new(n as nat, |i: int| cue_of(dialogue[i])));
    }
}

proof fn lemma_substation_backwards(
    columns: Seq<Seq<char>>,
    dialogue: Seq<Dialogue>,
    s: int,
    e: int,
    n: int,
    k: int,
)
    requires
        are_columns(columns, s, e),
        forall|i: int| 0 <= i < dialogue.len() ==> is_line(#[trigger] dialogue[i], columns, s, e),
        0 <= k < n <= dialogue.len(),
        dialogue[k].start >= dialogue[k].end,
    ensures
        ass_cues(substation_lines(columns, dialogue), n + 2) is None,
    decreases n,
{
    lemma_substation_context(columns, dialogue, s, e, n - 1);
    assert(is_line(dialogue[n - 1], columns, s, e));
    lemma_substation_step(columns, dialogue, s, e, n);
    if k < n - 1 {
        lemma_substation_backwards(columns, dialogue, s, e, n - 1, k);
    }
}

/// A line of a SubStation Alpha file is a line.
proof fn lemma_substation_line(
    columns: Seq<Seq<char>>,
    dialogue: Seq<Dialogue>,
    s: int,
    e: int,
    i: int,
)
    requires
        are_columns(columns, s, e),
        forall|i: int| 0 <= i < dialogue.len() ==> is_line(#[trigger] dialogue[i], columns, s, e),
        0 <= i < substation_lines(columns, dialogue).len(),
    ensures
        ({
            let line = substation_lines(columns, dialogue)[i];
            &&& line.len() > 0
            &&& is_without(line, '\n') && is_without(line, '\r') && is_without(line, '\0')
        }),
{
    let ls = substation_lines(columns, dialogue);
    if i == 0 {
        reveal_strlit("[Events]");
        assert(ls[0] == "[Events]"@);
    } else if i == 1 {
        assert(ls[1] == "Format:"@ + in_a_row(columns, ','));
        lemma_format_line(columns, s, e);
    } else {
        assert(is_line(dialogue[i - 2], columns, s, e));
        assert(ls[i] == "Dialogue:"@ + in_a_row(dialogue[i - 2].fields, ','));
        lemma_dialogue_line(columns, dialogue[i - 2], s, e);
    }
}

/// The text of a SubStation Alpha file has its lines, and nothing foreign.
proof fn lemma_substation_text(columns: Seq<Seq<char>>, dialogue: Seq<Dialogue>, s: int, e: int)
    requires
        are_columns(columns, s, e),
        forall|i: int| 0 <= i < dialogue.len() ==> is_line(#[trigger] dialogue[i], columns, s, e),
    ensures
        ({
            let ls = substation_lines(columns, dialogue);
            let text = in_a_row(ls, '\n');
            &&& lines(text) == ls
            &&& is_without(text, '\r') && is_without(text, '\0')
            &&& text.len() > 0 && text[0] == '['
        }),
{
    let ls = substation_lines(columns, dialogue);
    let text = in_a_row(ls, '\n');
    assert forall|i: int| 0 <= i < ls.len() implies is_without(#[trigger] ls[i], '\n')
        && is_without(ls[i], '\r') && is_without(ls[i], '\0') && ls[i].len() > 0 by {
        lemma_substation_line(columns, dialogue, s, e, i);
    }
    assert(ls.last() == ls[ls.len() - 1]);
    lemma_lines_row(ls);
    lemma_row_without(ls, '\n', '\r');
    lemma_row_without(ls, '\n', '\0');
    reveal_strlit("[Events]");
    assert(ls[0] == "[Events]"@);
    assert(text == ls[0] + seq!['\n'] + in_a_row(ls.skip(1), '\n'));
    assert(text[0] == ls[0][0]);
}

/// The cues of dialogue lines make the track of their captions.
proof fn lemma_dialogue_track(dialogue: Seq<Dialogue>)
    requires
        forall|i: int|
            0 <= i < dialogue.len() ==> (#[trigger] dialogue[i]).start < dialogue[i].end && 10
                * dialogue[i].end <= u64::MAX,
    ensures
        track(Seq::new(dialogue.len(), |i: int| cue_of(dialogue[i]))) == track_of(
            dialogue.map_values(|line: Dialogue| caption_of(line)),
        ),
{
    let captions = dialogue.map_values(|line: Dialogue| caption_of(line));
    let cues = Seq::new(dialogue.len(), |i: int| cue_of(dialogue[i]));
    assert forall|i: int| 0 <= i < cues.len() implies {
        &&& (#[trigger] cues[i]).start == captions[i].start
        &&& cues[i].end == captions[i].end
        &&& cues[i].text == captions[i].text
        &&& cues[i].settings.len() == 0
    } by {
        assert(dialogue[i].start < dialogue[i].end);
    }
    lemma_track_of(captions, cues);
}

/// A SubStation Alpha file, in whatever order its columns come, becomes the track
/// of exactly its dialogue lines, in order, each shown from its start to its end
/// with its text.
pub proof fn law_substation_files_become_their_captions(
    columns: Seq<Seq<char>>,
    dialogue: Seq<Dialogue>,
    s: int,
    e: int,
    body: &[u8],
    result: Result<Vec<u8>, BrowserCaptionError>,
)
    requires
        call_ensures(
            caption_to_webvtt,
            (CaptionWebVttConversion::SubStationAlphaToWebVtt, body),
            result,
        ),
        are_columns(columns, s, e),
        dialogue.len() > 0,
        forall|i: int| 0 <= i < dialogue.len() ==> fills(#[trigger] dialogue[i], columns, s, e),
        is_sidecar(body@, in_a_row(substation_lines(columns, dialogue), '\n')),
        ({
            let captions = dialogue.map_values(|line: Dialogue| caption_of(line));
            encode_utf8(track_of(captions)).len() <= 6 * 8_388_608
        }),
    ensures
        result is Ok,
        result->Ok_0@ == encode_utf8(
            track_of(dialogue.map_values(|line: Dialogue| caption_of(line))),
        ),
{
    let ls = substation_lines(columns, dialogue);
    let text = in_a_row(ls, '\n');
    assert forall|i: int| 0 <= i < dialogue.len() implies is_line(
        #[trigger] dialogue[i],
        columns,
        s,
        e,
    ) by {
        assert(fills(dialogue[i], columns, s, e));
    }
    lemma_substation_text(columns, dialogue, s, e);
    lemma_sidecar(body@, text);
    assert forall|i: int| 0 <= i < dialogue.len() implies (#[trigger] dialogue[i]).start
        < dialogue[i].end && 10 * dialogue[i].end <= u64::MAX by {
        assert(fills(dialogue[i], columns, s, e));
    }
    lemma_substation_cues(columns, dialogue, s, e, dialogue.len() as int);
    lemma_dialogue_track(dialogue);
    lemma_substation_track(text, Seq::new(dialogue.len(), |i: int| cue_of(dialogue[i])));
}

/// A file with those cues has their track.
proof fn lemma_substation_track(text: Seq<char>, cues: Seq<Cue>)
    requires
        cues.len() > 0,
        ass_cues(lines(text), lines(text).len() as int) == Some(cues),
        encode_utf8(track(cues)).len() <= 6 * 8_388_608,
    ensures
        ass_track(text) == Some(track(cues)),
{
}

/// A SubStation Alpha file with a dialogue line that does not end after it begins
/// is malformed, wherever that stands.
pub proof fn law_substation_times_move_forward(
    columns: Seq<Seq<char>>,
    dialogue: Seq<Dialogue>,
    s: int,
    e: int,
    body: &[u8],
    result: Result<Vec<u8>, BrowserCaptionError>,
    k: int,
)
    requires
        call_ensures(
            caption_to_webvtt,
            (CaptionWebVttConversion::SubStationAlphaToWebVtt, body),
            result,
        ),
        are_columns(columns, s, e),
        forall|i: int| 0 <= i < dialogue.len() ==> is_line(#[trigger] dialogue[i], columns, s, e),
        is_sidecar(body@, in_a_row(substation_lines(columns, dialogue), '\n')),
        0 <= k < dialogue.len(),
        dialogue[k].start >= dialogue[k].end,
    ensures
        result == Err::<Vec<u8>, BrowserCaptionError>(BrowserCaptionError::Malformed),
{
    let text = in_a_row(substation_lines(columns, dialogue), '\n');
    lemma_substation_text(columns, dialogue, s, e);
    lemma_sidecar(body@, text);
    lemma_substation_backwards(columns, dialogue, s, e, dialogue.len() as int, k);
    assert(ass_track(text) is None);
}

} // verus!
