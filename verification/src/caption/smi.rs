//! SAMI: a small tokenizer that flattens its formatting. It tells a literal
//! `< 3`, quoted attributes and comments from tags.
use crate::caption::cue::{
    all_sound, arrow, bounded_track, cue_text, escape_cue_text, law_escaped_text_is_cue_text,
    lemma_track_grows, track, BrowserCaptionError, Cue, Track, MAX_OUTPUT_BYTES,
};
use crate::encoding::{string_of, utf8_len};
use crate::number::{ascii_number, number};
use crate::text::{
    append_chars, chars_of, equals_ignoring_case, find, find_from, first_in, holds_text, index_in,
    index_of, index_of_from, is_alpha, is_ascii_white, is_at, is_digit, is_hex_digit, is_text,
    lemma_find, lemma_find_from, lemma_first_in, lemma_run, occurs_at, run, run_of,
    same_ignoring_case, trim, trim_end, trim_start, trimmed, trimmed_end, trimmed_start, CharClass,
};
use vstd::prelude::*;
use vstd::slice::slice_subrange;

verus! {

/// A tag: where it stands, its name, its attributes, and whether it closes.
pub struct Tag {
    pub start: int,
    pub end: int,
    pub name: Seq<char>,
    pub attributes: Seq<char>,
    pub closing: bool,
}

/// What looking for a tag finds.
pub enum TagScan {
    /// A tag, or a comment under the name `!--`.
    Found(Tag),
    /// No further tag.
    End,
    /// A tag or a comment that is not closed.
    Malformed,
}

/// The first `>` from index `i` on that stands outside quotes, where `quote` is
/// the quote that is open.
pub open spec fn tag_close(s: Seq<char>, i: int, quote: Option<char>) -> Option<int>
    decreases s.len() - i,
{
    if i < 0 || i >= s.len() {
        None
    } else {
        match quote {
            Some(q) => tag_close(
                s,
                i + 1,
                if s[i] == q {
                    None
                } else {
                    quote
                },
            ),
            None => if s[i] == '\'' || s[i] == '"' {
                tag_close(s, i + 1, Some(s[i]))
            } else if s[i] == '>' {
                Some(i)
            } else {
                tag_close(s, i + 1, None)
            },
        }
    }
}

/// Whether a tag name ends before `c`.
pub open spec fn ends_name(c: char) -> bool {
    is_ascii_white(c) || c == '/' || c == '>'
}

/// The first tag from index `cursor` on.
pub open spec fn tag_scan(s: Seq<char>, cursor: int) -> TagScan
    decreases s.len() - cursor,
{
    match find_from(s, seq!['<'], cursor) {
        Some(start) if cursor <= start < s.len() => {
            let closing = start + 1 < s.len() && s[start + 1] == '/';
            let name_start = if closing {
                start + 2
            } else {
                start + 1
            };
            let name_end = name_start + run(s.skip(name_start), CharClass::Alphanumeric);
            if occurs_at(s, seq!['!', '-', '-'], start + 1) {
                match find_from(s, arrow(), start + 4) {
                    Some(k) => TagScan::Found(
                        Tag {
                            start,
                            end: k + 3,
                            name: seq!['!', '-', '-'],
                            attributes: Seq::empty(),
                            closing: false,
                        },
                    ),
                    None => TagScan::Malformed,
                }
            } else if name_end == name_start || !is_alpha(s[name_start]) || name_end >= s.len()
                || !ends_name(s[name_end]) {
                tag_scan(s, start + 1)
            } else {
                match tag_close(s, name_end, None) {
                    Some(k) => TagScan::Found(
                        Tag {
                            start,
                            end: k + 1,
                            name: s.subrange(name_start, name_end),
                            attributes: trim_end(s.subrange(name_end, k), CharClass::Slash),
                            closing,
                        },
                    ),
                    None => TagScan::Malformed,
                }
            }
        },
        _ => TagScan::End,
    }
}

proof fn lemma_tag_close(s: Seq<char>, i: int, quote: Option<char>)
    requires
        0 <= i,
    ensures
        tag_close(s, i, quote) matches Some(k) ==> i <= k < s.len() && s[k] == '>',
    decreases s.len() - i,
{
    if i < s.len() {
        match quote {
            Some(q) => {
                lemma_tag_close(
                    s,
                    i + 1,
                    if s[i] == q {
                        None
                    } else {
                        quote
                    },
                );
            },
            None => {
                lemma_tag_close(s, i + 1, Some(s[i]));
                lemma_tag_close(s, i + 1, None);
            },
        }
    }
}

/// A tag stands between the cursor and the end of the text.
pub proof fn lemma_tag_scan(s: Seq<char>, cursor: int)
    requires
        0 <= cursor,
    ensures
        tag_scan(s, cursor) matches TagScan::Found(tag) ==> cursor <= tag.start < tag.end
            <= s.len(),
    decreases s.len() - cursor,
{
    lemma_find_from(s, seq!['<'], cursor);
    match find_from(s, seq!['<'], cursor) {
        Some(start) if cursor <= start < s.len() => {
            let name_start = if start + 1 < s.len() && s[start + 1] == '/' {
                start + 2
            } else {
                start + 1
            };
            let name_end = name_start + run(s.skip(name_start), CharClass::Alphanumeric);
            lemma_find_from(s, arrow(), start + 4);
            lemma_tag_close(s, name_end, None);
            lemma_tag_scan(s, start + 1);
        },
        _ => {},
    }
}

// --------------------------------------------------------------- attributes

/// An attribute, its value where it has one, and what follows it.
pub struct Attribute {
    pub name: Seq<char>,
    pub value: Option<Seq<char>>,
    pub tail: Seq<char>,
}

/// The first attribute of `s`, which begins with no white space.
pub open spec fn attribute(s: Seq<char>) -> Option<Attribute> {
    let n = first_in(s, CharClass::AsciiWhiteOrEquals) as int;
    let name = s.take(n);
    let rest = trim_start(s.skip(n), CharClass::AsciiWhite);
    if n == 0 {
        None
    } else if rest.len() == 0 || rest[0] != '=' {
        Some(Attribute { name, value: None, tail: rest })
    } else {
        let v = trim_start(rest.skip(1), CharClass::AsciiWhite);
        if v.len() > 0 && (v[0] == '\'' || v[0] == '"') {
            match find(v.skip(1), seq![v[0]]) {
                Some(k) => {
                    let tail = v.skip(k + 2);
                    if tail.len() > 0 && !is_ascii_white(tail[0]) {
                        None
                    } else {
                        Some(Attribute { name, value: Some(v.skip(1).take(k)), tail })
                    }
                },
                None => None,
            }
        } else {
            let k = first_in(v, CharClass::AsciiWhite) as int;
            Some(Attribute { name, value: Some(v.take(k)), tail: v.skip(k) })
        }
    }
}

proof fn lemma_trim_start_len(s: Seq<char>, class: CharClass)
    ensures
        trim_start(s, class).len() <= s.len(),
        trim_start(s, class).len() > 0 ==> !class.has(trim_start(s, class)[0]),
{
    lemma_run(s, class);
}

/// An attribute takes something of the text.
proof fn lemma_attribute(s: Seq<char>)
    ensures
        attribute(s) matches Some(a) ==> a.tail.len() < s.len(),
{
    let n = first_in(s, CharClass::AsciiWhiteOrEquals) as int;
    lemma_first_in(s, CharClass::AsciiWhiteOrEquals);
    lemma_trim_start_len(s.skip(n), CharClass::AsciiWhite);
    let rest = trim_start(s.skip(n), CharClass::AsciiWhite);
    lemma_trim_start_len(rest.skip(1), CharClass::AsciiWhite);
    let v = trim_start(rest.skip(1), CharClass::AsciiWhite);
    if v.len() > 0 {
        lemma_find(v.skip(1), seq![v[0]]);
    }
    lemma_first_in(v, CharClass::AsciiWhite);
}

/// The number of the one `start` attribute, with `seen` from the attributes
/// before; nothing where an attribute is malformed or `start` comes twice,
/// without a value or with one that is no number.
pub open spec fn start_of(s: Seq<char>, seen: Option<u64>) -> Option<u64>
    decreases s.len(),
    via start_of_decreases
{
    let t = trim_start(s, CharClass::AsciiWhite);
    if t.len() == 0 {
        seen
    } else {
        match attribute(t) {
            Some(a) => if same_ignoring_case(a.name, "start"@) {
                match a.value {
                    Some(value) => if seen is None && number(value) is Some {
                        start_of(a.tail, number(value))
                    } else {
                        None
                    },
                    None => None,
                }
            } else {
                start_of(a.tail, seen)
            },
            None => None,
        }
    }
}

#[via_fn]
proof fn start_of_decreases(s: Seq<char>, seen: Option<u64>) {
    lemma_trim_start_len(s, CharClass::AsciiWhite);
    lemma_attribute(trim_start(s, CharClass::AsciiWhite));
}

// ----------------------------------------------------------------- entities

/// The number that a hexadecimal digit stands for.
pub open spec fn hex_digit(c: char) -> nat {
    if is_digit(c) {
        (c as int - '0' as int) as nat
    } else if 'a' <= c <= 'f' {
        (c as int - 'a' as int + 10) as nat
    } else {
        (c as int - 'A' as int + 10) as nat
    }
}

/// The number that hexadecimal digits write.
pub open spec fn hex_value(s: Seq<char>) -> nat
    decreases s.len(),
{
    if s.len() == 0 {
        0
    } else {
        16 * hex_value(s.drop_last()) + hex_digit(s.last())
    }
}

pub open spec fn all_hex(s: Seq<char>) -> bool {
    forall|i: int| 0 <= i < s.len() ==> is_hex_digit(#[trigger] s[i])
}

/// The number of a numeric reference.
pub open spec fn reference_number(entity: Seq<char>) -> Option<nat> {
    if entity.len() > 2 && entity[0] == '#' && (entity[1] == 'x' || entity[1] == 'X') && all_hex(
        entity.skip(2),
    ) {
        Some(hex_value(entity.skip(2)))
    } else if entity.len() > 0 && entity[0] == '#' && number(entity.skip(1)) is Some {
        Some(number(entity.skip(1))->0 as nat)
    } else {
        None
    }
}

/// The character with code point `n`, where it is one and not the null
/// character.
pub open spec fn shown_char(n: nat) -> Option<char> {
    if 0 < n < 0xd800 || 0xe000 <= n <= 0x10ffff {
        Some((n as u32) as char)
    } else {
        None
    }
}

/// The character that a reference stands for, its ampersand and semicolon aside.
pub open spec fn entity_char(entity: Seq<char>) -> Option<char> {
    if entity == "amp"@ || entity == "AMP"@ {
        Some('&')
    } else if entity == "lt"@ || entity == "LT"@ {
        Some('<')
    } else if entity == "gt"@ || entity == "GT"@ {
        Some('>')
    } else if entity == "nbsp"@ {
        Some('\u{a0}')
    } else if entity == "quot"@ || entity == "QUOT"@ {
        Some('"')
    } else if entity == "apos"@ {
        Some('\'')
    } else {
        match reference_number(entity) {
            Some(n) => shown_char(n),
            None => None,
        }
    }
}

/// The character of a reference that begins at index `i`, and the index behind
/// it. A reference is looked for in at most 32 characters.
pub open spec fn reference_at(s: Seq<char>, i: int) -> Option<(char, int)> {
    match find_from(s, seq![';'], i) {
        Some(k) if s[i] == '&' && k - i < 32 => match entity_char(s.subrange(i + 1, k)) {
            Some(c) => Some((c, k + 1)),
            None => None,
        },
        _ => None,
    }
}

/// The text from index `i` on with its references decoded once; what is no
/// reference stays as it is.
pub open spec fn decoded_from(s: Seq<char>, i: int) -> Seq<char>
    decreases s.len() - i,
{
    if i < 0 || i >= s.len() {
        Seq::empty()
    } else {
        match reference_at(s, i) {
            Some((c, next)) if i < next <= s.len() => seq![c] + decoded_from(s, next),
            _ => seq![s[i]] + decoded_from(s, i + 1),
        }
    }
}

// -------------------------------------------------------------------- cues

/// `out` and the text from index `cursor` on without its tags; a line break for
/// every `br`, and for a `p` where a line has begun.
pub open spec fn flattened(s: Seq<char>, cursor: int, out: Seq<char>) -> Option<Seq<char>>
    decreases s.len() - cursor,
    via flattened_decreases
{
    if cursor < 0 {
        None
    } else {
        match tag_scan(s, cursor) {
            TagScan::Malformed => None,
            TagScan::End => Some(out + s.skip(cursor)),
            TagScan::Found(tag) => {
                let more = out + s.subrange(cursor, tag.start);
                flattened(
                    s,
                    tag.end,
                    if same_ignoring_case(tag.name, "br"@) || (same_ignoring_case(tag.name, "p"@)
                        && more.len() > 0 && more.last() != '\n') {
                        more.push('\n')
                    } else {
                        more
                    },
                )
            },
        }
    }
}

#[via_fn]
proof fn flattened_decreases(s: Seq<char>, cursor: int, out: Seq<char>) {
    if 0 <= cursor {
        lemma_tag_scan(s, cursor);
    }
}

/// The text that a synchronisation point shows, as cue text; empty where there
/// is none.
pub open spec fn smi_text(payload: Seq<char>) -> Option<Seq<char>> {
    match flattened(payload, 0, Seq::empty()) {
        Some(flat) => {
            let shown = trim(decoded_from(flat, 0), CharClass::White);
            if shown.len() == 0 {
                Some(Seq::empty())
            } else {
                Some(cue_text(shown))
            }
        },
        None => None,
    }
}

/// The cue from `start` to `end`, where there is something to show.
pub open spec fn shown_cue(start: u64, end: u64, text: Seq<char>) -> Seq<Cue> {
    if start < end && text.len() > 0 {
        seq![Cue { start, end, settings: Seq::empty(), text }]
    } else {
        Seq::empty()
    }
}

pub open spec fn followed_by(cues: Seq<Cue>, rest: Option<Seq<Cue>>) -> Option<Seq<Cue>> {
    match rest {
        Some(rest) => Some(cues + rest),
        None => None,
    }
}

/// The cues from index `cursor` on, where `previous` is the synchronisation
/// point above and its payload begins at `payload`. Every point ends the cue of
/// the one before; the last one is shown for five seconds.
pub open spec fn smi_cues(s: Seq<char>, cursor: int, previous: Option<u64>, payload: int) -> Option<
    Seq<Cue>,
>
    decreases s.len() - cursor,
    via smi_cues_decreases
{
    if cursor < 0 {
        None
    } else {
        match tag_scan(s, cursor) {
            TagScan::Malformed => None,
            TagScan::End => match previous {
                Some(start) => match smi_text(s.skip(payload)) {
                    Some(text) => if text.len() == 0 {
                        Some(Seq::empty())
                    } else if start + 5_000 <= u64::MAX {
                        Some(shown_cue(start, (start + 5_000) as u64, text))
                    } else {
                        None
                    },
                    None => None,
                },
                None => None,
            },
            TagScan::Found(tag) => if tag.closing || !same_ignoring_case(tag.name, "sync"@) {
                smi_cues(s, tag.end, previous, payload)
            } else {
                match (start_of(tag.attributes, None), previous) {
                    (Some(start), Some(last)) => match smi_text(s.subrange(payload, tag.start)) {
                        Some(text) => if start < last {
                            None
                        } else {
                            followed_by(
                                shown_cue(last, start, text),
                                smi_cues(s, tag.end, Some(start), tag.end),
                            )
                        },
                        None => None,
                    },
                    (Some(start), None) => smi_cues(s, tag.end, Some(start), tag.end),
                    _ => None,
                }
            },
        }
    }
}

#[via_fn]
proof fn smi_cues_decreases(s: Seq<char>, cursor: int, previous: Option<u64>, payload: int) {
    if 0 <= cursor {
        lemma_tag_scan(s, cursor);
    }
}

/// The cues of a SAMI file.
pub open spec fn smi_file_cues(text: Seq<char>) -> Option<Seq<Cue>> {
    smi_cues(text, 0, None, 0)
}

/// A SAMI file as a WebVTT track.
pub open spec fn smi_track(text: Seq<char>) -> Option<Seq<char>> {
    bounded_track(smi_file_cues(text))
}


// -------------------------------------------------------------- executables

/// A tag of a text.
pub struct SmiTag<'a> {
    pub start: usize,
    pub end: usize,
    pub name: &'a [char],
    pub attributes: &'a [char],
    pub closing: bool,
}

impl<'a> SmiTag<'a> {
    /// The tag that this is.
    pub open spec fn tag(self) -> Tag {
        Tag {
            start: self.start as int,
            end: self.end as int,
            name: self.name@,
            attributes: self.attributes@,
            closing: self.closing,
        }
    }
}

fn close_of(text: &[char], from: usize) -> (result: Option<usize>)
    requires
        from <= text.len(),
    ensures
        match result {
            Some(k) => tag_close(text@, from as int, None) == Some(k as int),
            None => tag_close(text@, from as int, None) is None,
        },
{
    let mut quote: Option<char> = None;
    let mut i: usize = from;
    while i < text.len()
        invariant
            from <= i <= text.len(),
            tag_close(text@, from as int, None) == tag_close(text@, i as int, quote),
        decreases text.len() - i,
    {
        let c = text[i];
        match quote {
            Some(open) => {
                if c == open {
                    quote = None;
                }
            },
            None => {
                if c == '\'' || c == '"' {
                    quote = Some(c);
                } else if c == '>' {
                    return Some(i);
                }
            },
        }
        i += 1;
    }
    None
}

/// Finds the first tag from index `cursor` on.
pub fn next_smi_tag<'a>(text: &'a [char], cursor: usize) -> (result: Result<
    Option<SmiTag<'a>>,
    BrowserCaptionError,
>)
    requires
        cursor <= text.len(),
    ensures
        match result {
            Ok(Some(tag)) => tag_scan(text@, cursor as int) == TagScan::Found(tag.tag())
                && cursor <= tag.start < tag.end <= text.len(),
            Ok(None) => tag_scan(text@, cursor as int) is End,
            Err(error) => error == BrowserCaptionError::Malformed && tag_scan(
                text@,
                cursor as int,
            ) is Malformed,
        },
{
    let open: [char; 1] = ['<'];
    let comment: [char; 3] = ['!', '-', '-'];
    let mark: [char; 3] = ['-', '-', '>'];
    proof {
        assert(open@ =~= seq!['<']);
        assert(comment@ =~= seq!['!', '-', '-']);
        assert(mark@ =~= arrow());
        lemma_tag_scan(text@, cursor as int);
    }
    let len: usize = text.len();
    let mut from: usize = cursor;
    loop
        invariant
            cursor <= from <= len,
            len == text.len(),
            open@ == seq!['<'],
            comment@ == seq!['!', '-', '-'],
            mark@ == arrow(),
            tag_scan(text@, cursor as int) == tag_scan(text@, from as int),
            tag_scan(text@, cursor as int) matches TagScan::Found(tag) ==> cursor <= tag.start
                < tag.end <= text@.len(),
        decreases len - from,
    {
        proof {
            lemma_find_from(text@, seq!['<'], from as int);
        }
        let start: usize = match index_of_from(text, &open, from) {
            Some(start) => start,
            None => {
                return Ok(None);
            },
        };
        assert(start < len);
        if is_at(text, &comment, start + 1) {
            assert(start + 4 <= len);
            proof {
                lemma_find_from(text@, arrow(), start + 4);
            }
            return match index_of_from(text, &mark, start + 4) {
                Some(k) => {
                    assert(k + 3 <= len);
                    let name = slice_subrange(text, start + 1, start + 4);
                    let none = slice_subrange(text, 0, 0);
                    assert(name@ =~= seq!['!', '-', '-']);
                    assert(none@ =~= Seq::<char>::empty());
                    Ok(
                        Some(
                            SmiTag { start, end: k + 3, name, attributes: none, closing: false },
                        ),
                    )
                },
                None => Err(BrowserCaptionError::Malformed),
            };
        }
        let closing = start + 1 < len && text[start + 1] == '/';
        let name_start: usize = if closing {
            start + 2
        } else {
            start + 1
        };
        let behind = slice_subrange(text, name_start, len);
        assert(behind@ =~= text@.skip(name_start as int));
        let name_len: usize = run_of(behind, CharClass::Alphanumeric);
        let name_end: usize = name_start + name_len;
        let named = name_len > 0 && letter(text[name_start]) && name_end < len && name_ends(
            text[name_end],
        );
        if !named {
            from = start + 1;
            continue;
        }
        proof {
            lemma_tag_close(text@, name_end as int, None);
        }
        return match close_of(text, name_end) {
            Some(k) => {
                let name = slice_subrange(text, name_start, name_end);
                let attributes = trimmed_end(slice_subrange(text, name_end, k), CharClass::Slash);
                Ok(Some(SmiTag { start, end: k + 1, name, attributes, closing }))
            },
            None => Err(BrowserCaptionError::Malformed),
        };
    }
}

fn letter(c: char) -> (found: bool)
    ensures
        found == is_alpha(c),
{
    ('a' <= c && c <= 'z') || ('A' <= c && c <= 'Z')
}

fn name_ends(c: char) -> (found: bool)
    ensures
        found == ends_name(c),
{
    CharClass::AsciiWhite.test(c) || c == '/' || c == '>'
}

/// Reads the `start` attribute of a tag.
pub fn smi_start(attributes: &[char]) -> (result: Option<u64>)
    ensures
        result == start_of(attributes@, None),
{
    let mut start: Option<u64> = None;
    let mut rest = attributes;
    loop
        invariant
            start_of(attributes@, None) == start_of(rest@, start),
        decreases rest.len(),
    {
        let ghost whole = rest@;
        let text = trimmed_start(rest, CharClass::AsciiWhite);
        proof {
            lemma_trim_start_len(whole, CharClass::AsciiWhite);
            lemma_attribute(text@);
        }
        if text.len() == 0 {
            return start;
        }
        let (name, value, tail) = match next_attribute(text) {
            Some(found) => found,
            None => {
                return None;
            },
        };
        if equals_ignoring_case(name, "start") {
            match value {
                Some(value) => {
                    if start.is_some() {
                        return None;
                    }
                    match ascii_number(value) {
                        Some(found) => {
                            start = Some(found);
                        },
                        None => {
                            return None;
                        },
                    }
                },
                None => {
                    return None;
                },
            }
        }
        rest = tail;
    }
}

fn next_attribute<'a>(text: &'a [char]) -> (result: Option<
    (&'a [char], Option<&'a [char]>, &'a [char]),
>)
    ensures
        match result {
            Some((name, Some(value), tail)) => attribute(text@) == Some(
                Attribute { name: name@, value: Some(value@), tail: tail@ },
            ),
            Some((name, None, tail)) => attribute(text@) == Some(
                Attribute { name: name@, value: None, tail: tail@ },
            ),
            None => attribute(text@) is None,
        },
{
    let n: usize = index_in(text, CharClass::AsciiWhiteOrEquals);
    if n == 0 {
        return None;
    }
    let name = slice_subrange(text, 0, n);
    let behind = slice_subrange(text, n, text.len());
    let rest = trimmed_start(behind, CharClass::AsciiWhite);
    proof {
        assert(name@ =~= text@.take(n as int));
        assert(behind@ =~= text@.skip(n as int));
    }
    if rest.len() == 0 || rest[0] != '=' {
        return Some((name, None, rest));
    }
    let given = slice_subrange(rest, 1, rest.len());
    assert(given@ =~= rest@.skip(1));
    let v = trimmed_start(given, CharClass::AsciiWhite);
    if v.len() > 0 && (v[0] == '\'' || v[0] == '"') {
        let quote: [char; 1] = [v[0]];
        assert(quote@ =~= seq![v@[0]]);
        let inner = slice_subrange(v, 1, v.len());
        assert(inner@ =~= v@.skip(1));
        match index_of(inner, &quote) {
            Some(k) => {
                proof {
                    lemma_find(inner@, seq![v@[0]]);
                }
                let len: usize = v.len();
                assert(k + 2 <= len);
                let value = slice_subrange(inner, 0, k);
                let tail = slice_subrange(v, k + 2, len);
                proof {
                    assert(value@ =~= v@.skip(1).take(k as int));
                    assert(tail@ =~= v@.skip(k + 2));
                }
                if tail.len() > 0 && !CharClass::AsciiWhite.test(tail[0]) {
                    None
                } else {
                    Some((name, Some(value), tail))
                }
            },
            None => None,
        }
    } else {
        let k: usize = index_in(v, CharClass::AsciiWhite);
        let value = slice_subrange(v, 0, k);
        let tail = slice_subrange(v, k, v.len());
        proof {
            assert(value@ =~= v@.take(k as int));
            assert(tail@ =~= v@.skip(k as int));
        }
        Some((name, Some(value), tail))
    }
}


fn hex_digit_of(c: char) -> (digit: Option<u64>)
    ensures
        match digit {
            Some(d) => is_hex_digit(c) && d == hex_digit(c) && d <= 15,
            None => !is_hex_digit(c),
        },
{
    let code: u32 = c as u32;
    if '0' <= c && c <= '9' {
        Some((code - 48) as u64)
    } else if 'a' <= c && c <= 'f' {
        Some((code - 97 + 10) as u64)
    } else if 'A' <= c && c <= 'F' {
        Some((code - 65 + 10) as u64)
    } else {
        None
    }
}

/// The number that hexadecimal digits write, capped at `0x11_0000`, above which
/// there are no characters.
fn hex_number(text: &[char]) -> (result: Option<u64>)
    ensures
        match result {
            Some(n) => all_hex(text@) && (n == hex_value(text@) || n == 0x110000 && hex_value(text@)
                > 0x110000),
            None => !all_hex(text@),
        },
{
    let mut value: u64 = 0;
    let mut i: usize = 0;
    while i < text.len()
        invariant
            i <= text.len(),
            forall|j: int| 0 <= j < i ==> is_hex_digit(#[trigger] text@[j]),
            value <= 0x110000,
            value == hex_value(text@.take(i as int)) || value == 0x110000 && hex_value(
                text@.take(i as int),
            ) > 0x110000,
        decreases text.len() - i,
    {
        proof {
            assert(text@.take(i + 1).drop_last() =~= text@.take(i as int));
        }
        match hex_digit_of(text[i]) {
            Some(digit) => {
                let next: u64 = value * 16 + digit;
                value = if next > 0x110000 {
                    0x110000
                } else {
                    next
                };
            },
            None => {
                return None;
            },
        }
        i += 1;
    }
    assert(text@.take(i as int) =~= text@);
    Some(value)
}

fn shown(n: u64) -> (result: Option<char>)
    ensures
        result == shown_char(n as nat),
{
    if n == 0 || n > 0x10ffff {
        return None;
    }
    let code: u32 = n as u32;
    let found = char::from_u32(code);
    proof {
        if found is Some {
            vstd::utf8::char_u32_cast(found->0, code);
        }
    }
    found
}

/// The character that a reference stands for.
fn decoded_entity(entity: &[char]) -> (result: Option<char>)
    ensures
        result == entity_char(entity@),
{
    if is_text(entity, "amp") || is_text(entity, "AMP") {
        return Some('&');
    }
    if is_text(entity, "lt") || is_text(entity, "LT") {
        return Some('<');
    }
    if is_text(entity, "gt") || is_text(entity, "GT") {
        return Some('>');
    }
    if is_text(entity, "nbsp") {
        return Some('\u{a0}');
    }
    if is_text(entity, "quot") || is_text(entity, "QUOT") {
        return Some('"');
    }
    if is_text(entity, "apos") {
        return Some('\'');
    }
    if entity.len() > 2 && entity[0] == '#' && (entity[1] == 'x' || entity[1] == 'X') {
        let digits = slice_subrange(entity, 2, entity.len());
        assert(digits@ =~= entity@.skip(2));
        match hex_number(digits) {
            Some(n) => {
                return shown(n);
            },
            None => {},
        }
    }
    if entity.len() > 0 && entity[0] == '#' {
        let digits = slice_subrange(entity, 1, entity.len());
        assert(digits@ =~= entity@.skip(1));
        match ascii_number(digits) {
            Some(n) => shown(n),
            None => None,
        }
    } else {
        None
    }
}

fn reference_from(text: &[char], i: usize) -> (result: Option<(char, usize)>)
    requires
        i < text.len(),
    ensures
        match result {
            Some((c, next)) => reference_at(text@, i as int) == Some((c, next as int)) && i < next
                <= text.len(),
            None => reference_at(text@, i as int) is None,
        },
{
    if text[i] != '&' {
        return None;
    }
    let end: [char; 1] = [';'];
    proof {
        assert(end@ =~= seq![';']);
        lemma_find_from(text@, seq![';'], i as int);
    }
    let len: usize = text.len();
    let limit: usize = if len - i < 32 {
        len
    } else {
        i + 32
    };
    let near = slice_subrange(text, i, limit);
    proof {
        lemma_find(near@, seq![';']);
    }
    match index_of(near, &end) {
        Some(p) => {
            proof {
                crate::text::lemma_occurs_char(near@, ';', p as int);
                crate::text::lemma_occurs_char(text@, ';', i + p);
                assert(near@[p as int] == text@[i + p]);
                let k = find_from(text@, seq![';'], i as int)->0;
                crate::text::lemma_occurs_char(text@, ';', k);
                if k < i + p {
                    assert(near@[k - i] == text@[k]);
                    crate::text::lemma_occurs_char(near@, ';', k - i);
                }
                assert(k == i + p);
            }
            if p == 0 {
                assert(text@[i as int] == ';');
                return None;
            }
            let entity = slice_subrange(near, 1, p);
            assert(entity@ =~= text@.subrange(i + 1, i + p));
            match decoded_entity(entity) {
                Some(c) => Some((c, i + p + 1)),
                None => None,
            }
        },
        None => {
            proof {
                match find_from(text@, seq![';'], i as int) {
                    Some(k) => {
                        crate::text::lemma_occurs_char(text@, ';', k);
                        if k - i < 32 {
                            assert(near@[k - i] == text@[k]);
                            crate::text::lemma_occurs_char(near@, ';', k - i);
                        }
                    },
                    None => {},
                }
            }
            None
        },
    }
}

fn decode_chars(value: &[char]) -> (output: Vec<char>)
    ensures
        output@ == decoded_from(value@, 0),
{
    let mut output: Vec<char> = Vec::new();
    let mut cursor: usize = 0;
    while cursor < value.len()
        invariant
            cursor <= value.len(),
            output@ + decoded_from(value@, cursor as int) =~= decoded_from(value@, 0),
        decreases value.len() - cursor,
    {
        match reference_from(value, cursor) {
            Some((c, next)) => {
                output.push(c);
                cursor = next;
            },
            None => {
                output.push(value[cursor]);
                cursor += 1;
            },
        }
    }
    output
}

/// Decodes the character references of a text, each once.
pub fn decode_smi_entities(value: &str) -> (output: String)
    ensures
        output@ == decoded_from(value@, 0),
{
    let chars = chars_of(value);
    string_of(&decode_chars(&chars))
}

fn flatten(value: &[char]) -> (result: Result<Vec<char>, BrowserCaptionError>)
    ensures
        match result {
            Ok(text) => flattened(value@, 0, Seq::empty()) == Some(text@),
            Err(error) => error == BrowserCaptionError::Malformed && flattened(
                value@,
                0,
                Seq::empty(),
            ) is None,
        },
{
    let mut output: Vec<char> = Vec::new();
    let mut cursor: usize = 0;
    assert(output@ =~= Seq::<char>::empty());
    loop
        invariant
            cursor <= value.len(),
            flattened(value@, 0, Seq::empty()) == flattened(value@, cursor as int, output@),
        decreases value.len() - cursor,
    {
        let ghost before = output@;
        match next_smi_tag(value, cursor) {
            Err(error) => {
                return Err(error);
            },
            Ok(None) => {
                append_chars(&mut output, slice_subrange(value, cursor, value.len()));
                assert(output@ =~= before + value@.skip(cursor as int));
                return Ok(output);
            },
            Ok(Some(tag)) => {
                append_chars(&mut output, slice_subrange(value, cursor, tag.start));
                assert(output@ =~= before + value@.subrange(cursor as int, tag.start as int));
                if equals_ignoring_case(tag.name, "br") || (equals_ignoring_case(tag.name, "p")
                    && output.len() > 0 && output[output.len() - 1] != '\n') {
                    output.push('\n');
                }
                cursor = tag.end;
            },
        }
    }
}

/// The text that a synchronisation point shows, as cue text.
pub fn strip_smi_markup(value: &[char]) -> (result: Result<Vec<char>, BrowserCaptionError>)
    ensures
        match result {
            Ok(text) => smi_text(value@) == Some(text@),
            Err(error) => error == BrowserCaptionError::Malformed && smi_text(value@) is None,
        },
{
    let output = match flatten(value) {
        Ok(output) => output,
        Err(error) => {
            return Err(error);
        },
    };
    let decoded = decode_chars(&output);
    let shown = trimmed(&decoded, CharClass::White);
    if shown.len() == 0 {
        let none: Vec<char> = Vec::new();
        assert(none@ =~= Seq::<char>::empty());
        Ok(none)
    } else {
        Ok(escape_cue_text(shown))
    }
}

/// Appends the cue from `start` to `end`, where there is something to show.
fn append_shown(output: &mut Track, start: u64, end: u64, text: &[char]) -> (result: Result<
    (),
    BrowserCaptionError,
>)
    requires
        old(output).wf(),
    ensures
        ({
            let cues = old(output).cues() + shown_cue(start, end, text@);
            if utf8_len(track(cues)) <= MAX_OUTPUT_BYTES {
                &&& result is Ok
                &&& final(output).wf()
                &&& final(output).cues() == cues
            } else {
                result == Err::<(), BrowserCaptionError>(BrowserCaptionError::Malformed)
            }
        }),
{
    if start < end && text.len() > 0 {
        let none: [char; 0] = [];
        proof {
            assert(none@ =~= Seq::<char>::empty());
            let cue = Cue { start, end, settings: Seq::empty(), text: text@ };
            assert(output.cues().push(cue) =~= output.cues() + seq![cue]);
        }
        output.append_cue(start, end, &none, text)
    } else {
        proof {
            assert(output.cues() + Seq::<Cue>::empty() =~= output.cues());
            output.lemma_within();
        }
        Ok(())
    }
}

/// Where a prefix of the cues is too large, all of them are.
proof fn lemma_too_large(first: Seq<Cue>, rest: Seq<Cue>)
    requires
        utf8_len(track(first)) > MAX_OUTPUT_BYTES,
    ensures
        bounded_track(Some(first + rest)) is None,
{
    assert(first.is_prefix_of(first + rest)) by {
        assert((first + rest).take(first.len() as int) =~= first);
    }
    lemma_track_grows(first, first + rest);
}

/// Ends the cue of the point at `last`, whose payload this is, with a point at
/// `start`.
fn end_cue(output: &mut Track, last: u64, start: u64, payload: &[char]) -> (result: Result<
    (),
    BrowserCaptionError,
>)
    requires
        old(output).wf(),
    ensures
        match smi_text(payload@) {
            Some(text) if last <= start => {
                let cues = old(output).cues() + shown_cue(last, start, text);
                if utf8_len(track(cues)) <= MAX_OUTPUT_BYTES {
                    &&& result is Ok
                    &&& final(output).wf()
                    &&& final(output).cues() == cues
                } else {
                    result == Err::<(), BrowserCaptionError>(BrowserCaptionError::Malformed)
                }
            },
            _ => result == Err::<(), BrowserCaptionError>(BrowserCaptionError::Malformed),
        },
{
    if start < last {
        return Err(BrowserCaptionError::Malformed);
    }
    match strip_smi_markup(payload) {
        Ok(cue) => append_shown(output, last, start, &cue),
        Err(error) => Err(error),
    }
}

/// Shows the payload of the last point, at `start`, for five seconds.
fn end_track(output: Track, start: u64, payload: &[char]) -> (result: Result<
    Vec<char>,
    BrowserCaptionError,
>)
    requires
        output.wf(),
    ensures
        ({
            let last = match smi_text(payload@) {
                Some(text) => if text.len() == 0 {
                    Some(Seq::<Cue>::empty())
                } else if start + 5_000 <= u64::MAX {
                    Some(shown_cue(start, (start + 5_000) as u64, text))
                } else {
                    None
                },
                None => None,
            };
            match result {
                Ok(chars) => bounded_track(followed_by(output.cues(), last)) == Some(chars@),
                Err(error) => error == BrowserCaptionError::Malformed && bounded_track(
                    followed_by(output.cues(), last),
                ) is None,
            }
        }),
{
    let mut output = output;
    let cue = match strip_smi_markup(payload) {
        Ok(cue) => cue,
        Err(error) => {
            return Err(error);
        },
    };
    if cue.len() > 0 {
        let end: u64 = match start.checked_add(5_000) {
            Some(end) => end,
            None => {
                return Err(BrowserCaptionError::Malformed);
            },
        };
        match append_shown(&mut output, start, end, &cue) {
            Ok(()) => Ok(output.into_chars()),
            Err(error) => Err(error),
        }
    } else {
        assert(output.cues() + Seq::<Cue>::empty() =~= output.cues());
        Ok(output.into_chars())
    }
}

/// Converts a SAMI file to a WebVTT track.
pub fn smi_to_webvtt(text: &[char]) -> (result: Result<Vec<char>, BrowserCaptionError>)
    ensures
        match result {
            Ok(track) => smi_track(text@) == Some(track@),
            Err(error) => error == BrowserCaptionError::Malformed && smi_track(text@) is None,
        },
{
    let mut output = Track::new();
    let mut previous: Option<u64> = None;
    let mut payload_start: usize = 0;
    let mut cursor: usize = 0;
    proof {
        if smi_file_cues(text@) is Some {
            assert(output.cues() + smi_file_cues(text@)->0 =~= smi_file_cues(text@)->0);
        }
    }
    loop
        invariant
            payload_start <= cursor <= text.len(),
            output.wf(),
            smi_file_cues(text@) == followed_by(
                output.cues(),
                smi_cues(text@, cursor as int, previous, payload_start as int),
            ),
        decreases text.len() - cursor,
    {
        let tag = match next_smi_tag(text, cursor) {
            Ok(Some(tag)) => tag,
            Ok(None) => {
                let payload = slice_subrange(text, payload_start, text.len());
                assert(payload@ =~= text@.skip(payload_start as int));
                return match previous {
                    Some(start) => end_track(output, start, payload),
                    None => Err(BrowserCaptionError::Malformed),
                };
            },
            Err(error) => {
                return Err(error);
            },
        };
        if tag.closing || !equals_ignoring_case(tag.name, "sync") {
            cursor = tag.end;
            continue;
        }
        let start: u64 = match smi_start(tag.attributes) {
            Some(start) => start,
            None => {
                return Err(BrowserCaptionError::Malformed);
            },
        };
        match previous {
            Some(last) => {
                let payload = slice_subrange(text, payload_start, tag.start);
                let ghost done = output.cues();
                let ghost rest = smi_cues(text@, tag.end as int, Some(start), tag.end as int);
                proof {
                    if rest is Some && smi_text(payload@) is Some {
                        let made = shown_cue(last, start, smi_text(payload@)->0);
                        assert(done + (made + rest->0) =~= (done + made) + rest->0);
                        if utf8_len(track(done + made)) > MAX_OUTPUT_BYTES {
                            lemma_too_large(done + made, rest->0);
                        }
                    }
                }
                match end_cue(&mut output, last, start, payload) {
                    Ok(()) => {},
                    Err(error) => {
                        return Err(error);
                    },
                }
            },
            None => {},
        }
        // A point without text still ends the cue before it: that leaves real
        // gaps, and lets a last empty point clear the screen.
        previous = Some(start);
        payload_start = tag.end;
        cursor = tag.end;
    }
}

// -------------------------------------------------------------------- laws

proof fn lemma_smi_cues_sound(s: Seq<char>, cursor: int, previous: Option<u64>, payload: int)
    requires
        0 <= cursor,
        smi_cues(s, cursor, previous, payload) is Some,
    ensures
        all_sound(smi_cues(s, cursor, previous, payload)->0),
    decreases s.len() - cursor,
{
    lemma_tag_scan(s, cursor);
    match tag_scan(s, cursor) {
        TagScan::Malformed => {},
        TagScan::End => {
            let text = smi_text(s.skip(payload))->0;
            lemma_smi_text(s.skip(payload));
            lemma_shown_sound(previous->0, (previous->0 + 5_000) as u64, text);
        },
        TagScan::Found(tag) => {
            if tag.closing || !same_ignoring_case(tag.name, "sync"@) {
                lemma_smi_cues_sound(s, tag.end, previous, payload);
            } else {
                let start = start_of(tag.attributes, None)->0;
                lemma_smi_cues_sound(s, tag.end, Some(start), tag.end);
                if previous is Some {
                    let part = s.subrange(payload, tag.start);
                    lemma_smi_text(part);
                    lemma_shown_sound(previous->0, start, smi_text(part)->0);
                }
            }
        },
    }
}

proof fn lemma_smi_text(payload: Seq<char>)
    ensures
        smi_text(payload) matches Some(text) ==> text.len() == 0
            || crate::caption::cue::is_cue_text(text),
{
    if flattened(payload, 0, Seq::empty()) is Some {
        let flat = flattened(payload, 0, Seq::empty())->0;
        law_escaped_text_is_cue_text(trim(decoded_from(flat, 0), CharClass::White));
    }
}

proof fn lemma_shown_sound(start: u64, end: u64, text: Seq<char>)
    requires
        text.len() == 0 || crate::caption::cue::is_cue_text(text),
    ensures
        all_sound(shown_cue(start, end, text)),
{
    let none = Seq::<char>::empty();
    assert(!holds_text(none, arrow())) by {
        assert forall|k: int| !occurs_at(none, arrow(), k) by {}
    }
}

/// The cues of every SAMI file are sound: none of its text can end a cue or be
/// taken for a timing line.
pub proof fn law_smi_cues_are_sound(text: Seq<char>)
    requires
        smi_file_cues(text) is Some,
    ensures
        all_sound(smi_file_cues(text)->0),
{
    lemma_smi_cues_sound(text, 0, None, 0);
}

} // verus!
