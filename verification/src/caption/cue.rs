//! Cues, the text they may hold, and the track they are written to.
use crate::caption::time::{millis_vtt_chars, vtt_time};
use crate::encoding::{lemma_encode_concat, utf8_len, utf8_len_of};
use crate::text::{append_chars, holds_text, split, split_text, texts};
use vstd::prelude::*;

verus! {

/// The largest sidecar that is converted: 8 MiB. It has to be the bound up to
/// which the scanner takes in sidecar files, so that every one it lists can be
/// served.
pub const MAX_INPUT_BYTES: usize = 8_388_608;

/// The largest track that a conversion may give: room for escaping and timing
/// lines on top of the largest sidecar.
pub const MAX_OUTPUT_BYTES: usize = 6 * MAX_INPUT_BYTES;

/// Why a sidecar has no browser form.
#[derive(Clone, Copy, Debug, PartialEq, Eq, Structural)]
pub enum BrowserCaptionError {
    /// The bytes are not UTF-8.
    Encoding,
    /// The text does not have the structure of its format, or is too large.
    Malformed,
}

/// One caption: when it is shown, how, and its text.
pub struct Cue {
    pub start: u64,
    pub end: u64,
    pub settings: Seq<char>,
    pub text: Seq<char>,
}

/// `-->`.
pub open spec fn arrow() -> Seq<char> {
    seq!['-', '-', '>']
}

/// `WEBVTT` and an empty line.
pub open spec fn track_header() -> Seq<char> {
    seq!['W', 'E', 'B', 'V', 'T', 'T', '\n', '\n']
}

/// The timing line of a cue.
pub open spec fn timing_line(cue: Cue) -> Seq<char> {
    vtt_time(cue.start as nat) + seq![' '] + arrow() + seq![' '] + vtt_time(cue.end as nat)
        + cue.settings
}

/// A cue in WebVTT, with the empty line that ends it.
pub open spec fn cue_block(cue: Cue) -> Seq<char> {
    timing_line(cue) + seq!['\n'] + cue.text + seq!['\n', '\n']
}

/// Cues in WebVTT, one behind the other.
pub open spec fn cue_blocks(cues: Seq<Cue>) -> Seq<char>
    decreases cues.len(),
{
    if cues.len() == 0 {
        Seq::empty()
    } else {
        cue_blocks(cues.drop_last()) + cue_block(cues.last())
    }
}

/// The WebVTT track of a list of cues.
pub open spec fn track(cues: Seq<Cue>) -> Seq<char> {
    track_header() + cue_blocks(cues)
}

/// The track of the cues, where there are cues to speak of and it is not too
/// large.
pub open spec fn bounded_track(cues: Option<Seq<Cue>>) -> Option<Seq<char>> {
    match cues {
        Some(cues) => if utf8_len(track(cues)) <= MAX_OUTPUT_BYTES {
            Some(track(cues))
        } else {
            None
        },
        None => None,
    }
}

/// Text that stays one cue: not empty, no empty line, no arrow.
pub open spec fn is_cue_text(s: Seq<char>) -> bool {
    &&& s.len() > 0
    &&& s[0] != '\n'
    &&& s.last() != '\n'
    &&& forall|i: int| 0 <= i < s.len() - 1 ==> !(#[trigger] s[i] == '\n' && s[i + 1] == '\n')
    &&& !holds_text(s, arrow())
}

/// What may stand behind the timing: nothing, or settings set off by a blank.
pub open spec fn is_settings(s: Seq<char>) -> bool {
    &&& s.len() > 0 ==> s[0] == ' ' || s[0] == '\t'
    &&& forall|i: int| 0 <= i < s.len() ==> s[i] != '\n'
    &&& !holds_text(s, arrow())
}

/// A cue that a browser reads as it was meant.
pub open spec fn is_sound_cue(cue: Cue) -> bool {
    cue.start < cue.end && is_settings(cue.settings) && is_cue_text(cue.text)
}

/// Every cue of the list is sound.
pub open spec fn all_sound(cues: Seq<Cue>) -> bool {
    forall|i: int| 0 <= i < cues.len() ==> is_sound_cue(#[trigger] cues[i])
}

// ----------------------------------------------------------------- newlines

/// The text from index `from` on with `\r\n` and lone `\r` turned into `\n`.
pub open spec fn newlines_from(s: Seq<char>, from: int) -> Seq<char>
    decreases s.len() - from,
{
    if from < 0 || from >= s.len() {
        Seq::empty()
    } else if s[from] == '\r' && from + 1 < s.len() && s[from + 1] == '\n' {
        seq!['\n'] + newlines_from(s, from + 2)
    } else if s[from] == '\r' {
        seq!['\n'] + newlines_from(s, from + 1)
    } else {
        seq![s[from]] + newlines_from(s, from + 1)
    }
}

/// The text with every line end written as `\n`.
pub open spec fn newlines(s: Seq<char>) -> Seq<char> {
    newlines_from(s, 0)
}

pub proof fn lemma_newlines_from(s: Seq<char>, from: int)
    requires
        0 <= from,
    ensures
        forall|i: int|
            0 <= i < newlines_from(s, from).len() ==> #[trigger] newlines_from(s, from)[i] != '\r',
    decreases s.len() - from,
{
    if from < s.len() {
        let next = if s[from] == '\r' && from + 1 < s.len() && s[from + 1] == '\n' {
            from + 2
        } else {
            from + 1
        };
        lemma_newlines_from(s, next);
        let all = newlines_from(s, from);
        assert(all.skip(1) =~= newlines_from(s, next));
        assert forall|i: int| 0 <= i < all.len() implies #[trigger] all[i] != '\r' by {
            if i > 0 {
                assert(all[i] == newlines_from(s, next)[i - 1]);
            }
        }
    }
}

/// The text with every line end written as `\n`.
pub fn unified_newlines(text: &[char]) -> (result: Vec<char>)
    ensures
        result@ == newlines(text@),
        forall|i: int| 0 <= i < result@.len() ==> #[trigger] result@[i] != '\r',
{
    let mut result: Vec<char> = Vec::new();
    let mut i: usize = 0;
    while i < text.len()
        invariant
            i <= text.len(),
            result@ + newlines_from(text@, i as int) =~= newlines(text@),
        decreases text.len() - i,
    {
        if text[i] == '\r' {
            result.push('\n');
            if i + 1 < text.len() && text[i + 1] == '\n' {
                i += 2;
            } else {
                i += 1;
            }
        } else {
            result.push(text[i]);
            i += 1;
        }
    }
    proof {
        lemma_newlines_from(text@, 0);
    }
    result
}

// ----------------------------------------------------------------- escaping

/// A character of cue text, with the characters of markup as references.
pub open spec fn escaped_char(c: char) -> Seq<char> {
    if c == '&' {
        seq!['&', 'a', 'm', 'p', ';']
    } else if c == '<' {
        seq!['&', 'l', 't', ';']
    } else if c == '>' {
        seq!['&', 'g', 't', ';']
    } else {
        seq![c]
    }
}

pub open spec fn escaped_chars(s: Seq<char>) -> Seq<char>
    decreases s.len(),
{
    if s.len() == 0 {
        Seq::empty()
    } else {
        escaped_chars(s.drop_last()) + escaped_char(s.last())
    }
}

/// A line of cue text; an empty one holds a no-break space, since an empty line
/// would end the cue.
pub open spec fn escaped_line(line: Seq<char>) -> Seq<char> {
    if line.len() == 0 {
        seq!['&', 'n', 'b', 's', 'p', ';']
    } else {
        escaped_chars(line)
    }
}

pub open spec fn escaped_lines(lines: Seq<Seq<char>>) -> Seq<char>
    decreases lines.len(),
{
    if lines.len() == 0 {
        Seq::empty()
    } else if lines.len() == 1 {
        escaped_line(lines[0])
    } else {
        escaped_lines(lines.drop_last()) + seq!['\n'] + escaped_line(lines.last())
    }
}

/// The text as cue text that shows exactly it.
pub open spec fn cue_text(value: Seq<char>) -> Seq<char> {
    escaped_lines(split(newlines(value), seq!['\n']))
}

fn append_escaped_line(output: &mut Vec<char>, line: &[char])
    ensures
        final(output)@ == old(output)@ + escaped_line(line@),
{
    if line.len() == 0 {
        append_chars(output, &['&', 'n', 'b', 's', 'p', ';']);
        assert(output@ =~= old(output)@ + escaped_line(line@));
        return;
    }
    let mut i: usize = 0;
    while i < line.len()
        invariant
            i <= line.len(),
            output@ =~= old(output)@ + escaped_chars(line@.take(i as int)),
        decreases line.len() - i,
    {
        let ghost before = output@;
        let c = line[i];
        if c == '&' {
            append_chars(output, &['&', 'a', 'm', 'p', ';']);
        } else if c == '<' {
            append_chars(output, &['&', 'l', 't', ';']);
        } else if c == '>' {
            append_chars(output, &['&', 'g', 't', ';']);
        } else {
            output.push(c);
        }
        proof {
            assert(output@ =~= before + escaped_char(c));
            assert(line@.take(i + 1).drop_last() =~= line@.take(i as int));
        }
        i += 1;
    }
    assert(line@.take(i as int) =~= line@);
}

/// The text as cue text that shows exactly it.
pub fn escape_cue_text(value: &[char]) -> (result: Vec<char>)
    ensures
        result@ == cue_text(value@),
{
    let normalized = unified_newlines(value);
    let newline: [char; 1] = ['\n'];
    assert(newline@ =~= seq!['\n']);
    let lines = split_text(&normalized, &newline);
    let ghost parts = split(newlines(value@), seq!['\n']);
    let mut output: Vec<char> = Vec::new();
    let mut i: usize = 0;
    proof {
        assert(parts.take(0) =~= Seq::<Seq<char>>::empty());
        assert(parts.len() == lines@.len());
    }
    while i < lines.len()
        invariant
            i <= lines.len(),
            texts(lines@) == parts,
            parts.len() == lines@.len(),
            output@ =~= escaped_lines(parts.take(i as int)),
        decreases lines.len() - i,
    {
        proof {
            assert(parts.take(i + 1).drop_last() =~= parts.take(i as int));
            assert(parts.take(i + 1).last() == parts[i as int]);
            assert(parts[i as int] == lines@[i as int]@);
        }
        if i > 0 {
            output.push('\n');
        }
        append_escaped_line(&mut output, lines[i]);
        i += 1;
    }
    assert(parts.take(i as int) =~= parts);
    output
}

// ------------------------------------------------------------------- output

/// Whether `incoming` more bytes keep a track within its bound.
pub fn check_output_growth(current: usize, incoming: usize) -> (result: Result<
    (),
    BrowserCaptionError,
>)
    ensures
        result == if current + incoming <= MAX_OUTPUT_BYTES {
            Ok::<(), BrowserCaptionError>(())
        } else {
            Err(BrowserCaptionError::Malformed)
        },
{
    match current.checked_add(incoming) {
        Some(length) if length <= MAX_OUTPUT_BYTES => Ok(()),
        _ => Err(BrowserCaptionError::Malformed),
    }
}

/// A track under construction.
pub struct Track {
    chars: Vec<char>,
    bytes: usize,
    cues: Ghost<Seq<Cue>>,
}

impl Track {
    /// The cues written so far.
    pub closed spec fn cues(self) -> Seq<Cue> {
        self.cues@
    }

    /// The track is that of its cues, and within its bound.
    pub closed spec fn wf(self) -> bool {
        &&& self.chars@ == track(self.cues@)
        &&& self.bytes == utf8_len(self.chars@)
        &&& self.bytes <= MAX_OUTPUT_BYTES
    }

    pub proof fn lemma_within(self)
        requires
            self.wf(),
        ensures
            utf8_len(track(self.cues())) <= MAX_OUTPUT_BYTES,
    {
    }

    /// A track of no cues.
    pub fn new() -> (result: Track)
        ensures
            result.wf(),
            result.cues() == Seq::<Cue>::empty(),
    {
        let chars: Vec<char> = vec!['W', 'E', 'B', 'V', 'T', 'T', '\n', '\n'];
        proof {
            assert(chars@ =~= track(Seq::empty()));
            crate::encoding::lemma_len_bound(chars@);
        }
        let bytes: usize = utf8_len_of(&chars);
        Track { chars, bytes, cues: Ghost(Seq::empty()) }
    }

    /// Appends a cue, unless the track would pass its bound.
    pub fn append_cue(&mut self, start: u64, end: u64, settings: &[char], text: &[char]) -> (result:
        Result<(), BrowserCaptionError>)
        requires
            old(self).wf(),
        ensures
            ({
                let cues = old(self).cues().push(
                    Cue { start, end, settings: settings@, text: text@ },
                );
                if utf8_len(track(cues)) <= MAX_OUTPUT_BYTES {
                    &&& result == Ok::<(), BrowserCaptionError>(())
                    &&& final(self).wf()
                    &&& final(self).cues() == cues
                } else {
                    &&& result == Err::<(), BrowserCaptionError>(BrowserCaptionError::Malformed)
                    &&& *final(self) == *old(self)
                }
            }),
    {
        let ghost cue = Cue { start, end, settings: settings@, text: text@ };
        let ghost cues = self.cues@.push(cue);
        let mut block = millis_vtt_chars(start);
        append_chars(&mut block, &[' ', '-', '-', '>', ' ']);
        append_chars(&mut block, &millis_vtt_chars(end));
        append_chars(&mut block, settings);
        block.push('\n');
        append_chars(&mut block, text);
        block.push('\n');
        block.push('\n');
        proof {
            assert(block@ =~= cue_block(cue));
            assert(cues.drop_last() =~= self.cues@);
            assert(track(cues) =~= self.chars@ + block@);
            lemma_encode_concat(self.chars@, block@);
        }
        let incoming: usize = utf8_len_of(&block);
        match check_output_growth(self.bytes, incoming) {
            Ok(()) => {
                self.chars.append(&mut block);
                self.bytes = self.bytes + incoming;
                self.cues = Ghost(cues);
                Ok(())
            },
            Err(error) => Err(error),
        }
    }

    /// The characters of the track.
    pub fn into_chars(self) -> (chars: Vec<char>)
        requires
            self.wf(),
        ensures
            chars@ == track(self.cues()),
            utf8_len(chars@) <= MAX_OUTPUT_BYTES,
    {
        self.chars
    }
}


/// Further cues only make a track longer.
pub proof fn lemma_track_grows(first: Seq<Cue>, all: Seq<Cue>)
    requires
        first.is_prefix_of(all),
    ensures
        utf8_len(track(first)) <= utf8_len(track(all)),
    decreases all.len(),
{
    if first.len() == all.len() {
        assert(first =~= all);
    } else {
        assert(first.is_prefix_of(all.drop_last())) by {
            assert(first =~= all.drop_last().take(first.len() as int));
        }
        lemma_track_grows(first, all.drop_last());
        assert(track(all) =~= track(all.drop_last()) + cue_block(all.last()));
        lemma_encode_concat(track(all.drop_last()), cue_block(all.last()));
    }
}


// -------------------------------------------------------------------- laws

/// Escaping leaves no line feed where there was none, no angle bracket, and
/// something of every character.
proof fn lemma_escaped_chars(s: Seq<char>)
    requires
        forall|i: int| 0 <= i < s.len() ==> s[i] != '\n',
    ensures
        escaped_chars(s).len() >= s.len(),
        forall|i: int|
            0 <= i < escaped_chars(s).len() ==> {
                &&& #[trigger] escaped_chars(s)[i] != '\n'
                &&& escaped_chars(s)[i] != '>'
                &&& escaped_chars(s)[i] != '<'
            },
    decreases s.len(),
{
    if s.len() > 0 {
        lemma_escaped_chars(s.drop_last());
        let head = escaped_chars(s.drop_last());
        let all = escaped_chars(s);
        assert forall|i: int| 0 <= i < all.len() implies {
            &&& #[trigger] all[i] != '\n'
            &&& all[i] != '>'
            &&& all[i] != '<'
        } by {
            if i < head.len() {
                assert(all[i] == head[i]);
            } else {
                assert(all[i] == escaped_char(s.last())[i - head.len()]);
            }
        }
    }
}

/// Text without a right angle bracket holds no arrow.
pub(crate) proof fn lemma_no_bracket_no_arrow(s: Seq<char>)
    requires
        forall|i: int| 0 <= i < s.len() ==> s[i] != '>',
    ensures
        !holds_text(s, arrow()),
{
    assert forall|k: int| !crate::text::occurs_at(s, arrow(), k) by {
        if crate::text::occurs_at(s, arrow(), k) {
            assert(s.subrange(k, k + 3)[2] == s[k + 2]);
        }
    }
}

/// No angle bracket, no empty line, and no line feed at either end.
spec fn is_plain(s: Seq<char>) -> bool {
    &&& s.len() > 0
    &&& s[0] != '\n'
    &&& s.last() != '\n'
    &&& forall|i: int| 0 <= i < s.len() - 1 ==> !(#[trigger] s[i] == '\n' && s[i + 1] == '\n')
    &&& forall|i: int| 0 <= i < s.len() ==> #[trigger] s[i] != '>' && s[i] != '<'
}

proof fn lemma_escaped_lines(lines: Seq<Seq<char>>)
    requires
        lines.len() > 0,
        forall|j: int, i: int|
            0 <= j < lines.len() && 0 <= i < lines[j].len() ==> #[trigger] lines[j][i] != '\n',
    ensures
        is_plain(escaped_lines(lines)),
    decreases lines.len(),
{
    let last = lines.last();
    assert forall|i: int| 0 <= i < last.len() implies last[i] != '\n' by {
        assert(lines[lines.len() - 1][i] != '\n');
    }
    lemma_escaped_chars(last);
    let tail = escaped_line(last);
    assert(tail.len() > 0);
    assert(forall|i: int|
        0 <= i < tail.len() ==> #[trigger] tail[i] != '\n' && tail[i] != '>' && tail[i] != '<');
    if lines.len() > 1 {
        let init = lines.drop_last();
        assert forall|j: int, i: int|
            0 <= j < init.len() && 0 <= i < init[j].len() implies #[trigger] init[j][i] != '\n' by {
            assert(lines[j][i] != '\n');
        }
        lemma_escaped_lines(init);
        let head = escaped_lines(init);
        let all = escaped_lines(lines);
        let n = head.len() as int;
        assert(all =~= head + seq!['\n'] + tail);
        assert forall|i: int| 0 <= i < all.len() - 1 implies !(#[trigger] all[i] == '\n' && all[i
            + 1] == '\n') by {
            if i + 1 < n {
                assert(all[i] == head[i] && all[i + 1] == head[i + 1]);
            } else if i < n {
                assert(all[i] == head[i]);
            } else if i == n {
                assert(all[i + 1] == tail[0]);
            } else {
                assert(all[i] == tail[i - n - 1]);
            }
        }
        assert forall|i: int| 0 <= i < all.len() implies #[trigger] all[i] != '>' && all[i]
            != '<' by {
            if i < n {
                assert(all[i] == head[i]);
            } else if i > n {
                assert(all[i] == tail[i - n - 1]);
            }
        }
        assert(all.last() == tail.last());
    }
}

/// Escaped text is cue text whatever it was: it cannot end a cue, be taken for a
/// timing line, or hold markup.
pub proof fn law_escaped_text_is_cue_text(value: Seq<char>)
    ensures
        is_cue_text(cue_text(value)),
        forall|i: int|
            0 <= i < cue_text(value).len() ==> #[trigger] cue_text(value)[i] != '<' && cue_text(
                value,
            )[i] != '>',
{
    let parts = split(newlines(value), seq!['\n']);
    crate::text::lemma_split_nonempty(newlines(value), seq!['\n']);
    assert forall|j: int, i: int|
        0 <= j < parts.len() && 0 <= i < parts[j].len() implies #[trigger] parts[j][i] != '\n' by {
        crate::text::lemma_split_without(newlines(value), '\n', j);
    }
    lemma_escaped_lines(parts);
    lemma_no_bracket_no_arrow(cue_text(value));
}

} // verus!
