//! The text of captions.
use crate::caption::again::{lacks, lemma_newlines_are_there};
use crate::caption::ass::{strip_ass_overrides, stripped_from};
use crate::caption::cue::{
    cue_text, escape_cue_text, escaped_chars, escaped_line, escaped_lines, newlines_from,
    BrowserCaptionError,
};
use crate::caption::{caption_to_webvtt, CaptionWebVttConversion};
use crate::law::captions::{is_plain, is_without, lemma_plain_cue_text};
use crate::law::clock::lemma_trim_nothing;
use crate::text::{
    find_from, lemma_find_from, lemma_occurs_char, lemma_split_head_char, lemma_split_nonempty,
    lemma_split_whole_char, split, CharClass,
};
use vstd::prelude::*;
use vstd::utf8::{encode_utf8, valid_utf8};

verus! {

proof fn lemma_escaped_joined(a: Seq<char>, b: Seq<char>)
    ensures
        escaped_chars(a + b) == escaped_chars(a) + escaped_chars(b),
    decreases b.len(),
{
    if b.len() == 0 {
        assert(a + b =~= a);
        assert(escaped_chars(a) + escaped_chars(b) =~= escaped_chars(a));
    } else {
        lemma_escaped_joined(a, b.drop_last());
        assert((a + b).drop_last() =~= a + b.drop_last());
        assert((a + b).last() == b.last());
        let c = crate::caption::cue::escaped_char(b.last());
        assert(escaped_chars(a) + escaped_chars(b.drop_last()) + c =~= escaped_chars(a) + (
        escaped_chars(b.drop_last()) + c));
    }
}

proof fn lemma_one_line(value: Seq<char>)
    requires
        is_without(value, '\n'),
        is_without(value, '\r'),
    ensures
        cue_text(value) == escaped_line(value),
{
    assert(lacks(value, '\r'));
    lemma_newlines_are_there(value, 0);
    assert(value.skip(0) =~= value);
    lemma_split_whole_char(value, '\n');
}

proof fn lemma_lines_front(first: Seq<char>, rest: Seq<Seq<char>>)
    requires
        rest.len() > 0,
    ensures
        escaped_lines(seq![first] + rest) == escaped_line(first) + seq!['\n'] + escaped_lines(rest),
    decreases rest.len(),
{
    let all = seq![first] + rest;
    assert(all.last() == rest.last());
    if rest.len() == 1 {
        assert(all.drop_last() =~= seq![first]);
        assert(escaped_lines(seq![first]) == escaped_line(first));
        assert(rest.last() == rest[0]);
    } else {
        assert(all.drop_last() =~= seq![first] + rest.drop_last());
        lemma_lines_front(first, rest.drop_last());
        let (a, b) = (escaped_line(first) + seq!['\n'], escaped_lines(rest.drop_last()));
        let c = escaped_line(rest.last());
        assert((a + b) + seq!['\n'] + c =~= a + (b + seq!['\n'] + c));
    }
}

pub(crate) proof fn lemma_two_lines(first: Seq<char>, rest: Seq<char>)
    requires
        is_without(first, '\n'),
        is_without(first, '\r'),
        is_without(rest, '\r'),
    ensures
        cue_text(first + seq!['\n'] + rest) == cue_text(first) + seq!['\n'] + cue_text(rest),
{
    let all = first + seq!['\n'] + rest;
    assert(lacks(all, '\r')) by {
        assert forall|i: int| 0 <= i < all.len() implies #[trigger] all[i] != '\r' by {
            if i < first.len() {
                assert(all[i] == first[i]);
            } else if i > first.len() {
                assert(all[i] == rest[i - first.len() - 1]);
            }
        }
    }
    assert(lacks(rest, '\r'));
    lemma_newlines_are_there(all, 0);
    lemma_newlines_are_there(rest, 0);
    assert(all.skip(0) =~= all);
    assert(rest.skip(0) =~= rest);
    lemma_one_line(first);
    lemma_split_head_char(first, '\n', rest);
    lemma_split_nonempty(rest, seq!['\n']);
    lemma_lines_front(first, split(rest, seq!['\n']));
}

/// A text is escaped piece by piece, in order, with nothing lost between.
pub proof fn law_pieces_are_escaped_in_turn(
    a: &[char],
    b: &[char],
    both: &[char],
    escaped_a: Vec<char>,
    escaped_b: Vec<char>,
    escaped: Vec<char>,
)
    requires
        call_ensures(escape_cue_text, (a,), escaped_a),
        call_ensures(escape_cue_text, (b,), escaped_b),
        call_ensures(escape_cue_text, (both,), escaped),
        both@ == a@ + b@,
        a@.len() > 0 && b@.len() > 0,
        is_without(a@, '\n') && is_without(a@, '\r'),
        is_without(b@, '\n') && is_without(b@, '\r'),
    ensures
        escaped@ == escaped_a@ + escaped_b@,
{
    assert forall|i: int| 0 <= i < both@.len() implies #[trigger] both@[i] != '\n' && both@[i]
        != '\r' by {
        if i < a@.len() {
            assert(both@[i] == a@[i]);
        } else {
            assert(both@[i] == b@[i - a@.len()]);
        }
    }
    lemma_one_line(a@);
    lemma_one_line(b@);
    lemma_one_line(both@);
    lemma_escaped_joined(a@, b@);
}

/// Of the characters of a line, those of mark-up become references, and every
/// other stays as it is. A line of nothing holds a no-break space.
pub proof fn law_characters_are_escaped(text: &[char], escaped: Vec<char>)
    requires
        call_ensures(escape_cue_text, (text,), escaped),
        text@.len() <= 1,
        is_without(text@, '\n') && is_without(text@, '\r'),
    ensures
        text@.len() == 0 ==> escaped@ == "&nbsp;"@,
        text@ == seq!['&'] ==> escaped@ == "&amp;"@,
        text@ == seq!['<'] ==> escaped@ == "&lt;"@,
        text@ == seq!['>'] ==> escaped@ == "&gt;"@,
        text@.len() == 1 && text@[0] != '&' && text@[0] != '<' && text@[0] != '>' ==> escaped@
            == text@,
{
    lemma_one_line(text@);
    reveal_with_fuel(escaped_chars, 2);
    reveal_strlit("&nbsp;");
    reveal_strlit("&amp;");
    reveal_strlit("&lt;");
    reveal_strlit("&gt;");
    if text@.len() == 1 {
        assert(text@.drop_last() =~= Seq::<char>::empty());
        assert(escaped@ =~= crate::caption::cue::escaped_char(text@[0]));
        assert(text@ =~= seq![text@[0]]);
    }
    assert("&nbsp;"@ =~= seq!['&', 'n', 'b', 's', 'p', ';']);
    assert("&amp;"@ =~= seq!['&', 'a', 'm', 'p', ';']);
    assert("&lt;"@ =~= seq!['&', 'l', 't', ';']);
    assert("&gt;"@ =~= seq!['&', 'g', 't', ';']);
}

/// Lines are escaped line by line.
pub proof fn law_lines_are_escaped_in_turn(
    first: &[char],
    rest: &[char],
    both: &[char],
    escaped_first: Vec<char>,
    escaped_rest: Vec<char>,
    escaped: Vec<char>,
)
    requires
        call_ensures(escape_cue_text, (first,), escaped_first),
        call_ensures(escape_cue_text, (rest,), escaped_rest),
        call_ensures(escape_cue_text, (both,), escaped),
        both@ == first@ + seq!['\n'] + rest@,
        is_without(first@, '\n') && is_without(first@, '\r'),
        is_without(rest@, '\r'),
    ensures
        escaped@ == escaped_first@ + seq!['\n'] + escaped_rest@,
{
    lemma_two_lines(first@, rest@);
}

proof fn lemma_strip_prefix(s: Seq<char>, from: int, to: int)
    requires
        0 <= from <= to <= s.len(),
        forall|i: int| from <= i < to ==> #[trigger] s[i] != '{' && s[i] != '\\',
    ensures
        match stripped_from(s, to) {
            Some(rest) => stripped_from(s, from) == Some(s.subrange(from, to) + rest),
            None => stripped_from(s, from) is None,
        },
    decreases to - from,
{
    if from < to {
        lemma_strip_prefix(s, from + 1, to);
        assert(s[from] != '{' && s[from] != '\\');
        if let Some(rest) = stripped_from(s, to) {
            assert(seq![s[from]] + (s.subrange(from + 1, to) + rest) =~= s.subrange(from, to)
                + rest);
        }
    } else {
        if let Some(rest) = stripped_from(s, to) {
            assert(s.subrange(from, to) + rest =~= rest);
        }
    }
}

/// Text between two pieces of plain text.
spec fn is_between(value: Seq<char>, a: Seq<char>, middle: Seq<char>, b: Seq<char>) -> bool {
    is_plain(a) && is_plain(b) && value == a + middle + b
}

proof fn lemma_between(value: Seq<char>, a: Seq<char>, middle: Seq<char>, b: Seq<char>)
    requires
        is_between(value, a, middle, b),
    ensures
        stripped_from(value, (a + middle).len() as int) == Some(b),
        match stripped_from(value, a.len() as int) {
            Some(rest) => stripped_from(value, 0) == Some(a + rest),
            None => stripped_from(value, 0) is None,
        },
        forall|i: int| 0 <= i < middle.len() ==> value[a.len() + i] == #[trigger] middle[i],
{
    let k = (a + middle).len() as int;
    let n = value.len() as int;
    assert forall|i: int| k <= i < n implies #[trigger] value[i] != '{' && value[i] != '\\' by {
        assert(value[i] == b[i - k]);
    }
    lemma_strip_prefix(value, k, n);
    assert(stripped_from(value, n) == Some(Seq::<char>::empty()));
    assert(value.subrange(k, n) + Seq::<char>::empty() =~= b);
    assert forall|i: int| 0 <= i < a.len() implies #[trigger] value[i] != '{' && value[i]
        != '\\' by {
        assert(value[i] == a[i]);
    }
    lemma_strip_prefix(value, 0, a.len() as int);
    assert(value.subrange(0, a.len() as int) =~= a);
}

pub(crate) proof fn lemma_joined_is_plain(a: Seq<char>, middle: Seq<char>, b: Seq<char>)
    requires
        is_plain(a),
        is_plain(b),
        middle.len() == 0 || middle == seq!['\u{a0}'],
    ensures
        is_plain(a + middle + b),
        cue_text(a + middle + b) == a + middle + b,
        crate::text::trim(a + middle + b, CharClass::White).len() > 0,
{
    let all = a + middle + b;
    assert(all[0] == a[0]);
    assert(all.last() == b.last());
    assert forall|i: int| 0 <= i < all.len() implies {
        &&& #[trigger] all[i] != '\n'
        &&& all[i] != '\r'
        &&& all[i] != '\0'
        &&& all[i] != '{'
        &&& all[i] != '\\'
        &&& all[i] != '&'
        &&& all[i] != '<'
        &&& all[i] != '>'
    } by {
        if i < a.len() {
            assert(all[i] == a[i]);
        } else if i >= (a + middle).len() {
            assert(all[i] == b[i - (a + middle).len()]);
        } else {
            assert(all[i] == middle[i - a.len()]);
        }
    }
    lemma_plain_cue_text(all);
    lemma_trim_nothing(all, CharClass::White);
}

/// A command reaches to the first brace that closes it.
proof fn lemma_command(s: Seq<char>, from: int, k: int)
    requires
        0 <= from,
        from + 2 <= k < s.len(),
        s[from] == '{',
        s[from + 1] == '\\',
        s[k] == '}',
        forall|j: int| from <= j < k ==> #[trigger] s[j] != '}',
    ensures
        stripped_from(s, from) == stripped_from(s, k + 1),
{
    lemma_occurs_char(s, '}', k);
    assert forall|j: int| from <= j < k implies !crate::text::occurs_at(s, seq!['}'], j) by {
        lemma_occurs_char(s, '}', j);
        assert(s[j] != '}');
    }
    lemma_find_from(s, seq!['}'], from);
}

/// A command between two pieces of dialogue is left out, and nothing else.
pub proof fn law_commands_are_left_out(
    value: &[char],
    a: Seq<char>,
    command: Seq<char>,
    b: Seq<char>,
    result: Result<Vec<char>, BrowserCaptionError>,
)
    requires
        call_ensures(strip_ass_overrides, (value,), result),
        is_plain(a),
        is_plain(b),
        is_without(command, '}'),
        value@ == a + (seq!['{', '\\'] + command + seq!['}']) + b,
    ensures
        result is Ok,
        result->Ok_0@ == a + b,
{
    let middle = seq!['{', '\\'] + command + seq!['}'];
    let s = value@;
    let from = a.len() as int;
    let k = from + 2 + command.len();
    lemma_between(s, a, middle, b);
    assert(s[from] == middle[0] && s[from + 1] == middle[1]);
    assert(s[k] == middle[k - from]);
    assert forall|j: int| from <= j < k implies #[trigger] s[j] != '}' by {
        assert(s[j] == middle[j - from]);
        if j >= from + 2 {
            assert(middle[j - from] == command[j - from - 2]);
        }
    }
    lemma_command(s, from, k);
    assert((a + middle).len() == k + 1);
    lemma_joined_is_plain(a, Seq::empty(), b);
    assert(a + Seq::<char>::empty() + b =~= a + b);
}

/// A command that is not closed makes the dialogue malformed.
pub proof fn law_commands_are_closed(
    value: &[char],
    a: Seq<char>,
    command: Seq<char>,
    result: Result<Vec<char>, BrowserCaptionError>,
)
    requires
        call_ensures(strip_ass_overrides, (value,), result),
        is_plain(a),
        is_without(command, '}'),
        value@ == a + (seq!['{', '\\'] + command),
    ensures
        result == Err::<Vec<char>, BrowserCaptionError>(BrowserCaptionError::Malformed),
{
    let middle = seq!['{', '\\'] + command;
    let s = value@;
    let from = a.len() as int;
    assert forall|i: int| 0 <= i < from implies #[trigger] s[i] != '{' && s[i] != '\\' by {
        assert(s[i] == a[i]);
    }
    lemma_strip_prefix(s, 0, from);
    assert(s[from] == middle[0] && s[from + 1] == middle[1]);
    lemma_find_from(s, seq!['}'], from);
    if let Some(k) = find_from(s, seq!['}'], from) {
        lemma_occurs_char(s, '}', k);
        assert(s[k] == middle[k - from]);
        if k >= from + 2 {
            assert(middle[k - from] == command[k - from - 2]);
        }
    }
}

/// `\N` and `\n` break a line of dialogue, and `\h` is a space that does not.
pub proof fn law_breaks_are_shown(
    value: &[char],
    a: Seq<char>,
    letter: char,
    b: Seq<char>,
    result: Result<Vec<char>, BrowserCaptionError>,
)
    requires
        call_ensures(strip_ass_overrides, (value,), result),
        is_plain(a),
        is_plain(b),
        value@ == a + seq!['\\', letter] + b,
    ensures
        letter == 'N' || letter == 'n' ==> result is Ok && result->Ok_0@ == a + seq!['\n'] + b,
        letter == 'h' ==> result is Ok && result->Ok_0@ == a + seq!['\u{a0}'] + b,
{
    let middle = seq!['\\', letter];
    let s = value@;
    let from = a.len() as int;
    lemma_between(s, a, middle, b);
    assert(s[from] == middle[0] && s[from + 1] == middle[1]);
    assert((a + middle).len() == from + 2);
    if letter == 'N' || letter == 'n' {
        assert(stripped_from(s, from) == Some(seq!['\n'] + b));
        let plain = a + (seq!['\n'] + b);
        assert(plain =~= a + seq!['\n'] + b);
        lemma_two_lines(a, b);
        lemma_plain_cue_text(a);
        lemma_plain_cue_text(b);
        assert(plain[0] == a[0] && plain.last() == b.last());
        lemma_trim_nothing(plain, CharClass::White);
    } else if letter == 'h' {
        assert(stripped_from(s, from) == Some(seq!['\u{a0}'] + b));
        assert(a + (seq!['\u{a0}'] + b) =~= a + seq!['\u{a0}'] + b);
        lemma_joined_is_plain(a, seq!['\u{a0}'], b);
    }
}

/// What is not UTF-8 is refused for its encoding, and nothing else is; what is too
/// large, or holds a null character, is malformed.
pub proof fn law_unreadable_sidecars_are_refused(
    conversion: CaptionWebVttConversion,
    body: &[u8],
    result: Result<Vec<u8>, BrowserCaptionError>,
)
    requires
        call_ensures(caption_to_webvtt, (conversion, body), result),
    ensures
        result == Err::<Vec<u8>, BrowserCaptionError>(BrowserCaptionError::Encoding)
            <==> body@.len() <= 8_388_608 && !valid_utf8(body@),
        body@.len() > 8_388_608 ==> result == Err::<Vec<u8>, BrowserCaptionError>(
            BrowserCaptionError::Malformed,
        ),
{
}

/// A text with a carriage return before every line feed.
pub open spec fn with_returns(s: Seq<char>) -> Seq<char>
    decreases s.len(),
{
    if s.len() == 0 {
        Seq::empty()
    } else if s[0] == '\n' {
        seq!['\r', '\n'] + with_returns(s.skip(1))
    } else {
        seq![s[0]] + with_returns(s.skip(1))
    }
}

proof fn lemma_with_returns(before: Seq<char>, s: Seq<char>)
    requires
        is_without(s, '\r'),
    ensures
        newlines_from(before + with_returns(s), before.len() as int) == s,
    decreases s.len(),
{
    let all = before + with_returns(s);
    let at = before.len() as int;
    if s.len() > 0 {
        let rest = s.skip(1);
        assert forall|i: int| 0 <= i < rest.len() implies #[trigger] rest[i] != '\r' by {
            assert(rest[i] == s[i + 1]);
        }
        assert(s[0] != '\r');
        if s[0] == '\n' {
            let head = before + seq!['\r', '\n'];
            lemma_with_returns(head, rest);
            assert(all =~= head + with_returns(rest));
            assert(all[at] == '\r' && all[at + 1] == '\n');
            assert(head.len() == at + 2);
        } else {
            let head = before + seq![s[0]];
            lemma_with_returns(head, rest);
            assert(all =~= head + with_returns(rest));
            assert(all[at] == s[0]);
            assert(head.len() == at + 1);
        }
        assert(seq![s[0]] + rest =~= s);
    } else {
        assert(s =~= Seq::<char>::empty());
    }
}

/// Neither how the lines of a sidecar end nor a byte order mark before them makes a
/// difference.
pub proof fn law_line_ends_do_not_matter(
    conversion: CaptionWebVttConversion,
    text: Seq<char>,
    body: &[u8],
    other: &[u8],
    marked: &[u8],
    result: Result<Vec<u8>, BrowserCaptionError>,
    other_result: Result<Vec<u8>, BrowserCaptionError>,
    marked_result: Result<Vec<u8>, BrowserCaptionError>,
)
    requires
        call_ensures(caption_to_webvtt, (conversion, body), result),
        call_ensures(caption_to_webvtt, (conversion, other), other_result),
        call_ensures(caption_to_webvtt, (conversion, marked), marked_result),
        is_without(text, '\r'),
        text.len() > 0 ==> text[0] != '\u{feff}',
        body@ == encode_utf8(text),
        other@ == encode_utf8(with_returns(text)),
        marked@ == encode_utf8(seq!['\u{feff}'] + text),
        body@.len() <= 8_388_608 && other@.len() <= 8_388_608 && marked@.len() <= 8_388_608,
    ensures
        result is Ok <==> other_result is Ok,
        result is Ok <==> marked_result is Ok,
        result is Ok ==> result->Ok_0@ == other_result->Ok_0@ && result->Ok_0@
            == marked_result->Ok_0@,
        result is Err ==> result->Err_0 == other_result->Err_0 && result->Err_0
            == marked_result->Err_0,
{
    let long = with_returns(text);
    let with_mark = seq!['\u{feff}'] + text;
    vstd::utf8::encode_utf8_valid_utf8(text);
    vstd::utf8::encode_utf8_decode_utf8(text);
    vstd::utf8::encode_utf8_valid_utf8(long);
    vstd::utf8::encode_utf8_decode_utf8(long);
    vstd::utf8::encode_utf8_valid_utf8(with_mark);
    vstd::utf8::encode_utf8_decode_utf8(with_mark);
    assert(lacks(text, '\r'));
    lemma_newlines_are_there(text, 0);
    assert(text.skip(0) =~= text);
    lemma_with_returns(Seq::empty(), text);
    assert(Seq::<char>::empty() + long =~= long);
    assert(with_mark.skip(1) =~= text);
    assert(crate::caption::without_mark(with_mark) == text);
    assert(crate::caption::without_mark(long) == long) by {
        if text.len() > 0 {
            assert(long[0] == text[0] || long[0] == '\r');
        }
    }
    assert(crate::caption::sidecar_text(body@) == text);
    assert(crate::caption::sidecar_text(other@) == text);
    assert(crate::caption::sidecar_text(marked@) == text);
}

/// Dialogue without commands is shown as it is written, escaped as any text is.
pub proof fn law_dialogue_is_escaped(
    value: &[char],
    escaped: Vec<char>,
    result: Result<Vec<char>, BrowserCaptionError>,
)
    requires
        call_ensures(strip_ass_overrides, (value,), result),
        call_ensures(escape_cue_text, (value,), escaped),
        is_without(value@, '{'),
        is_without(value@, '\\'),
        value@.len() > 0,
        !crate::text::is_white_space(value@[0]),
        !crate::text::is_white_space(value@.last()),
    ensures
        result is Ok,
        result->Ok_0@ == escaped@,
{
    let n = value@.len() as int;
    assert forall|i: int| 0 <= i < n implies #[trigger] value@[i] != '{' && value@[i] != '\\' by {}
    lemma_strip_prefix(value@, 0, n);
    assert(stripped_from(value@, n) == Some(Seq::<char>::empty()));
    assert(value@.subrange(0, n) + Seq::<char>::empty() =~= value@);
    lemma_trim_nothing(value@, CharClass::White);
}

} // verus!
