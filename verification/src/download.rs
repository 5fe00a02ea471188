//! Names under which original files are downloaded.
use crate::encoding::{
    bytes_of, lemma_encode_concat, lemma_encode_one, lemma_len_push, string_of, utf8_len,
    utf8_len_of, width, width_of,
};
use crate::number::{lemma_decimal_len, lemma_decimal_text, signed_chars, signed_text};
use crate::query::{hex_digit, unescaped, unescaped_from};
use crate::text::{
    append_chars, chars_of, equals_ignoring_case, is_alpha, is_digit, lemma_run, lemma_run_is,
    lemma_tail_run, lemma_tail_run_is, run, same_ignoring_case, tail_run, trim, trim_end, trimmed,
    CharClass,
};
use vstd::prelude::*;
use vstd::slice::slice_subrange;
use vstd::utf8::{encode_scalar, encode_utf8};

verus! {

/// The longest name that is offered, in bytes.
pub const MAX_FILE_NAME_BYTES: usize = 240;

/// How many characters of an extension are kept.
pub const MAX_EXTENSION_CHARS: usize = 16;

pub open spec fn is_alphanumeric(c: char) -> bool {
    is_alpha(c) || is_digit(c)
}

/// The Unicode control characters.
pub open spec fn is_control(c: char) -> bool {
    c as int <= 0x1f || 0x7f <= c as int <= 0x9f
}

/// A character that cannot stand in a file name.
pub open spec fn is_unsafe(c: char) -> bool {
    is_control(c) || c == '/' || c == '\\'
}

/// The letters and digits of `s`, in order.
pub open spec fn alphanumerics(s: Seq<char>) -> Seq<char>
    decreases s.len(),
{
    if s.len() == 0 {
        Seq::empty()
    } else if is_alphanumeric(s.last()) {
        alphanumerics(s.drop_last()).push(s.last())
    } else {
        alphanumerics(s.drop_last())
    }
}

/// At most the first `n` characters.
pub open spec fn at_most(s: Seq<char>, n: int) -> Seq<char> {
    if s.len() <= n {
        s
    } else {
        s.take(n)
    }
}

/// The first letters and digits of an extension, or `bin` where it has none.
pub open spec fn safe_extension(extension: Seq<char>) -> Seq<char> {
    let kept = at_most(alphanumerics(extension), MAX_EXTENSION_CHARS as int);
    if kept.len() == 0 {
        seq!['b', 'i', 'n']
    } else {
        kept
    }
}

/// The name of a title that has none of its own.
pub open spec fn fallback_name(id: int, extension: Seq<char>) -> Seq<char> {
    seq!['v', 'i', 'd', 'e', 'o', '-'] + signed_text(id) + seq!['.'] + extension
}

/// The name with `_` for what cannot stand in it.
pub open spec fn replaced_unsafe(name: Seq<char>) -> Seq<char> {
    name.map_values(
        |c: char|
            if is_unsafe(c) {
                '_'
            } else {
                c
            },
    )
}

/// How many characters of `s` from index `i` on fit in `budget` bytes.
pub open spec fn fitting(s: Seq<char>, i: int, budget: int) -> nat
    decreases s.len() - i,
{
    if i < 0 || i >= s.len() || width(s[i]) > budget {
        0
    } else {
        1 + fitting(s, i + 1, budget - width(s[i]))
    }
}

/// How many characters at the end of `s` are spaces or full stops.
pub open spec fn trailing(s: Seq<char>) -> nat
    decreases s.len(),
{
    if s.len() > 0 && (s.last() == ' ' || s.last() == '.') {
        1 + trailing(s.drop_last())
    } else {
        0
    }
}

/// The last index of a full stop.
pub open spec fn last_stop(s: Seq<char>) -> Option<int>
    decreases s.len(),
{
    if s.len() == 0 {
        None
    } else if s.last() == '.' {
        Some(s.len() - 1)
    } else {
        last_stop(s.drop_last())
    }
}

/// The name without its extension, where that is `extension` up to case.
pub open spec fn stem_of(name: Seq<char>, extension: Seq<char>) -> Seq<char> {
    match last_stop(name) {
        Some(k) if same_ignoring_case(name.skip(k + 1), extension) => name.take(k),
        _ => name,
    }
}

/// The name cut to its bound, its extension kept.
pub open spec fn cut_name(name: Seq<char>, id: int, extension: Seq<char>) -> Seq<char> {
    let suffix = seq!['.'] + extension;
    let stem = stem_of(name, extension);
    let kept = stem.take(fitting(stem, 0, MAX_FILE_NAME_BYTES - utf8_len(suffix)) as int);
    let bounded = kept.take(kept.len() - trailing(kept));
    if bounded.len() == 0 {
        fallback_name(id, extension)
    } else {
        bounded + suffix
    }
}

/// The name under which a file is offered.
pub open spec fn download_name(file_name: Seq<char>, id: int, extension: Seq<char>) -> Seq<char> {
    let ext = safe_extension(extension);
    let name = trim(replaced_unsafe(file_name), CharClass::White);
    if name.len() == 0 || name == seq!['.'] || name == seq!['.', '.'] {
        fallback_name(id, ext)
    } else if utf8_len(name) <= MAX_FILE_NAME_BYTES {
        name
    } else {
        cut_name(name, id, ext)
    }
}

/// A character that stands for itself in a quoted header value.
pub open spec fn is_plain(c: char) -> bool {
    ||| is_alphanumeric(c)
    ||| c == ' '
    ||| c == '.'
    ||| c == '-'
    ||| c == '_'
    ||| c == '('
    ||| c == ')'
    ||| c == '['
    ||| c == ']'
}

/// The name in plain ASCII, `_` for everything else.
pub open spec fn ascii_name(name: Seq<char>) -> Seq<char> {
    name.map_values(
        |c: char|
            if is_plain(c) {
                c
            } else {
                '_'
            },
    )
}

/// A byte that stands for itself in an extended header value.
pub open spec fn is_attribute_byte(byte: u8) -> bool {
    ||| is_alphanumeric(byte as char)
    ||| byte as char == '!'
    ||| byte as char == '#'
    ||| byte as char == '$'
    ||| byte as char == '&'
    ||| byte as char == '+'
    ||| byte as char == '-'
    ||| byte as char == '.'
    ||| byte as char == '^'
    ||| byte as char == '_'
    ||| byte as char == '`'
    ||| byte as char == '|'
    ||| byte as char == '~'
}

/// The upper-case hexadecimal digit of a number below sixteen.
pub open spec fn hex_char(n: int) -> char {
    if n < 10 {
        ((0x30 + n) as u32) as char
    } else {
        ((0x41 + n - 10) as u32) as char
    }
}

pub open spec fn escaped_byte(byte: u8) -> Seq<char> {
    if is_attribute_byte(byte) {
        seq![byte as char]
    } else {
        seq!['%', hex_char(byte as int / 16), hex_char(byte as int % 16)]
    }
}

/// The bytes percent-encoded.
pub open spec fn escaped_bytes(bytes: Seq<u8>) -> Seq<char>
    decreases bytes.len(),
{
    if bytes.len() == 0 {
        Seq::empty()
    } else {
        escaped_bytes(bytes.drop_last()) + escaped_byte(bytes.last())
    }
}

/// The header value that offers a file under `name`.
pub open spec fn disposition(name: Seq<char>) -> Seq<char> {
    "attachment; filename=\""@ + ascii_name(name) + "\"; filename*=UTF-8''"@ + escaped_bytes(
        encode_utf8(name),
    )
}


fn alphanumeric(c: char) -> (found: bool)
    ensures
        found == is_alphanumeric(c),
{
    CharClass::Alphanumeric.test(c)
}

fn kept_extension(extension: &[char]) -> (kept: Vec<char>)
    ensures
        kept@ == safe_extension(extension@),
{
    let mut kept: Vec<char> = Vec::new();
    let mut i: usize = 0;
    while i < extension.len()
        invariant
            i <= extension.len(),
            kept@ == at_most(
                alphanumerics(extension@.take(i as int)),
                MAX_EXTENSION_CHARS as int,
            ),
        decreases extension.len() - i,
    {
        proof {
            assert(extension@.take(i + 1).drop_last() =~= extension@.take(i as int));
        }
        let ghost all = alphanumerics(extension@.take(i as int));
        if alphanumeric(extension[i]) {
            if kept.len() < MAX_EXTENSION_CHARS {
                kept.push(extension[i]);
            } else {
                assert(all.push(extension@[i as int]).take(MAX_EXTENSION_CHARS as int)
                    =~= all.take(MAX_EXTENSION_CHARS as int));
                assert(all.take(all.len() as int) =~= all);
            }
        }
        i += 1;
    }
    assert(extension@.take(i as int) =~= extension@);
    if kept.len() == 0 {
        let none: Vec<char> = vec!['b', 'i', 'n'];
        assert(none@ =~= seq!['b', 'i', 'n']);
        return none;
    }
    kept
}

fn fallback_chars(id: i64, extension: &[char]) -> (name: Vec<char>)
    ensures
        name@ == fallback_name(id as int, extension@),
{
    let mut name: Vec<char> = vec!['v', 'i', 'd', 'e', 'o', '-'];
    append_chars(&mut name, &signed_chars(id));
    name.push('.');
    append_chars(&mut name, extension);
    assert(name@ =~= fallback_name(id as int, extension@));
    name
}

fn unsafe_char(c: char) -> (found: bool)
    ensures
        found == is_unsafe(c),
{
    let code: u32 = c as u32;
    code <= 0x1f || (0x7f <= code && code <= 0x9f) || c == '/' || c == '\\'
}

fn replace_unsafe(name: &[char]) -> (result: Vec<char>)
    ensures
        result@ == replaced_unsafe(name@),
{
    let mut result: Vec<char> = Vec::new();
    let mut i: usize = 0;
    while i < name.len()
        invariant
            i <= name.len(),
            result@ =~= replaced_unsafe(name@.take(i as int)),
        decreases name.len() - i,
    {
        if unsafe_char(name[i]) {
            result.push('_');
        } else {
            result.push(name[i]);
        }
        assert(name@.take(i + 1) =~= name@.take(i as int).push(name@[i as int]));
        i += 1;
    }
    assert(name@.take(i as int) =~= name@);
    result
}

fn fitting_of(text: &[char], budget: usize) -> (n: usize)
    ensures
        n == fitting(text@, 0, budget as int),
        n <= text.len(),
{
    let mut n: usize = 0;
    let mut left: usize = budget;
    while n < text.len() && width_of(text[n]) <= left
        invariant
            n <= text.len(),
            fitting(text@, 0, budget as int) == n + fitting(text@, n as int, left as int),
        decreases text.len() - n,
    {
        left = left - width_of(text[n]);
        n += 1;
    }
    n
}

proof fn lemma_trailing(s: Seq<char>)
    ensures
        trailing(s) <= s.len(),
        trailing(s) < s.len() ==> s[s.len() - trailing(s) - 1] != ' ' && s[s.len() - trailing(s)
            - 1] != '.',
    decreases s.len(),
{
    if s.len() > 0 && (s.last() == ' ' || s.last() == '.') {
        lemma_trailing(s.drop_last());
    }
}

fn without_trailing(text: &[char]) -> (result: &[char])
    ensures
        result@ == text@.take(text@.len() - trailing(text@)),
{
    let mut end: usize = text.len();
    assert(text@.take(end as int) =~= text@);
    while end > 0 && (text[end - 1] == ' ' || text[end - 1] == '.')
        invariant
            end <= text.len(),
            text@.len() - trailing(text@) == end - trailing(text@.take(end as int)),
        decreases end,
    {
        proof {
            assert(text@.take(end as int).drop_last() =~= text@.take(end - 1));
            assert(text@.take(end as int).last() == text@[end - 1]);
        }
        end -= 1;
    }
    proof {
        if end > 0 {
            assert(text@.take(end as int).last() == text@[end - 1]);
        }
    }
    slice_subrange(text, 0, end)
}

fn last_stop_of(text: &[char]) -> (result: Option<usize>)
    ensures
        match result {
            Some(k) => last_stop(text@) == Some(k as int) && k < text.len(),
            None => last_stop(text@) is None,
        },
{
    let mut end: usize = text.len();
    assert(text@.take(end as int) =~= text@);
    while end > 0
        invariant
            end <= text.len(),
            last_stop(text@) == last_stop(text@.take(end as int)),
        decreases end,
    {
        proof {
            assert(text@.take(end as int).drop_last() =~= text@.take(end - 1));
            assert(text@.take(end as int).last() == text@[end - 1]);
        }
        if text[end - 1] == '.' {
            return Some(end - 1);
        }
        end -= 1;
    }
    None
}

fn same_extension(text: &[char], extension: &[char]) -> (same: bool)
    ensures
        same == same_ignoring_case(text@, extension@),
{
    let text_of = string_of(extension);
    equals_ignoring_case(text, text_of.as_str())
}

fn stem<'a>(name: &'a [char], extension: &[char]) -> (result: &'a [char])
    ensures
        result@ == stem_of(name@, extension@),
{
    match last_stop_of(name) {
        Some(k) => {
            let len: usize = name.len();
            let current = slice_subrange(name, k + 1, len);
            assert(current@ =~= name@.skip(k + 1));
            if same_extension(current, extension) {
                let result = slice_subrange(name, 0, k);
                assert(result@ =~= name@.take(k as int));
                result
            } else {
                name
            }
        },
        None => name,
    }
}

proof fn lemma_extension(extension: Seq<char>)
    ensures
        safe_extension(extension).len() > 0,
        safe_extension(extension).len() <= MAX_EXTENSION_CHARS,
        forall|i: int|
            0 <= i < safe_extension(extension).len() ==> is_alphanumeric(
                #[trigger] safe_extension(extension)[i],
            ),
{
    lemma_alphanumerics(extension);
}

proof fn lemma_alphanumerics(s: Seq<char>)
    ensures
        forall|i: int|
            0 <= i < alphanumerics(s).len() ==> is_alphanumeric(#[trigger] alphanumerics(s)[i]),
    decreases s.len(),
{
    if s.len() > 0 {
        let head = alphanumerics(s.drop_last());
        lemma_alphanumerics(s.drop_last());
        assert forall|i: int| 0 <= i < alphanumerics(s).len() implies is_alphanumeric(
            #[trigger] alphanumerics(s)[i],
        ) by {
            if i < head.len() {
                assert(alphanumerics(s)[i] == head[i]);
            }
        }
    }
}

/// Text of narrow characters takes one byte for each.
proof fn lemma_narrow(s: Seq<char>)
    requires
        forall|i: int| 0 <= i < s.len() ==> (#[trigger] s[i]) as u32 <= 0x7f,
    ensures
        utf8_len(s) == s.len(),
    decreases s.len(),
{
    if s.len() > 0 {
        lemma_narrow(s.drop_last());
        assert(s =~= s.drop_last().push(s.last()));
        lemma_len_push(s.drop_last(), s.last());
    }
}

fn cut(name: &[char], id: i64, extension: &[char]) -> (result: Vec<char>)
    requires
        extension@.len() <= MAX_EXTENSION_CHARS,
        forall|i: int| 0 <= i < extension@.len() ==> is_alphanumeric(#[trigger] extension@[i]),
    ensures
        result@ == cut_name(name@, id as int, extension@),
{
    let mut suffix: Vec<char> = vec!['.'];
    append_chars(&mut suffix, extension);
    assert(suffix@ =~= seq!['.'] + extension@);
    let budget: usize = MAX_FILE_NAME_BYTES - suffix.len();
    proof {
        lemma_narrow(suffix@);
    }
    let stem_text = stem(name, extension);
    let n: usize = fitting_of(stem_text, budget);
    let kept = slice_subrange(stem_text, 0, n);
    assert(kept@ =~= stem_text@.take(n as int));
    let bounded = without_trailing(kept);
    if bounded.len() == 0 {
        return fallback_chars(id, extension);
    }
    let mut result: Vec<char> = Vec::new();
    append_chars(&mut result, bounded);
    append_chars(&mut result, &suffix);
    assert(result@ =~= bounded@ + suffix@);
    result
}

fn download_chars(file_name: &[char], id: i64, extension: &[char]) -> (name: Vec<char>)
    ensures
        name@ == download_name(file_name@, id as int, extension@),
{
    let ext = kept_extension(extension);
    proof {
        lemma_extension(extension@);
    }
    let sanitized = replace_unsafe(file_name);
    let name = trimmed(&sanitized, CharClass::White);
    proof {
        assert(name@.len() == 1 ==> name@ =~= seq![name@[0]]);
        assert(name@.len() == 2 ==> name@ =~= seq![name@[0], name@[1]]);
    }
    if name.len() == 0 || (name.len() == 1 && name[0] == '.') || (name.len() == 2 && name[0] == '.'
        && name[1] == '.') {
        return fallback_chars(id, &ext);
    }
    if utf8_len_of(name) <= MAX_FILE_NAME_BYTES {
        let mut result: Vec<char> = Vec::new();
        append_chars(&mut result, name);
        assert(result@ =~= name@);
        return result;
    }
    cut(name, id, &ext)
}

/// The name under which a file is offered.
pub fn safe_download_file_name(file_name: &str, detail_id: i64, extension: &str) -> (name: String)
    ensures
        name@ == download_name(file_name@, detail_id as int, extension@),
{
    let file = chars_of(file_name);
    let ext = chars_of(extension);
    string_of(&download_chars(&file, detail_id, &ext))
}

fn plain(c: char) -> (found: bool)
    ensures
        found == is_plain(c),
{
    alphanumeric(c) || c == ' ' || c == '.' || c == '-' || c == '_' || c == '(' || c == ')' || c
        == '[' || c == ']'
}

fn attribute_byte(byte: u8) -> (found: bool)
    ensures
        found == is_attribute_byte(byte),
{
    let c = byte as char;
    alphanumeric(c) || c == '!' || c == '#' || c == '$' || c == '&' || c == '+' || c == '-' || c
        == '.' || c == '^' || c == '_' || c == '`' || c == '|' || c == '~'
}

fn hex_char_of(n: u8) -> (c: char)
    requires
        n < 16,
    ensures
        c == hex_char(n as int),
{
    if n < 10 {
        (0x30 + n) as char
    } else {
        (0x41 + (n - 10)) as char
    }
}

fn append_ascii(output: &mut Vec<char>, name: &[char])
    ensures
        final(output)@ == old(output)@ + ascii_name(name@),
{
    let mut i: usize = 0;
    while i < name.len()
        invariant
            i <= name.len(),
            output@ =~= old(output)@ + ascii_name(name@.take(i as int)),
        decreases name.len() - i,
    {
        if plain(name[i]) {
            output.push(name[i]);
        } else {
            output.push('_');
        }
        assert(name@.take(i + 1) =~= name@.take(i as int).push(name@[i as int]));
        i += 1;
    }
    assert(name@.take(i as int) =~= name@);
}

fn append_escaped(output: &mut Vec<char>, bytes: &[u8])
    ensures
        final(output)@ == old(output)@ + escaped_bytes(bytes@),
{
    let mut i: usize = 0;
    while i < bytes.len()
        invariant
            i <= bytes.len(),
            output@ =~= old(output)@ + escaped_bytes(bytes@.take(i as int)),
        decreases bytes.len() - i,
    {
        let ghost done = output@;
        let byte: u8 = bytes[i];
        if attribute_byte(byte) {
            output.push(byte as char);
        } else {
            output.push('%');
            output.push(hex_char_of(byte / 16));
            output.push(hex_char_of(byte % 16));
        }
        proof {
            assert(output@ =~= done + escaped_byte(byte));
            assert(bytes@.take(i + 1).drop_last() =~= bytes@.take(i as int));
        }
        i += 1;
    }
    assert(bytes@.take(i as int) =~= bytes@);
}

/// The header value that offers a file for download.
pub fn download_content_disposition(file_name: &str, detail_id: i64, extension: &str) -> (value:
    String)
    ensures
        value@ == disposition(download_name(file_name@, detail_id as int, extension@)),
{
    let file = chars_of(file_name);
    let ext = chars_of(extension);
    let name = download_chars(&file, detail_id, &ext);
    let mut value = chars_of("attachment; filename=\"");
    append_ascii(&mut value, &name);
    append_chars(&mut value, &chars_of("\"; filename*=UTF-8''"));
    append_escaped(&mut value, &bytes_of(&name));
    assert(value@ =~= disposition(download_name(file_name@, detail_id as int, extension@)));
    string_of(&value)
}

// -------------------------------------------------------------------- laws

/// A name that a file system and a header can hold.
pub open spec fn is_safe_name(name: Seq<char>) -> bool {
    &&& name.len() > 0
    &&& utf8_len(name) <= MAX_FILE_NAME_BYTES
    &&& forall|i: int| 0 <= i < name.len() ==> !is_unsafe(#[trigger] name[i])
}

proof fn lemma_fallback_safe(id: i64, extension: Seq<char>)
    requires
        extension.len() <= MAX_EXTENSION_CHARS,
        forall|i: int| 0 <= i < extension.len() ==> is_alphanumeric(#[trigger] extension[i]),
    ensures
        is_safe_name(fallback_name(id as int, extension)),
{
    let n = id as int;
    let size = if n < 0 {
        (-n) as nat
    } else {
        n as nat
    };
    lemma_decimal_text(size);
    lemma_decimal_len(size);
    let digits = signed_text(n);
    let name = fallback_name(n, extension);
    assert forall|i: int| 0 <= i < digits.len() implies digits[i] == '-' || is_digit(
        #[trigger] digits[i],
    ) by {
        if n < 0 && i > 0 {
            assert(digits[i] == decimal_text_of(size)[i - 1]);
        }
    }
    assert forall|i: int| 0 <= i < name.len() implies (#[trigger] name[i]) as u32 <= 0x7f
        && !is_unsafe(name[i]) by {
        if i < 6 {
        } else if i < 6 + digits.len() {
            assert(name[i] == digits[i - 6]);
        } else if i == 6 + digits.len() {
            assert(name[i] == '.');
        } else {
            assert(name[i] == extension[i - 7 - digits.len()]);
        }
    }
    lemma_narrow(name);
}

spec fn decimal_text_of(n: nat) -> Seq<char> {
    crate::number::decimal_text(n)
}

proof fn lemma_fitting(s: Seq<char>, i: int, budget: int)
    requires
        0 <= i <= s.len(),
        0 <= budget,
    ensures
        i + fitting(s, i, budget) <= s.len(),
        utf8_len(s.subrange(i, i + fitting(s, i, budget))) <= budget,
    decreases s.len() - i,
{
    let n = fitting(s, i, budget) as int;
    if n == 0 {
        assert(s.subrange(i, i + n) =~= Seq::<char>::empty());
    } else {
        let rest = budget - width(s[i]);
        lemma_fitting(s, i + 1, rest);
        assert(s.subrange(i, i + n) =~= seq![s[i]] + s.subrange(i + 1, i + n));
        lemma_encode_concat(seq![s[i]], s.subrange(i + 1, i + n));
        lemma_encode_one(s[i]);
    }
}

proof fn lemma_prefix_len(s: Seq<char>, n: int)
    requires
        0 <= n <= s.len(),
    ensures
        utf8_len(s.take(n)) <= utf8_len(s),
{
    assert(s =~= s.take(n) + s.skip(n));
    lemma_encode_concat(s.take(n), s.skip(n));
}

/// Whether a name is no stand-in for a directory and has no white space at its
/// ends.
pub open spec fn is_proper_name(name: Seq<char>) -> bool {
    &&& name != seq!['.']
    &&& name != seq!['.', '.']
    &&& trim(name, CharClass::White) == name
}

proof fn lemma_proper(name: Seq<char>)
    requires
        name.len() > 0,
        !CharClass::White.has(name[0]),
        !CharClass::White.has(name.last()),
        name[0] != '.' || name.last() != '.',
    ensures
        is_proper_name(name),
{
    lemma_tail_run_is(name, CharClass::White, 0);
    assert(trim_end(name, CharClass::White) =~= name);
    lemma_run_is(name, CharClass::White, 0);
    assert(trim(name, CharClass::White) =~= name);
    assert(seq!['.'].last() == '.' && seq!['.', '.'].last() == '.');
}

/// A name that is safe and proper is offered as it is, whatever the title.
pub(crate) proof fn lemma_kept_name(name: Seq<char>, id: int, extension: Seq<char>)
    requires
        is_safe_name(name),
        is_proper_name(name),
    ensures
        download_name(name, id, extension) == name,
{
    assert(replaced_unsafe(name) =~= name) by {
        assert forall|i: int| 0 <= i < name.len() implies replaced_unsafe(name)[i] == name[i] by {
            assert(!is_unsafe(name[i]));
        }
    }
}

proof fn lemma_download_name_is_proper(file_name: Seq<char>, id: i64, extension: Seq<char>)
    ensures
        is_proper_name(download_name(file_name, id as int, extension)),
{
    let ext = safe_extension(extension);
    lemma_extension(extension);
    assert(ext.len() > 0);
    assert(is_alphanumeric(ext[ext.len() - 1]));
    let fallback = fallback_name(id as int, ext);
    assert(fallback[0] == 'v');
    assert(fallback.last() == ext.last());
    lemma_proper(fallback);
    let all = replaced_unsafe(file_name);
    let cut_end = trim_end(all, CharClass::White);
    let name = trim(all, CharClass::White);
    lemma_tail_run(all, CharClass::White);
    lemma_run(cut_end, CharClass::White);
    if name.len() > 0 {
        assert(name[0] == cut_end[run(cut_end, CharClass::White) as int]);
        assert(name.last() == cut_end.last());
        assert(cut_end.last() == all[all.len() - tail_run(all, CharClass::White) - 1]);
        if name != seq!['.'] && name != seq!['.', '.'] {
            if utf8_len(name) <= MAX_FILE_NAME_BYTES {
                lemma_tail_run_is(name, CharClass::White, 0);
                assert(trim_end(name, CharClass::White) =~= name);
                lemma_run_is(name, CharClass::White, 0);
                assert(trim(name, CharClass::White) =~= name);
            } else {
                let suffix = seq!['.'] + ext;
                lemma_narrow(suffix);
                let stem = stem_of(name, ext);
                lemma_last_stop(name);
                let budget = MAX_FILE_NAME_BYTES - utf8_len(suffix);
                lemma_fitting(stem, 0, budget);
                let kept = stem.take(fitting(stem, 0, budget) as int);
                lemma_trailing(kept);
                let bounded = kept.take(kept.len() - trailing(kept));
                if bounded.len() > 0 {
                    let result = bounded + suffix;
                    assert(result[0] == name[0]);
                    assert(result.last() == ext.last());
                    lemma_proper(result);
                }
            }
        }
    }
}

/// Whatever a file is called, it is offered under a name that is not empty, has
/// no control character and no path separator, is at most 240 bytes long, is no
/// stand-in for a directory, and has no white space at its ends. Offered under
/// that name, it keeps it.
pub proof fn law_download_name_is_safe(file_name: Seq<char>, id: i64, extension: Seq<char>)
    ensures
        is_safe_name(download_name(file_name, id as int, extension)),
        is_proper_name(download_name(file_name, id as int, extension)),
        download_name(download_name(file_name, id as int, extension), id as int, extension)
            == download_name(file_name, id as int, extension),
{
    lemma_download_name_is_safe(file_name, id, extension);
    lemma_download_name_is_proper(file_name, id, extension);
    lemma_kept_name(download_name(file_name, id as int, extension), id as int, extension);
}

proof fn lemma_download_name_is_safe(file_name: Seq<char>, id: i64, extension: Seq<char>)
    ensures
        is_safe_name(download_name(file_name, id as int, extension)),
{
    let ext = safe_extension(extension);
    lemma_extension(extension);
    lemma_fallback_safe(id, ext);
    let all = replaced_unsafe(file_name);
    let cut_end = trim_end(all, CharClass::White);
    let name = trim(all, CharClass::White);
    lemma_tail_run(all, CharClass::White);
    lemma_run(cut_end, CharClass::White);
    let from = run(cut_end, CharClass::White) as int;
    assert forall|i: int| 0 <= i < name.len() implies !is_unsafe(#[trigger] name[i]) by {
        assert(name[i] == all[i + from]);
    }
    if utf8_len(name) > MAX_FILE_NAME_BYTES {
        let suffix = seq!['.'] + ext;
        lemma_narrow(suffix);
        let stem = stem_of(name, ext);
        lemma_last_stop(name);
        let budget = MAX_FILE_NAME_BYTES - utf8_len(suffix);
        lemma_fitting(stem, 0, budget);
        let n = fitting(stem, 0, budget) as int;
        let kept = stem.take(n);
        assert(stem.subrange(0, n) =~= kept);
        lemma_trailing(kept);
        let bounded = kept.take(kept.len() - trailing(kept));
        lemma_prefix_len(kept, kept.len() - trailing(kept));
        let result = bounded + suffix;
        lemma_encode_concat(bounded, suffix);
        assert forall|i: int| 0 <= i < result.len() implies !is_unsafe(#[trigger] result[i]) by {
            if i < bounded.len() {
                assert(result[i] == name[i]);
            } else {
                assert(result[i] == suffix[i - bounded.len()]);
                if i > bounded.len() {
                    assert(suffix[i - bounded.len()] == ext[i - bounded.len() - 1]);
                }
            }
        }
    }
}

proof fn lemma_last_stop(s: Seq<char>)
    ensures
        last_stop(s) matches Some(k) ==> 0 <= k < s.len() && s[k] == '.',
    decreases s.len(),
{
    if s.len() > 0 && s.last() != '.' {
        lemma_last_stop(s.drop_last());
    }
}

/// A character that a header value can hold, and no path separator.
pub open spec fn is_header_char(c: char) -> bool {
    0x20 <= c as int <= 0x7e && c != '/' && c != '\\'
}

proof fn lemma_escaped_header(bytes: Seq<u8>)
    ensures
        forall|i: int|
            0 <= i < escaped_bytes(bytes).len() ==> is_header_char(
                #[trigger] escaped_bytes(bytes)[i],
            ),
    decreases bytes.len(),
{
    if bytes.len() > 0 {
        lemma_escaped_header(bytes.drop_last());
        let head = escaped_bytes(bytes.drop_last());
        let tail = escaped_byte(bytes.last());
        let all = escaped_bytes(bytes);
        assert forall|i: int| 0 <= i < all.len() implies is_header_char(#[trigger] all[i]) by {
            if i < head.len() {
                assert(all[i] == head[i]);
            } else {
                assert(all[i] == tail[i - head.len()]);
            }
        }
    }
}

/// Whatever a file is called, the header value that offers it is printable ASCII
/// on one line, with no path separator in it.
pub proof fn law_disposition_is_a_header(name: Seq<char>)
    ensures
        forall|i: int|
            0 <= i < disposition(name).len() ==> is_header_char(#[trigger] disposition(name)[i]),
{
    let first = "attachment; filename=\""@;
    let second = "\"; filename*=UTF-8''"@;
    reveal_strlit("attachment; filename=\"");
    reveal_strlit("\"; filename*=UTF-8''");
    let plain_name = ascii_name(name);
    let bytes = encode_utf8(name);
    lemma_escaped_header(bytes);
    let all = disposition(name);
    let a = first.len() as int;
    let b = a + plain_name.len();
    let c = b + second.len();
    assert forall|i: int| 0 <= i < all.len() implies is_header_char(#[trigger] all[i]) by {
        if i < a {
            assert(all[i] == first[i]);
        } else if i < b {
            assert(all[i] == plain_name[i - a]);
        } else if i < c {
            assert(all[i] == second[i - b]);
        } else {
            assert(all[i] == escaped_bytes(bytes)[i - c]);
        }
    }
}


/// The first byte is escaped first.
proof fn lemma_escaped_front(bytes: Seq<u8>)
    requires
        bytes.len() > 0,
    ensures
        escaped_bytes(bytes) == escaped_byte(bytes[0]) + escaped_bytes(bytes.drop_first()),
    decreases bytes.len(),
{
    if bytes.len() == 1 {
        assert(bytes.drop_last() =~= Seq::<u8>::empty());
        assert(bytes.drop_first() =~= Seq::<u8>::empty());
        assert(escaped_bytes(bytes) =~= escaped_byte(bytes[0]) + escaped_bytes(bytes.drop_first()));
    } else {
        lemma_escaped_front(bytes.drop_last());
        assert(bytes.drop_last().drop_first() =~= bytes.drop_first().drop_last());
        assert(escaped_bytes(bytes) =~= escaped_byte(bytes[0]) + escaped_bytes(bytes.drop_first()));
    }
}

/// What stands before does not matter to decoding.
proof fn lemma_unescape_shift(front: Seq<u8>, s: Seq<u8>, i: int)
    requires
        0 <= i,
    ensures
        unescaped_from(front + s, front.len() + i) == unescaped_from(s, i),
    decreases s.len() - i,
{
    if i < s.len() {
        assert((front + s)[front.len() + i] == s[i]);
        lemma_unescape_shift(front, s, i + 1);
        if i + 2 < s.len() {
            lemma_unescape_shift(front, s, i + 3);
        }
    }
}

/// The bytes of ASCII text.
spec fn ascii_bytes(s: Seq<char>) -> Seq<u8> {
    Seq::new(s.len(), |i: int| s[i] as u8)
}

proof fn lemma_hex_char(n: int)
    requires
        0 <= n < 16,
    ensures
        hex_digit(hex_char(n) as u8) == Some(n as u8),
        hex_char(n) as u32 <= 0x7f,
{
}

proof fn lemma_unescape_escaped(bytes: Seq<u8>)
    requires
        forall|i: int| 0 <= i < bytes.len() ==> bytes[i] != 0x2b,
    ensures
        unescaped_from(ascii_bytes(escaped_bytes(bytes)), 0) == Some(bytes),
    decreases bytes.len(),
{
    let all = ascii_bytes(escaped_bytes(bytes));
    if bytes.len() > 0 {
        let byte = bytes[0];
        let rest = bytes.drop_first();
        lemma_escaped_front(bytes);
        assert forall|i: int| 0 <= i < rest.len() implies rest[i] != 0x2b by {
            assert(rest[i] == bytes[i + 1]);
        }
        lemma_unescape_escaped(rest);
        let front = ascii_bytes(escaped_byte(byte));
        let tail = ascii_bytes(escaped_bytes(rest));
        assert(all =~= front + tail);
        lemma_unescape_shift(front, tail, 0);
        assert(seq![byte] + rest =~= bytes);
        if is_attribute_byte(byte) {
            assert(all[0] == byte);
        } else {
            lemma_hex_char(byte as int / 16);
            lemma_hex_char(byte as int % 16);
            assert(all[0] == 0x25u8);
            assert(all[1] == hex_char(byte as int / 16) as u8);
            assert(all[2] == hex_char(byte as int % 16) as u8);
            assert(byte as int == (byte as int / 16) * 16 + byte as int % 16);
        }
    } else {
        assert(all =~= Seq::<u8>::empty());
        assert(bytes =~= Seq::<u8>::empty());
    }
}

/// A plus sign takes part in the encoding of a plus sign alone.
pub(crate) proof fn lemma_no_plus(s: Seq<char>)
    requires
        forall|i: int| 0 <= i < s.len() ==> s[i] != '+',
    ensures
        forall|i: int| 0 <= i < encode_utf8(s).len() ==> #[trigger] encode_utf8(s)[i] != 0x2b,
    decreases s.len(),
{
    if s.len() > 0 {
        let rest = s.drop_first();
        let code: u32 = s[0] as u32;
        assert(code != 0x2b) by {
            assert(s[0] != '+');
            vstd::utf8::char_u32_cast(s[0], code);
        }
        assert forall|i: int| 0 <= i < rest.len() implies rest[i] != '+' by {
            assert(rest[i] == s[i + 1]);
        }
        let head = encode_scalar(code);
        lemma_no_plus(rest);
        vstd::utf8::char_is_scalar(s[0]);
        assert forall|i: int| 0 <= i < head.len() implies #[trigger] head[i] != 0x2b by {
            lemma_scalar_no_plus(code);
        }
        let all = encode_utf8(s);
        assert forall|i: int| 0 <= i < all.len() implies #[trigger] all[i] != 0x2b by {
            if i < head.len() {
                assert(all[i] == head[i]);
            } else {
                assert(all[i] == encode_utf8(rest)[i - head.len()]);
            }
        }
    }
}

proof fn lemma_scalar_no_plus(code: u32)
    requires
        code != 0x2b,
        code <= 0x10ffff,
    ensures
        forall|i: int| 0 <= i < encode_scalar(code).len() ==> #[trigger] encode_scalar(code)[i] != 0x2b,
{
    assert(code <= 0x7f && code != 0x2b ==> (code & 0x7f) as u8 != 0x2b) by (bit_vector);
    assert((0xc0u8 | ((code >> 6) & 0x1f) as u8) != 0x2b) by (bit_vector);
    assert((0xe0u8 | ((code >> 12) & 0x0f) as u8) != 0x2b) by (bit_vector);
    assert((0xf0u8 | ((code >> 18) & 0x07) as u8) != 0x2b) by (bit_vector);
    assert((0x80u8 | (code & 0x3f) as u8) != 0x2b) by (bit_vector);
    assert((0x80u8 | ((code >> 6) & 0x3f) as u8) != 0x2b) by (bit_vector);
    assert((0x80u8 | ((code >> 12) & 0x3f) as u8) != 0x2b) by (bit_vector);
}

/// The extended header value of a name without a plus sign percent-decodes to
/// the name.
pub proof fn law_extended_name_round_trip(name: Seq<char>)
    requires
        forall|i: int| 0 <= i < name.len() ==> name[i] != '+',
    ensures
        unescaped(escaped_bytes(encode_utf8(name))) == Some(name),
{
    let bytes = encode_utf8(name);
    let text = escaped_bytes(bytes);
    lemma_no_plus(name);
    lemma_escaped_header(bytes);
    vstd::utf8::is_ascii_chars_encode_utf8(text);
    assert(encode_utf8(text) =~= ascii_bytes(text));
    lemma_unescape_escaped(bytes);
    vstd::utf8::encode_utf8_valid_utf8(name);
    vstd::utf8::encode_utf8_decode_utf8(name);
}

} // verus!
