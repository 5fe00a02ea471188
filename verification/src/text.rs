//! Text as sequences of characters: the searching, splitting and trimming that
//! the parsers of this crate are specified with.
use vstd::prelude::*;
use vstd::slice::slice_subrange;

verus! {

/// A set of characters that scanning and trimming work with.
#[derive(Clone, Copy, PartialEq, Eq, Structural)]
pub enum CharClass {
    /// Unicode `White_Space`.
    White,
    /// Space, tab, line feed, form feed and carriage return.
    AsciiWhite,
    /// Space and tab.
    Blank,
    /// Line feed.
    Newline,
    /// `/`.
    Slash,
    /// `0` to `9`.
    Digit,
    /// ASCII letters and digits.
    Alphanumeric,
    /// Space, tab, line feed, form feed, carriage return and `=`.
    AsciiWhiteOrEquals,
    /// `-` and `_`.
    Dash,
    /// `,`.
    Comma,
}

/// The characters with the Unicode property `White_Space`.
pub open spec fn is_white_space(c: char) -> bool {
    ||| 0x9 <= c as int <= 0xd
    ||| c as int == 0x20
    ||| c as int == 0x85
    ||| c as int == 0xa0
    ||| c as int == 0x1680
    ||| 0x2000 <= c as int <= 0x200a
    ||| c as int == 0x2028
    ||| c as int == 0x2029
    ||| c as int == 0x202f
    ||| c as int == 0x205f
    ||| c as int == 0x3000
}

/// Space, tab, line feed, form feed and carriage return.
pub open spec fn is_ascii_white(c: char) -> bool {
    c == ' ' || c == '\t' || c == '\n' || c as int == 0xc || c == '\r'
}

pub open spec fn is_digit(c: char) -> bool {
    '0' <= c <= '9'
}

pub open spec fn is_alpha(c: char) -> bool {
    ('a' <= c <= 'z') || ('A' <= c <= 'Z')
}

pub open spec fn is_hex_digit(c: char) -> bool {
    is_digit(c) || ('a' <= c <= 'f') || ('A' <= c <= 'F')
}

impl CharClass {
    /// Whether the class holds `c`.
    pub open spec fn has(self, c: char) -> bool {
        match self {
            CharClass::White => is_white_space(c),
            CharClass::AsciiWhite => is_ascii_white(c),
            CharClass::Blank => c == ' ' || c == '\t',
            CharClass::Newline => c == '\n',
            CharClass::Slash => c == '/',
            CharClass::Digit => is_digit(c),
            CharClass::Alphanumeric => is_alpha(c) || is_digit(c),
            CharClass::AsciiWhiteOrEquals => is_ascii_white(c) || c == '=',
            CharClass::Dash => c == '-' || c == '_',
            CharClass::Comma => c == ',',
        }
    }

    /// Whether the class holds `c`.
    pub fn test(self, c: char) -> (found: bool)
        ensures
            found == self.has(c),
    {
        let code = c as u32;
        match self {
            CharClass::White => (9 <= code && code <= 13) || code == 0x20 || code == 0x85 || code
                == 0xa0 || code == 0x1680 || (0x2000 <= code && code <= 0x200a) || code == 0x2028
                || code == 0x2029 || code == 0x202f || code == 0x205f || code == 0x3000,
            CharClass::AsciiWhite => ascii_white(c),
            CharClass::Blank => c == ' ' || c == '\t',
            CharClass::Newline => c == '\n',
            CharClass::Slash => c == '/',
            CharClass::Digit => '0' <= c && c <= '9',
            CharClass::Alphanumeric => ('a' <= c && c <= 'z') || ('A' <= c && c <= 'Z') || ('0'
                <= c && c <= '9'),
            CharClass::AsciiWhiteOrEquals => ascii_white(c) || c == '=',
            CharClass::Dash => c == '-' || c == '_',
            CharClass::Comma => c == ',',
        }
    }
}

fn ascii_white(c: char) -> (found: bool)
    ensures
        found == is_ascii_white(c),
{
    c == ' ' || c == '\t' || c == '\n' || c as u32 == 0xc || c == '\r'
}


// ---------------------------------------------------------------- comparing

/// The ASCII lower case of `c`; every other character is its own.
pub open spec fn lower(c: char) -> char {
    if 'A' <= c <= 'Z' {
        ((c as int + 32) as u32) as char
    } else {
        c
    }
}

/// `s` with every ASCII capital in lower case.
pub open spec fn lowered(s: Seq<char>) -> Seq<char> {
    s.map_values(|c: char| lower(c))
}

/// Equality up to the case of ASCII letters.
pub open spec fn same_ignoring_case(a: Seq<char>, b: Seq<char>) -> bool {
    lowered(a) == lowered(b)
}

/// `s` begins with `p`.
pub open spec fn starts_with(s: Seq<char>, p: Seq<char>) -> bool {
    occurs_at(s, p, 0)
}

/// `p` stands in `s` at index `k`.
pub open spec fn occurs_at(s: Seq<char>, p: Seq<char>, k: int) -> bool {
    0 <= k && k + p.len() <= s.len() && s.subrange(k, k + p.len()) == p
}

/// `p` stands somewhere in `s`.
pub open spec fn holds_text(s: Seq<char>, p: Seq<char>) -> bool {
    exists|k: int| occurs_at(s, p, k)
}

/// The first index from `from` on at which `p` stands in `s`.
pub open spec fn find_from(s: Seq<char>, p: Seq<char>, from: int) -> Option<int>
    decreases s.len() + 1 - from,
{
    if from < 0 || from + p.len() > s.len() {
        None
    } else if occurs_at(s, p, from) {
        Some(from)
    } else {
        find_from(s, p, from + 1)
    }
}

/// The first index at which `p` stands in `s`.
pub open spec fn find(s: Seq<char>, p: Seq<char>) -> Option<int> {
    find_from(s, p, 0)
}

pub proof fn lemma_find_from(s: Seq<char>, p: Seq<char>, from: int)
    requires
        0 <= from,
    ensures
        match find_from(s, p, from) {
            Some(k) => from <= k && occurs_at(s, p, k) && forall|j: int|
                from <= j < k ==> !occurs_at(s, p, j),
            None => forall|j: int| from <= j ==> !occurs_at(s, p, j),
        },
    decreases s.len() + 1 - from,
{
    if from + p.len() > s.len() {
    } else if occurs_at(s, p, from) {
    } else {
        lemma_find_from(s, p, from + 1);
        assert forall|j: int| from <= j && !(from + 1 <= j) implies !occurs_at(s, p, j) by {
            assert(j == from);
        }
    }
}

/// What is first is what `find` gives.
pub proof fn lemma_find_is(s: Seq<char>, p: Seq<char>, k: int)
    requires
        occurs_at(s, p, k),
        forall|j: int| 0 <= j < k ==> !occurs_at(s, p, j),
    ensures
        find(s, p) == Some(k),
{
    lemma_find_from(s, p, 0);
}

pub proof fn lemma_find(s: Seq<char>, p: Seq<char>)
    ensures
        match find(s, p) {
            Some(k) => occurs_at(s, p, k) && holds_text(s, p) && forall|j: int|
                0 <= j < k ==> !occurs_at(s, p, j),
            None => !holds_text(s, p),
        },
{
    lemma_find_from(s, p, 0);
}

/// The characters of a string.
pub fn chars_of(text: &str) -> (chars: Vec<char>)
    ensures
        chars@ == text@,
{
    let mut chars: Vec<char> = Vec::new();
    for c in it: text.chars()
        invariant
            chars@ == it.seq().take(it.index()),
            it.seq() == text@,
    {
        chars.push(c);
    }
    assert(chars@ =~= text@);
    chars
}

/// Whether `part` stands in `text` at index `at`.
pub fn is_at(text: &[char], part: &[char], at: usize) -> (found: bool)
    ensures
        found == occurs_at(text@, part@, at as int),
{
    if part.len() > text.len() || at > text.len() - part.len() {
        return false;
    }
    let mut i: usize = 0;
    while i < part.len()
        invariant
            i <= part.len(),
            at + part.len() <= text.len(),
            forall|j: int| 0 <= j < i ==> text@[at + j] == part@[j],
        decreases part.len() - i,
    {
        if text[at + i] != part[i] {
            assert(text@.subrange(at as int, at + part@.len())[i as int] == text@[at + i]);
            return false;
        }
        i += 1;
    }
    assert(text@.subrange(at as int, at + part@.len()) =~= part@);
    true
}

/// Whether the characters are exactly those of `literal`.
pub fn is_text(text: &[char], literal: &str) -> (same: bool)
    ensures
        same == (text@ == literal@),
{
    let part = chars_of(literal);
    if part.len() != text.len() {
        return false;
    }
    let same = is_at(text, &part, 0);
    assert(text@.subrange(0, text@.len() as int) =~= text@);
    same
}

/// Whether `text` begins with `literal`.
pub fn begins_with(text: &[char], literal: &str) -> (found: bool)
    ensures
        found == starts_with(text@, literal@),
{
    let part = chars_of(literal);
    is_at(text, &part, 0)
}

/// The first index from `from` on at which `part` stands in `text`.
pub fn index_of_from(text: &[char], part: &[char], from: usize) -> (found: Option<usize>)
    ensures
        match found {
            Some(k) => find_from(text@, part@, from as int) == Some(k as int),
            None => find_from(text@, part@, from as int) is None,
        },
{
    if part.len() > text.len() {
        return None;
    }
    let last: usize = text.len() - part.len();
    let mut i: usize = from;
    while i <= last
        invariant
            from <= i,
            from <= last ==> i <= last + 1,
            last + part.len() == text.len(),
            find_from(text@, part@, from as int) == find_from(text@, part@, i as int),
        decreases last + 1 - i,
    {
        if is_at(text, part, i) {
            return Some(i);
        }
        if i == last {
            assert(find_from(text@, part@, i + 1) is None);
            return None;
        }
        i += 1;
    }
    None
}

/// The first index at which `part` stands in `text`.
pub fn index_of(text: &[char], part: &[char]) -> (found: Option<usize>)
    ensures
        match found {
            Some(k) => find(text@, part@) == Some(k as int),
            None => find(text@, part@) is None,
        },
{
    index_of_from(text, part, 0)
}

/// Equality up to the case of ASCII letters.
pub fn equals_ignoring_case(text: &[char], literal: &str) -> (same: bool)
    ensures
        same == same_ignoring_case(text@, literal@),
{
    let part = chars_of(literal);
    if part.len() != text.len() {
        assert(lowered(text@).len() != lowered(literal@).len());
        return false;
    }
    let mut i: usize = 0;
    while i < part.len()
        invariant
            i <= part.len(),
            text.len() == part.len(),
            part@ == literal@,
            forall|j: int| 0 <= j < i ==> lower(text@[j]) == lower(part@[j]),
        decreases part.len() - i,
    {
        if lower_char(text[i]) != lower_char(part[i]) {
            assert(lowered(text@)[i as int] != lowered(literal@)[i as int]);
            return false;
        }
        i += 1;
    }
    assert(lowered(text@) =~= lowered(literal@));
    true
}

/// The ASCII lower case of a character.
pub fn lower_char(c: char) -> (result: char)
    ensures
        result == lower(c),
{
    if 'A' <= c && c <= 'Z' {
        ((c as u8) + 32) as char
    } else {
        c
    }
}

// ----------------------------------------------------------------- trimming

/// How many characters at the front of `s` are in `class`.
pub open spec fn run(s: Seq<char>, class: CharClass) -> nat
    decreases s.len(),
{
    if s.len() > 0 && class.has(s[0]) {
        1 + run(s.skip(1), class)
    } else {
        0
    }
}

/// How many characters at the end of `s` are in `class`.
pub open spec fn tail_run(s: Seq<char>, class: CharClass) -> nat
    decreases s.len(),
{
    if s.len() > 0 && class.has(s.last()) {
        1 + tail_run(s.drop_last(), class)
    } else {
        0
    }
}

pub open spec fn trim_start(s: Seq<char>, class: CharClass) -> Seq<char> {
    s.skip(run(s, class) as int)
}

pub open spec fn trim_end(s: Seq<char>, class: CharClass) -> Seq<char> {
    s.take(s.len() - tail_run(s, class))
}

pub open spec fn trim(s: Seq<char>, class: CharClass) -> Seq<char> {
    trim_start(trim_end(s, class), class)
}

/// The first index of a character in `class`, or the length where there is none.
pub open spec fn first_in(s: Seq<char>, class: CharClass) -> nat
    decreases s.len(),
{
    if s.len() == 0 || class.has(s[0]) {
        0
    } else {
        1 + first_in(s.skip(1), class)
    }
}

pub proof fn lemma_run(s: Seq<char>, class: CharClass)
    ensures
        run(s, class) <= s.len(),
        forall|i: int| 0 <= i < run(s, class) ==> class.has(#[trigger] s[i]),
        run(s, class) < s.len() ==> !class.has(s[run(s, class) as int]),
    decreases s.len(),
{
    if s.len() > 0 && class.has(s[0]) {
        lemma_run(s.skip(1), class);
        assert forall|i: int| 0 <= i < run(s, class) implies class.has(#[trigger] s[i]) by {
            if i > 0 {
                assert(s[i] == s.skip(1)[i - 1]);
            }
        }
        if run(s, class) < s.len() {
            assert(s[run(s, class) as int] == s.skip(1)[run(s.skip(1), class) as int]);
        }
    }
}

pub proof fn lemma_run_is(s: Seq<char>, class: CharClass, n: int)
    requires
        0 <= n <= s.len(),
        forall|i: int| 0 <= i < n ==> class.has(#[trigger] s[i]),
        n < s.len() ==> !class.has(s[n]),
    ensures
        run(s, class) == n,
{
    lemma_run(s, class);
    if run(s, class) < n {
        assert(class.has(s[run(s, class) as int]));
    }
    if n < run(s, class) {
        assert(class.has(s[n]));
    }
}

pub proof fn lemma_tail_run(s: Seq<char>, class: CharClass)
    ensures
        tail_run(s, class) <= s.len(),
        forall|i: int| s.len() - tail_run(s, class) <= i < s.len() ==> class.has(#[trigger] s[i]),
        tail_run(s, class) < s.len() ==> !class.has(s[s.len() - tail_run(s, class) - 1]),
    decreases s.len(),
{
    if s.len() > 0 && class.has(s.last()) {
        let t = s.drop_last();
        lemma_tail_run(t, class);
        assert forall|i: int| s.len() - tail_run(s, class) <= i < s.len() implies class.has(
            #[trigger] s[i],
        ) by {
            if i < s.len() - 1 {
                assert(s[i] == t[i]);
            }
        }
    }
}

pub proof fn lemma_tail_run_is(s: Seq<char>, class: CharClass, n: int)
    requires
        0 <= n <= s.len(),
        forall|i: int| s.len() - n <= i < s.len() ==> class.has(#[trigger] s[i]),
        n < s.len() ==> !class.has(s[s.len() - n - 1]),
    ensures
        tail_run(s, class) == n,
{
    lemma_tail_run(s, class);
    if tail_run(s, class) < n {
        assert(class.has(s[s.len() - tail_run(s, class) - 1]));
    }
    if n < tail_run(s, class) {
        assert(class.has(s[s.len() - n - 1]));
    }
}

pub proof fn lemma_first_in(s: Seq<char>, class: CharClass)
    ensures
        first_in(s, class) <= s.len(),
        forall|i: int| 0 <= i < first_in(s, class) ==> !class.has(#[trigger] s[i]),
        first_in(s, class) < s.len() ==> class.has(s[first_in(s, class) as int]),
    decreases s.len(),
{
    if s.len() == 0 || class.has(s[0]) {
    } else {
        lemma_first_in(s.skip(1), class);
        assert forall|i: int| 0 <= i < first_in(s, class) implies !class.has(#[trigger] s[i]) by {
            if i > 0 {
                assert(s[i] == s.skip(1)[i - 1]);
            }
        }
    }
}

/// How many characters at the front are in `class`.
pub fn run_of(text: &[char], class: CharClass) -> (n: usize)
    ensures
        n == run(text@, class),
        n <= text.len(),
{
    let mut n: usize = 0;
    while n < text.len() && class.test(text[n])
        invariant
            n <= text.len(),
            forall|i: int| 0 <= i < n ==> class.has(#[trigger] text@[i]),
        decreases text.len() - n,
    {
        n += 1;
    }
    proof {
        lemma_run_is(text@, class, n as int);
    }
    n
}

pub fn trimmed_start(text: &[char], class: CharClass) -> (result: &[char])
    ensures
        result@ == trim_start(text@, class),
{
    let n: usize = run_of(text, class);
    slice_subrange(text, n, text.len())
}

pub fn trimmed_end(text: &[char], class: CharClass) -> (result: &[char])
    ensures
        result@ == trim_end(text@, class),
{
    let mut end: usize = text.len();
    while end > 0 && class.test(text[end - 1])
        invariant
            end <= text.len(),
            forall|i: int| end <= i < text.len() ==> class.has(#[trigger] text@[i]),
        decreases end,
    {
        end -= 1;
    }
    proof {
        lemma_tail_run_is(text@, class, text@.len() - end);
    }
    slice_subrange(text, 0, end)
}

pub fn trimmed(text: &[char], class: CharClass) -> (result: &[char])
    ensures
        result@ == trim(text@, class),
{
    trimmed_start(trimmed_end(text, class), class)
}

/// The first index of a character in `class`, or the length where there is none.
pub fn index_in(text: &[char], class: CharClass) -> (n: usize)
    ensures
        n == first_in(text@, class),
        n <= text.len(),
{
    let mut n: usize = 0;
    while n < text.len() && !class.test(text[n])
        invariant
            n <= text.len(),
            forall|i: int| 0 <= i < n ==> !class.has(#[trigger] text@[i]),
        decreases text.len() - n,
    {
        n += 1;
    }
    proof {
        lemma_first_in(text@, class);
        if first_in(text@, class) < n {
            assert(class.has(text@[first_in(text@, class) as int]));
        }
        if n < first_in(text@, class) {
            assert(!class.has(text@[n as int]));
        }
    }
    n
}

// ---------------------------------------------------------------- splitting

/// The parts of `s` between the occurrences of `sep`, found from the left.
pub open spec fn split(s: Seq<char>, sep: Seq<char>) -> Seq<Seq<char>>
    decreases s.len(),
{
    match find(s, sep) {
        Some(k) if sep.len() > 0 && 0 <= k && k + sep.len() <= s.len() => seq![s.take(k)] + split(
            s.skip(k + sep.len()),
            sep,
        ),
        _ => seq![s],
    }
}

/// The lines of `s`: its parts between line feeds, without an empty last one.
pub open spec fn lines(s: Seq<char>) -> Seq<Seq<char>> {
    let parts = split(s, seq!['\n']);
    if parts.last().len() == 0 {
        parts.drop_last()
    } else {
        parts
    }
}

/// The texts that a list of slices stands for.
pub open spec fn texts(parts: Seq<&[char]>) -> Seq<Seq<char>> {
    parts.map_values(|part: &[char]| part@)
}

pub proof fn lemma_split_nonempty(s: Seq<char>, sep: Seq<char>)
    ensures
        split(s, sep).len() > 0,
{
}

/// The parts of `text` between the occurrences of `sep`.
pub fn split_text<'a>(text: &'a [char], sep: &[char]) -> (parts: Vec<&'a [char]>)
    requires
        sep@.len() > 0,
    ensures
        texts(parts@) == split(text@, sep@),
{
    let mut parts: Vec<&'a [char]> = Vec::new();
    let mut start: usize = 0;
    proof {
        assert(text@.skip(0) =~= text@);
        assert(texts(parts@) + split(text@.skip(0), sep@) =~= split(text@, sep@));
    }
    loop
        invariant
            start <= text.len(),
            sep@.len() > 0,
            texts(parts@) + split(text@.skip(start as int), sep@) == split(text@, sep@),
        decreases text.len() - start,
    {
        let rest = slice_subrange(text, start, text.len());
        let ghost before = texts(parts@);
        assert(rest@ =~= text@.skip(start as int));
        match index_of(rest, sep) {
            Some(k) => {
                proof {
                    lemma_find(rest@, sep@);
                }
                let part = slice_subrange(rest, 0, k);
                parts.push(part);
                proof {
                    assert(part@ =~= rest@.take(k as int));
                    assert(texts(parts@) =~= before.push(part@));
                    assert(rest@.skip(k + sep@.len()) =~= text@.skip(start + k + sep@.len()));
                    assert(before.push(part@) + split(rest@.skip(k + sep@.len()), sep@) =~= before
                        + (seq![part@] + split(rest@.skip(k + sep@.len()), sep@)));
                }
                start = start + k + sep.len();
            },
            None => {
                parts.push(rest);
                proof {
                    assert(texts(parts@) =~= before + seq![rest@]);
                }
                return parts;
            },
        }
    }
}

/// The lines of `text`.
pub fn lines_of<'a>(text: &'a [char]) -> (parts: Vec<&'a [char]>)
    ensures
        texts(parts@) == lines(text@),
{
    let newline: [char; 1] = ['\n'];
    let mut parts = split_text(text, &newline);
    proof {
        assert(newline@ =~= seq!['\n']);
        lemma_split_nonempty(text@, seq!['\n']);
        assert(texts(parts@).last() == parts@.last()@);
    }
    if parts[parts.len() - 1].len() == 0 {
        let ghost all = parts@;
        parts.pop();
        proof {
            assert(texts(parts@) =~= texts(all).drop_last());
        }
    }
    parts
}


/// A part that holds no separator, and no beginning of one that the separator
/// behind it completes, is the first part.
pub proof fn lemma_split_head(head: Seq<char>, sep: Seq<char>, rest: Seq<char>)
    requires
        sep.len() > 0,
        forall|k: int| 0 <= k < head.len() ==> !occurs_at(head + sep + rest, sep, k),
    ensures
        split(head + sep + rest, sep) == seq![head] + split(rest, sep),
{
    let s = head + sep + rest;
    let k = head.len() as int;
    assert(s.subrange(k, k + sep.len()) =~= sep);
    lemma_find_is(s, sep, k);
    assert(s.take(k) =~= head);
    assert(s.skip(k + sep.len()) =~= rest);
}

/// Text without the separator is its own only part.
pub proof fn lemma_split_whole(s: Seq<char>, sep: Seq<char>)
    requires
        !holds_text(s, sep),
    ensures
        split(s, sep) == seq![s],
{
    lemma_find(s, sep);
}

/// A single character stands where it occurs.
pub proof fn lemma_occurs_char(s: Seq<char>, c: char, k: int)
    ensures
        occurs_at(s, seq![c], k) <==> 0 <= k < s.len() && s[k] == c,
{
    if 0 <= k < s.len() {
        if s[k] == c {
            assert(s.subrange(k, k + 1) =~= seq![c]);
        } else {
            assert(s.subrange(k, k + 1)[0] == s[k]);
            assert(seq![c][0] == c);
        }
    }
}

/// A part that does not hold the character that separates is the first part.
pub proof fn lemma_split_head_char(head: Seq<char>, c: char, rest: Seq<char>)
    requires
        forall|i: int| 0 <= i < head.len() ==> head[i] != c,
    ensures
        split(head + seq![c] + rest, seq![c]) == seq![head] + split(rest, seq![c]),
{
    let s = head + seq![c] + rest;
    assert forall|k: int| 0 <= k < head.len() implies !occurs_at(s, seq![c], k) by {
        lemma_occurs_char(s, c, k);
        assert(s[k] == head[k]);
    }
    lemma_split_head(head, seq![c], rest);
}

/// Text without the character that separates is its own only part.
pub proof fn lemma_split_whole_char(s: Seq<char>, c: char)
    requires
        forall|i: int| 0 <= i < s.len() ==> s[i] != c,
    ensures
        split(s, seq![c]) == seq![s],
        find(s, seq![c]) is None,
{
    assert forall|k: int| !occurs_at(s, seq![c], k) by {
        lemma_occurs_char(s, c, k);
    }
    lemma_find(s, seq![c]);
    lemma_split_whole(s, seq![c]);
}

/// The first of several parts around one character.
pub proof fn lemma_find_char(head: Seq<char>, c: char, rest: Seq<char>)
    requires
        forall|i: int| 0 <= i < head.len() ==> head[i] != c,
    ensures
        find(head + seq![c] + rest, seq![c]) == Some(head.len() as int),
{
    let s = head + seq![c] + rest;
    assert forall|k: int| 0 <= k < head.len() implies !occurs_at(s, seq![c], k) by {
        lemma_occurs_char(s, c, k);
        assert(s[k] == head[k]);
    }
    lemma_occurs_char(s, c, head.len() as int);
    lemma_find_is(s, seq![c], head.len() as int);
}


/// What a part of a text holds, the text holds.
pub proof fn lemma_part_holds(s: Seq<char>, from: int, to: int, p: Seq<char>)
    requires
        0 <= from <= to <= s.len(),
        holds_text(s.subrange(from, to), p),
    ensures
        holds_text(s, p),
{
    let t = s.subrange(from, to);
    let k = choose|k: int| occurs_at(t, p, k);
    assert(s.subrange(from + k, from + k + p.len()) =~= t.subrange(k, k + p.len()));
    assert(occurs_at(s, p, from + k));
}

/// What one of the separated parts holds, the text holds.
pub proof fn lemma_split_part_holds(s: Seq<char>, sep: Seq<char>, j: int, p: Seq<char>)
    requires
        0 <= j < split(s, sep).len(),
        holds_text(split(s, sep)[j], p),
    ensures
        holds_text(s, p),
    decreases s.len(),
{
    lemma_find(s, sep);
    match find(s, sep) {
        Some(k) if sep.len() > 0 && 0 <= k && k + sep.len() <= s.len() => {
            let rest = s.skip(k + sep.len());
            if j == 0 {
                assert(s.take(k) =~= s.subrange(0, k));
                lemma_part_holds(s, 0, k, p);
            } else {
                assert(split(s, sep)[j] == split(rest, sep)[j - 1]);
                lemma_split_part_holds(rest, sep, j - 1, p);
                assert(rest =~= s.subrange(k + sep.len(), s.len() as int));
                lemma_part_holds(s, k + sep.len(), s.len() as int, p);
            }
        },
        _ => {
            assert(split(s, sep)[0] == s);
        },
    }
}

/// The last part ends as the text does.
pub proof fn lemma_split_last(s: Seq<char>, c: char)
    requires
        s.len() > 0,
        s.last() != c,
    ensures
        split(s, seq![c]).last().len() > 0,
    decreases s.len(),
{
    lemma_find(s, seq![c]);
    match find(s, seq![c]) {
        Some(k) => {
            lemma_occurs_char(s, c, k);
            let rest = s.skip(k + 1);
            assert(k < s.len() - 1);
            assert(rest.last() == s.last());
            lemma_split_last(rest, c);
            lemma_split_nonempty(rest, seq![c]);
            assert(split(s, seq![c]).last() == split(rest, seq![c]).last());
        },
        None => {},
    }
}

/// No part holds the character that separates.
pub proof fn lemma_split_without(s: Seq<char>, c: char, j: int)
    requires
        0 <= j < split(s, seq![c]).len(),
    ensures
        forall|i: int|
            0 <= i < split(s, seq![c])[j].len() ==> #[trigger] split(s, seq![c])[j][i] != c,
    decreases s.len(),
{
    lemma_find(s, seq![c]);
    match find(s, seq![c]) {
        Some(k) => {
            lemma_occurs_char(s, c, k);
            if j > 0 {
                assert(split(s, seq![c])[j] == split(s.skip(k + 1), seq![c])[j - 1]);
                lemma_split_without(s.skip(k + 1), c, j - 1);
            } else {
                let part = split(s, seq![c])[0];
                assert(part == s.take(k));
                assert forall|i: int| 0 <= i < part.len() implies #[trigger] part[i] != c by {
                    lemma_occurs_char(s, c, i);
                }
            }
        },
        None => {
            assert(split(s, seq![c])[0] == s);
            assert forall|i: int| 0 <= i < s.len() implies #[trigger] s[i] != c by {
                lemma_occurs_char(s, c, i);
            }
        },
    }
}


/// No part holds the separator.
pub proof fn lemma_split_lacks(s: Seq<char>, sep: Seq<char>, j: int)
    requires
        sep.len() > 0,
        0 <= j < split(s, sep).len(),
    ensures
        !holds_text(split(s, sep)[j], sep),
    decreases s.len(),
{
    lemma_find(s, sep);
    match find(s, sep) {
        Some(k) => {
            if j == 0 {
                let part = s.take(k);
                assert(split(s, sep)[0] == part);
                assert forall|i: int| !occurs_at(part, sep, i) by {
                    if occurs_at(part, sep, i) {
                        assert(s.subrange(i, i + sep.len()) =~= part.subrange(i, i + sep.len()));
                        assert(occurs_at(s, sep, i));
                    }
                }
            } else {
                let rest = s.skip(k + sep.len());
                assert(split(s, sep)[j] == split(rest, sep)[j - 1]);
                lemma_split_lacks(rest, sep, j - 1);
            }
        },
        None => {
            assert(split(s, sep)[0] == s);
        },
    }
}

// ------------------------------------------------------------------ joining

/// The parts one behind the other, with `sep` between them.
pub open spec fn join(parts: Seq<Seq<char>>, sep: Seq<char>) -> Seq<char>
    decreases parts.len(),
{
    if parts.len() == 0 {
        Seq::empty()
    } else if parts.len() == 1 {
        parts[0]
    } else {
        parts[0] + sep + join(parts.skip(1), sep)
    }
}

/// `s` with every `from`, found from the left, replaced by `to`.
pub open spec fn replaced(s: Seq<char>, from: Seq<char>, to: Seq<char>) -> Seq<char> {
    join(split(s, from), to)
}

/// What is still to be written once the first `i` parts are.
spec fn join_rest(parts: Seq<Seq<char>>, sep: Seq<char>, i: int) -> Seq<char> {
    if i <= 0 {
        join(parts, sep)
    } else if i < parts.len() {
        sep + join(parts.skip(i), sep)
    } else {
        Seq::empty()
    }
}

/// The parts one behind the other, with `sep` between them.
pub fn joined(parts: &[&[char]], sep: &[char]) -> (result: Vec<char>)
    ensures
        result@ == join(texts(parts@), sep@),
{
    let mut result: Vec<char> = Vec::new();
    let mut i: usize = 0;
    let ghost all = texts(parts@);
    while i < parts.len()
        invariant
            i <= parts.len(),
            all == texts(parts@),
            all.len() == parts@.len(),
            result@ + join_rest(all, sep@, i as int) =~= join(all, sep@),
        decreases parts.len() - i,
    {
        let ghost before = result@;
        if i > 0 {
            append_chars(&mut result, sep);
        }
        append_chars(&mut result, parts[i]);
        proof {
            let rest = all.skip(i as int);
            assert(rest[0] == parts@[i as int]@);
            assert(all.skip(0) =~= all);
            assert(rest.skip(1) =~= all.skip(i + 1));
            if i + 1 < parts.len() {
                assert(join(rest, sep@) =~= parts@[i as int]@ + sep@ + join(all.skip(i + 1), sep@));
            } else {
                assert(join(rest, sep@) =~= parts@[i as int]@);
            }
            assert(result@ + join_rest(all, sep@, i + 1) =~= before + join_rest(
                all,
                sep@,
                i as int,
            ));
        }
        i += 1;
    }
    result
}

/// Appends characters.
pub fn append_chars(output: &mut Vec<char>, text: &[char])
    ensures
        final(output)@ == old(output)@ + text@,
{
    let mut i: usize = 0;
    while i < text.len()
        invariant
            i <= text.len(),
            output@ == old(output)@ + text@.take(i as int),
        decreases text.len() - i,
    {
        output.push(text[i]);
        assert(text@.take(i + 1) =~= text@.take(i as int).push(text@[i as int]));
        i += 1;
    }
    assert(text@.take(i as int) =~= text@);
}


/// The first `n - 1` parts of `s` before occurrences of `sep`, and what is left.
pub open spec fn split_up_to(s: Seq<char>, sep: Seq<char>, n: nat) -> Seq<Seq<char>>
    decreases n,
{
    if n == 0 {
        Seq::empty()
    } else if n == 1 {
        seq![s]
    } else {
        match find(s, sep) {
            Some(k) => seq![s.take(k)] + split_up_to(s.skip(k + sep.len()), sep, (n - 1) as nat),
            None => seq![s],
        }
    }
}

/// The first `n - 1` parts of `text` before occurrences of `sep`, and what is
/// left.
pub fn split_text_up_to<'a>(text: &'a [char], sep: &[char], n: usize) -> (parts: Vec<&'a [char]>)
    ensures
        texts(parts@) == split_up_to(text@, sep@, n as nat),
{
    let mut parts: Vec<&'a [char]> = Vec::new();
    if n == 0 {
        assert(texts(parts@) =~= split_up_to(text@, sep@, 0));
        return parts;
    }
    let mut rest: &'a [char] = text;
    let mut left: usize = n;
    assert(texts(parts@) + split_up_to(rest@, sep@, left as nat) =~= split_up_to(
        text@,
        sep@,
        n as nat,
    ));
    while left > 1
        invariant
            1 <= left,
            texts(parts@) + split_up_to(rest@, sep@, left as nat) == split_up_to(
                text@,
                sep@,
                n as nat,
            ),
        decreases left,
    {
        let ghost before = texts(parts@);
        match index_of(rest, sep) {
            Some(k) => {
                proof {
                    lemma_find(rest@, sep@);
                }
                let len: usize = rest.len();
                assert(k + sep@.len() <= len);
                let part = slice_subrange(rest, 0, k);
                let behind = slice_subrange(rest, k + sep.len(), len);
                parts.push(part);
                proof {
                    assert(part@ =~= rest@.take(k as int));
                    assert(behind@ =~= rest@.skip(k + sep@.len()));
                    assert(texts(parts@) =~= before.push(part@));
                    let tail = split_up_to(behind@, sep@, (left - 1) as nat);
                    assert(before.push(part@) + tail =~= before + (seq![part@] + tail));
                }
                rest = behind;
                left -= 1;
            },
            None => {
                parts.push(rest);
                assert(texts(parts@) =~= before + seq![rest@]);
                return parts;
            },
        }
    }
    let ghost before = texts(parts@);
    parts.push(rest);
    assert(texts(parts@) =~= before + seq![rest@]);
    parts
}

/// A copy with every ASCII capital in lower case.
pub fn lowered_chars(text: &[char]) -> (result: Vec<char>)
    ensures
        result@ == lowered(text@),
{
    let mut result: Vec<char> = Vec::new();
    let mut i: usize = 0;
    while i < text.len()
        invariant
            i <= text.len(),
            result@ =~= lowered(text@.take(i as int)),
        decreases text.len() - i,
    {
        result.push(lower_char(text[i]));
        assert(text@.take(i + 1) =~= text@.take(i as int).push(text@[i as int]));
        i += 1;
    }
    assert(text@.take(i as int) =~= text@);
    result
}

} // verus!
