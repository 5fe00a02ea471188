//! Caption timestamps.
use crate::number::{
    all_digits, ascii_number, decimal_value, digit_value, is_all_digits, lemma_padded, padded,
    padded_chars,
};
use crate::text::{
    chars_of, find, index_of, is_digit, lemma_find_char, lemma_split_head_char,
    lemma_split_whole_char, split, split_text, texts, trim, trimmed, CharClass,
};
use vstd::prelude::*;
use vstd::slice::slice_subrange;

verus! {

/// A clock reading in milliseconds.
pub open spec fn clock(hours: nat, minutes: nat, seconds: nat, millis: nat) -> nat {
    hours * 3_600_000 + minutes * 60_000 + seconds * 1_000 + millis
}

/// Exactly two digits, for a number below sixty.
pub open spec fn is_sixty(s: Seq<char>) -> bool {
    s.len() == 2 && all_digits(s) && decimal_value(s) <= 59
}

/// A `u64`, where the number is one.
pub open spec fn as_u64(n: nat) -> Option<u64> {
    if n <= u64::MAX {
        Some(n as u64)
    } else {
        None
    }
}

/// Where the fraction of the seconds begins: at the first full stop, or in
/// SubRip, where there is none, at the first comma.
pub open spec fn fraction_mark(seconds: Seq<char>, subrip: bool) -> Option<int> {
    match find(seconds, seq!['.']) {
        Some(k) => Some(k),
        None => if subrip {
            find(seconds, seq![','])
        } else {
            None
        },
    }
}

/// The milliseconds that `MM:SS.mmm` or `H..HH:MM:SS.mmm` names; at least two
/// digits for the hours, two for minutes and seconds, three for the fraction.
pub open spec fn caption_time(value: Seq<char>, subrip: bool) -> Option<u64> {
    let parts = split(value, seq![':']);
    let n = parts.len() as int;
    if n != 2 && n != 3 {
        None
    } else {
        match fraction_mark(parts[n - 1], subrip) {
            Some(k) => {
                let hours = if n == 3 {
                    parts[0]
                } else {
                    seq!['0', '0']
                };
                let minutes = parts[n - 2];
                let seconds = parts[n - 1].take(k);
                let millis = parts[n - 1].skip(k + 1);
                if hours.len() >= 2 && all_digits(hours) && is_sixty(minutes) && is_sixty(seconds)
                    && millis.len() == 3 && all_digits(millis) {
                    as_u64(
                        clock(
                            decimal_value(hours),
                            decimal_value(minutes),
                            decimal_value(seconds),
                            decimal_value(millis),
                        ),
                    )
                } else {
                    None
                }
            },
            None => None,
        }
    }
}

/// The digit of a fraction at index `i`, zero behind its end.
pub open spec fn fraction_digit(fraction: Seq<char>, i: int) -> nat {
    if i < fraction.len() {
        digit_value(fraction[i])
    } else {
        0
    }
}

/// A decimal fraction of a second in milliseconds, rounded half up at the
/// fourth digit.
pub open spec fn fraction_millis(fraction: Seq<char>) -> nat {
    fraction_digit(fraction, 0) * 100 + fraction_digit(fraction, 1) * 10 + fraction_digit(
        fraction,
        2,
    ) + if fraction_digit(fraction, 3) >= 5 {
        1nat
    } else {
        0nat
    }
}

/// The milliseconds that `H..H:MM:SS.f..f` names, white space around it aside.
pub open spec fn ass_clock(value: Seq<char>) -> Option<u64> {
    let parts = split(trim(value, CharClass::White), seq![':']);
    if parts.len() != 3 {
        None
    } else {
        match find(parts[2], seq!['.']) {
            Some(k) => {
                let seconds = parts[2].take(k);
                let fraction = parts[2].skip(k + 1);
                if parts[0].len() > 0 && all_digits(parts[0]) && is_sixty(parts[1]) && is_sixty(
                    seconds,
                ) && fraction.len() > 0 && all_digits(fraction) {
                    as_u64(
                        clock(
                            decimal_value(parts[0]),
                            decimal_value(parts[1]),
                            decimal_value(seconds),
                            fraction_millis(fraction),
                        ),
                    )
                } else {
                    None
                }
            },
            None => None,
        }
    }
}

/// `HH:MM:SS.mmm`, with more digits for the hours where they need them.
pub open spec fn vtt_time(millis: nat) -> Seq<char> {
    padded(millis / 3_600_000, 2) + seq![':'] + (padded((millis / 60_000) % 60, 2) + seq![':'] + (
    padded((millis / 1_000) % 60, 2) + seq!['.'] + padded(millis % 1_000, 3)))
}

/// The number that two digits write.
pub(crate) fn two_digits(value: &[char]) -> (result: Option<u64>)
    ensures
        match result {
            Some(n) => value@.len() == 2 && all_digits(value@) && n == decimal_value(value@) && n
                <= 99,
            None => value@.len() != 2 || !all_digits(value@),
        },
{
    if value.len() != 2 {
        return None;
    }
    proof {
        reveal_with_fuel(decimal_value, 3);
    }
    ascii_number(value)
}

/// `hours:minutes:seconds.millis` in milliseconds, where that is a `u64`.
fn clock_millis(hours: u64, minutes: u64, seconds: u64, millis: u64) -> (result: Option<u64>)
    requires
        minutes <= 59,
        seconds <= 59,
        millis <= 1000,
    ensures
        result == as_u64(clock(hours as nat, minutes as nat, seconds as nat, millis as nat)),
{
    let whole: u64 = minutes * 60_000 + seconds * 1_000 + millis;
    match hours.checked_mul(3_600_000) {
        Some(base) => base.checked_add(whole),
        None => None,
    }
}

/// Parses a SubRip or WebVTT timestamp.
pub(crate) fn parse_caption_chars(value: &[char], subrip: bool) -> (result: Option<u64>)
    ensures
        result == caption_time(value@, subrip),
{
    let colon: [char; 1] = [':'];
    let stop: [char; 1] = ['.'];
    let comma: [char; 1] = [','];
    let parts = split_text(value, &colon);
    let n: usize = parts.len();
    proof {
        assert(colon@ =~= seq![':']);
        assert(stop@ =~= seq!['.']);
        assert(comma@ =~= seq![',']);
        assert(texts(parts@).len() == n);
        assert(forall|i: int| 0 <= i < n ==> #[trigger] texts(parts@)[i] == parts@[i]@);
    }
    if n != 2 && n != 3 {
        return None;
    }
    let last = parts[n - 1];
    assert(last@ == split(value@, seq![':'])[n - 1]);
    assert(parts@[n - 2]@ == split(value@, seq![':'])[n - 2]);
    let mark = match index_of(last, &stop) {
        Some(k) => Some(k),
        None => if subrip {
            index_of(last, &comma)
        } else {
            None
        },
    };
    let k: usize = match mark {
        Some(k) => k,
        None => {
            return None;
        },
    };
    proof {
        crate::text::lemma_find(last@, seq!['.']);
        crate::text::lemma_find(last@, seq![',']);
    }
    let len: usize = last.len();
    assert(k + 1 <= len);
    let seconds_text = slice_subrange(last, 0, k);
    let millis_text = slice_subrange(last, k + 1, len);
    proof {
        assert(seconds_text@ =~= last@.take(k as int));
        assert(millis_text@ =~= last@.skip(k + 1));
        reveal_with_fuel(decimal_value, 4);
    }
    let hours: Option<u64> = if n == 3 {
        assert(parts@[0]@ == split(value@, seq![':'])[0]);
        if parts[0].len() >= 2 {
            ascii_number(parts[0])
        } else {
            None
        }
    } else {
        proof {
            assert(seq!['0', '0'].drop_last() =~= seq!['0']);
            assert(seq!['0'].drop_last() =~= Seq::<char>::empty());
            assert(decimal_value(seq!['0', '0']) == 0);
        }
        Some(0)
    };
    let minutes = two_digits(parts[n - 2]);
    let seconds = two_digits(seconds_text);
    let millis = if millis_text.len() == 3 {
        ascii_number(millis_text)
    } else {
        None
    };
    match (hours, minutes, seconds, millis) {
        (Some(hours), Some(minutes), Some(seconds), Some(millis)) => {
            if minutes > 59 || seconds > 59 {
                None
            } else {
                clock_millis(hours, minutes, seconds, millis)
            }
        },
        _ => None,
    }
}

/// Parses a SubRip or WebVTT timestamp.
pub fn parse_caption_time(value: &str, subrip: bool) -> (result: Option<u64>)
    ensures
        result == caption_time(value@, subrip),
{
    let chars = chars_of(value);
    parse_caption_chars(&chars, subrip)
}

fn digit_at(fraction: &[char], i: usize) -> (digit: u64)
    requires
        all_digits(fraction@),
    ensures
        digit == fraction_digit(fraction@, i as int),
        digit <= 9,
{
    if i < fraction.len() {
        assert(crate::text::is_digit(fraction@[i as int]));
        (fraction[i] as u32 - 48) as u64
    } else {
        0
    }
}

/// Parses an Advanced SubStation Alpha timestamp.
pub(crate) fn ass_time_chars(value: &[char]) -> (result: Option<u64>)
    ensures
        result == ass_clock(value@),
{
    let colon: [char; 1] = [':'];
    let stop: [char; 1] = ['.'];
    let parts = split_text(trimmed(value, CharClass::White), &colon);
    proof {
        assert(colon@ =~= seq![':']);
        assert(stop@ =~= seq!['.']);
        assert(texts(parts@).len() == parts@.len());
        assert(forall|i: int| 0 <= i < parts@.len() ==> #[trigger] texts(parts@)[i] == parts@[i]@);
    }
    if parts.len() != 3 {
        return None;
    }
    assert(parts@[0]@ == texts(parts@)[0]);
    assert(parts@[1]@ == texts(parts@)[1]);
    assert(parts@[2]@ == texts(parts@)[2]);
    let last = parts[2];
    let k: usize = match index_of(last, &stop) {
        Some(k) => k,
        None => {
            return None;
        },
    };
    proof {
        crate::text::lemma_find(last@, seq!['.']);
    }
    let len: usize = last.len();
    assert(k + 1 <= len);
    let seconds_text = slice_subrange(last, 0, k);
    let fraction = slice_subrange(last, k + 1, len);
    proof {
        assert(seconds_text@ =~= last@.take(k as int));
        assert(fraction@ =~= last@.skip(k + 1));
    }
    if fraction.len() == 0 || !is_all_digits(fraction) {
        return None;
    }
    match (ascii_number(parts[0]), two_digits(parts[1]), two_digits(seconds_text)) {
        (Some(hours), Some(minutes), Some(seconds)) => {
            if minutes > 59 || seconds > 59 {
                return None;
            }
            let carry: u64 = if digit_at(fraction, 3) >= 5 {
                1
            } else {
                0
            };
            let millis: u64 = digit_at(fraction, 0) * 100 + digit_at(fraction, 1) * 10 + digit_at(
                fraction,
                2,
            ) + carry;
            clock_millis(hours, minutes, seconds, millis)
        },
        _ => None,
    }
}

/// Parses an Advanced SubStation Alpha timestamp.
pub fn ass_time(value: &str) -> (result: Option<u64>)
    ensures
        result == ass_clock(value@),
{
    let chars = chars_of(value);
    ass_time_chars(&chars)
}

/// Formats milliseconds as a WebVTT timestamp.
pub(crate) fn millis_vtt_chars(value: u64) -> (text: Vec<char>)
    ensures
        text@ == vtt_time(value as nat),
{
    let mut text = padded_chars(value / 3_600_000, 2);
    text.push(':');
    let mut minutes = padded_chars((value / 60_000) % 60, 2);
    text.append(&mut minutes);
    text.push(':');
    let mut seconds = padded_chars((value / 1_000) % 60, 2);
    text.append(&mut seconds);
    text.push('.');
    let mut millis = padded_chars(value % 1_000, 3);
    text.append(&mut millis);
    assert(text@ =~= vtt_time(value as nat));
    text
}

/// Formats milliseconds as a WebVTT timestamp.
pub fn millis_vtt(value: u64) -> (text: String)
    ensures
        text@ == vtt_time(value as nat),
{
    crate::encoding::string_of(&millis_vtt_chars(value))
}

/// The three fields of a clock come apart at the colons.
pub(crate) proof fn lemma_clock_fields(h: Seq<char>, m: Seq<char>, s: Seq<char>, f: Seq<char>)
    requires
        all_digits(h),
        all_digits(m),
        all_digits(s),
        all_digits(f),
    ensures
        split(h + seq![':'] + (m + seq![':'] + (s + seq!['.'] + f)), seq![':']) == seq![
            h,
            m,
            s + seq!['.'] + f,
        ],
{
    let last = s + seq!['.'] + f;
    assert forall|i: int| 0 <= i < last.len() implies last[i] != ':' by {
        if i < s.len() {
            assert(is_digit(s[i]));
        } else if i > s.len() {
            assert(is_digit(f[i - s.len() - 1]));
        }
    }
    assert forall|i: int| 0 <= i < h.len() implies h[i] != ':' by {
        assert(is_digit(h[i]));
    }
    assert forall|i: int| 0 <= i < m.len() implies m[i] != ':' by {
        assert(is_digit(m[i]));
    }
    lemma_split_head_char(h, ':', m + seq![':'] + last);
    lemma_split_head_char(m, ':', last);
    lemma_split_whole_char(last, ':');
    assert(seq![h] + (seq![m] + seq![last]) =~= seq![h, m, last]);
}

/// The seconds and their fraction come apart at the full stop.
pub(crate) proof fn lemma_clock_seconds(s: Seq<char>, f: Seq<char>, subrip: bool)
    requires
        all_digits(s),
    ensures
        fraction_mark(s + seq!['.'] + f, subrip) == Some(s.len() as int),
        (s + seq!['.'] + f).take(s.len() as int) == s,
        (s + seq!['.'] + f).skip(s.len() as int + 1) == f,
{
    assert forall|i: int| 0 <= i < s.len() implies s[i] != '.' by {
        assert(is_digit(s[i]));
    }
    lemma_find_char(s, '.', f);
    assert((s + seq!['.'] + f).take(s.len() as int) =~= s);
    assert((s + seq!['.'] + f).skip(s.len() as int + 1) =~= f);
}

/// A clock of digits reads as the number of its fields.
pub(crate) proof fn lemma_clock_text(h: Seq<char>, m: Seq<char>, s: Seq<char>, f: Seq<char>, subrip: bool)
    requires
        all_digits(h),
        h.len() >= 2,
        is_sixty(m),
        is_sixty(s),
        all_digits(f),
        f.len() == 3,
    ensures
        caption_time(h + seq![':'] + (m + seq![':'] + (s + seq!['.'] + f)), subrip) == as_u64(
            clock(decimal_value(h), decimal_value(m), decimal_value(s), decimal_value(f)),
        ),
{
    lemma_clock_fields(h, m, s, f);
    lemma_clock_seconds(s, f, subrip);
}

/// A number of milliseconds is that of its hours, minutes, seconds and rest.
pub(crate) proof fn lemma_clock_sum(n: nat)
    ensures
        clock(n / 3_600_000, (n / 60_000) % 60, (n / 1_000) % 60, n % 1_000) == n,
        (n / 60_000) % 60 <= 59,
        (n / 1_000) % 60 <= 59,
{
    let seconds = n / 1_000;
    let minutes = seconds / 60;
    vstd::arithmetic::div_mod::lemma_div_denominator(n as int, 1_000, 60);
    vstd::arithmetic::div_mod::lemma_div_denominator(n as int, 60_000, 60);
    assert(n / 60_000 == minutes);
    assert(n / 3_600_000 == minutes / 60);
    assert(n == seconds * 1_000 + n % 1_000);
    assert(seconds == minutes * 60 + seconds % 60);
    assert(minutes == (minutes / 60) * 60 + minutes % 60);
}

/// A timestamp that was formatted parses to the same milliseconds, in WebVTT
/// and in SubRip.
pub proof fn law_time_round_trip(millis: u64, subrip: bool)
    ensures
        caption_time(vtt_time(millis as nat), subrip) == Some(millis),
{
    let n = millis as nat;
    lemma_padded(n / 3_600_000, 2);
    lemma_padded((n / 60_000) % 60, 2);
    lemma_padded((n / 1_000) % 60, 2);
    lemma_padded(n % 1_000, 3);
    lemma_clock_sum(n);
    lemma_clock_text(
        padded(n / 3_600_000, 2),
        padded((n / 60_000) % 60, 2),
        padded((n / 1_000) % 60, 2),
        padded(n % 1_000, 3),
        subrip,
    );
}

} // verus!
