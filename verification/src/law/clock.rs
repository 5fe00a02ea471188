//! Numbers and times in text.
use crate::caption::time::{
    ass_clock, ass_time, caption_time, lemma_clock_fields, lemma_clock_seconds, lemma_clock_sum,
    millis_vtt, parse_caption_time,
};
use crate::number::{
    all_digits, ascii_number, decimal_chars, decimal_text, decimal_value, lemma_decimal_text,
    lemma_padded, padded, padded_chars, signed_chars,
};
use crate::text::{
    find, is_digit, lemma_find_char, lemma_run_is, lemma_split_head_char, lemma_split_whole_char,
    lemma_tail_run_is, split, trim, CharClass,
};
use vstd::prelude::*;

verus! {

/// A digit more makes a number ten times as large, and adds the digit.
pub proof fn law_numbers_are_in_base_ten(
    digits: &[char],
    more: &[char],
    digit: char,
    n: u64,
    m: u64,
)
    requires
        call_ensures(ascii_number, (digits,), Some(n)),
        call_ensures(ascii_number, (more,), Some(m)),
        more@ == digits@.push(digit),
    ensures
        '0' <= digit <= '9',
        m == 10 * n + (digit as int - '0' as int),
{
    assert(more@.drop_last() =~= digits@);
    assert(is_digit(more@.last()));
}

/// A number that is written is read back, and is written without zeros before it; a
/// negative one has a minus sign before the digits of its size.
pub proof fn law_written_numbers_read_back(
    n: u64,
    text: Vec<char>,
    written: &[char],
    read: Option<u64>,
    signed: i64,
    signed_form: Vec<char>,
)
    requires
        call_ensures(decimal_chars, (n,), text),
        written@ == text@,
        call_ensures(ascii_number, (written,), read),
        call_ensures(signed_chars, (signed,), signed_form),
        signed == n || signed == -(n as int),
    ensures
        read == Some(n),
        n > 0 ==> text@[0] != '0',
        signed >= 0 ==> signed_form@ == text@,
        signed < 0 ==> signed_form@ == seq!['-'] + text@,
{
    lemma_decimal_text(n as nat);
}

/// A number that is filled up has the length asked for where it is short enough, and
/// nothing but zeros before its own digits.
pub proof fn law_numbers_are_filled_with_zeros(n: u64, width: usize, text: Vec<char>, own: Vec<char>)
    requires
        call_ensures(padded_chars, (n, width), text),
        call_ensures(decimal_chars, (n,), own),
    ensures
        own@.len() >= width ==> text@ == own@,
        own@.len() < width ==> text@.len() == width && text@.skip(width - own@.len()) == own@
            && forall|i: int| 0 <= i < width - own@.len() ==> #[trigger] text@[i] == '0',
{
    lemma_padded(n as nat, width as nat);
    if own@.len() < width {
        assert(text@.skip(width - own@.len()) =~= own@);
    } else {
        assert(text@ =~= own@);
    }
}

/// A digit alone is the number that it stands for; what is no row of digits is no
/// number.
pub proof fn law_digits_are_numbers(text: &[char], result: Option<u64>)
    requires
        call_ensures(ascii_number, (text,), result),
    ensures
        text@.len() == 0 ==> result is None,
        result is Some ==> forall|i: int| 0 <= i < text@.len() ==> '0' <= #[trigger] text@[i] <= '9',
        text@.len() == 1 && '0' <= text@[0] <= '9' ==> result == Some(
            (text@[0] as int - '0' as int) as u64,
        ),
{
    if text@.len() == 1 && '0' <= text@[0] <= '9' {
        reveal_with_fuel(decimal_value, 2);
        assert(text@.drop_last() =~= Seq::<char>::empty());
    }
    if result is Some {
        assert forall|i: int| 0 <= i < text@.len() implies '0' <= #[trigger] text@[i] <= '9' by {
            assert(is_digit(text@[i]));
        }
    }
}

/// `h:m:s.f`.
pub open spec fn clock_text(
    h: Seq<char>,
    m: Seq<char>,
    s: Seq<char>,
    mark: char,
    f: Seq<char>,
) -> Seq<char> {
    h + seq![':'] + (m + seq![':'] + (s + seq![mark] + f))
}

/// Two digits for a number below sixty.
pub open spec fn is_two_digits(s: Seq<char>) -> bool {
    s.len() == 2 && all_digits(s) && decimal_value(s) < 60
}

/// What begins and ends with something else than white space stays when white
/// space is cut off.
pub(crate) proof fn lemma_trim_nothing(s: Seq<char>, class: CharClass)
    requires
        s.len() > 0 ==> !class.has(s[0]) && !class.has(s.last()),
    ensures
        trim(s, class) == s,
{
    lemma_tail_run_is(s, class, 0);
    assert(s.take(s.len() as int) =~= s);
    lemma_run_is(s, class, 0);
    assert(s.skip(0) =~= s);
    assert(trim(s, class) =~= s);
}

/// A clock of digits is read as it stands in a SubStation Alpha file.
pub(crate) proof fn lemma_ass_clock(h: Seq<char>, m: Seq<char>, s: Seq<char>, f: Seq<char>)
    requires
        h.len() > 0 && all_digits(h),
        is_two_digits(m),
        is_two_digits(s),
        f.len() > 0 && all_digits(f),
    ensures
        ({
            let total = 3_600_000 * decimal_value(h) + 60_000 * decimal_value(m) + 1_000
                * decimal_value(s) + rounded(f);
            ass_clock(clock_text(h, m, s, '.', f)) == if total <= u64::MAX {
                Some(total as u64)
            } else {
                None
            }
        }),
{
    let value = clock_text(h, m, s, '.', f);
    assert(value[0] == h[0]);
    assert(is_digit(h[0]));
    assert(value.last() == f.last());
    assert(is_digit(f[f.len() - 1]));
    lemma_trim_nothing(value, CharClass::White);
    lemma_clock_fields(h, m, s, f);
    lemma_clock_seconds(s, f, false);
    lemma_rounded(f);
}

/// The milliseconds of a decimal fraction of a second, rounded half up at its
/// fourth digit.
pub open spec fn rounded(f: Seq<char>) -> nat {
    if f.len() == 1 {
        100 * decimal_value(f)
    } else if f.len() == 2 {
        10 * decimal_value(f)
    } else if f.len() == 3 {
        decimal_value(f)
    } else if f[3] >= '5' {
        decimal_value(f.take(3)) + 1
    } else {
        decimal_value(f.take(3))
    }
}

proof fn lemma_rounded(f: Seq<char>)
    requires
        f.len() > 0,
        all_digits(f),
    ensures
        crate::caption::time::fraction_millis(f) == rounded(f),
{
    reveal_with_fuel(decimal_value, 4);
    let g = if f.len() > 3 {
        f.take(3)
    } else {
        f
    };
    assert(is_digit(f[0]) && g[0] == f[0]);
    if f.len() >= 2 {
        assert(is_digit(f[1]) && g[1] == f[1]);
    }
    if f.len() >= 3 {
        assert(is_digit(f[2]) && g[2] == f[2]);
    }
    if f.len() >= 4 {
        assert(is_digit(f[3]));
    }
    if g.len() == 1 {
        assert(g.drop_last() =~= Seq::<char>::empty());
    } else if g.len() == 2 {
        assert(g.drop_last() =~= seq![g[0]]);
        assert(g.drop_last().drop_last() =~= Seq::<char>::empty());
    } else {
        assert(g.drop_last() =~= seq![g[0], g[1]]);
        assert(g.drop_last().drop_last() =~= seq![g[0]]);
        assert(g.drop_last().drop_last().drop_last() =~= Seq::<char>::empty());
    }
}

/// The time `h:m:s.f` of a SubStation Alpha file is that many hours, minutes and
/// seconds, and the fraction; hours never take anything from the minutes.
pub proof fn law_substation_times_add_up(
    value: &str,
    h: Seq<char>,
    m: Seq<char>,
    s: Seq<char>,
    f: Seq<char>,
    result: Option<u64>,
)
    requires
        call_ensures(ass_time, (value,), result),
        value@ == clock_text(h, m, s, '.', f),
        h.len() > 0 && all_digits(h),
        is_two_digits(m),
        is_two_digits(s),
        f.len() > 0 && all_digits(f),
    ensures
        ({
            let total = 3_600_000 * decimal_value(h) + 60_000 * decimal_value(m) + 1_000
                * decimal_value(s) + rounded(f);
            result == if total <= u64::MAX {
                Some(total as u64)
            } else {
                None
            }
        }),
{
    lemma_ass_clock(h, m, s, f);
}

/// Hundredths of a second as a SubStation Alpha file writes them: `H:MM:SS.cc`.
pub open spec fn substation_stamp(hundredths: nat) -> Seq<char> {
    clock_text(
        decimal_text(hundredths / 360_000),
        padded((hundredths / 6_000) % 60, 2),
        padded((hundredths / 100) % 60, 2),
        '.',
        padded(hundredths % 100, 2),
    )
}

pub(crate) proof fn lemma_substation_stamp(hundredths: nat)
    requires
        10 * hundredths <= u64::MAX,
    ensures
        ass_clock(substation_stamp(hundredths)) == Some((10 * hundredths) as u64),
{
    let n = hundredths;
    lemma_decimal_text(n / 360_000);
    lemma_padded((n / 6_000) % 60, 2);
    lemma_padded((n / 100) % 60, 2);
    lemma_padded(n % 100, 2);
    lemma_clock_sum(10 * n);
    assert((10 * n) / 3_600_000 == n / 360_000);
    assert((10 * n) / 60_000 == n / 6_000);
    assert((10 * n) / 1_000 == n / 100);
    assert((10 * n) % 1_000 == 10 * (n % 100));
    lemma_ass_clock(
        decimal_text(n / 360_000),
        padded((n / 6_000) % 60, 2),
        padded((n / 100) % 60, 2),
        padded(n % 100, 2),
    );
}

/// Every time that a SubStation Alpha file can write, in hundredths of a second,
/// reads back to itself.
pub proof fn law_substation_times_read_back(value: &str, hundredths: nat, result: Option<u64>)
    requires
        call_ensures(ass_time, (value,), result),
        value@ == substation_stamp(hundredths),
        10 * hundredths <= u64::MAX,
    ensures
        result == Some((10 * hundredths) as u64),
{
    lemma_substation_stamp(hundredths);
}

/// A clock of digits is read as it stands in SubRip and WebVTT.
pub(crate) proof fn lemma_caption_time(
    h: Seq<char>,
    m: Seq<char>,
    s: Seq<char>,
    mark: char,
    f: Seq<char>,
    subrip: bool,
)
    requires
        h.len() >= 2 && all_digits(h),
        is_two_digits(m),
        is_two_digits(s),
        f.len() == 3 && all_digits(f),
        mark == '.' || (mark == ',' && subrip),
    ensures
        ({
            let total = 3_600_000 * decimal_value(h) + 60_000 * decimal_value(m) + 1_000
                * decimal_value(s) + decimal_value(f);
            caption_time(clock_text(h, m, s, mark, f), subrip) == if total <= u64::MAX {
                Some(total as u64)
            } else {
                None
            }
        }),
{
    let last = s + seq![mark] + f;
    lemma_fields(h, m, last);
    lemma_mark(s, mark, f);
}

/// The fields of a clock come apart at the colons.
proof fn lemma_fields(h: Seq<char>, m: Seq<char>, last: Seq<char>)
    requires
        all_digits(h),
        all_digits(m),
        forall|i: int| 0 <= i < last.len() ==> last[i] != ':',
    ensures
        split(h + seq![':'] + (m + seq![':'] + last), seq![':']) == seq![h, m, last],
        split(m + seq![':'] + last, seq![':']) == seq![m, last],
{
    assert forall|i: int| 0 <= i < h.len() implies h[i] != ':' by {
        assert(is_digit(h[i]));
    }
    assert forall|i: int| 0 <= i < m.len() implies m[i] != ':' by {
        assert(is_digit(m[i]));
    }
    lemma_split_head_char(h, ':', m + seq![':'] + last);
    lemma_split_head_char(m, ':', last);
    lemma_split_whole_char(last, ':');
    assert(seq![m] + seq![last] =~= seq![m, last]);
    assert(seq![h] + (seq![m] + seq![last]) =~= seq![h, m, last]);
}

/// Seconds and their fraction come apart at the mark between them.
proof fn lemma_mark(s: Seq<char>, mark: char, f: Seq<char>)
    requires
        all_digits(s),
        all_digits(f),
        mark == '.' || mark == ',',
    ensures
        find(s + seq![mark] + f, seq![mark]) == Some(s.len() as int),
        mark == ',' ==> find(s + seq![mark] + f, seq!['.']) is None,
        (s + seq![mark] + f).take(s.len() as int) == s,
        (s + seq![mark] + f).skip(s.len() as int + 1) == f,
        forall|i: int| 0 <= i < (s + seq![mark] + f).len() ==> (s + seq![mark] + f)[i] != ':',
{
    let all = s + seq![mark] + f;
    assert forall|i: int| 0 <= i < s.len() implies s[i] != mark by {
        assert(is_digit(s[i]));
    }
    lemma_find_char(s, mark, f);
    assert forall|i: int| 0 <= i < all.len() implies all[i] != ':' && (mark == ',' ==> all[i]
        != '.') by {
        if i < s.len() {
            assert(is_digit(s[i]));
        } else if i > s.len() {
            assert(is_digit(f[i - s.len() - 1]));
        }
    }
    if mark == ',' {
        lemma_split_whole_char(all, '.');
    }
    assert(all.take(s.len() as int) =~= s);
    assert(all.skip(s.len() as int + 1) =~= f);
}

/// The time `hh:mm:ss.mmm` of a WebVTT file, or `hh:mm:ss,mmm` of a SubRip file,
/// is that many hours, minutes, seconds and milliseconds.
pub proof fn law_caption_times_add_up(
    value: &str,
    h: Seq<char>,
    m: Seq<char>,
    s: Seq<char>,
    mark: char,
    f: Seq<char>,
    subrip: bool,
    result: Option<u64>,
)
    requires
        call_ensures(parse_caption_time, (value, subrip), result),
        value@ == clock_text(h, m, s, mark, f),
        h.len() >= 2 && all_digits(h),
        is_two_digits(m),
        is_two_digits(s),
        f.len() == 3 && all_digits(f),
        mark == '.' || (mark == ',' && subrip),
    ensures
        ({
            let total = 3_600_000 * decimal_value(h) + 60_000 * decimal_value(m) + 1_000
                * decimal_value(s) + decimal_value(f);
            result == if total <= u64::MAX {
                Some(total as u64)
            } else {
                None
            }
        }),
{
    lemma_caption_time(h, m, s, mark, f, subrip);
}

/// Hours may be left out: `mm:ss.mmm` is what `00:mm:ss.mmm` is.
pub proof fn law_hours_may_be_left_out(
    short: &str,
    m: Seq<char>,
    s: Seq<char>,
    mark: char,
    f: Seq<char>,
    subrip: bool,
    result: Option<u64>,
)
    requires
        call_ensures(parse_caption_time, (short, subrip), result),
        short@ == m + seq![':'] + (s + seq![mark] + f),
        is_two_digits(m),
        is_two_digits(s),
        f.len() == 3 && all_digits(f),
        mark == '.' || (mark == ',' && subrip),
    ensures
        result == Some(
            (60_000 * decimal_value(m) + 1_000 * decimal_value(s) + decimal_value(f)) as u64,
        ),
{
    let last = s + seq![mark] + f;
    lemma_mark(s, mark, f);
    lemma_fields(seq!['0', '0'], m, last);
    reveal_with_fuel(decimal_value, 4);
    assert(seq!['0', '0'].drop_last() =~= seq!['0']);
    assert(seq!['0'].drop_last() =~= Seq::<char>::empty());
    assert(decimal_value(seq!['0', '0']) == 0);
    assert(is_digit(f[0]) && is_digit(f[1]) && is_digit(f[2]));
    assert(f.drop_last() =~= seq![f[0], f[1]]);
    assert(f.drop_last().drop_last() =~= seq![f[0]]);
    assert(f.drop_last().drop_last().drop_last() =~= Seq::<char>::empty());
    assert(decimal_value(f) < 1_000);
}

/// A WebVTT file with a comma before the milliseconds, sixty minutes or sixty
/// seconds has no time there.
pub proof fn law_other_times_are_refused(
    value: &str,
    h: Seq<char>,
    m: Seq<char>,
    s: Seq<char>,
    mark: char,
    f: Seq<char>,
    subrip: bool,
    result: Option<u64>,
)
    requires
        call_ensures(parse_caption_time, (value, subrip), result),
        value@ == clock_text(h, m, s, mark, f),
        all_digits(h) && all_digits(m) && all_digits(s) && all_digits(f),
        mark == '.' || mark == ',',
        (mark == ',' && !subrip) || h.len() < 2 || m.len() != 2 || s.len() != 2 || f.len() != 3
            || decimal_value(m) >= 60 || decimal_value(s) >= 60,
    ensures
        result is None,
{
    lemma_mark(s, mark, f);
    lemma_fields(h, m, s + seq![mark] + f);
}

/// Milliseconds as WebVTT writes them: `HH:MM:SS.mmm`.
pub open spec fn webvtt_stamp(millis: nat) -> Seq<char> {
    clock_text(
        padded(millis / 3_600_000, 2),
        padded((millis / 60_000) % 60, 2),
        padded((millis / 1_000) % 60, 2),
        '.',
        padded(millis % 1_000, 3),
    )
}

/// Milliseconds as SubRip writes them: `HH:MM:SS,mmm`.
pub open spec fn subrip_stamp(millis: nat) -> Seq<char> {
    clock_text(
        padded(millis / 3_600_000, 2),
        padded((millis / 60_000) % 60, 2),
        padded((millis / 1_000) % 60, 2),
        ',',
        padded(millis % 1_000, 3),
    )
}

pub(crate) proof fn lemma_subrip_stamp(millis: u64)
    ensures
        caption_time(subrip_stamp(millis as nat), true) == Some(millis),
{
    let n = millis as nat;
    lemma_padded(n / 3_600_000, 2);
    lemma_padded((n / 60_000) % 60, 2);
    lemma_padded((n / 1_000) % 60, 2);
    lemma_padded(n % 1_000, 3);
    lemma_clock_sum(n);
    lemma_caption_time(
        padded(n / 3_600_000, 2),
        padded((n / 60_000) % 60, 2),
        padded((n / 1_000) % 60, 2),
        ',',
        padded(n % 1_000, 3),
        true,
    );
}

/// Every time in milliseconds is written for WebVTT with two digits for hours,
/// minutes and seconds each and three for the rest, and reads back to itself, as
/// it does where SubRip writes it.
pub proof fn law_times_read_back(
    millis: u64,
    text: String,
    written: &str,
    subrip: &str,
    result: Option<u64>,
    other: Option<u64>,
)
    requires
        call_ensures(millis_vtt, (millis,), text),
        written@ == text@,
        call_ensures(parse_caption_time, (written, false), result),
        subrip@ == subrip_stamp(millis as nat),
        call_ensures(parse_caption_time, (subrip, true), other),
    ensures
        text@ == webvtt_stamp(millis as nat),
        result == Some(millis),
        other == Some(millis),
{
    crate::caption::time::law_time_round_trip(millis, false);
    lemma_subrip_stamp(millis);
}

} // verus!
