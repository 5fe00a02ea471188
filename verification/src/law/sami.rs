//! Captions in SAMI.
use crate::caption::cue::{track, BrowserCaptionError, Cue};
use crate::caption::smi::{
    attribute, decode_smi_entities, decoded_from, flattened, reference_at, smi_cues,
    smi_file_cues, smi_text, smi_track, start_of, strip_smi_markup, tag_close, tag_scan, Attribute,
    Tag, TagScan,
};
use crate::caption::{caption_to_webvtt, CaptionWebVttConversion};
use crate::law::captions::{
    is_plain, is_sidecar, is_without, lemma_plain_cue_text, lemma_sidecar, lemma_track_of, track_of,
    Caption,
};
use crate::law::clock::lemma_trim_nothing;
use crate::law::spoken::{lemma_joined_is_plain, lemma_two_lines};
use crate::number::{decimal_text, lemma_decimal_text, number};
use crate::text::{
    find_from, first_in, is_alpha, is_digit, lemma_find_from, lemma_first_in, lemma_occurs_char, lemma_run_is,
    lemma_tail_run_is, lowered, occurs_at, trim_end, trim_start, CharClass,
};
use vstd::prelude::*;
use vstd::utf8::encode_utf8;

verus! {

/// A synchronisation point: from when on it is shown, in milliseconds, and its
/// text.
pub struct Point {
    pub start: nat,
    pub text: Seq<char>,
}

/// The tag of a synchronisation point.
pub open spec fn sync_tag(start: nat) -> Seq<char> {
    "<SYNC Start="@ + decimal_text(start) + seq!['>']
}

/// Synchronisation points from the one at `k` on, one behind the other.
pub open spec fn points_text(points: Seq<Point>, k: int) -> Seq<char>
    decreases points.len() - k,
{
    if k < 0 || k >= points.len() {
        Seq::empty()
    } else {
        sync_tag(points[k].start) + points[k].text + points_text(points, k + 1)
    }
}

/// Points of plain text, one after the other.
pub open spec fn are_points(points: Seq<Point>) -> bool {
    &&& points.len() > 0
    &&& forall|k: int|
        0 <= k < points.len() ==> is_plain((#[trigger] points[k]).text) && points[k].start + 5_000
            <= u64::MAX
    &&& forall|j: int, k: int|
        0 <= j < k < points.len() ==> (#[trigger] points[j]).start < (#[trigger] points[k]).start
}

/// What the point at `k` says: it is shown until the next one, the last one for
/// five seconds.
pub open spec fn point_caption(points: Seq<Point>, k: int) -> Caption {
    Caption {
        start: points[k].start,
        end: if k + 1 < points.len() {
            points[k + 1].start
        } else {
            points[k].start + 5_000
        },
        text: points[k].text,
    }
}

// ---------------------------------------------------------------------- tags

proof fn lemma_find_open(s: Seq<char>, cursor: int, at: int)
    requires
        0 <= cursor <= at < s.len(),
        s[at] == '<',
        forall|i: int| cursor <= i < at ==> #[trigger] s[i] != '<',
    ensures
        find_from(s, seq!['<'], cursor) == Some(at),
{
    lemma_occurs_char(s, '<', at);
    assert forall|j: int| cursor <= j < at implies !occurs_at(s, seq!['<'], j) by {
        lemma_occurs_char(s, '<', j);
        assert(s[j] != '<');
    }
    lemma_find_from(s, seq!['<'], cursor);
}

proof fn lemma_no_tag(s: Seq<char>, cursor: int)
    requires
        0 <= cursor,
        forall|i: int| cursor <= i < s.len() ==> #[trigger] s[i] != '<',
    ensures
        tag_scan(s, cursor) is End,
{
    lemma_find_from(s, seq!['<'], cursor);
    if let Some(k) = find_from(s, seq!['<'], cursor) {
        lemma_occurs_char(s, '<', k);
        assert(s[k] != '<');
    }
}

proof fn lemma_tag_close(s: Seq<char>, i: int, k: int)
    requires
        0 <= i <= k < s.len(),
        s[k] == '>',
        forall|j: int| i <= j < k ==> #[trigger] s[j] != '>' && s[j] != '\'' && s[j] != '"',
    ensures
        tag_close(s, i, None) == Some(k),
    decreases k - i,
{
    if i < k {
        assert(s[i] != '>' && s[i] != '\'' && s[i] != '"');
        lemma_tag_close(s, i + 1, k);
    }
}

/// The characters of a point's tag.
proof fn lemma_sync_chars(start: nat)
    ensures
        ({
            let tag = sync_tag(start);
            let digits = decimal_text(start);
            let n = tag.len() as int;
            &&& n == digits.len() + 13
            &&& tag[0] == '<' && tag[1] == 'S' && tag[2] == 'Y' && tag[3] == 'N' && tag[4] == 'C'
            &&& tag[5] == ' '
            &&& tag[n - 1] == '>'
            &&& tag.subrange(1, 5) == seq!['S', 'Y', 'N', 'C']
            &&& tag.subrange(5, n - 1) == " Start="@ + digits
            &&& forall|i: int|
                5 <= i < n - 1 ==> #[trigger] tag[i] != '>' && tag[i] != '\'' && tag[i] != '"'
            &&& forall|i: int| 0 <= i < n ==> #[trigger] tag[i] != '\r' && tag[i] != '\0'
            &&& digits.len() > 0
            &&& is_digit(digits[digits.len() - 1])
        }),
{
    reveal_strlit("<SYNC Start=");
    reveal_strlit(" Start=");
    let tag = sync_tag(start);
    let digits = decimal_text(start);
    let n = tag.len() as int;
    lemma_decimal_text(start);
    assert("<SYNC Start="@.len() == 12);
    assert forall|i: int| 12 <= i < n - 1 implies is_digit(#[trigger] tag[i]) by {
        assert(tag[i] == digits[i - 12]);
    }
    assert forall|i: int| 0 <= i < 12 implies #[trigger] tag[i] == "<SYNC Start="@[i] by {}
    assert forall|i: int| 5 <= i < n - 1 implies #[trigger] tag[i] != '>' && tag[i] != '\'' && tag[i]
        != '"' by {
        if i >= 12 {
            assert(is_digit(tag[i]));
        } else {
            assert(tag[i] == "<SYNC Start="@[i]);
        }
    }
    assert forall|i: int| 0 <= i < n implies #[trigger] tag[i] != '\r' && tag[i] != '\0' by {
        if 12 <= i < n - 1 {
            assert(is_digit(tag[i]));
        } else if i < 12 {
            assert(tag[i] == "<SYNC Start="@[i]);
        }
    }
    assert(tag.subrange(1, 5) =~= seq!['S', 'Y', 'N', 'C']);
    assert(tag.subrange(5, n - 1) =~= " Start="@ + digits);
    assert(is_digit(digits[digits.len() - 1]));
}

/// The tag of a point is found where it stands.
proof fn lemma_sync_tag(s: Seq<char>, cursor: int, at: int, start: nat)
    requires
        0 <= cursor <= at,
        at + sync_tag(start).len() <= s.len(),
        s.subrange(at, at + sync_tag(start).len()) == sync_tag(start),
        forall|i: int| cursor <= i < at ==> #[trigger] s[i] != '<',
    ensures
        tag_scan(s, cursor) == TagScan::Found(
            Tag {
                start: at,
                end: at + sync_tag(start).len(),
                name: seq!['S', 'Y', 'N', 'C'],
                attributes: " Start="@ + decimal_text(start),
                closing: false,
            },
        ),
{
    let tag = sync_tag(start);
    let n = tag.len() as int;
    lemma_sync_chars(start);
    assert forall|i: int| 0 <= i < n implies #[trigger] tag[i] == s[at + i] by {
        assert(s.subrange(at, at + n)[i] == s[at + i]);
    }
    assert(s[at] == tag[0] && s[at + 1] == tag[1] && s[at + 2] == tag[2] && s[at + 3] == tag[3]
        && s[at + 4] == tag[4] && s[at + 5] == tag[5] && s[at + n - 1] == tag[n - 1]);
    lemma_find_open(s, cursor, at);
    let rest = s.skip(at + 1);
    assert(rest[0] == 'S' && rest[1] == 'Y' && rest[2] == 'N' && rest[3] == 'C' && rest[4] == ' ');
    lemma_run_is(rest, CharClass::Alphanumeric, 4);
    assert(!occurs_at(s, seq!['!', '-', '-'], at + 1)) by {
        if occurs_at(s, seq!['!', '-', '-'], at + 1) {
            assert(s.subrange(at + 1, at + 4)[0] == s[at + 1]);
        }
    }
    assert forall|j: int| at + 5 <= j < at + n - 1 implies #[trigger] s[j] != '>' && s[j] != '\''
        && s[j] != '"' by {
        assert(s[j] == tag[j - at]);
    }
    lemma_tag_close(s, at + 5, at + n - 1);
    assert(s.subrange(at + 1, at + 5) =~= tag.subrange(1, 5));
    let attributes = s.subrange(at + 5, at + n - 1);
    assert(attributes =~= tag.subrange(5, n - 1));
    let digits = decimal_text(start);
    assert(attributes.last() == digits[digits.len() - 1]);
    lemma_tail_run_is(attributes, CharClass::Slash, 0);
    assert(trim_end(attributes, CharClass::Slash) =~= attributes);
}

/// The start of a point is read from its tag.
proof fn lemma_start(start: nat)
    requires
        start <= u64::MAX,
    ensures
        start_of(" Start="@ + decimal_text(start), None) == Some(start as u64),
{
    reveal_strlit(" Start=");
    reveal_strlit("start");
    let digits = decimal_text(start);
    lemma_decimal_text(start);
    let s = " Start="@ + digits;
    let t = seq!['S', 't', 'a', 'r', 't', '='] + digits;
    assert(s[0] == ' ' && s[1] == 'S');
    lemma_run_is(s, CharClass::AsciiWhite, 1);
    assert(trim_start(s, CharClass::AsciiWhite) =~= t);
    lemma_first_in(t, CharClass::AsciiWhiteOrEquals);
    let n = first_in(t, CharClass::AsciiWhiteOrEquals) as int;
    assert(t[0] == 'S' && t[1] == 't' && t[2] == 'a' && t[3] == 'r' && t[4] == 't' && t[5] == '=');
    assert(CharClass::AsciiWhiteOrEquals.has(t[5]));
    assert(n == 5);
    let name = t.take(5);
    let rest = t.skip(5);
    assert(rest[0] == '=');
    lemma_run_is(rest, CharClass::AsciiWhite, 0);
    assert(trim_start(rest, CharClass::AsciiWhite) =~= rest);
    assert(rest.skip(1) =~= digits);
    assert(is_digit(digits[0]));
    lemma_run_is(digits, CharClass::AsciiWhite, 0);
    assert(trim_start(digits, CharClass::AsciiWhite) =~= digits);
    lemma_first_in(digits, CharClass::AsciiWhite);
    let k = first_in(digits, CharClass::AsciiWhite) as int;
    if k < digits.len() {
        assert(is_digit(digits[k]));
    }
    assert(digits.take(k) =~= digits);
    assert(digits.skip(k) =~= Seq::<char>::empty());
    assert(attribute(t) == Some(
        Attribute { name, value: Some(digits), tail: Seq::<char>::empty() },
    ));
    assert(lowered(name) =~= lowered("start"@));
    assert(number(digits) == Some(start as u64));
    let none = Seq::<char>::empty();
    lemma_run_is(none, CharClass::AsciiWhite, 0);
    assert(start_of(none, Some(start as u64)) == Some(start as u64));
}

// --------------------------------------------------------------------- texts

proof fn lemma_no_references(s: Seq<char>, i: int)
    requires
        0 <= i <= s.len(),
        is_without(s, '&'),
    ensures
        decoded_from(s, i) == s.skip(i),
    decreases s.len() - i,
{
    if i < s.len() {
        lemma_no_references(s, i + 1);
        assert(s[i] != '&');
        assert(reference_at(s, i) is None);
        assert(seq![s[i]] + s.skip(i + 1) =~= s.skip(i));
    } else {
        assert(s.skip(i) =~= Seq::<char>::empty());
    }
}

/// Plain text is shown as it is.
proof fn lemma_plain(text: Seq<char>)
    requires
        is_plain(text),
    ensures
        smi_text(text) == Some(text),
{
    assert forall|i: int| 0 <= i < text.len() implies #[trigger] text[i] != '<' by {}
    lemma_no_tag(text, 0);
    assert(Seq::<char>::empty() + text.skip(0) =~= text);
    assert(flattened(text, 0, Seq::empty()) == Some(text));
    assert(is_without(text, '&'));
    lemma_no_references(text, 0);
    assert(text.skip(0) =~= text);
    lemma_trim_nothing(text, CharClass::White);
    lemma_plain_cue_text(text);
}

// -------------------------------------------------------------------- points

/// The cue of the point at `k`.
spec fn cue_at(points: Seq<Point>, k: int) -> Cue {
    let caption = point_caption(points, k);
    Cue {
        start: caption.start as u64,
        end: caption.end as u64,
        settings: Seq::empty(),
        text: caption.text,
    }
}

/// The cues from the point at `k` on.
spec fn cues_from(points: Seq<Point>, k: int) -> Seq<Cue>
    decreases points.len() - k,
{
    if k < 0 || k >= points.len() {
        Seq::empty()
    } else {
        seq![cue_at(points, k)] + cues_from(points, k + 1)
    }
}

/// The cue of a text that is shown.
spec fn cue(start: nat, end: nat, text: Seq<char>) -> Cue {
    Cue { start: start as u64, end: end as u64, settings: Seq::empty(), text }
}

/// The text of a point ends where the tag of the next one begins.
proof fn lemma_next_point(
    s: Seq<char>,
    end: int,
    next: int,
    start: nat,
    after: nat,
    rest: Seq<Cue>,
)
    requires
        0 <= end <= next,
        next + sync_tag(after).len() <= s.len(),
        is_plain(s.subrange(end, next)),
        s.subrange(next, next + sync_tag(after).len()) == sync_tag(after),
        start < after <= u64::MAX,
        smi_cues(
            s,
            next + sync_tag(after).len(),
            Some(after as u64),
            next + sync_tag(after).len(),
        ) == Some(rest),
    ensures
        smi_cues(s, end, Some(start as u64), end) == Some(
            seq![cue(start, after, s.subrange(end, next))] + rest,
        ),
{
    let text = s.subrange(end, next);
    assert forall|i: int| end <= i < next implies #[trigger] s[i] != '<' by {
        assert(s[i] == text[i - end]);
    }
    lemma_plain(text);
    lemma_sync_tag(s, end, next, after);
    lemma_start(after);
    reveal_strlit("sync");
    assert(lowered(seq!['S', 'Y', 'N', 'C']) =~= lowered("sync"@));
}

/// The text of the last point ends where the file does.
proof fn lemma_last_point(s: Seq<char>, end: int, start: nat)
    requires
        0 <= end <= s.len(),
        is_plain(s.skip(end)),
        start + 5_000 <= u64::MAX,
    ensures
        smi_cues(s, end, Some(start as u64), end) == Some(
            seq![cue(start, start + 5_000, s.skip(end))],
        ),
{
    let text = s.skip(end);
    assert forall|i: int| end <= i < s.len() implies #[trigger] s[i] != '<' by {
        assert(s[i] == text[i - end]);
    }
    lemma_plain(text);
    lemma_no_tag(s, end);
}

/// Behind the tag of a point come its text and the points after it.
proof fn lemma_points(before: Seq<char>, points: Seq<Point>, k: int)
    requires
        are_points(points),
        0 <= k < points.len(),
    ensures
        ({
            let s = before + points_text(points, k);
            let end = before.len() + sync_tag(points[k].start).len();
            smi_cues(s, end as int, Some(points[k].start as u64), end as int) == Some(
                cues_from(points, k),
            )
        }),
    decreases points.len() - k,
{
    let point = points[k];
    let tag = sync_tag(point.start);
    let rest = points_text(points, k + 1);
    let s = before + points_text(points, k);
    let end = (before.len() + tag.len()) as int;
    let next = end + point.text.len();
    let head = before + tag + point.text;
    assert(is_plain(points[k].text));
    assert(points_text(points, k) == tag + point.text + rest);
    assert(s =~= head + rest);
    assert(head.len() == next);
    if k + 1 < points.len() {
        let after = points[k + 1];
        let more = sync_tag(after.start);
        assert(is_plain(points[k + 1].text));
        assert(points[k].start < points[k + 1].start);
        lemma_points(head, points, k + 1);
        lemma_texts_of_points(s, before, tag, point.text, rest);
        assert(rest == more + after.text + points_text(points, k + 2));
        assert(rest.take(more.len() as int) =~= more);
        assert(s.subrange(next, next + more.len()) =~= rest.take(more.len() as int));
        lemma_next_point(s, end, next, point.start, after.start, cues_from(points, k + 1));
    } else {
        assert(rest =~= Seq::<char>::empty());
        assert(s.skip(end) =~= point.text);
        lemma_last_point(s, end, point.start);
        assert(cues_from(points, k + 1) =~= Seq::<Cue>::empty());
        assert(cues_from(points, k) =~= seq![cue_at(points, k)]);
    }
}

proof fn lemma_texts_of_points(
    s: Seq<char>,
    before: Seq<char>,
    tag: Seq<char>,
    text: Seq<char>,
    rest: Seq<char>,
)
    requires
        s == before + tag + text + rest,
    ensures
        s.subrange(
            (before.len() + tag.len()) as int,
            (before.len() + tag.len() + text.len()) as int,
        ) == text,
{
    assert(s.subrange(
        (before.len() + tag.len()) as int,
        (before.len() + tag.len() + text.len()) as int,
    ) =~= text);
}

proof fn lemma_file(points: Seq<Point>)
    requires
        are_points(points),
    ensures
        smi_file_cues(points_text(points, 0)) == Some(cues_from(points, 0)),
{
    let s = points_text(points, 0);
    let tag = sync_tag(points[0].start);
    assert(is_plain(points[0].text));
    assert(s.subrange(0, tag.len() as int) =~= tag);
    lemma_sync_tag(s, 0, 0, points[0].start);
    lemma_start(points[0].start);
    lemma_points(Seq::empty(), points, 0);
    assert(Seq::<char>::empty() + s =~= s);
    reveal_strlit("sync");
    assert(lowered(seq!['S', 'Y', 'N', 'C']) =~= lowered("sync"@));
}

proof fn lemma_cues_from(points: Seq<Point>, k: int)
    requires
        0 <= k <= points.len(),
    ensures
        cues_from(points, k).len() == points.len() - k,
        forall|i: int|
            0 <= i < points.len() - k ==> #[trigger] cues_from(points, k)[i] == cue_at(
                points,
                k + i,
            ),
    decreases points.len() - k,
{
    if k < points.len() {
        lemma_cues_from(points, k + 1);
        let all = cues_from(points, k);
        assert forall|i: int| 0 <= i < points.len() - k implies #[trigger] all[i] == cue_at(
            points,
            k + i,
        ) by {
            if i > 0 {
                assert(all[i] == cues_from(points, k + 1)[i - 1]);
            }
        }
    }
}

proof fn lemma_points_chars(points: Seq<Point>, k: int)
    requires
        are_points(points),
        0 <= k <= points.len(),
    ensures
        is_without(points_text(points, k), '\r'),
        is_without(points_text(points, k), '\0'),
        k < points.len() ==> points_text(points, k).len() > 0 && points_text(points, k)[0] == '<',
    decreases points.len() - k,
{
    if k < points.len() {
        let tag = sync_tag(points[k].start);
        let text = points[k].text;
        let rest = points_text(points, k + 1);
        let all = points_text(points, k);
        assert(is_plain(points[k].text));
        lemma_sync_chars(points[k].start);
        lemma_points_chars(points, k + 1);
        let (a, b) = (tag.len() as int, (tag + text).len() as int);
        assert forall|i: int| 0 <= i < all.len() implies #[trigger] all[i] != '\r' && all[i]
            != '\0' by {
            if i < a {
                assert(all[i] == tag[i]);
            } else if i < b {
                assert(all[i] == text[i - a]);
            } else {
                assert(all[i] == rest[i - b]);
            }
        }
        assert(all[0] == tag[0]);
    }
}

/// A SAMI file becomes the track of exactly its synchronisation points, in order:
/// each is shown from its start until the next one, and the last for five seconds.
pub proof fn law_sami_files_become_their_captions(
    points: Seq<Point>,
    body: &[u8],
    result: Result<Vec<u8>, BrowserCaptionError>,
)
    requires
        call_ensures(caption_to_webvtt, (CaptionWebVttConversion::SamiToWebVtt, body), result),
        are_points(points),
        is_sidecar(body@, points_text(points, 0)),
        ({
            let captions = Seq::new(points.len(), |k: int| point_caption(points, k));
            encode_utf8(track_of(captions)).len() <= 6 * 8_388_608
        }),
    ensures
        result is Ok,
        result->Ok_0@ == encode_utf8(
            track_of(Seq::new(points.len(), |k: int| point_caption(points, k))),
        ),
{
    let text = points_text(points, 0);
    let captions = Seq::new(points.len(), |k: int| point_caption(points, k));
    let cues = cues_from(points, 0);
    lemma_points_chars(points, 0);
    lemma_sidecar(body@, text);
    lemma_file(points);
    lemma_cues_from(points, 0);
    assert forall|i: int| 0 <= i < cues.len() implies {
        &&& (#[trigger] cues[i]).start == captions[i].start
        &&& cues[i].end == captions[i].end
        &&& cues[i].text == captions[i].text
        &&& cues[i].settings.len() == 0
    } by {
        assert(cues[i] == cue_at(points, i));
        assert(is_plain(points[i].text));
        if i + 1 < points.len() {
            assert(is_plain(points[i + 1].text));
        }
    }
    lemma_track_of(captions, cues);
    assert(smi_track(text) == Some(track(cues)));
}

// ------------------------------------------------------------------ entities

/// Text without references stays as it is.
pub proof fn law_plain_text_has_no_references(text: &str, decoded: String)
    requires
        call_ensures(decode_smi_entities, (text,), decoded),
        is_without(text@, '&'),
    ensures
        decoded@ == text@,
{
    lemma_no_references(text@, 0);
    assert(text@.skip(0) =~= text@);
}

/// A reference between other text becomes the character that it names, and nothing
/// around it changes.
pub proof fn law_references_become_their_characters(
    text: &str,
    a: Seq<char>,
    name: Seq<char>,
    b: Seq<char>,
    decoded: String,
)
    requires
        call_ensures(decode_smi_entities, (text,), decoded),
        text@ == a + seq!['&'] + name + seq![';'] + b,
        is_without(a, '&'),
        is_without(b, '&'),
    ensures
        name == "amp"@ ==> decoded@ == a + seq!['&'] + b,
        name == "lt"@ ==> decoded@ == a + seq!['<'] + b,
        name == "gt"@ ==> decoded@ == a + seq!['>'] + b,
        name == "quot"@ ==> decoded@ == a + seq!['"'] + b,
        name == "apos"@ ==> decoded@ == a + seq!['\''] + b,
        name == "nbsp"@ ==> decoded@ == a + seq!['\u{a0}'] + b,
{
    reveal_strlit("amp");
    reveal_strlit("AMP");
    reveal_strlit("lt");
    reveal_strlit("LT");
    reveal_strlit("gt");
    reveal_strlit("GT");
    reveal_strlit("quot");
    reveal_strlit("QUOT");
    reveal_strlit("apos");
    reveal_strlit("nbsp");
    assert("amp"@[0] == 'a' && "AMP"@[0] == 'A' && "lt"@[0] == 'l' && "LT"@[0] == 'L');
    assert("gt"@[0] == 'g' && "GT"@[0] == 'G' && "quot"@[0] == 'q' && "QUOT"@[0] == 'Q');
    assert("apos"@[0] == 'a' && "nbsp"@[0] == 'n' && "amp"@.len() == 3 && "apos"@.len() == 4);
    if name == "amp"@ || name == "lt"@ || name == "gt"@ || name == "quot"@ || name == "apos"@ || name
        == "nbsp"@ {
        assert(is_without(name, ';'));
        lemma_reference(text@, a, name, b);
    }
}

proof fn lemma_reference(s: Seq<char>, a: Seq<char>, name: Seq<char>, b: Seq<char>)
    requires
        s == a + seq!['&'] + name + seq![';'] + b,
        is_without(a, '&'),
        is_without(b, '&'),
        is_without(name, ';'),
        name.len() < 31,
        crate::caption::smi::entity_char(name) is Some,
    ensures
        decoded_from(s, 0) == a + seq![crate::caption::smi::entity_char(name)->0] + b,
{
    let at = a.len() as int;
    let k = at + 1 + name.len();
    let c = crate::caption::smi::entity_char(name)->0;
    assert(s[at] == '&');
    assert(s[k] == ';');
    assert(s.subrange(at + 1, k) =~= name);
    assert forall|j: int| at <= j < k implies #[trigger] s[j] != ';' by {
        if j > at {
            assert(s.subrange(at + 1, k)[j - at - 1] == s[j]);
        }
    }
    lemma_reference_at(s, at, k);
    assert(s.skip(k + 1) =~= b);
    lemma_rest(s, k + 1, b);
    assert(decoded_from(s, at) == seq![c] + b);
    assert(s.take(at) =~= a);
    lemma_front(s, a, 0);
    assert(a.skip(0) =~= a);
    assert(a + (seq![c] + b) =~= a + seq![c] + b);
}

proof fn lemma_reference_at(s: Seq<char>, at: int, k: int)
    requires
        0 <= at < k < s.len(),
        k - at < 32,
        s[at] == '&',
        s[k] == ';',
        forall|j: int| at <= j < k ==> #[trigger] s[j] != ';',
        crate::caption::smi::entity_char(s.subrange(at + 1, k)) is Some,
    ensures
        reference_at(s, at) == Some(
            (crate::caption::smi::entity_char(s.subrange(at + 1, k))->0, k + 1),
        ),
{
    assert forall|j: int| at <= j < k implies !occurs_at(s, seq![';'], j) by {
        lemma_occurs_char(s, ';', j);
        assert(s[j] != ';');
    }
    lemma_occurs_char(s, ';', k);
    lemma_find_from(s, seq![';'], at);
}

proof fn lemma_rest(s: Seq<char>, i: int, b: Seq<char>)
    requires
        0 <= i <= s.len(),
        s.skip(i) == b,
        is_without(b, '&'),
    ensures
        decoded_from(s, i) == b,
    decreases s.len() - i,
{
    if i < s.len() {
        assert(b[0] == s[i]);
        let rest = b.skip(1);
        assert(s.skip(i + 1) =~= rest);
        assert forall|j: int| 0 <= j < rest.len() implies #[trigger] rest[j] != '&' by {
            assert(rest[j] == b[j + 1]);
        }
        lemma_rest(s, i + 1, rest);
        assert(reference_at(s, i) is None);
        assert(seq![s[i]] + rest =~= b);
    } else {
        assert(b =~= Seq::<char>::empty());
    }
}

proof fn lemma_front(s: Seq<char>, a: Seq<char>, i: int)
    requires
        0 <= i <= a.len() <= s.len(),
        s.take(a.len() as int) == a,
        is_without(a, '&'),
    ensures
        decoded_from(s, i) == a.skip(i) + decoded_from(s, a.len() as int),
    decreases a.len() - i,
{
    if i < a.len() {
        lemma_front(s, a, i + 1);
        assert(s.take(a.len() as int)[i] == s[i]);
        assert(a[i] != '&');
        assert(reference_at(s, i) is None);
        assert(seq![s[i]] + (a.skip(i + 1) + decoded_from(s, a.len() as int)) =~= a.skip(i)
            + decoded_from(s, a.len() as int));
    } else {
        assert(a.skip(i) + decoded_from(s, a.len() as int) =~= decoded_from(s, a.len() as int));
    }
}

// -------------------------------------------------------------------- markup

/// A tag of letters alone is found where it stands.
proof fn lemma_simple_tag(s: Seq<char>, at: int, name: Seq<char>)
    requires
        0 <= at,
        name.len() > 0,
        forall|i: int| 0 <= i < name.len() ==> is_alpha(#[trigger] name[i]),
        at + name.len() + 2 <= s.len(),
        s.subrange(at, at + name.len() + 2) == seq!['<'] + name + seq!['>'],
        forall|i: int| 0 <= i < at ==> #[trigger] s[i] != '<',
    ensures
        tag_scan(s, 0) == TagScan::Found(
            Tag {
                start: at,
                end: at + name.len() + 2,
                name,
                attributes: Seq::empty(),
                closing: false,
            },
        ),
{
    let n = name.len() as int;
    let tag = seq!['<'] + name + seq!['>'];
    assert forall|i: int| 0 <= i < n + 2 implies s[at + i] == #[trigger] tag[i] by {
        assert(s.subrange(at, at + n + 2)[i] == s[at + i]);
    }
    assert(s[at] == tag[0] && s[at + n + 1] == tag[n + 1]);
    assert forall|i: int| 0 <= i < n implies s[at + 1 + i] == #[trigger] name[i] by {
        assert(tag[1 + i] == name[i]);
    }
    assert(is_alpha(name[0]) && s[at + 1] == name[0]);
    lemma_find_open(s, 0, at);
    let rest = s.skip(at + 1);
    assert forall|i: int| 0 <= i < n implies CharClass::Alphanumeric.has(#[trigger] rest[i]) by {
        assert(rest[i] == name[i]);
        assert(is_alpha(name[i]));
    }
    assert(rest[n] == '>');
    lemma_run_is(rest, CharClass::Alphanumeric, n);
    assert(!occurs_at(s, seq!['!', '-', '-'], at + 1)) by {
        if occurs_at(s, seq!['!', '-', '-'], at + 1) {
            assert(s.subrange(at + 1, at + 4)[0] == s[at + 1]);
        }
    }
    lemma_tag_close(s, at + 1 + n, at + 1 + n);
    assert(s.subrange(at + 1, at + 1 + n) =~= name);
    let none = s.subrange(at + 1 + n, at + 1 + n);
    assert(none =~= Seq::<char>::empty());
    lemma_tail_run_is(none, CharClass::Slash, 0);
    assert(trim_end(none, CharClass::Slash) =~= none);
}

proof fn lemma_flat(s: Seq<char>, a: Seq<char>, name: Seq<char>, b: Seq<char>)
    requires
        is_plain(a),
        is_plain(b),
        name.len() > 0,
        forall|i: int| 0 <= i < name.len() ==> is_alpha(#[trigger] name[i]),
        s == a + (seq!['<'] + name + seq!['>']) + b,
    ensures
        flattened(s, 0, Seq::empty()) == Some(
            if lowered(name) == lowered("br"@) || lowered(name) == lowered("p"@) {
                a + seq!['\n'] + b
            } else {
                a + b
            },
        ),
{
    let tag = seq!['<'] + name + seq!['>'];
    let at = a.len() as int;
    let end = at + tag.len();
    assert(s.subrange(at, end) =~= tag);
    assert forall|i: int| 0 <= i < at implies #[trigger] s[i] != '<' by {
        assert(s[i] == a[i]);
    }
    lemma_simple_tag(s, at, name);
    assert forall|i: int| end <= i < s.len() implies #[trigger] s[i] != '<' by {
        assert(s[i] == b[i - end]);
    }
    lemma_no_tag(s, end);
    assert(s.skip(end) =~= b);
    assert(Seq::<char>::empty() + s.subrange(0, at) =~= a);
    assert(a.push('\n') =~= a + seq!['\n']);
    assert(a[a.len() - 1] != '\n' && a.last() == a[a.len() - 1]);
    reveal_with_fuel(flattened, 2);
}

/// A tag within a text is left out; one that breaks a line, or begins a paragraph,
/// breaks it.
pub proof fn law_tags_are_left_out(
    value: &[char],
    a: Seq<char>,
    name: Seq<char>,
    b: Seq<char>,
    result: Result<Vec<char>, BrowserCaptionError>,
)
    requires
        call_ensures(strip_smi_markup, (value,), result),
        is_plain(a),
        is_plain(b),
        name.len() > 0,
        forall|i: int| 0 <= i < name.len() ==> is_alpha(#[trigger] name[i]),
        value@ == a + (seq!['<'] + name + seq!['>']) + b,
    ensures
        result is Ok,
        lowered(name) == "br"@ || lowered(name) == "p"@ ==> result->Ok_0@ == a + seq!['\n'] + b,
        lowered(name) != "br"@ && lowered(name) != "p"@ ==> result->Ok_0@ == a + b,
{
    lemma_flat(value@, a, name, b);
    reveal_strlit("br");
    reveal_strlit("p");
    assert(lowered("br"@) =~= "br"@);
    assert(lowered("p"@) =~= "p"@);
    let broken = lowered(name) == "br"@ || lowered(name) == "p"@;
    let flat = if broken {
        a + seq!['\n'] + b
    } else {
        a + b
    };
    assert(flat[0] == a[0] && flat.last() == b.last());
    assert forall|i: int| 0 <= i < flat.len() implies #[trigger] flat[i] != '&' by {
        if i < a.len() {
            assert(flat[i] == a[i]);
        } else if broken && i > a.len() {
            assert(flat[i] == b[i - a.len() - 1]);
        } else if !broken {
            assert(flat[i] == b[i - a.len()]);
        }
    }
    lemma_no_references(flat, 0);
    assert(flat.skip(0) =~= flat);
    lemma_trim_nothing(flat, CharClass::White);
    if broken {
        lemma_two_lines(a, b);
        lemma_plain_cue_text(a);
        lemma_plain_cue_text(b);
    } else {
        lemma_joined_is_plain(a, Seq::empty(), b);
        assert(a + Seq::<char>::empty() + b =~= a + b);
    }
}

} // verus!
