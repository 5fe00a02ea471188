//! Paths of the browser interface: item identifiers in them, and the paths that
//! are handed out.
use crate::encoding::string_of;
use crate::number::{
    all_digits, ascii_number, decimal_chars, decimal_text, decimal_value, lemma_decimal_text,
    signed_chars, signed_text,
};
use crate::query::{parse_unsigned, unsigned};
use crate::text::{
    append_chars, chars_of, is_at, is_digit, lemma_split_head_char,
    lemma_split_whole_char, occurs_at, split, split_text, starts_with, texts,
};
use vstd::prelude::*;
use vstd::slice::slice_subrange;

verus! {

/// How many hexadecimal digits name a set of preview sheets: those of 64 bits. It
/// has to be the length that the generator of previews writes.
pub const ASSET_REVISION_HEX_LEN: usize = 16;

/// The item that a canonical decimal number names: positive, no leading zeros.
pub open spec fn id_of(s: Seq<char>) -> Option<i64> {
    if s.len() > 0 && all_digits(s) && 0 < decimal_value(s) <= i64::MAX && decimal_text(
        decimal_value(s),
    ) == s {
        Some(decimal_value(s) as i64)
    } else {
        None
    }
}

/// What follows `prefix`.
pub open spec fn after(s: Seq<char>, prefix: Seq<char>) -> Option<Seq<char>> {
    if starts_with(s, prefix) {
        Some(s.skip(prefix.len() as int))
    } else {
        None
    }
}

/// `s` ends with `suffix`.
pub open spec fn ends_with(s: Seq<char>, suffix: Seq<char>) -> bool {
    occurs_at(s, suffix, s.len() - suffix.len())
}

/// What precedes `suffix`.
pub open spec fn before(s: Seq<char>, suffix: Seq<char>) -> Option<Seq<char>> {
    if ends_with(s, suffix) {
        Some(s.take(s.len() - suffix.len()))
    } else {
        None
    }
}

pub open spec fn id_in(s: Option<Seq<char>>) -> Option<i64> {
    match s {
        Some(s) => id_of(s),
        None => None,
    }
}

/// The item of a path under `prefix`.
pub open spec fn id_under(path: Seq<char>, prefix: Seq<char>) -> Option<i64> {
    id_in(after(path, prefix))
}

/// The item of a media path, whose name ends in `.mp4`, `.m3u8` or `.m4s`.
pub open spec fn media_id(path: Seq<char>) -> Option<i64> {
    match after(path, "/web/media/"@) {
        Some(name) => if ends_with(name, ".mp4"@) {
            id_in(before(name, ".mp4"@))
        } else if ends_with(name, ".m3u8"@) {
            id_in(before(name, ".m3u8"@))
        } else {
            id_in(before(name, ".m4s"@))
        },
        None => None,
    }
}

/// What a timeline preview request asks for.
pub enum Preview {
    Manifest(i64),
    Sheet { item_id: i64, revision: Seq<char>, index: u32 },
}

/// The sheet of a path such as `42/0123456789abcdef/3.jpg`.
pub open spec fn sheet_of(value: Seq<char>) -> Option<Preview> {
    let parts = split(value, seq!['/']);
    if parts.len() != 3 {
        None
    } else {
        match (id_of(parts[0]), before(parts[2], ".jpg"@)) {
            (Some(item_id), Some(number)) => match unsigned(number, u32::MAX as nat) {
                Some(index) => Some(
                    Preview::Sheet { item_id, revision: parts[1], index: index as u32 },
                ),
                None => None,
            },
            _ => None,
        }
    }
}

/// The preview that a path asks for.
pub open spec fn preview_of(path: Seq<char>) -> Option<Preview> {
    match after(path, "/api/web/preview/"@) {
        Some(value) => match id_of(value) {
            Some(id) => Some(Preview::Manifest(id)),
            None => None,
        },
        None => match after(path, "/web/preview/"@) {
            Some(value) => sheet_of(value),
            None => None,
        },
    }
}

/// Sixteen hexadecimal digits, letters in lower case.
pub open spec fn is_asset_revision(value: Seq<char>) -> bool {
    &&& value.len() == ASSET_REVISION_HEX_LEN
    &&& forall|i: int| 0 <= i < value.len() ==> is_digit(#[trigger] value[i]) || 'a' <= value[i] <= 'f'
}

fn id_of_chars(value: &[char]) -> (result: Option<i64>)
    ensures
        result == id_of(value@),
{
    match ascii_number(value) {
        Some(n) => if 0 < n && n <= i64::MAX as u64 {
            let canonical = decimal_chars(n);
            let same = canonical.len() == value.len() && is_at(value, &canonical, 0);
            proof {
                if canonical@.len() == value@.len() {
                    assert(value@.subrange(0, value@.len() as int) =~= value@);
                }
            }
            if same {
                Some(n as i64)
            } else {
                None
            }
        } else {
            None
        },
        None => None,
    }
}

/// The item that a canonical decimal number names.
pub fn decimal_id(value: &str) -> (result: Option<i64>)
    ensures
        result == id_of(value@),
{
    let chars = chars_of(value);
    id_of_chars(&chars)
}

/// What follows `prefix`.
pub fn strip_prefix<'a>(text: &'a [char], prefix: &str) -> (result: Option<&'a [char]>)
    ensures
        match result {
            Some(rest) => after(text@, prefix@) == Some(rest@),
            None => after(text@, prefix@) is None,
        },
{
    let part = chars_of(prefix);
    if is_at(text, &part, 0) {
        let rest = slice_subrange(text, part.len(), text.len());
        assert(rest@ =~= text@.skip(prefix@.len() as int));
        Some(rest)
    } else {
        None
    }
}

/// What precedes `suffix`.
pub fn strip_suffix<'a>(text: &'a [char], suffix: &str) -> (result: Option<&'a [char]>)
    ensures
        match result {
            Some(rest) => before(text@, suffix@) == Some(rest@),
            None => before(text@, suffix@) is None,
        },
{
    let part = chars_of(suffix);
    if part.len() > text.len() {
        return None;
    }
    let at: usize = text.len() - part.len();
    if is_at(text, &part, at) {
        let rest = slice_subrange(text, 0, at);
        assert(rest@ =~= text@.take(text@.len() - suffix@.len()));
        Some(rest)
    } else {
        None
    }
}

fn id_below(path: &str, prefix: &str) -> (result: Option<i64>)
    ensures
        result == id_under(path@, prefix@),
{
    let chars = chars_of(path);
    match strip_prefix(&chars, prefix) {
        Some(value) => id_of_chars(value),
        None => None,
    }
}

/// The item of a media path.
pub fn web_media_id(path: &str) -> (result: Option<i64>)
    ensures
        result == media_id(path@),
{
    let chars = chars_of(path);
    let name = match strip_prefix(&chars, "/web/media/") {
        Some(name) => name,
        None => {
            return None;
        },
    };
    match strip_suffix(name, ".mp4") {
        Some(value) => id_of_chars(value),
        None => match strip_suffix(name, ".m3u8") {
            Some(value) => id_of_chars(value),
            None => match strip_suffix(name, ".m4s") {
                Some(value) => id_of_chars(value),
                None => None,
            },
        },
    }
}

/// The item of a download path.
pub fn web_download_id(path: &str) -> (result: Option<i64>)
    ensures
        result == id_under(path@, "/web/download/"@),
{
    id_below(path, "/web/download/")
}

/// The item of an item path.
pub fn web_item_id(path: &str) -> (result: Option<i64>)
    ensures
        result == id_under(path@, "/api/web/item/"@),
{
    id_below(path, "/api/web/item/")
}

/// The item of a conversion status path.
pub fn web_transcode_status_id(path: &str) -> (result: Option<i64>)
    ensures
        result == id_under(path@, "/api/web/transcode/"@),
{
    id_below(path, "/api/web/transcode/")
}

/// A timeline preview request.
pub enum TrickplayRequest {
    Manifest(i64),
    Sheet { item_id: i64, revision: String, index: u32 },
}

impl TrickplayRequest {
    /// What the request asks for.
    pub open spec fn preview(self) -> Preview {
        match self {
            TrickplayRequest::Manifest(id) => Preview::Manifest(id),
            TrickplayRequest::Sheet { item_id, revision, index } => Preview::Sheet {
                item_id,
                revision: revision@,
                index,
            },
        }
    }

    /// The item that the request is for.
    pub open spec fn spec_item(self) -> i64 {
        match self {
            TrickplayRequest::Manifest(id) => id,
            TrickplayRequest::Sheet { item_id, .. } => item_id,
        }
    }

    /// The item that the request is for.
    pub fn item(&self) -> (id: i64)
        ensures
            id == self.spec_item(),
    {
        match self {
            TrickplayRequest::Manifest(id) => *id,
            TrickplayRequest::Sheet { item_id, .. } => *item_id,
        }
    }
}

/// The preview that a path asks for.
pub fn trickplay_request(path: &str) -> (result: Option<TrickplayRequest>)
    ensures
        match result {
            Some(request) => preview_of(path@) == Some(request.preview()),
            None => preview_of(path@) is None,
        },
{
    let chars = chars_of(path);
    match strip_prefix(&chars, "/api/web/preview/") {
        Some(value) => {
            return match id_of_chars(value) {
                Some(id) => Some(TrickplayRequest::Manifest(id)),
                None => None,
            };
        },
        None => {},
    }
    let value = match strip_prefix(&chars, "/web/preview/") {
        Some(value) => value,
        None => {
            return None;
        },
    };
    let slash: [char; 1] = ['/'];
    assert(slash@ =~= seq!['/']);
    let parts = split_text(value, &slash);
    assert(texts(parts@).len() == parts@.len());
    if parts.len() != 3 {
        return None;
    }
    proof {
        assert(texts(parts@)[0] == parts@[0]@);
        assert(texts(parts@)[1] == parts@[1]@);
        assert(texts(parts@)[2] == parts@[2]@);
    }
    match (id_of_chars(parts[0]), strip_suffix(parts[2], ".jpg")) {
        (Some(item_id), Some(number)) => match parse_unsigned(
            string_of(number).as_str(),
            u32::MAX as u64,
        ) {
            Some(index) => Some(
                TrickplayRequest::Sheet {
                    item_id,
                    revision: string_of(parts[1]),
                    index: index as u32,
                },
            ),
            None => None,
        },
        _ => None,
    }
}

/// Whether a text can name a set of preview sheets.
pub fn valid_asset_revision(value: &str) -> (result: bool)
    ensures
        result == is_asset_revision(value@),
{
    let chars = chars_of(value);
    if chars.len() != ASSET_REVISION_HEX_LEN {
        return false;
    }
    let mut i: usize = 0;
    while i < chars.len()
        invariant
            i <= chars.len(),
            chars@ == value@,
            chars@.len() == ASSET_REVISION_HEX_LEN,
            forall|j: int| 0 <= j < i ==> is_digit(#[trigger] chars@[j]) || 'a' <= chars@[j] <= 'f',
        decreases chars.len() - i,
    {
        let c = chars[i];
        if !(('0' <= c && c <= '9') || ('a' <= c && c <= 'f')) {
            assert(!is_digit(value@[i as int]));
            return false;
        }
        i += 1;
    }
    true
}

// ------------------------------------------------------- paths handed out

/// `prefix`, the item in base ten, and `suffix`.
pub open spec fn path_of(prefix: Seq<char>, id: int, suffix: Seq<char>) -> Seq<char> {
    prefix + signed_text(id) + suffix
}

/// The path of a preview sheet.
pub open spec fn sheet_path(id: int, revision: Seq<char>, index: nat) -> Seq<char> {
    "/web/preview/"@ + (signed_text(id) + seq!['/'] + (revision + seq!['/'] + (decimal_text(index)
        + ".jpg"@)))
}

/// `prefix`, the number in base ten, and `suffix`.
pub fn numbered_path(prefix: &str, id: i64, suffix: &str) -> (path: String)
    ensures
        path@ == path_of(prefix@, id as int, suffix@),
{
    let mut path = chars_of(prefix);
    append_chars(&mut path, &signed_chars(id));
    append_chars(&mut path, &chars_of(suffix));
    string_of(&path)
}

/// The path of a preview sheet.
pub fn sheet_url(id: i64, revision: &str, index: u32) -> (path: String)
    ensures
        path@ == sheet_path(id as int, revision@, index as nat),
{
    let mut path = chars_of("/web/preview/");
    append_chars(&mut path, &signed_chars(id));
    path.push('/');
    append_chars(&mut path, &chars_of(revision));
    path.push('/');
    append_chars(&mut path, &decimal_chars(index as u64));
    append_chars(&mut path, &chars_of(".jpg"));
    assert(path@ =~= sheet_path(id as int, revision@, index as nat));
    string_of(&path)
}

/// The file name of a preview sheet.
pub fn trickplay_sheet_name(revision: &str, index: u32) -> (name: String)
    ensures
        name@ == "sheet-"@ + revision@ + seq!['-'] + crate::number::padded(index as nat, 4)
            + ".jpg"@,
{
    let mut name = chars_of("sheet-");
    append_chars(&mut name, &chars_of(revision));
    name.push('-');
    append_chars(&mut name, &crate::number::padded_chars(index as u64, 4));
    append_chars(&mut name, &chars_of(".jpg"));
    assert(name@ =~= "sheet-"@ + revision@ + seq!['-'] + crate::number::padded(index as nat, 4)
        + ".jpg"@);
    string_of(&name)
}

// -------------------------------------------------------------------- laws

/// A positive identifier is read back from the digits that write it.
pub proof fn law_id_round_trip(id: i64)
    requires
        id > 0,
    ensures
        id_of(decimal_text(id as nat)) == Some(id),
{
    lemma_decimal_text(id as nat);
}

/// An identifier has only one way to be written.
pub proof fn law_id_is_canonical(a: Seq<char>, b: Seq<char>)
    requires
        id_of(a) is Some,
        id_of(a) == id_of(b),
    ensures
        a == b,
{
}

proof fn lemma_after(prefix: Seq<char>, rest: Seq<char>)
    ensures
        after(prefix + rest, prefix) == Some(rest),
{
    assert((prefix + rest).subrange(0, prefix.len() as int) =~= prefix);
    assert((prefix + rest).skip(prefix.len() as int) =~= rest);
}

proof fn lemma_before(rest: Seq<char>, suffix: Seq<char>)
    ensures
        ends_with(rest + suffix, suffix),
        before(rest + suffix, suffix) == Some(rest),
{
    let s = rest + suffix;
    let k = rest.len() as int;
    assert(s.subrange(k, k + suffix.len()) =~= suffix);
    assert(s.take(k) =~= rest);
}

/// The path of a title, handed out under a prefix, leads back to it.
pub proof fn law_path_round_trip(prefix: Seq<char>, id: i64)
    requires
        id > 0,
    ensures
        id_under(path_of(prefix, id as int, Seq::empty()), prefix) == Some(id),
{
    let digits = decimal_text(id as nat);
    assert(path_of(prefix, id as int, Seq::empty()) =~= prefix + digits);
    lemma_after(prefix, digits);
    law_id_round_trip(id);
}

/// The media path of a title leads back to it.
pub proof fn law_media_path_round_trip(id: i64)
    requires
        id > 0,
    ensures
        media_id(path_of("/web/media/"@, id as int, ".mp4"@)) == Some(id),
{
    let digits = decimal_text(id as nat);
    let prefix = "/web/media/"@;
    assert(path_of(prefix, id as int, ".mp4"@) =~= prefix + (digits + ".mp4"@));
    lemma_after(prefix, digits + ".mp4"@);
    lemma_before(digits, ".mp4"@);
    law_id_round_trip(id);
}

/// The path of a preview sheet leads back to the sheet.
pub proof fn law_sheet_path_round_trip(id: i64, revision: Seq<char>, index: u32)
    requires
        id > 0,
        forall|i: int| 0 <= i < revision.len() ==> revision[i] != '/',
    ensures
        preview_of(sheet_path(id as int, revision, index as nat)) == Some(
            Preview::Sheet { item_id: id, revision, index },
        ),
{
    let digits = decimal_text(id as nat);
    let number = decimal_text(index as nat);
    let last = number + ".jpg"@;
    let middle = revision + seq!['/'] + last;
    let value = digits + seq!['/'] + middle;
    let path = sheet_path(id as int, revision, index as nat);
    let prefix = "/web/preview/"@;
    reveal_strlit("/web/preview/");
    reveal_strlit("/api/web/preview/");
    reveal_strlit(".jpg");
    lemma_decimal_text(id as nat);
    lemma_decimal_text(index as nat);
    assert(path[1] == 'w');
    assert(!starts_with(path, "/api/web/preview/"@)) by {
        if starts_with(path, "/api/web/preview/"@) {
            assert(path.subrange(0, 17)[1] == path[1]);
        }
    }
    lemma_after(prefix, value);
    assert forall|i: int| 0 <= i < digits.len() implies digits[i] != '/' by {
        assert(is_digit(digits[i]));
    }
    assert forall|i: int| 0 <= i < last.len() implies last[i] != '/' by {
        if i < number.len() {
            assert(is_digit(number[i]));
        } else {
            assert(last[i] == ".jpg"@[i - number.len()]);
        }
    }
    lemma_split_head_char(digits, '/', middle);
    lemma_split_head_char(revision, '/', last);
    lemma_split_whole_char(last, '/');
    assert(split(value, seq!['/']) =~= seq![digits, revision, last]);
    law_id_round_trip(id);
    lemma_before(number, ".jpg"@);
    assert(is_digit(number[0]));
}

} // verus!
