//! The names under which files are offered.
use crate::download::{
    alphanumerics, cut_name, download_name, fitting, is_unsafe, last_stop, replaced_unsafe,
    safe_download_file_name, safe_extension, stem_of, trailing,
};
use crate::encoding::{lemma_encode_concat, lemma_encode_one, lemma_len_push, utf8_len, width};
use crate::law::clock::lemma_trim_nothing;
use crate::law::serving::lemma_alphanumerics;
use crate::law::tracks::is_trim;
use crate::text::{is_white_space, CharClass};
use vstd::prelude::*;

verus! {

/// Whether a character is a control character, or separates the names in a path.
pub open spec fn is_foreign(c: char) -> bool {
    c as int <= 0x1f || 0x7f <= c as int <= 0x9f || c == '/' || c == '\\'
}

/// Whether an extension is one of lower-case letters and digits, of a usual length.
pub open spec fn is_extension(extension: Seq<char>) -> bool {
    &&& 0 < extension.len() <= 16
    &&& forall|i: int|
        0 <= i < extension.len() ==> 'a' <= #[trigger] extension[i] <= 'z' || '0' <= extension[i]
            <= '9'
}

proof fn lemma_no_longer(name: Seq<char>)
    ensures
        utf8_len(replaced_unsafe(name)) <= utf8_len(name),
    decreases name.len(),
{
    let new = replaced_unsafe(name);
    if name.len() == 0 {
        assert(new =~= name);
    } else {
        let head = name.drop_last();
        lemma_no_longer(head);
        assert(new =~= replaced_unsafe(head).push(new.last()));
        assert(name =~= head.push(name.last()));
        lemma_len_push(replaced_unsafe(head), new.last());
        lemma_len_push(head, name.last());
    }
}

/// What cannot stand in a file name is written as an underscore, each for itself;
/// everything else stays where it is.
pub proof fn law_foreign_characters_become_underscores(
    file_name: &str,
    id: i64,
    extension: &str,
    name: String,
    i: int,
)
    requires
        call_ensures(safe_download_file_name, (file_name, id, extension), name),
        is_trim(file_name@),
        file_name@ != seq!['.'],
        file_name@ != seq!['.', '.'],
        utf8_len(file_name@) <= 240,
    ensures
        name@.len() == file_name@.len(),
        0 <= i < name@.len() && is_foreign(file_name@[i]) ==> name@[i] == '_',
        0 <= i < name@.len() && !is_foreign(file_name@[i]) ==> name@[i] == file_name@[i],
{
    let new = replaced_unsafe(file_name@);
    lemma_no_longer(file_name@);
    assert(new[0] == '_' || new[0] == file_name@[0]);
    assert(new.last() == '_' || new.last() == file_name@.last());
    lemma_trim_nothing(new, CharClass::White);
    if new == seq!['.'] {
        assert(new[0] == '.');
        assert(file_name@ =~= seq!['.']);
    }
    if new == seq!['.', '.'] {
        assert(new[0] == '.' && new[1] == '.');
        assert(file_name@ =~= seq!['.', '.']);
    }
    assert(name@ == new);
    if 0 <= i < name@.len() {
        assert(is_unsafe(file_name@[i]) <==> is_foreign(file_name@[i]));
    }
}

proof fn lemma_fills_up(s: Seq<char>, i: int, budget: int)
    requires
        0 <= i <= s.len(),
        0 <= budget,
    ensures
        i + fitting(s, i, budget) <= s.len(),
        utf8_len(s.subrange(i, i + fitting(s, i, budget))) <= budget,
        i + fitting(s, i, budget) < s.len() ==> utf8_len(
            s.subrange(i, i + fitting(s, i, budget) + 1),
        ) > budget,
    decreases s.len() - i,
{
    let n = fitting(s, i, budget) as int;
    if i < s.len() {
        lemma_encode_one(s[i]);
    }
    if n == 0 {
        assert(s.subrange(i, i) =~= Seq::<char>::empty());
        if i < s.len() {
            assert(s.subrange(i, i + 1) =~= seq![s[i]]);
        }
    } else {
        lemma_fills_up(s, i + 1, budget - width(s[i]));
        assert(s.subrange(i, i + n) =~= seq![s[i]] + s.subrange(i + 1, i + n));
        lemma_encode_concat(seq![s[i]], s.subrange(i + 1, i + n));
        if i + n < s.len() {
            assert(s.subrange(i, i + n + 1) =~= seq![s[i]] + s.subrange(i + 1, i + n + 1));
            lemma_encode_concat(seq![s[i]], s.subrange(i + 1, i + n + 1));
        }
    }
}

proof fn lemma_tail(s: Seq<char>)
    ensures
        trailing(s) <= s.len(),
        forall|i: int|
            s.len() - trailing(s) <= i < s.len() ==> #[trigger] s[i] == ' ' || s[i] == '.',
        trailing(s) < s.len() ==> s[s.len() - trailing(s) - 1] != ' ' && s[s.len() - trailing(s)
            - 1] != '.',
    decreases s.len(),
{
    if s.len() > 0 && (s.last() == ' ' || s.last() == '.') {
        let t = s.drop_last();
        lemma_tail(t);
        assert forall|i: int| s.len() - trailing(s) <= i < s.len() implies #[trigger] s[i] == ' '
            || s[i] == '.' by {
            if i < t.len() {
                assert(s[i] == t[i]);
            }
        }
    }
}

proof fn lemma_stop(stem: Seq<char>, extension: Seq<char>)
    requires
        forall|i: int| 0 <= i < extension.len() ==> #[trigger] extension[i] != '.',
    ensures
        last_stop(stem + seq!['.'] + extension) == Some(stem.len() as int),
    decreases extension.len(),
{
    let name = stem + seq!['.'] + extension;
    if extension.len() > 0 {
        assert(extension[extension.len() - 1] != '.');
        assert(name.last() == extension[extension.len() - 1]);
        assert(name.drop_last() =~= stem + seq!['.'] + extension.drop_last());
        assert forall|i: int| 0 <= i < extension.drop_last().len() implies #[trigger] extension
            .drop_last()[i] != '.' by {
            assert(extension.drop_last()[i] == extension[i]);
        }
        lemma_stop(stem, extension.drop_last());
    } else {
        assert(name.last() == '.');
    }
}

/// Whether `kept` is as much of a name as there is room for: its beginning, without
/// spaces and full stops at the end, such that the next character beyond them would
/// be too much.
pub open spec fn is_cut(stem: Seq<char>, kept: Seq<char>, room: int, n: int) -> bool {
    &&& 0 < kept.len() <= n < stem.len()
    &&& kept == stem.take(kept.len() as int)
    &&& kept.last() != ' ' && kept.last() != '.'
    &&& forall|i: int| kept.len() <= i < n ==> #[trigger] stem[i] == ' ' || stem[i] == '.'
    &&& utf8_len(stem.take(n)) <= room
    &&& utf8_len(stem.take(n + 1)) > room
}

proof fn lemma_cut(stem: Seq<char>, id: int, extension: Seq<char>)
    requires
        is_extension(extension),
        stem.len() > 0,
        stem[0] != ' ' && stem[0] != '.',
        utf8_len(stem + seq!['.'] + extension) > 240,
    ensures
        ({
            let room = 240 - utf8_len(seq!['.'] + extension);
            let n = fitting(stem, 0, room) as int;
            let kept = stem.take(n).take(n - trailing(stem.take(n)));
            &&& is_cut(stem, kept, room, n)
            &&& cut_name(stem + seq!['.'] + extension, id, extension) == kept + (seq!['.']
                + extension)
        }),
{
    let name = stem + seq!['.'] + extension;
    let suffix = seq!['.'] + extension;
    assert(name =~= stem + suffix);
    lemma_encode_concat(stem, suffix);
    crate::encoding::lemma_len_bound(suffix);
    let room = 240 - utf8_len(suffix);
    lemma_stop(stem, extension);
    assert(name.skip(stem.len() as int + 1) =~= extension);
    assert(name.take(stem.len() as int) =~= stem);
    assert(stem_of(name, extension) == stem);
    lemma_fills_up(stem, 0, room);
    let n = fitting(stem, 0, room) as int;
    assert(stem.subrange(0, n) =~= stem.take(n));
    if n == stem.len() {
        assert(stem.take(n) =~= stem);
    }
    assert(stem.subrange(0, n + 1) =~= stem.take(n + 1));
    assert(width(stem[0]) <= 4);
    let all = stem.take(n);
    lemma_tail(all);
    assert(all[0] == stem[0]);
    let m = n - trailing(all);
    let kept = all.take(m);
    assert(m > 0);
    assert(kept =~= stem.take(m));
    assert(kept.last() == all[m - 1]);
    assert forall|i: int| kept.len() <= i < n implies #[trigger] stem[i] == ' ' || stem[i]
        == '.' by {
        assert(all[i] == stem[i]);
    }
}

/// A name that is too long is cut before its extension, which it keeps; as much of
/// it is kept as there is room for.
pub proof fn law_long_names_keep_their_extension(
    file_name: &str,
    stem: Seq<char>,
    id: i64,
    extension: &str,
    name: String,
)
    requires
        call_ensures(safe_download_file_name, (file_name, id, extension), name),
        file_name@ == stem + seq!['.'] + extension@,
        is_extension(extension@),
        stem.len() > 0,
        !is_white_space(stem[0]) && stem[0] != '.',
        forall|i: int| 0 <= i < stem.len() ==> !is_foreign(#[trigger] stem[i]),
        utf8_len(file_name@) > 240,
    ensures
        utf8_len(name@) <= 240,
        exists|kept: Seq<char>, n: int|
            #[trigger] is_cut(stem, kept, 240 - utf8_len(seq!['.'] + extension@), n) && name@
                == kept + (seq!['.'] + extension@),
{
    let file = file_name@;
    let ext = extension@;
    lemma_alphanumerics(ext);
    assert(alphanumerics(ext) == ext);
    assert(safe_extension(ext) == ext);
    assert forall|i: int| 0 <= i < file.len() implies !is_unsafe(#[trigger] file[i]) by {
        if i < stem.len() {
            assert(file[i] == stem[i]);
            assert(!is_foreign(stem[i]));
        } else if i > stem.len() {
            assert(file[i] == ext[i - stem.len() - 1]);
        } else {
            assert(file[i] == '.');
        }
    }
    assert(replaced_unsafe(file) =~= file) by {
        assert forall|i: int| 0 <= i < file.len() implies replaced_unsafe(file)[i] == file[i] by {
            assert(!is_unsafe(file[i]));
        }
    }
    assert(file[0] == stem[0]);
    assert(file.last() == ext[ext.len() - 1]);
    lemma_trim_nothing(file, CharClass::White);
    lemma_cut(stem, id as int, ext);
    assert(file.len() >= 3);
    assert(name@ == cut_name(file, id as int, ext));
    crate::download::law_download_name_is_safe(file, id, ext);
    assert(name@ == download_name(file, id as int, ext));
}

} // verus!
