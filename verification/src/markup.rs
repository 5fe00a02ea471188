//! Text inside of markup.
use crate::encoding::string_of;
use crate::text::{append_chars, chars_of, occurs_at};
use vstd::prelude::*;

verus! {

/// Whether a document may hold the character at all: it is none of the control
/// characters below the space but tab, line feed and carriage return.
pub open spec fn is_allowed(c: char) -> bool {
    ||| c == '\t'
    ||| c == '\n'
    ||| c == '\r'
    ||| 0x20 <= c as int
}

/// How a character is written inside of markup.
pub open spec fn escape(c: char) -> Seq<char> {
    if c == '&' {
        "&amp;"@
    } else if c == '<' {
        "&lt;"@
    } else if c == '>' {
        "&gt;"@
    } else if c == '"' {
        "&quot;"@
    } else if c == '\'' {
        "&apos;"@
    } else if is_allowed(c) {
        seq![c]
    } else {
        seq!['\u{fffd}']
    }
}

/// How a text is written inside of markup.
pub open spec fn escaped(text: Seq<char>) -> Seq<char>
    decreases text.len(),
{
    if text.len() == 0 {
        Seq::empty()
    } else {
        escaped(text.drop_last()) + escape(text.last())
    }
}

fn allowed(c: char) -> (result: bool)
    ensures
        result == is_allowed(c),
{
    c == '\t' || c == '\n' || c == '\r' || 0x20 <= c as u32
}

fn append_escape(out: &mut Vec<char>, c: char)
    ensures
        final(out)@ == old(out)@ + escape(c),
{
    if c == '&' {
        append_chars(out, &chars_of("&amp;"));
    } else if c == '<' {
        append_chars(out, &chars_of("&lt;"));
    } else if c == '>' {
        append_chars(out, &chars_of("&gt;"));
    } else if c == '"' {
        append_chars(out, &chars_of("&quot;"));
    } else if c == '\'' {
        append_chars(out, &chars_of("&apos;"));
    } else if allowed(c) {
        out.push(c);
        assert(out@ =~= old(out)@ + seq![c]);
    } else {
        out.push('\u{fffd}');
        assert(out@ =~= old(out)@ + seq!['\u{fffd}']);
    }
}

/// Writes a text inside of markup.
pub fn html_esc(value: &str) -> (result: String)
    ensures
        result@ == escaped(value@),
{
    let chars = chars_of(value);
    let mut out: Vec<char> = Vec::new();
    let mut i: usize = 0;
    while i < chars.len()
        invariant
            i <= chars.len(),
            chars@ == value@,
            out@ == escaped(value@.take(i as int)),
        decreases chars.len() - i,
    {
        proof {
            assert(value@.take(i + 1).drop_last() =~= value@.take(i as int));
            assert(value@.take(i + 1).last() == chars@[i as int]);
        }
        append_escape(&mut out, chars[i]);
        i += 1;
    }
    assert(value@.take(i as int) =~= value@);
    string_of(&out)
}

// -------------------------------------------------------------------- laws

/// Whether a character could end a text or an attribute, or is not allowed.
pub open spec fn is_markup(c: char) -> bool {
    c == '<' || c == '>' || c == '"' || c == '\'' || !is_allowed(c)
}

/// Nothing that a text holds can end it, open an element, or spoil the document.
pub proof fn law_escaped_text_holds_no_markup(text: Seq<char>)
    ensures
        forall|i: int| 0 <= i < escaped(text).len() ==> !is_markup(#[trigger] escaped(text)[i]),
    decreases text.len(),
{
    if text.len() > 0 {
        law_escaped_text_holds_no_markup(text.drop_last());
        reveal_strlit("&amp;");
        reveal_strlit("&lt;");
        reveal_strlit("&gt;");
        reveal_strlit("&quot;");
        reveal_strlit("&apos;");
        let head = escaped(text.drop_last());
        let last = escape(text.last());
        assert forall|i: int| 0 <= i < escaped(text).len() implies !is_markup(
            #[trigger] escaped(text)[i],
        ) by {
            if i < head.len() {
                assert(escaped(text)[i] == head[i]);
            } else {
                assert(escaped(text)[i] == last[i - head.len()]);
            }
        }
    }
}

/// Whether a reference to a character stands at `i`.
pub open spec fn is_reference_at(text: Seq<char>, i: int) -> bool {
    ||| occurs_at(text, "&amp;"@, i)
    ||| occurs_at(text, "&lt;"@, i)
    ||| occurs_at(text, "&gt;"@, i)
    ||| occurs_at(text, "&quot;"@, i)
    ||| occurs_at(text, "&apos;"@, i)
}

/// Every ampersand of an escaped text begins a reference.
pub proof fn law_ampersands_begin_references(text: Seq<char>)
    ensures
        forall|i: int|
            0 <= i < escaped(text).len() && #[trigger] escaped(text)[i] == '&' ==> is_reference_at(
                escaped(text),
                i,
            ),
    decreases text.len(),
{
    if text.len() > 0 {
        law_ampersands_begin_references(text.drop_last());
        reveal_strlit("&amp;");
        reveal_strlit("&lt;");
        reveal_strlit("&gt;");
        reveal_strlit("&quot;");
        reveal_strlit("&apos;");
        let head = escaped(text.drop_last());
        let last = escape(text.last());
        let all = escaped(text);
        assert forall|i: int| 0 <= i < all.len() && #[trigger] all[i] == '&' implies is_reference_at(
            all,
            i,
        ) by {
            if i < head.len() {
                assert(head[i] == '&');
                assert(is_reference_at(head, i));
                lemma_occurs_longer(head, last, "&amp;"@, i);
                lemma_occurs_longer(head, last, "&lt;"@, i);
                lemma_occurs_longer(head, last, "&gt;"@, i);
                lemma_occurs_longer(head, last, "&quot;"@, i);
                lemma_occurs_longer(head, last, "&apos;"@, i);
            } else {
                assert(all[i] == last[i - head.len()]);
                assert(i == head.len());
                assert(all.subrange(i, i + last.len()) =~= last);
            }
        }
    }
}

proof fn lemma_occurs_longer(head: Seq<char>, tail: Seq<char>, part: Seq<char>, i: int)
    ensures
        occurs_at(head, part, i) ==> occurs_at(head + tail, part, i),
{
    if occurs_at(head, part, i) {
        assert((head + tail).subrange(i, i + part.len()) =~= head.subrange(i, i + part.len()));
    }
}

/// Whether a character is written as itself.
pub open spec fn is_plain(c: char) -> bool {
    c != '&' && !is_markup(c)
}

/// A text without markup and control characters is written as it is.
pub proof fn law_plain_text_is_unchanged(text: Seq<char>)
    requires
        forall|i: int| 0 <= i < text.len() ==> is_plain(#[trigger] text[i]),
    ensures
        escaped(text) == text,
    decreases text.len(),
{
    if text.len() > 0 {
        let init = text.drop_last();
        assert forall|i: int| 0 <= i < init.len() implies is_plain(#[trigger] init[i]) by {
            assert(is_plain(text[i]));
        }
        law_plain_text_is_unchanged(init);
        assert(is_plain(text[text.len() - 1]));
        assert(escaped(text) =~= text);
    }
}

/// A text is written piece by piece.
pub proof fn law_escaping_goes_by_pieces(a: Seq<char>, b: Seq<char>)
    ensures
        escaped(a + b) == escaped(a) + escaped(b),
    decreases b.len(),
{
    if b.len() == 0 {
        assert(a + b =~= a);
        assert(escaped(a) + escaped(b) =~= escaped(a));
    } else {
        law_escaping_goes_by_pieces(a, b.drop_last());
        assert((a + b).drop_last() =~= a + b.drop_last());
        assert(escaped(a + b) =~= escaped(a) + escaped(b));
    }
}

} // verus!
