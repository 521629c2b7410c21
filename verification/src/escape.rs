//! HTML text: what stands for the reserved characters, and back.

use crate::text::concat;
use vstd::prelude::*;

verus! {

/// What stands for the character `c` in HTML text.
pub open spec fn escape_char(c: char) -> Seq<char> {
    if c == '&' {
        "&amp;"@
    } else if c == '<' {
        "&lt;"@
    } else if c == '>' {
        "&gt;"@
    } else {
        seq![c]
    }
}

/// The text with `&`, `<` and `>` written as character references.
pub open spec fn escape(s: Seq<char>) -> Seq<char> {
    concat(s.map_values(|c: char| escape_char(c)))
}

/// The text with its HTML character references replaced by the characters they stand
/// for, as `html_escape::decode_html_entities` replaces them.
pub uninterp spec fn unescape(s: Seq<char>) -> Seq<char>;

/// `html_escape::encode_text`: writes `&amp;`, `&lt;` and `&gt;` for `&`, `<` and `>`,
/// and keeps every other character.
#[verifier::external_body]
pub(crate) fn encode_text(s: &str) -> (res: String)
    ensures
        res@ == escape(s@),
{
    html_escape::encode_text(s).into_owned()
}

/// `html_escape::decode_html_entities`: replaces the character references of the text.
/// The table of references is named as a whole. A text without `&` holds none and is kept
/// as it is; and since the table has `amp`, `lt` and `gt`, escaped text becomes again what
/// it was.
#[verifier::external_body]
pub(crate) fn decode_html_entities(s: &str) -> (res: String)
    ensures
        res@ == unescape(s@),
        !s@.contains('&') ==> res@ == s@,
        forall|text: Seq<char>| s@ == #[trigger] escape(text) ==> res@ == text,
{
    html_escape::decode_html_entities(s).into_owned()
}

proof fn lemma_concat_avoids(parts: Seq<Seq<char>>, c: char)
    requires
        forall|i: int| 0 <= i < parts.len() ==> !(#[trigger] parts[i]).contains(c),
    ensures
        !concat(parts).contains(c),
    decreases parts.len(),
{
    if parts.len() > 0 {
        lemma_concat_avoids(parts.drop_last(), c);
        let whole = concat(parts);
        if whole.contains(c) {
            let i = choose|i: int| 0 <= i < whole.len() && whole[i] == c;
            let head = concat(parts.drop_last());
            if i < head.len() {
                assert(head.contains(head[i]));
            } else {
                assert(parts.last()[i - head.len()] == c);
                assert(parts[parts.len() - 1].contains(c));
            }
        }
    }
}

/// Escaped text opens and closes no tag: it holds neither `<` nor `>`.
pub proof fn law_escaped_text_holds_no_tag(s: Seq<char>)
    ensures
        !escape(s).contains('<'),
        !escape(s).contains('>'),
{
    reveal_strlit("&amp;");
    reveal_strlit("&lt;");
    reveal_strlit("&gt;");
    let parts = s.map_values(|c: char| escape_char(c));
    assert forall|i: int| 0 <= i < parts.len() implies !(#[trigger] parts[i]).contains('<')
        && !parts[i].contains('>') by {
        assert(parts[i] == escape_char(s[i]));
    }
    lemma_concat_avoids(parts, '<');
    lemma_concat_avoids(parts, '>');
}

/// Whether the text holds no character that is reserved in HTML.
pub open spec fn is_plain(s: Seq<char>) -> bool {
    !s.contains('&') && !s.contains('<') && !s.contains('>')
}

/// Text without reserved characters is its own escaped form.
pub proof fn law_plain_text_is_kept(s: Seq<char>)
    requires
        is_plain(s),
    ensures
        escape(s) == s,
    decreases s.len(),
{
    let parts = s.map_values(|c: char| escape_char(c));
    if s.len() > 0 {
        let head = s.drop_last();
        assert forall|c: char| head.contains(c) implies s.contains(c) by {
            let i = choose|i: int| 0 <= i < head.len() && head[i] == c;
            assert(s[i] == c);
        }
        law_plain_text_is_kept(head);
        assert(parts.drop_last() =~= head.map_values(|c: char| escape_char(c)));
        assert(s.contains(s.last()));
        assert(escape(s) =~= head.push(s.last()));
        assert(head.push(s.last()) =~= s);
    } else {
        assert(escape(s) =~= s);
    }
}

proof fn lemma_escape_push(s: Seq<char>, c: char)
    ensures
        escape(s.push(c)) == escape(s) + escape_char(c),
{
    let f = |c: char| escape_char(c);
    assert(s.push(c).map_values(f).drop_last() =~= s.map_values(f));
}

/// Escaping goes piece by piece.
pub proof fn law_escape_of_concatenation(a: Seq<char>, b: Seq<char>)
    ensures
        escape(a + b) == escape(a) + escape(b),
    decreases b.len(),
{
    if b.len() == 0 {
        assert(a + b =~= a);
        assert(escape(b) =~= Seq::<char>::empty());
        assert(escape(a) + escape(b) =~= escape(a));
    } else {
        let init = b.drop_last();
        law_escape_of_concatenation(a, init);
        assert(a + b =~= (a + init).push(b.last()));
        assert(b =~= init.push(b.last()));
        lemma_escape_push(a + init, b.last());
        lemma_escape_push(init, b.last());
        assert(escape(a + b) =~= escape(a) + escape(b));
    }
}

/// In escaped text `&amp;` stands for `&`, `&lt;` for `<`, `&gt;` for `>`, and every other
/// character for itself.
pub proof fn law_escape_of_a_character(c: char)
    ensures
        escape(seq!['&']) == "&amp;"@,
        escape(seq!['<']) == "&lt;"@,
        escape(seq!['>']) == "&gt;"@,
        c != '&' && c != '<' && c != '>' ==> escape(seq![c]) == seq![c],
        escape(Seq::empty()) == Seq::<char>::empty(),
{
    let none = Seq::<char>::empty();
    assert(escape(none) =~= none);
    lemma_escape_push(none, '&');
    lemma_escape_push(none, '<');
    lemma_escape_push(none, '>');
    lemma_escape_push(none, c);
    assert(none.push('&') =~= seq!['&']);
    assert(none.push('<') =~= seq!['<']);
    assert(none.push('>') =~= seq!['>']);
    assert(none.push(c) =~= seq![c]);
    assert(none + "&amp;"@ =~= "&amp;"@);
    assert(none + "&lt;"@ =~= "&lt;"@);
    assert(none + "&gt;"@ =~= "&gt;"@);
    assert(none + seq![c] =~= seq![c]);
}

} // verus!
