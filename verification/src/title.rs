//! The title of an HTML page.

use crate::escape::{decode_html_entities, escape, law_escaped_text_holds_no_tag, unescape};
use crate::text::{
    chars_of, is_white_space, law_white_space_around_is_taken_off, string_of, trim, trimmed,
};
use vstd::prelude::*;

verus! {

/// What a title element starts with.
pub const OPENING_TAG: &'static str = "<title>";

/// What a title element ends with.
pub const CLOSING_TAG: &'static str = "</title>";

/// The title of a page without a title element.
pub const UNTITLED: &'static str = "Untitled";

/// The title of a page whose title element is empty.
pub const NO_TITLE: &'static str = "No Title";

/// What a shortened title ends with.
pub const ELLIPSIS: &'static str = "...";

/// The longest title, in characters, that is shown in full.
pub const LONGEST_TITLE: usize = 100;

/// How many characters of a longer title are kept.
pub const KEPT_OF_TITLE: usize = 97;

/// An upper-case letter of ASCII in lower case; any other character as it is.
pub open spec fn lower_ascii(c: char) -> char {
    if 65 <= c as int <= 90 {
        (c as int + 32) as char
    } else {
        c
    }
}

/// Whether `tag` stands at position `i` of `s`, in upper or lower case.
pub open spec fn tag_at(s: Seq<char>, i: int, tag: Seq<char>) -> bool {
    &&& 0 <= i
    &&& i + tag.len() <= s.len()
    &&& forall|k: int| 0 <= k < tag.len() ==> lower_ascii(#[trigger] s[i + k]) == tag[k]
}

/// The first position of `s`, counted from `from`, at which `tag` stands.
pub open spec fn find_tag(s: Seq<char>, from: int, tag: Seq<char>) -> Option<int>
    decreases s.len() + 1 - from,
{
    if from > s.len() {
        None
    } else if tag_at(s, from, tag) {
        Some(from)
    } else {
        find_tag(s, from + 1, tag)
    }
}

/// What stands between the first opening tag and the closing tag that follows it.
pub open spec fn title_element(content: Seq<char>) -> Option<Seq<char>> {
    match find_tag(content, 0, OPENING_TAG@) {
        Some(start) => match find_tag(content, start, CLOSING_TAG@) {
            Some(end) => Some(content.subrange(start + OPENING_TAG@.len(), end)),
            None => None,
        },
        None => None,
    }
}

/// The text on one line: blanks for line feeds, and no carriage returns.
pub open spec fn one_line(s: Seq<char>) -> Seq<char> {
    s.map_values(|c: char| if c == '\n' { ' ' } else { c }).filter(|c: char| c != '\r')
}

/// The text if it is no longer than a title may be; else its start and an ellipsis.
pub open spec fn shorten(s: Seq<char>) -> Seq<char> {
    if s.len() > LONGEST_TITLE {
        s.take(KEPT_OF_TITLE as int) + ELLIPSIS@
    } else if s.len() == 0 {
        NO_TITLE@
    } else {
        s
    }
}

/// The title that is shown for the text of a title element.
pub open spec fn shown_title(text: Seq<char>) -> Seq<char> {
    shorten(one_line(trim(text)))
}

/// The title of the page.
pub open spec fn page_title(content: Seq<char>) -> Seq<char> {
    match title_element(content) {
        Some(element) => shown_title(unescape(element)),
        None => UNTITLED@,
    }
}

fn lower_ascii_char(c: char) -> (res: char)
    ensures
        res == lower_ascii(c),
{
    let n: u32 = c as u32;
    if 65 <= n && n <= 90 {
        (n as u8 + 32) as char
    } else {
        c
    }
}

fn is_tag_at(s: &Vec<char>, i: usize, tag: &Vec<char>) -> (yes: bool)
    requires
        i <= s@.len(),
    ensures
        yes == tag_at(s@, i as int, tag@),
{
    let n: usize = s.len();
    if tag.len() > n - i {
        return false;
    }
    let mut k: usize = 0;
    while k < tag.len()
        invariant
            k <= tag@.len(),
            i + tag@.len() <= n,
            n == s@.len(),
            forall|j: int| 0 <= j < k ==> lower_ascii(#[trigger] s@[i + j]) == tag@[j],
        decreases tag@.len() - k,
    {
        if lower_ascii_char(s[i + k]) != tag[k] {
            assert(lower_ascii(s@[i + k]) != tag@[k as int]);
            return false;
        }
        k += 1;
    }
    true
}

fn position_of_tag(s: &Vec<char>, from: usize, tag: &Vec<char>) -> (res: Option<usize>)
    requires
        from <= s@.len(),
    ensures
        match res {
            Some(i) => find_tag(s@, from as int, tag@) == Some(i as int) && from <= i <= s@.len(),
            None => find_tag(s@, from as int, tag@) is None,
        },
{
    let mut i: usize = from;
    loop
        invariant
            from <= i <= s@.len(),
            find_tag(s@, from as int, tag@) == find_tag(s@, i as int, tag@),
        decreases s@.len() - i,
    {
        if is_tag_at(s, i, tag) {
            return Some(i);
        }
        if i == s.len() {
            assert(find_tag(s@, i + 1, tag@) is None);
            return None;
        }
        i += 1;
    }
}

proof fn lemma_find_tag(s: Seq<char>, from: int, tag: Seq<char>)
    requires
        0 <= from,
    ensures
        match find_tag(s, from, tag) {
            Some(i) => from <= i && tag_at(s, i, tag) && forall|j: int|
                from <= j < i ==> !#[trigger] tag_at(s, j, tag),
            None => forall|j: int| from <= j ==> !#[trigger] tag_at(s, j, tag),
        },
    decreases s.len() + 1 - from,
{
    if from <= s.len() && !tag_at(s, from, tag) {
        lemma_find_tag(s, from + 1, tag);
    }
}

/// No closing tag stands inside an opening tag.
proof fn lemma_tags_do_not_overlap(s: Seq<char>, i: int, j: int)
    requires
        tag_at(s, i, OPENING_TAG@),
        i <= j < i + OPENING_TAG@.len(),
    ensures
        !tag_at(s, j, CLOSING_TAG@),
{
    reveal_strlit("<title>");
    reveal_strlit("</title>");
    if tag_at(s, j, CLOSING_TAG@) {
        assert(lower_ascii(s[j + 0]) == '<');
        assert(lower_ascii(s[j + 1]) == '/');
        assert(lower_ascii(s[i + (j - i)]) == OPENING_TAG@[j - i]);
        assert(j == i);
        assert(lower_ascii(s[i + 1]) == 't');
    }
}

proof fn lemma_closing_tag_follows(s: Seq<char>, start: int, end: int)
    requires
        find_tag(s, 0, OPENING_TAG@) == Some(start),
        find_tag(s, start, CLOSING_TAG@) == Some(end),
    ensures
        0 <= start,
        start + OPENING_TAG@.len() <= end,
        end + CLOSING_TAG@.len() <= s.len(),
{
    lemma_find_tag(s, 0, OPENING_TAG@);
    lemma_find_tag(s, start, CLOSING_TAG@);
    if end < start + OPENING_TAG@.len() {
        lemma_tags_do_not_overlap(s, start, end);
    }
}

/// The text of the title element of `content`, where it has one.
pub fn title_text(content: &str) -> (res: Option<String>)
    ensures
        match res {
            Some(text) => title_element(content@) == Some(text@),
            None => title_element(content@) is None,
        },
{
    let chars: Vec<char> = chars_of(content);
    let opening: Vec<char> = chars_of(OPENING_TAG);
    let closing: Vec<char> = chars_of(CLOSING_TAG);
    if let Some(start) = position_of_tag(&chars, 0, &opening) {
        if let Some(end) = position_of_tag(&chars, start, &closing) {
            proof {
                lemma_closing_tag_follows(content@, start as int, end as int);
            }
            return Some(string_of(&chars, start + opening.len(), end));
        }
    }
    None
}

fn one_line_text(s: &str) -> (res: String)
    ensures
        res@ == one_line(s@),
{
    let chars: Vec<char> = chars_of(s);
    let mut res: String = String::new();
    let mut i: usize = 0;
    let ghost blanked = s@.map_values(|c: char| if c == '\n' { ' ' } else { c });
    let ghost kept = |c: char| c != '\r';
    assert(blanked.take(0).filter(kept) =~= Seq::empty()) by {
        reveal(Seq::filter);
    }
    while i < chars.len()
        invariant
            i <= chars@.len(),
            chars@ == s@,
            blanked == s@.map_values(|c: char| if c == '\n' { ' ' } else { c }),
            kept == (|c: char| c != '\r'),
            res@ == blanked.take(i as int).filter(kept),
        decreases chars@.len() - i,
    {
        let c: char = chars[i];
        proof {
            reveal(Seq::filter);
            assert(blanked.take(i + 1).drop_last() =~= blanked.take(i as int));
        }
        if c == '\n' {
            res.push(' ');
        } else if c != '\r' {
            res.push(c);
        }
        i += 1;
    }
    assert(blanked.take(i as int) =~= blanked);
    res
}

/// The title that is shown for `text`, the text of a title element after its character
/// references have been replaced: trimmed, on one line, and shortened where it is long.
pub fn clean_title(text: &str) -> (title: String)
    ensures
        title@ == shown_title(text@),
{
    let line: String = one_line_text(trimmed(text).as_str());
    let chars: Vec<char> = chars_of(line.as_str());
    if chars.len() > LONGEST_TITLE {
        let mut title: String = string_of(&chars, 0, KEPT_OF_TITLE);
        title.append(ELLIPSIS);
        title
    } else if chars.len() == 0 {
        NO_TITLE.to_owned()
    } else {
        line
    }
}

/// Whether a page with these contents is titled as the text of its title element says, where
/// that text holds no character reference, or none but those of escaped text. A page without
/// a title element is untitled.
pub open spec fn is_titled(content: Seq<char>, title: Seq<char>) -> bool {
    match title_element(content) {
        Some(element) => {
            &&& !element.contains('&') ==> title == shown_title(element)
            &&& forall|text: Seq<char>|
                element == #[trigger] escape(text) ==> title == shown_title(text)
        },
        None => title == UNTITLED@,
    }
}

/// The title of an HTML page.
pub fn extract_title_from_html(content: &str) -> (title: String)
    ensures
        title@ == page_title(content@),
        is_titled(content@, title@),
{
    match title_text(content) {
        Some(text) => clean_title(decode_html_entities(text.as_str()).as_str()),
        None => UNTITLED.to_owned(),
    }
}

proof fn lemma_one_line_avoids_breaks(s: Seq<char>)
    ensures
        one_line(s).len() <= s.len(),
        !one_line(s).contains('\n'),
        !one_line(s).contains('\r'),
    decreases s.len(),
{
    reveal(Seq::filter);
    let f = |c: char| if c == '\n' { ' ' } else { c };
    if s.len() > 0 {
        let head = s.drop_last();
        lemma_one_line_avoids_breaks(head);
        assert(s.map_values(f).drop_last() =~= head.map_values(f));
        let line = one_line(s);
        assert forall|c: char| line.contains(c) implies one_line(head).contains(c) || c == f(
            s.last(),
        ) && c != '\r' by {
            let i = choose|i: int| 0 <= i < line.len() && line[i] == c;
            if i < one_line(head).len() {
                assert(one_line(head)[i] == c);
            }
        }
    }
}

/// A title is never empty, never longer than the longest title, and stands on one line,
/// whatever the text of the title element is.
pub proof fn law_shown_title_is_short_and_on_one_line(text: Seq<char>)
    ensures
        0 < shown_title(text).len() <= LONGEST_TITLE,
        !shown_title(text).contains('\n'),
        !shown_title(text).contains('\r'),
{
    reveal_strlit("...");
    reveal_strlit("No Title");
    let line = one_line(trim(text));
    lemma_one_line_avoids_breaks(trim(text));
    let title = shown_title(text);
    assert forall|c: char| title.contains(c) && c != '.' && line.len() > 0 implies line.contains(
        c,
    ) by {
        let i = choose|i: int| 0 <= i < title.len() && title[i] == c;
        if i < line.len() {
            assert(line.contains(line[i]));
        }
    }
}

/// The title of a page is never empty, never longer than the longest title, and stands
/// on one line.
pub proof fn law_title_is_short_and_on_one_line(content: Seq<char>)
    ensures
        0 < page_title(content).len() <= LONGEST_TITLE,
        !page_title(content).contains('\n'),
        !page_title(content).contains('\r'),
{
    reveal_strlit("Untitled");
    match title_element(content) {
        Some(element) => law_shown_title_is_short_and_on_one_line(unescape(element)),
        None => {},
    }
}

/// A title of at most the longest length, on one line and without white space at either
/// end, is shown in full.
pub proof fn law_short_title_is_kept(text: Seq<char>)
    requires
        0 < text.len() <= LONGEST_TITLE,
        !text.contains('\n'),
        !text.contains('\r'),
        !is_white_space(text.first()),
        !is_white_space(text.last()),
    ensures
        shown_title(text) == text,
{
    lemma_one_line_keeps(text);
}

proof fn lemma_one_line_keeps(s: Seq<char>)
    requires
        !s.contains('\n'),
        !s.contains('\r'),
    ensures
        one_line(s) == s,
    decreases s.len(),
{
    reveal(Seq::filter);
    let f = |c: char| if c == '\n' { ' ' } else { c };
    if s.len() > 0 {
        let head = s.drop_last();
        assert forall|c: char| head.contains(c) implies s.contains(c) by {
            let i = choose|i: int| 0 <= i < head.len() && head[i] == c;
            assert(s[i] == c);
        }
        lemma_one_line_keeps(head);
        assert(s.map_values(f).drop_last() =~= head.map_values(f));
        assert(s.contains(s.last()));
        assert(one_line(s) =~= head.push(s.last()));
    }
    assert(one_line(s) =~= s);
}

/// The title element is what stands between the tags, in whatever case they are
/// written: the first opening tag of the page, and the first closing tag after it.
pub proof fn law_title_stands_between_the_tags(
    before: Seq<char>,
    opening: Seq<char>,
    text: Seq<char>,
    closing: Seq<char>,
    after: Seq<char>,
)
    requires
        opening.map_values(|c: char| lower_ascii(c)) == OPENING_TAG@,
        closing.map_values(|c: char| lower_ascii(c)) == CLOSING_TAG@,
        ({
            let content = before + opening + text + closing + after;
            &&& forall|i: int|
                0 <= i < before.len() ==> !#[trigger] tag_at(content, i, OPENING_TAG@)
            &&& forall|i: int|
                before.len() + opening.len() <= i < before.len() + opening.len() + text.len()
                    ==> !#[trigger] tag_at(content, i, CLOSING_TAG@)
        }),
    ensures
        title_element(before + opening + text + closing + after) == Some(text),
{
    let content = before + opening + text + closing + after;
    let start = before.len() as int;
    let end = (before.len() + opening.len() + text.len()) as int;
    let lower = |c: char| lower_ascii(c);
    assert forall|k: int| 0 <= k < OPENING_TAG@.len() implies lower_ascii(
        #[trigger] content[start + k],
    ) == OPENING_TAG@[k] by {
        assert(content[start + k] == opening[k]);
        assert(opening.map_values(lower)[k] == OPENING_TAG@[k]);
    }
    assert(tag_at(content, start, OPENING_TAG@));
    assert forall|k: int| 0 <= k < CLOSING_TAG@.len() implies lower_ascii(
        #[trigger] content[end + k],
    ) == CLOSING_TAG@[k] by {
        assert(content[end + k] == closing[k]);
        assert(closing.map_values(lower)[k] == CLOSING_TAG@[k]);
    }
    assert(tag_at(content, end, CLOSING_TAG@));
    lemma_find_tag(content, 0, OPENING_TAG@);
    lemma_find_tag(content, start, CLOSING_TAG@);
    assert forall|j: int| start <= j < end implies !#[trigger] tag_at(content, j, CLOSING_TAG@) by {
        if j < start + opening.len() {
            lemma_tags_do_not_overlap(content, start, j);
        }
    }
    assert(content.subrange(start + OPENING_TAG@.len(), end) =~= text);
}

/// A page in which no closing tag follows an opening tag is untitled.
pub proof fn law_page_without_tags_is_untitled(content: Seq<char>)
    requires
        forall|start: int, end: int|
            start <= end && #[trigger] tag_at(content, start, OPENING_TAG@) ==> !#[trigger] tag_at(
                content,
                end,
                CLOSING_TAG@,
            ),
    ensures
        page_title(content) == UNTITLED@,
{
    lemma_find_tag(content, 0, OPENING_TAG@);
    match find_tag(content, 0, OPENING_TAG@) {
        Some(start) => lemma_find_tag(content, start, CLOSING_TAG@),
        None => {},
    }
}

/// A title of more than 100 characters, on one line and without white space at either end, is
/// shown as its first 97 characters in their order and three dots; a shorter one is shown as
/// it is.
pub proof fn law_long_title_keeps_its_start(text: Seq<char>)
    requires
        text.len() > 0,
        !text.contains('\n'),
        !text.contains('\r'),
        !is_white_space(text.first()),
        !is_white_space(text.last()),
    ensures
        text.len() > 100 ==> shown_title(text).len() == 100,
        text.len() > 100 ==> forall|i: int|
            0 <= i < 97 ==> #[trigger] shown_title(text)[i] == text[i],
        text.len() > 100 ==> forall|i: int|
            97 <= i < 100 ==> #[trigger] shown_title(text)[i] == '.',
        text.len() <= 100 ==> shown_title(text) == text,
{
    reveal_strlit("...");
    lemma_one_line_keeps(text);
    assert(trim(text) == text);
}

/// White space around the text of a title element does not show.
pub proof fn law_white_space_around_a_title_is_dropped(
    front: Seq<char>,
    core: Seq<char>,
    back: Seq<char>,
)
    requires
        forall|i: int| 0 <= i < front.len() ==> is_white_space(#[trigger] front[i]),
        forall|i: int| 0 <= i < back.len() ==> is_white_space(#[trigger] back[i]),
        core.len() > 0 ==> !is_white_space(core.first()) && !is_white_space(core.last()),
    ensures
        shown_title(front + core + back) == shown_title(core),
        core.len() == 0 ==> shown_title(front + core + back) == "No Title"@,
{
    reveal(Seq::filter);
    let none = Seq::<char>::empty();
    law_white_space_around_is_taken_off(front, core, back);
    law_white_space_around_is_taken_off(none, core, none);
    assert(none + core + none =~= core);
    if core.len() == 0 {
        assert(one_line(core) =~= none);
    }
}

proof fn lemma_one_line_of_sum(a: Seq<char>, b: Seq<char>)
    ensures
        one_line(a + b) == one_line(a) + one_line(b),
{
    let f = |c: char| if c == '\n' { ' ' } else { c };
    let kept = |c: char| c != '\r';
    assert((a + b).map_values(f) =~= a.map_values(f) + b.map_values(f));
    Seq::filter_distributes_over_add(a.map_values(f), b.map_values(f), kept);
}

/// A line feed inside a title shows as a blank, and a carriage return does not show.
pub proof fn law_line_breaks_in_a_title(a: Seq<char>, b: Seq<char>)
    requires
        a.len() > 0,
        b.len() > 0,
        !is_white_space(a.first()),
        !is_white_space(b.last()),
    ensures
        shown_title(a + seq!['\n'] + b) == shown_title(a + seq![' '] + b),
        shown_title(a + seq!['\r'] + b) == shown_title(a + b),
{
    let feed = seq!['\n'];
    let blank = seq![' '];
    let back = seq!['\r'];
    let none = Seq::<char>::empty();
    assert(trim(a + feed + b) == a + feed + b);
    assert(trim(a + blank + b) == a + blank + b);
    assert(trim(a + back + b) == a + back + b);
    assert(trim(a + b) == a + b);
    lemma_one_line_of_sum(a + feed, b);
    lemma_one_line_of_sum(a, feed);
    lemma_one_line_of_sum(a + blank, b);
    lemma_one_line_of_sum(a, blank);
    lemma_one_line_of_sum(a + back, b);
    lemma_one_line_of_sum(a, back);
    lemma_one_line_of_sum(a, b);
    assert(one_line(feed) == one_line(blank) && one_line(back) == none) by {
        reveal(Seq::filter);
        let f = |c: char| if c == '\n' { ' ' } else { c };
        assert(feed.map_values(f) =~= blank.map_values(f));
        let kept = |c: char| c != '\r';
        assert(back.map_values(f).drop_last() =~= none);
        assert(none.filter(kept) =~= none);
        assert(one_line(back) =~= none);
    }
    assert(one_line(a) + none + one_line(b) =~= one_line(a) + one_line(b));
}

/// Whether the text is the tag, each of its letters in lower or upper case.
pub open spec fn is_in_some_case(text: Seq<char>, tag: Seq<char>) -> bool {
    &&& text.len() == tag.len()
    &&& forall|k: int|
        0 <= k < tag.len() ==> #[trigger] text[k] == tag[k] || (97 <= tag[k] as int && tag[k] as int
            <= 122 && text[k] as int == tag[k] as int - 32)
}

proof fn lemma_tag_in_some_case(s: Seq<char>, i: int)
    requires
        0 <= i,
    ensures
        tag_at(s, i, "<title>"@) <==> i + 7 <= s.len() && is_in_some_case(
            s.subrange(i, i + 7),
            "<title>"@,
        ),
        tag_at(s, i, "</title>"@) <==> i + 8 <= s.len() && is_in_some_case(
            s.subrange(i, i + 8),
            "</title>"@,
        ),
{
    reveal_strlit("<title>");
    reveal_strlit("</title>");
    if i + 7 <= s.len() {
        let part = s.subrange(i, i + 7);
        let tag = "<title>"@;
        assert forall|k: int| 0 <= k < 7 implies (lower_ascii(#[trigger] s[i + k]) == tag[k] <==> (
        part[k] == tag[k] || (97 <= tag[k] as int && tag[k] as int <= 122 && part[k] as int
            == tag[k] as int - 32))) by {
            assert(part[k] == s[i + k]);
        }
        if is_in_some_case(part, tag) {
            assert forall|k: int| 0 <= k < tag.len() implies lower_ascii(#[trigger] s[i + k])
                == tag[k] by {
                assert(part[k] == s[i + k]);
            }
        }
        if tag_at(s, i, tag) {
            assert forall|k: int| 0 <= k < tag.len() implies #[trigger] part[k] == tag[k] || (97
                <= tag[k] as int && tag[k] as int <= 122 && part[k] as int == tag[k] as int
                - 32) by {
                assert(lower_ascii(s[i + k]) == tag[k]);
            }
        }
    }
    if i + 8 <= s.len() {
        let part = s.subrange(i, i + 8);
        let tag = "</title>"@;
        assert forall|k: int| 0 <= k < 8 implies (lower_ascii(#[trigger] s[i + k]) == tag[k] <==> (
        part[k] == tag[k] || (97 <= tag[k] as int && tag[k] as int <= 122 && part[k] as int
            == tag[k] as int - 32))) by {
            assert(part[k] == s[i + k]);
        }
        if is_in_some_case(part, tag) {
            assert forall|k: int| 0 <= k < tag.len() implies lower_ascii(#[trigger] s[i + k])
                == tag[k] by {
                assert(part[k] == s[i + k]);
            }
        }
        if tag_at(s, i, tag) {
            assert forall|k: int| 0 <= k < tag.len() implies #[trigger] part[k] == tag[k] || (97
                <= tag[k] as int && tag[k] as int <= 122 && part[k] as int == tag[k] as int
                - 32) by {
                assert(lower_ascii(s[i + k]) == tag[k]);
            }
        }
    }
}

/// The title element of a page is what stands after its first `<title>` and before the first
/// `</title>` that follows, in whatever case the letters are.
pub proof fn law_title_element_of_a_page(
    before: Seq<char>,
    opening: Seq<char>,
    text: Seq<char>,
    closing: Seq<char>,
    after: Seq<char>,
)
    requires
        is_in_some_case(opening, "<title>"@),
        is_in_some_case(closing, "</title>"@),
        ({
            let content = before + opening + text + closing + after;
            &&& forall|i: int|
                0 <= i < before.len() ==> !is_in_some_case(
                    #[trigger] content.subrange(i, i + 7),
                    "<title>"@,
                )
            &&& forall|i: int|
                before.len() + 7 <= i < before.len() + 7 + text.len() ==> !is_in_some_case(
                    #[trigger] content.subrange(i, i + 8),
                    "</title>"@,
                )
        }),
    ensures
        title_element(before + opening + text + closing + after) == Some(text),
        page_title(before + opening + text + closing + after) == shown_title(unescape(text)),
{
    let content = before + opening + text + closing + after;
    reveal_strlit("<title>");
    reveal_strlit("</title>");
    let lower = |c: char| lower_ascii(c);
    assert(opening.subrange(0, 7) =~= opening);
    assert(closing.subrange(0, 8) =~= closing);
    lemma_tag_in_some_case(opening, 0);
    lemma_tag_in_some_case(closing, 0);
    assert forall|k: int| 0 <= k < 7 implies opening.map_values(lower)[k] == OPENING_TAG@[k] by {
        assert(lower_ascii(opening[0 + k]) == OPENING_TAG@[k]);
    }
    assert forall|k: int| 0 <= k < 8 implies closing.map_values(lower)[k] == CLOSING_TAG@[k] by {
        assert(lower_ascii(closing[0 + k]) == CLOSING_TAG@[k]);
    }
    assert(opening.map_values(lower) =~= OPENING_TAG@);
    assert(closing.map_values(lower) =~= CLOSING_TAG@);
    assert forall|i: int| 0 <= i < before.len() implies !#[trigger] tag_at(
        content,
        i,
        OPENING_TAG@,
    ) by {
        lemma_tag_in_some_case(content, i);
        let part = content.subrange(i, i + 7);
    }
    assert forall|i: int|
        before.len() + opening.len() <= i < before.len() + opening.len()
            + text.len() implies !#[trigger] tag_at(content, i, CLOSING_TAG@) by {
        lemma_tag_in_some_case(content, i);
        let part = content.subrange(i, i + 8);
    }
    law_title_stands_between_the_tags(before, opening, text, closing, after);
}

/// A page in which no `</title>` follows a `<title>`, in whatever case the letters are, is
/// called `Untitled`.
pub proof fn law_page_without_title_element_is_untitled(content: Seq<char>, title: Seq<char>)
    requires
        forall|i: int, j: int|
            0 <= i <= i + 7 <= j && j + 8 <= content.len() ==> !(is_in_some_case(
                #[trigger] content.subrange(i, i + 7),
                "<title>"@,
            ) && is_in_some_case(#[trigger] content.subrange(j, j + 8), "</title>"@)),
    ensures
        title_element(content) is None,
        page_title(content) == "Untitled"@,
        is_titled(content, title) ==> title == "Untitled"@,
{
    reveal_strlit("<title>");
    reveal_strlit("</title>");
    match find_tag(content, 0, OPENING_TAG@) {
        Some(start) => match find_tag(content, start, CLOSING_TAG@) {
            Some(end) => {
                lemma_closing_tag_follows(content, start, end);
                lemma_find_tag(content, 0, OPENING_TAG@);
                lemma_find_tag(content, start, CLOSING_TAG@);
                lemma_tag_in_some_case(content, start);
                lemma_tag_in_some_case(content, end);
                let opening = content.subrange(start, start + 7);
                let closing = content.subrange(end, end + 8);
            },
            None => {},
        },
        None => {},
    }
}

/// A page with `<title>text</title>`, where the text holds neither `<` nor `&`, is on one line
/// and has no white space at either end, is titled by that text; by its first 97 characters
/// and three dots where it is longer than 100 characters.
pub proof fn law_page_is_titled_by_its_title_element(
    before: Seq<char>,
    opening: Seq<char>,
    text: Seq<char>,
    closing: Seq<char>,
    after: Seq<char>,
    title: Seq<char>,
)
    requires
        is_in_some_case(opening, "<title>"@),
        is_in_some_case(closing, "</title>"@),
        ({
            let content = before + opening + text + closing + after;
            &&& forall|i: int|
                0 <= i < before.len() ==> !is_in_some_case(
                    #[trigger] content.subrange(i, i + 7),
                    "<title>"@,
                )
            &&& is_titled(content, title)
        }),
        text.len() > 0,
        !text.contains('<'),
        !text.contains('&'),
        !text.contains('\n'),
        !text.contains('\r'),
        !is_white_space(text.first()),
        !is_white_space(text.last()),
    ensures
        text.len() <= 100 ==> title == text,
        text.len() > 100 ==> title == text.take(97) + "..."@,
{
    let content = before + opening + text + closing + after;
    reveal_strlit("<title>");
    reveal_strlit("</title>");
    reveal_strlit("...");
    assert forall|i: int|
        before.len() + 7 <= i < before.len() + 7 + text.len() implies !is_in_some_case(
        #[trigger] content.subrange(i, i + 8),
        "</title>"@,
    ) by {
        let part = content.subrange(i, i + 8);
        assert(part[0] == text[i - before.len() - 7]);
        assert(text.contains(part[0]));
    }
    law_title_element_of_a_page(before, opening, text, closing, after);
    law_long_title_keeps_its_start(text);
    assert(text.len() > 100 ==> title =~= text.take(97) + "..."@);
}

/// A page whose title element is escaped text is titled by the text itself: on one line,
/// without white space at either end, it is shown in full up to 100 characters, and by its
/// first 97 characters and three dots beyond.
pub proof fn law_page_is_titled_by_escaped_text(
    before: Seq<char>,
    opening: Seq<char>,
    text: Seq<char>,
    closing: Seq<char>,
    after: Seq<char>,
    title: Seq<char>,
)
    requires
        is_in_some_case(opening, "<title>"@),
        is_in_some_case(closing, "</title>"@),
        ({
            let content = before + opening + escape(text) + closing + after;
            &&& forall|i: int|
                0 <= i < before.len() ==> !is_in_some_case(
                    #[trigger] content.subrange(i, i + 7),
                    "<title>"@,
                )
            &&& is_titled(content, title)
        }),
        text.len() > 0,
        !text.contains('\n'),
        !text.contains('\r'),
        !is_white_space(text.first()),
        !is_white_space(text.last()),
    ensures
        text.len() <= 100 ==> title == text,
        text.len() > 100 ==> title == text.take(97) + "..."@,
{
    let element = escape(text);
    let content = before + opening + element + closing + after;
    reveal_strlit("<title>");
    reveal_strlit("</title>");
    reveal_strlit("...");
    law_escaped_text_holds_no_tag(text);
    assert forall|i: int|
        before.len() + 7 <= i < before.len() + 7 + element.len() implies !is_in_some_case(
        #[trigger] content.subrange(i, i + 8),
        "</title>"@,
    ) by {
        let part = content.subrange(i, i + 8);
        assert(part[0] == element[i - before.len() - 7]);
        assert(element.contains(part[0]));
    }
    law_title_element_of_a_page(before, opening, element, closing, after);
    law_long_title_keeps_its_start(text);
    assert(text.len() > 100 ==> title =~= text.take(97) + "..."@);
}

} // verus!
