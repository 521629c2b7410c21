//! The names of the pages of tags: each tag has one of its own.

use crate::text::{chars_of, texts};
use vstd::prelude::*;

verus! {

/// The name of the page with the list of all tags.
pub const INDEX: &'static str = "index";

/// The characters that cannot stand in the names of files everywhere.
pub open spec fn is_reserved(c: char) -> bool {
    c == '/' || c == '\\' || c == ':' || c == '*' || c == '?' || c == '"' || c == '<' || c == '>'
        || c == '|'
}

/// The tag with underscores for the characters that cannot stand in the names of files.
pub open spec fn safe_name(tag: Seq<char>) -> Seq<char> {
    tag.map_values(|c: char| if is_reserved(c) { '_' } else { c })
}

/// The tag with underscores for the characters that cannot stand in the names of files.
pub fn safe_tag(tag: &str) -> (name: String)
    ensures
        name@ == safe_name(tag@),
{
    let chars: Vec<char> = chars_of(tag);
    let mut name: String = String::new();
    let mut i: usize = 0;
    while i < chars.len()
        invariant
            i <= chars@.len(),
            chars@ == tag@,
            name@ == safe_name(tag@).take(i as int),
        decreases chars@.len() - i,
    {
        let c: char = chars[i];
        if c == '/' || c == '\\' || c == ':' || c == '*' || c == '?' || c == '"' || c == '<' || c
            == '>' || c == '|' {
            name.push('_');
        } else {
            name.push(c);
        }
        assert(name@ =~= safe_name(tag@).take(i + 1));
        i += 1;
    }
    assert(safe_name(tag@).take(i as int) =~= safe_name(tag@));
    name
}

/// The tags, each with underscores for the characters that cannot stand in the names of
/// files.
pub open spec fn safe_names(tags: Seq<Seq<char>>) -> Seq<Seq<char>> {
    tags.map_values(|tag: Seq<char>| safe_name(tag))
}

/// The length of the longest of the names.
pub open spec fn longest(names: Seq<Seq<char>>) -> nat
    decreases names.len(),
{
    if names.len() == 0 {
        0
    } else if names.last().len() > longest(names.drop_last()) {
        names.last().len()
    } else {
        longest(names.drop_last())
    }
}

/// None of the names is longer than the longest.
pub proof fn lemma_longest(names: Seq<Seq<char>>, name: Seq<char>)
    requires
        names.contains(name),
    ensures
        name.len() <= longest(names),
    decreases names.len(),
{
    let i = choose|i: int| 0 <= i < names.len() && names[i] == name;
    if i < names.len() - 1 {
        assert(names.drop_last()[i] == name);
        lemma_longest(names.drop_last(), name);
    }
}

/// The name, with as many underscores after it as it takes not to be one of those that are
/// taken.
pub open spec fn free_name(taken: Seq<Seq<char>>, name: Seq<char>) -> Seq<char>
    decreases longest(taken) + 1 - name.len(),
{
    proof {
        if taken.contains(name) {
            lemma_longest(taken, name);
        }
    }
    if taken.contains(name) {
        free_name(taken, name.push('_'))
    } else {
        name
    }
}

/// The name of the page of the tag that comes next after those with the pages `names`. It is
/// the safe name of the tag, unless that is the name of the index or of an earlier page; in
/// that case underscores follow it, so that it is not the safe name of any tag either.
pub open spec fn next_name(tags: Seq<Seq<char>>, names: Seq<Seq<char>>) -> Seq<char> {
    let name = safe_name(tags[names.len() as int]);
    if name != INDEX@ && !names.contains(name) {
        name
    } else {
        free_name(seq![INDEX@] + safe_names(tags) + names, name)
    }
}

/// The names of the pages of the first `n` of the tags.
pub open spec fn first_page_names(tags: Seq<Seq<char>>, n: nat) -> Seq<Seq<char>>
    decreases n,
{
    if n == 0 {
        Seq::empty()
    } else {
        let earlier = first_page_names(tags, (n - 1) as nat);
        earlier.push(next_name(tags, earlier))
    }
}

/// The names of the pages of the tags, without `.html`.
pub open spec fn page_names(tags: Seq<Seq<char>>) -> Seq<Seq<char>> {
    first_page_names(tags, tags.len())
}

fn is_among(names: &[String], name: &String) -> (yes: bool)
    ensures
        yes == texts(names@).contains(name@),
{
    let mut i: usize = 0;
    while i < names.len()
        invariant
            i <= names@.len(),
            forall|k: int| 0 <= k < i ==> #[trigger] names@[k]@ != name@,
        decreases names@.len() - i,
    {
        if names[i] == *name {
            assert(texts(names@)[i as int] == name@);
            return true;
        }
        i += 1;
    }
    assert(!texts(names@).contains(name@)) by {
        if texts(names@).contains(name@) {
            let k = choose|k: int| 0 <= k < texts(names@).len() && texts(names@)[k] == name@;
            assert(names@[k]@ == name@);
        }
    }
    false
}

fn name_if_free(taken: &[String], name: String) -> (free: String)
    ensures
        free@ == free_name(texts(taken@), name@),
{
    let ghost wanted = name@;
    let mut name: String = name;
    while is_among(taken, &name)
        invariant
            free_name(texts(taken@), name@) == free_name(texts(taken@), wanted),
        decreases longest(texts(taken@)) + 1 - name@.len(),
    {
        proof {
            lemma_longest(texts(taken@), name@);
        }
        name.push('_');
    }
    name
}

/// The names of the pages of the tags, without `.html`: one for each tag, in their order.
pub fn names_of_pages(tags: &[String]) -> (names: Vec<String>)
    ensures
        names@.len() == tags@.len(),
        texts(names@) == page_names(texts(tags@)),
{
    let ghost all = texts(tags@);
    let mut taken: Vec<String> = Vec::new();
    taken.push(INDEX.to_owned());
    let mut i: usize = 0;
    assert(texts(taken@) =~= seq![INDEX@] + safe_names(all).take(0));
    while i < tags.len()
        invariant
            i <= tags@.len(),
            all == texts(tags@),
            texts(taken@) == seq![INDEX@] + safe_names(all).take(i as int),
        decreases tags@.len() - i,
    {
        let ghost before = taken@;
        let name: String = safe_tag(tags[i].as_str());
        assert(all[i as int] == tags@[i as int]@);
        taken.push(name);
        assert(texts(taken@) =~= texts(before).push(name@));
        assert(texts(taken@) =~= seq![INDEX@] + safe_names(all).take(i + 1));
        i += 1;
    }
    assert(safe_names(all).take(i as int) =~= safe_names(all));
    let ghost none = Seq::<Seq<char>>::empty();
    assert(texts(taken@) =~= seq![INDEX@] + safe_names(all) + none);
    let index: String = INDEX.to_owned();
    let mut names: Vec<String> = Vec::new();
    let mut i: usize = 0;
    assert(texts(names@) =~= none);
    while i < tags.len()
        invariant
            i <= tags@.len(),
            all == texts(tags@),
            index@ == INDEX@,
            names@.len() == i,
            texts(names@) == first_page_names(all, i as nat),
            texts(taken@) == seq![INDEX@] + safe_names(all) + texts(names@),
        decreases tags@.len() - i,
    {
        let ghost earlier = names@;
        let ghost taken_before = taken@;
        let safe: String = safe_tag(tags[i].as_str());
        assert(all[i as int] == tags@[i as int]@);
        let name: String = if safe != index && !is_among(&names, &safe) {
            safe
        } else {
            name_if_free(&taken, safe)
        };
        assert(name@ == next_name(all, texts(earlier)));
        taken.push(name.clone());
        names.push(name);
        assert(texts(names@) =~= texts(earlier).push(name@));
        assert(texts(taken@) =~= texts(taken_before).push(name@));
        assert(texts(taken@) =~= seq![INDEX@] + safe_names(all) + texts(names@));
        assert(first_page_names(all, (i + 1) as nat) == texts(names@));
        i += 1;
    }
    names
}

proof fn lemma_free_name(taken: Seq<Seq<char>>, name: Seq<char>)
    ensures
        !taken.contains(free_name(taken, name)),
        forall|c: char| #[trigger]
            free_name(taken, name).contains(c) ==> name.contains(c) || c == '_',
    decreases longest(taken) + 1 - name.len(),
{
    if taken.contains(name) {
        lemma_longest(taken, name);
        let longer = name.push('_');
        lemma_free_name(taken, longer);
        assert forall|c: char| #[trigger] free_name(taken, name).contains(c) implies name.contains(
            c,
        ) || c == '_' by {
            if c != '_' {
                let i = choose|i: int| 0 <= i < longer.len() && longer[i] == c;
                assert(name[i] == c);
            }
        }
    }
}

/// The safe name of a tag holds no reserved character.
pub proof fn law_safe_names_hold_no_reserved_character(tag: Seq<char>, c: char)
    requires
        is_reserved(c),
    ensures
        !safe_name(tag).contains(c),
{
    let name = safe_name(tag);
    if name.contains(c) {
        let i = choose|i: int| 0 <= i < name.len() && name[i] == c;
        assert(name[i] == if is_reserved(tag[i]) {
            '_'
        } else {
            tag[i]
        });
    }
}

proof fn lemma_first_page_names(tags: Seq<Seq<char>>, n: nat)
    requires
        n <= tags.len(),
    ensures
        ({
            let names = first_page_names(tags, n);
            &&& names.len() == n
            &&& names.no_duplicates()
            &&& !names.contains(INDEX@)
            &&& forall|i: int|
                0 <= i < n ==> #[trigger] names[i] == safe_name(tags[i]) || !safe_names(
                    tags,
                ).contains(names[i])
            &&& forall|i: int|
                #![trigger names[i]]
                0 <= i < n && safe_name(tags[i]) != INDEX@ && (forall|j: int|
                    0 <= j < i ==> safe_name(#[trigger] tags[j]) != safe_name(tags[i]))
                    ==> names[i] == safe_name(tags[i])
            &&& forall|i: int, c: char|
                0 <= i < n && is_reserved(c) ==> !#[trigger] names[i].contains(c)
        }),
    decreases n,
{
    if n > 0 {
        let earlier = first_page_names(tags, (n - 1) as nat);
        lemma_first_page_names(tags, (n - 1) as nat);
        let safe = safe_name(tags[n - 1]);
        let name = next_name(tags, earlier);
        let names = first_page_names(tags, n);
        let taken = seq![INDEX@] + safe_names(tags) + earlier;
        assert(names == earlier.push(name));
        lemma_free_name(taken, safe);
        assert(taken[0] == INDEX@);
        assert(taken.contains(INDEX@));
        assert forall|k: int| 0 <= k < earlier.len() implies taken.contains(
            #[trigger] earlier[k],
        ) by {
            assert(taken[1 + tags.len() + k] == earlier[k]);
        }
        assert forall|k: int| 0 <= k < tags.len() implies taken.contains(
            #[trigger] safe_names(tags)[k],
        ) by {
            assert(taken[1 + k] == safe_names(tags)[k]);
        }
        assert(!earlier.contains(name));
        assert(name != INDEX@);
        assert(name == safe || !safe_names(tags).contains(name));
        assert forall|c: char| is_reserved(c) implies !#[trigger] name.contains(c) by {
            law_safe_names_hold_no_reserved_character(tags[n - 1], c);
        }
        if safe != INDEX@ && forall|j: int|
            0 <= j < n - 1 ==> safe_name(#[trigger] tags[j]) != safe {
            assert(!earlier.contains(safe)) by {
                if earlier.contains(safe) {
                    let j = choose|j: int| 0 <= j < earlier.len() && earlier[j] == safe;
                    assert(safe_names(tags)[n - 1] == safe);
                    assert(safe_name(tags[j]) != safe);
                }
            }
        }
        assert forall|i: int, c: char|
            0 <= i < n && is_reserved(c) implies !#[trigger] names[i].contains(c) by {
            if i < n - 1 {
                assert(names[i] == earlier[i]);
            }
        }
        assert(!names.contains(INDEX@)) by {
            if names.contains(INDEX@) {
                let i = choose|i: int| 0 <= i < names.len() && names[i] == INDEX@;
                assert(earlier[i] == INDEX@);
            }
        }
    }
}

/// Each tag has a page name of its own, and none has that of the index. A tag keeps its
/// safe name, unless that is the name of the index or an earlier tag has it. No page name
/// holds a reserved character; so the page stands in the output directory itself.
pub proof fn law_page_names(tags: Seq<Seq<char>>)
    ensures
        page_names(tags).len() == tags.len(),
        page_names(tags).no_duplicates(),
        !page_names(tags).contains(INDEX@),
        forall|i: int|
            #![trigger page_names(tags)[i]]
            0 <= i < tags.len() && safe_name(tags[i]) != INDEX@ && (forall|j: int|
                0 <= j < i ==> safe_name(#[trigger] tags[j]) != safe_name(tags[i]))
                ==> page_names(tags)[i] == safe_name(tags[i]),
        forall|i: int, c: char|
            0 <= i < tags.len() && is_reserved(c) ==> !#[trigger] page_names(tags)[i].contains(c),
{
    lemma_first_page_names(tags, tags.len());
}

/// A tag without reserved characters is its own safe name.
pub proof fn law_plain_tag_is_its_safe_name(tag: Seq<char>)
    requires
        forall|i: int| 0 <= i < tag.len() ==> !is_reserved(#[trigger] tag[i]),
    ensures
        safe_name(tag) == tag,
{
    assert(safe_name(tag) =~= tag);
}

/// The reserved characters are these and no others.
pub proof fn law_reserved_characters(c: char)
    ensures
        is_reserved(c) <==> seq!['/', '\\', ':', '*', '?', '"', '<', '>', '|'].contains(c),
{
    let all = seq!['/', '\\', ':', '*', '?', '"', '<', '>', '|'];
    assert(all[0] == '/' && all[1] == '\\' && all[2] == ':' && all[3] == '*' && all[4] == '?'
        && all[5] == '"' && all[6] == '<' && all[7] == '>' && all[8] == '|');
}

/// A safe name is as long as the tag. It has an underscore where the tag has a reserved
/// character, and the character of the tag everywhere else.
pub proof fn law_safe_name(tag: Seq<char>, i: int)
    ensures
        safe_name(tag).len() == tag.len(),
        0 <= i < tag.len() && is_reserved(tag[i]) ==> safe_name(tag)[i] == '_',
        0 <= i < tag.len() && !is_reserved(tag[i]) ==> safe_name(tag)[i] == tag[i],
{
}

/// The name and as many underscores after it.
pub open spec fn with_underscores(name: Seq<char>, count: nat) -> Seq<char> {
    name + Seq::new(count, |i: int| '_')
}

proof fn lemma_free_name_is_padded(taken: Seq<Seq<char>>, name: Seq<char>) -> (k: nat)
    ensures
        free_name(taken, name) == with_underscores(name, k),
        forall|j: nat| j < k ==> taken.contains(#[trigger] with_underscores(name, j)),
    decreases longest(taken) + 1 - name.len(),
{
    assert(with_underscores(name, 0) =~= name);
    if taken.contains(name) {
        lemma_longest(taken, name);
        let longer = name.push('_');
        let more = lemma_free_name_is_padded(taken, longer);
        let k = more + 1;
        assert(with_underscores(longer, more) =~= with_underscores(name, k));
        assert forall|j: nat| j < k implies taken.contains(
            #[trigger] with_underscores(name, j),
        ) by {
            if j > 0 {
                let less = (j - 1) as nat;
                assert(taken.contains(with_underscores(longer, less)));
                assert(with_underscores(longer, less) =~= with_underscores(name, j));
            }
        }
        k
    } else {
        0
    }
}

proof fn lemma_first_page_names_grow(tags: Seq<Seq<char>>, n: nat, i: int)
    requires
        0 <= i < n <= tags.len(),
    ensures
        first_page_names(tags, n).take(i) == first_page_names(tags, i as nat),
        first_page_names(tags, n)[i] == next_name(tags, first_page_names(tags, i as nat)),
        first_page_names(tags, i as nat).len() == i,
    decreases n,
{
    lemma_first_page_names(tags, n);
    lemma_first_page_names(tags, (n - 1) as nat);
    let names = first_page_names(tags, n);
    let earlier = first_page_names(tags, (n - 1) as nat);
    if i < n - 1 {
        lemma_first_page_names_grow(tags, (n - 1) as nat, i);
        assert(names.take(i) =~= earlier.take(i));
    } else {
        assert(names.take(i) =~= earlier);
    }
}

/// The name of a tag's page is the safe name of the tag with underscores after it, and no more
/// of them than it takes: with fewer, the name would be that of the index, the safe name of a
/// tag, or the name of an earlier page. A name that needs none has none.
pub proof fn law_page_name_is_the_safe_name_with_underscores(tags: Seq<Seq<char>>, i: int) -> (
    k: nat)
    requires
        0 <= i < tags.len(),
    ensures
        page_names(tags)[i] == with_underscores(safe_name(tags[i]), k),
        forall|j: nat|
            j < k ==> ({
                let name = #[trigger] with_underscores(safe_name(tags[i]), j);
                ||| name == "index"@
                ||| exists|t: int| 0 <= t < tags.len() && name == safe_name(#[trigger] tags[t])
                ||| exists|t: int| 0 <= t < i && name == #[trigger] page_names(tags)[t]
            }),
        k > 0 ==> safe_name(tags[i]) == "index"@ || exists|t: int|
            0 <= t < i && safe_name(tags[i]) == #[trigger] page_names(tags)[t],
{
    let n = tags.len();
    let names = page_names(tags);
    let earlier = first_page_names(tags, i as nat);
    let safe = safe_name(tags[i]);
    lemma_first_page_names(tags, n);
    lemma_first_page_names_grow(tags, n, i);
    assert forall|name: Seq<char>| #[trigger] earlier.contains(name) implies exists|t: int|
        0 <= t < i && name == #[trigger] names[t] by {
        let t = choose|t: int| 0 <= t < earlier.len() && earlier[t] == name;
        assert(names.take(i)[t] == names[t]);
    }
    if safe != "index"@ && !earlier.contains(safe) {
        assert(with_underscores(safe, 0) =~= safe);
        0
    } else {
        let taken = seq![INDEX@] + safe_names(tags) + earlier;
        let k = lemma_free_name_is_padded(taken, safe);
        assert forall|j: nat| j < k implies ({
            let name = #[trigger] with_underscores(safe_name(tags[i]), j);
            ||| name == "index"@
            ||| exists|t: int| 0 <= t < tags.len() && name == safe_name(#[trigger] tags[t])
            ||| exists|t: int| 0 <= t < i && name == #[trigger] page_names(tags)[t]
        }) by {
            let name = with_underscores(safe, j);
            assert(taken.contains(name));
            let at = choose|at: int| 0 <= at < taken.len() && taken[at] == name;
            if 0 < at <= tags.len() {
                assert(safe_names(tags)[at - 1] == safe_name(tags[at - 1]));
            } else if at > tags.len() {
                assert(earlier[at - 1 - tags.len()] == name);
                assert(earlier.contains(name));
            }
        }
        k
    }
}

} // verus!
