//! Paths as text: the extension of a name, and the part of a path below a directory.

use crate::text::optional_text;
use vstd::prelude::*;

verus! {

/// The place after the last `sep` of `s`; the start, where there is none.
pub open spec fn after_last(s: Seq<char>, sep: char) -> int
    decreases s.len(),
{
    if s.len() == 0 {
        0
    } else if s.last() == sep {
        s.len() as int
    } else {
        after_last(s.drop_last(), sep)
    }
}

/// Whether the character parts the names of a path: a slash does so everywhere, and a
/// backslash on some platforms.
pub open spec fn is_separator(c: char) -> bool {
    c == '/' || c == '\\'
}

/// Whether the path begins as the path of a server does.
pub open spec fn names_a_server(path: Seq<char>) -> bool {
    path.len() >= 2 && is_separator(path[0]) && is_separator(path[1])
}

/// Whether the path begins as the path on a drive does.
pub open spec fn names_a_drive(path: Seq<char>) -> bool {
    path.len() >= 2 && path[1] == ':'
}

/// The place where the last name of the path begins, where backslashes part names too and a
/// drive can stand in front.
pub open spec fn after_last_separator(path: Seq<char>) -> int
    decreases path.len(),
{
    if path.len() == 0 {
        0
    } else if is_separator(path.last()) || (path.len() == 2 && path.last() == ':') {
        path.len() as int
    } else {
        after_last_separator(path.drop_last())
    }
}

/// The last name of the path, where only slashes part names.
pub open spec fn last_name(path: Seq<char>) -> Seq<char> {
    path.skip(after_last(path, '/'))
}

/// The last name of the path, where backslashes part names too and a drive can stand in
/// front.
pub open spec fn last_name_on_a_drive(path: Seq<char>) -> Seq<char> {
    path.skip(after_last_separator(path))
}

/// Whether the name is that of a file.
pub open spec fn is_file_name(name: Seq<char>) -> bool {
    name.len() > 0 && name != "."@ && name != ".."@
}

/// What follows the last dot of a name, unless there is no dot but at its start.
pub open spec fn name_extension(name: Seq<char>) -> Option<Seq<char>> {
    let at = after_last(name, '.');
    if at <= 1 {
        None
    } else {
        Some(name.skip(at))
    }
}

/// What holds, on every platform, of the extension of a path: it follows a dot and holds
/// none, and a path without a dot has none. It is the extension of the last name of the
/// path, whichever way the platform parts the path into names. What is the last name in the
/// path of a server is left open.
pub open spec fn is_extension_of(path: Seq<char>, extension: Option<Seq<char>>) -> bool {
    &&& match extension {
        Some(extension) => {
            &&& !extension.contains('.')
            &&& exists|i: int|
                0 <= i && i + 1 + extension.len() <= path.len() && #[trigger] path.subrange(
                    i,
                    i + 1 + extension.len(),
                ) == seq!['.'] + extension
        },
        None => true,
    }
    &&& !path.contains('.') ==> extension is None
    &&& !names_a_server(path) && is_file_name(last_name(path)) && is_file_name(
        last_name_on_a_drive(path),
    ) ==> extension == name_extension(last_name(path)) || extension == name_extension(
        last_name_on_a_drive(path),
    )
}

/// Whether the path ends with a name other than a single dot.
pub open spec fn ends_with_a_name(path: Seq<char>) -> bool {
    let n = path.len() as int;
    &&& n > 0
    &&& !is_separator(path[n - 1])
    &&& path[n - 1] == '.' ==> n > 1 && !is_separator(path[n - 2])
}

/// Whether the path begins with a name other than a single dot.
pub open spec fn begins_with_a_name(path: Seq<char>) -> bool {
    &&& path.len() > 0
    &&& !is_separator(path[0])
    &&& path[0] == '.' ==> path.len() > 1 && !is_separator(path[1])
}

/// Whether separators stand one by one in the path, and none of its names but the first is a
/// single dot.
pub open spec fn is_tidy(path: Seq<char>) -> bool {
    &&& forall|i: int|
        0 <= i < path.len() - 1 && is_separator(#[trigger] path[i]) ==> !is_separator(path[i + 1])
    &&& forall|i: int|
        1 <= i < path.len() && #[trigger] path[i] == '.' && is_separator(path[i - 1]) ==> i + 1
            < path.len() && !is_separator(path[i + 1])
}

/// Whether the path is that of a directory on every platform: not the bare name of a drive.
pub open spec fn is_directory_path(dir: Seq<char>) -> bool {
    dir.len() > 0 && !(dir.len() == 2 && names_a_drive(dir))
}

/// The path of a directory without the separator at its end.
pub open spec fn without_separator(dir: Seq<char>) -> Seq<char> {
    if dir.len() > 0 && is_separator(dir.last()) {
        dir.drop_last()
    } else {
        dir
    }
}

/// What follows the path of the directory `dir` and a separator in `path`.
pub open spec fn rest_of_path(path: Seq<char>, dir: Seq<char>) -> Seq<char> {
    path.skip(without_separator(dir).len() as int + 1)
}

/// Whether, on every platform, the path is made of the path of the directory `dir`, a slash,
/// and the path of something in it.
pub open spec fn lies_in(path: Seq<char>, dir: Seq<char>) -> bool {
    let n = without_separator(dir).len() as int;
    &&& is_directory_path(dir)
    &&& dir.last() != '\\'
    &&& !names_a_server(dir)
    &&& path.len() > n + 1
    &&& path.take(n) == without_separator(dir)
    &&& path[n] == '/'
    &&& begins_with_a_name(rest_of_path(path, dir))
    &&& ends_with_a_name(rest_of_path(path, dir))
}

/// Whether the path begins like the path of the directory `dir`, where any separator is like
/// any other, and so is one drive like another.
pub open spec fn begins_like(path: Seq<char>, dir: Seq<char>) -> bool {
    let n = without_separator(dir).len() as int;
    &&& path.len() >= n
    &&& forall|i: int|
        0 <= i < n ==> #[trigger] path[i] == dir[i] || (is_separator(path[i]) && is_separator(
            dir[i],
        )) || (i == 0 && names_a_drive(path) && names_a_drive(dir))
    &&& path.len() > n ==> is_separator(path[n])
}

/// Whether, on some platform, the path can be that of something in the directory `dir`.
pub open spec fn may_lie_in(path: Seq<char>, dir: Seq<char>) -> bool {
    &&& is_directory_path(dir)
    &&& is_tidy(path)
    &&& is_tidy(dir)
    &&& begins_like(path, dir)
    &&& path.len() > without_separator(dir).len() + 1
    &&& begins_with_a_name(rest_of_path(path, dir))
    &&& ends_with_a_name(rest_of_path(path, dir))
}

/// Whether, on every platform, the path is that of something that is not in the directory
/// `dir`.
pub open spec fn lies_outside(path: Seq<char>, dir: Seq<char>) -> bool {
    &&& is_directory_path(dir)
    &&& is_tidy(path)
    &&& is_tidy(dir)
    &&& !begins_like(path, dir)
}

/// What holds, on every platform, of the path below a directory. It is a part of the path,
/// and the directory itself is at the empty path. What is in the directory is at what follows
/// the directory's path; everything is in the directory at the empty path; and what is not in
/// the directory is at no path below it. Where it is the platform's to say whether the path
/// is in the directory, there is no other path below it than that.
pub open spec fn is_path_below(
    path: Seq<char>,
    base_dir: Seq<char>,
    below: Option<Seq<char>>,
) -> bool {
    &&& match below {
        Some(below) => exists|from: int, to: int|
            0 <= from <= to <= path.len() && below == #[trigger] path.subrange(from, to),
        None => true,
    }
    &&& path == base_dir ==> below == Some(Seq::<char>::empty())
    &&& base_dir.len() == 0 && ends_with_a_name(path) ==> below == Some(path)
    &&& lies_in(path, base_dir) ==> below == Some(rest_of_path(path, base_dir))
    &&& lies_outside(path, base_dir) ==> below is None
    &&& may_lie_in(path, base_dir) ==> below is None || below == Some(
        rest_of_path(path, base_dir),
    )
}

/// Whether the path below a directory is the same on every platform.
pub open spec fn is_settled(path: Seq<char>, base_dir: Seq<char>) -> bool {
    ||| path == base_dir
    ||| base_dir.len() == 0 && ends_with_a_name(path)
    ||| lies_in(path, base_dir)
    ||| lies_outside(path, base_dir)
}

/// `Path::extension`: the part of the file name after the last dot, unless there is no dot
/// but at its start. How a path is parted into names is the platform's; the contract says
/// what holds on every platform.
#[verifier::external_body]
pub(crate) fn path_extension(path: &str) -> (res: Option<String>)
    ensures
        is_extension_of(path@, optional_text(res)),
{
    Some(std::path::Path::new(path).extension()?.to_string_lossy().into_owned())
}

/// `Path::strip_prefix`: the path that yields `path` when it is joined to `base_dir`, where
/// `path` begins with all names of `base_dir`. How a path is parted into names is the
/// platform's; the contract says what holds on every platform. What is said of a directory
/// that begins as a server does, or is a bare drive, is only that the result is a part of the
/// path.
#[verifier::external_body]
pub(crate) fn path_below(path: &str, base_dir: &str) -> (res: Option<String>)
    ensures
        is_path_below(path@, base_dir@, optional_text(res)),
{
    let below = std::path::Path::new(path).strip_prefix(base_dir).ok()?;
    Some(below.to_string_lossy().into_owned())
}

proof fn lemma_after_last(s: Seq<char>, sep: char)
    ensures
        0 <= after_last(s, sep) <= s.len(),
        after_last(s, sep) > 0 ==> s[after_last(s, sep) - 1] == sep,
        !s.skip(after_last(s, sep)).contains(sep),
    decreases s.len(),
{
    if s.len() > 0 && s.last() != sep {
        let head = s.drop_last();
        lemma_after_last(head, sep);
        let at = after_last(s, sep);
        let tail = s.skip(at);
        if tail.contains(sep) {
            let i = choose|i: int| 0 <= i < tail.len() && tail[i] == sep;
            assert(head.skip(at)[i] == sep);
        }
    }
}

proof fn lemma_after_last_is(front: Seq<char>, sep: char, back: Seq<char>)
    requires
        !back.contains(sep),
    ensures
        after_last(front.push(sep) + back, sep) == front.len() + 1,
    decreases back.len(),
{
    let s = front.push(sep) + back;
    if back.len() > 0 {
        let head = back.drop_last();
        assert forall|c: char| head.contains(c) implies back.contains(c) by {
            let i = choose|i: int| 0 <= i < head.len() && head[i] == c;
            assert(back[i] == c);
        }
        lemma_after_last_is(front, sep, head);
        assert(s.drop_last() =~= front.push(sep) + head);
        assert(back.contains(back.last()));
    } else {
        assert(s =~= front.push(sep));
    }
}

proof fn lemma_after_last_separator(path: Seq<char>)
    ensures
        0 <= after_last_separator(path) <= path.len(),
    decreases path.len(),
{
    if path.len() > 0 {
        lemma_after_last_separator(path.drop_last());
    }
}

proof fn lemma_names_end_alike(front: Seq<char>, back: Seq<char>)
    requires
        front.len() > 0,
        forall|i: int| 0 <= i < back.len() ==> !is_separator(#[trigger] back[i]) && back[i] != ':',
    ensures
        after_last(front + back, '/') == after_last(front, '/'),
        after_last_separator(front + back) == after_last_separator(front),
    decreases back.len(),
{
    if back.len() > 0 {
        let s = front + back;
        lemma_names_end_alike(front, back.drop_last());
        assert(s.drop_last() =~= front + back.drop_last());
        assert(s.last() == back[back.len() - 1]);
    } else {
        assert(front + back =~= front);
    }
}

/// Whatever ends with a character that parts no names, a dot, and an extension without a dot
/// or a character that parts names, has that extension on every platform.
pub proof fn law_extension_at_the_end(
    path: Seq<char>,
    found: Option<Seq<char>>,
    front: Seq<char>,
    c: char,
    extension: Seq<char>,
)
    requires
        is_extension_of(path, found),
        !names_a_server(path),
        path == front.push(c).push('.') + extension,
        !is_separator(c),
        c != ':',
        forall|i: int|
            0 <= i < extension.len() ==> !is_separator(#[trigger] extension[i]) && extension[i]
                != ':' && extension[i] != '.',
        extension.len() > 0,
    ensures
        found == Some(extension),
{
    let start = front.push(c);
    let back = seq!['.'] + extension;
    assert(path =~= start + back);
    lemma_names_end_alike(start, back);
    lemma_after_last(start, '/');
    lemma_after_last_separator(start);
    assert(start.drop_last() =~= front);
    lemma_after_last(front, '/');
    lemma_after_last_separator(front);
    assert(!extension.contains('.'));
    reveal_strlit(".");
    reveal_strlit("..");
    let u = last_name(path);
    let w = last_name_on_a_drive(path);
    let u_stem = start.skip(after_last(path, '/'));
    let w_stem = start.skip(after_last_separator(path));
    assert(u =~= u_stem.push('.') + extension);
    assert(w =~= w_stem.push('.') + extension);
    law_name_extension(u, extension);
    law_name_extension(w, extension);
    assert(u.len() >= 3 && w.len() >= 3);
}

/// A path with an extension ends with a dot and the extension, if its last name is that of a
/// file however the path is parted into names.
pub proof fn law_path_ends_with_its_extension(path: Seq<char>, extension: Seq<char>)
    requires
        is_extension_of(path, Some(extension)),
        !names_a_server(path),
        is_file_name(last_name(path)),
        is_file_name(last_name_on_a_drive(path)),
    ensures
        exists|front: Seq<char>|
            front.len() > 0 && front.last() != '/' && path == #[trigger] front.push('.')
                + extension,
{
    lemma_after_last(path, '/');
    lemma_after_last_separator(path);
    let u = last_name(path);
    let w = last_name_on_a_drive(path);
    law_name_extension(u, extension);
    law_name_extension(w, extension);
    if name_extension(u) == Some(extension) {
        let at = after_last(path, '/');
        let stem = choose|stem: Seq<char>|
            stem.len() > 0 && u == #[trigger] stem.push('.') + extension;
        let front = path.take(at) + stem;
        assert(path =~= path.take(at) + u);
        assert(path =~= front.push('.') + extension);
        assert(stem.last() == u[stem.len() - 1]);
        assert(u.contains(u[stem.len() - 1]));
    } else {
        let at = after_last_separator(path);
        let stem = choose|stem: Seq<char>|
            stem.len() > 0 && w == #[trigger] stem.push('.') + extension;
        let front = path.take(at) + stem;
        assert(path =~= path.take(at) + w);
        assert(path =~= front.push('.') + extension);
        lemma_no_separator_after(path, at + stem.len() - 1);
        assert(stem.last() == path[at + stem.len() - 1]);
    }
}

proof fn lemma_no_separator_after(path: Seq<char>, i: int)
    requires
        after_last_separator(path) <= i < path.len(),
    ensures
        !is_separator(path[i]),
    decreases path.len(),
{
    lemma_after_last_separator(path);
    if i < path.len() - 1 {
        lemma_no_separator_after(path.drop_last(), i);
    }
}

/// Where the path below a directory is the same on every platform, there is one such path.
pub proof fn law_settled_path_is_unique(
    path: Seq<char>,
    base_dir: Seq<char>,
    one: Option<Seq<char>>,
    other: Option<Seq<char>>,
)
    requires
        is_settled(path, base_dir),
        is_path_below(path, base_dir, one),
        is_path_below(path, base_dir, other),
    ensures
        one == other,
{
}

/// What is `rest` in a directory lies in it, whether the path of the directory ends with a
/// slash or not.
pub proof fn law_joined_path_lies_in_the_directory(dir: Seq<char>, rest: Seq<char>)
    requires
        is_directory_path(dir),
        dir.last() != '\\',
        !names_a_server(dir),
        begins_with_a_name(rest),
        ends_with_a_name(rest),
    ensures
        lies_in(without_separator(dir).push('/') + rest, dir),
        rest_of_path(without_separator(dir).push('/') + rest, dir) == rest,
        dir.last() == '/' ==> without_separator(dir).push('/') + rest == dir + rest,
{
    let path = without_separator(dir).push('/') + rest;
    assert(rest_of_path(path, dir) =~= rest);
    assert(path.take(without_separator(dir).len() as int) =~= without_separator(dir));
    if dir.last() == '/' {
        assert(dir.drop_last().push('/') =~= dir);
    }
}

/// A name has the extension `extension` if and only if it is something, a dot, and the
/// extension, in which there is no dot.
pub proof fn law_name_extension(name: Seq<char>, extension: Seq<char>)
    ensures
        name_extension(name) == Some(extension) <==> !extension.contains('.') && exists|
            stem: Seq<char>,
        |
            stem.len() > 0 && name == #[trigger] stem.push('.') + extension,
{
    lemma_after_last(name, '.');
    let at = after_last(name, '.');
    if name_extension(name) == Some(extension) {
        let stem = name.take(at - 1);
        assert(name =~= stem.push('.') + extension);
    }
    if !extension.contains('.') && exists|stem: Seq<char>|
        stem.len() > 0 && name == #[trigger] stem.push('.') + extension {
        let stem = choose|stem: Seq<char>|
            stem.len() > 0 && name == #[trigger] stem.push('.') + extension;
        lemma_after_last_is(stem, '.', extension);
        assert(name.skip(stem.len() as int + 1) =~= extension);
    }
}

} // verus!
