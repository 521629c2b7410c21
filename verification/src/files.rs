//! The HTML files of a directory: what is known of each, and their order.

use crate::clock::Timestamp;
use crate::digest::{calculate_file_hash, sha256_digest};
use crate::text::{from_utf8_lossy, hex, lossy_text, optional_text};
use crate::title::{extract_title_from_html, is_titled, page_title};
use vstd::prelude::*;

verus! {

/// An HTML file.
#[derive(Debug)]
pub struct HtmlFile {
    pub path: String,
    pub title: String,
    pub modified: Timestamp,
    pub size: u64,
    pub hash: String,
}

/// The texts and numbers of an `HtmlFile`.
pub struct HtmlFileView {
    pub path: Seq<char>,
    pub title: Seq<char>,
    pub modified: Timestamp,
    pub size: u64,
    pub hash: Seq<char>,
}

impl View for HtmlFile {
    type V = HtmlFileView;

    open spec fn view(&self) -> HtmlFileView {
        HtmlFileView {
            path: self.path@,
            title: self.title@,
            modified: self.modified,
            size: self.size,
            hash: self.hash@,
        }
    }
}

/// What the file system says of a file.
#[derive(Debug)]
pub struct FileStat {
    pub size: u64,
    /// The time of the last change, where the file system tells it.
    pub modified: Option<Timestamp>,
}

/// What came of looking at a file and reading it.
#[derive(Debug)]
pub struct FileFacts {
    pub stat: Option<FileStat>,
    /// The contents as text; nothing where the file could not be read or is no text.
    pub content: Option<String>,
    /// The contents as bytes; nothing where the file could not be read.
    pub bytes: Option<Vec<u8>>,
}

/// The texts and numbers of `FileFacts`.
pub struct FileFactsView {
    pub stat: Option<FileStat>,
    pub content: Option<Seq<char>>,
    pub bytes: Option<Seq<u8>>,
}

impl View for FileFacts {
    type V = FileFactsView;

    open spec fn view(&self) -> FileFactsView {
        FileFactsView {
            stat: self.stat,
            content: optional_text(self.content),
            bytes: match self.bytes {
                Some(bytes) => Some(bytes@),
                None => None,
            },
        }
    }
}

/// The hash of contents that may be missing: nothing is the hash of missing contents.
pub open spec fn hash_of(bytes: Option<Seq<u8>>) -> Seq<char> {
    match bytes {
        Some(bytes) => hex(sha256_digest(bytes)),
        None => Seq::empty(),
    }
}

/// The text of a file: its contents as text, else its bytes with replacement characters for
/// what is no text.
pub open spec fn readable_text(facts: FileFactsView) -> Option<Seq<char>> {
    match (facts.content, facts.bytes) {
        (Some(content), _) => Some(content),
        (None, Some(bytes)) => Some(lossy_text(bytes)),
        (None, None) => None,
    }
}

/// What is known of the file at `path`: nothing, unless its size, its time of change and
/// its contents are all there.
pub open spec fn described(path: Seq<char>, facts: FileFactsView) -> Option<HtmlFileView> {
    match (facts.stat, readable_text(facts)) {
        (Some(stat), Some(text)) => match stat.modified {
            Some(modified) => Some(
                HtmlFileView {
                    path,
                    title: page_title(text),
                    modified,
                    size: stat.size,
                    hash: hash_of(facts.bytes),
                },
            ),
            None => None,
        },
        _ => None,
    }
}

/// The file at `path`, where all that is needed of it is known. A file that is not text is
/// titled by what can be read of it.
pub fn describe_file(path: String, facts: FileFacts) -> (res: Option<HtmlFile>)
    ensures
        match res {
            Some(file) => described(path@, facts@) == Some(file@) && is_titled(
                readable_text(facts@)->0,
                file.title@,
            ),
            None => described(path@, facts@) is None,
        },
{
    let FileFacts { stat, content, bytes } = facts;
    let stat: FileStat = match stat {
        Some(stat) => stat,
        None => return None,
    };
    let modified: Timestamp = match stat.modified {
        Some(modified) => modified,
        None => return None,
    };
    let title: String = match (&content, &bytes) {
        (Some(content), _) => extract_title_from_html(content.as_str()),
        (None, Some(bytes)) => extract_title_from_html(from_utf8_lossy(bytes).as_str()),
        (None, None) => return None,
    };
    let hash: String = match &bytes {
        Some(bytes) => calculate_file_hash(bytes),
        None => String::new(),
    };
    Some(HtmlFile { path, title, modified, size: stat.size, hash })
}

/// A file whose size, time of change and bytes are known is always listed, whether its bytes
/// are text or not.
pub proof fn law_file_with_known_bytes_is_listed(path: Seq<char>, facts: FileFactsView)
    requires
        facts.stat is Some,
        facts.stat->0.modified is Some,
        facts.bytes is Some,
    ensures
        described(path, facts) is Some,
        described(path, facts)->0.path == path,
        described(path, facts)->0.size == facts.stat->0.size,
        Some(described(path, facts)->0.modified) == facts.stat->0.modified,
        described(path, facts)->0.hash == hex(sha256_digest(facts.bytes->0)),
{
}

/// The files that the vector holds.
pub open spec fn files_of(files: Seq<HtmlFile>) -> Seq<HtmlFileView> {
    files.map_values(|f: HtmlFile| f@)
}

/// Whether the files stand newest first.
pub open spec fn newest_first(files: Seq<HtmlFileView>) -> bool {
    forall|i: int, j: int|
        0 <= i <= j < files.len() ==> (#[trigger] files[j]).modified.nanos() <= (
        #[trigger] files[i]).modified.nanos()
}

/// The files last changed at the time `t`, in the order in which they stand.
pub open spec fn changed_at(files: Seq<HtmlFileView>, t: int) -> Seq<HtmlFileView> {
    files.filter(|f: HtmlFileView| f.modified.nanos() == t)
}

/// Whether `sorted` holds the files newest first, and those of one and the same time in
/// the order in which they stand in `files`.
pub open spec fn is_sorted_scan(files: Seq<HtmlFileView>, sorted: Seq<HtmlFileView>) -> bool {
    &&& newest_first(sorted)
    &&& forall|t: int| #[trigger] changed_at(sorted, t) == changed_at(files, t)
}

proof fn lemma_changed_at_insert(files: Seq<HtmlFileView>, at: int, file: HtmlFileView, t: int)
    requires
        0 <= at <= files.len(),
        forall|i: int|
            at <= i < files.len() ==> (#[trigger] files[i]).modified.nanos()
                < file.modified.nanos(),
    ensures
        changed_at(files.insert(at, file), t) == changed_at(files.push(file), t),
{
    let same = |f: HtmlFileView| f.modified.nanos() == t;
    let front = files.take(at);
    let back = files.skip(at);
    let one = seq![file];
    assert(files.insert(at, file) =~= front + one + back);
    assert(files.push(file) =~= front + back + one);
    Seq::filter_distributes_over_add(front + one, back, same);
    Seq::filter_distributes_over_add(front, one, same);
    Seq::filter_distributes_over_add(front + back, one, same);
    Seq::filter_distributes_over_add(front, back, same);
    if file.modified.nanos() == t {
        lemma_changed_at_none(back, t);
        assert(front.filter(same) + one.filter(same) + back.filter(same) =~= front.filter(same)
            + back.filter(same) + one.filter(same));
    } else {
        lemma_changed_at_none(one, t);
        assert(front.filter(same) + one.filter(same) + back.filter(same) =~= front.filter(same)
            + back.filter(same) + one.filter(same));
    }
}

proof fn lemma_changed_at_none(files: Seq<HtmlFileView>, t: int)
    requires
        forall|i: int| 0 <= i < files.len() ==> (#[trigger] files[i]).modified.nanos() != t,
    ensures
        changed_at(files, t) == Seq::<HtmlFileView>::empty(),
    decreases files.len(),
{
    reveal(Seq::filter);
    if files.len() > 0 {
        lemma_changed_at_none(files.drop_last(), t);
    }
}

fn insert_by_time(sorted: &mut Vec<HtmlFile>, file: HtmlFile)
    requires
        newest_first(files_of(old(sorted)@)),
    ensures
        newest_first(files_of(final(sorted)@)),
        forall|t: int| #[trigger]
            changed_at(files_of(final(sorted)@), t) == changed_at(
                files_of(old(sorted)@).push(file@),
                t,
            ),
{
    let ghost files = files_of(sorted@);
    let mut at: usize = sorted.len();
    while at > 0 && sorted[at - 1].modified.is_before(&file.modified)
        invariant
            at <= sorted@.len(),
            sorted@ == old(sorted)@,
            files == files_of(sorted@),
            forall|i: int|
                at <= i < files.len() ==> (#[trigger] files[i]).modified.nanos()
                    < file.modified.nanos(),
        decreases at,
    {
        at -= 1;
    }
    proof {
        assert forall|t: int| #[trigger]
            changed_at(files.insert(at as int, file@), t) == changed_at(files.push(file@), t) by {
            lemma_changed_at_insert(files, at as int, file@, t);
        }
    }
    sorted.insert(at, file);
    assert(files_of(sorted@) =~= files.insert(at as int, file@));
}

/// The files found by a scan, newest first; files of one and the same time stay in the
/// order in which they were found. A scan that failed stays failed.
pub fn scan_html_files<E>(found: Result<Vec<HtmlFile>, E>) -> (res: Result<Vec<HtmlFile>, E>)
    ensures
        match (found, res) {
            (Ok(files), Ok(sorted)) => is_sorted_scan(files_of(files@), files_of(sorted@)),
            (Err(error), Err(same)) => same == error,
            _ => false,
        },
{
    let files: Vec<HtmlFile> = match found {
        Ok(files) => files,
        Err(error) => return Err(error),
    };
    let ghost all = files@;
    let mut sorted: Vec<HtmlFile> = Vec::new();
    assert(files_of(all).take(0) =~= files_of(sorted@));
    for file in it: files
        invariant
            it.seq() == all,
            newest_first(files_of(sorted@)),
            forall|t: int| #[trigger]
                changed_at(files_of(sorted@), t) == changed_at(files_of(all).take(it.index()), t),
    {
        let ghost before = files_of(sorted@);
        let ghost done = files_of(all).take(it.index());
        insert_by_time(&mut sorted, file);
        proof {
            reveal(Seq::filter);
            assert(files_of(all).take(it.index() + 1) =~= done.push(file@));
            assert forall|t: int| #[trigger]
                changed_at(files_of(sorted@), t) == changed_at(done.push(file@), t) by {
                assert(changed_at(before, t) == changed_at(done, t));
                assert(before.push(file@).drop_last() =~= before);
                assert(done.push(file@).drop_last() =~= done);
            }
        }
    }
    assert(files_of(all).take(all.len() as int) =~= files_of(all));
    Ok(sorted)
}

proof fn lemma_filters_commute(
    files: Seq<HtmlFileView>,
    p: spec_fn(HtmlFileView) -> bool,
    q: spec_fn(HtmlFileView) -> bool,
)
    ensures
        files.filter(p).filter(q) == files.filter(q).filter(p),
    decreases files.len(),
{
    reveal(Seq::filter);
    if files.len() > 0 {
        let head = files.drop_last();
        let last = files.last();
        lemma_filters_commute(head, p, q);
        assert(head.filter(p).push(last).drop_last() =~= head.filter(p));
        assert(head.filter(q).push(last).drop_last() =~= head.filter(q));
    }
}

proof fn lemma_filter_keeps_newest_first(files: Seq<HtmlFileView>, p: spec_fn(HtmlFileView) -> bool)
    requires
        newest_first(files),
    ensures
        newest_first(files.filter(p)),
    decreases files.len(),
{
    reveal(Seq::filter);
    if files.len() > 0 {
        let head = files.drop_last();
        assert forall|i: int, j: int| 0 <= i <= j < head.len() implies (
        #[trigger] head[j]).modified.nanos() <= (#[trigger] head[i]).modified.nanos() by {
            assert(files[j].modified.nanos() <= files[i].modified.nanos());
        }
        lemma_filter_keeps_newest_first(head, p);
        let kept = head.filter(p);
        assert forall|i: int| 0 <= i < kept.len() implies files.last().modified.nanos() <= (
        #[trigger] kept[i]).modified.nanos() by {
            assert(kept.contains(kept[i]));
            head.lemma_filter_contains_rev(p, kept[i]);
            let k = choose|k: int| 0 <= k < head.len() && head[k] == kept[i];
            assert(files[k] == kept[i]);
        }
    }
}

/// Choosing some of the files and then sorting them gives the same as sorting all files and
/// then choosing: the part of a list that lies in a directory is the list of that directory.
pub proof fn law_sorting_keeps_to_the_chosen_files(
    files: Seq<HtmlFileView>,
    sorted: Seq<HtmlFileView>,
    chosen: spec_fn(HtmlFileView) -> bool,
)
    requires
        is_sorted_scan(files, sorted),
    ensures
        is_sorted_scan(files.filter(chosen), sorted.filter(chosen)),
{
    lemma_filter_keeps_newest_first(sorted, chosen);
    assert forall|t: int| #[trigger]
        changed_at(sorted.filter(chosen), t) == changed_at(files.filter(chosen), t) by {
        let same = |f: HtmlFileView| f.modified.nanos() == t;
        lemma_filters_commute(sorted, chosen, same);
        lemma_filters_commute(files, chosen, same);
        assert(changed_at(sorted, t) == changed_at(files, t));
    }
}

proof fn lemma_count_among_same_time(files: Seq<HtmlFileView>, file: HtmlFileView)
    ensures
        files.to_multiset().count(file) == changed_at(
            files,
            file.modified.nanos(),
        ).to_multiset().count(file),
    decreases files.len(),
{
    reveal(Seq::filter);
    broadcast use vstd::seq_lib::group_to_multiset_ensures;

    let t = file.modified.nanos();
    if files.len() > 0 {
        let head = files.drop_last();
        lemma_count_among_same_time(head, file);
        assert(files =~= head.push(files.last()));
        let rest = changed_at(head, t);
        if files.last().modified.nanos() == t {
            assert(changed_at(files, t) == rest.push(files.last()));
        } else {
            assert(changed_at(files, t) == rest);
        }
    }
}

/// Sorting loses no file and adds none.
pub proof fn law_sorted_scan_keeps_the_files(files: Seq<HtmlFileView>, sorted: Seq<HtmlFileView>)
    requires
        is_sorted_scan(files, sorted),
    ensures
        sorted.to_multiset() == files.to_multiset(),
        sorted.len() == files.len(),
{
    broadcast use vstd::seq_lib::group_to_multiset_ensures;

    assert forall|file: HtmlFileView| #[trigger]
        sorted.to_multiset().count(file) == files.to_multiset().count(file) by {
        lemma_count_among_same_time(files, file);
        lemma_count_among_same_time(sorted, file);
    }
    assert(sorted.to_multiset() =~= files.to_multiset());
    assert(sorted.to_multiset().len() == files.to_multiset().len());
}

proof fn lemma_first_of_its_time(files: Seq<HtmlFileView>)
    requires
        files.len() > 0,
    ensures
        ({
            let t = files.first().modified.nanos();
            &&& changed_at(files, t).len() > 0
            &&& changed_at(files, t).first() == files.first()
        }),
        forall|t: int| #[trigger]
            changed_at(files.drop_first(), t) == (if t == files.first().modified.nanos() {
                changed_at(files, t).drop_first()
            } else {
                changed_at(files, t)
            }),
{
    let one = seq![files.first()];
    let rest = files.drop_first();
    assert(files =~= one + rest);
    assert forall|t: int| changed_at(files, t) == changed_at(one, t) + changed_at(rest, t)
        && changed_at(one, t) == (if t == files.first().modified.nanos() {
        one
    } else {
        Seq::empty()
    }) by {
        let same = |f: HtmlFileView| f.modified.nanos() == t;
        Seq::filter_distributes_over_add(one, rest, same);
        reveal(Seq::filter);
        assert(one.drop_last() =~= Seq::empty());
        assert(one.drop_last().filter(same) =~= Seq::empty());
        assert(changed_at(one, t) =~= (if t == files.first().modified.nanos() {
            one
        } else {
            Seq::empty()
        }));
    }
    assert forall|t: int| #[trigger]
        changed_at(rest, t) == (if t == files.first().modified.nanos() {
            changed_at(files, t).drop_first()
        } else {
            changed_at(files, t)
        }) by {
        assert(changed_at(files, t) == changed_at(one, t) + changed_at(rest, t));
        if t == files.first().modified.nanos() {
            assert(changed_at(files, t).drop_first() =~= changed_at(rest, t));
        } else {
            assert(changed_at(files, t) =~= changed_at(rest, t));
        }
    }
}

proof fn lemma_changed_at_some(files: Seq<HtmlFileView>, t: int) -> (i: int)
    requires
        changed_at(files, t).len() > 0,
    ensures
        0 <= i < files.len(),
        files[i].modified.nanos() == t,
{
    if forall|i: int| 0 <= i < files.len() ==> (#[trigger] files[i]).modified.nanos() != t {
        lemma_changed_at_none(files, t);
    }
    choose|i: int| 0 <= i < files.len() && (#[trigger] files[i]).modified.nanos() == t
}

/// The order of a sorted scan is settled by the files found: there is one such order.
pub proof fn law_sorted_scan_is_unique(
    files: Seq<HtmlFileView>,
    one: Seq<HtmlFileView>,
    other: Seq<HtmlFileView>,
)
    requires
        is_sorted_scan(files, one),
        is_sorted_scan(files, other),
    ensures
        one == other,
{
    assert forall|t: int| #[trigger] changed_at(one, t) == changed_at(other, t) by {
        assert(changed_at(one, t) == changed_at(files, t));
        assert(changed_at(other, t) == changed_at(files, t));
    }
    lemma_same_times_same_order(one, other);
}

proof fn lemma_same_times_same_order(one: Seq<HtmlFileView>, other: Seq<HtmlFileView>)
    requires
        newest_first(one),
        newest_first(other),
        forall|t: int| #[trigger] changed_at(one, t) == changed_at(other, t),
    ensures
        one == other,
    decreases one.len(),
{
    if one.len() == 0 {
        if other.len() > 0 {
            lemma_first_of_its_time(other);
            let t = other.first().modified.nanos();
            assert(changed_at(one, t) == changed_at(other, t));
            let i = lemma_changed_at_some(one, t);
        }
        assert(one =~= other);
    } else {
        lemma_first_of_its_time(one);
        let t = one.first().modified.nanos();
        assert(changed_at(one, t) == changed_at(other, t));
        let i = lemma_changed_at_some(other, t);
        lemma_first_of_its_time(other);
        let u = other.first().modified.nanos();
        assert(changed_at(one, u) == changed_at(other, u));
        let j = lemma_changed_at_some(one, u);
        assert(t == u) by {
            assert(other[i].modified.nanos() <= other[0].modified.nanos());
            assert(one[j].modified.nanos() <= one[0].modified.nanos());
        }
        assert forall|v: int| #[trigger]
            changed_at(one.drop_first(), v) == changed_at(other.drop_first(), v) by {
            assert(changed_at(one, v) == changed_at(other, v));
            assert(changed_at(other.drop_first(), v) == changed_at(other.drop_first(), v));
        }
        lemma_same_times_same_order(one.drop_first(), other.drop_first());
        assert(one =~= seq![one.first()] + one.drop_first());
        assert(other =~= seq![other.first()] + other.drop_first());
    }
}

/// Files that are sorted stand newest first: of two points since the epoch the one with more
/// whole seconds comes first, and at equal seconds the one with more nanoseconds. Files from
/// before the epoch come after all others, those nearest to it first. And files with one and
/// the same time stand in the order in which they were found.
pub proof fn law_newest_files_come_first(
    files: Seq<HtmlFileView>,
    sorted: Seq<HtmlFileView>,
    time: Timestamp,
)
    requires
        is_sorted_scan(files, sorted),
        forall|i: int|
            0 <= i < sorted.len() ==> match (#[trigger] sorted[i]).modified {
                Timestamp::Since { nanos, .. } => nanos < 1_000_000_000,
                Timestamp::Before { nanos, .. } => nanos < 1_000_000_000,
            },
    ensures
        forall|i: int, j: int|
            0 <= i < j < sorted.len() ==> match (
                (#[trigger] sorted[i]).modified,
                (#[trigger] sorted[j]).modified,
            ) {
                (
                    Timestamp::Since { seconds: s, nanos: n },
                    Timestamp::Since { seconds: t, nanos: m },
                ) => s > t || (s == t && n >= m),
                (
                    Timestamp::Before { seconds: s, nanos: n },
                    Timestamp::Before { seconds: t, nanos: m },
                ) => s < t || (s == t && n <= m),
                (
                    Timestamp::Before { seconds: s, nanos: n },
                    Timestamp::Since { seconds: t, nanos: m },
                ) => s == 0 && n == 0 && t == 0 && m == 0,
                (Timestamp::Since { .. }, Timestamp::Before { .. }) => true,
            },
        sorted.filter(|f: HtmlFileView| f.modified == time) == files.filter(
            |f: HtmlFileView| f.modified == time,
        ),
{
    assert forall|i: int, j: int| 0 <= i < j < sorted.len() implies (
    #[trigger] sorted[j]).modified.nanos() <= (#[trigger] sorted[i]).modified.nanos() by {}
    let at = |f: HtmlFileView| f.modified == time;
    let t = time.nanos();
    let same = |f: HtmlFileView| f.modified.nanos() == t;
    assert(changed_at(sorted, t) == changed_at(files, t));
    lemma_filter_twice(sorted, same, at);
    lemma_filter_twice(files, same, at);
}

proof fn lemma_filter_twice(
    files: Seq<HtmlFileView>,
    wide: spec_fn(HtmlFileView) -> bool,
    narrow: spec_fn(HtmlFileView) -> bool,
)
    requires
        forall|f: HtmlFileView| #[trigger] narrow(f) ==> wide(f),
    ensures
        files.filter(wide).filter(narrow) == files.filter(narrow),
    decreases files.len(),
{
    reveal(Seq::filter);
    if files.len() > 0 {
        let head = files.drop_last();
        lemma_filter_twice(head, wide, narrow);
        assert(head.filter(wide).push(files.last()).drop_last() =~= head.filter(wide));
    }
}

/// What is known of a file is its path, the title of its text, its time and size, and the hash
/// of its bytes: its text is its contents, else its bytes read as text; and without time, size
/// or text nothing is known of it.
pub proof fn law_described_file(path: Seq<char>, facts: FileFactsView)
    ensures
        described(path, facts) is Some <==> facts.stat is Some && facts.stat->0.modified is Some
            && (facts.content is Some || facts.bytes is Some),
        described(path, facts) matches Some(file) ==> {
            &&& file.path == path
            &&& Some(file.modified) == facts.stat->0.modified
            &&& file.size == facts.stat->0.size
            &&& facts.bytes matches Some(bytes) ==> file.hash == hex(sha256_digest(bytes))
            &&& facts.bytes is None ==> file.hash.len() == 0
            &&& facts.content matches Some(content) ==> file.title == page_title(content)
                && readable_text(facts) == Some(content)
            &&& facts.content is None ==> file.title == page_title(lossy_text(facts.bytes->0))
                && readable_text(facts) == Some(lossy_text(facts.bytes->0))
        },
{
}

/// The files that a vector holds are each file with its path, title, time, size and hash, in
/// their order.
pub proof fn law_files_of(files: Seq<HtmlFile>, i: int)
    requires
        0 <= i < files.len(),
    ensures
        files_of(files).len() == files.len(),
        files_of(files)[i].path == files[i].path@,
        files_of(files)[i].title == files[i].title@,
        files_of(files)[i].modified == files[i].modified,
        files_of(files)[i].size == files[i].size,
        files_of(files)[i].hash == files[i].hash@,
{
}

/// The facts of a file are taken as they are.
pub proof fn law_facts_of_a_file(facts: FileFacts)
    ensures
        facts@.stat == facts.stat,
        facts.content matches Some(content) ==> facts@.content == Some(content@),
        facts.content is None ==> facts@.content is None,
        facts.bytes matches Some(bytes) ==> facts@.bytes == Some(bytes@),
        facts.bytes is None ==> facts@.bytes is None,
{
}

} // verus!
