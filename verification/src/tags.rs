//! Tags: how they are given, and the pages that list them.

use crate::escape::{encode_text, escape, law_escape_of_concatenation, law_plain_text_is_kept};
use crate::names::{
    is_reserved, law_page_names, law_plain_tag_is_its_safe_name, names_of_pages, page_names,
    safe_name, INDEX,
};
use crate::text::{
    concat, copied, decimal, decimal_text, is_white_space, join, law_concat_around, law_split,
    law_split_undoes_join, law_trim, pieces, split, texts, trim, trimmed,
};
use vstd::prelude::*;

verus! {

/// What the index of all tags starts with.
pub const INDEX_START: &'static str =
    "<!DOCTYPE html>\n<html><head><title>All Tags</title></head><body>\n<h1>📋 All Tags</h1>\n<ul>\n";

/// What the index of all tags ends with.
pub const INDEX_END: &'static str = "</ul>\n</body></html>";

/// What the page of a tag ends with.
pub const TAG_PAGE_END: &'static str =
    "</ul>\n<p><a href=\"index.html\">← Back to all tags</a></p>\n</body></html>";

/// The tags of a list with commas between them.
pub open spec fn tags_in(list: Seq<char>) -> Seq<Seq<char>> {
    split(list, ',').map_values(|piece: Seq<char>| trim(piece))
}

/// The tags of a list with commas between them, each without the white space around it.
pub fn parse_tags(list: &str) -> (tags: Vec<String>)
    ensures
        texts(tags@) == tags_in(list@),
{
    let parts: Vec<String> = pieces(list, ',');
    let mut tags: Vec<String> = Vec::new();
    let mut i: usize = 0;
    while i < parts.len()
        invariant
            i <= parts@.len(),
            texts(parts@) == split(list@, ','),
            texts(tags@) == tags_in(list@).take(i as int),
        decreases parts@.len() - i,
    {
        let ghost before = tags@;
        let tag: String = trimmed(parts[i].as_str());
        assert(texts(parts@)[i as int] == parts@[i as int]@);
        tags.push(tag);
        assert(texts(tags@) =~= texts(before).push(tag@));
        assert(texts(tags@) =~= tags_in(list@).take(i + 1));
        i += 1;
    }
    assert(tags_in(list@).take(i as int) =~= tags_in(list@));
    tags
}

/// A page and the path of the file that it goes to.
#[derive(Debug)]
pub struct Page {
    pub path: String,
    pub html: String,
}

/// The texts of a `Page`.
pub struct PageView {
    pub path: Seq<char>,
    pub html: Seq<char>,
}

impl View for Page {
    type V = PageView;

    open spec fn view(&self) -> PageView {
        PageView { path: self.path@, html: self.html@ }
    }
}

/// The line of a tag in the index, with a link to the page with the name `name`.
pub open spec fn index_line(tag: Seq<char>, name: Seq<char>) -> Seq<char> {
    "<li><a href=\""@ + escape(name) + ".html\">"@ + escape(tag) + "</a></li>\n"@
}

/// The lines of the tags in the index.
pub open spec fn index_lines(tags: Seq<Seq<char>>) -> Seq<Seq<char>> {
    Seq::new(tags.len(), |i: int| index_line(tags[i], page_names(tags)[i]))
}

/// The index of all tags.
pub open spec fn index_text(tags: Seq<Seq<char>>) -> Seq<char> {
    INDEX_START@ + concat(index_lines(tags)) + INDEX_END@
}

/// The line of a file on the page of a tag.
pub open spec fn file_line(path: Seq<char>) -> Seq<char> {
    "<li><a href=\""@ + escape(path) + "\">"@ + escape(path) + "</a></li>\n"@
}

/// The page of a tag.
pub open spec fn tag_page_text(tag: Seq<char>, files: Seq<Seq<char>>) -> Seq<char> {
    "<!DOCTYPE html>\n<html><head><title>Tag: "@ + escape(tag)
        + "</title></head><body>\n<h1>🏷️ Files tagged with '"@ + escape(tag)
        + "'</h1>\n<ul>\n"@ + concat(files.map_values(|path: Seq<char>| file_line(path)))
        + TAG_PAGE_END@
}

/// The path of the page with the name `name` in the directory `dir`.
pub open spec fn page_path(dir: Seq<char>, name: Seq<char>) -> Seq<char> {
    dir + "/"@ + name + ".html"@
}

/// The index of all tags, as a file in the directory `dir`.
pub open spec fn index_page(dir: Seq<char>, tags: Seq<Seq<char>>) -> PageView {
    PageView { path: page_path(dir, INDEX@), html: index_text(tags) }
}

/// The page of a tag, as a file with the name `name` in the directory `dir`.
pub open spec fn tag_page(
    dir: Seq<char>,
    name: Seq<char>,
    tag: Seq<char>,
    files: Seq<Seq<char>>,
) -> PageView {
    PageView { path: page_path(dir, name), html: tag_page_text(tag, files) }
}

fn path_of_page(dir: &str, name: &str) -> (path: String)
    ensures
        path@ == page_path(dir@, name@),
{
    let mut path: String = dir.to_owned();
    path.append("/");
    path.append(name);
    path.append(".html");
    path
}

fn tag_index(dir: &str, tags: &[String], names: &[String]) -> (page: Page)
    requires
        names@.len() == tags@.len(),
        texts(names@) == page_names(texts(tags@)),
    ensures
        page@ == index_page(dir@, texts(tags@)),
{
    let ghost lines = index_lines(texts(tags@));
    let mut lines_html: String = String::new();
    let mut i: usize = 0;
    while i < tags.len()
        invariant
            i <= tags@.len(),
            names@.len() == tags@.len(),
            texts(names@) == page_names(texts(tags@)),
            lines == index_lines(texts(tags@)),
            lines_html@ == concat(lines.take(i as int)),
        decreases tags@.len() - i,
    {
        let mut line: String = "<li><a href=\"".to_owned();
        line.append(encode_text(names[i].as_str()).as_str());
        line.append(".html\">");
        line.append(encode_text(tags[i].as_str()).as_str());
        line.append("</a></li>\n");
        assert(lines.take(i + 1).drop_last() =~= lines.take(i as int));
        assert(texts(names@)[i as int] == names@[i as int]@);
        assert(lines[i as int] == line@);
        lines_html.append(line.as_str());
        i += 1;
    }
    assert(lines.take(i as int) =~= lines);
    let mut html: String = INDEX_START.to_owned();
    html.append(lines_html.as_str());
    html.append(INDEX_END);
    Page { path: path_of_page(dir, INDEX), html }
}

fn page_of_tag(dir: &str, name: &str, tag: &str, files: &[String]) -> (page: Page)
    ensures
        page@ == tag_page(dir@, name@, tag@, texts(files@)),
{
    let ghost lines = texts(files@).map_values(|path: Seq<char>| file_line(path));
    let mut lines_html: String = String::new();
    let mut i: usize = 0;
    while i < files.len()
        invariant
            i <= files@.len(),
            lines == texts(files@).map_values(|path: Seq<char>| file_line(path)),
            lines_html@ == concat(lines.take(i as int)),
        decreases files@.len() - i,
    {
        let file: String = encode_text(files[i].as_str());
        let mut line: String = "<li><a href=\"".to_owned();
        line.append(file.as_str());
        line.append("\">");
        line.append(file.as_str());
        line.append("</a></li>\n");
        assert(lines.take(i + 1).drop_last() =~= lines.take(i as int));
        assert(lines[i as int] == line@);
        lines_html.append(line.as_str());
        i += 1;
    }
    assert(lines.take(i as int) =~= lines);
    let tag_html: String = encode_text(tag);
    let mut html: String = "<!DOCTYPE html>\n<html><head><title>Tag: ".to_owned();
    html.append(tag_html.as_str());
    html.append("</title></head><body>\n<h1>🏷️ Files tagged with '");
    html.append(tag_html.as_str());
    html.append("'</h1>\n<ul>\n");
    html.append(lines_html.as_str());
    html.append(TAG_PAGE_END);
    Page { path: path_of_page(dir, name), html }
}

/// What happened outside while the pages are made.
#[derive(Debug)]
pub enum TagPagesEvent {
    /// The page was written.
    Written,
    /// The files with the tag were listed.
    Files { files: Vec<String> },
}

/// What to do for the pages.
#[derive(Debug)]
pub enum TagPagesAction {
    /// Write this page.
    Write { page: Page },
    /// List the files with this tag.
    ListFiles { tag: String },
    /// Nothing: all pages are written, as the message says.
    Finish { message: String },
}

/// The texts of a `TagPagesEvent`.
pub enum TagPagesEventView {
    Written,
    Files { files: Seq<Seq<char>> },
}

/// The texts of a `TagPagesAction`.
pub enum TagPagesActionView {
    Write { page: PageView },
    ListFiles { tag: Seq<char> },
    Finish { message: Seq<char> },
}

impl View for TagPagesEvent {
    type V = TagPagesEventView;

    open spec fn view(&self) -> TagPagesEventView {
        match self {
            TagPagesEvent::Written => TagPagesEventView::Written,
            TagPagesEvent::Files { files } => TagPagesEventView::Files { files: texts(files@) },
        }
    }
}

impl View for TagPagesAction {
    type V = TagPagesActionView;

    open spec fn view(&self) -> TagPagesActionView {
        match self {
            TagPagesAction::Write { page } => TagPagesActionView::Write { page: page@ },
            TagPagesAction::ListFiles { tag } => TagPagesActionView::ListFiles { tag: tag@ },
            TagPagesAction::Finish { message } => TagPagesActionView::Finish { message: message@ },
        }
    }
}

/// The making of the pages, under way.
#[derive(Debug)]
pub struct TagPages {
    output_dir: String,
    tags: Vec<String>,
    names: Vec<String>,
    done: usize,
}

/// How far the pages are made: those of the first `done` of `tags` are.
pub struct TagPagesView {
    pub output_dir: Seq<char>,
    pub tags: Seq<Seq<char>>,
    pub done: nat,
}

impl View for TagPages {
    type V = TagPagesView;

    closed spec fn view(&self) -> TagPagesView {
        TagPagesView {
            output_dir: self.output_dir@,
            tags: texts(self.tags@),
            done: self.done as nat,
        }
    }
}

impl TagPagesView {
    /// The message that all pages are written.
    pub open spec fn message(self) -> Seq<char> {
        "Generated "@ + decimal(self.tags.len()) + " tag pages in "@ + self.output_dir + "/"@
    }

    /// What to do once a page is written: list the files of the next tag, if there is one.
    pub open spec fn next(self) -> TagPagesActionView {
        if self.done < self.tags.len() {
            TagPagesActionView::ListFiles { tag: self.tags[self.done as int] }
        } else {
            TagPagesActionView::Finish { message: self.message() }
        }
    }

    /// The state after `event`, and what to do next. The files are those of the next tag,
    /// whose page is then to be written.
    pub open spec fn step(self, event: TagPagesEventView) -> (TagPagesView, TagPagesActionView) {
        match event {
            TagPagesEventView::Files { files } if self.done < self.tags.len() => (
                TagPagesView { done: self.done + 1, ..self },
                TagPagesActionView::Write {
                    page: tag_page(
                        self.output_dir,
                        page_names(self.tags)[self.done as int],
                        self.tags[self.done as int],
                        files,
                    ),
                },
            ),
            _ => (self, self.next()),
        }
    }
}

impl TagPages {
    #[verifier::type_invariant]
    spec fn has_the_names_of_its_pages(self) -> bool {
        &&& self.names@.len() == self.tags@.len()
        &&& texts(self.names@) == page_names(texts(self.tags@))
    }

    /// Begins the pages of `tags`, which go to the directory `output_dir`: the index is to be
    /// written first.
    pub fn begin(output_dir: &str, tags: &[String]) -> (res: (TagPages, TagPagesAction))
        ensures
            res.0@ == (TagPagesView {
                output_dir: output_dir@,
                tags: texts(tags@),
                done: 0,
            }),
            res.1@ == (TagPagesActionView::Write { page: index_page(output_dir@, texts(tags@)) }),
    {
        let names: Vec<String> = names_of_pages(tags);
        let index: Page = tag_index(output_dir, tags, &names);
        let tags: Vec<String> = copied(tags);
        assert(texts(tags@).len() == tags@.len());
        let pages = TagPages { output_dir: output_dir.to_owned(), tags, names, done: 0 };
        (pages, TagPagesAction::Write { page: index })
    }

    fn next(&self) -> (action: TagPagesAction)
        ensures
            action@ == self@.next(),
    {
        if self.done < self.tags.len() {
            TagPagesAction::ListFiles { tag: self.tags[self.done].clone() }
        } else {
            let mut message: String = "Generated ".to_owned();
            message.append(decimal_text(self.tags.len() as u64).as_str());
            message.append(" tag pages in ");
            message.append(self.output_dir.as_str());
            message.append("/");
            TagPagesAction::Finish { message }
        }
    }
}

/// One step in the making of the pages: takes in what happened, and says what to do next.
pub fn generate_tag_pages(pages: &mut TagPages, event: TagPagesEvent) -> (action: TagPagesAction)
    ensures
        (final(pages)@, action@) == old(pages)@.step(event@),
{
    match event {
        TagPagesEvent::Files { files } => {
            if pages.done < pages.tags.len() {
                let ghost before = pages@;
                proof {
                    use_type_invariant(&*pages);
                }
                let page: Page = page_of_tag(
                    pages.output_dir.as_str(),
                    pages.names[pages.done].as_str(),
                    pages.tags[pages.done].as_str(),
                    &files,
                );
                assert(texts(pages.names@)[before.done as int] == pages.names@[before.done as int]@);
                assert(page@ == tag_page(
                    before.output_dir,
                    page_names(before.tags)[before.done as int],
                    before.tags[before.done as int],
                    texts(files@),
                ));
                pages.done = pages.done + 1;
                TagPagesAction::Write { page }
            } else {
                pages.next()
            }
        },
        TagPagesEvent::Written => pages.next(),
    }
}

/// The pages that are written while the making of the pages is answered at most `steps`
/// times, `files` giving the files of a tag; and the message at the end, once it is reached.
pub open spec fn run(
    at: (TagPagesView, TagPagesActionView),
    files: spec_fn(Seq<char>) -> Seq<Seq<char>>,
    steps: nat,
) -> (Seq<PageView>, Option<Seq<char>>)
    decreases steps,
{
    match at.1 {
        TagPagesActionView::Finish { message } => (Seq::empty(), Some(message)),
        TagPagesActionView::Write { page } => if steps == 0 {
            (Seq::empty(), None)
        } else {
            let (pages, message) = run(
                at.0.step(TagPagesEventView::Written),
                files,
                (steps - 1) as nat,
            );
            (seq![page] + pages, message)
        },
        TagPagesActionView::ListFiles { tag } => if steps == 0 {
            (Seq::empty(), None)
        } else {
            run(
                at.0.step(TagPagesEventView::Files { files: files(tag) }),
                files,
                (steps - 1) as nat,
            )
        },
    }
}

/// The pages of the tags, with the files that `files` gives.
pub open spec fn tag_pages(
    output_dir: Seq<char>,
    tags: Seq<Seq<char>>,
    files: spec_fn(Seq<char>) -> Seq<Seq<char>>,
) -> Seq<PageView> {
    Seq::new(
        tags.len(),
        |i: int| tag_page(output_dir, page_names(tags)[i], tags[i], files(tags[i])),
    )
}

proof fn lemma_remaining_pages(
    pages: TagPagesView,
    files: spec_fn(Seq<char>) -> Seq<Seq<char>>,
)
    requires
        pages.done <= pages.tags.len(),
    ensures
        run((pages, pages.next()), files, (2 * (pages.tags.len() - pages.done)) as nat) == (
            tag_pages(pages.output_dir, pages.tags, files).skip(pages.done as int),
            Some(pages.message()),
        ),
    decreases pages.tags.len() - pages.done,
{
    let all = tag_pages(pages.output_dir, pages.tags, files);
    let left = all.skip(pages.done as int);
    if pages.done < pages.tags.len() {
        let page = all[pages.done as int];
        let then = TagPagesView { done: pages.done + 1, ..pages };
        lemma_remaining_pages(then, files);
        let steps = (2 * (pages.tags.len() - pages.done)) as nat;
        let written = (then, TagPagesActionView::Write { page });
        assert(run((pages, pages.next()), files, steps) == run(written, files, (steps - 1) as nat));
        assert(left =~= seq![page] + all.skip(pages.done as int + 1));
    } else {
        assert(left =~= Seq::empty());
    }
}

proof fn lemma_page_paths(dir: Seq<char>, a: Seq<char>, b: Seq<char>)
    requires
        page_path(dir, a) == page_path(dir, b),
    ensures
        a == b,
{
    let start = (dir.len() + "/"@.len()) as int;
    assert(page_path(dir, a).len() == start + a.len() + ".html"@.len());
    assert(page_path(dir, b).len() == start + b.len() + ".html"@.len());
    assert(a =~= page_path(dir, a).subrange(start, start + a.len()));
    assert(b =~= page_path(dir, b).subrange(start, start + b.len()));
}

/// The pages that are made are the index of all tags, and then one page for each tag, in
/// the order of the tags, with the files of that tag. With that the making ends. No two of
/// the pages go to the same file, so none takes the place of another.
pub proof fn law_every_tag_gets_its_page(
    output_dir: Seq<char>,
    tags: Seq<Seq<char>>,
    files: spec_fn(Seq<char>) -> Seq<Seq<char>>,
)
    ensures
        ({
            let pages = TagPagesView { output_dir, tags, done: 0 };
            let index = index_page(output_dir, tags);
            let written = seq![index] + tag_pages(output_dir, tags, files);
            &&& run(
                (pages, TagPagesActionView::Write { page: index }),
                files,
                2 * tags.len() + 1,
            ) == (written, Some(pages.message()))
            &&& forall|a: int, b: int|
                0 <= a < b < written.len() ==> (#[trigger] written[a]).path != (
                #[trigger] written[b]).path
        }),
{
    let pages = TagPagesView { output_dir, tags, done: 0 };
    let index = index_page(output_dir, tags);
    let written = seq![index] + tag_pages(output_dir, tags, files);
    lemma_remaining_pages(pages, files);
    assert(tag_pages(output_dir, tags, files).skip(0) =~= tag_pages(output_dir, tags, files));
    law_page_names(tags);
    let names = page_names(tags);
    assert forall|a: int, b: int| 0 <= a < b < written.len() implies (#[trigger] written[a]).path
        != (#[trigger] written[b]).path by {
        assert(written[b].path == page_path(output_dir, names[b - 1]));
        if written[a].path == written[b].path {
            if a == 0 {
                lemma_page_paths(output_dir, INDEX@, names[b - 1]);
                assert(names.contains(INDEX@));
            } else {
                lemma_page_paths(output_dir, names[a - 1], names[b - 1]);
            }
        }
    }
}

/// The index leads to the page of every tag: the link is the name of the page's file. For a
/// tag without reserved characters that name is the tag itself, unless the tag is called as
/// the index is or an earlier tag has that name.
pub proof fn law_index_links_to_the_page(
    output_dir: Seq<char>,
    tags: Seq<Seq<char>>,
    files: spec_fn(Seq<char>) -> Seq<Seq<char>>,
    i: int,
)
    requires
        0 <= i < tags.len(),
    ensures
        ({
            let name = page_names(tags)[i];
            &&& index_lines(tags)[i] == "<li><a href=\""@ + escape(name + ".html"@) + "\">"@
                + escape(tags[i]) + "</a></li>\n"@
            &&& tag_pages(output_dir, tags, files)[i].path == output_dir + "/"@ + (name
                + ".html"@)
            &&& (forall|k: int| 0 <= k < tags[i].len() ==> !is_reserved(#[trigger] tags[i][k]))
                && tags[i] != INDEX@ && (forall|j: int|
                0 <= j < i ==> safe_name(#[trigger] tags[j]) != tags[i]) ==> name == tags[i]
        }),
{
    reveal_strlit(".html");
    reveal_strlit("\">");
    reveal_strlit(".html\">");
    let name = page_names(tags)[i];
    law_page_names(tags);
    if forall|k: int| 0 <= k < tags[i].len() ==> !is_reserved(#[trigger] tags[i][k]) {
        law_plain_tag_is_its_safe_name(tags[i]);
    }
    law_escape_of_concatenation(name, ".html"@);
    law_plain_text_is_kept(".html"@);
    assert(".html\">"@ =~= ".html"@ + "\">"@);
    assert(index_lines(tags)[i] =~= "<li><a href=\""@ + escape(name + ".html"@) + "\">"@ + escape(
        tags[i],
    ) + "</a></li>\n"@);
    assert(output_dir + "/"@ + (name + ".html"@) =~= output_dir + "/"@ + name + ".html"@);
}

/// A tag taken from a list holds no comma and has no white space at either end.
pub proof fn law_tags_in_a_list(list: Seq<char>, i: int)
    requires
        0 <= i < tags_in(list).len(),
    ensures
        !tags_in(list)[i].contains(','),
        tags_in(list)[i].len() > 0 ==> !is_white_space(tags_in(list)[i].first())
            && !is_white_space(tags_in(list)[i].last()),
{
    law_split(list, ',');
    let piece = split(list, ',')[i];
    let tag = tags_in(list)[i];
    assert(tag == trim(piece));
    let (front, back) = law_trim(piece);
    if tag.contains(',') {
        let k = choose|k: int| 0 <= k < tag.len() && tag[k] == ',';
        assert((front + tag + back)[front.len() + k] == ',');
        assert(piece.contains(','));
    }
}

/// The page of a tag without files names the escaped tag in its title and in its heading.
pub proof fn law_page_of_a_tag_names_the_tag(tag: Seq<char>)
    ensures
        tag_page_text(tag, Seq::empty()) == "<!DOCTYPE html>\n<html><head><title>Tag: "@ + escape(tag)
            + "</title></head><body>\n<h1>🏷️ Files tagged with '"@ + escape(tag)
            + "'</h1>\n<ul>\n"@
            + "</ul>\n<p><a href=\"index.html\">← Back to all tags</a></p>\n</body></html>"@,
{
    let none = Seq::<Seq<char>>::empty();
    let head = "<!DOCTYPE html>\n<html><head><title>Tag: "@ + escape(tag)
        + "</title></head><body>\n<h1>🏷️ Files tagged with '"@ + escape(tag)
        + "'</h1>\n<ul>\n"@;
    assert(none.map_values(|path: Seq<char>| file_line(path)) =~= none);
    assert(head + Seq::<char>::empty() =~= head);
}

/// A file adds one line to the page of a tag, at the end of its list: the link is the whole
/// escaped path of the file, and so is its text.
pub proof fn law_file_is_linked_by_its_whole_path(
    tag: Seq<char>,
    files: Seq<Seq<char>>,
    path: Seq<char>,
) -> (start: Seq<char>)
    ensures
        tag_page_text(tag, files) == start
            + "</ul>\n<p><a href=\"index.html\">← Back to all tags</a></p>\n</body></html>"@,
        tag_page_text(tag, files.push(path)) == start + "<li><a href=\""@ + escape(path) + "\">"@
            + escape(path) + "</a></li>\n"@
            + "</ul>\n<p><a href=\"index.html\">← Back to all tags</a></p>\n</body></html>"@,
{
    let lines = files.map_values(|path: Seq<char>| file_line(path));
    let more = files.push(path).map_values(|path: Seq<char>| file_line(path));
    let head = "<!DOCTYPE html>\n<html><head><title>Tag: "@ + escape(tag)
        + "</title></head><body>\n<h1>🏷️ Files tagged with '"@ + escape(tag)
        + "'</h1>\n<ul>\n"@;
    assert(more.drop_last() =~= lines);
    assert(more.last() == file_line(path));
    assert(head + concat(more) =~= head + concat(lines) + "<li><a href=\""@ + escape(path) + "\">"@
        + escape(path) + "</a></li>\n"@);
    head + concat(lines)
}

/// Every file of a tag is on its page, linked by its whole escaped path, in the order of the
/// files: what stands before it is the page of the files before it, but for the page's end.
pub proof fn law_every_file_of_a_tag_is_linked(tag: Seq<char>, files: Seq<Seq<char>>, i: int) -> (
    around: (Seq<char>, Seq<char>))
    requires
        0 <= i < files.len(),
    ensures
        tag_page_text(tag, files) == around.0 + "<li><a href=\""@ + escape(files[i]) + "\">"@
            + escape(files[i]) + "</a></li>\n"@ + around.1,
        tag_page_text(tag, files.take(i)) == around.0
            + "</ul>\n<p><a href=\"index.html\">← Back to all tags</a></p>\n</body></html>"@,
{
    let lines = files.map_values(|path: Seq<char>| file_line(path));
    let first = files.take(i).map_values(|path: Seq<char>| file_line(path));
    let head = "<!DOCTYPE html>\n<html><head><title>Tag: "@ + escape(tag)
        + "</title></head><body>\n<h1>🏷️ Files tagged with '"@ + escape(tag)
        + "'</h1>\n<ul>\n"@;
    law_concat_around(lines, i);
    assert(lines.take(i) =~= first);
    let before = head + concat(first);
    let after = concat(lines.skip(i + 1)) + TAG_PAGE_END@;
    assert(head + (concat(first) + file_line(files[i]) + concat(lines.skip(i + 1))) + TAG_PAGE_END@
        =~= before + "<li><a href=\""@ + escape(files[i]) + "\">"@ + escape(files[i])
        + "</a></li>\n"@ + after);
    (before, after)
}

/// The index is its fixed start, a line for each tag in their order, and its fixed end.
pub proof fn law_index_lists_every_tag(dir: Seq<char>, tags: Seq<Seq<char>>)
    ensures
        index_lines(tags).len() == tags.len(),
        index_page(dir, tags).path == dir + "/"@ + "index"@ + ".html"@,
        index_page(dir, tags).html
            == "<!DOCTYPE html>\n<html><head><title>All Tags</title></head><body>\n<h1>📋 All Tags</h1>\n<ul>\n"@
            + concat(index_lines(tags)) + "</ul>\n</body></html>"@,
{
}

/// Once the files of the next tag are known, the page of that tag with those files is written
/// and the tag after it is next. At any other time nothing changes: the files of the next tag
/// are asked for, and after the last tag the making ends with the number of tags.
pub proof fn law_next_step_of_the_pages(pages: TagPagesView, event: TagPagesEventView)
    ensures
        ({
            let (after, action) = pages.step(event);
            &&& after.output_dir == pages.output_dir
            &&& after.tags == pages.tags
            &&& event is Files && pages.done < pages.tags.len() ==> {
                &&& after.done == pages.done + 1
                &&& action is Write
                &&& action->page.html == tag_page_text(
                    pages.tags[pages.done as int],
                    event->files,
                )
                &&& action->page.path == pages.output_dir + "/"@ + page_names(
                    pages.tags,
                )[pages.done as int] + ".html"@
            }
            &&& !(event is Files && pages.done < pages.tags.len()) ==> {
                &&& after.done == pages.done
                &&& pages.done < pages.tags.len() ==> action == TagPagesActionView::ListFiles {
                    tag: pages.tags[pages.done as int],
                }
                &&& pages.done >= pages.tags.len() ==> action == TagPagesActionView::Finish {
                    message: "Generated "@ + decimal(pages.tags.len()) + " tag pages in "@
                        + pages.output_dir + "/"@,
                }
            }
        }),
{
}

/// The files that are told, and the pages, tags and messages that are given, are taken as they
/// are.
pub proof fn law_texts_of_events_and_actions(
    files: Vec<String>,
    page: Page,
    tag: String,
    message: String,
)
    ensures
        (TagPagesEvent::Files { files })@ == (TagPagesEventView::Files { files: texts(files@) }),
        TagPagesEvent::Written@ == TagPagesEventView::Written,
        (TagPagesAction::Write { page })@->page.path == page.path@,
        (TagPagesAction::Write { page })@->page.html == page.html@,
        (TagPagesAction::ListFiles { tag })@ == (TagPagesActionView::ListFiles { tag: tag@ }),
        (TagPagesAction::Finish { message })@ == (TagPagesActionView::Finish { message: message@ }),
{
}

/// The tags of a list are what stands between its commas, each without the white space around
/// it, in their order.
pub proof fn law_tags_between_commas(parts: Seq<Seq<char>>)
    requires
        parts.len() > 0,
        forall|i: int| 0 <= i < parts.len() ==> !(#[trigger] parts[i]).contains(','),
    ensures
        tags_in(join(parts, seq![','])).len() == parts.len(),
        forall|i: int|
            0 <= i < parts.len() ==> #[trigger] tags_in(join(parts, seq![',']))[i] == trim(parts[i]),
{
    law_split_undoes_join(parts, ',');
}

} // verus!
