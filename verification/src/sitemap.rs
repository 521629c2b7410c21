//! The page that lists the HTML files of a site.

use crate::clock::{
    covered, is_date_and_time_utc, shown_with_zone, utc_text, DATE_AND_TIME, YEAR_10000,
};
use crate::database::FileMetadata;
use crate::escape::{encode_text, escape, is_plain};
use crate::files::{newest_first, HtmlFile};
use crate::paths::{
    ends_with_a_name, is_path_below, is_settled, law_settled_path_is_unique, lies_in, lies_outside,
    may_lie_in, path_below, rest_of_path,
};
use crate::text::{concat, copied, decimal, decimal_text, law_concat_around, optional_text, texts};
use vstd::prelude::*;

verus! {

/// What the page starts with.
pub const PAGE_START: &'static str = "<!DOCTYPE html>
<html lang=\"en\">
<head>
    <meta charset=\"UTF-8\">
    <meta name=\"viewport\" content=\"width=device-width, initial-scale=1.0\">
    <title>Site Navigation</title>
    <style>
        body { font-family: Arial, sans-serif; margin: 2rem; background: #f5f5f5; }
        .container { max-width: 1200px; margin: 0 auto; background: white; padding: 2rem; border-radius: 8px; box-shadow: 0 2px 10px rgba(0,0,0,0.1); }
        h1 { color: #333; border-bottom: 3px solid #007acc; padding-bottom: 0.5rem; }
        .file-list { list-style: none; padding: 0; }
        .file-item { margin: 1rem 0; padding: 1rem; border: 1px solid #ddd; border-radius: 5px; background: #fafafa; }
        .file-item:hover { background: #f0f8ff; }
        .file-title { font-size: 1.2em; font-weight: bold; color: #007acc; }
        .file-path { color: #666; font-family: monospace; margin: 0.5rem 0; }
        .file-meta { color: #888; font-size: 0.9em; }
        .file-tags { margin-top: 0.5rem; }
        .tag { display: inline-block; background: #007acc; color: white; padding: 0.2rem 0.5rem; margin: 0.1rem; border-radius: 3px; font-size: 0.8em; }
        .comment { margin-top: 0.5rem; font-style: italic; color: #555; }
        .stats { margin-top: 2rem; padding: 1rem; background: #e8f4f8; border-radius: 5px; }
        .stats h2 { margin-top: 0; color: #005577; }
    </style>
</head>
<body>
    <div class=\"container\">
        <h1>📄 Site Navigation</h1>
";

/// What stands in place of the list where there are no files.
pub const NO_FILES: &'static str = "        <p>No HTML files found.</p>\n";

/// What the page ends with.
pub const PAGE_END: &'static str = "        </div>
    </div>
</body>
</html>
";

/// A file to list, with what the database holds of it.
#[derive(Debug)]
pub struct SitemapEntry<E> {
    pub file: HtmlFile,
    /// What came of looking the file up.
    pub metadata: Result<Option<FileMetadata>, E>,
}

/// What the page says of one file.
#[derive(Debug)]
pub struct SitemapItem {
    pub link: String,
    pub title: String,
    /// When the file was last changed, where that is shown.
    pub modified: Option<String>,
    pub size: u64,
    pub tags: Vec<String>,
    pub comment: Option<String>,
}

/// The texts and numbers of a `SitemapItem`.
pub struct SitemapItemView {
    pub link: Seq<char>,
    pub title: Seq<char>,
    pub modified: Option<Seq<char>>,
    pub size: u64,
    pub tags: Seq<Seq<char>>,
    pub comment: Option<Seq<char>>,
}

impl View for SitemapItem {
    type V = SitemapItemView;

    open spec fn view(&self) -> SitemapItemView {
        SitemapItemView {
            link: self.link@,
            title: self.title@,
            modified: optional_text(self.modified),
            size: self.size,
            tags: texts(self.tags@),
            comment: optional_text(self.comment),
        }
    }
}

impl<E> SitemapEntry<E> {
    /// What the page says of the file: its path below the listed directory, where it has
    /// one, else its whole path; and its tags and comment, where it was found in the
    /// database.
    pub open spec fn item(self, below: Option<Seq<char>>) -> SitemapItemView {
        SitemapItemView {
            link: match below {
                Some(below) => below,
                None => self.file.path@,
            },
            title: self.file.title@,
            modified: self.file.modified.shown(),
            size: self.file.size,
            tags: match self.metadata {
                Ok(Some(metadata)) => texts(metadata.tags@),
                _ => Seq::empty(),
            },
            comment: match self.metadata {
                Ok(Some(metadata)) => optional_text(metadata.comment),
                _ => None,
            },
        }
    }
}

/// What the page says of each file, where `below` are the paths below the listed directory.
pub open spec fn items_of<E>(
    entries: Seq<SitemapEntry<E>>,
    below: Seq<Option<Seq<char>>>,
) -> Seq<SitemapItemView> {
    Seq::new(entries.len(), |i: int| entries[i].item(below[i]))
}

/// Whether `below` are the paths of the files below the directory `base_dir`.
pub open spec fn are_paths_below<E>(
    entries: Seq<SitemapEntry<E>>,
    base_dir: Seq<char>,
    below: Seq<Option<Seq<char>>>,
) -> bool {
    &&& below.len() == entries.len()
    &&& forall|i: int|
        0 <= i < entries.len() ==> is_path_below(
            (#[trigger] entries[i]).file.path@,
            base_dir,
            below[i],
        )
}

/// Whether the times of the files, which stand on the page as they are, hold no character
/// that is reserved in HTML.
pub open spec fn times_are_plain(items: Seq<SitemapItemView>) -> bool {
    forall|i: int|
        0 <= i < items.len() ==> ((#[trigger] items[i]).modified matches Some(modified)
            ==> is_plain(modified))
}

/// Whether the times of the files that lie in the years 1970 to 9999 are shown as the date and
/// time of day in the calendar.
pub open spec fn times_are_dates<E>(entries: Seq<SitemapEntry<E>>) -> bool {
    forall|i: int|
        0 <= i < entries.len() ==> (#[trigger] entries[i]).file.modified.is_shown_by_its_date()
}

/// The sizes of the files.
pub open spec fn file_sizes<E>(entries: Seq<SitemapEntry<E>>) -> Seq<u64> {
    entries.map_values(|e: SitemapEntry<E>| e.file.size)
}

/// The sizes that the page says.
pub open spec fn item_sizes(items: Seq<SitemapItemView>) -> Seq<u64> {
    items.map_values(|item: SitemapItemView| item.size)
}

/// The items that the vector holds.
pub open spec fn views_of(items: Seq<SitemapItem>) -> Seq<SitemapItemView> {
    items.map_values(|i: SitemapItem| i@)
}

/// The line with the time of the last change and the size.
pub open spec fn modified_line(modified: Seq<char>, size: u64) -> Seq<char> {
    "                <div class=\"file-meta\">Modified: "@ + modified + " | Size: "@ + decimal(
        size as nat,
    ) + " bytes</div>\n"@
}

/// The line of one tag.
pub open spec fn tag_line(tag: Seq<char>) -> Seq<char> {
    "                    <span class=\"tag\">"@ + escape(tag) + "</span>\n"@
}

/// The lines of the tags, where there are any.
pub open spec fn tag_lines(tags: Seq<Seq<char>>) -> Seq<char> {
    if tags.len() == 0 {
        Seq::empty()
    } else {
        "                <div class=\"file-tags\">\n"@ + concat(
            tags.map_values(|tag: Seq<char>| tag_line(tag)),
        ) + "                </div>\n"@
    }
}

/// The line of the comment.
pub open spec fn comment_line(comment: Seq<char>) -> Seq<char> {
    "                <div class=\"comment\">"@ + escape(comment) + "</div>\n"@
}

/// What stands on the page for one file.
pub open spec fn item_text(item: SitemapItemView) -> Seq<char> {
    "            <li class=\"file-item\">\n"@
        + "                <div class=\"file-title\"><a href=\""@ + escape(item.link) + "\">"@
        + escape(item.title) + "</a></div>\n"@ + "                <div class=\"file-path\">"@
        + escape(item.link) + "</div>\n"@ + (match item.modified {
        Some(modified) => modified_line(modified, item.size),
        None => Seq::empty(),
    }) + tag_lines(item.tags) + (match item.comment {
        Some(comment) => comment_line(comment),
        None => Seq::empty(),
    }) + "            </li>\n"@
}

/// The list of the files.
pub open spec fn list_text(items: Seq<SitemapItemView>) -> Seq<char> {
    if items.len() == 0 {
        NO_FILES@
    } else {
        "        <ul class=\"file-list\">\n"@ + concat(
            items.map_values(|item: SitemapItemView| item_text(item)),
        ) + "        </ul>\n"@
    }
}

/// The sum of the sizes.
pub open spec fn sum_of_sizes(sizes: Seq<u64>) -> nat
    decreases sizes.len(),
{
    if sizes.len() == 0 {
        0
    } else {
        sum_of_sizes(sizes.drop_last()) + sizes.last() as nat
    }
}

/// The line of the file that was changed last: the first file of the list.
pub open spec fn newest_line(items: Seq<SitemapItemView>) -> Seq<char> {
    if items.len() == 0 {
        Seq::empty()
    } else {
        match items.first().modified {
            Some(modified) => "            <p><strong>Most recently modified:</strong> "@ + escape(
                items.first().link,
            ) + " ("@ + modified + ")</p>\n"@,
            None => Seq::empty(),
        }
    }
}

/// The statistics below the list.
pub open spec fn statistics_text(
    items: Seq<SitemapItemView>,
    kilobytes: Seq<char>,
    tag_count: Option<nat>,
    generated_on: Seq<char>,
) -> Seq<char> {
    "        <div class=\"stats\">\n            <h2>📊 Statistics</h2>\n"@
        + "            <p><strong>Total HTML files:</strong> "@ + decimal(items.len()) + "</p>\n"@
        + "            <p><strong>Total size:</strong> "@ + decimal(sum_of_sizes(item_sizes(items)))
        + " bytes ("@ + kilobytes + " KB)</p>\n"@ + newest_line(items) + (match tag_count {
        Some(count) => "            <p><strong>Total tags:</strong> "@ + decimal(count)
            + "</p>\n"@,
        None => Seq::empty(),
    }) + "            <p><em>Generated on: "@ + generated_on + "</em></p>\n"@
}

/// The whole page.
pub open spec fn sitemap_text(
    items: Seq<SitemapItemView>,
    kilobytes: Seq<char>,
    tag_count: Option<nat>,
    generated_on: Seq<char>,
) -> Seq<char> {
    PAGE_START@ + list_text(items) + statistics_text(items, kilobytes, tag_count, generated_on)
        + PAGE_END@
}

fn modified_html(modified: &Option<String>, size: u64) -> (html: String)
    ensures
        html@ == (match optional_text(*modified) {
            Some(modified) => modified_line(modified, size),
            None => Seq::empty(),
        }),
{
    match modified {
        Some(modified) => {
            let mut html: String =
                "                <div class=\"file-meta\">Modified: ".to_owned();
            html.append(modified.as_str());
            html.append(" | Size: ");
            html.append(decimal_text(size).as_str());
            html.append(" bytes</div>\n");
            html
        },
        None => String::new(),
    }
}

fn tags_html(tags: &[String]) -> (html: String)
    ensures
        html@ == tag_lines(texts(tags@)),
{
    if tags.len() == 0 {
        return String::new();
    }
    let ghost lines = texts(tags@).map_values(|tag: Seq<char>| tag_line(tag));
    let mut lines_html: String = String::new();
    let mut i: usize = 0;
    while i < tags.len()
        invariant
            i <= tags@.len(),
            lines == texts(tags@).map_values(|tag: Seq<char>| tag_line(tag)),
            lines_html@ == concat(lines.take(i as int)),
        decreases tags@.len() - i,
    {
        let mut line: String = "                    <span class=\"tag\">".to_owned();
        line.append(encode_text(tags[i].as_str()).as_str());
        line.append("</span>\n");
        assert(lines.take(i + 1).drop_last() =~= lines.take(i as int));
        assert(lines[i as int] == line@);
        lines_html.append(line.as_str());
        i += 1;
    }
    assert(lines.take(i as int) =~= lines);
    let mut html: String = "                <div class=\"file-tags\">\n".to_owned();
    html.append(lines_html.as_str());
    html.append("                </div>\n");
    html
}

fn comment_html(comment: &Option<String>) -> (html: String)
    ensures
        html@ == (match optional_text(*comment) {
            Some(comment) => comment_line(comment),
            None => Seq::empty(),
        }),
{
    match comment {
        Some(comment) => {
            let mut html: String = "                <div class=\"comment\">".to_owned();
            html.append(encode_text(comment.as_str()).as_str());
            html.append("</div>\n");
            html
        },
        None => String::new(),
    }
}

/// What stands on the page for one file.
pub fn item_html(item: &SitemapItem) -> (html: String)
    ensures
        html@ == item_text(item@),
{
    let link: String = encode_text(item.link.as_str());
    let mut html: String = "            <li class=\"file-item\">\n".to_owned();
    html.append("                <div class=\"file-title\"><a href=\"");
    html.append(link.as_str());
    html.append("\">");
    html.append(encode_text(item.title.as_str()).as_str());
    html.append("</a></div>\n");
    html.append("                <div class=\"file-path\">");
    html.append(link.as_str());
    html.append("</div>\n");
    html.append(modified_html(&item.modified, item.size).as_str());
    html.append(tags_html(&item.tags).as_str());
    html.append(comment_html(&item.comment).as_str());
    html.append("            </li>\n");
    html
}

fn list_html(items: &[SitemapItem]) -> (html: String)
    ensures
        html@ == list_text(views_of(items@)),
{
    if items.len() == 0 {
        return NO_FILES.to_owned();
    }
    let ghost parts = views_of(items@).map_values(|item: SitemapItemView| item_text(item));
    let mut parts_html: String = String::new();
    let mut i: usize = 0;
    while i < items.len()
        invariant
            i <= items@.len(),
            parts == views_of(items@).map_values(|item: SitemapItemView| item_text(item)),
            parts_html@ == concat(parts.take(i as int)),
        decreases items@.len() - i,
    {
        assert(parts.take(i + 1).drop_last() =~= parts.take(i as int));
        parts_html.append(item_html(&items[i]).as_str());
        i += 1;
    }
    assert(parts.take(i as int) =~= parts);
    let mut html: String = "        <ul class=\"file-list\">\n".to_owned();
    html.append(parts_html.as_str());
    html.append("        </ul>\n");
    html
}

proof fn lemma_sum_grows(sizes: Seq<u64>, n: int)
    requires
        0 <= n <= sizes.len(),
    ensures
        sum_of_sizes(sizes.take(n)) <= sum_of_sizes(sizes),
    decreases sizes.len() - n,
{
    if n < sizes.len() {
        lemma_sum_grows(sizes, n + 1);
        assert(sizes.take(n + 1).drop_last() =~= sizes.take(n));
    } else {
        assert(sizes.take(n) =~= sizes);
    }
}

/// The sum of the sizes of the files, unless it is too large a number.
pub fn total_size<E>(entries: &[SitemapEntry<E>]) -> (res: Option<u64>)
    ensures
        match res {
            Some(total) => total == sum_of_sizes(file_sizes(entries@)),
            None => sum_of_sizes(file_sizes(entries@)) > u64::MAX,
        },
{
    let ghost sizes = file_sizes(entries@);
    let mut total: u64 = 0;
    let mut i: usize = 0;
    while i < entries.len()
        invariant
            i <= entries@.len(),
            sizes == file_sizes(entries@),
            total == sum_of_sizes(sizes.take(i as int)),
        decreases entries@.len() - i,
    {
        assert(sizes.take(i + 1).drop_last() =~= sizes.take(i as int));
        assert(sizes.take(i + 1).last() == entries@[i as int].file.size);
        match total.checked_add(entries[i].file.size) {
            Some(sum) => {
                total = sum;
            },
            None => {
                proof {
                    lemma_sum_grows(sizes, i + 1);
                }
                return None;
            },
        }
        i += 1;
    }
    assert(sizes.take(i as int) =~= sizes);
    Some(total)
}

fn sum_of_item_sizes(items: &[SitemapItem]) -> (total: u64)
    requires
        sum_of_sizes(item_sizes(views_of(items@))) <= u64::MAX,
    ensures
        total == sum_of_sizes(item_sizes(views_of(items@))),
{
    let ghost sizes = item_sizes(views_of(items@));
    let mut total: u64 = 0;
    let mut i: usize = 0;
    while i < items.len()
        invariant
            i <= items@.len(),
            sizes == item_sizes(views_of(items@)),
            sum_of_sizes(sizes) <= u64::MAX,
            total == sum_of_sizes(sizes.take(i as int)),
        decreases items@.len() - i,
    {
        proof {
            assert(sizes.take(i + 1).drop_last() =~= sizes.take(i as int));
            assert(sizes.take(i + 1).last() == items@[i as int].size);
            lemma_sum_grows(sizes, i + 1);
        }
        total = total + items[i].size;
        i += 1;
    }
    assert(sizes.take(i as int) =~= sizes);
    total
}

fn newest_html(items: &[SitemapItem]) -> (html: String)
    ensures
        html@ == newest_line(views_of(items@)),
{
    if items.len() == 0 {
        return String::new();
    }
    match &items[0].modified {
        Some(modified) => {
            let mut html: String =
                "            <p><strong>Most recently modified:</strong> ".to_owned();
            html.append(encode_text(items[0].link.as_str()).as_str());
            html.append(" (");
            html.append(modified.as_str());
            html.append(")</p>\n");
            html
        },
        None => String::new(),
    }
}

fn statistics_html(
    items: &[SitemapItem],
    kilobytes: &str,
    tag_count: Option<usize>,
    generated_on: &str,
) -> (html: String)
    requires
        sum_of_sizes(item_sizes(views_of(items@))) <= u64::MAX,
    ensures
        html@ == statistics_text(
            views_of(items@),
            kilobytes@,
            match tag_count {
                Some(count) => Some(count as nat),
                None => None,
            },
            generated_on@,
        ),
{
    let mut html: String =
        "        <div class=\"stats\">\n            <h2>📊 Statistics</h2>\n".to_owned();
    html.append("            <p><strong>Total HTML files:</strong> ");
    html.append(decimal_text(items.len() as u64).as_str());
    html.append("</p>\n");
    html.append("            <p><strong>Total size:</strong> ");
    html.append(decimal_text(sum_of_item_sizes(items)).as_str());
    html.append(" bytes (");
    html.append(kilobytes);
    html.append(" KB)</p>\n");
    html.append(newest_html(items).as_str());
    let mut tags: String = String::new();
    if let Some(count) = tag_count {
        tags = "            <p><strong>Total tags:</strong> ".to_owned();
        tags.append(decimal_text(count as u64).as_str());
        tags.append("</p>\n");
    }
    html.append(tags.as_str());
    html.append("            <p><em>Generated on: ");
    html.append(generated_on);
    html.append("</em></p>\n");
    html
}

/// The page for the files of which `items` tells. `kilobytes` is their total size in
/// kilobytes, `tag_count` the number of tags where it is known, and `generated_on` the
/// time at which the page is written.
pub fn sitemap_html(
    items: &[SitemapItem],
    kilobytes: &str,
    tag_count: Option<usize>,
    generated_on: &str,
) -> (html: String)
    requires
        sum_of_sizes(item_sizes(views_of(items@))) <= u64::MAX,
    ensures
        html@ == sitemap_text(
            views_of(items@),
            kilobytes@,
            match tag_count {
                Some(count) => Some(count as nat),
                None => None,
            },
            generated_on@,
        ),
{
    let mut html: String = PAGE_START.to_owned();
    html.append(list_html(items).as_str());
    html.append(statistics_html(items, kilobytes, tag_count, generated_on).as_str());
    html.append(PAGE_END);
    html
}

/// What the page says of the file of `entry`, where `below` is its path below the listed
/// directory.
pub fn sitemap_item<E>(entry: &SitemapEntry<E>, below: Option<String>) -> (item: SitemapItem)
    ensures
        item@ == entry.item(optional_text(below)),
        item@.modified matches Some(modified) ==> is_plain(modified),
        entry.file.modified.is_shown_by_its_date(),
{
    let link: String = match below {
        Some(below) => below,
        None => entry.file.path.clone(),
    };
    let (tags, comment): (Vec<String>, Option<String>) = match &entry.metadata {
        Ok(Some(metadata)) => (
            copied(&metadata.tags),
            match &metadata.comment {
                Some(comment) => Some(comment.clone()),
                None => None,
            },
        ),
        _ => (Vec::new(), None),
    };
    let item = SitemapItem {
        link,
        title: entry.file.title.clone(),
        modified: entry.file.modified.shown_text(),
        size: entry.file.size,
        tags,
        comment,
    };
    assert(item@.tags =~= entry.item(optional_text(below)).tags);
    item
}

/// The page that lists the files of `entries`, in their order. Each is linked by what the
/// platform gives as its path below the directory `base_dir`, else by its whole path.
/// `kilobytes` is the text of their total size in kilobytes, `all_tags` what came of asking
/// for all tags, and `now` the time in seconds since the epoch.
pub fn generate_sitemap_html<E, F>(
    entries: &[SitemapEntry<E>],
    base_dir: &str,
    kilobytes: &str,
    all_tags: &Result<Vec<String>, F>,
    now: i64,
) -> (html: String)
    requires
        sum_of_sizes(file_sizes(entries@)) <= u64::MAX,
    ensures
        exists|below: Seq<Option<Seq<char>>>| #[trigger]
            are_paths_below(entries@, base_dir@, below) && times_are_plain(
                items_of(entries@, below),
            ) && html@ == sitemap_text(
                items_of(entries@, below),
                kilobytes@,
                match all_tags {
                    Ok(tags) => Some(tags@.len()),
                    Err(_) => None,
                },
                utc_text(covered(now), DATE_AND_TIME@) + " UTC"@,
            ),
        times_are_dates(entries@),
        is_plain(utc_text(covered(now), DATE_AND_TIME@) + " UTC"@),
        0 <= now < YEAR_10000 ==> is_date_and_time_utc(
            now as int,
            utc_text(covered(now), DATE_AND_TIME@) + " UTC"@,
        ),
{
    let mut items: Vec<SitemapItem> = Vec::new();
    let mut i: usize = 0;
    let ghost mut below: Seq<Option<Seq<char>>> = Seq::empty();
    while i < entries.len()
        invariant
            i <= entries@.len(),
            below.len() == i,
            forall|k: int|
                0 <= k < i ==> is_path_below(
                    (#[trigger] entries@[k]).file.path@,
                    base_dir@,
                    below[k],
                ),
            items@.len() == i,
            forall|k: int| 0 <= k < i ==> (#[trigger] items@[k])@ == entries@[k].item(below[k]),
            times_are_plain(views_of(items@)),
            forall|k: int|
                0 <= k < i ==> (#[trigger] entries@[k]).file.modified.is_shown_by_its_date(),
        decreases entries@.len() - i,
    {
        let path: Option<String> = path_below(entries[i].file.path.as_str(), base_dir);
        proof {
            below = below.push(optional_text(path));
        }
        let ghost before = views_of(items@);
        let item: SitemapItem = sitemap_item(&entries[i], path);
        items.push(item);
        assert(views_of(items@) =~= before.push(item@));
        i += 1;
    }
    assert(views_of(items@) =~= items_of(entries@, below));
    assert(item_sizes(views_of(items@)) =~= file_sizes(entries@));
    assert(are_paths_below(entries@, base_dir@, below));
    let tag_count: Option<usize> = match all_tags {
        Ok(tags) => Some(tags.len()),
        Err(_) => None,
    };
    sitemap_html(&items, kilobytes, tag_count, shown_with_zone(now).as_str())
}

/// The page lists every file once, in the order of the files: what stands for it comes
/// after what stands for the files before it, and before what stands for those after it.
pub proof fn law_every_file_is_listed(
    items: Seq<SitemapItemView>,
    kilobytes: Seq<char>,
    tag_count: Option<nat>,
    generated_on: Seq<char>,
    i: int,
)
    requires
        0 <= i < items.len(),
    ensures
        ({
            let parts = items.map_values(|item: SitemapItemView| item_text(item));
            sitemap_text(items, kilobytes, tag_count, generated_on) == PAGE_START@
                + "        <ul class=\"file-list\">\n"@ + concat(parts.take(i)) + item_text(items[i])
                + concat(parts.skip(i + 1)) + "        </ul>\n"@ + statistics_text(
                items,
                kilobytes,
                tag_count,
                generated_on,
            ) + PAGE_END@
        }),
{
    let parts = items.map_values(|item: SitemapItemView| item_text(item));
    law_concat_around(parts, i);
    let start = "        <ul class=\"file-list\">\n"@;
    let end = "        </ul>\n"@;
    assert(PAGE_START@ + (start + (concat(parts.take(i)) + parts[i] + concat(parts.skip(i + 1)))
        + end) =~= PAGE_START@ + start + concat(parts.take(i)) + parts[i] + concat(
        parts.skip(i + 1),
    ) + end);
}

/// A file in the listed directory, or in a directory below it, is linked by its path there,
/// also where the path of the directory ends with a slash. Where the directory is the empty
/// path, or the file is not in the directory, it is linked by its whole path. Where it is the
/// platform's to say whether the file is in the directory, it is linked by one or the other.
pub proof fn law_link_leads_from_the_listed_directory<E>(
    entries: Seq<SitemapEntry<E>>,
    base_dir: Seq<char>,
    below: Seq<Option<Seq<char>>>,
    i: int,
)
    requires
        are_paths_below(entries, base_dir, below),
        0 <= i < entries.len(),
    ensures
        ({
            let path = entries[i].file.path@;
            let rest = rest_of_path(path, base_dir);
            let link = items_of(entries, below)[i].link;
            &&& lies_in(path, base_dir) ==> link == rest
            &&& base_dir.len() == 0 && ends_with_a_name(path) ==> link == path
            &&& lies_outside(path, base_dir) ==> link == path
            &&& may_lie_in(path, base_dir) ==> link == rest || link == path
        }),
{
    assert(is_path_below(entries[i].file.path@, base_dir, below[i]));
}

/// Pages of the same files, listed in the same directory at the same time, are the same,
/// where the paths of the files below the directory are the same on every platform. The
/// page depends on nothing else.
pub proof fn law_equal_arguments_give_equal_pages<E>(
    entries: Seq<SitemapEntry<E>>,
    base_dir: Seq<char>,
    one: Seq<Option<Seq<char>>>,
    other: Seq<Option<Seq<char>>>,
    kilobytes: Seq<char>,
    tag_count: Option<nat>,
    generated_on: Seq<char>,
)
    requires
        are_paths_below(entries, base_dir, one),
        are_paths_below(entries, base_dir, other),
        forall|i: int|
            0 <= i < entries.len() ==> is_settled((#[trigger] entries[i]).file.path@, base_dir),
    ensures
        sitemap_text(items_of(entries, one), kilobytes, tag_count, generated_on) == sitemap_text(
            items_of(entries, other),
            kilobytes,
            tag_count,
            generated_on,
        ),
{
    assert forall|i: int| 0 <= i < entries.len() implies #[trigger] one[i] == other[i] by {
        law_settled_path_is_unique(entries[i].file.path@, base_dir, one[i], other[i]);
    }
    assert(one =~= other);
}

/// Of files that stand newest first, the one that the statistics name is a newest one.
pub proof fn law_most_recent_file_is_named<E>(
    entries: Seq<SitemapEntry<E>>,
    below: Seq<Option<Seq<char>>>,
    i: int,
)
    requires
        newest_first(entries.map_values(|e: SitemapEntry<E>| e.file@)),
        0 <= i < entries.len(),
    ensures
        newest_line(items_of(entries, below)) == newest_line(seq![entries[0].item(below[0])]),
        entries[i].file.modified.nanos() <= entries[0].file.modified.nanos(),
{
    let files = entries.map_values(|e: SitemapEntry<E>| e.file@);
    assert(files[i].modified.nanos() <= files[0].modified.nanos());
    assert(items_of(entries, below).first() == entries[0].item(below[0]));
}

/// A file that is not in the database, or that could not be looked up, is listed as a
/// file without tags and comment.
pub proof fn law_file_without_metadata_is_listed<E>(
    entry: SitemapEntry<E>,
    below: Option<Seq<char>>,
)
    requires
        !(entry.metadata matches Ok(Some(_))),
    ensures
        entry.item(below).tags.len() == 0,
        entry.item(below).comment is None,
        entry.item(below).title == entry.file.title@,
        entry.item(below).size == entry.file.size,
        entry.item(below).modified == entry.file.modified.shown(),
{
}

/// A file that was found in the database is listed with its comment and with exactly its tags,
/// each whether or not there is the other; and every file is listed with its title, time and
/// size, and linked by its path below the listed directory, else by its whole path.
pub proof fn law_item_tells_all_of_its_file<E>(entry: SitemapEntry<E>, below: Option<Seq<char>>)
    ensures
        ({
            let item = entry.item(below);
            &&& entry.metadata matches Ok(Some(metadata)) ==> {
                &&& item.tags == texts(metadata.tags@)
                &&& metadata.comment matches Some(comment) ==> item.comment == Some(comment@)
                &&& metadata.comment is None ==> item.comment is None
            }
            &&& !(entry.metadata matches Ok(Some(_))) ==> item.tags.len() == 0
                && item.comment is None
            &&& item.title == entry.file.title@
            &&& item.size == entry.file.size
            &&& item.modified == entry.file.modified.shown()
            &&& below matches Some(path) ==> item.link == path
            &&& below is None ==> item.link == entry.file.path@
        }),
{
}

/// There is an item for each file, in the order of the files.
pub proof fn law_items_follow_the_files<E>(
    entries: Seq<SitemapEntry<E>>,
    below: Seq<Option<Seq<char>>>,
    i: int,
)
    requires
        0 <= i < entries.len(),
    ensures
        items_of(entries, below).len() == entries.len(),
        items_of(entries, below)[i] == entries[i].item(below[i]),
        file_sizes(entries).len() == entries.len(),
        file_sizes(entries)[i] == entries[i].file.size,
{
}

/// The items that a vector holds are each item with its texts and numbers, in their order.
pub proof fn law_views_of_items(items: Seq<SitemapItem>, i: int)
    requires
        0 <= i < items.len(),
    ensures
        views_of(items).len() == items.len(),
        views_of(items)[i].link == items[i].link@,
        views_of(items)[i].title == items[i].title@,
        views_of(items)[i].size == items[i].size,
        views_of(items)[i].tags == texts(items[i].tags@),
        items[i].modified matches Some(modified) ==> views_of(items)[i].modified == Some(modified@),
        items[i].modified is None ==> views_of(items)[i].modified is None,
        items[i].comment matches Some(comment) ==> views_of(items)[i].comment == Some(comment@),
        items[i].comment is None ==> views_of(items)[i].comment is None,
{
}

/// A file without time, tags and comment stands on the page with its escaped title, linked by
/// its escaped link, and with the escaped link below it.
pub proof fn law_link_and_title_are_shown(item: SitemapItemView)
    requires
        item.modified is None,
        item.tags.len() == 0,
        item.comment is None,
    ensures
        item_text(item) == "            <li class=\"file-item\">\n"@
            + "                <div class=\"file-title\"><a href=\""@ + escape(item.link) + "\">"@
            + escape(item.title) + "</a></div>\n"@ + "                <div class=\"file-path\">"@
            + escape(item.link) + "</div>\n"@ + "            </li>\n"@,
{
    let none = Seq::<char>::empty();
    let head = "            <li class=\"file-item\">\n"@
        + "                <div class=\"file-title\"><a href=\""@ + escape(item.link) + "\">"@
        + escape(item.title) + "</a></div>\n"@ + "                <div class=\"file-path\">"@
        + escape(item.link) + "</div>\n"@;
    assert(head + none + none + none =~= head);
}

/// The time of the last change adds one line to what stands on the page for a file without
/// tags and comment, at its end: the time and the size in bytes.
pub proof fn law_time_and_size_are_shown(item: SitemapItemView, time: Seq<char>) -> (start: Seq<
    char,
>)
    requires
        item.tags.len() == 0,
        item.comment is None,
    ensures
        item_text(SitemapItemView { modified: None, ..item }) == start + "            </li>\n"@,
        item_text(SitemapItemView { modified: Some(time), ..item }) == start
            + "                <div class=\"file-meta\">Modified: "@ + time + " | Size: "@ + decimal(
            item.size as nat,
        ) + " bytes</div>\n"@ + "            </li>\n"@,
{
    let none = Seq::<char>::empty();
    let head = "            <li class=\"file-item\">\n"@
        + "                <div class=\"file-title\"><a href=\""@ + escape(item.link) + "\">"@
        + escape(item.title) + "</a></div>\n"@ + "                <div class=\"file-path\">"@
        + escape(item.link) + "</div>\n"@;
    let line = modified_line(time, item.size);
    assert(head + none + none + none =~= head);
    assert(head + line + none + none =~= head + line);
    assert(head + line =~= head + "                <div class=\"file-meta\">Modified: "@ + time
        + " | Size: "@ + decimal(item.size as nat) + " bytes</div>\n"@);
    head
}

/// Tags add their lines to what stands on the page for a file without comment, at its end: one
/// for each tag, escaped, in their order.
pub proof fn law_tags_are_shown(item: SitemapItemView, tags: Seq<Seq<char>>) -> (start: Seq<char>)
    requires
        item.comment is None,
        tags.len() > 0,
    ensures
        item_text(SitemapItemView { tags: Seq::empty(), ..item }) == start
            + "            </li>\n"@,
        item_text(SitemapItemView { tags, ..item }) == start
            + "                <div class=\"file-tags\">\n"@ + concat(
            Seq::new(
                tags.len(),
                |i: int|
                    "                    <span class=\"tag\">"@ + escape(tags[i]) + "</span>\n"@,
            ),
        ) + "                </div>\n"@ + "            </li>\n"@,
{
    let none = Seq::<char>::empty();
    let time = match item.modified {
        Some(modified) => modified_line(modified, item.size),
        None => none,
    };
    let head = "            <li class=\"file-item\">\n"@
        + "                <div class=\"file-title\"><a href=\""@ + escape(item.link) + "\">"@
        + escape(item.title) + "</a></div>\n"@ + "                <div class=\"file-path\">"@
        + escape(item.link) + "</div>\n"@ + time;
    let lines = Seq::new(
        tags.len(),
        |i: int| "                    <span class=\"tag\">"@ + escape(tags[i]) + "</span>\n"@,
    );
    assert(lines =~= tags.map_values(|tag: Seq<char>| tag_line(tag)));
    assert(head + none + none =~= head);
    assert(head + tag_lines(tags) + none =~= head + "                <div class=\"file-tags\">\n"@
        + concat(lines) + "                </div>\n"@);
    head
}

/// A comment adds one line to what stands on the page for a file, at its end, whether or not
/// the file has tags: the escaped comment.
pub proof fn law_comment_is_shown(item: SitemapItemView, comment: Seq<char>) -> (start: Seq<char>)
    ensures
        item_text(SitemapItemView { comment: None, ..item }) == start + "            </li>\n"@,
        item_text(SitemapItemView { comment: Some(comment), ..item }) == start
            + "                <div class=\"comment\">"@ + escape(comment) + "</div>\n"@
            + "            </li>\n"@,
{
    let none = Seq::<char>::empty();
    let time = match item.modified {
        Some(modified) => modified_line(modified, item.size),
        None => none,
    };
    let head = "            <li class=\"file-item\">\n"@
        + "                <div class=\"file-title\"><a href=\""@ + escape(item.link) + "\">"@
        + escape(item.title) + "</a></div>\n"@ + "                <div class=\"file-path\">"@
        + escape(item.link) + "</div>\n"@ + time + tag_lines(item.tags);
    assert(head + none =~= head);
    assert(head + comment_line(comment) =~= head + "                <div class=\"comment\">"@
        + escape(comment) + "</div>\n"@);
    head
}

/// A list without files says so. A list with files grows by what stands for a file, at its end.
pub proof fn law_list_grows_by_a_file(items: Seq<SitemapItemView>, item: SitemapItemView) -> (start:
    Seq<char>)
    ensures
        items.len() == 0 ==> list_text(items) == "        <p>No HTML files found.</p>\n"@,
        items.len() == 0 ==> start == "        <ul class=\"file-list\">\n"@,
        items.len() > 0 ==> list_text(items) == start + "        </ul>\n"@,
        list_text(items.push(item)) == start + item_text(item) + "        </ul>\n"@,
{
    let parts = items.map_values(|item: SitemapItemView| item_text(item));
    let more = items.push(item).map_values(|item: SitemapItemView| item_text(item));
    let open = "        <ul class=\"file-list\">\n"@;
    assert(more.drop_last() =~= parts);
    assert(open + concat(more) =~= open + concat(parts) + item_text(item));
    if items.len() == 0 {
        assert(open + concat(parts) =~= open);
    }
    open + concat(parts)
}

/// The sum of sizes goes list by list, and the sum of a single size is that size.
pub proof fn law_sum_of_sizes(a: Seq<u64>, b: Seq<u64>, size: u64)
    ensures
        sum_of_sizes(a + b) == sum_of_sizes(a) + sum_of_sizes(b),
        sum_of_sizes(seq![size]) == size,
        sum_of_sizes(Seq::empty()) == 0,
    decreases b.len(),
{
    reveal_with_fuel(sum_of_sizes, 2);
    assert(seq![size].drop_last() =~= Seq::empty());
    if b.len() > 0 {
        law_sum_of_sizes(a, b.drop_last(), size);
        assert((a + b).drop_last() =~= a + b.drop_last());
    } else {
        assert(a + b =~= a);
    }
}

/// The sizes that the page says are those of the items.
pub proof fn law_sizes_of_items(items: Seq<SitemapItemView>, i: int)
    ensures
        item_sizes(items).len() == items.len(),
        0 <= i < items.len() ==> item_sizes(items)[i] == items[i].size,
{
}

/// The statistics tell the number of files, the sum of their sizes in bytes and in kilobytes,
/// and the time of writing; and after the line of the most recent file they tell the number of
/// tags where it is known.
pub proof fn law_statistics_tell_the_numbers(
    items: Seq<SitemapItemView>,
    kilobytes: Seq<char>,
    count: nat,
    generated_on: Seq<char>,
) -> (parts: (Seq<char>, Seq<char>))
    ensures
        statistics_text(items, kilobytes, None, generated_on) == parts.0 + newest_line(items)
            + parts.1,
        statistics_text(items, kilobytes, Some(count), generated_on) == parts.0 + newest_line(items)
            + "            <p><strong>Total tags:</strong> "@ + decimal(count) + "</p>\n"@ + parts.1,
        parts.0 == "        <div class=\"stats\">\n            <h2>📊 Statistics</h2>\n"@
            + "            <p><strong>Total HTML files:</strong> "@ + decimal(items.len())
            + "</p>\n"@ + "            <p><strong>Total size:</strong> "@ + decimal(
            sum_of_sizes(item_sizes(items)),
        ) + " bytes ("@ + kilobytes + " KB)</p>\n"@,
        parts.1 == "            <p><em>Generated on: "@ + generated_on + "</em></p>\n"@,
{
    let none = Seq::<char>::empty();
    let start = "        <div class=\"stats\">\n            <h2>📊 Statistics</h2>\n"@
        + "            <p><strong>Total HTML files:</strong> "@ + decimal(items.len()) + "</p>\n"@
        + "            <p><strong>Total size:</strong> "@ + decimal(sum_of_sizes(item_sizes(items)))
        + " bytes ("@ + kilobytes + " KB)</p>\n"@;
    let end = "            <p><em>Generated on: "@ + generated_on + "</em></p>\n"@;
    assert(statistics_text(items, kilobytes, None, generated_on) =~= start + newest_line(items)
        + end);
    assert(statistics_text(items, kilobytes, Some(count), generated_on) =~= start + newest_line(
        items,
    ) + "            <p><strong>Total tags:</strong> "@ + decimal(count) + "</p>\n"@ + end);
    (start, end)
}

/// The most recent file is the first one: its escaped link and its time are named, where its
/// time is shown, whatever the other files are.
pub proof fn law_first_file_is_named(items: Seq<SitemapItemView>)
    ensures
        items.len() == 0 ==> newest_line(items).len() == 0,
        items.len() > 0 ==> match items[0].modified {
            Some(time) => newest_line(items)
                == "            <p><strong>Most recently modified:</strong> "@ + escape(
                items[0].link,
            ) + " ("@ + time + ")</p>\n"@,
            None => newest_line(items).len() == 0,
        },
{
}

/// The page is its fixed start, the list, the statistics and its fixed end.
pub proof fn law_parts_of_the_page(
    items: Seq<SitemapItemView>,
    kilobytes: Seq<char>,
    tag_count: Option<nat>,
    generated_on: Seq<char>,
)
    ensures
        sitemap_text(items, kilobytes, tag_count, generated_on) == PAGE_START@ + list_text(items)
            + statistics_text(items, kilobytes, tag_count, generated_on) + PAGE_END@,
{
}

} // verus!
