//! The heading of the most recent file: it stands on the page once.

use crate::escape::{escape, law_escaped_text_holds_no_tag};
use crate::sitemap::{
    comment_line, item_sizes, item_text, list_text, modified_line, newest_line, sitemap_text,
    statistics_text, sum_of_sizes, tag_line, tag_lines, times_are_plain, SitemapItemView, NO_FILES,
    PAGE_END, PAGE_START,
};
use crate::text::{concat, decimal};
use vstd::prelude::*;

verus! {

/// What the line of the most recent file begins with.
pub const HEADING: &'static str = "Most recently modified:</strong>";

/// Whether `part` stands in `s` at the place `at`.
pub open spec fn stands_at(s: Seq<char>, part: Seq<char>, at: int) -> bool {
    0 <= at && at + part.len() <= s.len() && s.subrange(at, at + part.len()) == part
}

/// Whether the `<` of the heading could be the one at the place `k`.
spec fn mark_at(s: Seq<char>, k: int) -> bool {
    &&& 2 <= k && k + 3 < s.len()
    &&& s[k] == '<'
    &&& s[k - 2] == 'd'
    &&& s[k - 1] == ':'
    &&& s[k + 1] == '/'
    &&& s[k + 2] == 's'
    &&& s[k + 3] == 't'
}

/// Whether no mark can arise where texts are put before and after `s`.
spec fn is_sealed(s: Seq<char>) -> bool {
    &&& forall|k: int| 0 <= k < s.len() && #[trigger] s[k] == '<' ==> k + 3 < s.len()
    &&& s.len() > 0 && s[0] == '<' ==> !(s[1] == '/' && s[2] == 's' && s[3] == 't')
    &&& s.len() > 1 && s[0] == ':' && s[1] == '<' ==> !(s[2] == '/' && s[3] == 's' && s[4] == 't')
}

/// Whether the text is sealed and holds no mark.
#[verifier::opaque]
spec fn is_unmarked(s: Seq<char>) -> bool {
    &&& is_sealed(s)
    &&& forall|k: int| !#[trigger] mark_at(s, k)
}

broadcast proof fn lemma_unmarked_sum(a: Seq<char>, b: Seq<char>)
    requires
        is_unmarked(a),
        is_unmarked(b),
    ensures
        #[trigger] is_unmarked(a + b),
{
    reveal(is_unmarked);
    let s = a + b;
    assert forall|k: int| !#[trigger] mark_at(s, k) by {
        if mark_at(s, k) {
            if k < a.len() {
                assert(a[k] == '<');
                assert(mark_at(a, k));
            } else {
                assert(b[k - a.len()] == '<');
                if k >= a.len() + 2 {
                    assert(mark_at(b, k - a.len()));
                }
            }
        }
    }
    assert forall|k: int| 0 <= k < s.len() && #[trigger] s[k] == '<' implies k + 3 < s.len() by {
        if k < a.len() {
            assert(a[k] == '<');
        } else {
            assert(b[k - a.len()] == '<');
        }
    }
    if a.len() == 0 {
        assert(s =~= b);
    }
}

proof fn lemma_plain_is_unmarked(s: Seq<char>)
    requires
        !s.contains('<'),
    ensures
        is_unmarked(s),
{
    reveal(is_unmarked);
    assert forall|k: int| 0 <= k < s.len() implies #[trigger] s[k] != '<' by {
        assert(s.contains(s[k]));
    }
}

broadcast proof fn lemma_escaped_is_unmarked(s: Seq<char>)
    ensures
        #[trigger] is_unmarked(escape(s)),
{
    law_escaped_text_holds_no_tag(s);
    lemma_plain_is_unmarked(escape(s));
}

broadcast proof fn lemma_decimal_is_unmarked(n: nat)
    ensures
        #[trigger] is_unmarked(decimal(n)),
{
    lemma_decimal_is_plain(n);
    lemma_plain_is_unmarked(decimal(n));
}

proof fn lemma_decimal_is_plain(n: nat)
    ensures
        !decimal(n).contains('<'),
    decreases n,
{
    let s = decimal(n);
    if n >= 10 {
        lemma_decimal_is_plain(n / 10);
    }
    if s.contains('<') {
        let k = choose|k: int| 0 <= k < s.len() && s[k] == '<';
        if n >= 10 && k < s.len() - 1 {
            assert(decimal(n / 10)[k] == '<');
        }
    }
}

proof fn lemma_concat_is_unmarked(parts: Seq<Seq<char>>)
    requires
        forall|i: int| 0 <= i < parts.len() ==> is_unmarked(#[trigger] parts[i]),
    ensures
        is_unmarked(concat(parts)),
    decreases parts.len(),
{
    if parts.len() == 0 {
        lemma_plain_is_unmarked(concat(parts));
    }
    if parts.len() > 0 {
        assert forall|i: int| 0 <= i < parts.drop_last().len() implies is_unmarked(
            #[trigger] parts.drop_last()[i],
        ) by {
            assert(is_unmarked(parts[i]));
        }
        lemma_concat_is_unmarked(parts.drop_last());
        assert(is_unmarked(parts[parts.len() - 1]));
        lemma_unmarked_sum(concat(parts.drop_last()), parts.last());
    }
}

proof fn lemma_page_start_is_unmarked()
    ensures
        is_unmarked(PAGE_START@),
{
    reveal(is_unmarked);
    reveal_strlit(
        "<!DOCTYPE html>
<html lang=\"en\">
<head>
    <meta charset=\"UTF-8\">
    <meta name=\"viewport\" content=\"width=device-width, initial-scale=1.0\">
    <title>Site Navigation</title>
    <style>
        body { font-family: Arial, sans-serif; margin: 2rem; background: #f5f5f5; }
        .container { max-width: 1200px; margin: 0 auto; background: white; padding: 2rem; border-radius: 8px; box-shadow: 0 2px 10px rgba(0,0,0,0.1); }
        h1 { color: #333; border-bottom: 3px solid #007acc; padding-bottom: 0.5rem; }
        .file-list { list-style: none; padding: 0; }
        .file-item { margin: 1rem 0; padding: 1rem; border: 1px solid #ddd; border-radius: 5px; background: #fafafa; }
        .file-item:hover { background: #f0f8ff; }
        .file-title { font-size: 1.2em; font-weight: bold; color: #007acc; }
        .file-path { color: #666; font-family: monospace; margin: 0.5rem 0; }
        .file-meta { color: #888; font-size: 0.9em; }
        .file-tags { margin-top: 0.5rem; }
        .tag { display: inline-block; background: #007acc; color: white; padding: 0.2rem 0.5rem; margin: 0.1rem; border-radius: 3px; font-size: 0.8em; }
        .comment { margin-top: 0.5rem; font-style: italic; color: #555; }
        .stats { margin-top: 2rem; padding: 1rem; background: #e8f4f8; border-radius: 5px; }
        .stats h2 { margin-top: 0; color: #005577; }
    </style>
</head>
<body>
    <div class=\"container\">
        <h1>📄 Site Navigation</h1>
",
    );
}

proof fn lemma_page_end_is_unmarked()
    ensures
        is_unmarked(PAGE_END@),
{
    reveal(is_unmarked);
    reveal_strlit(
        "        </div>
    </div>
</body>
</html>
",
    );
}

proof fn lemma_modified_line_is_unmarked(modified: Seq<char>, size: u64)
    requires
        !modified.contains('<'),
    ensures
        is_unmarked(modified_line(modified, size)),
{
    broadcast use {lemma_unmarked_sum, lemma_decimal_is_unmarked};

    assert(is_unmarked("                <div class=\"file-meta\">Modified: "@)) by {
        reveal(is_unmarked);
        reveal_strlit("                <div class=\"file-meta\">Modified: ");
    }
    assert(is_unmarked(" | Size: "@)) by {
        reveal(is_unmarked);
        reveal_strlit(" | Size: ");
    }
    assert(is_unmarked(" bytes</div>\n"@)) by {
        reveal(is_unmarked);
        reveal_strlit(" bytes</div>\n");
    }
    lemma_plain_is_unmarked(modified);
}

proof fn lemma_tag_line_is_unmarked(tag: Seq<char>)
    ensures
        is_unmarked(tag_line(tag)),
{
    broadcast use {lemma_unmarked_sum, lemma_escaped_is_unmarked};

    assert(is_unmarked("                    <span class=\"tag\">"@)) by {
        reveal(is_unmarked);
        reveal_strlit("                    <span class=\"tag\">");
    }
    assert(is_unmarked("</span>\n"@)) by {
        reveal(is_unmarked);
        reveal_strlit("</span>\n");
    }
}

proof fn lemma_tag_lines_are_unmarked(tags: Seq<Seq<char>>)
    requires
        tags.len() > 0,
    ensures
        is_unmarked(tag_lines(tags)),
{
    broadcast use lemma_unmarked_sum;

    assert(is_unmarked("                <div class=\"file-tags\">\n"@)) by {
        reveal(is_unmarked);
        reveal_strlit("                <div class=\"file-tags\">\n");
    }
    assert(is_unmarked("                </div>\n"@)) by {
        reveal(is_unmarked);
        reveal_strlit("                </div>\n");
    }
    let lines = tags.map_values(|tag: Seq<char>| tag_line(tag));
    assert forall|i: int| 0 <= i < lines.len() implies is_unmarked(#[trigger] lines[i]) by {
        lemma_tag_line_is_unmarked(tags[i]);
    }
    lemma_concat_is_unmarked(lines);
}

proof fn lemma_comment_line_is_unmarked(comment: Seq<char>)
    ensures
        is_unmarked(comment_line(comment)),
{
    broadcast use {lemma_unmarked_sum, lemma_escaped_is_unmarked};

    assert(is_unmarked("                <div class=\"comment\">"@)) by {
        reveal(is_unmarked);
        reveal_strlit("                <div class=\"comment\">");
    }
    assert(is_unmarked("</div>\n"@)) by {
        reveal(is_unmarked);
        reveal_strlit("</div>\n");
    }
}

proof fn lemma_item_is_unmarked(item: SitemapItemView)
    requires
        item.modified matches Some(modified) ==> !modified.contains('<'),
    ensures
        is_unmarked(item_text(item)),
{
    broadcast use {lemma_unmarked_sum, lemma_escaped_is_unmarked};

    assert(is_unmarked("            <li class=\"file-item\">\n"@)) by {
        reveal(is_unmarked);
        reveal_strlit("            <li class=\"file-item\">\n");
    }
    assert(is_unmarked("                <div class=\"file-title\"><a href=\""@)) by {
        reveal(is_unmarked);
        reveal_strlit("                <div class=\"file-title\"><a href=\"");
    }
    assert(is_unmarked("\">"@)) by {
        reveal(is_unmarked);
        reveal_strlit("\">");
    }
    assert(is_unmarked("</a></div>\n"@)) by {
        reveal(is_unmarked);
        reveal_strlit("</a></div>\n");
    }
    assert(is_unmarked("                <div class=\"file-path\">"@)) by {
        reveal(is_unmarked);
        reveal_strlit("                <div class=\"file-path\">");
    }
    assert(is_unmarked("</div>\n"@)) by {
        reveal(is_unmarked);
        reveal_strlit("</div>\n");
    }
    assert(is_unmarked("            </li>\n"@)) by {
        reveal(is_unmarked);
        reveal_strlit("            </li>\n");
    }
    lemma_plain_is_unmarked(Seq::empty());
    if let Some(modified) = item.modified {
        lemma_modified_line_is_unmarked(modified, item.size);
    }
    if item.tags.len() > 0 {
        lemma_tag_lines_are_unmarked(item.tags);
    }
    if let Some(comment) = item.comment {
        lemma_comment_line_is_unmarked(comment);
    }
}

proof fn lemma_list_is_unmarked(items: Seq<SitemapItemView>)
    requires
        times_are_plain(items),
    ensures
        is_unmarked(list_text(items)),
{
    broadcast use lemma_unmarked_sum;

    assert(is_unmarked(NO_FILES@)) by {
        reveal(is_unmarked);
        reveal_strlit("        <p>No HTML files found.</p>\n");
    }
    assert(is_unmarked("        <ul class=\"file-list\">\n"@)) by {
        reveal(is_unmarked);
        reveal_strlit("        <ul class=\"file-list\">\n");
    }
    assert(is_unmarked("        </ul>\n"@)) by {
        reveal(is_unmarked);
        reveal_strlit("        </ul>\n");
    }
    let parts = items.map_values(|item: SitemapItemView| item_text(item));
    assert forall|i: int| 0 <= i < parts.len() implies is_unmarked(#[trigger] parts[i]) by {
        assert(parts[i] == item_text(items[i]));
        lemma_item_is_unmarked(items[i]);
    }
    lemma_concat_is_unmarked(parts);
}

/// What stands in the statistics before the line of the most recent file.
pub open spec fn statistics_start(items: Seq<SitemapItemView>, kilobytes: Seq<char>) -> Seq<char> {
    "        <div class=\"stats\">\n            <h2>📊 Statistics</h2>\n"@
        + "            <p><strong>Total HTML files:</strong> "@ + decimal(items.len()) + "</p>\n"@
        + "            <p><strong>Total size:</strong> "@ + decimal(sum_of_sizes(item_sizes(items)))
        + " bytes ("@ + kilobytes + " KB)</p>\n"@
}

/// What stands in the statistics after the line of the most recent file.
pub open spec fn statistics_end(tag_count: Option<nat>, generated_on: Seq<char>) -> Seq<char> {
    (match tag_count {
        Some(count) => "            <p><strong>Total tags:</strong> "@ + decimal(count)
            + "</p>\n"@,
        None => Seq::empty(),
    }) + "            <p><em>Generated on: "@ + generated_on + "</em></p>\n"@
}

proof fn lemma_statistics_start_is_unmarked(items: Seq<SitemapItemView>, kilobytes: Seq<char>)
    requires
        !kilobytes.contains('<'),
    ensures
        is_unmarked(statistics_start(items, kilobytes)),
{
    broadcast use {lemma_unmarked_sum, lemma_decimal_is_unmarked};

    assert(is_unmarked("        <div class=\"stats\">\n            <h2>📊 Statistics</h2>\n"@)) by {
        reveal(is_unmarked);
        reveal_strlit("        <div class=\"stats\">\n            <h2>📊 Statistics</h2>\n");
    }
    assert(is_unmarked("            <p><strong>Total HTML files:</strong> "@)) by {
        reveal(is_unmarked);
        reveal_strlit("            <p><strong>Total HTML files:</strong> ");
    }
    assert(is_unmarked("</p>\n"@)) by {
        reveal(is_unmarked);
        reveal_strlit("</p>\n");
    }
    assert(is_unmarked("            <p><strong>Total size:</strong> "@)) by {
        reveal(is_unmarked);
        reveal_strlit("            <p><strong>Total size:</strong> ");
    }
    assert(is_unmarked(" bytes ("@)) by {
        reveal(is_unmarked);
        reveal_strlit(" bytes (");
    }
    assert(is_unmarked(" KB)</p>\n"@)) by {
        reveal(is_unmarked);
        reveal_strlit(" KB)</p>\n");
    }
    lemma_plain_is_unmarked(kilobytes);
}

proof fn lemma_tag_count_is_unmarked(count: nat)
    ensures
        is_unmarked("            <p><strong>Total tags:</strong> "@ + decimal(count) + "</p>\n"@),
{
    broadcast use {lemma_unmarked_sum, lemma_decimal_is_unmarked};

    assert(is_unmarked("            <p><strong>Total tags:</strong> "@)) by {
        reveal(is_unmarked);
        reveal_strlit("            <p><strong>Total tags:</strong> ");
    }
    assert(is_unmarked("</p>\n"@)) by {
        reveal(is_unmarked);
        reveal_strlit("</p>\n");
    }
}

proof fn lemma_statistics_end_is_unmarked(tag_count: Option<nat>, generated_on: Seq<char>)
    requires
        !generated_on.contains('<'),
    ensures
        is_unmarked(statistics_end(tag_count, generated_on)),
{
    broadcast use lemma_unmarked_sum;

    assert(is_unmarked("            <p><em>Generated on: "@)) by {
        reveal(is_unmarked);
        reveal_strlit("            <p><em>Generated on: ");
    }
    assert(is_unmarked("</em></p>\n"@)) by {
        reveal(is_unmarked);
        reveal_strlit("</em></p>\n");
    }
    lemma_plain_is_unmarked(Seq::empty());
    if let Some(count) = tag_count {
        lemma_tag_count_is_unmarked(count);
    }
    lemma_plain_is_unmarked(generated_on);
}

/// Where the first text before and the second after a sealed text hold no mark, the marks
/// are those of the text between.
proof fn lemma_marks_between(a: Seq<char>, s: Seq<char>, b: Seq<char>)
    requires
        is_unmarked(a),
        is_sealed(s),
        is_unmarked(b),
    ensures
        forall|k: int| #[trigger] mark_at(a + s + b, k) <==> mark_at(s, k - a.len()),
{
    reveal(is_unmarked);
    let whole = a + s + b;
    assert forall|k: int| #[trigger] mark_at(whole, k) <==> mark_at(s, k - a.len()) by {
        let j = k - a.len();
        if mark_at(whole, k) {
            if k < a.len() {
                assert(a[k] == '<');
                assert(mark_at(a, k));
            } else if j < s.len() {
                assert(s[j] == '<');
            } else {
                let m = j - s.len();
                assert(b[m] == '<');
                if m >= 2 {
                    assert(mark_at(b, m));
                }
            }
        }
        if mark_at(s, j) {
            assert(whole[k] == s[j]);
            assert(whole[k - 2] == s[j - 2]);
            assert(whole[k - 1] == s[j - 1]);
            assert(whole[k + 1] == s[j + 1]);
            assert(whole[k + 2] == s[j + 2]);
            assert(whole[k + 3] == s[j + 3]);
        }
    }
}

/// The heading of the most recent file stands on the page once, where its line is, and what
/// follows it is the escaped link of the first file and the time of its last change. Where
/// that time is not shown, or there are no files, the heading stands nowhere.
pub proof fn law_heading_stands_once(
    items: Seq<SitemapItemView>,
    kilobytes: Seq<char>,
    tag_count: Option<nat>,
    generated_on: Seq<char>,
)
    requires
        times_are_plain(items),
        !kilobytes.contains('<'),
        !generated_on.contains('<'),
    ensures
        ({
            let page = sitemap_text(items, kilobytes, tag_count, generated_on);
            let before = PAGE_START@ + list_text(items) + statistics_start(items, kilobytes);
            let after = statistics_end(tag_count, generated_on) + PAGE_END@;
            if items.len() > 0 && items.first().modified is Some {
                let head = before + "            <p><strong>"@;
                &&& forall|k: int| #[trigger] stands_at(page, HEADING@, k) <==> k == head.len()
                &&& page == head + HEADING@ + " "@ + escape(items.first().link) + " ("@
                    + items.first().modified->0 + ")</p>\n"@ + after
            } else {
                &&& forall|k: int| !#[trigger] stands_at(page, HEADING@, k)
                &&& page == before + after
            }
        }),
{
    let page = sitemap_text(items, kilobytes, tag_count, generated_on);
    let before = PAGE_START@ + list_text(items) + statistics_start(items, kilobytes);
    let after = statistics_end(tag_count, generated_on) + PAGE_END@;
    lemma_page_start_is_unmarked();
    lemma_page_end_is_unmarked();
    lemma_list_is_unmarked(items);
    lemma_statistics_start_is_unmarked(items, kilobytes);
    lemma_statistics_end_is_unmarked(tag_count, generated_on);
    lemma_unmarked_sum(PAGE_START@, list_text(items));
    lemma_unmarked_sum(PAGE_START@ + list_text(items), statistics_start(items, kilobytes));
    lemma_unmarked_sum(statistics_end(tag_count, generated_on), PAGE_END@);
    lemma_page_parts(items, kilobytes, tag_count, generated_on);
    if items.len() > 0 && items.first().modified is Some {
        let link = escape(items.first().link);
        let time = items.first().modified->0;
        let rest = link + " ("@ + time + ")</p>\n"@;
        lemma_end_of_the_line_is_unmarked(items.first().link, time);
        lemma_unmarked_sum(rest, after);
        lemma_heading_once(before, rest + after);
        lemma_line_start();
        lemma_regroup(
            before,
            "            <p><strong>"@,
            HEADING@,
            " "@,
            link,
            " ("@,
            time,
            ")</p>\n"@,
            statistics_end(tag_count, generated_on),
            PAGE_END@,
        );
    } else {
        lemma_unmarked_sum(before, after);
        lemma_no_heading(before + after);
        assert(before + Seq::<char>::empty() + statistics_end(tag_count, generated_on) + PAGE_END@
            =~= before + after);
    }
}

/// The heading stands once in a text that is made of one without a mark, the start of the
/// line, and another one without a mark.
proof fn lemma_heading_once(before: Seq<char>, tail: Seq<char>)
    requires
        is_unmarked(before),
        is_unmarked(tail),
    ensures
        forall|k: int| #[trigger]
            stands_at(
                before + "            <p><strong>Most recently modified:</strong> "@ + tail,
                HEADING@,
                k,
            ) <==> k == (before + "            <p><strong>"@).len(),
{
    let line = "            <p><strong>Most recently modified:</strong> "@;
    let tags = "            <p><strong>"@;
    let page = before + line + tail;
    let at = (before + tags).len() as int;
    lemma_line_start();
    lemma_marks_between(before, line, tail);
    assert forall|k: int| #[trigger] stands_at(page, HEADING@, k) implies k == at by {
        lemma_heading_holds_a_mark(page, k);
        assert(mark_at(line, k + 23 - before.len()));
    }
    assert(page.subrange(at, at + HEADING@.len()) =~= HEADING@);
    assert(stands_at(page, HEADING@, at));
}

proof fn lemma_no_heading(s: Seq<char>)
    requires
        is_unmarked(s),
    ensures
        forall|k: int| !#[trigger] stands_at(s, HEADING@, k),
{
    reveal(is_unmarked);
    assert forall|k: int| !#[trigger] stands_at(s, HEADING@, k) by {
        if stands_at(s, HEADING@, k) {
            lemma_heading_holds_a_mark(s, k);
        }
    }
}

proof fn lemma_regroup(
    before: Seq<char>,
    tags: Seq<char>,
    heading: Seq<char>,
    space: Seq<char>,
    link: Seq<char>,
    open: Seq<char>,
    time: Seq<char>,
    close: Seq<char>,
    end: Seq<char>,
    page_end: Seq<char>,
)
    ensures
        before + (tags + heading + space + link + open + time + close) + end + page_end == before
            + (tags + heading + space) + (link + open + time + close + (end + page_end)),
        before + (tags + heading + space + link + open + time + close) + end + page_end == before
            + tags + heading + space + link + open + time + close + (end + page_end),
{
    assert(before + (tags + heading + space + link + open + time + close) + end + page_end
        =~= before + (tags + heading + space) + (link + open + time + close + (end + page_end)));
    assert(before + (tags + heading + space + link + open + time + close) + end + page_end
        =~= before + tags + heading + space + link + open + time + close + (end + page_end));
}

proof fn lemma_page_parts(
    items: Seq<SitemapItemView>,
    kilobytes: Seq<char>,
    tag_count: Option<nat>,
    generated_on: Seq<char>,
)
    ensures
        sitemap_text(items, kilobytes, tag_count, generated_on) == PAGE_START@ + list_text(items)
            + statistics_start(items, kilobytes) + newest_line(items) + statistics_end(
            tag_count,
            generated_on,
        ) + PAGE_END@,
{
    let start = statistics_start(items, kilobytes);
    let end = statistics_end(tag_count, generated_on);
    assert(statistics_text(items, kilobytes, tag_count, generated_on) =~= start + newest_line(items)
        + end);
    assert(PAGE_START@ + list_text(items) + (start + newest_line(items) + end) + PAGE_END@
        =~= PAGE_START@ + list_text(items) + start + newest_line(items) + end + PAGE_END@);
}

proof fn lemma_heading_holds_a_mark(page: Seq<char>, at: int)
    requires
        stands_at(page, HEADING@, at),
    ensures
        mark_at(page, at + 23),
{
    reveal_strlit("Most recently modified:</strong>");
    let part = page.subrange(at, at + HEADING@.len());
    assert(part[21] == page[at + 21]);
    assert(part[22] == page[at + 22]);
    assert(part[23] == page[at + 23]);
    assert(part[24] == page[at + 24]);
    assert(part[25] == page[at + 25]);
    assert(part[26] == page[at + 26]);
}

proof fn lemma_line_start()
    ensures
        ({
            let line = "            <p><strong>Most recently modified:</strong> "@;
            let tags = "            <p><strong>"@;
            &&& is_sealed(line)
            &&& forall|k: int| #[trigger] mark_at(line, k) ==> k == tags.len() + 23
            &&& line == tags + HEADING@ + " "@
        }),
{
    reveal_strlit("            <p><strong>Most recently modified:</strong> ");
    reveal_strlit("            <p><strong>");
    reveal_strlit("Most recently modified:</strong>");
    reveal_strlit(" ");
    assert("            <p><strong>Most recently modified:</strong> "@ =~= "            <p><strong>"@
        + HEADING@ + " "@);
}

proof fn lemma_end_of_the_line_is_unmarked(link: Seq<char>, time: Seq<char>)
    requires
        !time.contains('<'),
    ensures
        is_unmarked(escape(link) + " ("@ + time + ")</p>\n"@),
{
    broadcast use {lemma_unmarked_sum, lemma_escaped_is_unmarked};

    assert(is_unmarked(" ("@)) by {
        reveal(is_unmarked);
        reveal_strlit(" (");
    }
    assert(is_unmarked(")</p>\n"@)) by {
        reveal(is_unmarked);
        reveal_strlit(")</p>\n");
    }
    lemma_plain_is_unmarked(time);
}

} // verus!
