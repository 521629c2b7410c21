use html_navigator::clock::Timestamp;
use html_navigator::database::FileMetadata;
use html_navigator::files::HtmlFile;
use html_navigator::sitemap::{
    generate_sitemap_html, item_html, sitemap_html, sitemap_item, total_size, SitemapEntry,
    SitemapItem,
};

type Entry = SitemapEntry<String>;

fn entry(path: &str, title: &str, modified: Timestamp, size: u64) -> Entry {
    SitemapEntry {
        file: HtmlFile {
            path: path.to_string(),
            title: title.to_string(),
            modified,
            size,
            hash: String::new(),
        },
        metadata: Ok(None),
    }
}

fn head() -> String {
    let mut html = String::new();
    html.push_str("<!DOCTYPE html>\n");
    html.push_str("<html lang=\"en\">\n");
    html.push_str("<head>\n");
    html.push_str("    <meta charset=\"UTF-8\">\n");
    html.push_str("    <meta name=\"viewport\" content=\"width=device-width, initial-scale=1.0\">\n");
    html.push_str("    <title>Site Navigation</title>\n");
    html.push_str("    <style>\n");
    html.push_str("        body { font-family: Arial, sans-serif; margin: 2rem; background: #f5f5f5; }\n");
    html.push_str("        .container { max-width: 1200px; margin: 0 auto; background: white; padding: 2rem; border-radius: 8px; box-shadow: 0 2px 10px rgba(0,0,0,0.1); }\n");
    html.push_str("        h1 { color: #333; border-bottom: 3px solid #007acc; padding-bottom: 0.5rem; }\n");
    html.push_str("        .file-list { list-style: none; padding: 0; }\n");
    html.push_str("        .file-item { margin: 1rem 0; padding: 1rem; border: 1px solid #ddd; border-radius: 5px; background: #fafafa; }\n");
    html.push_str("        .file-item:hover { background: #f0f8ff; }\n");
    html.push_str("        .file-title { font-size: 1.2em; font-weight: bold; color: #007acc; }\n");
    html.push_str("        .file-path { color: #666; font-family: monospace; margin: 0.5rem 0; }\n");
    html.push_str("        .file-meta { color: #888; font-size: 0.9em; }\n");
    html.push_str("        .file-tags { margin-top: 0.5rem; }\n");
    html.push_str("        .tag { display: inline-block; background: #007acc; color: white; padding: 0.2rem 0.5rem; margin: 0.1rem; border-radius: 3px; font-size: 0.8em; }\n");
    html.push_str("        .comment { margin-top: 0.5rem; font-style: italic; color: #555; }\n");
    html.push_str("        .stats { margin-top: 2rem; padding: 1rem; background: #e8f4f8; border-radius: 5px; }\n");
    html.push_str("        .stats h2 { margin-top: 0; color: #005577; }\n");
    html.push_str("    </style>\n");
    html.push_str("</head>\n");
    html.push_str("<body>\n");
    html.push_str("    <div class=\"container\">\n");
    html.push_str("        <h1>📄 Site Navigation</h1>\n");
    html
}

#[test]
fn page_without_files() {
    let entries: Vec<Entry> = Vec::new();
    let tags: Result<Vec<String>, String> = Ok(Vec::new());
    let mut expected = head();
    expected.push_str("        <p>No HTML files found.</p>\n");
    expected.push_str("        <div class=\"stats\">\n");
    expected.push_str("            <h2>📊 Statistics</h2>\n");
    expected.push_str("            <p><strong>Total HTML files:</strong> 0</p>\n");
    expected.push_str("            <p><strong>Total size:</strong> 0 bytes (0.00 KB)</p>\n");
    expected.push_str("            <p><strong>Total tags:</strong> 0</p>\n");
    expected.push_str("            <p><em>Generated on: 2023-11-14 22:13:20 UTC</em></p>\n");
    expected.push_str("        </div>\n");
    expected.push_str("    </div>\n");
    expected.push_str("</body>\n");
    expected.push_str("</html>\n");
    assert_eq!(generate_sitemap_html(&entries, "/s", "0.00", &tags, 1_700_000_000), expected);
}

#[test]
fn page_with_files() {
    let mut first = entry("/s/a&b.html", "A < B", Timestamp::Since { seconds: 1_700_000_000, nanos: 5 }, 1000);
    first.metadata = Ok(Some(FileMetadata {
        file_path: "/s/a&b.html".to_string(),
        hash: "h".to_string(),
        comment: Some("good > bad".to_string()),
        tags: vec!["x".to_string(), "<y>".to_string()],
    }));
    let mut second = entry("/t/c.html", "C", Timestamp::Before { seconds: 1, nanos: 0 }, 24);
    second.metadata = Err("locked".to_string());
    let entries = vec![first, second];
    let tags: Result<Vec<String>, String> = Ok(vec!["<y>".to_string(), "x".to_string()]);
    let mut expected = head();
    expected.push_str("        <ul class=\"file-list\">\n");
    expected.push_str("            <li class=\"file-item\">\n");
    expected.push_str("                <div class=\"file-title\"><a href=\"a&amp;b.html\">A &lt; B</a></div>\n");
    expected.push_str("                <div class=\"file-path\">a&amp;b.html</div>\n");
    expected.push_str("                <div class=\"file-meta\">Modified: 2023-11-14 22:13:20 | Size: 1000 bytes</div>\n");
    expected.push_str("                <div class=\"file-tags\">\n");
    expected.push_str("                    <span class=\"tag\">x</span>\n");
    expected.push_str("                    <span class=\"tag\">&lt;y&gt;</span>\n");
    expected.push_str("                </div>\n");
    expected.push_str("                <div class=\"comment\">good &gt; bad</div>\n");
    expected.push_str("            </li>\n");
    expected.push_str("            <li class=\"file-item\">\n");
    expected.push_str("                <div class=\"file-title\"><a href=\"/t/c.html\">C</a></div>\n");
    expected.push_str("                <div class=\"file-path\">/t/c.html</div>\n");
    expected.push_str("            </li>\n");
    expected.push_str("        </ul>\n");
    expected.push_str("        <div class=\"stats\">\n");
    expected.push_str("            <h2>📊 Statistics</h2>\n");
    expected.push_str("            <p><strong>Total HTML files:</strong> 2</p>\n");
    expected.push_str("            <p><strong>Total size:</strong> 1024 bytes (1.00 KB)</p>\n");
    expected.push_str("            <p><strong>Most recently modified:</strong> a&amp;b.html (2023-11-14 22:13:20)</p>\n");
    expected.push_str("            <p><strong>Total tags:</strong> 2</p>\n");
    expected.push_str("            <p><em>Generated on: 1970-01-01 00:00:01 UTC</em></p>\n");
    expected.push_str("        </div>\n");
    expected.push_str("    </div>\n");
    expected.push_str("</body>\n");
    expected.push_str("</html>\n");
    assert_eq!(generate_sitemap_html(&entries, "/s", "1.00", &tags, 1), expected);
}

#[test]
fn number_of_tags_is_left_out_where_it_is_unknown() {
    let entries: Vec<Entry> = Vec::new();
    let tags: Result<Vec<String>, String> = Err("locked".to_string());
    let html = generate_sitemap_html(&entries, "/s", "0.00", &tags, 0);
    assert!(!html.contains("Total tags"));
    assert!(html.contains("Generated on: 1970-01-01 00:00:00 UTC"));
}

#[test]
fn newest_file_before_the_epoch_is_not_named() {
    let entries = vec![
        entry("a.html", "A", Timestamp::Before { seconds: 1, nanos: 0 }, 1),
        entry("b.html", "B", Timestamp::Since { seconds: 1, nanos: 0 }, 1),
    ];
    let tags: Result<Vec<String>, String> = Ok(Vec::new());
    let html = generate_sitemap_html(&entries, "/s", "0.00", &tags, 0);
    assert!(!html.contains("Most recently modified"));
    assert!(html.contains("Modified: 1970-01-01 00:00:01 | Size: 1 bytes"));
}

#[test]
fn files_are_listed_in_order() {
    let since = Timestamp::Since { seconds: 0, nanos: 0 };
    let entries: Vec<Entry> =
        (0..5).map(|i| entry(&format!("f{}.html", i), "t", since, 1)).collect();
    let tags: Result<Vec<String>, String> = Ok(Vec::new());
    let html = generate_sitemap_html(&entries, "/s", "0.00", &tags, 0);
    let places: Vec<usize> =
        (0..5).map(|i| html.find(&format!("<a href=\"f{}.html\">", i)).unwrap()).collect();
    assert!(places.windows(2).all(|w| w[0] < w[1]));
}

#[test]
fn sizes_are_summed_up() {
    let since = Timestamp::Since { seconds: 0, nanos: 0 };
    let entries = vec![entry("a", "a", since, 3), entry("b", "b", since, u64::MAX - 3)];
    assert_eq!(total_size(&entries), Some(u64::MAX));
    let entries = vec![entry("a", "a", since, 4), entry("b", "b", since, u64::MAX - 3)];
    assert_eq!(total_size(&entries), None);
    assert_eq!(total_size::<String>(&[]), Some(0));
}

#[test]
fn item_is_taken_from_the_entry() {
    let found = entry("d/a.html", "A", Timestamp::Since { seconds: 0, nanos: 0 }, 7);
    assert_eq!(sitemap_item(&found, None).link, "d/a.html");
    let item = sitemap_item(&found, Some("a.html".to_string()));
    assert_eq!(item.link, "a.html");
    assert_eq!(item.modified, Some("1970-01-01 00:00:00".to_string()));
    assert!(item.tags.is_empty());
    assert_eq!(item.comment, None);
    let html = item_html(&item);
    assert!(html.contains("Size: 7 bytes"));
    assert!(!html.contains("file-tags") && !html.contains("comment"));
}

#[test]
fn texts_are_put_on_the_page_as_they_are_given() {
    let item = SitemapItem {
        link: "l".to_string(),
        title: "t".to_string(),
        modified: Some("then".to_string()),
        size: 2,
        tags: Vec::new(),
        comment: None,
    };
    let html = sitemap_html(&[item], "many", Some(3), "now");
    assert!(html.contains("Modified: then | Size: 2 bytes"));
    assert!(html.contains("2 bytes (many KB)"));
    assert!(html.contains("Most recently modified:</strong> l (then)"));
    assert!(html.contains("Total tags:</strong> 3</p>"));
    assert!(html.contains("Generated on: now</em>"));
}

fn links(base_dir: &str, paths: &[&str]) -> Vec<String> {
    let since = Timestamp::Since { seconds: 0, nanos: 0 };
    let entries: Vec<Entry> = paths.iter().map(|path| entry(path, "t", since, 1)).collect();
    let tags: Result<Vec<String>, String> = Ok(Vec::new());
    let html = generate_sitemap_html(&entries, base_dir, "0.00", &tags, 0);
    html.split("<div class=\"file-path\">")
        .skip(1)
        .map(|rest| rest.split("</div>").next().unwrap().to_string())
        .collect()
}

#[test]
fn links_lead_from_the_listed_directory() {
    assert_eq!(links("site", &["site/a.html", "site/b/c.html"]), ["a.html", "b/c.html"]);
    assert_eq!(links(".", &["./a.html", "./b/.c.html"]), ["a.html", "b/.c.html"]);
    assert_eq!(links("/s/t", &["/s/t/a.html", "/s/a.html"]), ["a.html", "/s/a.html"]);
}

#[test]
fn slash_at_the_end_of_the_listed_directory_changes_no_link() {
    assert_eq!(links("site/", &["site/a.html", "site/b/c.html"]), ["a.html", "b/c.html"]);
    assert_eq!(links("./", &["./a.html"]), ["a.html"]);
    assert_eq!(links("/s/t/", &["/s/t/a.html", "/s/a.html"]), ["a.html", "/s/a.html"]);
}

#[test]
fn links_lead_from_the_root() {
    assert_eq!(links("/", &["/a.html", "/b/c.html", "d.html"]), ["a.html", "b/c.html", "d.html"]);
}

#[test]
fn empty_directory_leaves_the_whole_path() {
    assert_eq!(links("", &["a.html", "b/c.html", "/d.html"]), ["a.html", "b/c.html", "/d.html"]);
    let tags: Result<Vec<String>, String> = Ok(Vec::new());
    let old = vec![entry("a.html", "A", Timestamp::Before { seconds: 1, nanos: 0 }, 5)];
    let html = generate_sitemap_html(&old, "", "0.00", &tags, 0);
    assert!(html.contains("<a href=\"a.html\">A</a>"));
    assert!(html.contains("Total HTML files:</strong> 1</p>"));
    assert!(html.contains("5 bytes (0.00 KB)"));
    assert!(!html.contains("<div class=\"file-meta\">"));
    assert!(!html.contains("Most recently modified"));
}

#[test]
fn names_with_other_characters_are_linked() {
    assert_eq!(links("s:t", &["s:t/a:b.html", "s:t/c d.html"]), ["a:b.html", "c d.html"]);
    assert_eq!(links("site//", &["site//a.html"]), ["a.html"]);
    assert_eq!(links("site", &["site/b/./c.html", "site/../d.html"]), ["b/./c.html", "../d.html"]);
}

#[test]
fn pages_of_the_same_files_are_the_same() {
    let tags: Result<Vec<String>, String> = Ok(vec!["x".to_string()]);
    let since = Timestamp::Since { seconds: 9, nanos: 0 };
    let page = |now: i64| {
        let entries = vec![entry("site/a.html", "A", since, 1), entry("site2/b.html", "B", since, 1)];
        generate_sitemap_html(&entries, "site", "0.00", &tags, now)
    };
    assert_eq!(page(7), page(7));
    assert_ne!(page(7), page(8));
    assert!(page(7).contains("<a href=\"a.html\">A</a>"));
    assert!(page(7).contains("<div class=\"file-path\">site2/b.html</div>"));
    assert!(page(7).contains("Most recently modified:</strong> a.html (1970-01-01 00:00:09)</p>"));
}

#[test]
fn file_outside_the_listed_directory_is_linked_by_its_whole_path() {
    assert_eq!(links("site", &["other/a.html", "sites/a.html"]), ["other/a.html", "sites/a.html"]);
}

#[test]
fn newest_file_is_named_once() {
    let tags: Result<Vec<String>, String> = Ok(Vec::new());
    let entries = vec![
        entry("a.html", "Most recently modified:</strong>", Timestamp::Since { seconds: 9, nanos: 0 }, 1),
        entry("b.html", "B", Timestamp::Since { seconds: 8, nanos: 0 }, 1),
    ];
    let html = generate_sitemap_html(&entries, ".", "0.00", &tags, 0);
    assert_eq!(html.matches("Most recently modified:</strong>").count(), 1);
    assert!(html.contains("Most recently modified:</strong> a.html (1970-01-01 00:00:09)"));
}
