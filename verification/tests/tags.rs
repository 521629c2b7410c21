use html_navigator::database::FileMetadata;
use html_navigator::report::{metadata_lines, tag_list_heading_text, tag_list_line};
use html_navigator::names::{names_of_pages, safe_tag};
use html_navigator::tags::{
    generate_tag_pages, parse_tags, TagPages, TagPagesAction, TagPagesEvent,
};

fn strings(texts: &[&str]) -> Vec<String> {
    texts.iter().map(|t| t.to_string()).collect()
}

#[test]
fn tags_of_a_list_are_trimmed() {
    assert_eq!(parse_tags("rust, web ,\tnotes"), strings(&["rust", "web", "notes"]));
    assert_eq!(parse_tags("one"), strings(&["one"]));
    assert_eq!(parse_tags(""), strings(&[""]));
    assert_eq!(parse_tags("a,,b, "), strings(&["a", "", "b", ""]));
    assert_eq!(parse_tags("two words"), strings(&["two words"]));
}

#[test]
fn names_of_pages_are_safe() {
    assert_eq!(safe_tag("plain"), "plain");
    assert_eq!(safe_tag("a/b\\c:d*e?f\"g<h>i|j"), "a_b_c_d_e_f_g_h_i_j");
    assert_eq!(safe_tag("../up"), ".._up");
    assert_eq!(safe_tag("naïve & co"), "naïve & co");
}

#[test]
fn pages_have_names_of_their_own() {
    let names = |tags: &[&str]| names_of_pages(&strings(tags));
    assert_eq!(names(&["rust", "web", "a/b"]), strings(&["rust", "web", "a_b"]));
    assert_eq!(names(&["index"]), strings(&["index_"]));
    assert_eq!(names(&["index", "index_"]), strings(&["index__", "index_"]));
    assert_eq!(names(&["a/b", "a:b", "a_b"]), strings(&["a_b", "a_b_", "a_b__"]));
    assert_eq!(names(&["a/b", "a:b", "a_b_"]), strings(&["a_b", "a_b__", "a_b_"]));
    assert_eq!(names(&["Index", "index.html"]), strings(&["Index", "index.html"]));
    assert!(names(&[]).is_empty());
}

#[test]
fn index_is_kept_beside_a_tag_of_that_name() {
    let (written, _) = pages("out", &["index"], |_| vec!["a.html".to_string()]);
    assert_eq!(written.len(), 2);
    assert_eq!(written[0].0, "out/index.html");
    assert!(written[0].1.contains("<title>All Tags</title>"));
    assert!(written[0].1.contains("<li><a href=\"index_.html\">index</a></li>"));
    assert_eq!(written[1].0, "out/index_.html");
    assert!(written[1].1.contains("<a href=\"a.html\">"));
}

#[test]
fn tags_with_one_safe_name_have_two_pages() {
    let (written, _) = pages("out", &["a/b", "a:b"], |tag| {
        vec![if tag == "a/b" { "p.html".to_string() } else { "q.html".to_string() }]
    });
    assert_eq!(written[1].0, "out/a_b.html");
    assert!(written[1].1.contains("<a href=\"p.html\">"));
    assert_eq!(written[2].0, "out/a_b_.html");
    assert!(written[2].1.contains("<a href=\"q.html\">"));
    assert!(written[0].1.contains("<li><a href=\"a_b.html\">a/b</a></li>"));
    assert!(written[0].1.contains("<li><a href=\"a_b_.html\">a:b</a></li>"));
}

fn pages(dir: &str, tags: &[&str], files: fn(&str) -> Vec<String>) -> (Vec<(String, String)>, String) {
    let mut written = Vec::new();
    let (mut pages, mut action) = TagPages::begin(dir, &strings(tags));
    loop {
        let event = match action {
            TagPagesAction::Write { page } => {
                written.push((page.path, page.html));
                TagPagesEvent::Written
            }
            TagPagesAction::ListFiles { tag } => TagPagesEvent::Files { files: files(&tag) },
            TagPagesAction::Finish { message } => return (written, message),
        };
        action = generate_tag_pages(&mut pages, event);
    }
}

#[test]
fn index_and_a_page_for_each_tag_are_written() {
    let (written, message) = pages("out", &["a/b", "R&D"], |tag| {
        if tag == "R&D" {
            vec!["x.html".to_string(), "y<1>.html".to_string()]
        } else {
            Vec::new()
        }
    });
    assert_eq!(message, "Generated 2 tag pages in out/");
    assert_eq!(written.len(), 3);
    assert_eq!(written[0].0, "out/index.html");
    assert_eq!(
        written[0].1,
        "<!DOCTYPE html>\n<html><head><title>All Tags</title></head><body>\n\
         <h1>📋 All Tags</h1>\n<ul>\n\
         <li><a href=\"a_b.html\">a/b</a></li>\n\
         <li><a href=\"R&amp;D.html\">R&amp;D</a></li>\n\
         </ul>\n</body></html>"
    );
    assert_eq!(written[1].0, "out/a_b.html");
    assert_eq!(
        written[1].1,
        "<!DOCTYPE html>\n<html><head><title>Tag: a/b</title></head><body>\n\
         <h1>🏷️ Files tagged with 'a/b'</h1>\n<ul>\n\
         </ul>\n<p><a href=\"index.html\">← Back to all tags</a></p>\n</body></html>"
    );
    assert_eq!(written[2].0, "out/R&D.html");
    assert_eq!(
        written[2].1,
        "<!DOCTYPE html>\n<html><head><title>Tag: R&amp;D</title></head><body>\n\
         <h1>🏷️ Files tagged with 'R&amp;D'</h1>\n<ul>\n\
         <li><a href=\"x.html\">x.html</a></li>\n\
         <li><a href=\"y&lt;1&gt;.html\">y&lt;1&gt;.html</a></li>\n\
         </ul>\n<p><a href=\"index.html\">← Back to all tags</a></p>\n</body></html>"
    );
}

#[test]
fn index_is_written_without_tags() {
    let (written, message) = pages("tags", &[], |_| Vec::new());
    assert_eq!(message, "Generated 0 tag pages in tags/");
    assert_eq!(written.len(), 1);
    assert_eq!(written[0].0, "tags/index.html");
}

#[test]
fn files_that_nobody_asked_for_are_passed_over() {
    let (mut pages, _) = TagPages::begin("tags", &[]);
    let action = generate_tag_pages(&mut pages, TagPagesEvent::Files { files: Vec::new() });
    assert!(matches!(action, TagPagesAction::Finish { .. }));
}

#[test]
fn tags_are_listed_with_their_files() {
    assert_eq!(tag_list_heading_text(&[]), "No tags found.");
    assert_eq!(tag_list_heading_text(&strings(&["a"])), "All tags:");
    assert_eq!(tag_list_line("a b", &strings(&["x", "y"])), "  a b (2 files)");
    assert_eq!(tag_list_line("c", &[]), "  c (0 files)");
}

#[test]
fn metadata_is_reported() {
    let mut metadata = FileMetadata {
        file_path: "a.html".to_string(),
        hash: "12ab".to_string(),
        comment: Some("nice".to_string()),
        tags: strings(&["x", "y"]),
    };
    assert_eq!(
        metadata_lines("a.html", &Some(metadata)),
        strings(&["File: a.html", "Hash: 12ab", "Comment: nice", "Tags: x, y"])
    );
    metadata = FileMetadata {
        file_path: "a.html".to_string(),
        hash: "12ab".to_string(),
        comment: None,
        tags: Vec::new(),
    };
    assert_eq!(
        metadata_lines("other", &Some(metadata)),
        strings(&["File: a.html", "Hash: 12ab"])
    );
    assert_eq!(metadata_lines("b.html", &None), strings(&["No metadata found for: b.html"]));
}
