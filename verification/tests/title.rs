use html_navigator::title::{clean_title, extract_title_from_html, title_text};

#[test]
fn title_is_taken_from_the_title_tags() {
    assert_eq!(
        extract_title_from_html("<html><head><title>My Page</title></head></html>"),
        "My Page"
    );
}

#[test]
fn tags_are_found_in_either_case() {
    assert_eq!(extract_title_from_html("<HTML><TITLE>Loud</TITLE>"), "Loud");
    assert_eq!(extract_title_from_html("<TiTlE>Mixed</tItLe>"), "Mixed");
}

#[test]
fn case_of_the_title_is_kept() {
    assert_eq!(extract_title_from_html("<title>ABC def</title>"), "ABC def");
}

#[test]
fn page_without_title_element_is_untitled() {
    assert_eq!(extract_title_from_html(""), "Untitled");
    assert_eq!(extract_title_from_html("<p>text</p>"), "Untitled");
    assert_eq!(extract_title_from_html("<title>never closed"), "Untitled");
    assert_eq!(extract_title_from_html("</title>closed first<title>"), "Untitled");
    assert_eq!(extract_title_from_html("<title lang=\"en\">x</title>"), "Untitled");
}

#[test]
fn empty_title_element_gives_no_title() {
    assert_eq!(extract_title_from_html("<title></title>"), "No Title");
    assert_eq!(extract_title_from_html("<title> \n\t </title>"), "No Title");
}

#[test]
fn first_title_element_counts() {
    assert_eq!(extract_title_from_html("<title>a</title><title>b</title>"), "a");
    assert_eq!(extract_title_from_html("</title><title>a</title>"), "a");
    assert_eq!(extract_title_from_html("<title>a<title>b</title>"), "a<title>b");
    assert_eq!(title_text("<title>a</title>"), Some("a".to_string()));
    assert_eq!(title_text("a"), None);
}

#[test]
fn character_references_are_decoded() {
    assert_eq!(
        extract_title_from_html("<title>Tom &amp; Jerry &lt;3 &#x2F; &eacute;</title>"),
        "Tom & Jerry <3 / é"
    );
    assert_eq!(extract_title_from_html("<title>a & b</title>"), "a & b");
    assert_eq!(extract_title_from_html("<title>&nbsp;a&nbsp;</title>"), "a");
}

#[test]
fn title_stands_on_one_line() {
    assert_eq!(extract_title_from_html("<title>\n a\r\nb\nc \n</title>"), "a b c");
    assert_eq!(clean_title("a\rb"), "ab");
    assert_eq!(clean_title("\n\r"), "No Title");
}

#[test]
fn long_titles_are_shortened() {
    let hundred = "x".repeat(100);
    assert_eq!(clean_title(&hundred), hundred);
    let longer = "x".repeat(101);
    assert_eq!(clean_title(&longer), format!("{}...", "x".repeat(97)));
    assert_eq!(clean_title(&longer).chars().count(), 100);
    assert_eq!(
        extract_title_from_html(&format!("<title>{}</title>", "x".repeat(500))),
        format!("{}...", "x".repeat(97))
    );
}

#[test]
fn length_is_counted_in_characters() {
    let sixty = "é".repeat(60);
    assert_eq!(clean_title(&sixty), sixty);
    assert_eq!(clean_title(&"é".repeat(101)), format!("{}...", "é".repeat(97)));
    assert_eq!(clean_title(&"📄".repeat(100)), "📄".repeat(100));
}

#[test]
fn letters_before_the_title_do_not_move_it() {
    assert_eq!(extract_title_from_html("İİİİ<title>A</title>"), "A");
    assert_eq!(extract_title_from_html("\u{212a}<title>A</title>"), "A");
    assert_eq!(extract_title_from_html("<title>İstanbul</title>"), "İstanbul");
}
