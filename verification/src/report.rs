//! What the commands print of tags and metadata.

use crate::database::FileMetadata;
use crate::text::{decimal, decimal_text, join, joined, texts};
use vstd::prelude::*;

verus! {

/// What stands above the list of tags.
pub open spec fn tag_list_heading(tag_count: nat) -> Seq<char> {
    if tag_count == 0 {
        "No tags found."@
    } else {
        "All tags:"@
    }
}

/// What stands above the list of tags.
pub fn tag_list_heading_text(tags: &[String]) -> (line: &'static str)
    ensures
        line@ == tag_list_heading(tags@.len()),
{
    if tags.len() == 0 {
        "No tags found."
    } else {
        "All tags:"
    }
}

/// The line of a tag in the list of tags: the tag and how many files have it.
pub fn tag_list_line(tag: &str, files: &[String]) -> (line: String)
    ensures
        line@ == "  "@ + tag@ + " ("@ + decimal(files@.len()) + " files)"@,
{
    let mut line: String = "  ".to_owned();
    line.append(tag);
    line.append(" (");
    line.append(decimal_text(files.len() as u64).as_str());
    line.append(" files)");
    line
}

/// The lines that tell what is stored of the file `file`.
pub open spec fn metadata_report(file: Seq<char>, metadata: Option<FileMetadata>) -> Seq<
    Seq<char>,
> {
    match metadata {
        Some(metadata) => seq!["File: "@ + metadata.file_path@, "Hash: "@ + metadata.hash@] + (
        match metadata.comment {
            Some(comment) => seq!["Comment: "@ + comment@],
            None => seq![],
        }) + (if metadata.tags@.len() > 0 {
            seq!["Tags: "@ + join(texts(metadata.tags@), ", "@)]
        } else {
            seq![]
        }),
        None => seq!["No metadata found for: "@ + file],
    }
}

fn with_label(label: &str, text: &str) -> (line: String)
    ensures
        line@ == label@ + text@,
{
    let mut line: String = label.to_owned();
    line.append(text);
    line
}

/// The lines that tell what is stored of the file `file`: its path and hash, its comment
/// where it has one, and its tags where it has any.
pub fn metadata_lines(file: &str, metadata: &Option<FileMetadata>) -> (lines: Vec<String>)
    ensures
        texts(lines@) == metadata_report(file@, *metadata),
{
    let mut lines: Vec<String> = Vec::new();
    match metadata {
        Some(metadata) => {
            lines.push(with_label("File: ", metadata.file_path.as_str()));
            lines.push(with_label("Hash: ", metadata.hash.as_str()));
            if let Some(comment) = &metadata.comment {
                lines.push(with_label("Comment: ", comment.as_str()));
            }
            if metadata.tags.len() > 0 {
                lines.push(with_label("Tags: ", joined(&metadata.tags, ", ").as_str()));
            }
        },
        None => {
            lines.push(with_label("No metadata found for: ", file));
        },
    }
    assert(texts(lines@) =~= metadata_report(file@, *metadata));
    lines
}

/// Path and hash come first. Where there is a comment, the next line is `Comment: ` and the
/// comment, whether or not there are tags; and where there are tags, the last line is `Tags: `
/// and the tags with `, ` between them, whether or not there is a comment. There are no other
/// lines.
pub proof fn law_comment_and_tags_are_reported(file: Seq<char>, metadata: FileMetadata)
    ensures
        ({
            let lines = metadata_report(file, Some(metadata));
            &&& lines[0] == "File: "@ + metadata.file_path@
            &&& lines[1] == "Hash: "@ + metadata.hash@
            &&& metadata.comment matches Some(comment) ==> lines[2] == "Comment: "@ + comment@
            &&& metadata.tags@.len() > 0 ==> lines.last() == "Tags: "@ + join(
                texts(metadata.tags@),
                ", "@,
            )
            &&& metadata.comment is None && metadata.tags@.len() == 0 ==> lines.len() == 2
            &&& metadata.comment is Some && metadata.tags@.len() == 0 ==> lines.len() == 3
            &&& metadata.comment is None && metadata.tags@.len() > 0 ==> lines.len() == 3
            &&& metadata.comment is Some && metadata.tags@.len() > 0 ==> lines.len() == 4
        }),
{
}

/// Of a file without metadata there is one line, which names the file.
pub proof fn law_missing_metadata_is_reported(file: Seq<char>)
    ensures
        metadata_report(file, None).len() == 1,
        metadata_report(file, None)[0] == "No metadata found for: "@ + file,
{
}

/// The list of tags is announced if and only if there are any.
pub proof fn law_heading_of_the_tag_list(tag_count: nat)
    ensures
        tag_count > 0 ==> tag_list_heading(tag_count) == "All tags:"@,
        tag_list_heading(0) == "No tags found."@,
{
}

} // verus!
