//! The database of comments and tags: its statements, and what follows from its replies.
//!
//! The statements are run elsewhere. Here stands which statements an operation is made
//! of, and what it makes of the rows that come back.

use crate::text::{signed_decimal, signed_decimal_text, texts};
use vstd::prelude::*;

verus! {

pub const CREATE_FILES: &'static str = "CREATE TABLE IF NOT EXISTS files (
                id INTEGER PRIMARY KEY,
                file_path TEXT UNIQUE NOT NULL,
                hash TEXT NOT NULL,
                comment TEXT,
                created_at DATETIME DEFAULT CURRENT_TIMESTAMP,
                updated_at DATETIME DEFAULT CURRENT_TIMESTAMP
            )";

pub const CREATE_TAGS: &'static str = "CREATE TABLE IF NOT EXISTS tags (
                id INTEGER PRIMARY KEY,
                file_id INTEGER,
                tag TEXT NOT NULL,
                FOREIGN KEY(file_id) REFERENCES files(id),
                UNIQUE(file_id, tag)
            )";

pub const UPSERT_FILE: &'static str = "INSERT INTO files (file_path, hash) VALUES (?1, ?2)
             ON CONFLICT(file_path)
             DO UPDATE SET hash = excluded.hash, updated_at = CURRENT_TIMESTAMP
             RETURNING id";

pub const SET_COMMENT: &'static str =
    "UPDATE files SET comment = ?, updated_at = CURRENT_TIMESTAMP WHERE file_path = ?";

pub const SELECT_FILE_ID: &'static str = "SELECT id FROM files WHERE file_path = ?";

pub const DELETE_TAGS: &'static str = "DELETE FROM tags WHERE file_id = ?";

pub const INSERT_TAG: &'static str = "INSERT OR IGNORE INTO tags (file_id, tag) VALUES (?, ?)";

pub const DELETE_FILE: &'static str = "DELETE FROM files WHERE id = ?";

pub const SELECT_FILE: &'static str =
    "SELECT f.file_path, f.hash, f.comment FROM files f WHERE f.file_path = ?";

pub const SELECT_FILE_TAGS: &'static str = "SELECT t.tag FROM tags t 
             JOIN files f ON t.file_id = f.id 
             WHERE f.file_path = ?";

pub const SELECT_ALL_TAGS: &'static str = "SELECT DISTINCT tag FROM tags ORDER BY tag";

pub const SELECT_FILES_BY_TAG: &'static str = "SELECT f.file_path FROM files f 
             JOIN tags t ON f.id = t.file_id 
             WHERE t.tag = ? ORDER BY f.file_path";

/// A statement to run on the database, with the values that it speaks of.
#[derive(Debug)]
pub enum Statement {
    /// Creates the table of files, unless it is there.
    CreateFiles,
    /// Creates the table of tags, unless it is there.
    CreateTags,
    /// Stores a file and its hash, and gives its number. Where the path has a row already,
    /// the row keeps its number and its comment.
    UpsertFile { file_path: String, hash: String },
    /// Sets the comment of a file.
    SetComment { file_path: String, comment: String },
    /// Gives the number of a file.
    SelectFileId { file_path: String },
    /// Takes all tags off a file.
    DeleteTags { file_id: i64 },
    /// Puts a tag on a file, unless it is there.
    InsertTag { file_id: i64, tag: String },
    /// Removes the row of a file.
    DeleteFile { file_id: i64 },
    /// Gives path, hash and comment of a file.
    SelectFile { file_path: String },
    /// Gives the tags of a file.
    SelectFileTags { file_path: String },
    /// Gives every tag once, in order.
    SelectAllTags,
    /// Gives the paths of the files with a tag, in order.
    SelectFilesByTag { tag: String },
}

/// The texts and numbers of a `Statement`.
pub enum StatementView {
    CreateFiles,
    CreateTags,
    UpsertFile { file_path: Seq<char>, hash: Seq<char> },
    SetComment { file_path: Seq<char>, comment: Seq<char> },
    SelectFileId { file_path: Seq<char> },
    DeleteTags { file_id: i64 },
    InsertTag { file_id: i64, tag: Seq<char> },
    DeleteFile { file_id: i64 },
    SelectFile { file_path: Seq<char> },
    SelectFileTags { file_path: Seq<char> },
    SelectAllTags,
    SelectFilesByTag { tag: Seq<char> },
}

impl View for Statement {
    type V = StatementView;

    open spec fn view(&self) -> StatementView {
        match self {
            Statement::CreateFiles => StatementView::CreateFiles,
            Statement::CreateTags => StatementView::CreateTags,
            Statement::UpsertFile { file_path, hash } => StatementView::UpsertFile {
                file_path: file_path@,
                hash: hash@,
            },
            Statement::SetComment { file_path, comment } => StatementView::SetComment {
                file_path: file_path@,
                comment: comment@,
            },
            Statement::SelectFileId { file_path } => StatementView::SelectFileId {
                file_path: file_path@,
            },
            Statement::DeleteTags { file_id } => StatementView::DeleteTags { file_id: *file_id },
            Statement::InsertTag { file_id, tag } => StatementView::InsertTag {
                file_id: *file_id,
                tag: tag@,
            },
            Statement::DeleteFile { file_id } => StatementView::DeleteFile { file_id: *file_id },
            Statement::SelectFile { file_path } => StatementView::SelectFile {
                file_path: file_path@,
            },
            Statement::SelectFileTags { file_path } => StatementView::SelectFileTags {
                file_path: file_path@,
            },
            Statement::SelectAllTags => StatementView::SelectAllTags,
            Statement::SelectFilesByTag { tag } => StatementView::SelectFilesByTag { tag: tag@ },
        }
    }
}

/// A value for a placeholder of a statement.
#[derive(Debug)]
pub enum Param {
    Text(String),
    Integer(i64),
}

/// The text or number of a `Param`.
pub enum ParamView {
    Text(Seq<char>),
    Integer(i64),
}

impl View for Param {
    type V = ParamView;

    open spec fn view(&self) -> ParamView {
        match self {
            Param::Text(text) => ParamView::Text(text@),
            Param::Integer(number) => ParamView::Integer(*number),
        }
    }
}

/// The values that the vector holds.
pub open spec fn params_of(params: Seq<Param>) -> Seq<ParamView> {
    params.map_values(|p: Param| p@)
}

/// The statements that the vector holds.
pub open spec fn statements_of(statements: Seq<Statement>) -> Seq<StatementView> {
    statements.map_values(|s: Statement| s@)
}

impl StatementView {
    /// The statement in SQL.
    pub open spec fn sql(self) -> Seq<char> {
        match self {
            StatementView::CreateFiles => CREATE_FILES@,
            StatementView::CreateTags => CREATE_TAGS@,
            StatementView::UpsertFile { .. } => UPSERT_FILE@,
            StatementView::SetComment { .. } => SET_COMMENT@,
            StatementView::SelectFileId { .. } => SELECT_FILE_ID@,
            StatementView::DeleteTags { .. } => DELETE_TAGS@,
            StatementView::InsertTag { .. } => INSERT_TAG@,
            StatementView::DeleteFile { .. } => DELETE_FILE@,
            StatementView::SelectFile { .. } => SELECT_FILE@,
            StatementView::SelectFileTags { .. } => SELECT_FILE_TAGS@,
            StatementView::SelectAllTags => SELECT_ALL_TAGS@,
            StatementView::SelectFilesByTag { .. } => SELECT_FILES_BY_TAG@,
        }
    }

    /// The values of the placeholders of the SQL text, in their order.
    pub open spec fn params(self) -> Seq<ParamView> {
        match self {
            StatementView::CreateFiles => seq![],
            StatementView::CreateTags => seq![],
            StatementView::UpsertFile { file_path, hash } => seq![
                ParamView::Text(file_path),
                ParamView::Text(hash),
            ],
            StatementView::SetComment { file_path, comment } => seq![
                ParamView::Text(comment),
                ParamView::Text(file_path),
            ],
            StatementView::SelectFileId { file_path } => seq![ParamView::Text(file_path)],
            StatementView::DeleteTags { file_id } => seq![ParamView::Integer(file_id)],
            StatementView::InsertTag { file_id, tag } => seq![
                ParamView::Text(signed_decimal(file_id as int)),
                ParamView::Text(tag),
            ],
            StatementView::DeleteFile { file_id } => seq![ParamView::Integer(file_id)],
            StatementView::SelectFile { file_path } => seq![ParamView::Text(file_path)],
            StatementView::SelectFileTags { file_path } => seq![ParamView::Text(file_path)],
            StatementView::SelectAllTags => seq![],
            StatementView::SelectFilesByTag { tag } => seq![ParamView::Text(tag)],
        }
    }
}

impl Statement {
    /// The statement in SQL.
    pub fn sql(&self) -> (sql: &'static str)
        ensures
            sql@ == self@.sql(),
    {
        match self {
            Statement::CreateFiles => CREATE_FILES,
            Statement::CreateTags => CREATE_TAGS,
            Statement::UpsertFile { .. } => UPSERT_FILE,
            Statement::SetComment { .. } => SET_COMMENT,
            Statement::SelectFileId { .. } => SELECT_FILE_ID,
            Statement::DeleteTags { .. } => DELETE_TAGS,
            Statement::InsertTag { .. } => INSERT_TAG,
            Statement::DeleteFile { .. } => DELETE_FILE,
            Statement::SelectFile { .. } => SELECT_FILE,
            Statement::SelectFileTags { .. } => SELECT_FILE_TAGS,
            Statement::SelectAllTags => SELECT_ALL_TAGS,
            Statement::SelectFilesByTag { .. } => SELECT_FILES_BY_TAG,
        }
    }

    /// The values of the placeholders of the SQL text, in their order.
    pub fn params(&self) -> (params: Vec<Param>)
        ensures
            params_of(params@) == self@.params(),
    {
        let mut params: Vec<Param> = Vec::new();
        match self {
            Statement::UpsertFile { file_path, hash } => {
                params.push(Param::Text(file_path.clone()));
                params.push(Param::Text(hash.clone()));
            },
            Statement::SetComment { file_path, comment } => {
                params.push(Param::Text(comment.clone()));
                params.push(Param::Text(file_path.clone()));
            },
            Statement::InsertTag { file_id, tag } => {
                params.push(Param::Text(signed_decimal_text(*file_id)));
                params.push(Param::Text(tag.clone()));
            },
            Statement::SelectFileId { file_path }
            | Statement::SelectFile { file_path }
            | Statement::SelectFileTags { file_path } => {
                params.push(Param::Text(file_path.clone()));
            },
            Statement::SelectFilesByTag { tag } => {
                params.push(Param::Text(tag.clone()));
            },
            Statement::DeleteTags { file_id } | Statement::DeleteFile { file_id } => {
                params.push(Param::Integer(*file_id));
            },
            Statement::CreateFiles | Statement::CreateTags | Statement::SelectAllTags => {},
        }
        assert(params_of(params@) =~= self@.params());
        params
    }
}

/// A row of the table of files.
#[derive(Debug)]
pub struct FileRow {
    pub file_path: String,
    pub hash: String,
    pub comment: Option<String>,
}

/// What is stored of a file.
#[derive(Debug)]
pub struct FileMetadata {
    pub file_path: String,
    pub hash: String,
    pub comment: Option<String>,
    pub tags: Vec<String>,
}

/// What came of asking for one row.
#[derive(Debug)]
pub enum RowReply<E> {
    /// The row.
    Row(FileRow),
    /// There is no such row.
    NoRows,
    /// The database failed.
    Failed(E),
}

/// How the look-up of a file goes on.
#[derive(Debug)]
pub enum MetadataStep<E> {
    /// By this statement, which gives the tags of the file that was found.
    SelectTags { row: FileRow, tags: Statement },
    /// Not at all: this is what it comes to.
    Finish(Result<Option<FileMetadata>, E>),
}

/// The statements that prepare a database when it is opened, in their order.
pub open spec fn opening() -> Seq<StatementView> {
    seq![StatementView::CreateFiles, StatementView::CreateTags]
}

/// The statements that prepare a database when it is opened, in their order.
pub fn create_tables() -> (statements: Vec<Statement>)
    ensures
        statements_of(statements@) == opening(),
{
    let mut statements: Vec<Statement> = Vec::new();
    statements.push(Statement::CreateFiles);
    statements.push(Statement::CreateTags);
    assert(statements_of(statements@) =~= opening());
    statements
}

/// The statement that stores a file and its hash, and gives the number of the file.
pub fn upsert_file(file_path: &str, hash: &str) -> (statement: Statement)
    ensures
        statement@ == (StatementView::UpsertFile { file_path: file_path@, hash: hash@ }),
{
    Statement::UpsertFile { file_path: file_path.to_owned(), hash: hash.to_owned() }
}

/// The statement that sets the comment of a file.
pub fn add_comment(file_path: &str, comment: &str) -> (statement: Statement)
    ensures
        statement@ == (StatementView::SetComment { file_path: file_path@, comment: comment@ }),
{
    Statement::SetComment { file_path: file_path.to_owned(), comment: comment.to_owned() }
}

/// The statement that gives the number of a file, by which its tags are kept.
pub fn select_file_id(file_path: &str) -> (statement: Statement)
    ensures
        statement@ == (StatementView::SelectFileId { file_path: file_path@ }),
{
    Statement::SelectFileId { file_path: file_path.to_owned() }
}

/// The statements that give a file the tags `tags` in place of those it has.
pub open spec fn tagging(file_id: i64, tags: Seq<Seq<char>>) -> Seq<StatementView> {
    seq![StatementView::DeleteTags { file_id }] + tags.map_values(
        |tag: Seq<char>| StatementView::InsertTag { file_id, tag },
    )
}

/// The statements that give the file with the number `file_id` the tags `tags` in place
/// of those it has; nothing but the error, where the number could not be found.
pub fn add_tags<E>(file_id: Result<i64, E>, tags: &[String]) -> (res: Result<Vec<Statement>, E>)
    ensures
        match (file_id, res) {
            (Ok(id), Ok(statements)) => statements_of(statements@) == tagging(id, texts(tags@)),
            (Err(error), Err(same)) => same == error,
            _ => false,
        },
{
    let file_id: i64 = match file_id {
        Ok(file_id) => file_id,
        Err(error) => return Err(error),
    };
    let mut statements: Vec<Statement> = Vec::new();
    statements.push(Statement::DeleteTags { file_id });
    let mut i: usize = 0;
    assert(statements_of(statements@) =~= tagging(file_id, texts(tags@).take(0)));
    while i < tags.len()
        invariant
            i <= tags@.len(),
            statements_of(statements@) == tagging(file_id, texts(tags@).take(i as int)),
        decreases tags@.len() - i,
    {
        let ghost before = statements@;
        statements.push(Statement::InsertTag { file_id, tag: tags[i].clone() });
        assert(statements_of(statements@) =~= statements_of(before).push(
            StatementView::InsertTag { file_id, tag: tags@[i as int]@ },
        ));
        assert(statements_of(statements@) =~= tagging(file_id, texts(tags@).take(i + 1)));
        i += 1;
    }
    assert(texts(tags@).take(i as int) =~= texts(tags@));
    Ok(statements)
}

/// The statement that gives path, hash and comment of a file.
pub fn select_file(file_path: &str) -> (statement: Statement)
    ensures
        statement@ == (StatementView::SelectFile { file_path: file_path@ }),
{
    Statement::SelectFile { file_path: file_path.to_owned() }
}

/// How the look-up of a file goes on, once its row was asked for: with the tags of the
/// file in the row; a path without a row has no metadata, and an error is passed on.
pub fn get_file_metadata<E>(found: RowReply<E>) -> (step: MetadataStep<E>)
    ensures
        match (found, step) {
            (RowReply::Row(row), MetadataStep::SelectTags { row: same, tags }) => same == row
                && tags@ == (StatementView::SelectFileTags { file_path: row.file_path@ }),
            (RowReply::NoRows, MetadataStep::Finish(Ok(metadata))) => metadata is None,
            (RowReply::Failed(error), MetadataStep::Finish(Err(same))) => same == error,
            _ => false,
        },
{
    match found {
        RowReply::Row(row) => {
            let tags: Statement = get_file_tags(row.file_path.as_str());
            MetadataStep::SelectTags { row, tags }
        },
        RowReply::NoRows => MetadataStep::Finish(Ok(None)),
        RowReply::Failed(error) => MetadataStep::Finish(Err(error)),
    }
}

/// The metadata of a file, from its row and its tags.
pub fn file_metadata<E>(row: FileRow, tags: Result<Vec<String>, E>) -> (res: Result<
    Option<FileMetadata>,
    E,
>)
    ensures
        match (tags, res) {
            (Ok(tags), Ok(Some(metadata))) => {
                &&& metadata.file_path == row.file_path
                &&& metadata.hash == row.hash
                &&& metadata.comment == row.comment
                &&& metadata.tags == tags
            },
            (Err(error), Err(same)) => same == error,
            _ => false,
        },
{
    match tags {
        Ok(tags) => Ok(
            Some(
                FileMetadata {
                    file_path: row.file_path,
                    hash: row.hash,
                    comment: row.comment,
                    tags,
                },
            ),
        ),
        Err(error) => Err(error),
    }
}

/// The statement that gives the tags of a file.
pub fn get_file_tags(file_path: &str) -> (statement: Statement)
    ensures
        statement@ == (StatementView::SelectFileTags { file_path: file_path@ }),
{
    Statement::SelectFileTags { file_path: file_path.to_owned() }
}

/// The statement that gives every tag once, in order.
pub fn get_all_tags() -> (statement: Statement)
    ensures
        statement@ == StatementView::SelectAllTags,
{
    Statement::SelectAllTags
}

/// The statement that gives the paths of the files with the tag `tag`, in order.
pub fn get_files_by_tag(tag: &str) -> (statement: Statement)
    ensures
        statement@ == (StatementView::SelectFilesByTag { tag: tag@ }),
{
    Statement::SelectFilesByTag { tag: tag.to_owned() }
}

/// The texts of the rows, in their order; the first error, where there is one.
pub fn collect_rows<E>(rows: Vec<Result<String, E>>) -> (res: Result<Vec<String>, E>)
    ensures
        match res {
            Ok(collected) => collected@.len() == rows@.len() && forall|i: int|
                0 <= i < rows@.len() ==> #[trigger] rows@[i] == Ok::<String, E>(collected@[i]),
            Err(error) => exists|n: int|
                0 <= n < rows@.len() && #[trigger] rows@[n] == Err::<String, E>(error) && forall|
                    i: int,
                |
                    0 <= i < n ==> (#[trigger] rows@[i]) is Ok,
        },
{
    let ghost all = rows@;
    let mut collected: Vec<String> = Vec::new();
    for row in it: rows
        invariant
            it.seq() == all,
            all == rows@,
            collected@.len() == it.index(),
            forall|i: int|
                0 <= i < collected@.len() ==> #[trigger] all[i] == Ok::<String, E>(collected@[i]),
    {
        match row {
            Ok(text) => collected.push(text),
            Err(error) => {
                assert(all[it.index()] == Err::<String, E>(error));
                return Err(error);
            },
        }
    }
    Ok(collected)
}

/// The statements that remove a file, its tags first.
pub open spec fn removal(file_id: i64) -> Seq<StatementView> {
    seq![StatementView::DeleteTags { file_id }, StatementView::DeleteFile { file_id }]
}

/// The statements that remove the file with the number `file_id`; none, where the number
/// could not be found.
pub fn remove_file<E>(file_id: Result<i64, E>) -> (statements: Vec<Statement>)
    ensures
        statements_of(statements@) == (match file_id {
            Ok(id) => removal(id),
            Err(_) => seq![],
        }),
{
    let mut statements: Vec<Statement> = Vec::new();
    if let Ok(id) = file_id {
        statements.push(Statement::DeleteTags { file_id: id });
        statements.push(Statement::DeleteFile { file_id: id });
        assert(statements_of(statements@) =~= removal(id));
    }
    assert(file_id is Err ==> statements_of(statements@) =~= seq![]);
    statements
}

/// What is run for each statement, and the values that go with it, in the order in which the
/// text of the statement asks for them.
pub proof fn law_statements_in_sql(
    file_path: Seq<char>,
    hash: Seq<char>,
    comment: Seq<char>,
    tag: Seq<char>,
    file_id: i64,
)
    ensures
        (StatementView::UpsertFile { file_path, hash }).params() == seq![
            ParamView::Text(file_path),
            ParamView::Text(hash),
        ],
        (StatementView::SetComment { file_path, comment }).params() == seq![
            ParamView::Text(comment),
            ParamView::Text(file_path),
        ],
        (StatementView::SetComment { file_path, comment }).sql()
            == "UPDATE files SET comment = ?, updated_at = CURRENT_TIMESTAMP WHERE file_path = ?"@,
        (StatementView::SelectFileId { file_path }).params() == seq![ParamView::Text(file_path)],
        (StatementView::SelectFileId { file_path }).sql()
            == "SELECT id FROM files WHERE file_path = ?"@,
        (StatementView::DeleteTags { file_id }).params() == seq![ParamView::Integer(file_id)],
        (StatementView::DeleteTags { file_id }).sql() == "DELETE FROM tags WHERE file_id = ?"@,
        (StatementView::InsertTag { file_id, tag }).params() == seq![
            ParamView::Text(signed_decimal(file_id as int)),
            ParamView::Text(tag),
        ],
        (StatementView::InsertTag { file_id, tag }).sql()
            == "INSERT OR IGNORE INTO tags (file_id, tag) VALUES (?, ?)"@,
        (StatementView::DeleteFile { file_id }).params() == seq![ParamView::Integer(file_id)],
        (StatementView::DeleteFile { file_id }).sql() == "DELETE FROM files WHERE id = ?"@,
        (StatementView::SelectFile { file_path }).params() == seq![ParamView::Text(file_path)],
        (StatementView::SelectFile { file_path }).sql()
            == "SELECT f.file_path, f.hash, f.comment FROM files f WHERE f.file_path = ?"@,
        (StatementView::SelectFileTags { file_path }).params() == seq![ParamView::Text(file_path)],
        (StatementView::SelectFilesByTag { tag }).params() == seq![ParamView::Text(tag)],
        StatementView::SelectAllTags.params().len() == 0,
        StatementView::SelectAllTags.sql() == "SELECT DISTINCT tag FROM tags ORDER BY tag"@,
        StatementView::CreateFiles.params().len() == 0,
        StatementView::CreateTags.params().len() == 0,
{
}

/// A file is tagged by taking all its tags off and then putting each of the tags on it, in
/// their order; and it is removed by taking all its tags off and then removing its row.
pub proof fn law_plans(file_id: i64, tags: Seq<Seq<char>>, i: int)
    ensures
        tagging(file_id, tags).len() == tags.len() + 1,
        tagging(file_id, tags)[0] == (StatementView::DeleteTags { file_id }),
        0 <= i < tags.len() ==> tagging(file_id, tags)[i + 1] == (StatementView::InsertTag {
            file_id,
            tag: tags[i],
        }),
        removal(file_id).len() == 2,
        removal(file_id)[0] == (StatementView::DeleteTags { file_id }),
        removal(file_id)[1] == (StatementView::DeleteFile { file_id }),
        opening().len() == 2,
        opening()[0] == StatementView::CreateFiles,
        opening()[1] == StatementView::CreateTags,
{
}

/// Statements and the values for their placeholders are taken as they are.
pub proof fn law_values_of_statements(
    file_path: String,
    text: String,
    file_id: i64,
    statements: Seq<Statement>,
    params: Seq<Param>,
    i: int,
)
    ensures
        (Statement::UpsertFile { file_path, hash: text })@ == (StatementView::UpsertFile {
            file_path: file_path@,
            hash: text@,
        }),
        (Statement::SetComment { file_path, comment: text })@ == (StatementView::SetComment {
            file_path: file_path@,
            comment: text@,
        }),
        (Statement::SelectFileId { file_path })@ == (StatementView::SelectFileId {
            file_path: file_path@,
        }),
        (Statement::DeleteTags { file_id })@ == (StatementView::DeleteTags { file_id }),
        (Statement::InsertTag { file_id, tag: text })@ == (StatementView::InsertTag {
            file_id,
            tag: text@,
        }),
        (Statement::DeleteFile { file_id })@ == (StatementView::DeleteFile { file_id }),
        (Statement::SelectFile { file_path })@ == (StatementView::SelectFile {
            file_path: file_path@,
        }),
        (Statement::SelectFileTags { file_path })@ == (StatementView::SelectFileTags {
            file_path: file_path@,
        }),
        (Statement::SelectFilesByTag { tag: text })@ == (StatementView::SelectFilesByTag {
            tag: text@,
        }),
        Statement::SelectAllTags@ == StatementView::SelectAllTags,
        Statement::CreateFiles@ == StatementView::CreateFiles,
        Statement::CreateTags@ == StatementView::CreateTags,
        Param::Text(text)@ == ParamView::Text(text@),
        Param::Integer(file_id)@ == ParamView::Integer(file_id),
        statements_of(statements).len() == statements.len(),
        0 <= i < statements.len() ==> statements_of(statements)[i] == statements[i]@,
        params_of(params).len() == params.len(),
        0 <= i < params.len() ==> params_of(params)[i] == params[i]@,
{
}

/// What is run to create the tables, to store a file, and to list tags and files.
pub proof fn law_longer_statements_in_sql(file_path: Seq<char>, hash: Seq<char>, tag: Seq<char>)
    ensures
        StatementView::CreateFiles.sql() == "CREATE TABLE IF NOT EXISTS files (
                id INTEGER PRIMARY KEY,
                file_path TEXT UNIQUE NOT NULL,
                hash TEXT NOT NULL,
                comment TEXT,
                created_at DATETIME DEFAULT CURRENT_TIMESTAMP,
                updated_at DATETIME DEFAULT CURRENT_TIMESTAMP
            )"@,
        StatementView::CreateTags.sql() == "CREATE TABLE IF NOT EXISTS tags (
                id INTEGER PRIMARY KEY,
                file_id INTEGER,
                tag TEXT NOT NULL,
                FOREIGN KEY(file_id) REFERENCES files(id),
                UNIQUE(file_id, tag)
            )"@,
        (StatementView::UpsertFile { file_path, hash }).sql() == "INSERT INTO files (file_path, hash) VALUES (?1, ?2)
             ON CONFLICT(file_path)
             DO UPDATE SET hash = excluded.hash, updated_at = CURRENT_TIMESTAMP
             RETURNING id"@,
        (StatementView::SelectFileTags { file_path }).sql() == "SELECT t.tag FROM tags t 
             JOIN files f ON t.file_id = f.id 
             WHERE f.file_path = ?"@,
        (StatementView::SelectFilesByTag { tag }).sql() == "SELECT f.file_path FROM files f 
             JOIN tags t ON f.id = t.file_id 
             WHERE t.tag = ? ORDER BY f.file_path"@,
{
}

} // verus!
