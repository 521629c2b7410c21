use html_navigator::database::{
    add_comment, add_tags, collect_rows, create_tables, file_metadata, get_all_tags,
    get_file_metadata, get_file_tags, get_files_by_tag, remove_file, select_file, select_file_id,
    upsert_file, FileMetadata, FileRow, MetadataStep, Param, RowReply, Statement,
};
use rusqlite::types::Value;
use rusqlite::Connection;

fn values(statement: &Statement) -> Vec<Value> {
    statement
        .params()
        .into_iter()
        .map(|param| match param {
            Param::Text(text) => Value::Text(text),
            Param::Integer(number) => Value::Integer(number),
        })
        .collect()
}

fn execute(conn: &Connection, statement: &Statement) -> rusqlite::Result<usize> {
    conn.execute(statement.sql(), rusqlite::params_from_iter(values(statement)))
}

fn texts(conn: &Connection, statement: &Statement) -> Vec<String> {
    let mut prepared = conn.prepare(statement.sql()).unwrap();
    let rows = prepared
        .query_map(rusqlite::params_from_iter(values(statement)), |row| row.get::<_, String>(0))
        .unwrap();
    collect_rows(rows.collect()).unwrap()
}

fn number(conn: &Connection, statement: &Statement) -> rusqlite::Result<i64> {
    conn.query_row(statement.sql(), rusqlite::params_from_iter(values(statement)), |row| {
        row.get(0)
    })
}

fn file_id(conn: &Connection, path: &str) -> rusqlite::Result<i64> {
    number(conn, &select_file_id(path))
}

fn store(conn: &Connection, path: &str, hash: &str) -> i64 {
    number(conn, &upsert_file(path, hash)).unwrap()
}

fn metadata(conn: &Connection, path: &str) -> Option<FileMetadata> {
    let statement = select_file(path);
    let found = conn.query_row(
        statement.sql(),
        rusqlite::params_from_iter(values(&statement)),
        |row| Ok(FileRow { file_path: row.get(0)?, hash: row.get(1)?, comment: row.get(2)? }),
    );
    let reply = match found {
        Ok(row) => RowReply::Row(row),
        Err(rusqlite::Error::QueryReturnedNoRows) => RowReply::NoRows,
        Err(error) => RowReply::Failed(error),
    };
    match get_file_metadata(reply) {
        MetadataStep::SelectTags { row, tags } => {
            let tags: Result<Vec<String>, rusqlite::Error> = Ok(texts(conn, &tags));
            file_metadata(row, tags).unwrap()
        }
        MetadataStep::Finish(result) => result.unwrap(),
    }
}

fn tag(conn: &Connection, path: &str, tags: &[&str]) {
    let tags: Vec<String> = tags.iter().map(|t| t.to_string()).collect();
    for statement in add_tags(file_id(conn, path), &tags).unwrap() {
        execute(conn, &statement).unwrap();
    }
}

fn open() -> Connection {
    let conn = Connection::open_in_memory().unwrap();
    for statement in create_tables() {
        execute(&conn, &statement).unwrap();
    }
    conn
}

#[test]
fn tables_can_be_created_twice() {
    let conn = open();
    for statement in create_tables() {
        execute(&conn, &statement).unwrap();
    }
    assert!(texts(&conn, &get_all_tags()).is_empty());
}

#[test]
fn stored_file_is_found() {
    let conn = open();
    store(&conn, "a.html", "h1");
    let found = metadata(&conn, "a.html").unwrap();
    assert_eq!(found.file_path, "a.html");
    assert_eq!(found.hash, "h1");
    assert_eq!(found.comment, None);
    assert!(found.tags.is_empty());
    assert!(metadata(&conn, "b.html").is_none());
}

#[test]
fn storing_again_keeps_comment_and_tags() {
    let conn = open();
    let first = store(&conn, "a.html", "h1");
    let other = store(&conn, "b.html", "h1");
    assert_ne!(first, other);
    execute(&conn, &add_comment("a.html", "old")).unwrap();
    tag(&conn, "a.html", &["x", "y"]);
    assert_eq!(store(&conn, "a.html", "h2"), first);
    let found = metadata(&conn, "a.html").unwrap();
    assert_eq!(found.hash, "h2");
    assert_eq!(found.comment, Some("old".to_string()));
    assert_eq!(found.tags, ["x", "y"]);
    assert_eq!(file_id(&conn, "a.html").unwrap(), first);
    assert_eq!(metadata(&conn, "b.html").unwrap().hash, "h1");
}

#[test]
fn stored_file_keeps_its_number() {
    let conn = open();
    for i in 0..5 {
        let id = store(&conn, &format!("{}.html", i), "h");
        assert_eq!(file_id(&conn, &format!("{}.html", i)).unwrap(), id);
    }
    let kept = file_id(&conn, "2.html").unwrap();
    assert_eq!(store(&conn, "2.html", "other"), kept);
    assert_eq!(store(&conn, "2.html", "again"), kept);
}

#[test]
fn tags_need_a_stored_file() {
    let conn = open();
    let id = store(&conn, "a.html", "h1");
    tag(&conn, "a.html", &["x"]);
    for statement in add_tags::<String>(Ok(id + 1), &["y".to_string()]).unwrap().iter().skip(1) {
        assert!(execute(&conn, statement).is_err());
    }
    let removal = remove_file::<String>(Ok(id));
    assert!(execute(&conn, &removal[1]).is_err());
    assert_eq!(metadata(&conn, "a.html").unwrap().tags, ["x"]);
    assert_eq!(texts(&conn, &get_all_tags()), ["x"]);
}

#[test]
fn removal_undoes_storing() {
    let conn = open();
    store(&conn, "b.html", "h2");
    execute(&conn, &add_comment("b.html", "kept")).unwrap();
    tag(&conn, "b.html", &["y"]);
    store(&conn, "a.html", "h1");
    execute(&conn, &add_comment("a.html", "c")).unwrap();
    tag(&conn, "a.html", &["x", "y"]);
    for statement in remove_file(file_id(&conn, "a.html")) {
        execute(&conn, &statement).unwrap();
    }
    assert!(metadata(&conn, "a.html").is_none());
    assert!(texts(&conn, &get_file_tags("a.html")).is_empty());
    assert_eq!(texts(&conn, &get_all_tags()), ["y"]);
    assert_eq!(texts(&conn, &get_files_by_tag("y")), ["b.html"]);
    assert!(texts(&conn, &get_files_by_tag("x")).is_empty());
    let kept = metadata(&conn, "b.html").unwrap();
    assert_eq!((kept.hash, kept.comment), ("h2".to_string(), Some("kept".to_string())));
}

#[test]
fn lists_ascend_and_repeat_nothing() {
    let conn = open();
    for path in ["b.html", "B.html", "é.html", "a.html", "ab.html"] {
        store(&conn, path, "h");
        tag(&conn, path, &["z", "Z", "zé", "za", "𝄞", "\u{ffff}", "z"]);
    }
    let files = texts(&conn, &get_files_by_tag("z"));
    assert_eq!(files, ["B.html", "a.html", "ab.html", "b.html", "é.html"]);
    let tags = texts(&conn, &get_all_tags());
    assert_eq!(tags, ["Z", "z", "za", "zé", "\u{ffff}", "𝄞"]);
    assert_eq!(texts(&conn, &get_file_tags("a.html")).len(), 6);
}

#[test]
fn opening_again_keeps_the_contents() {
    let conn = open();
    store(&conn, "a.html", "h1");
    execute(&conn, &add_comment("a.html", "c")).unwrap();
    tag(&conn, "a.html", &["x"]);
    for statement in create_tables() {
        execute(&conn, &statement).unwrap();
    }
    let kept = metadata(&conn, "a.html").unwrap();
    assert_eq!((kept.hash, kept.comment), ("h1".to_string(), Some("c".to_string())));
    assert_eq!(kept.tags, ["x"]);
}

#[test]
fn comment_is_read_back() {
    let conn = open();
    store(&conn, "a.html", "h1");
    store(&conn, "b.html", "h2");
    execute(&conn, &add_comment("a.html", "it's 'quoted'; DROP")).unwrap();
    assert_eq!(metadata(&conn, "a.html").unwrap().comment, Some("it's 'quoted'; DROP".to_string()));
    assert_eq!(metadata(&conn, "b.html").unwrap().comment, None);
}

#[test]
fn tags_are_read_back() {
    let conn = open();
    store(&conn, "a.html", "h1");
    store(&conn, "b.html", "h2");
    tag(&conn, "a.html", &["x", "y", "x"]);
    tag(&conn, "b.html", &["y"]);
    let mut tags = texts(&conn, &get_file_tags("a.html"));
    tags.sort();
    assert_eq!(tags, ["x", "y"]);
    assert_eq!(texts(&conn, &get_all_tags()), ["x", "y"]);
    assert_eq!(texts(&conn, &get_files_by_tag("y")), ["a.html", "b.html"]);
    assert_eq!(metadata(&conn, "b.html").unwrap().tags, ["y"]);
}

#[test]
fn new_tags_replace_the_old_ones() {
    let conn = open();
    store(&conn, "a.html", "h1");
    tag(&conn, "a.html", &["x", "y"]);
    tag(&conn, "a.html", &["z"]);
    assert_eq!(texts(&conn, &get_file_tags("a.html")), ["z"]);
    tag(&conn, "a.html", &[]);
    assert!(texts(&conn, &get_file_tags("a.html")).is_empty());
}

#[test]
fn file_that_is_not_stored_cannot_be_tagged() {
    let conn = open();
    assert!(matches!(
        add_tags(file_id(&conn, "a.html"), &["x".to_string()]),
        Err(rusqlite::Error::QueryReturnedNoRows)
    ));
}

#[test]
fn removed_file_is_gone() {
    let conn = open();
    store(&conn, "a.html", "h1");
    store(&conn, "b.html", "h2");
    tag(&conn, "a.html", &["x"]);
    tag(&conn, "b.html", &["y"]);
    for statement in remove_file(file_id(&conn, "a.html")) {
        execute(&conn, &statement).unwrap();
    }
    assert!(metadata(&conn, "a.html").is_none());
    assert_eq!(texts(&conn, &get_all_tags()), ["y"]);
    assert_eq!(metadata(&conn, "b.html").unwrap().tags, ["y"]);
}

#[test]
fn removing_a_file_that_is_not_stored_does_nothing() {
    let conn = open();
    assert!(remove_file(file_id(&conn, "a.html")).is_empty());
    assert!(remove_file::<String>(Err("broken".to_string())).is_empty());
}

#[test]
fn number_of_a_tagged_file_is_bound_as_text() {
    let statements = add_tags::<String>(Ok(-12), &["x".to_string()]).unwrap();
    assert_eq!(statements.len(), 2);
    assert!(matches!(statements[0].params()[..], [Param::Integer(-12)]));
    let params = statements[1].params();
    assert!(matches!(&params[..], [Param::Text(id), Param::Text(tag)] if id == "-12" && tag == "x"));
}

#[test]
fn failures_are_passed_on() {
    assert_eq!(add_tags(Err("e1"), &[]).unwrap_err(), "e1");
    assert!(matches!(
        get_file_metadata(RowReply::Failed("e2")),
        MetadataStep::Finish(Err("e2"))
    ));
    let row = FileRow { file_path: String::new(), hash: String::new(), comment: None };
    assert_eq!(file_metadata(row, Err("e3")).unwrap_err(), "e3");
    let rows = vec![Ok("a".to_string()), Err("e4"), Ok("b".to_string()), Err("e5")];
    assert_eq!(collect_rows(rows), Err("e4"));
    let rows: Vec<Result<String, String>> = vec![Ok("a".to_string()), Ok("b".to_string())];
    assert_eq!(collect_rows(rows), Ok(vec!["a".to_string(), "b".to_string()]));
}
