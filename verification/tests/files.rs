use html_navigator::clock::Timestamp;
use html_navigator::digest::calculate_file_hash;
use html_navigator::files::{describe_file, scan_html_files, FileFacts, FileStat, HtmlFile};

fn file(path: &str, modified: Timestamp) -> HtmlFile {
    HtmlFile {
        path: path.to_string(),
        title: String::new(),
        modified,
        size: 0,
        hash: String::new(),
    }
}

fn since(seconds: u64, nanos: u32) -> Timestamp {
    Timestamp::Since { seconds, nanos }
}

fn sorted_paths(files: Vec<HtmlFile>) -> Vec<String> {
    let sorted: Result<Vec<HtmlFile>, String> = scan_html_files(Ok(files));
    sorted.unwrap().into_iter().map(|f| f.path).collect()
}

#[test]
fn newest_files_come_first() {
    let files = vec![
        file("old", since(10, 0)),
        file("new", since(30, 0)),
        file("ancient", Timestamp::Before { seconds: 5, nanos: 0 }),
        file("middle", since(20, 0)),
        file("older than ancient", Timestamp::Before { seconds: 5, nanos: 1 }),
    ];
    assert_eq!(sorted_paths(files), ["new", "middle", "old", "ancient", "older than ancient"]);
}

#[test]
fn nanoseconds_count() {
    let files = vec![file("a", since(10, 1)), file("b", since(10, 2)), file("c", since(9, 999_999_999))];
    assert_eq!(sorted_paths(files), ["b", "a", "c"]);
}

#[test]
fn files_of_one_time_keep_their_order() {
    let files = vec![
        file("a", since(10, 0)),
        file("b", since(20, 0)),
        file("c", since(10, 0)),
        file("d", since(20, 0)),
        file("e", since(10, 0)),
    ];
    assert_eq!(sorted_paths(files), ["b", "d", "a", "c", "e"]);
}

#[test]
fn part_of_the_sorted_files_is_the_sorted_part() {
    let found = || {
        vec![
            file("r/s/a", since(10, 0)),
            file("r/b", since(20, 0)),
            file("r/s/c", since(30, 0)),
            file("r/st", since(15, 0)),
            file("r/s/d", since(10, 0)),
        ]
    };
    let below = |path: &str| path.starts_with("r/s/");
    let part: Vec<HtmlFile> = found().into_iter().filter(|f| below(&f.path)).collect();
    let chosen: Vec<String> = sorted_paths(found()).into_iter().filter(|p| below(p)).collect();
    assert_eq!(chosen, ["r/s/c", "r/s/a", "r/s/d"]);
    assert_eq!(sorted_paths(part), chosen);
}

#[test]
fn nothing_found_stays_nothing() {
    assert!(sorted_paths(Vec::new()).is_empty());
}

#[test]
fn failed_scan_stays_failed() {
    let failed: Result<Vec<HtmlFile>, String> = scan_html_files(Err("denied".to_string()));
    assert_eq!(failed.unwrap_err(), "denied");
}

#[test]
fn hash_is_sha256_in_hexadecimal() {
    assert_eq!(
        calculate_file_hash(b"abc"),
        "ba7816bf8f01cfea414140de5dae2223b00361a396177a9cb410ff61f20015ad"
    );
    assert_eq!(
        calculate_file_hash(b""),
        "e3b0c44298fc1c149afbf4c8996fb92427ae41e4649b934ca495991b7852b855"
    );
}

fn facts() -> FileFacts {
    FileFacts {
        stat: Some(FileStat { size: 28, modified: Some(since(7, 8)) }),
        content: Some("<title>A &amp; B</title>".to_string()),
        bytes: Some(b"abc".to_vec()),
    }
}

#[test]
fn file_is_described() {
    let found = describe_file("d/a.html".to_string(), facts()).unwrap();
    assert_eq!(found.path, "d/a.html");
    assert_eq!(found.title, "A & B");
    assert!(matches!(found.modified, Timestamp::Since { seconds: 7, nanos: 8 }));
    assert_eq!(found.size, 28);
    assert_eq!(found.hash, "ba7816bf8f01cfea414140de5dae2223b00361a396177a9cb410ff61f20015ad");
}

#[test]
fn file_that_cannot_be_hashed_has_an_empty_hash() {
    let mut facts = facts();
    facts.bytes = None;
    assert_eq!(describe_file("a.html".to_string(), facts).unwrap().hash, "");
}

#[test]
fn file_without_the_needed_facts_is_left_out() {
    let mut no_stat = facts();
    no_stat.stat = None;
    assert!(describe_file("a.html".to_string(), no_stat).is_none());
    let mut no_time = facts();
    no_time.stat = Some(FileStat { size: 1, modified: None });
    assert!(describe_file("a.html".to_string(), no_time).is_none());
    let mut no_bytes = facts();
    no_bytes.content = None;
    no_bytes.bytes = None;
    assert!(describe_file("a.html".to_string(), no_bytes).is_none());
}

#[test]
fn file_that_is_not_utf8_is_described() {
    let mut one_byte = facts();
    one_byte.stat = Some(FileStat { size: 1, modified: Some(since(7, 8)) });
    one_byte.content = None;
    one_byte.bytes = Some(vec![0xff]);
    let found = describe_file("d/x.html".to_string(), one_byte).unwrap();
    assert_eq!(found.path, "d/x.html");
    assert_eq!(found.title, "Untitled");
    assert_eq!(found.size, 1);
    assert_eq!(found.hash, "a8100ae6aa1940d0b663bb31cd466142ebbdbd5187131b92d93818987832eb89");
    let mut latin = facts();
    latin.content = None;
    latin.bytes = Some(b"<title>Caf\xe9</title>".to_vec());
    let found = describe_file("d/y.html".to_string(), latin).unwrap();
    assert_eq!(found.title, "Caf\u{fffd}");
}
