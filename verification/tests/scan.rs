use html_navigator::clock::Timestamp;
use html_navigator::files::{FileFacts, FileStat};
use html_navigator::scan::{scan_directory_recursive, DirEntry, Scan, ScanAction, ScanEvent};

enum Node {
    Dir(Vec<(&'static str, usize)>),
    Locked,
    File(&'static str),
}

fn entry(nodes: &[Node], path: &str, id: usize) -> DirEntry {
    DirEntry::new(id, path.to_string(), !matches!(nodes[id], Node::File(_)))
}

fn walk(nodes: &[Node]) -> (Vec<String>, Vec<ScanAction>) {
    let mut scan = Scan::new();
    let mut actions = Vec::new();
    let root = entry(nodes, "root", 0);
    let mut action = scan_directory_recursive(&mut scan, ScanEvent::Begin { root });
    loop {
        actions.push(action);
        let event = match action {
            ScanAction::ListDirectory { id } => match &nodes[id] {
                Node::Dir(names) => ScanEvent::Listed {
                    entries: names.iter().map(|(name, id)| entry(nodes, name, *id)).collect(),
                },
                _ => ScanEvent::ListingFailed,
            },
            ScanAction::ReadFile { id } => ScanEvent::Read {
                facts: match &nodes[id] {
                    Node::File(content) if !content.is_empty() => FileFacts {
                        stat: Some(FileStat {
                            size: content.len() as u64,
                            modified: Some(Timestamp::Since { seconds: 1, nanos: 0 }),
                        }),
                        content: Some(content.to_string()),
                        bytes: Some(content.as_bytes().to_vec()),
                    },
                    _ => FileFacts { stat: None, content: None, bytes: None },
                },
            },
            ScanAction::Finish | ScanAction::Fail => break,
        };
        action = scan_directory_recursive(&mut scan, event);
    }
    (scan.into_html_files().into_iter().map(|f| f.path).collect(), actions)
}

#[test]
fn html_files_are_found_in_all_directories() {
    let nodes = vec![
        Node::Dir(vec![("a.html", 1), ("sub", 2), ("b.htm", 3), ("c.txt", 4)]),
        Node::File("<title>a</title>"),
        Node::Dir(vec![("deep", 5), ("d.html", 6)]),
        Node::File("b"),
        Node::File("c"),
        Node::Dir(vec![("e.html", 7), ("noext", 8), ("f.HTML", 9), ("g.xhtml", 10)]),
        Node::File("d"),
        Node::File("e"),
        Node::File("h"),
        Node::File("f"),
        Node::File("g"),
    ];
    let (paths, actions) = walk(&nodes);
    assert_eq!(paths, ["a.html", "e.html", "d.html", "b.htm"]);
    assert_eq!(
        actions,
        vec![
            ScanAction::ListDirectory { id: 0 },
            ScanAction::ReadFile { id: 1 },
            ScanAction::ListDirectory { id: 2 },
            ScanAction::ListDirectory { id: 5 },
            ScanAction::ReadFile { id: 7 },
            ScanAction::ReadFile { id: 6 },
            ScanAction::ReadFile { id: 3 },
            ScanAction::Finish,
        ]
    );
}

#[test]
fn unreadable_files_are_passed_over() {
    let nodes = vec![
        Node::Dir(vec![("a.html", 1), ("b.html", 2)]),
        Node::File(""),
        Node::File("b"),
    ];
    assert_eq!(walk(&nodes).0, ["b.html"]);
}

#[test]
fn unreadable_directory_ends_the_walk() {
    let nodes = vec![
        Node::Dir(vec![("a.html", 1), ("sub", 2), ("b.html", 3)]),
        Node::File("a"),
        Node::Locked,
        Node::File("b"),
    ];
    let (_, actions) = walk(&nodes);
    assert_eq!(actions.last(), Some(&ScanAction::Fail));
    assert!(!actions.contains(&ScanAction::ReadFile { id: 3 }));
}

#[test]
fn walk_of_a_file_finds_nothing() {
    let nodes = vec![Node::File("<title>a</title>")];
    let (paths, actions) = walk(&nodes);
    assert!(paths.is_empty());
    assert_eq!(actions, vec![ScanAction::Finish]);
}

#[test]
fn directory_named_like_a_file_is_walked() {
    let nodes = vec![
        Node::Dir(vec![("site.html", 1)]),
        Node::Dir(vec![("a.html", 2)]),
        Node::File("a"),
    ];
    assert_eq!(walk(&nodes).0, ["a.html"]);
}

#[test]
fn files_are_known_by_their_extension() {
    let nodes = vec![
        Node::Dir(vec![
            ("d/.html", 1),
            ("d/a.html.bak", 1),
            ("d.html/a", 1),
            ("d/a.b.html", 1),
            ("d/..htm", 1),
            ("d/a.html/", 1),
            ("html", 1),
            ("a.", 1),
            ("d/a:b.html", 1),
            ("d\\c.htm", 1),
            ("d:/y.html.bak", 1),
            ("d//e.html", 1),
            ("d.html/f:g", 1),
        ]),
        Node::File("a"),
    ];
    assert_eq!(
        walk(&nodes).0,
        ["d/a.b.html", "d/..htm", "d/a.html/", "d/a:b.html", "d\\c.htm", "d//e.html"]
    );
}

#[test]
fn walk_of_a_subdirectory_finds_its_part() {
    let whole = vec![
        Node::Dir(vec![("r/a.html", 1), ("r/s", 2), ("r/st.html", 1)]),
        Node::File("a"),
        Node::Dir(vec![("r/s/b.html", 1), ("r/s/t", 3)]),
        Node::Dir(vec![("r/s/t/c.html", 1)]),
    ];
    let part = vec![
        Node::Dir(vec![("r/s/b.html", 1), ("r/s/t", 2)]),
        Node::File("a"),
        Node::Dir(vec![("r/s/t/c.html", 1)]),
    ];
    let outer = walk(&whole).0;
    assert_eq!(outer, ["r/a.html", "r/s/b.html", "r/s/t/c.html", "r/st.html"]);
    let below: Vec<String> = outer.into_iter().filter(|p| p.starts_with("r/s/")).collect();
    assert_eq!(walk(&part).0, below);
}
