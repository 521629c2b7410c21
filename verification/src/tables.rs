//! What the statements of the database mean: the two tables, what a statement does to
//! them, and what a query finds in them.

use crate::database::{opening, removal, tagging, StatementView};
use vstd::prelude::*;

verus! {

/// A row of the table of files.
pub struct StoredFile {
    pub file_path: Seq<char>,
    pub hash: Seq<char>,
    pub comment: Option<Seq<char>>,
}

/// The two tables: the files by their numbers, and the tags of the numbered files.
#[verifier::ext_equal]
pub struct Tables {
    pub files: Map<i64, StoredFile>,
    pub tags: Set<(i64, Seq<char>)>,
}

/// Whether the text `a` stands before the text `b`, by their characters.
pub open spec fn precedes(a: Seq<char>, b: Seq<char>) -> bool
    decreases a.len(),
{
    if b.len() == 0 {
        false
    } else if a.len() == 0 {
        true
    } else if a.first() != b.first() {
        (a.first() as int) < (b.first() as int)
    } else {
        precedes(a.drop_first(), b.drop_first())
    }
}

/// Whether each of the texts stands before those that follow it.
pub open spec fn ascends(rows: Seq<Seq<char>>) -> bool {
    forall|i: int, j: int|
        0 <= i < j < rows.len() ==> precedes(#[trigger] rows[i], #[trigger] rows[j])
}

/// Whether the statement only reads.
pub open spec fn is_query(statement: StatementView) -> bool {
    match statement {
        StatementView::SelectFileId { .. } => true,
        StatementView::SelectFile { .. } => true,
        StatementView::SelectFileTags { .. } => true,
        StatementView::SelectAllTags => true,
        StatementView::SelectFilesByTag { .. } => true,
        _ => false,
    }
}

/// Whether the statement asks for texts in ascending order.
pub open spec fn asks_for_order(query: StatementView) -> bool {
    query is SelectAllTags || query is SelectFilesByTag
}

impl Tables {
    /// No path is stored twice, and only stored files have tags.
    pub open spec fn well_formed(self) -> bool {
        &&& forall|a: i64, b: i64|
            #![trigger self.files[a], self.files[b]]
            self.files.dom().contains(a) && self.files.dom().contains(b)
                && self.files[a].file_path == self.files[b].file_path ==> a == b
        &&& forall|id: i64, tag: Seq<char>| #[trigger]
            self.tags.contains((id, tag)) ==> self.files.dom().contains(id)
    }

    /// Whether the statement keeps every tag at a stored file. The database refuses one that
    /// does not: a tag for a number without a file, and the removal of a file with tags.
    pub open spec fn accepts(self, statement: StatementView) -> bool {
        match statement {
            StatementView::InsertTag { file_id, .. } => self.files.dom().contains(file_id),
            StatementView::DeleteFile { file_id } => forall|tag: Seq<char>|
                !#[trigger] self.tags.contains((file_id, tag)),
            _ => true,
        }
    }

    /// The tables after a statement. One that is refused changes nothing. A row that is
    /// added to the table of files gets the number `fresh`.
    pub open spec fn after(self, statement: StatementView, fresh: i64) -> Tables {
        if !self.accepts(statement) {
            self
        } else {
            match statement {
                StatementView::UpsertFile { file_path, hash } => Tables {
                    files: match self.number_found(file_path) {
                        Some(id) => self.files.insert(
                            id,
                            StoredFile { hash, ..self.files[id] },
                        ),
                        None => self.files.insert(
                            fresh,
                            StoredFile { file_path, hash, comment: None },
                        ),
                    },
                    ..self
                },
                StatementView::SetComment { file_path, comment } => Tables {
                    files: self.files.map_values(
                        |row: StoredFile|
                            if row.file_path == file_path {
                                StoredFile { comment: Some(comment), ..row }
                            } else {
                                row
                            },
                    ),
                    ..self
                },
                StatementView::DeleteTags { file_id } => Tables {
                    tags: self.tags.filter(|tag: (i64, Seq<char>)| tag.0 != file_id),
                    ..self
                },
                StatementView::InsertTag { file_id, tag } => Tables {
                    tags: self.tags.insert((file_id, tag)),
                    ..self
                },
                StatementView::DeleteFile { file_id } => Tables {
                    files: self.files.remove(file_id),
                    ..self
                },
                _ => self,
            }
        }
    }

    /// Whether each of the statements is accepted when those before it are done.
    pub open spec fn accepts_all(self, statements: Seq<StatementView>, fresh: i64) -> bool
        decreases statements.len(),
    {
        statements.len() == 0 || {
            &&& self.accepts_all(statements.drop_last(), fresh)
            &&& self.after_all(statements.drop_last(), fresh).accepts(statements.last())
        }
    }

    /// The tables after several statements.
    pub open spec fn after_all(self, statements: Seq<StatementView>, fresh: i64) -> Tables
        decreases statements.len(),
    {
        if statements.len() == 0 {
            self
        } else {
            self.after_all(statements.drop_last(), fresh).after(statements.last(), fresh)
        }
    }

    /// The numbers of the files with this path.
    pub open spec fn numbers(self, file_path: Seq<char>) -> Set<i64> {
        self.files.dom().filter(|id: i64| self.files[id].file_path == file_path)
    }

    /// Whether the file with this path has this tag.
    pub open spec fn has_tag(self, file_path: Seq<char>, tag: Seq<char>) -> bool {
        exists|id: i64| #[trigger]
            self.tags.contains((id, tag)) && self.numbers(file_path).contains(id)
    }

    /// The number that `SelectFileId` gives for this path, if it gives one.
    pub open spec fn number_found(self, file_path: Seq<char>) -> Option<i64> {
        if exists|id: i64| #[trigger] self.numbers(file_path).contains(id) {
            Some(choose|id: i64| #[trigger] self.numbers(file_path).contains(id))
        } else {
            None
        }
    }

    /// The row that `SelectFile` gives for this path, if it gives one.
    pub open spec fn row_found(self, file_path: Seq<char>) -> Option<StoredFile> {
        match self.number_found(file_path) {
            Some(id) => Some(self.files[id]),
            None => None,
        }
    }

    /// The texts that a query for tags or paths finds.
    pub open spec fn found(self, query: StatementView) -> Set<Seq<char>> {
        match query {
            StatementView::SelectFileTags { file_path } => Set::new(
                |tag: Seq<char>| self.has_tag(file_path, tag),
            ),
            StatementView::SelectAllTags => Set::new(
                |tag: Seq<char>| exists|id: i64| #[trigger] self.tags.contains((id, tag)),
            ),
            StatementView::SelectFilesByTag { tag } => Set::new(
                |file_path: Seq<char>| self.has_tag(file_path, tag),
            ),
            _ => Set::empty(),
        }
    }

    /// Whether the rows are an answer to the query for tags or paths: the texts that it
    /// finds, each once, and in ascending order where it asks for that.
    pub open spec fn is_answer(self, query: StatementView, rows: Seq<Seq<char>>) -> bool {
        &&& rows.no_duplicates()
        &&& forall|text: Seq<char>|
            #![trigger rows.contains(text)]
            #![trigger self.found(query).contains(text)]
            rows.contains(text) <==> self.found(query).contains(text)
        &&& asks_for_order(query) ==> ascends(rows)
    }

    /// Whether the queries that speak of this path find the same in both tables.
    pub open spec fn agrees_on(self, other: Tables, file_path: Seq<char>) -> bool {
        &&& self.number_found(file_path) == other.number_found(file_path)
        &&& self.row_found(file_path) == other.row_found(file_path)
        &&& self.found(StatementView::SelectFileTags { file_path }) == other.found(
            StatementView::SelectFileTags { file_path },
        )
    }
}

proof fn lemma_number_found(tables: Tables, file_path: Seq<char>, id: i64)
    requires
        tables.well_formed(),
        tables.files.dom().contains(id),
        tables.files[id].file_path == file_path,
    ensures
        tables.number_found(file_path) == Some(id),
        tables.row_found(file_path) == Some(tables.files[id]),
{
    assert(tables.numbers(file_path).contains(id));
    let found = choose|n: i64| #[trigger] tables.numbers(file_path).contains(n);
    assert(tables.files[found].file_path == tables.files[id].file_path);
}

proof fn lemma_number_is_stored(tables: Tables, file_path: Seq<char>)
    ensures
        match tables.number_found(file_path) {
            Some(id) => tables.files.dom().contains(id) && tables.files[id].file_path == file_path,
            None => forall|id: i64|
                tables.files.dom().contains(id) ==> (#[trigger] tables.files[id]).file_path
                    != file_path,
        },
{
    if tables.number_found(file_path) is None {
        assert forall|id: i64| tables.files.dom().contains(id) implies (
        #[trigger] tables.files[id]).file_path != file_path by {
            assert(!tables.numbers(file_path).contains(id));
        }
    }
}

proof fn lemma_same_tags(tables: Tables, other: Tables, file_path: Seq<char>)
    requires
        tables.tags == other.tags,
        tables.numbers(file_path) == other.numbers(file_path),
    ensures
        tables.found(StatementView::SelectFileTags { file_path }) == other.found(
            StatementView::SelectFileTags { file_path },
        ),
{
    let query = StatementView::SelectFileTags { file_path };
    assert forall|tag: Seq<char>| #[trigger]
        tables.found(query).contains(tag) <==> other.found(query).contains(tag) by {
        assert(tables.has_tag(file_path, tag) <==> other.has_tag(file_path, tag));
    }
    assert(tables.found(query) =~= other.found(query));
}

/// Where two well formed tables have the same rows for a path, and the same tags for its
/// number, the queries find the same.
proof fn lemma_agree(tables: Tables, other: Tables, file_path: Seq<char>)
    requires
        tables.well_formed(),
        other.well_formed(),
        forall|id: i64|
            (tables.files.dom().contains(id) && tables.files[id].file_path == file_path) <==> (
            #[trigger] other.files.dom().contains(id) && other.files[id].file_path == file_path),
        forall|id: i64|
            #![trigger tables.files[id]]
            tables.files.dom().contains(id) && tables.files[id].file_path == file_path
                ==> other.files[id] == tables.files[id],
        forall|id: i64, tag: Seq<char>|
            #![trigger tables.tags.contains((id, tag))]
            #![trigger other.tags.contains((id, tag))]
            tables.files.dom().contains(id) && tables.files[id].file_path == file_path ==> (
            tables.tags.contains((id, tag)) <==> other.tags.contains((id, tag))),
    ensures
        tables.agrees_on(other, file_path),
{
    lemma_number_is_stored(tables, file_path);
    lemma_number_is_stored(other, file_path);
    match tables.number_found(file_path) {
        Some(id) => {
            assert(other.files.dom().contains(id));
            lemma_number_found(other, file_path, id);
        },
        None => {
            if let Some(id) = other.number_found(file_path) {
                assert(other.files.dom().contains(id));
            }
        },
    }
    assert forall|tag: Seq<char>| #[trigger]
        tables.has_tag(file_path, tag) <==> other.has_tag(file_path, tag) by {
        if tables.has_tag(file_path, tag) {
            let id = choose|id: i64| #[trigger]
                tables.tags.contains((id, tag)) && tables.numbers(file_path).contains(id);
            assert(other.files.dom().contains(id));
            assert(other.tags.contains((id, tag)) && other.numbers(file_path).contains(id));
        }
        if other.has_tag(file_path, tag) {
            let id = choose|id: i64| #[trigger]
                other.tags.contains((id, tag)) && other.numbers(file_path).contains(id);
            assert(other.files.dom().contains(id));
            assert(tables.tags.contains((id, tag)) && tables.numbers(file_path).contains(id));
        }
    }
    let query = StatementView::SelectFileTags { file_path };
    assert(tables.found(query) =~= other.found(query));
}

/// Every statement leaves the tables well formed: no path is stored twice, and no tag is
/// left without its file. A new row gets a number that no file has.
pub proof fn law_tables_stay_well_formed(tables: Tables, statement: StatementView, fresh: i64)
    requires
        tables.well_formed(),
        !tables.files.dom().contains(fresh),
    ensures
        tables.after(statement, fresh).well_formed(),
{
    let after = tables.after(statement, fresh);
    match statement {
        StatementView::UpsertFile { file_path, .. } => {
            lemma_number_is_stored(tables, file_path);
        },
        _ => {},
    }
    assert forall|a: i64, b: i64|
        #![trigger after.files[a], after.files[b]]
        after.files.dom().contains(a) && after.files.dom().contains(b) && after.files[a].file_path
            == after.files[b].file_path implies a == b by {
        assert(a != b ==> tables.files[a].file_path != tables.files[b].file_path || a == fresh || b
            == fresh);
    }
}

/// The queries change nothing.
pub proof fn law_queries_change_nothing(tables: Tables, query: StatementView, fresh: i64)
    requires
        is_query(query),
    ensures
        tables.accepts(query),
        tables.after(query, fresh) == tables,
{
}

/// Opening a database again keeps what it holds, so every query finds what it found before.
pub proof fn law_opening_keeps_the_contents(tables: Tables, fresh: i64)
    ensures
        tables.accepts_all(opening(), fresh),
        tables.after_all(opening(), fresh) == tables,
        forall|file_path: Seq<char>| #[trigger]
            tables.after_all(opening(), fresh).agrees_on(tables, file_path),
        forall|query: StatementView| #[trigger]
            tables.after_all(opening(), fresh).found(query) == tables.found(query),
{
    reveal_with_fuel(Tables::after_all, 3);
    reveal_with_fuel(Tables::accepts_all, 3);
}

/// A file that is stored has its path and its new hash. One that was stored before keeps
/// its number, its comment and its tags; a new one has neither comment nor tags, and a
/// number that no other file has. Nothing changes for other files.
pub proof fn law_stored_file_is_found(
    tables: Tables,
    file_path: Seq<char>,
    hash: Seq<char>,
    fresh: i64,
)
    requires
        tables.well_formed(),
        !tables.files.dom().contains(fresh),
    ensures
        ({
            let after = tables.after(StatementView::UpsertFile { file_path, hash }, fresh);
            let tags_of = StatementView::SelectFileTags { file_path };
            &&& after.well_formed()
            &&& match tables.row_found(file_path) {
                Some(row) => {
                    &&& after.row_found(file_path) == Some(StoredFile { hash, ..row })
                    &&& after.number_found(file_path) == tables.number_found(file_path)
                    &&& after.found(tags_of) == tables.found(tags_of)
                },
                None => {
                    &&& after.row_found(file_path) == Some(
                        StoredFile { file_path, hash, comment: None },
                    )
                    &&& after.number_found(file_path) == Some(fresh)
                    &&& after.found(tags_of).is_empty()
                },
            }
            &&& forall|other: Seq<char>|
                other != file_path ==> #[trigger] after.agrees_on(tables, other)
                    && after.number_found(other) != after.number_found(file_path)
            &&& after.tags == tables.tags
            &&& after.found(StatementView::SelectAllTags) == tables.found(
                StatementView::SelectAllTags,
            )
            &&& forall|tag: Seq<char>| #[trigger]
                after.found(StatementView::SelectFilesByTag { tag }) == tables.found(
                    StatementView::SelectFilesByTag { tag },
                )
        }),
{
    let after = tables.after(StatementView::UpsertFile { file_path, hash }, fresh);
    let tags_of = StatementView::SelectFileTags { file_path };
    law_tables_stay_well_formed(
        tables,
        StatementView::UpsertFile { file_path, hash },
        fresh,
    );
    lemma_number_is_stored(tables, file_path);
    match tables.number_found(file_path) {
        Some(id) => {
            lemma_number_found(after, file_path, id);
            assert forall|n: i64| after.numbers(file_path).contains(n) <==> tables.numbers(
                file_path,
            ).contains(n) by {
                assert(tables.files[id].file_path == file_path);
            }
            assert(after.numbers(file_path) =~= tables.numbers(file_path));
            lemma_same_tags(after, tables, file_path);
        },
        None => {
            lemma_number_found(after, file_path, fresh);
            assert forall|tag: Seq<char>| !#[trigger] after.has_tag(file_path, tag) by {
                if after.has_tag(file_path, tag) {
                    let n = choose|n: i64| #[trigger]
                        after.tags.contains((n, tag)) && after.numbers(file_path).contains(n);
                    assert(tables.tags.contains((n, tag)));
                    assert(tables.files[n].file_path != file_path);
                }
            }
            assert(after.found(tags_of) =~= Set::empty());
            law_path_without_a_row_has_no_tags(tables, file_path);
            assert(after.found(tags_of) =~= tables.found(tags_of));
        },
    }
    assert forall|other: Seq<char>| other != file_path implies #[trigger] after.agrees_on(
        tables,
        other,
    ) && after.number_found(other) != after.number_found(file_path) by {
        lemma_agree(after, tables, other);
        lemma_number_is_stored(after, other);
        lemma_number_is_stored(after, file_path);
    }
    assert(after.found(StatementView::SelectAllTags) =~= tables.found(
        StatementView::SelectAllTags,
    ));
    assert forall|tag: Seq<char>| #[trigger]
        after.found(StatementView::SelectFilesByTag { tag }) == tables.found(
            StatementView::SelectFilesByTag { tag },
        ) by {
        let by_tag = StatementView::SelectFilesByTag { tag };
        assert forall|p: Seq<char>| #[trigger]
            after.found(by_tag).contains(p) <==> tables.found(by_tag).contains(p) by {
            let tags_of_p = StatementView::SelectFileTags { file_path: p };
            assert(p != file_path ==> after.agrees_on(tables, p));
            assert(after.found(tags_of_p).contains(tag) <==> tables.found(tags_of_p).contains(tag));
        }
        assert(after.found(by_tag) =~= tables.found(by_tag));
    }
}

/// The comment that a stored file is given is the comment that is found of it afterwards;
/// its path, hash, number and tags stay, and nothing changes for other files.
pub proof fn law_comment_is_read_back(
    tables: Tables,
    file_path: Seq<char>,
    comment: Seq<char>,
    fresh: i64,
)
    requires
        tables.well_formed(),
    ensures
        ({
            let after = tables.after(StatementView::SetComment { file_path, comment }, fresh);
            let tags_of = StatementView::SelectFileTags { file_path };
            &&& after.well_formed()
            &&& after.row_found(file_path) == match tables.row_found(file_path) {
                Some(row) => Some(StoredFile { comment: Some(comment), ..row }),
                None => None,
            }
            &&& after.number_found(file_path) == tables.number_found(file_path)
            &&& after.found(tags_of) == tables.found(tags_of)
            &&& forall|other: Seq<char>|
                other != file_path ==> #[trigger] after.agrees_on(tables, other)
            &&& after.tags == tables.tags
        }),
{
    let after = tables.after(StatementView::SetComment { file_path, comment }, fresh);
    let tags_of = StatementView::SelectFileTags { file_path };
    assert(after.files.dom() =~= tables.files.dom());
    assert forall|a: i64, b: i64|
        #![trigger after.files[a], after.files[b]]
        after.files.dom().contains(a) && after.files.dom().contains(b) && after.files[a].file_path
            == after.files[b].file_path implies a == b by {
        assert(after.files[a].file_path == tables.files[a].file_path);
        assert(after.files[b].file_path == tables.files[b].file_path);
    }
    assert forall|p: Seq<char>| #[trigger] after.numbers(p) == tables.numbers(p) by {
        assert(after.numbers(p) =~= tables.numbers(p));
    }
    lemma_number_is_stored(tables, file_path);
    if let Some(id) = tables.number_found(file_path) {
        lemma_number_found(after, file_path, id);
    }
    lemma_same_tags(after, tables, file_path);
    assert forall|other: Seq<char>| other != file_path implies #[trigger] after.agrees_on(
        tables,
        other,
    ) by {
        lemma_agree(after, tables, other);
    }
}

proof fn lemma_after_tagging(tables: Tables, id: i64, tags: Seq<Seq<char>>, fresh: i64)
    requires
        tables.files.dom().contains(id),
    ensures
        ({
            let after = tables.after_all(tagging(id, tags), fresh);
            &&& tables.accepts_all(tagging(id, tags), fresh)
            &&& after.files == tables.files
            &&& forall|n: i64, tag: Seq<char>| #[trigger]
                after.tags.contains((n, tag)) <==> if n == id {
                    tags.contains(tag)
                } else {
                    tables.tags.contains((n, tag))
                }
        }),
    decreases tags.len(),
{
    let statements = tagging(id, tags);
    let after = tables.after_all(statements, fresh);
    if tags.len() == 0 {
        assert(statements.drop_last() =~= seq![]);
        assert(tables.after_all(statements.drop_last(), fresh) == tables);
        assert(tables.accepts_all(statements.drop_last(), fresh));
    } else {
        let head = tags.drop_last();
        lemma_after_tagging(tables, id, head, fresh);
        assert(statements.drop_last() =~= tagging(id, head));
        assert(statements.last() == StatementView::InsertTag { file_id: id, tag: tags.last() });
        assert forall|tag: Seq<char>| #[trigger]
            tags.contains(tag) <==> head.contains(tag) || tag == tags.last() by {
            assert(tags =~= head.push(tags.last()));
            if head.contains(tag) {
                let i = choose|i: int| 0 <= i < head.len() && head[i] == tag;
                assert(tags[i] == tag);
            }
            if tag == tags.last() {
                assert(tags[tags.len() - 1] == tag);
            }
            if tags.contains(tag) && tag != tags.last() {
                let i = choose|i: int| 0 <= i < tags.len() && tags[i] == tag;
                assert(head[i] == tag);
            }
        }
    }
}

/// The tags that a file is given, by the number that is found of it, are the tags that are
/// found of it afterwards, however often each was given: those it had before are gone. No
/// statement is refused on the way. The rows of all files and the tags of other files stay.
pub proof fn law_tags_are_read_back(
    tables: Tables,
    file_path: Seq<char>,
    id: i64,
    tags: Seq<Seq<char>>,
    fresh: i64,
)
    requires
        tables.well_formed(),
        tables.number_found(file_path) == Some(id),
    ensures
        ({
            let after = tables.after_all(tagging(id, tags), fresh);
            &&& tables.accepts_all(tagging(id, tags), fresh)
            &&& after.well_formed()
            &&& after.files == tables.files
            &&& after.row_found(file_path) == tables.row_found(file_path)
            &&& after.number_found(file_path) == Some(id)
            &&& after.found(StatementView::SelectFileTags { file_path }) == tags.to_set()
            &&& forall|other: Seq<char>|
                other != file_path ==> #[trigger] after.agrees_on(tables, other)
        }),
{
    let after = tables.after_all(tagging(id, tags), fresh);
    lemma_number_is_stored(tables, file_path);
    lemma_after_tagging(tables, id, tags, fresh);
    lemma_number_found(after, file_path, id);
    assert forall|tag: Seq<char>| #[trigger]
        after.has_tag(file_path, tag) <==> tags.contains(tag) by {
        if tags.contains(tag) {
            assert(after.tags.contains((id, tag)));
            assert(after.numbers(file_path).contains(id));
        }
        if after.has_tag(file_path, tag) {
            let n = choose|n: i64| #[trigger]
                after.tags.contains((n, tag)) && after.numbers(file_path).contains(n);
            assert(tables.files[n].file_path == tables.files[id].file_path);
            assert(n == id);
        }
    }
    assert(after.found(StatementView::SelectFileTags { file_path }) =~= tags.to_set());
    assert forall|other: Seq<char>| other != file_path implies #[trigger] after.agrees_on(
        tables,
        other,
    ) by {
        lemma_agree(after, tables, other);
    }
}

proof fn lemma_after_removal(tables: Tables, id: i64, fresh: i64)
    ensures
        ({
            let after = tables.after_all(removal(id), fresh);
            &&& tables.accepts_all(removal(id), fresh)
            &&& after.files == tables.files.remove(id)
            &&& forall|n: i64, tag: Seq<char>| #[trigger]
                after.tags.contains((n, tag)) <==> n != id && tables.tags.contains((n, tag))
        }),
{
    reveal_with_fuel(Tables::after_all, 3);
    reveal_with_fuel(Tables::accepts_all, 3);
    let first = StatementView::DeleteTags { file_id: id };
    let second = StatementView::DeleteFile { file_id: id };
    let statements = removal(id);
    assert(statements.drop_last() =~= seq![first]);
    assert(statements.drop_last().drop_last() =~= seq![]);
    assert(statements.last() == second);
    assert(tables.after_all(statements.drop_last(), fresh) == tables.after(first, fresh));
    assert(tables.after(first, fresh).accepts(second));
}

/// A file that is removed, by the number that is found of it, is found no longer and has no
/// tags. No statement is refused on the way. Nothing changes for other files.
pub proof fn law_removed_file_is_gone(tables: Tables, file_path: Seq<char>, id: i64, fresh: i64)
    requires
        tables.well_formed(),
        tables.number_found(file_path) == Some(id),
    ensures
        ({
            let after = tables.after_all(removal(id), fresh);
            &&& tables.accepts_all(removal(id), fresh)
            &&& after.well_formed()
            &&& after.number_found(file_path) is None
            &&& after.row_found(file_path) is None
            &&& after.found(StatementView::SelectFileTags { file_path }).is_empty()
            &&& forall|other: Seq<char>|
                other != file_path ==> #[trigger] after.agrees_on(tables, other)
        }),
{
    let after = tables.after_all(removal(id), fresh);
    lemma_number_is_stored(tables, file_path);
    lemma_after_removal(tables, id, fresh);
    assert forall|n: i64| !(#[trigger] after.numbers(file_path).contains(n)) by {
        if after.numbers(file_path).contains(n) {
            assert(tables.files[n].file_path == tables.files[id].file_path);
        }
    }
    law_path_without_a_row_has_no_tags(after, file_path);
    assert forall|other: Seq<char>| other != file_path implies #[trigger] after.agrees_on(
        tables,
        other,
    ) by {
        lemma_agree(after, tables, other);
    }
}

/// A path without a row has no tags: the query gives no rows.
pub proof fn law_path_without_a_row_has_no_tags(tables: Tables, file_path: Seq<char>)
    requires
        tables.row_found(file_path) is None,
    ensures
        tables.found(StatementView::SelectFileTags { file_path }).is_empty(),
        tables.is_answer(StatementView::SelectFileTags { file_path }, seq![]),
{
    lemma_number_is_stored(tables, file_path);
    assert forall|tag: Seq<char>| !#[trigger] tables.has_tag(file_path, tag) by {
        if tables.has_tag(file_path, tag) {
            let n = choose|n: i64| #[trigger]
                tables.tags.contains((n, tag)) && tables.numbers(file_path).contains(n);
            assert(tables.files[n].file_path == file_path);
        }
    }
    assert(tables.found(StatementView::SelectFileTags { file_path }) =~= Set::empty());
}

/// Storing a file that was not stored, giving it a comment and tags, and removing it again
/// leaves the tables as they were.
pub proof fn law_removal_undoes_storing(
    tables: Tables,
    file_path: Seq<char>,
    hash: Seq<char>,
    comment: Seq<char>,
    tags: Seq<Seq<char>>,
    fresh: i64,
)
    requires
        tables.well_formed(),
        tables.row_found(file_path) is None,
        !tables.files.dom().contains(fresh),
    ensures
        ({
            let stored = tables.after(StatementView::UpsertFile { file_path, hash }, fresh);
            let commented = stored.after(StatementView::SetComment { file_path, comment }, fresh);
            let tagged = commented.after_all(tagging(fresh, tags), fresh);
            let removed = tagged.after_all(removal(fresh), fresh);
            &&& stored.number_found(file_path) == Some(fresh)
            &&& commented.number_found(file_path) == Some(fresh)
            &&& tagged.number_found(file_path) == Some(fresh)
            &&& removed == tables
        }),
{
    let stored = tables.after(StatementView::UpsertFile { file_path, hash }, fresh);
    let commented = stored.after(StatementView::SetComment { file_path, comment }, fresh);
    let tagged = commented.after_all(tagging(fresh, tags), fresh);
    let removed = tagged.after_all(removal(fresh), fresh);
    law_stored_file_is_found(tables, file_path, hash, fresh);
    law_comment_is_read_back(stored, file_path, comment, fresh);
    law_tags_are_read_back(commented, file_path, fresh, tags, fresh);
    lemma_number_is_stored(commented, file_path);
    lemma_after_tagging(commented, fresh, tags, fresh);
    lemma_after_removal(tagged, fresh, fresh);
    lemma_number_is_stored(tables, file_path);
    assert(removed.files =~= tables.files);
    assert forall|pair: (i64, Seq<char>)| #[trigger]
        removed.tags.contains(pair) <==> tables.tags.contains(pair) by {
        assert(removed.tags.contains((pair.0, pair.1)) <==> pair.0 != fresh && tagged.tags.contains(
            (pair.0, pair.1),
        ));
        assert(tables.tags.contains((fresh, pair.1)) ==> tables.files.dom().contains(fresh));
    }
    assert(removed.tags =~= tables.tags);
}

/// Every tag that the index lists is the tag of some file, so its page lists a file; and
/// every tag of a file is in the index.
pub proof fn law_every_tag_has_a_file(
    tables: Tables,
    all_tags: Seq<Seq<char>>,
    tag: Seq<char>,
    files: Seq<Seq<char>>,
)
    requires
        tables.well_formed(),
        tables.is_answer(StatementView::SelectAllTags, all_tags),
        tables.is_answer(StatementView::SelectFilesByTag { tag }, files),
    ensures
        all_tags.contains(tag) <==> files.len() > 0,
{
    let by_tag = tables.found(StatementView::SelectFilesByTag { tag });
    if all_tags.contains(tag) {
        let id = choose|id: i64| #[trigger] tables.tags.contains((id, tag));
        let file_path = tables.files[id].file_path;
        assert(tables.numbers(file_path).contains(id));
        assert(tables.has_tag(file_path, tag));
        assert(by_tag.contains(file_path));
        assert(files.contains(file_path));
    }
    if files.len() > 0 {
        assert(files.contains(files[0]));
        assert(tables.has_tag(files[0], tag));
        assert(tables.found(StatementView::SelectAllTags).contains(tag));
    }
}

/// A file is listed on the page of a tag if and only if the tag is listed for the file.
pub proof fn law_tags_and_files_agree(
    tables: Tables,
    file_path: Seq<char>,
    tags: Seq<Seq<char>>,
    tag: Seq<char>,
    files: Seq<Seq<char>>,
)
    requires
        tables.is_answer(StatementView::SelectFileTags { file_path }, tags),
        tables.is_answer(StatementView::SelectFilesByTag { tag }, files),
    ensures
        tags.contains(tag) <==> files.contains(file_path),
{
}

proof fn lemma_precedes(a: Seq<char>, b: Seq<char>)
    requires
        precedes(a, b),
    ensures
        !precedes(b, a),
        a != b,
    decreases a.len(),
{
    if a.len() > 0 && a.first() == b.first() {
        lemma_precedes(a.drop_first(), b.drop_first());
    }
}

/// A query that asks for order has at most one answer: the list of what it finds, in
/// ascending order.
pub proof fn law_ordered_answer_is_unique(
    tables: Tables,
    query: StatementView,
    rows: Seq<Seq<char>>,
    other: Seq<Seq<char>>,
)
    requires
        asks_for_order(query),
        tables.is_answer(query, rows),
        tables.is_answer(query, other),
    ensures
        rows == other,
{
    lemma_ascending_lists(rows, other);
}

proof fn lemma_ascending_lists(a: Seq<Seq<char>>, b: Seq<Seq<char>>)
    requires
        ascends(a),
        ascends(b),
        forall|text: Seq<char>|
            #![trigger a.contains(text)]
            #![trigger b.contains(text)]
            a.contains(text) <==> b.contains(text),
    ensures
        a == b,
    decreases a.len(),
{
    if a.len() == 0 {
        if b.len() > 0 {
            assert(b.contains(b[0]));
        }
        assert(a =~= b);
    } else {
        assert(a.contains(a[0]));
        let i = choose|i: int| 0 <= i < b.len() && b[i] == a[0];
        assert(b.contains(b[0]));
        let j = choose|j: int| 0 <= j < a.len() && a[j] == b[0];
        if i > 0 {
            lemma_precedes(b[0], b[i]);
            if j > 0 {
                lemma_precedes(a[0], a[j]);
            }
        }
        assert(a[0] == b[0]);
        let x = a.drop_first();
        let y = b.drop_first();
        assert forall|p: int, q: int| 0 <= p < q < x.len() implies precedes(
            #[trigger] x[p],
            #[trigger] x[q],
        ) by {
            assert(precedes(a[p + 1], a[q + 1]));
        }
        assert forall|p: int, q: int| 0 <= p < q < y.len() implies precedes(
            #[trigger] y[p],
            #[trigger] y[q],
        ) by {
            assert(precedes(b[p + 1], b[q + 1]));
        }
        assert forall|text: Seq<char>|
            #![trigger x.contains(text)]
            #![trigger y.contains(text)]
            x.contains(text) <==> y.contains(text) by {
            if x.contains(text) {
                let k = choose|k: int| 0 <= k < x.len() && x[k] == text;
                assert(a[k + 1] == text);
                assert(a.contains(text));
                lemma_precedes(a[0], a[k + 1]);
                let m = choose|m: int| 0 <= m < b.len() && b[m] == text;
                assert(y[m - 1] == text);
            }
            if y.contains(text) {
                let k = choose|k: int| 0 <= k < y.len() && y[k] == text;
                assert(b[k + 1] == text);
                assert(b.contains(text));
                lemma_precedes(b[0], b[k + 1]);
                let m = choose|m: int| 0 <= m < a.len() && a[m] == text;
                assert(x[m - 1] == text);
            }
        }
        lemma_ascending_lists(x, y);
        assert(a =~= seq![a[0]] + x);
        assert(b =~= seq![b[0]] + y);
    }
}

/// The tags of a path are those that its rows have; the files with a tag are the paths of the
/// rows that have it; and all tags are those that any row has. The number and the row that are
/// found for a path are those of a row with that path, where there is one.
pub proof fn law_what_queries_find(tables: Tables, file_path: Seq<char>, tag: Seq<char>)
    ensures
        tables.found(StatementView::SelectFileTags { file_path }).contains(tag) <==> exists|id: i64|
            #[trigger] tables.tags.contains((id, tag)) && tables.files.dom().contains(id)
                && tables.files[id].file_path == file_path,
        tables.found(StatementView::SelectFilesByTag { tag }).contains(file_path) <==> exists|
            id: i64,
        |
            #[trigger] tables.tags.contains((id, tag)) && tables.files.dom().contains(id)
                && tables.files[id].file_path == file_path,
        tables.found(StatementView::SelectAllTags).contains(tag) <==> exists|id: i64| #[trigger]
            tables.tags.contains((id, tag)),
        match tables.number_found(file_path) {
            Some(id) => tables.files.dom().contains(id) && tables.files[id].file_path == file_path
                && tables.row_found(file_path) == Some(tables.files[id]),
            None => tables.row_found(file_path) is None && forall|id: i64|
                tables.files.dom().contains(id) ==> (#[trigger] tables.files[id]).file_path
                    != file_path,
        },
{
    lemma_number_is_stored(tables, file_path);
    if exists|id: i64|
        #[trigger] tables.tags.contains((id, tag)) && tables.files.dom().contains(id)
            && tables.files[id].file_path == file_path {
        let id = choose|id: i64|
            #[trigger] tables.tags.contains((id, tag)) && tables.files.dom().contains(id)
                && tables.files[id].file_path == file_path;
        assert(tables.numbers(file_path).contains(id));
        assert(tables.has_tag(file_path, tag));
    }
    if tables.has_tag(file_path, tag) {
        let id = choose|id: i64| #[trigger]
            tables.tags.contains((id, tag)) && tables.numbers(file_path).contains(id);
        assert(tables.tags.contains((id, tag)) && tables.files.dom().contains(id)
            && tables.files[id].file_path == file_path);
    }
}

} // verus!
