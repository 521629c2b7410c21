//! The walk through a directory and the directories in it.
//!
//! The walk itself reads nothing. It says what to do next, and is told what came of it.

use crate::files::{
    describe_file, described, files_of, is_sorted_scan, law_sorted_scan_is_unique,
    law_sorting_keeps_to_the_chosen_files, readable_text, FileFacts, FileFactsView, HtmlFile,
    HtmlFileView,
};
use crate::paths::{
    is_extension_of, is_file_name, is_separator, last_name, last_name_on_a_drive,
    law_extension_at_the_end, law_path_ends_with_its_extension, names_a_server, path_extension,
};
use crate::text::optional_text;
use crate::title::is_titled;
use vstd::prelude::*;

verus! {

/// The ending of the names of HTML files.
pub const HTML: &'static str = "html";

/// The other ending of the names of HTML files.
pub const HTM: &'static str = "htm";

/// An entry of a directory.
#[derive(Debug)]
pub struct DirEntry {
    id: usize,
    path: String,
    is_dir: bool,
    extension: Option<String>,
}

/// An entry of a directory: the number by which whoever reads the directories finds it
/// again, its path, whether it is a directory, and the extension of its path.
pub struct DirEntryView {
    pub id: usize,
    pub path: Seq<char>,
    pub is_dir: bool,
    pub extension: Option<Seq<char>>,
}

impl View for DirEntry {
    type V = DirEntryView;

    closed spec fn view(&self) -> DirEntryView {
        DirEntryView {
            id: self.id,
            path: self.path@,
            is_dir: self.is_dir,
            extension: optional_text(self.extension),
        }
    }
}

impl DirEntryView {
    /// The extension is that of the path.
    pub open spec fn well_formed(self) -> bool {
        is_extension_of(self.path, self.extension)
    }
}

impl DirEntry {
    #[verifier::type_invariant]
    spec fn has_the_extension_of_its_path(self) -> bool {
        self@.well_formed()
    }

    /// The entry at `path`.
    pub fn new(id: usize, path: String, is_dir: bool) -> (entry: DirEntry)
        ensures
            entry@.id == id,
            entry@.path == path@,
            entry@.is_dir == is_dir,
            entry@.well_formed(),
    {
        let extension: Option<String> = path_extension(path.as_str());
        DirEntry { id, path, is_dir, extension }
    }
}

/// The entries that the vector holds.
pub open spec fn entries_of(entries: Seq<DirEntry>) -> Seq<DirEntryView> {
    entries.map_values(|e: DirEntry| e@)
}

/// Whether a name with this extension is that of an HTML file.
pub open spec fn is_html_extension(extension: Option<Seq<char>>) -> bool {
    match extension {
        Some(extension) => extension == HTML@ || extension == HTM@,
        None => false,
    }
}

fn has_html_extension(extension: &Option<String>) -> (yes: bool)
    ensures
        yes == is_html_extension(optional_text(*extension)),
{
    match extension {
        Some(extension) => *extension == HTML.to_owned() || *extension == HTM.to_owned(),
        None => false,
    }
}

/// What happened outside the walk.
#[derive(Debug)]
pub enum ScanEvent {
    /// The walk begins at this path.
    Begin { root: DirEntry },
    /// A directory was read, and has these entries.
    Listed { entries: Vec<DirEntry> },
    /// A directory could not be read.
    ListingFailed,
    /// A file was looked at and read.
    Read { facts: FileFacts },
}

/// What to do for the walk.
#[derive(Debug, PartialEq, Eq, Structural, Clone, Copy)]
pub enum ScanAction {
    /// Read the directory with this number.
    ListDirectory { id: usize },
    /// Look at the file with this number and read it.
    ReadFile { id: usize },
    /// Nothing: the walk is over.
    Finish,
    /// Give up: a directory could not be read.
    Fail,
}

/// The texts and numbers of a `ScanEvent`.
pub enum ScanEventView {
    Begin { root: DirEntryView },
    Listed { entries: Seq<DirEntryView> },
    ListingFailed,
    Read { facts: FileFactsView },
}

impl View for ScanEvent {
    type V = ScanEventView;

    open spec fn view(&self) -> ScanEventView {
        match self {
            ScanEvent::Begin { root } => ScanEventView::Begin { root: root@ },
            ScanEvent::Listed { entries } => ScanEventView::Listed {
                entries: entries_of(entries@),
            },
            ScanEvent::ListingFailed => ScanEventView::ListingFailed,
            ScanEvent::Read { facts } => ScanEventView::Read { facts: facts@ },
        }
    }
}

/// A walk under way.
#[derive(Debug)]
pub struct Scan {
    pending: Vec<DirEntry>,
    reading: Option<String>,
    html_files: Vec<HtmlFile>,
}

/// Where a walk stands: the entries still to visit, the next one last; the file that is
/// being read; and the HTML files found so far.
pub struct ScanView {
    pub pending: Seq<DirEntryView>,
    pub reading: Option<Seq<char>>,
    pub html_files: Seq<HtmlFileView>,
}

impl View for Scan {
    type V = ScanView;

    closed spec fn view(&self) -> ScanView {
        ScanView {
            pending: entries_of(self.pending@),
            reading: optional_text(self.reading),
            html_files: files_of(self.html_files@),
        }
    }
}

impl ScanView {
    /// The walk that has not begun.
    pub open spec fn new() -> ScanView {
        ScanView { pending: Seq::empty(), reading: None, html_files: Seq::empty() }
    }

    /// The walk after `event`, before the next step is chosen.
    pub open spec fn told(self, event: ScanEventView) -> ScanView {
        match event {
            ScanEventView::Begin { root } => ScanView {
                pending: if root.is_dir {
                    self.pending.push(root)
                } else {
                    self.pending
                },
                reading: None,
                ..self
            },
            ScanEventView::Listed { entries } => ScanView {
                pending: self.pending + entries.reverse(),
                reading: None,
                ..self
            },
            ScanEventView::ListingFailed => ScanView { reading: None, ..self },
            ScanEventView::Read { facts } => ScanView {
                html_files: match self.reading {
                    Some(path) => match described(path, facts) {
                        Some(file) => self.html_files.push(file),
                        None => self.html_files,
                    },
                    None => self.html_files,
                },
                reading: None,
                ..self
            },
        }
    }

    /// The walk after the next step is chosen, and that step: the next entry that is a
    /// directory or an HTML file; other entries are passed over.
    pub open spec fn advanced(self) -> (ScanView, ScanAction)
        decreases self.pending.len(),
    {
        if self.pending.len() == 0 {
            (self, ScanAction::Finish)
        } else {
            let entry = self.pending.last();
            let rest = ScanView { pending: self.pending.drop_last(), ..self };
            if entry.is_dir {
                (rest, ScanAction::ListDirectory { id: entry.id })
            } else if is_html_extension(entry.extension) {
                (
                    ScanView { reading: Some(entry.path), ..rest },
                    ScanAction::ReadFile { id: entry.id },
                )
            } else {
                rest.advanced()
            }
        }
    }

    /// The walk after `event`, and what to do next.
    pub open spec fn step(self, event: ScanEventView) -> (ScanView, ScanAction) {
        if event is ListingFailed {
            (self.told(event), ScanAction::Fail)
        } else {
            self.told(event).advanced()
        }
    }
}

/// Whether a file that was read and found is titled as the text of its title element says.
pub open spec fn titles_are_settled(
    before: ScanView,
    event: ScanEventView,
    after: ScanView,
) -> bool {
    match event {
        ScanEventView::Read { facts } => after.html_files.len() > before.html_files.len()
            ==> is_titled(readable_text(facts)->0, after.html_files.last().title),
        _ => true,
    }
}

impl Scan {
    /// A walk that has not begun.
    pub fn new() -> (scan: Scan)
        ensures
            scan@ == ScanView::new(),
    {
        let scan = Scan { pending: Vec::new(), reading: None, html_files: Vec::new() };
        assert(scan@.pending =~= ScanView::new().pending);
        assert(scan@.html_files =~= ScanView::new().html_files);
        scan
    }

    fn tell(&mut self, event: ScanEvent)
        ensures
            final(self)@ == old(self)@.told(event@),
            titles_are_settled(old(self)@, event@, final(self)@),
    {
        let ghost before = self@;
        let reading: Option<String> = self.reading.take();
        match event {
            ScanEvent::Begin { root } => {
                if root.is_dir {
                    self.pending.push(root);
                    assert(self@.pending =~= before.pending.push(root@));
                }
            },
            ScanEvent::Listed { entries } => {
                let mut entries: Vec<DirEntry> = entries;
                let ghost all = entries_of(entries@);
                let ghost earlier = self.pending@;
                let ghost files = self.html_files@;
                while entries.len() > 0
                    invariant
                        entries@.len() <= all.len(),
                        entries_of(entries@) == all.take(entries@.len() as int),
                        entries_of(self.pending@) == entries_of(earlier) + all.skip(
                            entries@.len() as int,
                        ).reverse(),
                        self.reading is None,
                        self.html_files@ == files,
                    decreases entries@.len(),
                {
                    let ghost n = entries@.len() as int;
                    let ghost so_far = self.pending@;
                    let ghost left = entries@;
                    if let Some(entry) = entries.pop() {
                        self.pending.push(entry);
                        assert(entries_of(left)[n - 1] == all[n - 1]);
                        assert(entries_of(entries@) =~= all.take(n - 1));
                        assert(entries_of(self.pending@) =~= entries_of(so_far).push(all[n - 1]));
                        assert(all.skip(n - 1).reverse() =~= all.skip(n).reverse().push(all[n - 1]));
                    }
                }
                assert(all.skip(0) =~= all);
                assert(self@.pending =~= before.pending + all.reverse());
            },
            ScanEvent::ListingFailed => {},
            ScanEvent::Read { facts } => {
                if let Some(path) = reading {
                    if let Some(file) = describe_file(path, facts) {
                        self.html_files.push(file);
                        assert(self@.html_files =~= before.html_files.push(file@));
                    }
                }
            },
        }
    }

    fn advance(&mut self) -> (action: ScanAction)
        requires
            old(self)@.reading is None,
        ensures
            (final(self)@, action) == old(self)@.advanced(),
            final(self)@.html_files == old(self)@.html_files,
    {
        loop
            invariant
                self@.advanced() == old(self)@.advanced(),
                self@.html_files == old(self)@.html_files,
                self@.reading is None,
            decreases self.pending@.len(),
        {
            let ghost before = self@;
            match self.pending.pop() {
                Some(entry) => {
                    assert(self@.pending =~= before.pending.drop_last());
                    if entry.is_dir {
                        return ScanAction::ListDirectory { id: entry.id };
                    }
                    if has_html_extension(&entry.extension) {
                        self.reading = Some(entry.path);
                        return ScanAction::ReadFile { id: entry.id };
                    }
                },
                None => {
                    return ScanAction::Finish;
                },
            }
        }
    }

    /// The HTML files found by the walk, in the order in which they were found.
    pub fn into_html_files(self) -> (files: Vec<HtmlFile>)
        ensures
            files_of(files@) == self@.html_files,
    {
        self.html_files
    }
}

/// One step of the walk: takes in what happened, and says what to do next.
pub fn scan_directory_recursive(scan: &mut Scan, event: ScanEvent) -> (action: ScanAction)
    ensures
        (final(scan)@, action) == old(scan)@.step(event@),
        titles_are_settled(old(scan)@, event@, final(scan)@),
{
    match event {
        ScanEvent::ListingFailed => {
            scan.tell(event);
            ScanAction::Fail
        },
        _ => {
            scan.tell(event);
            scan.advance()
        },
    }
}

/// A file system that stays as it is while it is walked: the character between the names of
/// its paths; what a directory holds, where it can be read; and what comes of reading a file.
pub struct Disk {
    pub separator: char,
    pub listing: spec_fn(usize) -> Option<Seq<DirEntryView>>,
    pub facts: spec_fn(usize) -> FileFactsView,
}

/// What there is to find below some entries.
pub enum Found {
    /// These HTML files, in the order of the entries, a directory's own files in its place.
    Files(Seq<HtmlFileView>),
    /// Nothing: one of the directories cannot be read.
    Unreadable,
    /// Directories nested more deeply than was asked for.
    TooDeep,
}

impl Disk {
    /// What there is to find below `entries`, in directories nested at most `depth` deep.
    pub open spec fn below(self, entries: Seq<DirEntryView>, depth: nat) -> Found
        decreases depth, entries.len(),
    {
        if entries.len() == 0 {
            Found::Files(Seq::empty())
        } else {
            let entry = entries.first();
            let found = if entry.is_dir {
                if depth == 0 {
                    Found::TooDeep
                } else {
                    match (self.listing)(entry.id) {
                        Some(inner) => self.below(inner, (depth - 1) as nat),
                        None => Found::Unreadable,
                    }
                }
            } else if is_html_extension(entry.extension) {
                match described(entry.path, (self.facts)(entry.id)) {
                    Some(file) => Found::Files(seq![file]),
                    None => Found::Files(Seq::empty()),
                }
            } else {
                Found::Files(Seq::empty())
            };
            match found {
                Found::Files(files) => match self.below(entries.drop_first(), depth) {
                    Found::Files(more) => Found::Files(files + more),
                    other => other,
                },
                other => other,
            }
        }
    }

    /// What comes of doing what the walk asks for.
    pub open spec fn answer(self, action: ScanAction) -> ScanEventView {
        match action {
            ScanAction::ListDirectory { id } => match (self.listing)(id) {
                Some(entries) => ScanEventView::Listed { entries },
                None => ScanEventView::ListingFailed,
            },
            ScanAction::ReadFile { id } => ScanEventView::Read { facts: (self.facts)(id) },
            _ => ScanEventView::ListingFailed,
        }
    }

    /// The walk, and what it asks for, after it was answered `steps` times.
    pub open spec fn run(self, at: (ScanView, ScanAction), steps: nat) -> (ScanView, ScanAction)
        decreases steps,
    {
        if steps == 0 || at.1 is Finish || at.1 is Fail {
            at
        } else {
            self.run(at.0.step(self.answer(at.1)), (steps - 1) as nat)
        }
    }
}

proof fn lemma_run_goes_on(disk: Disk, at: (ScanView, ScanAction), first: nat, second: nat)
    ensures
        disk.run(disk.run(at, first), second) == disk.run(at, first + second),
    decreases first,
{
    if first > 0 && !(at.1 is Finish) && !(at.1 is Fail) {
        lemma_run_goes_on(
            disk,
            at.0.step(disk.answer(at.1)),
            (first - 1) as nat,
            second,
        );
    }
}

proof fn lemma_walk(
    disk: Disk,
    rest: Seq<DirEntryView>,
    entries: Seq<DirEntryView>,
    depth: nat,
    files: Seq<HtmlFileView>,
) -> (steps: nat)
    ensures
        ({
            let start = ScanView {
                pending: rest + entries.reverse(),
                reading: None,
                html_files: files,
            };
            let end = disk.run(start.advanced(), steps);
            match disk.below(entries, depth) {
                Found::Files(found) => end == (ScanView {
                    pending: rest,
                    reading: None,
                    html_files: files + found,
                }).advanced(),
                Found::Unreadable => end.1 is Fail,
                Found::TooDeep => true,
            }
        }),
    decreases depth, entries.len(),
{
    let start = ScanView { pending: rest + entries.reverse(), reading: None, html_files: files };
    if entries.len() == 0 {
        assert(start.pending =~= rest);
        assert(files + Seq::<HtmlFileView>::empty() =~= files);
        0
    } else {
        let entry = entries.first();
        let tail = entries.drop_first();
        let others = rest + tail.reverse();
        assert(start.pending.last() == entry);
        assert(start.pending.drop_last() =~= others);
        let after = ScanView { pending: others, ..start };
        if entry.is_dir {
            let at = (after, ScanAction::ListDirectory { id: entry.id });
            assert(start.advanced() == at);
            match (disk.listing)(entry.id) {
                Some(inner) if depth > 0 => {
                    let next = at.0.step(disk.answer(at.1));
                    assert(next == disk.run(at, 1)) by {
                        reveal_with_fuel(Disk::run, 2);
                    }
                    let first = lemma_walk(disk, others, inner, (depth - 1) as nat, files);
                    lemma_run_goes_on(disk, at, 1, first);
                    match disk.below(inner, (depth - 1) as nat) {
                        Found::Files(found) => {
                            let second = lemma_walk(disk, rest, tail, depth, files + found);
                            lemma_run_goes_on(disk, at, 1 + first, second);
                            match disk.below(tail, depth) {
                                Found::Files(more) => {
                                    assert(files + found + more =~= files + (found + more));
                                },
                                _ => {},
                            }
                            1 + first + second
                        },
                        _ => 1 + first,
                    }
                },
                _ => {
                    reveal_with_fuel(Disk::run, 2);
                    1
                },
            }
        } else if is_html_extension(entry.extension) {
            let at = (
                ScanView { reading: Some(entry.path), ..after },
                ScanAction::ReadFile { id: entry.id },
            );
            assert(start.advanced() == at);
            let found = match described(entry.path, (disk.facts)(entry.id)) {
                Some(file) => seq![file],
                None => Seq::empty(),
            };
            let next = at.0.step(disk.answer(at.1));
            assert(next == disk.run(at, 1)) by {
                reveal_with_fuel(Disk::run, 2);
            }
            assert(at.0.told(disk.answer(at.1)).html_files =~= files + found);
            let second = lemma_walk(disk, rest, tail, depth, files + found);
            lemma_run_goes_on(disk, at, 1, second);
            match disk.below(tail, depth) {
                Found::Files(more) => {
                    assert(files + found + more =~= files + (found + more));
                },
                _ => {},
            }
            1 + second
        } else {
            assert(start.advanced() == after.advanced());
            let second = lemma_walk(disk, rest, tail, depth, files);
            match disk.below(tail, depth) {
                Found::Files(more) => {
                    assert(Seq::<HtmlFileView>::empty() + more =~= more);
                },
                _ => {},
            }
            second
        }
    }
}

/// The walk of a directory finds every HTML file in it and in the directories below it,
/// in the order in which they are listed, and then is over. Where the directory or one
/// below it cannot be read, the walk fails.
pub proof fn law_scan_finds_every_html_file(disk: Disk, root: DirEntryView, depth: nat) -> (steps:
    nat)
    requires
        root.is_dir,
    ensures
        ({
            let start = ScanView::new().step(ScanEventView::Begin { root });
            let end = disk.run(start, steps);
            match disk.below(seq![root], depth) {
                Found::Files(files) => end.1 is Finish && end.0.html_files == files,
                Found::Unreadable => end.1 is Fail,
                Found::TooDeep => true,
            }
        }),
{
    let none = Seq::<DirEntryView>::empty();
    let one = seq![root];
    let steps = lemma_walk(disk, none, one, depth, Seq::empty());
    let start = ScanView::new().told(ScanEventView::Begin { root });
    assert(start.pending =~= none + one.reverse());
    match disk.below(one, depth) {
        Found::Files(files) => {
            assert(Seq::<HtmlFileView>::empty() + files =~= files);
        },
        _ => {},
    }
    steps
}

/// An entry whose path ends with a character that parts no names and `.html` or `.htm` is
/// taken for an HTML file on every platform.
pub proof fn law_html_files_are_known_by_their_ending(
    entry: DirEntryView,
    front: Seq<char>,
    c: char,
)
    requires
        entry.well_formed(),
        !names_a_server(entry.path),
        !is_separator(c),
        c != ':',
        entry.path == front.push(c).push('.') + HTML@ || entry.path == front.push(c).push('.')
            + HTM@,
    ensures
        is_html_extension(entry.extension),
{
    reveal_strlit("html");
    reveal_strlit("htm");
    if entry.path == front.push(c).push('.') + HTML@ {
        law_extension_at_the_end(entry.path, entry.extension, front, c, HTML@);
    } else {
        law_extension_at_the_end(entry.path, entry.extension, front, c, HTM@);
    }
}

/// An entry that is taken for an HTML file has a name that is something followed by `.html` or
/// `.htm`.
pub proof fn law_only_html_files_are_taken(entry: DirEntryView)
    requires
        entry.well_formed(),
        is_html_extension(entry.extension),
        !names_a_server(entry.path),
        is_file_name(last_name(entry.path)),
        is_file_name(last_name_on_a_drive(entry.path)),
    ensures
        exists|front: Seq<char>|
            front.len() > 0 && front.last() != '/' && (entry.path == #[trigger] front.push('.')
                + HTML@ || entry.path == front.push('.') + HTM@),
{
    law_path_ends_with_its_extension(entry.path, entry.extension->0);
    let front = choose|front: Seq<char>|
        front.len() > 0 && front.last() != '/' && entry.path == #[trigger] front.push('.')
            + entry.extension->0;
    assert(entry.path == front.push('.') + HTML@ || entry.path == front.push('.') + HTM@);
}

impl Disk {
    /// Whether the path is one in the directory `dir`, or in a directory below it.
    pub open spec fn lies_below(self, path: Seq<char>, dir: Seq<char>) -> bool {
        &&& path.len() > dir.len()
        &&& path.take(dir.len() as int) == dir
        &&& path[dir.len() as int] == self.separator
    }

    /// Whether the entries of a directory, and of the directories below it to the depth
    /// `depth`, have paths that are made of the path of their directory, a separator, and
    /// a name that no other entry of the directory has. The path `dir` has no separator at its
    /// end.
    pub open spec fn well_named(
        self,
        dir: Seq<char>,
        entries: Seq<DirEntryView>,
        depth: nat,
    ) -> bool
        decreases depth,
    {
        &&& forall|i: int|
            0 <= i < entries.len() ==> self.lies_below((#[trigger] entries[i]).path, dir)
                && !entries[i].path.skip(dir.len() as int + 1).contains(self.separator)
        &&& forall|i: int, j: int|
            0 <= i < entries.len() && 0 <= j < entries.len() && i != j ==> (
            #[trigger] entries[i]).path != (#[trigger] entries[j]).path
        &&& depth > 0 ==> forall|i: int|
            0 <= i < entries.len() && (#[trigger] entries[i]).is_dir ==> match (self.listing)(
                entries[i].id,
            ) {
                Some(inner) => self.well_named(entries[i].path, inner, (depth - 1) as nat),
                None => true,
            }
    }

    /// The directory that is reached from `entries` by taking, in turn, the entries at the
    /// positions `route`.
    pub open spec fn reached(self, entries: Seq<DirEntryView>, route: Seq<int>) -> Option<
        DirEntryView,
    >
        decreases route.len(),
    {
        if route.len() == 0 || !(0 <= route.first() < entries.len())
            || !entries[route.first()].is_dir {
            None
        } else if route.len() == 1 {
            Some(entries[route.first()])
        } else {
            match (self.listing)(entries[route.first()].id) {
                Some(inner) => self.reached(inner, route.drop_first()),
                None => None,
            }
        }
    }
}

/// What is found below some entries is what is found at each of them.
proof fn lemma_below_splits(disk: Disk, entries: Seq<DirEntryView>, depth: nat, n: int)
    requires
        0 <= n <= entries.len(),
        disk.below(entries, depth) is Files,
    ensures
        disk.below(entries.take(n), depth) is Files,
        disk.below(entries.skip(n), depth) is Files,
        disk.below(entries, depth)->Files_0 == disk.below(entries.take(n), depth)->Files_0
            + disk.below(entries.skip(n), depth)->Files_0,
    decreases entries.len(),
{
    let none = Seq::<HtmlFileView>::empty();
    if n == 0 {
        assert(entries.take(0) =~= Seq::empty());
        assert(entries.skip(0) =~= entries);
        let files = disk.below(entries, depth)->Files_0;
        assert(none + files =~= files);
    } else {
        let tail = entries.drop_first();
        lemma_below_splits(disk, tail, depth, n - 1);
        assert(entries.take(n).drop_first() =~= tail.take(n - 1));
        assert(entries.skip(n) =~= tail.skip(n - 1));
        assert(entries.take(n).first() == entries.first());
        let one = disk.below(entries.take(n), depth)->Files_0;
        let two = disk.below(entries.skip(n), depth)->Files_0;
        assert(disk.below(entries, depth)->Files_0 =~= one + two);
    }
}

/// The files found below the entries of a directory are at the entries' own paths or lie
/// below them.
proof fn lemma_found_below_an_entry(
    disk: Disk,
    dir: Seq<char>,
    entries: Seq<DirEntryView>,
    depth: nat,
    file: HtmlFileView,
) -> (i: int)
    requires
        disk.well_named(dir, entries, depth),
        disk.below(entries, depth) is Files,
        disk.below(entries, depth)->Files_0.contains(file),
    ensures
        0 <= i < entries.len(),
        file.path == entries[i].path || disk.lies_below(file.path, entries[i].path),
    decreases depth, entries.len(),
{
    let files = disk.below(entries, depth)->Files_0;
    let k = choose|k: int| 0 <= k < files.len() && files[k] == file;
    assert(entries.len() > 0);
    let entry = entries.first();
    let tail = entries.drop_first();
    let more = disk.below(tail, depth)->Files_0;
    let here = files.len() - more.len();
    if k >= here {
        assert(more[k - here] == file);
        assert(more.contains(file));
        assert forall|i: int| 0 <= i < tail.len() implies #[trigger] tail[i] == entries[i + 1] by {}
        let i = lemma_found_below_an_entry(disk, dir, tail, depth, file);
        i + 1
    } else {
        assert(entries[0] == entry);
        if entry.is_dir {
            let inner = (disk.listing)(entry.id)->0;
            let found = disk.below(inner, (depth - 1) as nat)->Files_0;
            assert(found[k] == file);
            assert(found.contains(file));
            let i = lemma_found_below_an_entry(disk, entry.path, inner, (depth - 1) as nat, file);
            let sub = inner[i].path;
            assert(disk.well_named(entry.path, inner, (depth - 1) as nat));
            assert(disk.lies_below(inner[i].path, entry.path));
            if file.path != sub {
                lemma_lies_below_trans(disk, file.path, sub, entry.path);
            }
            assert(disk.lies_below(file.path, entry.path));
        }
        0
    }
}

/// A path cannot lie at or below two entries of a directory.
proof fn lemma_entries_are_apart(
    disk: Disk,
    dir: Seq<char>,
    entries: Seq<DirEntryView>,
    depth: nat,
    i: int,
    j: int,
    path: Seq<char>,
)
    requires
        disk.well_named(dir, entries, depth),
        0 <= i < entries.len(),
        0 <= j < entries.len(),
        disk.lies_below(path, entries[i].path),
        path == entries[j].path || disk.lies_below(path, entries[j].path),
    ensures
        i == j,
{
    let a = entries[i].path;
    let b = entries[j].path;
    let start = dir.len() as int + 1;
    assert(path.take(a.len() as int) == a);
    assert(path.take(b.len() as int) =~= b);
    assert(disk.lies_below(a, dir) && disk.lies_below(b, dir));
    if b.len() > a.len() {
        assert(b[a.len() as int] == path[a.len() as int]);
        assert(b.skip(start)[a.len() - start] == disk.separator);
    } else if b.len() < a.len() {
        assert(a[b.len() as int] == path[b.len() as int]);
        assert(a.skip(start)[b.len() - start] == disk.separator);
    } else {
        assert(a == b);
    }
}

proof fn lemma_filter_all(files: Seq<HtmlFileView>, p: spec_fn(HtmlFileView) -> bool, all: bool)
    requires
        forall|i: int| 0 <= i < files.len() ==> p(#[trigger] files[i]) == all,
    ensures
        files.filter(p) == (if all {
            files
        } else {
            Seq::empty()
        }),
    decreases files.len(),
{
    reveal(Seq::filter);
    if files.len() > 0 {
        let head = files.drop_last();
        assert forall|i: int| 0 <= i < head.len() implies p(#[trigger] head[i]) == all by {
            assert(p(files[i]) == all);
        }
        lemma_filter_all(head, p, all);
        assert(p(files[files.len() - 1]) == all);
        assert(files =~= head.push(files.last()));
    }
    assert(files.filter(p) =~= (if all {
        files
    } else {
        Seq::empty()
    }));
}

/// What is found below some entries is what is found before a directory among them, in it,
/// and after it.
proof fn lemma_below_a_directory(disk: Disk, entries: Seq<DirEntryView>, depth: nat, i: int)
    requires
        disk.below(entries, depth) is Files,
        0 <= i < entries.len(),
        entries[i].is_dir,
    ensures
        ({
            let before = disk.below(entries.take(i), depth);
            let after = disk.below(entries.skip(i + 1), depth);
            let inner = disk.below((disk.listing)(entries[i].id)->0, (depth - 1) as nat);
            &&& depth > 0
            &&& (disk.listing)(entries[i].id) is Some
            &&& before is Files
            &&& after is Files
            &&& inner is Files
            &&& disk.below(entries, depth)->Files_0 == before->Files_0 + (inner->Files_0
                + after->Files_0)
        }),
{
    let from = entries.skip(i);
    lemma_below_splits(disk, entries, depth, i);
    assert(from.first() == entries[i]);
    assert(from.drop_first() =~= entries.skip(i + 1));
}

/// What is found below other entries of a directory than the one at `i` does not lie below
/// that one.
proof fn lemma_found_elsewhere(
    disk: Disk,
    dir: Seq<char>,
    entries: Seq<DirEntryView>,
    depth: nat,
    i: int,
    from: int,
    to: int,
    sub: Seq<char>,
)
    requires
        disk.well_named(dir, entries, depth),
        0 <= i < entries.len(),
        0 <= from <= to <= entries.len(),
        i < from || to <= i,
        disk.below(entries.subrange(from, to), depth) is Files,
        sub == entries[i].path || disk.lies_below(sub, entries[i].path),
    ensures
        disk.below(entries.subrange(from, to), depth)->Files_0.filter(
            |f: HtmlFileView| disk.lies_below(f.path, sub),
        ) == Seq::<HtmlFileView>::empty(),
{
    let part = entries.subrange(from, to);
    let files = disk.below(part, depth)->Files_0;
    let in_sub = |f: HtmlFileView| disk.lies_below(f.path, sub);
    assert forall|j: int| 0 <= j < part.len() implies #[trigger] part[j] == entries[from + j] by {}
    assert(disk.well_named(dir, part, depth));
    assert forall|k: int| 0 <= k < files.len() implies in_sub(#[trigger] files[k]) == false by {
        assert(files.contains(files[k]));
        let j = lemma_found_below_an_entry(disk, dir, part, depth, files[k]);
        assert(part[j] == entries[from + j]);
        if in_sub(files[k]) {
            lemma_lies_below_trans(disk, files[k].path, sub, entries[i].path);
            lemma_entries_are_apart(disk, dir, entries, depth, i, from + j, files[k].path);
        }
    }
    lemma_filter_all(files, in_sub, false);
}

/// The files found below the directory at `i` are those, of the files found below all
/// entries, that lie below it; and so it is of any directory below that one.
proof fn lemma_part_of_the_files(
    disk: Disk,
    dir: Seq<char>,
    entries: Seq<DirEntryView>,
    depth: nat,
    i: int,
    sub: Seq<char>,
)
    requires
        disk.well_named(dir, entries, depth),
        disk.below(entries, depth) is Files,
        0 <= i < entries.len(),
        entries[i].is_dir,
        sub == entries[i].path || disk.lies_below(sub, entries[i].path),
    ensures
        disk.below(entries, depth)->Files_0.filter(|f: HtmlFileView| disk.lies_below(f.path, sub))
            == disk.below(
            (disk.listing)(entries[i].id)->0,
            (depth - 1) as nat,
        )->Files_0.filter(|f: HtmlFileView| disk.lies_below(f.path, sub)),
{
    let in_sub = |f: HtmlFileView| disk.lies_below(f.path, sub);
    let last = entries.len() as int;
    lemma_below_a_directory(disk, entries, depth, i);
    let a = disk.below(entries.take(i), depth)->Files_0;
    let b = disk.below(entries.skip(i + 1), depth)->Files_0;
    let u = disk.below((disk.listing)(entries[i].id)->0, (depth - 1) as nat)->Files_0;
    assert(entries.subrange(0, i) =~= entries.take(i));
    assert(entries.subrange(i + 1, last) =~= entries.skip(i + 1));
    lemma_found_elsewhere(disk, dir, entries, depth, i, 0, i, sub);
    lemma_found_elsewhere(disk, dir, entries, depth, i, i + 1, last, sub);
    Seq::filter_distributes_over_add(a, u + b, in_sub);
    Seq::filter_distributes_over_add(u, b, in_sub);
    assert((a + (u + b)).filter(in_sub) =~= u.filter(in_sub));
}

/// All files found below the entries of a directory lie below it.
proof fn lemma_all_lie_below(disk: Disk, dir: Seq<char>, entries: Seq<DirEntryView>, depth: nat)
    requires
        disk.well_named(dir, entries, depth),
        disk.below(entries, depth) is Files,
    ensures
        disk.below(entries, depth)->Files_0.filter(|f: HtmlFileView| disk.lies_below(f.path, dir))
            == disk.below(entries, depth)->Files_0,
{
    let files = disk.below(entries, depth)->Files_0;
    let in_dir = |f: HtmlFileView| disk.lies_below(f.path, dir);
    assert forall|k: int| 0 <= k < files.len() implies in_dir(#[trigger] files[k]) == true by {
        assert(files.contains(files[k]));
        let j = lemma_found_below_an_entry(disk, dir, entries, depth, files[k]);
        assert(disk.lies_below(entries[j].path, dir));
        if files[k].path != entries[j].path {
            lemma_lies_below_trans(disk, files[k].path, entries[j].path, dir);
        }
    }
    lemma_filter_all(files, in_dir, true);
}

/// The walk of a directory below another one finds exactly those files of the outer walk
/// that lie below it, and in the same order.
pub proof fn law_scan_of_a_subdirectory(
    disk: Disk,
    dir: Seq<char>,
    entries: Seq<DirEntryView>,
    depth: nat,
    route: Seq<int>,
)
    requires
        disk.well_named(dir, entries, depth),
        disk.below(entries, depth) is Files,
        disk.reached(entries, route) is Some,
    ensures
        ({
            let sub = disk.reached(entries, route)->0;
            &&& route.len() <= depth
            &&& (disk.listing)(sub.id) is Some
            &&& disk.below((disk.listing)(sub.id)->0, (depth - route.len()) as nat)
                == Found::Files(
                disk.below(entries, depth)->Files_0.filter(
                    |f: HtmlFileView| disk.lies_below(f.path, sub.path),
                ),
            )
        }),
    decreases route.len(),
{
    let i = route.first();
    let entry = entries[i];
    let sub = disk.reached(entries, route)->0;
    let inner = (disk.listing)(entry.id)->0;
    let less = (depth - 1) as nat;
    lemma_below_a_directory(disk, entries, depth, i);
    assert(disk.well_named(entry.path, inner, less)) by {
        assert(entries[i].is_dir);
    }
    if route.len() > 1 {
        lemma_reached_lies_below(disk, entry.path, inner, less, route.drop_first());
    }
    lemma_part_of_the_files(disk, dir, entries, depth, i, sub.path);
    if route.len() == 1 {
        lemma_all_lie_below(disk, entry.path, inner, less);
    } else {
        law_scan_of_a_subdirectory(disk, entry.path, inner, less, route.drop_first());
    }
}

/// The sorted list of a directory below another one is the part of the outer list that lies
/// below it: every file of the one stands in the other with the same path, title, time, size
/// and hash, and in the same order.
pub proof fn law_sorted_scan_of_a_subdirectory(
    disk: Disk,
    dir: Seq<char>,
    entries: Seq<DirEntryView>,
    depth: nat,
    route: Seq<int>,
    outer: Seq<HtmlFileView>,
    inner: Seq<HtmlFileView>,
)
    requires
        disk.well_named(dir, entries, depth),
        disk.below(entries, depth) is Files,
        disk.reached(entries, route) is Some,
        is_sorted_scan(disk.below(entries, depth)->Files_0, outer),
        is_sorted_scan(
            disk.below(
                (disk.listing)(disk.reached(entries, route)->0.id)->0,
                (depth - route.len()) as nat,
            )->Files_0,
            inner,
        ),
    ensures
        inner == outer.filter(
            |f: HtmlFileView| disk.lies_below(f.path, disk.reached(entries, route)->0.path),
        ),
{
    let sub = disk.reached(entries, route)->0;
    let in_sub = |f: HtmlFileView| disk.lies_below(f.path, sub.path);
    let found = disk.below(entries, depth)->Files_0;
    law_scan_of_a_subdirectory(disk, dir, entries, depth, route);
    law_sorting_keeps_to_the_chosen_files(found, outer, in_sub);
    law_sorted_scan_is_unique(found.filter(in_sub), inner, outer.filter(in_sub));
}

proof fn lemma_lies_below_trans(disk: Disk, a: Seq<char>, b: Seq<char>, c: Seq<char>)
    requires
        disk.lies_below(a, b),
        b == c || disk.lies_below(b, c),
    ensures
        disk.lies_below(a, c),
{
    assert(a.take(b.len() as int) == b);
    assert forall|m: int| 0 <= m < b.len() implies #[trigger] b[m] == a[m] by {
        assert(a.take(b.len() as int)[m] == a[m]);
    }
    if b != c {
        assert(a.take(c.len() as int) =~= b.take(c.len() as int));
    }
}

proof fn lemma_reached_lies_below(
    disk: Disk,
    dir: Seq<char>,
    entries: Seq<DirEntryView>,
    depth: nat,
    route: Seq<int>,
)
    requires
        disk.well_named(dir, entries, depth),
        disk.below(entries, depth) is Files,
        disk.reached(entries, route) is Some,
    ensures
        disk.lies_below(disk.reached(entries, route)->0.path, dir),
    decreases route.len(),
{
    let i = route.first();
    let entry = entries[i];
    assert(disk.lies_below(entries[i].path, dir));
    if route.len() > 1 {
        lemma_below_splits(disk, entries, depth, i);
        assert(entries.skip(i).first() == entry);
        let inner = (disk.listing)(entry.id)->0;
        lemma_reached_lies_below(disk, entry.path, inner, (depth - 1) as nat, route.drop_first());
        lemma_lies_below_trans(disk, disk.reached(entries, route)->0.path, entry.path, dir);
    }
}

/// A path that is no directory is not walked: nothing is found there.
pub proof fn law_scan_of_a_file_finds_nothing(root: DirEntryView)
    requires
        !root.is_dir,
    ensures
        ScanView::new().step(ScanEventView::Begin { root }) == (
            ScanView::new(),
            ScanAction::Finish,
        ),
{
}

/// A file is taken for an HTML file if its extension is `html` or `htm`, and for no other
/// extension.
pub proof fn law_html_extensions(extension: Seq<char>)
    ensures
        is_html_extension(Some("html"@)),
        is_html_extension(Some("htm"@)),
        extension != "html"@ && extension != "htm"@ ==> !is_html_extension(Some(extension)),
        !is_html_extension(None),
{
}

/// The walk goes on with the entry that is next: a directory is listed, an HTML file is read,
/// and anything else is passed over. Where no entry is left, the walk ends.
pub proof fn law_next_entry_of_the_walk(scan: ScanView)
    ensures
        scan.pending.len() == 0 ==> scan.advanced() == (scan, ScanAction::Finish),
        scan.pending.len() > 0 ==> ({
            let entry = scan.pending.last();
            let rest = ScanView { pending: scan.pending.drop_last(), ..scan };
            let is_html = entry.extension == Some("html"@) || entry.extension == Some("htm"@);
            &&& entry.is_dir ==> scan.advanced() == (
                rest,
                ScanAction::ListDirectory { id: entry.id },
            )
            &&& !entry.is_dir && is_html ==> scan.advanced() == (
                ScanView { reading: Some(entry.path), ..rest },
                ScanAction::ReadFile { id: entry.id },
            )
            &&& !entry.is_dir && !is_html ==> scan.advanced() == rest.advanced()
        }),
{
    reveal_with_fuel(ScanView::advanced, 2);
}

/// What the walk does with what it is told: it begins at a directory only; the entries of a
/// directory come next, the first of them first; a file that was read is found, unless too
/// little is known of it; and where a directory cannot be read the walk fails.
pub proof fn law_walk_follows_what_it_is_told(
    scan: ScanView,
    root: DirEntryView,
    entries: Seq<DirEntryView>,
    facts: FileFactsView,
)
    ensures
        ({
            let begun = scan.told(ScanEventView::Begin { root });
            &&& begun.html_files == scan.html_files
            &&& begun.reading is None
            &&& root.is_dir ==> begun.pending == scan.pending.push(root)
            &&& !root.is_dir ==> begun.pending == scan.pending
        }),
        ({
            let listed = scan.told(ScanEventView::Listed { entries });
            &&& listed.html_files == scan.html_files
            &&& listed.reading is None
            &&& listed.pending.len() == scan.pending.len() + entries.len()
            &&& listed.pending.take(scan.pending.len() as int) == scan.pending
            &&& forall|i: int|
                0 <= i < entries.len() ==> listed.pending[listed.pending.len() - 1 - i]
                    == #[trigger] entries[i]
        }),
        ({
            let read = scan.told(ScanEventView::Read { facts });
            &&& read.pending == scan.pending
            &&& read.reading is None
            &&& scan.reading is None ==> read.html_files == scan.html_files
            &&& scan.reading matches Some(path) ==> match described(path, facts) {
                Some(file) => read.html_files == scan.html_files.push(file),
                None => read.html_files == scan.html_files,
            }
        }),
        ({
            let (failed, action) = scan.step(ScanEventView::ListingFailed);
            &&& action == ScanAction::Fail
            &&& failed.html_files == scan.html_files
            &&& failed.pending == scan.pending
        }),
        scan.step(ScanEventView::Begin { root }) == scan.told(
            ScanEventView::Begin { root },
        ).advanced(),
        scan.step(ScanEventView::Listed { entries }) == scan.told(
            ScanEventView::Listed { entries },
        ).advanced(),
        scan.step(ScanEventView::Read { facts }) == scan.told(
            ScanEventView::Read { facts },
        ).advanced(),
        ScanView::new().pending.len() == 0,
        ScanView::new().html_files.len() == 0,
        ScanView::new().reading is None,
{
    let listed = scan.told(ScanEventView::Listed { entries });
    assert(listed.pending.take(scan.pending.len() as int) =~= scan.pending);
}

/// What the walk is told is taken as it is.
pub proof fn law_values_of_scan_events(
    root: DirEntry,
    entries: Vec<DirEntry>,
    facts: FileFacts,
    i: int,
)
    ensures
        (ScanEvent::Begin { root })@ == (ScanEventView::Begin { root: root@ }),
        (ScanEvent::Listed { entries })@ == (ScanEventView::Listed {
            entries: entries_of(entries@),
        }),
        ScanEvent::ListingFailed@ == ScanEventView::ListingFailed,
        (ScanEvent::Read { facts })@ == (ScanEventView::Read { facts: facts@ }),
        entries_of(entries@).len() == entries@.len(),
        0 <= i < entries@.len() ==> entries_of(entries@)[i] == entries@[i]@,
{
}

/// What there is to find below some entries is what there is to find at each of them, in their
/// order: at a directory, what there is below its own entries; at an HTML file, the file,
/// unless too little is known of it; and at anything else nothing.
pub proof fn law_what_there_is_to_find(
    disk: Disk,
    entries: Seq<DirEntryView>,
    entry: DirEntryView,
    depth: nat,
    n: int,
)
    ensures
        0 <= n <= entries.len() && disk.below(entries, depth) is Files ==> {
            &&& disk.below(entries.take(n), depth) is Files
            &&& disk.below(entries.skip(n), depth) is Files
            &&& disk.below(entries, depth)->Files_0 == disk.below(entries.take(n), depth)->Files_0
                + disk.below(entries.skip(n), depth)->Files_0
        },
        disk.below(Seq::empty(), depth) == Found::Files(Seq::empty()),
        entry.is_dir && depth > 0 ==> match (disk.listing)(entry.id) {
            Some(inner) => disk.below(seq![entry], depth) == disk.below(inner, (depth - 1) as nat),
            None => disk.below(seq![entry], depth) is Unreadable,
        },
        !entry.is_dir && (entry.extension == Some("html"@) || entry.extension == Some("htm"@))
            ==> disk.below(seq![entry], depth) == Found::Files(
            match described(entry.path, (disk.facts)(entry.id)) {
                Some(file) => seq![file],
                None => Seq::empty(),
            },
        ),
        !entry.is_dir && entry.extension != Some("html"@) && entry.extension != Some("htm"@)
            ==> disk.below(seq![entry], depth) == Found::Files(Seq::empty()),
{
    let none = Seq::<HtmlFileView>::empty();
    if 0 <= n <= entries.len() && disk.below(entries, depth) is Files {
        lemma_below_splits(disk, entries, depth, n);
    }
    let one = seq![entry];
    assert(one.drop_first() =~= Seq::empty());
    assert(disk.below(Seq::empty(), depth) == Found::Files(none));
    if entry.is_dir && depth > 0 {
        if let Some(inner) = (disk.listing)(entry.id) {
            if let Found::Files(files) = disk.below(inner, (depth - 1) as nat) {
                assert(files + none =~= files);
            }
        }
    } else if !entry.is_dir {
        if let Some(file) = described(entry.path, (disk.facts)(entry.id)) {
            assert(seq![file] + none =~= seq![file]);
        }
        assert(none + none =~= none);
    }
}

} // verus!
