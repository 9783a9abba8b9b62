//! The bounded scan that builds the search snapshot, as a state machine: the caller
//! reads directories and hands each entry over; the scanner decides what becomes an
//! item, which directories are walked next, and when the entry limit ends the scan.
//!
//! The walk is breadth first, from the roots in order, never follows symbolic links,
//! and does not descend into a directory that is itself another configured root.

use vstd::prelude::*;
use crate::domain::{ItemKind, SearchItem};
use crate::path::{paths_equal, same_path};
use crate::text::{chars_of, copy_bytes};

verus! {

/// What to scan.
#[derive(Clone, Debug)]
pub struct ScanOptions {
    pub roots: Vec<Vec<u8>>,
    pub include_hidden: bool,
    pub max_entries: usize,
}

/// The default budget of a scan.
pub const DEFAULT_MAX_ENTRIES: usize = 250000;

impl Default for ScanOptions {
    fn default() -> (options: ScanOptions)
        ensures
            options.roots@.len() == 0,
            !options.include_hidden,
            options.max_entries == DEFAULT_MAX_ENTRIES,
    {
        ScanOptions { roots: Vec::new(), include_hidden: false, max_entries: DEFAULT_MAX_ENTRIES }
    }
}

/// What a scan found.
#[derive(Debug)]
pub struct ScanReport {
    pub items: Vec<SearchItem>,
    pub scanned_directories: Vec<Vec<u8>>,
    pub skipped_paths: usize,
    pub truncated: bool,
}

impl Default for ScanReport {
    fn default() -> (report: ScanReport)
        ensures
            report.items@.len() == 0,
            report.scanned_directories@.len() == 0,
            report.skipped_paths == 0,
            !report.truncated,
    {
        ScanReport { items: Vec::new(), scanned_directories: Vec::new(), skipped_paths: 0, truncated: false }
    }
}

/// The type of a directory entry, as far as the scan cares.
#[derive(Clone, Copy, Debug, PartialEq, Eq, Structural)]
pub enum EntryType {
    Directory,
    File,
    /// A symbolic link or a special file.
    Other,
}

/// One directory entry as the file system reported it.
pub struct DirEntryInfo {
    pub path: Vec<u8>,
    /// The file name, read as text.
    pub name: String,
    /// The stable identity of the path.
    pub id: u64,
    /// Its type, or `None` where it could not be read.
    pub file_type: Option<EntryType>,
}

/// One step of reading a directory.
pub enum ScanEntry {
    /// The entry itself could not be read.
    Unreadable,
    Entry(DirEntryInfo),
}

/// A name that starts with a dot.
pub open spec fn hidden_name(name: Seq<char>) -> bool {
    name.len() > 0 && name[0] == '.'
}

/// The state of a scan in progress.
struct ScanState {
    options: ScanOptions,
    report: ScanReport,
    /// Directories to walk, each with the index of the root it came from; those before
    /// `head` were handed out already.
    pending: Vec<(usize, Vec<u8>)>,
    head: usize,
    /// The root that the directory being read came from.
    origin: usize,
}

/// `path` is a configured root other than the one at `origin`.
pub open spec fn another_root(roots: Seq<Vec<u8>>, origin: int, path: Seq<u8>) -> bool {
    exists|i: int| 0 <= i < roots.len() && i != origin && same_path(roots[i]@, path)
}

/// `p` is one of the configured roots, or the path of a directory the scan listed.
pub open spec fn root_or_listed(roots: Seq<Vec<u8>>, items: Seq<SearchItem>, p: Seq<u8>) -> bool {
    ||| exists|j: int| 0 <= j < roots.len() && #[trigger] roots[j]@ == p
    ||| exists|k: int|
        0 <= k < items.len() && (#[trigger] items[k]).kind == ItemKind::Directory && items[k].path@ == p
}

/// Listing another item keeps every root and listed directory what it was.
proof fn lemma_listed_grows(roots: Seq<Vec<u8>>, items: Seq<SearchItem>, x: SearchItem, p: Seq<u8>)
    requires
        root_or_listed(roots, items, p),
    ensures
        root_or_listed(roots, items.push(x), p),
{
    if !(exists|j: int| 0 <= j < roots.len() && #[trigger] roots[j]@ == p) {
        let k = choose|k: int|
            0 <= k < items.len() && (#[trigger] items[k]).kind == ItemKind::Directory && items[k].path@ == p;
        assert(items.push(x)[k] == items[k]);
    }
}

impl ScanState {
    /// What every state of the scan keeps: no more items than the budget, truncation
    /// only at the budget, only files and directories, hidden items only where they
    /// were asked for and only under hidden names, and every directory pending or
    /// scanned is a root or a directory the scan listed.
    spec fn well_formed(&self) -> bool {
        &&& self.head <= self.pending@.len()
        &&& self.report.items@.len() <= self.options.max_entries
        &&& self.report.truncated ==> self.report.items@.len() == self.options.max_entries
        &&& forall|i: int|
            0 <= i < self.report.items@.len() ==> {
                let item = #[trigger] self.report.items@[i];
                &&& (item.kind == ItemKind::File || item.kind == ItemKind::Directory)
                &&& item.hidden == hidden_name(item.name@)
                &&& item.hidden ==> self.options.include_hidden
            }
        &&& forall|i: int|
            0 <= i < self.pending@.len() ==> root_or_listed(
                self.options.roots@,
                self.report.items@,
                #[trigger] self.pending@[i].1@,
            )
        &&& forall|i: int|
            0 <= i < self.report.scanned_directories@.len() ==> root_or_listed(
                self.options.roots@,
                self.report.items@,
                #[trigger] self.report.scanned_directories@[i]@,
            )
    }

    /// Starts a scan: every root is pending, in order.
    fn new(options: ScanOptions) -> (scanner: ScanState)
        ensures
            scanner.well_formed(),
            scanner.options == options,
            scanner.head == 0,
            scanner.pending@.len() == options.roots@.len(),
            forall|i: int|
                0 <= i < options.roots@.len() ==> (#[trigger] scanner.pending@[i]).0 == i && scanner.pending@[i].1@
                    == options.roots@[i]@,
            scanner.report.items@.len() == 0,
            scanner.report.scanned_directories@.len() == 0,
            scanner.report.skipped_paths == 0,
            !scanner.report.truncated,
    {
        let mut pending: Vec<(usize, Vec<u8>)> = Vec::new();
        let mut i: usize = 0;
        while i < options.roots.len()
            invariant
                i <= options.roots@.len(),
                pending@.len() == i,
                forall|k: int| 0 <= k < i ==> (#[trigger] pending@[k]).0 == k && pending@[k].1@ == options.roots@[k]@,
            decreases options.roots.len() - i,
        {
            pending.push((i, copy_bytes(options.roots[i].as_slice())));
            i += 1;
        }
        assert forall|k: int| 0 <= k < pending@.len() implies root_or_listed(
            options.roots@,
            Seq::<SearchItem>::empty(),
            #[trigger] pending@[k].1@,
        ) by {
            assert(options.roots@[k]@ == pending@[k].1@);
        }
        let report = ScanReport { items: Vec::new(), scanned_directories: Vec::new(), skipped_paths: 0, truncated: false };
        ScanState { options, report, pending, head: 0, origin: 0 }
    }

    /// The next directory to read, in breadth-first order, or `None` when the walk is
    /// over.
    fn next_directory(&mut self) -> (next: Option<Vec<u8>>)
        requires
            old(self).well_formed(),
        ensures
            final(self).well_formed(),
            final(self).options == old(self).options,
            final(self).report == old(self).report,
            final(self).pending == old(self).pending,
            old(self).head < old(self).pending@.len() ==> {
                &&& next matches Some(d) && d@ == old(self).pending@[old(self).head as int].1@
                &&& final(self).head == old(self).head + 1
                &&& final(self).origin == old(self).pending@[old(self).head as int].0
            },
            old(self).head == old(self).pending@.len() ==> next is None && final(self).head == old(self).head
                && final(self).origin == old(self).origin,
    {
        if self.head < self.pending.len() {
            let entry = &self.pending[self.head];
            let origin = entry.0;
            let d = copy_bytes(entry.1.as_slice());
            self.origin = origin;
            self.head = self.head + 1;
            Some(d)
        } else {
            None
        }
    }

    /// The directory handed out last could not be read.
    fn directory_unreadable(&mut self)
        requires
            old(self).well_formed(),
        ensures
            final(self).well_formed(),
            final(self).report.skipped_paths == (if old(self).report.skipped_paths < usize::MAX {
                old(self).report.skipped_paths + 1
            } else {
                old(self).report.skipped_paths as int
            }),
            final(self).report.items == old(self).report.items,
            final(self).report.scanned_directories == old(self).report.scanned_directories,
            final(self).report.truncated == old(self).report.truncated,
            final(self).options == old(self).options,
            final(self).pending == old(self).pending,
            final(self).head == old(self).head,
            final(self).origin == old(self).origin,
    {
        self.report.skipped_paths = self.report.skipped_paths.saturating_add(1);
    }

    /// The directory handed out last was opened: it counts as scanned (nothing
    /// happens before a directory was handed out).
    fn directory_opened(&mut self)
        requires
            old(self).well_formed(),
        ensures
            final(self).well_formed(),
            old(self).head > 0 ==> {
                &&& final(self).report.scanned_directories@.len() == old(self).report.scanned_directories@.len() + 1
                &&& final(self).report.scanned_directories@.drop_last() == old(self).report.scanned_directories@
                &&& final(self).report.scanned_directories@.last()@ == old(self).pending@[old(self).head - 1].1@
            },
            old(self).head == 0 ==> final(self).report.scanned_directories == old(self).report.scanned_directories,
            final(self).report.items == old(self).report.items,
            final(self).report.skipped_paths == old(self).report.skipped_paths,
            final(self).report.truncated == old(self).report.truncated,
            final(self).options == old(self).options,
            final(self).pending == old(self).pending,
            final(self).head == old(self).head,
            final(self).origin == old(self).origin,
    {
        if self.head > 0 {
            let directory = copy_bytes(self.pending[self.head - 1].1.as_slice());
            let ghost before = self.report.scanned_directories@;
            self.report.scanned_directories.push(directory);
            assert(self.report.scanned_directories@.drop_last() == before);
            assert forall|i: int| 0 <= i < self.report.scanned_directories@.len() implies root_or_listed(
                self.options.roots@,
                self.report.items@,
                #[trigger] self.report.scanned_directories@[i]@,
            ) by {
                if i < before.len() {
                    assert(self.report.scanned_directories@[i] == before[i]);
                } else {
                    assert(self.report.scanned_directories@[i]@ == self.pending@[self.head - 1].1@);
                }
            }
        }
    }

    fn is_another_root(&self, path: &Vec<u8>) -> (r: bool)
        ensures
            r == another_root(self.options.roots@, self.origin as int, path@),
    {
        let mut i: usize = 0;
        while i < self.options.roots.len()
            invariant
                i <= self.options.roots@.len(),
                forall|k: int| 0 <= k < i ==> !(k != self.origin && same_path(self.options.roots@[k]@, path@)),
            decreases self.options.roots.len() - i,
        {
            if i != self.origin && paths_equal(self.options.roots[i].as_slice(), path.as_slice()) {
                return true;
            }
            i += 1;
        }
        false
    }

    /// Takes one entry of the directory being read. Returns `false`, and marks the
    /// scan truncated, when the budget is already spent: the scan ends there.
    fn offer_entry(&mut self, entry: ScanEntry) -> (go_on: bool)
        requires
            old(self).well_formed(),
        ensures
            final(self).well_formed(),
            final(self).options == old(self).options,
            final(self).head == old(self).head,
            final(self).origin == old(self).origin,
            final(self).report.scanned_directories == old(self).report.scanned_directories,
            go_on == (old(self).report.items@.len() < old(self).options.max_entries),
            !go_on ==> final(self).report.truncated && final(self).report.items == old(self).report.items
                && final(self).report.skipped_paths == old(self).report.skipped_paths
                && final(self).pending == old(self).pending,
            go_on ==> final(self).report.truncated == old(self).report.truncated,
            go_on ==> match entry {
                ScanEntry::Unreadable => final(self).report.skipped_paths == (if old(self).report.skipped_paths
                    < usize::MAX {
                    old(self).report.skipped_paths + 1
                } else {
                    old(self).report.skipped_paths as int
                }) && final(self).report.items == old(self).report.items && final(self).pending
                    == old(self).pending,
                ScanEntry::Entry(info) => {
                    let hidden = hidden_name(info.name@);
                    if hidden && !old(self).options.include_hidden {
                        final(self).report == old(self).report && final(self).pending == old(self).pending
                    } else {
                        match info.file_type {
                            None => final(self).report.skipped_paths == (if old(self).report.skipped_paths
                                < usize::MAX {
                                old(self).report.skipped_paths + 1
                            } else {
                                old(self).report.skipped_paths as int
                            }) && final(self).report.items == old(self).report.items && final(self).pending
                                == old(self).pending,
                            Some(EntryType::Other) => final(self).report == old(self).report
                                && final(self).pending == old(self).pending,
                            Some(t) => {
                                let kind = if t == EntryType::Directory {
                                    ItemKind::Directory
                                } else {
                                    ItemKind::File
                                };
                                &&& final(self).report.skipped_paths == old(self).report.skipped_paths
                                &&& final(self).report.items@.len() == old(self).report.items@.len() + 1
                                &&& final(self).report.items@.drop_last() == old(self).report.items@
                                &&& final(self).report.items@.last()@ == (crate::domain::ItemView {
                                    id: info.id,
                                    name: info.name@,
                                    path: info.path@,
                                    kind,
                                    hidden,
                                })
                                &&& if t == EntryType::Directory && !another_root(
                                    old(self).options.roots@,
                                    old(self).origin as int,
                                    info.path@,
                                ) {
                                    &&& final(self).pending@.len() == old(self).pending@.len() + 1
                                    &&& final(self).pending@.drop_last() == old(self).pending@
                                    &&& final(self).pending@.last().0 == old(self).origin
                                    &&& final(self).pending@.last().1@ == info.path@
                                } else {
                                    final(self).pending == old(self).pending
                                }
                            },
                        }
                    }
                },
            },
    {
        if self.report.items.len() >= self.options.max_entries {
            self.report.truncated = true;
            return false;
        }
        match entry {
            ScanEntry::Unreadable => {
                self.report.skipped_paths = self.report.skipped_paths.saturating_add(1);
            },
            ScanEntry::Entry(info) => {
                let chars = chars_of(info.name.as_str());
                let hidden = chars.len() > 0 && chars[0] == '.';
                if hidden && !self.options.include_hidden {
                    return true;
                }
                match info.file_type {
                    None => {
                        self.report.skipped_paths = self.report.skipped_paths.saturating_add(1);
                    },
                    Some(EntryType::Other) => {},
                    Some(t) => {
                        let kind = if t == EntryType::Directory {
                            ItemKind::Directory
                        } else {
                            ItemKind::File
                        };
                        let descend = t == EntryType::Directory && !self.is_another_root(&info.path);
                        let path_copy = copy_bytes(info.path.as_slice());
                        let ghost before = self.report.items@;
                        self.report.items.push(
                            SearchItem { id: info.id, name: info.name, path: info.path, kind, hidden },
                        );
                        assert(self.report.items@.drop_last() == before);
                        assert(self.report.items@ == before.push(self.report.items@.last()));
                        proof {
                            let x = self.report.items@.last();
                            let roots = self.options.roots@;
                            assert forall|i: int| 0 <= i < self.pending@.len() implies root_or_listed(
                                roots,
                                self.report.items@,
                                #[trigger] self.pending@[i].1@,
                            ) by {
                                lemma_listed_grows(roots, before, x, self.pending@[i].1@);
                            }
                            assert forall|i: int| 0 <= i < self.report.scanned_directories@.len() implies root_or_listed(
                                roots,
                                self.report.items@,
                                #[trigger] self.report.scanned_directories@[i]@,
                            ) by {
                                lemma_listed_grows(roots, before, x, self.report.scanned_directories@[i]@);
                            }
                        }
                        assert forall|i: int| 0 <= i < self.report.items@.len() implies {
                            let item = #[trigger] self.report.items@[i];
                            &&& (item.kind == ItemKind::File || item.kind == ItemKind::Directory)
                            &&& item.hidden == hidden_name(item.name@)
                            &&& item.hidden ==> self.options.include_hidden
                        } by {
                            if i < before.len() {
                                assert(self.report.items@[i] == before[i]);
                            }
                        }
                        if descend {
                            let ghost pending_before = self.pending@;
                            self.pending.push((self.origin, path_copy));
                            assert(self.pending@.drop_last() == pending_before);
                            let ghost last = self.report.items@.len() - 1;
                            assert(self.report.items@[last].path@ == self.pending@.last().1@);
                            assert forall|i: int| 0 <= i < self.pending@.len() implies root_or_listed(
                                self.options.roots@,
                                self.report.items@,
                                #[trigger] self.pending@[i].1@,
                            ) by {
                                if i < pending_before.len() {
                                    assert(self.pending@[i] == pending_before[i]);
                                }
                            }
                        }
                    },
                }
            },
        }
        true
    }

    /// The report of the scan.
    fn finish(self) -> (report: ScanReport)
        ensures
            report == self.report,
    {
        self.report
    }
}

/// A scan in progress. Its state always keeps the scan's invariant (see
/// `ScanState::well_formed`); what callers may rely on is stated through the
/// accessors below and the report that `finish` gives.
pub struct Scanner {
    state: ScanState,
}

impl ScanState {
    /// A state with nothing to scan, which stands in while a step works on the real
    /// one.
    fn placeholder() -> (s: ScanState)
        ensures
            s.well_formed(),
    {
        let options = ScanOptions { roots: Vec::new(), include_hidden: false, max_entries: 0 };
        let report = ScanReport { items: Vec::new(), scanned_directories: Vec::new(), skipped_paths: 0, truncated: false };
        ScanState { options, report, pending: Vec::new(), head: 0, origin: 0 }
    }
}

impl Scanner {
    /// Every scanner's state keeps the scan's invariant.
    #[verifier::type_invariant]
    spec fn keeps_invariant(self) -> bool {
        self.state.well_formed()
    }

    /// What is scanned.
    pub closed spec fn options(&self) -> ScanOptions {
        self.state.options
    }

    /// What the scan found so far.
    pub closed spec fn report(&self) -> ScanReport {
        self.state.report
    }

    /// The directories to walk, each with the index of the root it came from; those
    /// before `head` were handed out already.
    pub closed spec fn pending(&self) -> Vec<(usize, Vec<u8>)> {
        self.state.pending
    }

    pub closed spec fn head(&self) -> usize {
        self.state.head
    }

    /// The root that the directory being read came from.
    pub closed spec fn origin(&self) -> usize {
        self.state.origin
    }

    fn take_state(&mut self) -> (state: ScanState)
        ensures
            state == old(self).state,
            state.well_formed(),
    {
        proof {
            use_type_invariant(&*self);
        }
        let mut state = ScanState::placeholder();
        std::mem::swap(&mut state, &mut self.state);
        state
    }

    /// Starts a scan: every root is pending, in order.
    pub fn new(options: ScanOptions) -> (scanner: Scanner)
        ensures
            scanner.options() == options,
            scanner.head() == 0,
            scanner.pending()@.len() == options.roots@.len(),
            forall|i: int|
                0 <= i < options.roots@.len() ==> (#[trigger] scanner.pending()@[i]).0 == i && scanner.pending()@[i].1@
                    == options.roots@[i]@,
            scanner.report().items@.len() == 0,
            scanner.report().scanned_directories@.len() == 0,
            scanner.report().skipped_paths == 0,
            !scanner.report().truncated,
    {
        Scanner { state: ScanState::new(options) }
    }

    /// The next directory to read, in breadth-first order, or `None` when the walk is
    /// over.
    pub fn next_directory(&mut self) -> (next: Option<Vec<u8>>)
        ensures
            old(self).head() <= old(self).pending()@.len(),
            final(self).head() <= final(self).pending()@.len(),
            final(self).options() == old(self).options(),
            final(self).report() == old(self).report(),
            final(self).pending() == old(self).pending(),
            old(self).head() < old(self).pending()@.len() ==> {
                &&& next matches Some(d) && d@ == old(self).pending()@[old(self).head() as int].1@
                &&& final(self).head() == old(self).head() + 1
                &&& final(self).origin() == old(self).pending()@[old(self).head() as int].0
            },
            old(self).head() == old(self).pending()@.len() ==> next is None && final(self).head() == old(self).head()
                && final(self).origin() == old(self).origin(),
    {
        let mut state = self.take_state();
        let r = state.next_directory();
        self.state = state;
        r
    }

    /// The directory handed out last could not be read.
    pub fn directory_unreadable(&mut self)
        ensures
            final(self).report().skipped_paths == (if old(self).report().skipped_paths < usize::MAX {
                old(self).report().skipped_paths + 1
            } else {
                old(self).report().skipped_paths as int
            }),
            final(self).report().items == old(self).report().items,
            final(self).report().scanned_directories == old(self).report().scanned_directories,
            final(self).report().truncated == old(self).report().truncated,
            final(self).options() == old(self).options(),
            final(self).pending() == old(self).pending(),
            final(self).head() == old(self).head(),
            final(self).origin() == old(self).origin(),
    {
        let mut state = self.take_state();
        state.directory_unreadable();
        self.state = state;
    }

    /// The directory handed out last was opened: it counts as scanned (nothing
    /// happens before a directory was handed out).
    pub fn directory_opened(&mut self)
        ensures
            old(self).head() > 0 ==> {
                &&& final(self).report().scanned_directories@.len() == old(self).report().scanned_directories@.len() + 1
                &&& final(self).report().scanned_directories@.drop_last() == old(self).report().scanned_directories@
                &&& final(self).report().scanned_directories@.last()@ == old(self).pending()@[old(self).head() - 1].1@
            },
            old(self).head() == 0 ==> final(self).report().scanned_directories == old(self).report().scanned_directories,
            final(self).report().items == old(self).report().items,
            final(self).report().skipped_paths == old(self).report().skipped_paths,
            final(self).report().truncated == old(self).report().truncated,
            final(self).options() == old(self).options(),
            final(self).pending() == old(self).pending(),
            final(self).head() == old(self).head(),
            final(self).origin() == old(self).origin(),
    {
        let mut state = self.take_state();
        state.directory_opened();
        self.state = state;
    }

    /// Takes one entry of the directory being read. Returns `false`, and marks the
    /// scan truncated, when the budget is already spent: the scan ends there.
    pub fn offer_entry(&mut self, entry: ScanEntry) -> (go_on: bool)
        ensures
            final(self).options() == old(self).options(),
            final(self).head() == old(self).head(),
            final(self).origin() == old(self).origin(),
            final(self).report().scanned_directories == old(self).report().scanned_directories,
            go_on == (old(self).report().items@.len() < old(self).options().max_entries),
            !go_on ==> final(self).report().truncated && final(self).report().items == old(self).report().items
                && final(self).report().skipped_paths == old(self).report().skipped_paths
                && final(self).pending() == old(self).pending(),
            go_on ==> final(self).report().truncated == old(self).report().truncated,
            go_on ==> match entry {
                ScanEntry::Unreadable => final(self).report().skipped_paths == (if old(self).report().skipped_paths
                    < usize::MAX {
                    old(self).report().skipped_paths + 1
                } else {
                    old(self).report().skipped_paths as int
                }) && final(self).report().items == old(self).report().items && final(self).pending()
                    == old(self).pending(),
                ScanEntry::Entry(info) => {
                    let hidden = hidden_name(info.name@);
                    if hidden && !old(self).options().include_hidden {
                        final(self).report() == old(self).report() && final(self).pending() == old(self).pending()
                    } else {
                        match info.file_type {
                            None => final(self).report().skipped_paths == (if old(self).report().skipped_paths
                                < usize::MAX {
                                old(self).report().skipped_paths + 1
                            } else {
                                old(self).report().skipped_paths as int
                            }) && final(self).report().items == old(self).report().items && final(self).pending()
                                == old(self).pending(),
                            Some(EntryType::Other) => final(self).report() == old(self).report()
                                && final(self).pending() == old(self).pending(),
                            Some(t) => {
                                let kind = if t == EntryType::Directory {
                                    ItemKind::Directory
                                } else {
                                    ItemKind::File
                                };
                                &&& final(self).report().skipped_paths == old(self).report().skipped_paths
                                &&& final(self).report().items@.len() == old(self).report().items@.len() + 1
                                &&& final(self).report().items@.drop_last() == old(self).report().items@
                                &&& final(self).report().items@.last()@ == (crate::domain::ItemView {
                                    id: info.id,
                                    name: info.name@,
                                    path: info.path@,
                                    kind,
                                    hidden,
                                })
                                &&& if t == EntryType::Directory && !another_root(
                                    old(self).options().roots@,
                                    old(self).origin() as int,
                                    info.path@,
                                ) {
                                    &&& final(self).pending()@.len() == old(self).pending()@.len() + 1
                                    &&& final(self).pending()@.drop_last() == old(self).pending()@
                                    &&& final(self).pending()@.last().0 == old(self).origin()
                                    &&& final(self).pending()@.last().1@ == info.path@
                                } else {
                                    final(self).pending() == old(self).pending()
                                }
                            },
                        }
                    }
                },
            },
    {
        let mut state = self.take_state();
        let r = state.offer_entry(entry);
        self.state = state;
        r
    }

    /// The report of the scan.
    pub fn finish(self) -> (report: ScanReport)
        ensures
            report == self.report(),
            report.items@.len() <= self.options().max_entries,
            report.truncated ==> report.items@.len() == self.options().max_entries,
            forall|i: int|
                0 <= i < report.items@.len() ==> {
                    let item = #[trigger] report.items@[i];
                    &&& (item.kind == ItemKind::File || item.kind == ItemKind::Directory)
                    &&& item.hidden == hidden_name(item.name@)
                    &&& item.hidden ==> self.options().include_hidden
                },
            forall|i: int|
                0 <= i < report.scanned_directories@.len() ==> root_or_listed(
                    self.options().roots@,
                    report.items@,
                    #[trigger] report.scanned_directories@[i]@,
                ),
    {
        proof {
            use_type_invariant(&self);
        }
        self.state.finish()
    }
}

// ---------------------------------------------------------------------------
// Stable identities
// ---------------------------------------------------------------------------

/// FNV-1a offset basis.
pub const FNV_OFFSET: u64 = 0xcbf2_9ce4_8422_2325;

/// FNV-1a prime.
pub const FNV_PRIME: u64 = 0x0000_0100_0000_01b3;

/// FNV-1a over `bytes`, starting from `state`.
pub open spec fn fnv1a(state: u64, bytes: Seq<u8>) -> u64
    decreases bytes.len(),
{
    if bytes.len() == 0 {
        state
    } else {
        (fnv1a(state, bytes.drop_last()) ^ (bytes.last() as u64)).wrapping_mul(FNV_PRIME)
    }
}

/// A deterministic FNV-1a hasher: the same bytes give the same identity in every
/// process.
pub struct StableHasher {
    pub state: u64,
}

impl StableHasher {
    pub fn new() -> (hasher: StableHasher)
        ensures
            hasher.state == FNV_OFFSET,
    {
        StableHasher { state: FNV_OFFSET }
    }

    /// Feeds bytes into the hash.
    pub fn write(&mut self, bytes: &[u8])
        ensures
            final(self).state == fnv1a(old(self).state, bytes@),
    {
        let ghost start = self.state;
        let mut i: usize = 0;
        while i < bytes.len()
            invariant
                i <= bytes.len(),
                self.state == fnv1a(start, bytes@.take(i as int)),
            decreases bytes.len() - i,
        {
            assert(bytes@.take(i + 1).drop_last() == bytes@.take(i as int));
            self.state = (self.state ^ (bytes[i] as u64)).wrapping_mul(FNV_PRIME);
            i += 1;
        }
        assert(bytes@.take(bytes.len() as int) == bytes@);
    }

    pub fn finish(&self) -> (h: u64)
        ensures
            h == self.state,
    {
        self.state
    }
}

} // verus!
