use ruyiseek::domain::ItemKind;
use ruyiseek::index::{
    DirEntryInfo, EntryType, ScanEntry, ScanOptions, ScanReport, Scanner, StableHasher, DEFAULT_MAX_ENTRIES,
    FNV_OFFSET,
};

/// An in-memory tree: each directory with its entries (name, type).
fn listing(directory: &[u8]) -> Option<Vec<(&'static str, Option<EntryType>)>> {
    match directory {
        b"/r" => Some(vec![
            ("folder", Some(EntryType::Directory)),
            (".hidden", Some(EntryType::File)),
            ("link", Some(EntryType::Other)),
            ("broken", None),
            ("nested", Some(EntryType::Directory)),
        ]),
        b"/r/folder" => Some(vec![("report.txt", Some(EntryType::File))]),
        b"/r/nested" => Some(vec![("external.txt", Some(EntryType::File))]),
        _ => None,
    }
}

fn run(options: ScanOptions) -> ScanReport {
    let mut scanner = Scanner::new(options);
    'walk: while let Some(directory) = scanner.next_directory() {
        let Some(entries) = listing(&directory) else {
            scanner.directory_unreadable();
            continue;
        };
        scanner.directory_opened();
        for (name, file_type) in entries {
            let mut path = directory.clone();
            path.push(b'/');
            path.extend_from_slice(name.as_bytes());
            let mut hasher = StableHasher::new();
            hasher.write(&path);
            let entry = ScanEntry::Entry(DirEntryInfo {
                path,
                name: name.to_owned(),
                id: hasher.finish(),
                file_type,
            });
            if !scanner.offer_entry(entry) {
                break 'walk;
            }
        }
    }
    scanner.finish()
}

fn names(report: &ScanReport) -> Vec<&str> {
    report.items.iter().map(|item| item.name.as_str()).collect()
}

#[test]
fn breadth_first_walk_skips_hidden_and_special_entries() {
    let report = run(ScanOptions {
        roots: vec![b"/r".to_vec(), b"/missing".to_vec()],
        include_hidden: false,
        max_entries: 100,
    });
    assert_eq!(names(&report), vec!["folder", "nested", "report.txt", "external.txt"]);
    assert_eq!(
        report.scanned_directories,
        vec![b"/r".to_vec(), b"/r/folder".to_vec(), b"/r/nested".to_vec()]
    );
    // The unreadable entry and the missing root.
    assert_eq!(report.skipped_paths, 2);
    assert!(!report.truncated);
    assert_eq!(report.items[0].kind, ItemKind::Directory);
    assert_eq!(report.items[2].kind, ItemKind::File);
    assert!(report.items.iter().all(|item| !item.hidden));
}

#[test]
fn hidden_entries_are_kept_when_asked_for() {
    let report = run(ScanOptions {
        roots: vec![b"/r".to_vec()],
        include_hidden: true,
        max_entries: 100,
    });
    let hidden: Vec<&str> = report.items.iter().filter(|i| i.hidden).map(|i| i.name.as_str()).collect();
    assert_eq!(hidden, vec![".hidden"]);
}

#[test]
fn the_entry_limit_truncates_the_scan() {
    let report = run(ScanOptions {
        roots: vec![b"/r".to_vec()],
        include_hidden: true,
        max_entries: 1,
    });
    assert_eq!(report.items.len(), 1);
    assert!(report.truncated);
}

#[test]
fn nested_roots_are_walked_once() {
    let report = run(ScanOptions {
        roots: vec![b"/r".to_vec(), b"/r/nested".to_vec()],
        include_hidden: true,
        max_entries: 100,
    });
    assert_eq!(names(&report).iter().filter(|name| **name == "external.txt").count(), 1);
    assert_eq!(
        report.scanned_directories,
        vec![b"/r".to_vec(), b"/r/nested".to_vec(), b"/r/folder".to_vec()]
    );
}

#[test]
fn fnv1a_gives_known_values() {
    let mut empty = StableHasher::new();
    empty.write(b"");
    assert_eq!(empty.finish(), FNV_OFFSET);
    let mut a = StableHasher::new();
    a.write(b"a");
    assert_eq!(a.finish(), 0xaf63_dc4c_8601_ec8c);
    let mut split = StableHasher::new();
    split.write(b"fo");
    split.write(b"o");
    let mut whole = StableHasher::new();
    whole.write(b"foo");
    assert_eq!(split.finish(), whole.finish());
    assert_eq!(whole.finish(), 0xdcb2_7518_fed9_d577);
}

#[test]
fn default_scan_options() {
    let options = ScanOptions::default();
    assert!(options.roots.is_empty());
    assert!(!options.include_hidden);
    assert_eq!(options.max_entries, DEFAULT_MAX_ENTRIES);
    let report = ScanReport::default();
    assert!(report.items.is_empty() && !report.truncated && report.skipped_paths == 0);
}
