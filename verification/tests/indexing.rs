//! Which files changed.

use context_engine::indexing::tracker::{detect_changes, stat_file, ChangeKind, FileChange, FileStat};
use context_engine::strmap::StrMap;

fn stat(path: &str, mtime: i64, size: i64) -> Option<FileStat> {
    Some(FileStat { path: path.to_owned(), mtime, size })
}

fn meta(entries: &[(&str, i64, i64)]) -> StrMap<(i64, i64)> {
    let mut map = StrMap::new();
    for (path, mtime, size) in entries {
        map.insert(path, (*mtime, *size));
    }
    map
}

fn paths(names: &[&str]) -> Vec<String> {
    names.iter().map(|s| s.to_string()).collect()
}

fn told(changes: &[FileChange]) -> Vec<(&str, ChangeKind)> {
    changes.iter().map(|c| (c.path.as_str(), c.kind)).collect()
}

#[test]
fn changes_are_told_apart() {
    let changes = detect_changes(
        &paths(&["new", "same", "older", "shorter", "vanished"]),
        &[
            stat("new", 1, 1),
            stat("same", 5, 6),
            stat("older", 4, 6),
            stat("shorter", 5, 5),
            None,
        ],
        &meta(&[
            ("same", 5, 6),
            ("older", 5, 6),
            ("shorter", 5, 6),
            ("vanished", 5, 6),
            ("deleted", 5, 6),
        ]),
    );
    assert_eq!(
        told(&changes),
        vec![
            ("new", ChangeKind::Added),
            ("older", ChangeKind::Modified),
            ("shorter", ChangeKind::Modified),
            ("vanished", ChangeKind::Deleted),
            ("deleted", ChangeKind::Deleted),
        ]
    );
}

#[test]
fn a_listed_file_that_is_gone_is_deleted_where_it_was_indexed() {
    let changes = detect_changes(
        &paths(&["indexed", "unknown", "twice", "twice"]),
        &[None, None, None, stat("twice", 1, 2)],
        &meta(&[("indexed", 5, 6), ("twice", 1, 2)]),
    );
    assert_eq!(told(&changes), vec![("indexed", ChangeKind::Deleted)]);
}

#[test]
fn nothing_changed() {
    let changes = detect_changes(
        &paths(&["a", "b"]),
        &[stat("a", 1, 2), stat("b", 3, 4)],
        &meta(&[("b", 3, 4), ("a", 1, 2)]),
    );
    assert!(changes.is_empty());
}

#[test]
fn everything_is_gone() {
    let changes = detect_changes(&[], &[], &meta(&[("a", 1, 2)]));
    assert_eq!(told(&changes), vec![("a", ChangeKind::Deleted)]);
}

#[test]
fn a_file_listed_twice_is_reported_twice() {
    let changes = detect_changes(
        &paths(&["a", "a"]),
        &[stat("a", 1, 2), stat("a", 1, 2)],
        &meta(&[]),
    );
    assert_eq!(told(&changes), vec![("a", ChangeKind::Added), ("a", ChangeKind::Added)]);
}

#[test]
fn times_are_whole_seconds() {
    let s = stat_file("/a", Some(17), 42);
    assert_eq!((s.path.as_str(), s.mtime, s.size), ("/a", 17, 42));
    let early = stat_file("/a", None, u64::MAX);
    assert_eq!((early.mtime, early.size), (0, -1));
}
