//! Which files changed since they were indexed.

use vstd::hash_map::StringHashMap;
use vstd::prelude::*;

use crate::seqs::{lemma_push_contains, lemma_push_no_duplicates};
use crate::strmap::StrMap;
use crate::text::texts;

verus! {

/// Classification of a detected file change.
#[derive(Debug, Clone, Copy, PartialEq, Eq, Structural)]
pub enum ChangeKind {
    Added,
    Modified,
    Deleted,
}

/// A single file change detected by the tracker.
#[derive(Debug, Clone)]
pub struct FileChange {
    pub path: String,
    pub kind: ChangeKind,
}

/// What a [`FileChange`] says.
#[verifier::ext_equal]
pub struct FileChangeView {
    pub path: Seq<char>,
    pub kind: ChangeKind,
}

impl View for FileChange {
    type V = FileChangeView;

    open spec fn view(&self) -> FileChangeView {
        FileChangeView { path: self.path@, kind: self.kind }
    }
}

/// File metadata snapshot used to detect staleness.
#[derive(Debug, Clone)]
pub struct FileStat {
    pub path: String,
    pub mtime: i64,
    pub size: i64,
}

/// What a sequence of changes says.
pub open spec fn change_views(changes: Seq<FileChange>) -> Seq<FileChangeView> {
    Seq::new(changes.len(), |i: int| changes[i]@)
}

/// The change of a listed file: none where its time and size are those that were
/// indexed, nor where it could not be read (see [`lists_deleted`]).
pub open spec fn present_change(
    path: Seq<char>,
    stat: Option<FileStat>,
    meta: Map<Seq<char>, (i64, i64)>,
) -> Option<FileChangeView> {
    match stat {
        None => None,
        Some(s) => if !meta.contains_key(path) {
            Some(FileChangeView { path, kind: ChangeKind::Added })
        } else if s.mtime != meta[path].0 || s.size != meta[path].1 {
            Some(FileChangeView { path, kind: ChangeKind::Modified })
        } else {
            None
        },
    }
}

/// The changes of the files that were read, in their order.
pub open spec fn present_changes(
    paths: Seq<Seq<char>>,
    stats: Seq<Option<FileStat>>,
    meta: Map<Seq<char>, (i64, i64)>,
) -> Seq<FileChangeView>
    decreases paths.len(),
{
    if paths.len() == 0 {
        Seq::empty()
    } else {
        let before = present_changes(paths.drop_last(), stats, meta);
        match present_change(paths.last(), stats[paths.len() - 1], meta) {
            Some(change) => before.push(change),
            None => before,
        }
    }
}

/// Whether `path` is among `paths` and could be read.
pub open spec fn on_disk(
    paths: Seq<Seq<char>>,
    stats: Seq<Option<FileStat>>,
    path: Seq<char>,
) -> bool {
    exists|i: int| 0 <= i < paths.len() && #[trigger] paths[i] == path && stats[i] is Some
}

/// Whether `gone` lists as deleted, each once, the indexed paths that are no longer
/// on disk: those that are not among `paths`, and those that could not be read.
pub open spec fn lists_deleted(
    gone: Seq<FileChangeView>,
    paths: Seq<Seq<char>>,
    stats: Seq<Option<FileStat>>,
    meta: Map<Seq<char>, (i64, i64)>,
) -> bool {
    &&& gone.no_duplicates()
    &&& forall|change: FileChangeView| #[trigger]
        gone.contains(change) <==> change.kind == ChangeKind::Deleted && meta.contains_key(
            change.path,
        ) && !on_disk(paths, stats, change.path)
}

/// Whether `changes` are those between the files that are there and what was
/// indexed: first the changes of the files that were read, then the deleted ones.
pub open spec fn detects(
    changes: Seq<FileChangeView>,
    paths: Seq<Seq<char>>,
    stats: Seq<Option<FileStat>>,
    meta: Map<Seq<char>, (i64, i64)>,
) -> bool {
    let present = present_changes(paths, stats, meta);
    &&& present.is_prefix_of(changes)
    &&& lists_deleted(changes.skip(present.len() as int), paths, stats, meta)
}

/// Detect stale files by comparing what was read of them against stored metadata.
///
/// `stats[i]` is what was read of `current_files[i]`, or `None` when it could not
/// be read: it has disappeared. Returns a list of [`FileChange`] entries for files
/// that are
/// - new (in `current_files` but not in `indexed_meta`),
/// - modified (mtime or size differs),
/// - deleted (in `indexed_meta` but no longer on disk / not in `current_files`).
pub fn detect_changes(
    current_files: &[String],
    stats: &[Option<FileStat>],
    indexed_meta: &StrMap<(i64, i64)>,
) -> (res: Vec<FileChange>)
    requires
        stats@.len() == current_files@.len(),
        indexed_meta.wf(),
    ensures
        detects(change_views(res@), texts(current_files@), stats@, indexed_meta@),
{
    let mut changes: Vec<FileChange> = Vec::new();
    let mut current: StringHashMap<bool> = StringHashMap::new();
    let ghost paths = texts(current_files@);
    let ghost meta = indexed_meta@;
    let mut i: usize = 0;
    assert(change_views(changes@) =~= present_changes(paths.take(0), stats@, meta));
    while i < current_files.len()
        invariant
            i <= current_files@.len(),
            paths == texts(current_files@),
            meta == indexed_meta@,
            stats@.len() == current_files@.len(),
            indexed_meta.wf(),
            change_views(changes@) == present_changes(paths.take(i as int), stats@, meta),
            forall|k: Seq<char>| #[trigger]
                current@.contains_key(k) <==> on_disk(paths.take(i as int), stats@, k),
        decreases current_files@.len() - i,
    {
        let path = &current_files[i];
        let ghost before = changes@;
        proof {
            assert(paths.take(i + 1).drop_last() =~= paths.take(i as int));
            assert(paths.take(i + 1).last() == path@);
            lemma_on_disk_next(paths, stats@, i as int);
        }
        match &stats[i] {
            Some(stat) => {
                match indexed_meta.get(path.as_str()) {
                    None => {
                        changes.push(
                            FileChange { path: path.clone(), kind: ChangeKind::Added },
                        );
                        assert(change_views(changes@) =~= change_views(before).push(
                            FileChangeView { path: path@, kind: ChangeKind::Added },
                        ));
                    },
                    Some(indexed) => {
                        if stat.mtime != indexed.0 || stat.size != indexed.1 {
                            changes.push(
                                FileChange { path: path.clone(), kind: ChangeKind::Modified },
                            );
                            assert(change_views(changes@) =~= change_views(before).push(
                                FileChangeView { path: path@, kind: ChangeKind::Modified },
                            ));
                        }
                    },
                }
                current.insert(path.clone(), true);
            },
            None => {},
        }
        i += 1;
    }
    let ghost present = change_views(changes@);
    let ghost order = indexed_meta.order();
    proof {
        assert(paths.take(i as int) =~= paths);
        indexed_meta.lemma_order();
    }
    let mut j: usize = 0;
    let ghost mut gone: Seq<FileChangeView> = Seq::empty();
    assert(present + gone =~= present);
    while j < indexed_meta.len()
        invariant
            indexed_meta.wf(),
            meta == indexed_meta@,
            order == indexed_meta.order(),
            order.no_duplicates(),
            j <= order.len(),
            forall|k: Seq<char>| #[trigger]
                current@.contains_key(k) <==> on_disk(paths, stats@, k),
            change_views(changes@) == present + gone,
            gone.no_duplicates(),
            forall|change: FileChangeView| #[trigger]
                gone.contains(change) <==> change.kind == ChangeKind::Deleted && order.take(
                    j as int,
                ).contains(change.path) && !on_disk(paths, stats@, change.path),
        decreases order.len() - j,
    {
        let path = indexed_meta.key_at(j);
        let ghost done = order.take(j as int);
        let ghost change = FileChangeView { path: path@, kind: ChangeKind::Deleted };
        proof {
            assert(order.take(j + 1) =~= done.push(path@));
            lemma_push_contains(done, path@);
            assert(!done.contains(path@)) by {
                if done.contains(path@) {
                    let x = choose|x: int| 0 <= x < done.len() && done[x] == path@;
                    assert(order[x] == order[j as int]);
                }
            }
        }
        if !current.contains_key(path.as_str()) {
            let ghost before = changes@;
            changes.push(FileChange { path: path.clone(), kind: ChangeKind::Deleted });
            proof {
                lemma_push_contains(gone, change);
                lemma_push_no_duplicates(gone, change);
                assert(change_views(changes@) =~= change_views(before).push(change));
                assert(change_views(changes@) =~= present + gone.push(change));
                gone = gone.push(change);
            }
        }
        j += 1;
    }
    proof {
        assert(order.take(j as int) =~= order);
        indexed_meta.lemma_order();
        let all = change_views(changes@);
        assert(all.subrange(0, present.len() as int) =~= present);
        assert(all.skip(present.len() as int) =~= gone);
    }
    changes
}

/// The snapshot of a file whose metadata says that it was modified so many whole
/// seconds after the Unix epoch (`None` for a time before it) and is so many bytes
/// long. Both numbers are kept as signed ones of the same bits.
pub fn stat_file(path: &str, modified: Option<u64>, len: u64) -> (res: FileStat)
    ensures
        res.path@ == path@,
        res.mtime == (match modified {
            Some(secs) => secs,
            None => 0,
        }) as i64,
        res.size == len as i64,
{
    let secs: u64 = match modified {
        Some(secs) => secs,
        None => 0,
    };
    FileStat {
        path: path.to_owned(),
        mtime: #[verifier::truncate] (secs as i64),
        size: #[verifier::truncate] (len as i64),
    }
}

/// One more path is on disk where it could be read.
proof fn lemma_on_disk_next(paths: Seq<Seq<char>>, stats: Seq<Option<FileStat>>, i: int)
    requires
        0 <= i < paths.len(),
    ensures
        forall|k: Seq<char>| #[trigger]
            on_disk(paths.take(i + 1), stats, k) <==> on_disk(paths.take(i), stats, k) || (k
                == paths[i] && stats[i] is Some),
{
    let done = paths.take(i);
    let more = paths.take(i + 1);
    assert forall|k: Seq<char>| #[trigger] on_disk(more, stats, k) <==> on_disk(done, stats, k) || (
    k == paths[i] && stats[i] is Some) by {
        if on_disk(done, stats, k) {
            let x = choose|x: int|
                0 <= x < done.len() && #[trigger] done[x] == k && stats[x] is Some;
            assert(more[x] == k);
        }
        if k == paths[i] && stats[i] is Some {
            assert(more[i] == k);
        }
        if on_disk(more, stats, k) {
            let x = choose|x: int|
                0 <= x < more.len() && #[trigger] more[x] == k && stats[x] is Some;
            if x < i {
                assert(done[x] == k);
            }
        }
    }
}

proof fn lemma_present_changes(
    paths: Seq<Seq<char>>,
    stats: Seq<Option<FileStat>>,
    meta: Map<Seq<char>, (i64, i64)>,
)
    ensures
        forall|change: FileChangeView| #[trigger]
            present_changes(paths, stats, meta).contains(change) <==> exists|i: int|
                #![trigger paths[i]]
                0 <= i < paths.len() && present_change(paths[i], stats[i], meta) == Some(change),
    decreases paths.len(),
{
    let all = present_changes(paths, stats, meta);
    if paths.len() > 0 {
        let rest = paths.drop_last();
        let before = present_changes(rest, stats, meta);
        let n = paths.len() - 1;
        lemma_present_changes(rest, stats, meta);
        assert forall|change: FileChangeView| #[trigger] all.contains(change) <==> exists|i: int|
            #![trigger paths[i]]
            0 <= i < paths.len() && present_change(paths[i], stats[i], meta) == Some(change) by {
            if all.contains(change) {
                let x = choose|x: int| 0 <= x < all.len() && all[x] == change;
                if x < before.len() {
                    assert(before[x] == change);
                    assert(before.contains(change));
                    let i = choose|i: int|
                        #![trigger rest[i]]
                        0 <= i < rest.len() && present_change(rest[i], stats[i], meta) == Some(
                            change,
                        );
                    assert(paths[i] == rest[i]);
                } else {
                    assert(present_change(paths[n], stats[n], meta) == Some(change));
                }
            }
            if exists|i: int|
                #![trigger paths[i]]
                0 <= i < paths.len() && present_change(paths[i], stats[i], meta) == Some(change) {
                let i = choose|i: int|
                    #![trigger paths[i]]
                    0 <= i < paths.len() && present_change(paths[i], stats[i], meta) == Some(
                        change,
                    );
                if i < n {
                    assert(rest[i] == paths[i]);
                    assert(before.contains(change));
                    let x = choose|x: int| 0 <= x < before.len() && before[x] == change;
                    assert(all[x] == change);
                } else {
                    assert(all.last() == change);
                }
            }
        }
    } else {
        assert(all =~= Seq::<FileChangeView>::empty());
    }
}

/// A change is reported exactly where there is one: for a file that was read and is
/// new or differs from what was indexed, and for an indexed path that is no longer
/// on disk.
pub proof fn law_reports_exactly_the_changes(
    changes: Seq<FileChangeView>,
    paths: Seq<Seq<char>>,
    stats: Seq<Option<FileStat>>,
    meta: Map<Seq<char>, (i64, i64)>,
    change: FileChangeView,
)
    requires
        detects(changes, paths, stats, meta),
    ensures
        changes.contains(change) <==> {
            ||| exists|i: int|
                #![trigger paths[i]]
                0 <= i < paths.len() && present_change(paths[i], stats[i], meta) == Some(change)
            ||| change.kind == ChangeKind::Deleted && meta.contains_key(change.path) && !on_disk(
                paths,
                stats,
                change.path,
            )
        },
{
    let present = present_changes(paths, stats, meta);
    let n = present.len() as int;
    let gone = changes.skip(n);
    lemma_present_changes(paths, stats, meta);
    if changes.contains(change) {
        let x = choose|x: int| 0 <= x < changes.len() && changes[x] == change;
        if x < n {
            assert(changes.subrange(0, n)[x] == change);
            assert(present.contains(change));
        } else {
            assert(gone[x - n] == change);
            assert(gone.contains(change));
        }
    }
    if present.contains(change) {
        let x = choose|x: int| 0 <= x < present.len() && present[x] == change;
        assert(changes.subrange(0, n)[x] == change);
        assert(changes[x] == change);
    }
    if gone.contains(change) {
        let x = choose|x: int| 0 <= x < gone.len() && gone[x] == change;
        assert(changes[n + x] == change);
    }
}

/// A path is reported under one kind only: as added when it was not indexed, as
/// modified when it was and is still on disk, as deleted when it was and is not.
pub proof fn law_kinds_exclude_each_other(
    changes: Seq<FileChangeView>,
    paths: Seq<Seq<char>>,
    stats: Seq<Option<FileStat>>,
    meta: Map<Seq<char>, (i64, i64)>,
    change: FileChangeView,
)
    requires
        detects(changes, paths, stats, meta),
        changes.contains(change),
    ensures
        change.kind == if !meta.contains_key(change.path) {
            ChangeKind::Added
        } else if on_disk(paths, stats, change.path) {
            ChangeKind::Modified
        } else {
            ChangeKind::Deleted
        },
{
    law_reports_exactly_the_changes(changes, paths, stats, meta, change);
    if !(change.kind == ChangeKind::Deleted && meta.contains_key(change.path) && !on_disk(
        paths,
        stats,
        change.path,
    )) {
        let i = choose|i: int|
            #![trigger paths[i]]
            0 <= i < paths.len() && present_change(paths[i], stats[i], meta) == Some(change);
        assert(paths[i] == change.path && stats[i] is Some);
        assert(on_disk(paths, stats, change.path));
    }
}

/// An indexed file that can no longer be read is reported as deleted, and as nothing
/// else, though it is still listed.
pub proof fn law_vanished_files_are_deleted(
    changes: Seq<FileChangeView>,
    paths: Seq<Seq<char>>,
    stats: Seq<Option<FileStat>>,
    meta: Map<Seq<char>, (i64, i64)>,
    path: Seq<char>,
)
    requires
        detects(changes, paths, stats, meta),
        meta.contains_key(path),
        forall|i: int| 0 <= i < paths.len() && #[trigger] paths[i] == path ==> stats[i] is None,
    ensures
        changes.contains(FileChangeView { path, kind: ChangeKind::Deleted }),
        forall|change: FileChangeView| #[trigger]
            changes.contains(change) && change.path == path ==> change.kind == ChangeKind::Deleted,
{
    law_reports_exactly_the_changes(
        changes,
        paths,
        stats,
        meta,
        FileChangeView { path, kind: ChangeKind::Deleted },
    );
    assert forall|change: FileChangeView| #[trigger]
        changes.contains(change) && change.path == path implies change.kind
        == ChangeKind::Deleted by {
        law_kinds_exclude_each_other(changes, paths, stats, meta, change);
    }
}

/// Where every file that was read is as it was indexed, and every indexed path is
/// still on disk, no change is reported.
pub proof fn law_unchanged_files_are_quiet(
    changes: Seq<FileChangeView>,
    paths: Seq<Seq<char>>,
    stats: Seq<Option<FileStat>>,
    meta: Map<Seq<char>, (i64, i64)>,
)
    requires
        detects(changes, paths, stats, meta),
        forall|i: int|
            0 <= i < paths.len() ==> {
                let path = #[trigger] paths[i];
                match stats[i] {
                    Some(s) => meta.contains_key(path) && s.mtime == meta[path].0 && s.size
                        == meta[path].1,
                    None => true,
                }
            },
        forall|p: Seq<char>| #[trigger] meta.contains_key(p) ==> on_disk(paths, stats, p),
    ensures
        changes.len() == 0,
{
    if changes.len() > 0 {
        let change = changes[0];
        assert(changes.contains(change));
        law_reports_exactly_the_changes(changes, paths, stats, meta, change);
        assert(!(meta.contains_key(change.path) && !on_disk(paths, stats, change.path)));
        let i = choose|i: int|
            #![trigger paths[i]]
            0 <= i < paths.len() && present_change(paths[i], stats[i], meta) == Some(change);
        assert(present_change(paths[i], stats[i], meta) is None);
    }
}

/// A file that was read and was indexed is reported as modified exactly where its time or
/// its size differs from the indexed one, in either direction. Listed once, it is reported
/// as nothing else.
pub proof fn law_modified_iff_time_or_size_differs(
    changes: Seq<FileChangeView>,
    paths: Seq<Seq<char>>,
    stats: Seq<Option<FileStat>>,
    meta: Map<Seq<char>, (i64, i64)>,
    i: int,
)
    requires
        detects(changes, paths, stats, meta),
        0 <= i < paths.len(),
        stats[i] is Some,
        meta.contains_key(paths[i]),
        forall|j: int| 0 <= j < paths.len() && j != i ==> #[trigger] paths[j] != paths[i],
    ensures
        changes.contains(FileChangeView { path: paths[i], kind: ChangeKind::Modified })
            <==> stats[i]->0.mtime != meta[paths[i]].0 || stats[i]->0.size != meta[paths[i]].1,
        !changes.contains(FileChangeView { path: paths[i], kind: ChangeKind::Added }),
        !changes.contains(FileChangeView { path: paths[i], kind: ChangeKind::Deleted }),
{
    let modified = FileChangeView { path: paths[i], kind: ChangeKind::Modified };
    let added = FileChangeView { path: paths[i], kind: ChangeKind::Added };
    let deleted = FileChangeView { path: paths[i], kind: ChangeKind::Deleted };
    law_reports_exactly_the_changes(changes, paths, stats, meta, modified);
    assert(on_disk(paths, stats, paths[i]));
    if changes.contains(added) {
        law_kinds_exclude_each_other(changes, paths, stats, meta, added);
    }
    if changes.contains(deleted) {
        law_kinds_exclude_each_other(changes, paths, stats, meta, deleted);
    }
}

/// A path is reported as added exactly where it is listed, was read and was not indexed,
/// and as deleted exactly where it was indexed and is not listed or could not be read.
pub proof fn law_added_and_deleted(
    changes: Seq<FileChangeView>,
    paths: Seq<Seq<char>>,
    stats: Seq<Option<FileStat>>,
    meta: Map<Seq<char>, (i64, i64)>,
    path: Seq<char>,
)
    requires
        detects(changes, paths, stats, meta),
    ensures
        changes.contains(FileChangeView { path, kind: ChangeKind::Added }) <==> (
        exists|i: int| 0 <= i < paths.len() && #[trigger] paths[i] == path && stats[i] is Some)
            && !meta.contains_key(path),
        changes.contains(FileChangeView { path, kind: ChangeKind::Deleted }) <==> (
        forall|i: int| 0 <= i < paths.len() && #[trigger] paths[i] == path ==> stats[i] is None)
            && meta.contains_key(path),
{
    let added = FileChangeView { path, kind: ChangeKind::Added };
    let deleted = FileChangeView { path, kind: ChangeKind::Deleted };
    law_reports_exactly_the_changes(changes, paths, stats, meta, added);
    law_reports_exactly_the_changes(changes, paths, stats, meta, deleted);
    if exists|i: int| 0 <= i < paths.len() && #[trigger] paths[i] == path && stats[i] is Some {
        let i = choose|i: int|
            0 <= i < paths.len() && #[trigger] paths[i] == path && stats[i] is Some;
        if !meta.contains_key(path) {
            assert(present_change(paths[i], stats[i], meta) == Some(added));
        }
    }
}

/// The listed files, each with what was read of it.
pub open spec fn listed(paths: Seq<Seq<char>>, stats: Seq<Option<FileStat>>) -> Seq<
    (Seq<char>, Option<FileStat>),
> {
    Seq::new(paths.len(), |i: int| (paths[i], stats[i]))
}

/// Whether a listed file is new or differs from what was indexed.
pub open spec fn differs(
    file: (Seq<char>, Option<FileStat>),
    meta: Map<Seq<char>, (i64, i64)>,
) -> bool {
    &&& file.1 is Some
    &&& !meta.contains_key(file.0) || file.1->0.mtime != meta[file.0].0 || file.1->0.size
        != meta[file.0].1
}

proof fn lemma_present_in_order(
    paths: Seq<Seq<char>>,
    stats: Seq<Option<FileStat>>,
    meta: Map<Seq<char>, (i64, i64)>,
)
    ensures
        ({
            let present = present_changes(paths, stats, meta);
            let changed = listed(paths, stats).filter(
                |file: (Seq<char>, Option<FileStat>)| differs(file, meta),
            );
            &&& present.len() == changed.len()
            &&& forall|k: int|
                0 <= k < present.len() ==> (#[trigger] present[k]).path == changed[k].0
                    && present[k].kind == if meta.contains_key(changed[k].0) {
                    ChangeKind::Modified
                } else {
                    ChangeKind::Added
                }
        }),
    decreases paths.len(),
{
    reveal(Seq::filter);
    if paths.len() > 0 {
        lemma_present_in_order(paths.drop_last(), stats, meta);
        assert(listed(paths, stats).drop_last() =~= listed(paths.drop_last(), stats));
    }
}

/// The changes come in the order of the listing, one for each listing of a file that is
/// new or differs, and after them each deleted path once.
pub proof fn law_changes_keep_the_order(
    changes: Seq<FileChangeView>,
    paths: Seq<Seq<char>>,
    stats: Seq<Option<FileStat>>,
    meta: Map<Seq<char>, (i64, i64)>,
)
    requires
        detects(changes, paths, stats, meta),
    ensures
        ({
            let changed = listed(paths, stats).filter(
                |file: (Seq<char>, Option<FileStat>)| differs(file, meta),
            );
            let n = changed.len() as int;
            &&& n <= changes.len()
            &&& forall|k: int|
                0 <= k < n ==> (#[trigger] changes[k]).path == changed[k].0 && changes[k].kind
                    == if meta.contains_key(changed[k].0) {
                    ChangeKind::Modified
                } else {
                    ChangeKind::Added
                }
            &&& changes.skip(n).no_duplicates()
            &&& forall|k: int| n <= k < changes.len() ==> (#[trigger] changes[k]).kind
                == ChangeKind::Deleted
        }),
{
    let present = present_changes(paths, stats, meta);
    let n = present.len() as int;
    lemma_present_in_order(paths, stats, meta);
    assert forall|k: int| 0 <= k < n implies #[trigger] changes[k] == present[k] by {
        assert(changes.subrange(0, n)[k] == changes[k]);
    }
    assert forall|k: int| n <= k < changes.len() implies (#[trigger] changes[k]).kind
        == ChangeKind::Deleted by {
        assert(changes.skip(n)[k - n] == changes[k]);
        assert(changes.skip(n).contains(changes[k]));
    }
}

/// Changes say what their fields hold, in order.
pub proof fn law_changes_say_what_they_hold(changes: Seq<FileChange>)
    ensures
        change_views(changes).len() == changes.len(),
        forall|i: int|
            0 <= i < changes.len() ==> (#[trigger] change_views(changes)[i]).path
                == changes[i].path@ && change_views(changes)[i].kind == changes[i].kind,
{
}

} // verus!
