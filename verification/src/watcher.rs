//! The watcher's verified core: canonical index events, the file filter, the
//! translation of raw filesystem notifications into events, and the startup
//! reconciliation of the filesystem with the store.

use vstd::prelude::*;

use crate::indexer::{apply_events, lemma_apply_events_add, lemma_apply_events_remove, links_match,
    touches};
use crate::store::models::{File, LinkView};
use crate::store::{files_map_of, files_unique, IndexStore, StoreModel};
use crate::text::{is_prefix_of, opt_view, str_starts_with};

verus! {

/// A canonical event handed from the watcher to the pipeline.  `Remove` must
/// be idempotent: it may be emitted for paths that were never indexed.
pub enum IndexEvent {
    Remove(String),
    Add(String),
}

/// The view of a canonical event.
pub enum EventModel {
    Remove(Seq<char>),
    Add(Seq<char>),
}

impl View for IndexEvent {
    type V = EventModel;

    open spec fn view(&self) -> EventModel {
        match self {
            IndexEvent::Remove(p) => EventModel::Remove(p@),
            IndexEvent::Add(p) => EventModel::Add(p@),
        }
    }
}

impl Clone for IndexEvent {
    fn clone(&self) -> (res: Self)
        ensures
            res@ == self@,
    {
        match self {
            IndexEvent::Remove(p) => IndexEvent::Remove(p.clone()),
            IndexEvent::Add(p) => IndexEvent::Add(p.clone()),
        }
    }
}

/// The views of a sequence of events.
pub open spec fn events_view(s: Seq<IndexEvent>) -> Seq<EventModel> {
    s.map_values(|e: IndexEvent| e@)
}

/// A component of `s` begins at `i`: a non-separator right after a separator
/// or at the very front.
pub open spec fn component_start(s: Seq<char>, i: int) -> bool {
    0 <= i < s.len() && s[i] != '/' && (i == 0 || s[i - 1] == '/')
}

/// A hidden component begins at `i`: it starts with a dot and is longer than
/// the bare dot.
pub open spec fn hidden_at(s: Seq<char>, i: int) -> bool {
    component_start(s, i) && s[i] == '.' && i + 1 < s.len() && s[i + 1] != '/'
}

pub open spec fn has_hidden_component(s: Seq<char>) -> bool {
    exists|i: int| hidden_at(s, i)
}

/// Whether no path component is hidden, that is, none both starts with a dot
/// and is longer than the bare dot.
pub fn file_has_no_hidden_component(path: &str) -> (r: bool)
    ensures
        r == !has_hidden_component(path@),
{
    let n = path.unicode_len();
    let mut i: usize = 0;
    while i < n
        invariant
            0 <= i <= n,
            n == path@.len(),
            forall|j: int| 0 <= j < i ==> !hidden_at(path@, j),
        decreases n - i,
    {
        let at_start = if i == 0 {
            true
        } else {
            path.get_char(i - 1) == '/'
        };
        if at_start && path.get_char(i) == '.' && i + 1 < n && path.get_char(i + 1) != '/' {
            assert(hidden_at(path@, i as int));
            return false;
        }
        i = i + 1;
    }
    true
}

/// The filter that decides whether a path participates in indexing: it can
/// exclude hidden paths and everything under one prefix (the index's own
/// storage directory).
pub struct FileFilter {
    pub exclude_hidden: bool,
    pub excluded_prefix: Option<String>,
}

impl FileFilter {
    pub open spec fn spec_accepts(&self, path: Seq<char>) -> bool {
        &&& (self.exclude_hidden ==> !has_hidden_component(path))
        &&& match opt_view(self.excluded_prefix) {
            Option::Some(p) => !is_prefix_of(p, path),
            Option::None => true,
        }
    }

    /// Whether `path` participates in indexing.
    pub fn accepts(&self, path: &str) -> (r: bool)
        ensures
            r == self.spec_accepts(path@),
    {
        if self.exclude_hidden && !file_has_no_hidden_component(path) {
            return false;
        }
        match &self.excluded_prefix {
            Some(p) => !str_starts_with(path, p.as_str()),
            None => true,
        }
    }
}

/// `abs` can be stripped of the root prefix: it lies strictly under `root`.
pub open spec fn strippable(root: Seq<char>, abs: Seq<char>) -> bool {
    &&& root.len() > 0
    &&& abs.len() > root.len()
    &&& is_prefix_of(root, abs)
    &&& (root.last() == '/' || abs[root.len() as int] == '/')
}

/// `abs` relative to `root`.
pub open spec fn rel_of(root: Seq<char>, abs: Seq<char>) -> Seq<char> {
    if root.last() == '/' {
        abs.subrange(root.len() as int, abs.len() as int)
    } else {
        abs.subrange(root.len() as int + 1, abs.len() as int)
    }
}

/// Strip the vault root from an absolute path.  A path outside the root is a
/// programming error and is excluded by the precondition; the caller fails
/// loudly instead.
pub fn relative_path_from_absolute_path(root: &str, absolute_path: &str) -> (r: String)
    requires
        strippable(root@, absolute_path@),
    ensures
        r@ == rel_of(root@, absolute_path@),
{
    let rl = root.unicode_len();
    let al = absolute_path.unicode_len();
    if root.get_char(rl - 1) == '/' {
        absolute_path.substring_char(rl, al).to_owned()
    } else {
        absolute_path.substring_char(rl + 1, al).to_owned()
    }
}

/// The kind of a raw filesystem notification, as the OS subscription reports
/// it.  A combined rename notification is redundant beside the two one-sided
/// ones and is treated as unhandled.
pub enum FsChangeKind {
    Create,
    Remove,
    DataModified,
    RenameFrom,
    RenameTo,
    Other,
}

/// One raw filesystem notification: its kind and its absolute paths.
pub struct FsChange {
    pub kind: FsChangeKind,
    pub paths: Vec<String>,
}

/// Whether the translator handles this notification kind; a handled
/// notification carries exactly one path.
pub open spec fn handled_kind(kind: FsChangeKind) -> bool {
    match kind {
        FsChangeKind::Other => false,
        _ => true,
    }
}

/// The canonical events for one raw notification: the path is filtered,
/// relativized, and mapped by kind.  A data modification forces a full
/// re-derivation: remove, then add.
pub open spec fn translate_spec(
    kind: FsChangeKind,
    path: Seq<char>,
    root: Seq<char>,
    filter: FileFilter,
) -> Seq<EventModel> {
    if !handled_kind(kind) || !filter.spec_accepts(path) {
        Seq::empty()
    } else {
        let rel = rel_of(root, path);
        match kind {
            FsChangeKind::Create => seq![EventModel::Add(rel)],
            FsChangeKind::Remove => seq![EventModel::Remove(rel)],
            FsChangeKind::DataModified => seq![EventModel::Remove(rel), EventModel::Add(rel)],
            FsChangeKind::RenameFrom => seq![EventModel::Remove(rel)],
            FsChangeKind::RenameTo => seq![EventModel::Add(rel)],
            FsChangeKind::Other => Seq::empty(),
        }
    }
}

/// The first path of a notification, if it has one.
pub open spec fn first_path(change: FsChange) -> Seq<char> {
    if change.paths@.len() > 0 {
        change.paths@[0]@
    } else {
        Seq::empty()
    }
}

/// Translate one raw notification into canonical events.  A handled
/// notification must carry exactly one path, and an accepted path must lie
/// strictly under the root; the caller checks both and fails loudly
/// otherwise.
pub fn translate(change: &FsChange, root: &str, filter: &FileFilter) -> (evs: Vec<IndexEvent>)
    requires
        handled_kind(change.kind) ==> change.paths@.len() == 1,
        handled_kind(change.kind) && filter.spec_accepts(first_path(*change)) ==> strippable(
            root@,
            first_path(*change),
        ),
    ensures
        events_view(evs@) == translate_spec(change.kind, first_path(*change), root@, *filter),
{
    let mut evs: Vec<IndexEvent> = Vec::new();
    let handled = match change.kind {
        FsChangeKind::Other => false,
        _ => true,
    };
    if !handled {
        assert(events_view(evs@) =~= translate_spec(
            change.kind,
            first_path(*change),
            root@,
            *filter,
        ));
        return evs;
    }
    let path = &change.paths[0];
    if !filter.accepts(path.as_str()) {
        assert(events_view(evs@) =~= translate_spec(
            change.kind,
            first_path(*change),
            root@,
            *filter,
        ));
        return evs;
    }
    let rel = relative_path_from_absolute_path(root, path.as_str());
    match change.kind {
        FsChangeKind::Create => {
            evs.push(IndexEvent::Add(rel));
        },
        FsChangeKind::Remove => {
            evs.push(IndexEvent::Remove(rel));
        },
        FsChangeKind::DataModified => {
            evs.push(IndexEvent::Remove(rel.clone()));
            evs.push(IndexEvent::Add(rel));
        },
        FsChangeKind::RenameFrom => {
            evs.push(IndexEvent::Remove(rel));
        },
        FsChangeKind::RenameTo => {
            evs.push(IndexEvent::Add(rel));
        },
        FsChangeKind::Other => {},
    }
    assert(events_view(evs@) =~= translate_spec(
        change.kind,
        first_path(*change),
        root@,
        *filter,
    ));
    evs
}

/// One regular file found on disk during the startup walk: its absolute path
/// and its modification time in seconds since the epoch.
pub struct DiskFile {
    pub abs_path: String,
    pub modified: u64,
}

/// The events one disk file contributes: if it is accepted and its
/// modification time is strictly newer than its recorded last indexed time
/// (0 when absent), it is re-derived by a remove followed by an add.
pub open spec fn entry_events(
    root: Seq<char>,
    filter: FileFilter,
    files: Map<Seq<char>, u64>,
    d: DiskFile,
) -> Seq<EventModel> {
    if filter.spec_accepts(d.abs_path@) {
        let rel = rel_of(root, d.abs_path@);
        let last: u64 = if files.dom().contains(rel) {
            files[rel]
        } else {
            0
        };
        if last < d.modified {
            seq![EventModel::Remove(rel), EventModel::Add(rel)]
        } else {
            Seq::empty()
        }
    } else {
        Seq::empty()
    }
}

/// The events of the walk over the disk files, in order.
pub open spec fn refresh_events(
    root: Seq<char>,
    filter: FileFilter,
    files: Map<Seq<char>, u64>,
    disk: Seq<DiskFile>,
) -> Seq<EventModel>
    decreases disk.len(),
{
    if disk.len() == 0 {
        Seq::empty()
    } else {
        refresh_events(root, filter, files, disk.drop_last()) + entry_events(
            root,
            filter,
            files,
            disk.last(),
        )
    }
}

/// Some accepted disk file has this relative path.
pub open spec fn on_disk(
    root: Seq<char>,
    filter: FileFilter,
    disk: Seq<DiskFile>,
    p: Seq<char>,
) -> bool {
    exists|i: int|
        0 <= i < disk.len() && filter.spec_accepts(disk[i].abs_path@) && rel_of(
            root,
            disk[i].abs_path@,
        ) == p
}

/// A remove for every store row whose path no longer stands on disk: those
/// files were deleted while the indexer was not running.
pub open spec fn stale_events(
    root: Seq<char>,
    filter: FileFilter,
    disk: Seq<DiskFile>,
    rows: Seq<File>,
) -> Seq<EventModel>
    decreases rows.len(),
{
    if rows.len() == 0 {
        Seq::empty()
    } else {
        stale_events(root, filter, disk, rows.drop_last()) + (if !on_disk(
            root,
            filter,
            disk,
            rows.last().path@,
        ) {
            seq![EventModel::Remove(rows.last().path@)]
        } else {
            Seq::empty()
        })
    }
}

/// The whole startup batch: a re-derivation pair for every accepted disk
/// file newer than its record, then a remove for every stale record.
pub open spec fn reconcile_spec(
    root: Seq<char>,
    filter: FileFilter,
    disk: Seq<DiskFile>,
    rows: Seq<File>,
) -> Seq<EventModel> {
    refresh_events(root, filter, files_map_of(rows), disk) + stale_events(
        root,
        filter,
        disk,
        rows,
    )
}


/// If no accepted disk file has the relative path `p`, the walk's events
/// never concern `p`.
proof fn lemma_refresh_no_touch(
    root: Seq<char>,
    filter: FileFilter,
    files: Map<Seq<char>, u64>,
    disk: Seq<DiskFile>,
    p: Seq<char>,
)
    requires
        forall|i: int|
            0 <= i < disk.len() && filter.spec_accepts(disk[i].abs_path@) ==> rel_of(
                root,
                disk[i].abs_path@,
            ) != p,
    ensures
        forall|j: int|
            0 <= j < refresh_events(root, filter, files, disk).len() ==> !touches(
                refresh_events(root, filter, files, disk)[j],
                p,
            ),
    decreases disk.len(),
{
    if disk.len() > 0 {
        assert(forall|i: int| 0 <= i < disk.len() - 1 ==> disk.drop_last()[i] == disk[i]);
        lemma_refresh_no_touch(root, filter, files, disk.drop_last(), p);
        assert(disk.last() == disk[disk.len() - 1]);
        let evs = refresh_events(root, filter, files, disk);
        let prefix = refresh_events(root, filter, files, disk.drop_last());
        let entry = entry_events(root, filter, files, disk.last());
        assert(evs == prefix + entry);
        assert forall|j: int| 0 <= j < evs.len() implies !touches(evs[j], p) by {
            if j < prefix.len() {
                assert(evs[j] == prefix[j]);
            } else {
                assert(evs[j] == entry[j - prefix.len()]);
            }
        }
    }
}

/// If the one accepted disk file with relative path `p` is newer than its
/// record, the walk emits an add for `p`, and nothing after it concerns `p`.
proof fn lemma_refresh_has_add(
    root: Seq<char>,
    filter: FileFilter,
    files: Map<Seq<char>, u64>,
    disk: Seq<DiskFile>,
    p: Seq<char>,
    di: int,
)
    requires
        0 <= di < disk.len(),
        filter.spec_accepts(disk[di].abs_path@),
        rel_of(root, disk[di].abs_path@) == p,
        (if files.dom().contains(p) {
            files[p]
        } else {
            0
        }) < disk[di].modified,
        forall|i: int|
            0 <= i < disk.len() && i != di && filter.spec_accepts(disk[i].abs_path@) ==> rel_of(
                root,
                disk[i].abs_path@,
            ) != p,
    ensures
        exists|i: int|
            #![trigger refresh_events(root, filter, files, disk)[i]]
            0 <= i < refresh_events(root, filter, files, disk).len() && refresh_events(
                root,
                filter,
                files,
                disk,
            )[i] == EventModel::Add(p) && (forall|j: int|
                i < j < refresh_events(root, filter, files, disk).len() ==> !touches(
                    refresh_events(root, filter, files, disk)[j],
                    p,
                )),
    decreases disk.len(),
{
    let evs = refresh_events(root, filter, files, disk);
    let prefix = refresh_events(root, filter, files, disk.drop_last());
    assert(disk.last() == disk[disk.len() - 1]);
    if di == disk.len() - 1 {
        assert(evs[evs.len() - 1] == EventModel::Add(p));
        assert(0 <= evs.len() - 1 < evs.len() && evs[evs.len() - 1] == EventModel::Add(p) && (
        forall|j: int| evs.len() - 1 < j < evs.len() ==> !touches(evs[j], p)));
    } else {
        assert(forall|i: int| 0 <= i < disk.len() - 1 ==> disk.drop_last()[i] == disk[i]);
        lemma_refresh_has_add(root, filter, files, disk.drop_last(), p, di);
        let i = choose|i: int|
            0 <= i < prefix.len() && prefix[i] == EventModel::Add(p) && (forall|j: int|
                i < j < prefix.len() ==> !touches(prefix[j], p));
        assert(evs[i] == EventModel::Add(p));
        assert(forall|j: int| i < j < evs.len() ==> !touches(evs[j], p)) by {
            assert(forall|j: int| i < j < prefix.len() ==> evs[j] == prefix[j]);
        }
        assert(0 <= i < evs.len() && evs[i] == EventModel::Add(p) && (forall|j: int|
            i < j < evs.len() ==> !touches(evs[j], p)));
    }
}

/// If `p` still stands on disk, the stale pass never concerns `p`.
proof fn lemma_stale_no_touch(
    root: Seq<char>,
    filter: FileFilter,
    disk: Seq<DiskFile>,
    rows: Seq<File>,
    p: Seq<char>,
)
    requires
        on_disk(root, filter, disk, p),
    ensures
        forall|j: int|
            0 <= j < stale_events(root, filter, disk, rows).len() ==> !touches(
                stale_events(root, filter, disk, rows)[j],
                p,
            ),
    decreases rows.len(),
{
    if rows.len() > 0 {
        lemma_stale_no_touch(root, filter, disk, rows.drop_last(), p);
        let evs = stale_events(root, filter, disk, rows);
        let prefix = stale_events(root, filter, disk, rows.drop_last());
        assert forall|j: int| 0 <= j < evs.len() implies !touches(evs[j], p) by {
            if j < prefix.len() {
                assert(evs[j] == prefix[j]);
            } else {
                assert(!on_disk(root, filter, disk, rows.last().path@));
            }
        }
    }
}

/// If a recorded path `p` no longer stands on disk, the stale pass emits a
/// remove for `p`, and nothing after it concerns `p`.
proof fn lemma_stale_has_remove(
    root: Seq<char>,
    filter: FileFilter,
    disk: Seq<DiskFile>,
    rows: Seq<File>,
    p: Seq<char>,
    ri: int,
)
    requires
        files_unique(rows),
        0 <= ri < rows.len(),
        rows[ri].path@ == p,
        !on_disk(root, filter, disk, p),
    ensures
        exists|i: int|
            #![trigger stale_events(root, filter, disk, rows)[i]]
            0 <= i < stale_events(root, filter, disk, rows).len() && stale_events(
                root,
                filter,
                disk,
                rows,
            )[i] == EventModel::Remove(p) && (forall|j: int|
                i < j < stale_events(root, filter, disk, rows).len() ==> !touches(
                    stale_events(root, filter, disk, rows)[j],
                    p,
                )),
    decreases rows.len(),
{
    let evs = stale_events(root, filter, disk, rows);
    let prefix = stale_events(root, filter, disk, rows.drop_last());
    assert(rows.last() == rows[rows.len() - 1]);
    if ri == rows.len() - 1 {
        assert(evs[evs.len() - 1] == EventModel::Remove(p));
        assert(0 <= evs.len() - 1 < evs.len() && evs[evs.len() - 1] == EventModel::Remove(p) && (
        forall|j: int| evs.len() - 1 < j < evs.len() ==> !touches(evs[j], p)));
    } else {
        assert(files_unique(rows.drop_last())) by {
            assert(forall|a: int, b: int|
                0 <= a < b < rows.drop_last().len() ==> rows.drop_last()[a].path@
                    != rows.drop_last()[b].path@);
        }
        lemma_stale_has_remove(root, filter, disk, rows.drop_last(), p, ri);
        let i = choose|i: int|
            0 <= i < prefix.len() && prefix[i] == EventModel::Remove(p) && (forall|j: int|
                i < j < prefix.len() ==> !touches(prefix[j], p));
        assert(rows[rows.len() - 1].path@ != p);
        assert(evs[i] == EventModel::Remove(p));
        assert(forall|j: int| i < j < evs.len() ==> !touches(evs[j], p)) by {
            assert(forall|j: int| i < j < prefix.len() ==> evs[j] == prefix[j]);
        }
        assert(0 <= i < evs.len() && evs[i] == EventModel::Remove(p) && (forall|j: int|
            i < j < evs.len() ==> !touches(evs[j], p)));
    }
}

/// The catch-up law: a file created or changed on disk while the indexer was
/// not running is indexed by the startup batch alone.  Once the batch is
/// applied, the store holds the file row and the note row of its path, with
/// no live notification delivered.
pub proof fn lemma_reconcile_catch_up(
    root: Seq<char>,
    filter: FileFilter,
    disk: Seq<DiskFile>,
    rows: Seq<File>,
    s: StoreModel,
    links: Seq<Option<Seq<LinkView>>>,
    nows: Seq<u64>,
    p: Seq<char>,
    di: int,
)
    requires
        s.files == files_map_of(rows),
        0 <= di < disk.len(),
        filter.spec_accepts(disk[di].abs_path@),
        rel_of(root, disk[di].abs_path@) == p,
        (if s.files.dom().contains(p) {
            s.files[p]
        } else {
            0
        }) < disk[di].modified,
        forall|i: int|
            0 <= i < disk.len() && i != di && filter.spec_accepts(disk[i].abs_path@) ==> rel_of(
                root,
                disk[i].abs_path@,
            ) != p,
        links.len() == reconcile_spec(root, filter, disk, rows).len(),
        nows.len() == reconcile_spec(root, filter, disk, rows).len(),
        links_match(reconcile_spec(root, filter, disk, rows), links),
    ensures
        ({
            let after = apply_events(s, reconcile_spec(root, filter, disk, rows), links, nows);
            &&& after.files.dom().contains(p)
            &&& after.notes.dom().contains(p)
            &&& after.notes[p] == crate::note::vault_path_of(p)
        }),
{
    let refresh = refresh_events(root, filter, s.files, disk);
    let stale = stale_events(root, filter, disk, rows);
    let evs = reconcile_spec(root, filter, disk, rows);
    assert(evs == refresh + stale);
    lemma_refresh_has_add(root, filter, s.files, disk, p, di);
    assert(on_disk(root, filter, disk, p));
    lemma_stale_no_touch(root, filter, disk, rows, p);
    let i = choose|i: int|
        0 <= i < refresh.len() && refresh[i] == EventModel::Add(p) && (forall|j: int|
            i < j < refresh.len() ==> !touches(refresh[j], p));
    assert(evs[i] == EventModel::Add(p));
    assert(forall|j: int| i < j < evs.len() ==> !touches(evs[j], p)) by {
        assert(forall|j: int| i < j < refresh.len() ==> evs[j] == refresh[j]);
        assert(forall|j: int|
            refresh.len() <= j < evs.len() ==> evs[j] == stale[j - refresh.len()]);
    }
    lemma_apply_events_add(s, evs, links, nows, p, i);
}

/// The stale-entry law: a recorded path whose file was deleted from disk
/// while the indexer was not running is cleaned up by the startup batch
/// alone.  Once the batch is applied, no table holds a record of it.
pub proof fn lemma_reconcile_stale_cleanup(
    root: Seq<char>,
    filter: FileFilter,
    disk: Seq<DiskFile>,
    rows: Seq<File>,
    s: StoreModel,
    links: Seq<Option<Seq<LinkView>>>,
    nows: Seq<u64>,
    p: Seq<char>,
    ri: int,
)
    requires
        s.files == files_map_of(rows),
        files_unique(rows),
        0 <= ri < rows.len(),
        rows[ri].path@ == p,
        !on_disk(root, filter, disk, p),
        links.len() == reconcile_spec(root, filter, disk, rows).len(),
        nows.len() == reconcile_spec(root, filter, disk, rows).len(),
        links_match(reconcile_spec(root, filter, disk, rows), links),
    ensures
        ({
            let after = apply_events(s, reconcile_spec(root, filter, disk, rows), links, nows);
            &&& !after.files.dom().contains(p)
            &&& !after.notes.dom().contains(p)
            &&& forall|k: (Seq<char>, usize)| k.0 == p ==> !after.links.dom().contains(k)
        }),
{
    let refresh = refresh_events(root, filter, s.files, disk);
    let stale = stale_events(root, filter, disk, rows);
    let evs = reconcile_spec(root, filter, disk, rows);
    assert(evs == refresh + stale);
    assert(forall|i: int|
        0 <= i < disk.len() && filter.spec_accepts(disk[i].abs_path@) ==> rel_of(
            root,
            disk[i].abs_path@,
        ) != p);
    lemma_refresh_no_touch(root, filter, s.files, disk, p);
    lemma_stale_has_remove(root, filter, disk, rows, p, ri);
    let i = choose|i: int|
        0 <= i < stale.len() && stale[i] == EventModel::Remove(p) && (forall|j: int|
            i < j < stale.len() ==> !touches(stale[j], p));
    let fi = refresh.len() + i;
    assert(evs[fi] == EventModel::Remove(p));
    assert(forall|j: int| fi < j < evs.len() ==> !touches(evs[j], p)) by {
        assert(forall|j: int|
            refresh.len() <= j < evs.len() ==> evs[j] == stale[j - refresh.len()]);
    }
    lemma_apply_events_remove(s, evs, links, nows, p, fi);
}

/// Whether some accepted disk file has the relative path `p`.
fn is_on_disk(root: &str, filter: &FileFilter, disk: &Vec<DiskFile>, p: &String) -> (r: bool)
    requires
        forall|i: int|
            0 <= i < disk@.len() && filter.spec_accepts(disk@[i].abs_path@) ==> strippable(
                root@,
                disk@[i].abs_path@,
            ),
    ensures
        r == on_disk(root@, *filter, disk@, p@),
{
    let n = disk.len();
    let mut j: usize = 0;
    while j < n
        invariant
            0 <= j <= n,
            n == disk@.len(),
            forall|i: int|
                0 <= i < disk@.len() && filter.spec_accepts(disk@[i].abs_path@) ==> strippable(
                    root@,
                    disk@[i].abs_path@,
                ),
            forall|i: int|
                0 <= i < j ==> !(filter.spec_accepts(disk@[i].abs_path@) && rel_of(
                    root@,
                    disk@[i].abs_path@,
                ) == p@),
        decreases n - j,
    {
        if filter.accepts(disk[j].abs_path.as_str()) {
            let rel = relative_path_from_absolute_path(root, disk[j].abs_path.as_str());
            if rel == *p {
                return true;
            }
        }
        j = j + 1;
    }
    false
}

/// The startup pass: walk the disk snapshot against the recorded last
/// indexed times and produce the catch-up batch.  Accepted paths must lie
/// strictly under the root (an unreadable or foreign path is fatal for the
/// walk, before this pass).
pub fn reconcile(root: &str, filter: &FileFilter, disk: &Vec<DiskFile>, store: &IndexStore) -> (evs:
    Vec<IndexEvent>)
    requires
        store.wf(),
        forall|i: int|
            0 <= i < disk@.len() && filter.spec_accepts(disk@[i].abs_path@) ==> strippable(
                root@,
                disk@[i].abs_path@,
            ),
    ensures
        events_view(evs@) == reconcile_spec(root@, *filter, disk@, store.files@),
{
    let mut evs: Vec<IndexEvent> = Vec::new();
    let ghost files = store@.files;
    let n = disk.len();
    let mut i: usize = 0;
    while i < n
        invariant
            0 <= i <= n,
            n == disk@.len(),
            store.wf(),
            files == store@.files,
            forall|k: int|
                0 <= k < disk@.len() && filter.spec_accepts(disk@[k].abs_path@) ==> strippable(
                    root@,
                    disk@[k].abs_path@,
                ),
            events_view(evs@) =~= refresh_events(root@, *filter, files, disk@.take(i as int)),
        decreases n - i,
    {
        proof {
            assert(disk@.take(i + 1).drop_last() =~= disk@.take(i as int));
            assert(disk@.take(i + 1).last() == disk@[i as int]);
        }
        let ghost prev = evs@;
        if filter.accepts(disk[i].abs_path.as_str()) {
            let rel = relative_path_from_absolute_path(root, disk[i].abs_path.as_str());
            let last: u64 = match store.file_time(&rel) {
                Some(t) => t,
                None => 0,
            };
            if last < disk[i].modified {
                evs.push(IndexEvent::Remove(rel.clone()));
                evs.push(IndexEvent::Add(rel));
            }
        }
        proof {
            assert(events_view(evs@) =~= refresh_events(root@, *filter, files, disk@.take(i + 1)));
        }
        i = i + 1;
    }
    proof {
        assert(disk@.take(n as int) =~= disk@);
    }
    let rows = store.files.len();
    let mut k: usize = 0;
    while k < rows
        invariant
            0 <= k <= rows,
            rows == store.files@.len(),
            store.wf(),
            files == store@.files,
            forall|j: int|
                0 <= j < disk@.len() && filter.spec_accepts(disk@[j].abs_path@) ==> strippable(
                    root@,
                    disk@[j].abs_path@,
                ),
            events_view(evs@) =~= refresh_events(root@, *filter, files, disk@) + stale_events(
                root@,
                *filter,
                disk@,
                store.files@.take(k as int),
            ),
        decreases rows - k,
    {
        proof {
            assert(store.files@.take(k + 1).drop_last() =~= store.files@.take(k as int));
            assert(store.files@.take(k + 1).last() == store.files@[k as int]);
        }
        let ghost prev = evs@;
        if !is_on_disk(root, filter, disk, &store.files[k].path) {
            evs.push(IndexEvent::Remove(store.files[k].path.clone()));
            proof {
                assert(events_view(evs@) =~= events_view(prev).push(
                    EventModel::Remove(store.files@[k as int].path@),
                ));
            }
        }
        proof {
            assert(events_view(evs@) =~= refresh_events(root@, *filter, files, disk@)
                + stale_events(root@, *filter, disk@, store.files@.take(k + 1)));
        }
        k = k + 1;
    }
    proof {
        assert(store.files@.take(rows as int) =~= store.files@);
        assert(events_view(evs@) =~= reconcile_spec(root@, *filter, disk@, store.files@));
    }
    evs
}

} // verus!
