//! The change translator and the startup reconciliation pass.

use zk_index::indexer::{indexer_create, IndexExt, Indexer, IndexerInitConfig};
use zk_index::markdown_index::{DocNode, NodeKind};
use zk_index::store::IndexStore;
use zk_index::watcher::{
    reconcile, translate, DiskFile, FileFilter, FsChange, FsChangeKind, IndexEvent,
};

fn accept_all() -> FileFilter {
    FileFilter { exclude_hidden: false, excluded_prefix: None }
}

fn hidden_filter() -> FileFilter {
    FileFilter { exclude_hidden: true, excluded_prefix: None }
}

fn new_indexer(root: &str) -> Indexer {
    let (sender, receiver) = std::sync::mpsc::channel();
    drop(sender);
    let mut indexer = indexer_create(root.to_string(), receiver);
    let config = IndexerInitConfig {
        vault_root_path: root.to_string(),
        index_dir: format!("{}/.zk_index", root),
    };
    indexer.init(&config);
    indexer
}

fn change(kind: FsChangeKind, path: &str) -> FsChange {
    FsChange { kind, paths: vec![path.to_string()] }
}

fn is_add(ev: &IndexEvent, path: &str) -> bool {
    matches!(ev, IndexEvent::Add(p) if p == path)
}

fn is_remove(ev: &IndexEvent, path: &str) -> bool {
    matches!(ev, IndexEvent::Remove(p) if p == path)
}

#[test]
fn translate_create_emits_add() {
    let evs = translate(&change(FsChangeKind::Create, "/v/a.md"), "/v", &accept_all());
    assert_eq!(evs.len(), 1);
    assert!(is_add(&evs[0], "a.md"));
}

#[test]
fn translate_remove_emits_remove() {
    let evs = translate(&change(FsChangeKind::Remove, "/v/a.md"), "/v", &accept_all());
    assert_eq!(evs.len(), 1);
    assert!(is_remove(&evs[0], "a.md"));
}

#[test]
fn translate_data_modification_emits_remove_then_add() {
    let evs = translate(&change(FsChangeKind::DataModified, "/v/a.md"), "/v", &accept_all());
    assert_eq!(evs.len(), 2);
    assert!(is_remove(&evs[0], "a.md"));
    assert!(is_add(&evs[1], "a.md"));
}

#[test]
fn translate_rename_halves_emit_one_event_each() {
    let from = translate(&change(FsChangeKind::RenameFrom, "/v/old.md"), "/v", &accept_all());
    assert_eq!(from.len(), 1);
    assert!(is_remove(&from[0], "old.md"));

    let to = translate(&change(FsChangeKind::RenameTo, "/v/new.md"), "/v", &accept_all());
    assert_eq!(to.len(), 1);
    assert!(is_add(&to[0], "new.md"));
}

#[test]
fn translate_unhandled_kind_emits_nothing() {
    let evs = translate(
        &FsChange { kind: FsChangeKind::Other, paths: Vec::new() },
        "/v",
        &accept_all(),
    );
    assert!(evs.is_empty());
}

#[test]
fn translate_filtered_path_emits_nothing() {
    let evs = translate(
        &change(FsChangeKind::Create, "/v/.zk_index/index.db"),
        "/v",
        &hidden_filter(),
    );
    assert!(evs.is_empty());

    let excluded = FileFilter {
        exclude_hidden: false,
        excluded_prefix: Some("/v/cache".to_string()),
    };
    let evs = translate(&change(FsChangeKind::Create, "/v/cache/a.md"), "/v", &excluded);
    assert!(evs.is_empty());
}

#[test]
fn reconcile_emits_pair_for_new_file() {
    // A file created on disk while the watcher was not running.
    let store = IndexStore::new();
    let disk = vec![DiskFile { abs_path: "/v/new.md".to_string(), modified: 100 }];
    let evs = reconcile("/v", &accept_all(), &disk, &store);
    assert_eq!(evs.len(), 2);
    assert!(is_remove(&evs[0], "new.md"));
    assert!(is_add(&evs[1], "new.md"));
}

#[test]
fn reconcile_skips_unchanged_file() {
    let mut store = IndexStore::new();
    store.upsert_file(&"same.md".to_string(), 100);
    let disk = vec![DiskFile { abs_path: "/v/same.md".to_string(), modified: 100 }];
    let evs = reconcile("/v", &accept_all(), &disk, &store);
    assert!(evs.is_empty());
}

#[test]
fn reconcile_reindexes_modified_file() {
    let mut store = IndexStore::new();
    store.upsert_file(&"old.md".to_string(), 100);
    let disk = vec![DiskFile { abs_path: "/v/old.md".to_string(), modified: 101 }];
    let evs = reconcile("/v", &accept_all(), &disk, &store);
    assert_eq!(evs.len(), 2);
    assert!(is_remove(&evs[0], "old.md"));
    assert!(is_add(&evs[1], "old.md"));
}

#[test]
fn reconcile_removes_stale_entries() {
    let mut store = IndexStore::new();
    store.upsert_file(&"kept.md".to_string(), 100);
    store.upsert_file(&"gone.md".to_string(), 100);
    let disk = vec![DiskFile { abs_path: "/v/kept.md".to_string(), modified: 90 }];
    let evs = reconcile("/v", &accept_all(), &disk, &store);
    assert_eq!(evs.len(), 1);
    assert!(is_remove(&evs[0], "gone.md"));
}

#[test]
fn reconcile_ignores_filtered_disk_files() {
    let store = IndexStore::new();
    let disk = vec![DiskFile { abs_path: "/v/.zk_index/index.db".to_string(), modified: 50 }];
    let evs = reconcile("/v", &hidden_filter(), &disk, &store);
    assert!(evs.is_empty());
}

#[test]
fn catch_up_indexes_file_created_while_stopped() {
    // The watcher was not running while new.md appeared; starting it brings
    // the store up to date with no live notification delivered.
    let mut indexer = new_indexer("/v");
    let mut store = IndexStore::new();
    let disk = vec![DiskFile { abs_path: "/v/new.md".to_string(), modified: 100 }];

    let evs = reconcile("/v", &accept_all(), &disk, &store);
    let doc = DocNode { kind: NodeKind::Other, srcmap: None, children: Vec::new() };
    for ev in &evs {
        indexer.handle_single_event(&mut store, ev, Some(&doc), 100);
    }

    assert_eq!(store.notes.len(), 1);
    assert_eq!(store.notes[0].file, "new.md");
    assert_eq!(store.notes[0].vault_path, "new");
}

#[test]
fn stale_entry_is_cleaned_up_after_restart() {
    // gone.md was indexed, then deleted from disk while the watcher was not
    // running; after restart no trace of it remains.
    let mut indexer = new_indexer("/v");
    let mut store = IndexStore::new();
    let doc = DocNode {
        kind: NodeKind::Other,
        srcmap: None,
        children: vec![DocNode {
            kind: NodeKind::Link { url: "elsewhere".to_string() },
            srcmap: Some((0, 10)),
            children: Vec::new(),
        }],
    };
    indexer.handle_single_event(
        &mut store,
        &IndexEvent::Add("gone.md".to_string()),
        Some(&doc),
        100,
    );
    assert_eq!(store.files.len(), 1);
    assert_eq!(store.links.len(), 1);

    let disk: Vec<DiskFile> = Vec::new();
    let evs = reconcile("/v", &accept_all(), &disk, &store);
    for ev in &evs {
        indexer.handle_single_event(&mut store, ev, None, 101);
    }

    assert!(store.files.is_empty());
    assert!(store.notes.is_empty());
    assert!(store.links.is_empty());
}
