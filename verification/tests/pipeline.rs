//! The indexing pipeline applied to canonical events: idempotent removes,
//! replace-on-readd, referential ordering, link normalization, and a full
//! two-note scenario.

use zk_index::indexer::{indexer_create, IndexExt, Indexer, IndexerInitConfig};
use zk_index::link_index::link_url_to_rel_path;
use zk_index::markdown_index::{DocNode, NodeKind};
use zk_index::store::IndexStore;
use zk_index::watcher::IndexEvent;

fn new_indexer(root: &str) -> Indexer {
    let (sender, receiver) = std::sync::mpsc::channel();
    drop(sender);
    let mut indexer = indexer_create(root.to_string(), receiver);
    let config = IndexerInitConfig {
        vault_root_path: root.to_string(),
        index_dir: format!("{}/.zk_index", root),
    };
    indexer.init(&config);
    indexer
}

fn link_node(url: &str, start: usize, end: usize) -> DocNode {
    DocNode {
        kind: NodeKind::Link { url: url.to_string() },
        srcmap: Some((start, end)),
        children: Vec::new(),
    }
}

fn wiki_node(target: &str, start: usize, end: usize) -> DocNode {
    DocNode {
        kind: NodeKind::Wiki { target: target.to_string() },
        srcmap: Some((start, end)),
        children: Vec::new(),
    }
}

fn doc_with(children: Vec<DocNode>) -> DocNode {
    DocNode { kind: NodeKind::Other, srcmap: None, children }
}

fn has_link(store: &IndexStore, from: &str, to: &str) -> bool {
    store.links.iter().any(|l| l.from == from && l.to == to)
}

#[test]
fn remove_of_never_added_path_changes_nothing() {
    let mut indexer = new_indexer("/vault");
    let mut store = IndexStore::new();

    indexer.handle_single_event(&mut store, &IndexEvent::Remove("ghost.md".to_string()), None, 1);
    assert!(store.files.is_empty());
    assert!(store.notes.is_empty());
    assert!(store.links.is_empty());

    let doc = doc_with(vec![link_node("file2", 15, 28)]);
    indexer.handle_single_event(
        &mut store,
        &IndexEvent::Add("file1.md".to_string()),
        Some(&doc),
        2,
    );
    let files_before = store.files.len();
    let notes_before = store.notes.len();
    let links_before = store.links.len();

    indexer.handle_single_event(&mut store, &IndexEvent::Remove("other.md".to_string()), None, 3);
    assert_eq!(store.files.len(), files_before);
    assert_eq!(store.notes.len(), notes_before);
    assert_eq!(store.links.len(), links_before);
    assert!(has_link(&store, "file1.md", "file2"));
}

#[test]
fn readd_replaces_instead_of_duplicating() {
    let mut indexer = new_indexer("/vault");
    let mut store = IndexStore::new();
    let doc = doc_with(vec![link_node("file2", 15, 28)]);

    indexer.handle_single_event(
        &mut store,
        &IndexEvent::Add("file1.md".to_string()),
        Some(&doc),
        10,
    );
    indexer.handle_single_event(
        &mut store,
        &IndexEvent::Add("file1.md".to_string()),
        Some(&doc),
        11,
    );

    assert_eq!(store.files.len(), 1);
    assert_eq!(store.notes.len(), 1);
    assert_eq!(store.links.len(), 1);
    assert!(has_link(&store, "file1.md", "file2"));
}

#[test]
fn referential_ordering_after_add() {
    let mut indexer = new_indexer("/vault");
    let mut store = IndexStore::new();
    let doc = doc_with(vec![link_node("file2", 15, 28)]);

    indexer.handle_single_event(
        &mut store,
        &IndexEvent::Add("file1.md".to_string()),
        Some(&doc),
        10,
    );

    assert_eq!(store.files.len(), 1);
    assert_eq!(store.files[0].path, "file1.md");
    assert_eq!(store.notes.len(), 1);
    assert_eq!(store.notes[0].file, "file1.md");
    assert_eq!(store.notes[0].vault_path, "file1");
    assert_eq!(store.links.len(), 1);
    assert_eq!(store.links[0].from, "file1.md");
    assert_eq!(store.links[0].start, 15);
    assert_eq!(store.links[0].end, 28);

    // A file and a note row exist for the source of every link row.
    for link in &store.links {
        assert!(store.files.iter().any(|f| f.path == link.from));
        assert!(store.notes.iter().any(|n| n.file == link.from));
    }
}

#[test]
fn last_indexed_time_never_decreases() {
    let mut indexer = new_indexer("/vault");
    let mut store = IndexStore::new();

    indexer.handle_single_event(&mut store, &IndexEvent::Add("a.md".to_string()), None, 100);
    assert_eq!(store.files[0].last_indexed, 100);

    indexer.handle_single_event(&mut store, &IndexEvent::Add("a.md".to_string()), None, 50);
    assert_eq!(store.files.len(), 1);
    assert_eq!(store.files[0].last_indexed, 100);

    indexer.handle_single_event(&mut store, &IndexEvent::Add("a.md".to_string()), None, 150);
    assert_eq!(store.files[0].last_indexed, 150);
}

#[test]
fn non_markdown_note_gets_no_link_rows() {
    let mut indexer = new_indexer("/vault");
    let mut store = IndexStore::new();
    let doc = doc_with(vec![link_node("file2", 0, 5)]);

    indexer.handle_single_event(
        &mut store,
        &IndexEvent::Add("data.csv".to_string()),
        Some(&doc),
        10,
    );
    assert_eq!(store.files.len(), 1);
    assert_eq!(store.notes.len(), 1);
    assert_eq!(store.notes[0].vault_path, "data.csv");
    assert!(store.links.is_empty());
}

#[test]
fn link_normalization_strips_dot_slash_and_percent_encoding() {
    assert_eq!(link_url_to_rel_path("./file2"), "file2".to_string());
    assert_eq!(link_url_to_rel_path("Some%20Note.md"), "Some Note.md".to_string());
    assert_eq!(link_url_to_rel_path("./a%2Fb"), "a/b".to_string());
    assert_eq!(link_url_to_rel_path("https://example.com/x%20y"), "https://example.com/x y".to_string());
    assert_eq!(link_url_to_rel_path("plain"), "plain".to_string());

    let mut indexer = new_indexer("/vault");
    let mut store = IndexStore::new();
    let doc = doc_with(vec![link_node("./file2", 3, 18), wiki_node("file1", 20, 29)]);

    indexer.handle_single_event(
        &mut store,
        &IndexEvent::Add("file1.md".to_string()),
        Some(&doc),
        10,
    );
    assert_eq!(store.links.len(), 2);
    assert!(has_link(&store, "file1.md", "file2"));
    assert!(has_link(&store, "file1.md", "file1"));
}

#[test]
fn remove_cascades_through_every_table() {
    let mut indexer = new_indexer("/vault");
    let mut store = IndexStore::new();
    let doc = doc_with(vec![link_node("file2", 15, 28)]);

    indexer.handle_single_event(
        &mut store,
        &IndexEvent::Add("file1.md".to_string()),
        Some(&doc),
        10,
    );
    indexer.handle_single_event(
        &mut store,
        &IndexEvent::Remove("file1.md".to_string()),
        None,
        11,
    );

    assert!(store.files.is_empty());
    assert!(store.notes.is_empty());
    assert!(store.links.is_empty());
}

#[test]
fn nested_document_links_are_collected() {
    let mut indexer = new_indexer("/vault");
    let mut store = IndexStore::new();
    let paragraph = DocNode {
        kind: NodeKind::Other,
        srcmap: Some((0, 40)),
        children: vec![link_node("a", 2, 10), wiki_node("b", 12, 19)],
    };
    let doc = doc_with(vec![paragraph, link_node("c", 25, 33)]);

    indexer.handle_single_event(
        &mut store,
        &IndexEvent::Add("file1.md".to_string()),
        Some(&doc),
        10,
    );
    assert_eq!(store.links.len(), 3);
    assert!(has_link(&store, "file1.md", "a"));
    assert!(has_link(&store, "file1.md", "b"));
    assert!(has_link(&store, "file1.md", "c"));
}

#[test]
fn test_indexing() {
    // Two notes, each linking to the other, indexed from an empty store.
    let mut indexer = new_indexer("/vault");
    let mut store = IndexStore::new();

    // "Hello File1, a [link](file2)."
    let doc1 = doc_with(vec![link_node("file2", 15, 28)]);
    // "Hello File2, another [link](file1) back."
    let doc2 = doc_with(vec![link_node("file1", 21, 34)]);

    indexer.handle_single_event(
        &mut store,
        &IndexEvent::Add("file1.md".to_string()),
        Some(&doc1),
        10,
    );
    indexer.handle_single_event(
        &mut store,
        &IndexEvent::Add("file2.md".to_string()),
        Some(&doc2),
        11,
    );

    assert_eq!(store.links.len(), 2);
    assert!(has_link(&store, "file1.md", "file2"));
    assert!(has_link(&store, "file2.md", "file1"));

    // Append "Another link to myself [file1](file1)." to file1 and
    // reprocess: a data modification is a remove followed by an add.
    let doc1b = doc_with(vec![link_node("file2", 15, 28), link_node("file1", 52, 66)]);
    indexer.handle_single_event(
        &mut store,
        &IndexEvent::Remove("file1.md".to_string()),
        None,
        12,
    );
    indexer.handle_single_event(
        &mut store,
        &IndexEvent::Add("file1.md".to_string()),
        Some(&doc1b),
        13,
    );

    assert_eq!(store.links.len(), 3);
    assert!(has_link(&store, "file1.md", "file2"));
    assert!(has_link(&store, "file1.md", "file1"));
    assert!(has_link(&store, "file2.md", "file1"));
}

#[test]
fn duplicate_start_offsets_keep_only_the_latest_row() {
    let mut indexer = new_indexer("/vault");
    let mut store = IndexStore::new();
    // Two occurrences with the same (source, start) key: insert-or-replace
    // keeps the later one.
    let doc = doc_with(vec![link_node("a", 5, 9), link_node("b", 5, 10)]);

    indexer.handle_single_event(
        &mut store,
        &IndexEvent::Add("file1.md".to_string()),
        Some(&doc),
        10,
    );
    assert_eq!(store.links.len(), 1);
    assert_eq!(store.links[0].to, "b");
    assert_eq!(store.links[0].end, 10);
}

#[test]
fn markdown_note_without_readable_document_keeps_file_and_note_rows() {
    let mut indexer = new_indexer("/vault");
    let mut store = IndexStore::new();

    indexer.handle_single_event(&mut store, &IndexEvent::Add("file1.md".to_string()), None, 10);
    assert_eq!(store.files.len(), 1);
    assert_eq!(store.notes.len(), 1);
    assert!(store.links.is_empty());
}
