//! The note stage: it owns the note table, one row per existing file, with
//! the display path.

use vstd::prelude::*;

use crate::indexer::{IndexExt, NoteItem};
use crate::markdown_index::MarkdownIndex;
use crate::store::{IndexStore, SqliteInitConfig, StoreModel};

verus! {

/// The note stage: writes the note row of each added file before the
/// document stages run, so that their rows can refer to it.
pub struct NoteIndex {
    pub initialized: bool,
    pub child_extensions: MarkdownIndex,
}

impl NoteIndex {
    pub fn new() -> (r: NoteIndex)
        ensures
            !r.inv(),
    {
        NoteIndex { initialized: false, child_extensions: MarkdownIndex::new() }
    }
}

impl<'a> IndexExt<'a> for NoteIndex {
    type InitCfg = SqliteInitConfig;

    type NoteIn = NoteItem<'a>;

    open spec fn inv(&self) -> bool {
        self.initialized && self.child_extensions.inv()
    }

    open spec fn index_pre(&self, s: StoreModel, item: NoteItem<'a>) -> bool {
        s.files.dom().contains(item.note.rel_path@)
    }

    open spec fn index_post(&self, s: StoreModel, item: NoteItem<'a>, now: u64) -> StoreModel {
        self.child_extensions.index_post(
            StoreModel { notes: s.notes.insert(item.note.rel_path@, item.note.vault_path@), ..s },
            item,
            now,
        )
    }

    open spec fn remove_post(&self, s: StoreModel, path: Seq<char>) -> StoreModel {
        self.child_extensions.remove_post(StoreModel { notes: s.notes.remove(path), ..s }, path)
    }

    /// Set up the note table, then the children, in order.
    fn init(&mut self, config: &SqliteInitConfig) {
        self.initialized = true;
        self.child_extensions.init(config);
    }

    /// Replace the note row of the note, then fan out.  The file row was
    /// written by the stage above: the note row refers to it.
    fn index(&mut self, store: &mut IndexStore, item: &NoteItem<'a>, now: u64) {
        store.upsert_note(&item.note.rel_path, &item.note.vault_path);
        self.child_extensions.index(store, item, now);
    }

    /// Delete the note row of the path, then fan out unconditionally.
    fn remove(&mut self, store: &mut IndexStore, rel_path: &String) {
        store.delete_note(rel_path);
        self.child_extensions.remove(store, rel_path);
    }
}

} // verus!
