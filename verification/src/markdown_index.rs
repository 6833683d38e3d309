//! The markdown stage: decides whether a note is a markdown document and, if
//! so, fans the parsed document out to the link extraction child.

use vstd::prelude::*;

use crate::indexer::{is_document_item, IndexExt, NoteItem};
use crate::link_index::LinkIndex;
use crate::note::Note;
use crate::store::{IndexStore, SqliteInitConfig, StoreModel};
use crate::text::str_eq;

verus! {

/// One node of a parsed markdown document: a tree of typed spans.  The
/// tokenizer that produces this tree is an external collaborator; the
/// pipeline only reads the node kinds, source spans and children.
pub enum NodeKind {
    /// A standard markdown hyperlink with its raw target as written.
    Link { url: String },
    /// A bracketed wikilink with its raw target as written.
    Wiki { target: String },
    /// Any other node kind; only its children matter here.
    Other,
}

/// A parsed document node: its kind, its byte span in the source text when
/// the tokenizer recorded one, and its child nodes.
pub struct DocNode {
    pub kind: NodeKind,
    pub srcmap: Option<(usize, usize)>,
    pub children: Vec<DocNode>,
}

/// A note together with its parsed document: the item the document stages
/// consume.
pub struct MarkdownNote<'a> {
    pub note: &'a Note,
    pub markdown: &'a DocNode,
}

/// The markdown stage: it owns no records itself; it decides whether the
/// item is a markdown document and, if so, passes the derived item on.
pub struct MarkdownIndex {
    pub child_extensions: LinkIndex,
}

impl MarkdownIndex {
    pub fn new() -> (r: MarkdownIndex)
        ensures
            !r.inv(),
    {
        MarkdownIndex { child_extensions: LinkIndex::new() }
    }
}

impl<'a> IndexExt<'a> for MarkdownIndex {
    type InitCfg = SqliteInitConfig;

    type NoteIn = NoteItem<'a>;

    open spec fn inv(&self) -> bool {
        self.child_extensions.inv()
    }

    open spec fn index_pre(&self, s: StoreModel, item: NoteItem<'a>) -> bool {
        is_document_item(item) ==> s.notes.dom().contains(item.note.rel_path@)
    }

    open spec fn index_post(&self, s: StoreModel, item: NoteItem<'a>, now: u64) -> StoreModel {
        if is_document_item(item) {
            match item.doc {
                Option::Some(d) => self.child_extensions.index_post(
                    s,
                    MarkdownNote { note: &item.note, markdown: d },
                    now,
                ),
                Option::None => s,
            }
        } else {
            s
        }
    }

    open spec fn remove_post(&self, s: StoreModel, path: Seq<char>) -> StoreModel {
        self.child_extensions.remove_post(s, path)
    }

    fn init(&mut self, config: &SqliteInitConfig) {
        self.child_extensions.init(config);
    }

    /// Apply the item: for a markdown note with a parsed document, pass the
    /// derived item to the children; otherwise the children are not invoked.
    fn index(&mut self, store: &mut IndexStore, item: &NoteItem<'a>, now: u64) {
        let is_md = match &item.note.extension {
            Some(e) => str_eq(e.as_str(), "md"),
            None => false,
        };
        if is_md {
            match item.doc {
                Some(d) => {
                    let md_note = MarkdownNote { note: &item.note, markdown: d };
                    self.child_extensions.index(store, &md_note, now);
                },
                None => {},
            }
        }
    }

    fn remove(&mut self, store: &mut IndexStore, rel_path: &String) {
        self.child_extensions.remove(store, rel_path);
    }
}

} // verus!
