//! The indexing pipeline: a rooted tree of stages.  Each stage owns part of
//! the persisted schema, writes its own records before fanning out to its
//! children, and removes its records idempotently whatever the pipeline
//! depth.

use vstd::prelude::*;

use crate::markdown_index::DocNode;
use crate::note::{ext_of, vault_path_of, Note};
use crate::store::models::LinkView;
use crate::store::{lemma_with_links_same_at, lemma_with_links_untouched, next_time, with_links,
    without_source, IndexStore, SqliteIndex, StoreModel};
use crate::link_index::links_of_node;
use crate::watcher::{EventModel, IndexEvent};

verus! {

/// The receiver half of the event queue between the watcher and the
/// pipeline.  Relies on std::sync::mpsc::Receiver; the pipeline only holds
/// it, the surrounding program drains it.
#[verifier::external_type_specification]
#[verifier::external_body]
#[verifier::reject_recursive_types(T)]
pub struct ExReceiver<T>(std::sync::mpsc::Receiver<T>);

/// One stage of the indexing pipeline.  `Init` must complete the stage's own
/// setup before its children's, in declared child order; `index` writes the
/// stage's own records before fanning out; `remove` deletes its own records
/// and always fans out, whether or not anything was deleted.
pub trait IndexExt<'a>: Sized {
    type InitCfg;

    type NoteIn;

    /// The stage has acquired what it needs to index.
    spec fn inv(&self) -> bool;

    /// What the store must already hold before this stage applies an item:
    /// the records its own rows refer to.
    spec fn index_pre(&self, s: StoreModel, item: Self::NoteIn) -> bool;

    /// The store after this stage and its children apply an item.
    spec fn index_post(&self, s: StoreModel, item: Self::NoteIn, now: u64) -> StoreModel;

    /// The store after this stage and its children remove a path.
    spec fn remove_post(&self, s: StoreModel, path: Seq<char>) -> StoreModel;

    /// Initialize the stage, then its children, in order.
    fn init(&mut self, config: &Self::InitCfg)
        ensures
            final(self).inv(),
    ;

    /// Apply an item: write this stage's records, then fan out to children.
    fn index(&mut self, store: &mut IndexStore, item: &Self::NoteIn, now: u64)
        requires
            old(self).inv(),
            old(store).wf(),
            old(self).index_pre(old(store)@, *item),
        ensures
            *final(self) == *old(self),
            final(store).wf(),
            final(store)@ == old(self).index_post(old(store)@, *item, now),
    ;

    /// Remove a path: delete this stage's records (absence is not an error),
    /// then fan out to children unconditionally.
    fn remove(&mut self, store: &mut IndexStore, rel_path: &String)
        requires
            old(self).inv(),
            old(store).wf(),
        ensures
            *final(self) == *old(self),
            final(store).wf(),
            final(store)@ == old(self).remove_post(old(store)@, rel_path@),
    ;
}

/// The configuration handed to every stage at startup.
pub struct IndexerInitConfig {
    pub vault_root_path: String,
    pub index_dir: String,
}

impl Clone for IndexerInitConfig {
    fn clone(&self) -> (res: Self)
        ensures
            res == *self,
    {
        IndexerInitConfig {
            vault_root_path: self.vault_root_path.clone(),
            index_dir: self.index_dir.clone(),
        }
    }
}

/// The item the upper pipeline stages consume: the note, and its parsed
/// document when the note is a document and its content could be read and
/// parsed.
pub struct NoteItem<'a> {
    pub note: Note,
    pub doc: Option<&'a DocNode>,
}

/// Whether an added note descends into the document stages: it carries the
/// markdown extension and a parsed document.
pub open spec fn is_document_item(item: NoteItem) -> bool {
    crate::text::opt_view(item.note.extension) == Option::Some("md"@) && item.doc is Some
}

/// The store after an add of `rel`: the file row is replaced with a
/// monotonically advanced time, the note row is replaced, and, for a parsed
/// document, the link rows of the source are replaced by `links`.
pub open spec fn store_after_add(
    s: StoreModel,
    rel: Seq<char>,
    vault: Seq<char>,
    links: Option<Seq<LinkView>>,
    now: u64,
) -> StoreModel {
    let files2 = s.files.insert(rel, next_time(s, rel, now));
    let notes2 = s.notes.insert(rel, vault);
    match links {
        Option::Some(ls) => StoreModel {
            files: files2,
            notes: notes2,
            links: with_links(without_source(s.links, rel), ls),
        },
        Option::None => StoreModel { files: files2, notes: notes2, links: s.links },
    }
}

/// The store after a remove of `rel`: its file, note and link rows are gone,
/// whether or not any existed.
pub open spec fn store_after_remove(s: StoreModel, rel: Seq<char>) -> StoreModel {
    StoreModel {
        files: s.files.remove(rel),
        notes: s.notes.remove(rel),
        links: without_source(s.links, rel),
    }
}

/// The pipeline root: consumes canonical events and dispatches them to the
/// stage tree.
pub struct Indexer {
    pub vault_root_path: String,
    pub index_event_receiver: std::sync::mpsc::Receiver<IndexEvent>,
    pub child_extensions: SqliteIndex,
}

impl<'a> IndexExt<'a> for Indexer {
    type InitCfg = IndexerInitConfig;

    type NoteIn = NoteItem<'a>;

    open spec fn inv(&self) -> bool {
        self.child_extensions.inv()
    }

    open spec fn index_pre(&self, s: StoreModel, item: NoteItem<'a>) -> bool {
        self.child_extensions.index_pre(s, item)
    }

    open spec fn index_post(&self, s: StoreModel, item: NoteItem<'a>, now: u64) -> StoreModel {
        self.child_extensions.index_post(s, item, now)
    }

    open spec fn remove_post(&self, s: StoreModel, path: Seq<char>) -> StoreModel {
        self.child_extensions.remove_post(s, path)
    }

    fn init(&mut self, config: &IndexerInitConfig) {
        self.child_extensions.init(config);
    }

    fn index(&mut self, store: &mut IndexStore, item: &NoteItem<'a>, now: u64) {
        self.child_extensions.index(store, item, now);
    }

    fn remove(&mut self, store: &mut IndexStore, rel_path: &String) {
        self.child_extensions.remove(store, rel_path);
    }
}

impl Indexer {
    /// The pipeline with its fixed stage tree, not yet initialized.
    pub fn new(
        vault_root_path: String,
        index_event_receiver: std::sync::mpsc::Receiver<IndexEvent>,
    ) -> (r: Indexer)
        ensures
            r.vault_root_path == vault_root_path,
    {
        Indexer {
            vault_root_path,
            index_event_receiver,
            child_extensions: SqliteIndex::new(),
        }
    }

    /// Apply one canonical event to the store.  An add derives the note from
    /// the relative path and hands it, with the parsed document when one was
    /// read, to the stage tree; a remove deletes every record of the path,
    /// at every stage, whether or not any existed.
    pub fn handle_single_event(
        &mut self,
        store: &mut IndexStore,
        event: &IndexEvent,
        doc: Option<&DocNode>,
        now: u64,
    )
        requires
            old(self).inv(),
            old(store).wf(),
        ensures
            *final(self) == *old(self),
            final(store).wf(),
            final(store)@ == (match event@ {
                EventModel::Add(rel) => store_after_add(
                    old(store)@,
                    rel,
                    vault_path_of(rel),
                    if ext_of(rel) == Option::Some("md"@) && doc is Some {
                        Option::Some(links_of_node(*doc->0, rel))
                    } else {
                        Option::None
                    },
                    now,
                ),
                EventModel::Remove(rel) => store_after_remove(old(store)@, rel),
            }),
    {
        match event {
            IndexEvent::Add(rel_path) => {
                let note = Note::new(self.vault_root_path.as_str(), rel_path.as_str());
                let item = NoteItem { note, doc };
                self.index(store, &item, now);
                proof {
                    lemma_pipeline_add(*self, old(store)@, item, now);
                }
            },
            IndexEvent::Remove(rel_path) => {
                self.remove(store, rel_path);
                proof {
                    lemma_pipeline_remove(*self, old(store)@, rel_path@);
                }
            },
        }
    }
}

/// What the stage tree does on an add, written out over the store model: the
/// file time advances monotonically, the note row is replaced, and for a
/// parsed markdown document the link rows are replaced.
pub proof fn lemma_pipeline_add(ix: Indexer, s: StoreModel, item: NoteItem, now: u64)
    ensures
        ix.index_post(s, item, now) == store_after_add(
            s,
            item.note.rel_path@,
            item.note.vault_path@,
            if is_document_item(item) {
                Option::Some(links_of_node(*item.doc->0, item.note.rel_path@))
            } else {
                Option::None
            },
            now,
        ),
        ix.index_pre(s, item),
{
    let rel = item.note.rel_path@;
    if is_document_item(item) {
        assert(ix.index_post(s, item, now) =~= store_after_add(
            s,
            rel,
            item.note.vault_path@,
            Option::Some(links_of_node(*item.doc->0, rel)),
            now,
        ));
    } else {
        assert(ix.index_post(s, item, now) =~= store_after_add(
            s,
            rel,
            item.note.vault_path@,
            Option::None,
            now,
        ));
    }
}

/// What the stage tree does on a remove, written out over the store model:
/// every record of the path is gone, at every stage.
pub proof fn lemma_pipeline_remove(ix: Indexer, s: StoreModel, rel: Seq<char>)
    ensures
        ix.remove_post(s, rel) == store_after_remove(s, rel),
{
    assert(ix.remove_post(s, rel) =~= store_after_remove(s, rel));
}

/// Removing a path that was never added changes no table: every record of
/// the store stays exactly as it was.
pub proof fn lemma_remove_never_added(s: StoreModel, rel: Seq<char>)
    requires
        !s.files.dom().contains(rel),
        !s.notes.dom().contains(rel),
        forall|k: (Seq<char>, usize)| s.links.dom().contains(k) ==> k.0 != rel,
    ensures
        store_after_remove(s, rel) == s,
{
    assert(store_after_remove(s, rel).files =~= s.files);
    assert(store_after_remove(s, rel).notes =~= s.notes);
    assert(store_after_remove(s, rel).links =~= s.links);
    assert(store_after_remove(s, rel) =~= s);
}

/// Applying an add twice in a row, without an intervening remove, leaves the
/// store as one add with the later stamp would: one file row, one note row,
/// and only the single latest set of link rows.
pub proof fn lemma_readd_replaces(
    s: StoreModel,
    rel: Seq<char>,
    vault: Seq<char>,
    links: Option<Seq<LinkView>>,
    t1: u64,
    t2: u64,
)
    requires
        links matches Option::Some(ls) ==> forall|i: int| 0 <= i < ls.len() ==> ls[i].from == rel,
    ensures
        store_after_add(store_after_add(s, rel, vault, links, t1), rel, vault, links, t2)
            == store_after_add(
            s,
            rel,
            vault,
            links,
            if t1 > t2 {
                t1
            } else {
                t2
            },
        ),
{
    let s1 = store_after_add(s, rel, vault, links, t1);
    let s2 = store_after_add(s1, rel, vault, links, t2);
    let tm: u64 = if t1 > t2 {
        t1
    } else {
        t2
    };
    let sm = store_after_add(s, rel, vault, links, tm);
    assert(s2.files =~= sm.files);
    assert(s2.notes =~= sm.notes);
    match links {
        Option::Some(ls) => {
            assert forall|k: (Seq<char>, usize)| #![all_triggers]
                s2.links.dom().contains(k) == sm.links.dom().contains(k) && (
                sm.links.dom().contains(k) ==> s2.links[k] == sm.links[k]) by {
                let base1 = without_source(s.links, rel);
                let base2 = without_source(s1.links, rel);
                if k.0 == rel {
                    lemma_with_links_same_at(base2, base1, ls, k);
                } else {
                    lemma_with_links_untouched(base1, ls, rel, k);
                    lemma_with_links_untouched(base2, ls, rel, k);
                }
            }
            assert(s2.links =~= sm.links);
        },
        Option::None => {
            assert(s2.links =~= sm.links);
        },
    }
    assert(s2 =~= sm);
}

/// Referential integrity survives an add: the pipeline writes the file row
/// before the note row and the note row before the link rows, so every row
/// still refers to an existing parent.
pub proof fn lemma_ref_ok_add(
    s: StoreModel,
    rel: Seq<char>,
    vault: Seq<char>,
    links: Option<Seq<LinkView>>,
    now: u64,
)
    requires
        crate::store::ref_ok(s),
        links matches Option::Some(ls) ==> forall|i: int| 0 <= i < ls.len() ==> ls[i].from == rel,
    ensures
        crate::store::ref_ok(store_after_add(s, rel, vault, links, now)),
{
    let s2 = store_after_add(s, rel, vault, links, now);
    assert forall|p: Seq<char>| s2.notes.dom().contains(p) implies s2.files.dom().contains(
        p,
    ) by {}
    assert forall|k: (Seq<char>, usize)| s2.links.dom().contains(k) implies s2.notes.dom()
        .contains(k.0) by {
        match links {
            Option::Some(ls) => {
                if k.0 != rel {
                    lemma_with_links_untouched(without_source(s.links, rel), ls, rel, k);
                }
            },
            Option::None => {},
        }
    }
}

/// Referential integrity survives a remove: the cascade reaches every table,
/// so no row is left referring to the removed path.
pub proof fn lemma_ref_ok_remove(s: StoreModel, rel: Seq<char>)
    requires
        crate::store::ref_ok(s),
    ensures
        crate::store::ref_ok(store_after_remove(s, rel)),
{
}

/// Whether an event concerns the path `p`.
pub open spec fn touches(ev: EventModel, p: Seq<char>) -> bool {
    match ev {
        EventModel::Add(r) => r == p,
        EventModel::Remove(r) => r == p,
    }
}

/// The store after a whole batch of events, applied in order; the add at
/// position `i` carries the link rows `links[i]` and the clock `nows[i]`.
pub open spec fn apply_events(
    s: StoreModel,
    evs: Seq<EventModel>,
    links: Seq<Option<Seq<LinkView>>>,
    nows: Seq<u64>,
) -> StoreModel
    decreases evs.len(),
{
    if evs.len() == 0 {
        s
    } else {
        let s1 = apply_events(s, evs.drop_last(), links.drop_last(), nows.drop_last());
        match evs.last() {
            EventModel::Add(rel) => store_after_add(
                s1,
                rel,
                vault_path_of(rel),
                links.last(),
                nows.last(),
            ),
            EventModel::Remove(rel) => store_after_remove(s1, rel),
        }
    }
}

/// The link rows of each add in a batch all name the added path.
pub open spec fn links_match(evs: Seq<EventModel>, links: Seq<Option<Seq<LinkView>>>) -> bool {
    forall|i: int| #![trigger evs[i]]
        0 <= i < evs.len() ==> match evs[i] {
            EventModel::Add(r) => match links[i] {
                Option::Some(ls) => forall|j: int| 0 <= j < ls.len() ==> ls[j].from == r,
                Option::None => true,
            },
            EventModel::Remove(r) => true,
        }
}

/// An event about another path leaves every record of `p` as it was.
pub proof fn lemma_event_frame(
    s: StoreModel,
    ev: EventModel,
    l: Option<Seq<LinkView>>,
    now: u64,
    p: Seq<char>,
)
    requires
        !touches(ev, p),
        ev matches EventModel::Add(r) ==> (l matches Option::Some(ls) ==> forall|j: int|
            0 <= j < ls.len() ==> ls[j].from == r),
    ensures
        ({
            let s2 = match ev {
                EventModel::Add(rel) => store_after_add(s, rel, vault_path_of(rel), l, now),
                EventModel::Remove(rel) => store_after_remove(s, rel),
            };
            &&& s2.files.dom().contains(p) == s.files.dom().contains(p)
            &&& (s.files.dom().contains(p) ==> s2.files[p] == s.files[p])
            &&& s2.notes.dom().contains(p) == s.notes.dom().contains(p)
            &&& (s.notes.dom().contains(p) ==> s2.notes[p] == s.notes[p])
            &&& forall|k: (Seq<char>, usize)|
                k.0 == p ==> s2.links.dom().contains(k) == s.links.dom().contains(k) && (
                s.links.dom().contains(k) ==> s2.links[k] == s.links[k])
        }),
{
    match ev {
        EventModel::Add(rel) => {
            match l {
                Option::Some(ls) => {
                    assert forall|k: (Seq<char>, usize)| k.0 == p implies ({
                        let s2 = store_after_add(s, rel, vault_path_of(rel), l, now);
                        s2.links.dom().contains(k) == s.links.dom().contains(k) && (s.links.dom()
                            .contains(k) ==> s2.links[k] == s.links[k])
                    }) by {
                        lemma_with_links_untouched(without_source(s.links, rel), ls, rel, k);
                    }
                },
                Option::None => {},
            }
        },
        EventModel::Remove(rel) => {},
    }
}

/// After a batch whose last event for `p` is an add, the store holds the
/// file row and the note row of `p`, with its display path.
pub proof fn lemma_apply_events_add(
    s: StoreModel,
    evs: Seq<EventModel>,
    links: Seq<Option<Seq<LinkView>>>,
    nows: Seq<u64>,
    p: Seq<char>,
    i: int,
)
    requires
        evs.len() == links.len(),
        evs.len() == nows.len(),
        links_match(evs, links),
        0 <= i < evs.len(),
        evs[i] == EventModel::Add(p),
        forall|j: int| i < j < evs.len() ==> !touches(evs[j], p),
    ensures
        apply_events(s, evs, links, nows).files.dom().contains(p),
        apply_events(s, evs, links, nows).notes.dom().contains(p),
        apply_events(s, evs, links, nows).notes[p] == vault_path_of(p),
    decreases evs.len(),
{
    let s1 = apply_events(s, evs.drop_last(), links.drop_last(), nows.drop_last());
    if i == evs.len() - 1 {
    } else {
        lemma_apply_events_add(s, evs.drop_last(), links.drop_last(), nows.drop_last(), p, i);
        lemma_event_frame(s1, evs.last(), links.last(), nows.last(), p);
    }
}

/// After a batch whose last event for `p` is a remove, the store holds no
/// record of `p` in any table.
pub proof fn lemma_apply_events_remove(
    s: StoreModel,
    evs: Seq<EventModel>,
    links: Seq<Option<Seq<LinkView>>>,
    nows: Seq<u64>,
    p: Seq<char>,
    i: int,
)
    requires
        evs.len() == links.len(),
        evs.len() == nows.len(),
        links_match(evs, links),
        0 <= i < evs.len(),
        evs[i] == EventModel::Remove(p),
        forall|j: int| i < j < evs.len() ==> !touches(evs[j], p),
    ensures
        !apply_events(s, evs, links, nows).files.dom().contains(p),
        !apply_events(s, evs, links, nows).notes.dom().contains(p),
        forall|k: (Seq<char>, usize)|
            k.0 == p ==> !apply_events(s, evs, links, nows).links.dom().contains(k),
    decreases evs.len(),
{
    let s1 = apply_events(s, evs.drop_last(), links.drop_last(), nows.drop_last());
    let s2 = apply_events(s, evs, links, nows);
    if i == evs.len() - 1 {
        assert forall|k: (Seq<char>, usize)| k.0 == p implies !s2.links.dom().contains(k) by {}
    } else {
        lemma_apply_events_remove(s, evs.drop_last(), links.drop_last(), nows.drop_last(), p, i);
        assert forall|k: (Seq<char>, usize)| k.0 == p implies !s2.links.dom().contains(k) by {
            assert(!s1.links.dom().contains(k));
            assert(evs[evs.len() - 1] == evs.last());
            assert(links[evs.len() - 1] == links.last());
            match evs.last() {
                EventModel::Add(rel) => {
                    match links.last() {
                        Option::Some(ls) => {
                            lemma_with_links_untouched(
                                without_source(s1.links, rel),
                                ls,
                                rel,
                                k,
                            );
                        },
                        Option::None => {},
                    }
                },
                EventModel::Remove(rel) => {},
            }
        }
    }
}

/// Create the indexer, but don't start it.
pub fn indexer_create(
    vault_root_path: String,
    index_event_receiver: std::sync::mpsc::Receiver<IndexEvent>,
) -> (r: Indexer)
    ensures
        r.vault_root_path == vault_root_path,
{
    Indexer::new(vault_root_path, index_event_receiver)
}

} // verus!
