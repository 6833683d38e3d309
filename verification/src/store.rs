//! The persisted store, modelled as three in-memory tables with
//! insert-or-replace and delete-by-key operations.  Each table is a vector of
//! rows with unique keys; its mathematical view is a map from key to row.

use vstd::prelude::*;

use crate::indexer::{IndexExt, IndexerInitConfig, NoteItem};
use crate::note::join_paths;
use crate::store::models::{File, Link, LinkView, Note};
use crate::store::note_index::NoteIndex;

pub mod models;
pub mod note_index;

verus! {

/// The mathematical state of the store: one map per table.
#[verifier::ext_equal]
pub struct StoreModel {
    /// relative path -> last indexed time
    pub files: Map<Seq<char>, u64>,
    /// relative path -> vault path
    pub notes: Map<Seq<char>, Seq<char>>,
    /// (source path, byte start) -> link row
    pub links: Map<(Seq<char>, usize), LinkView>,
}

/// The map held by a sequence of file rows; a later row wins over an earlier
/// one with the same key.
pub open spec fn files_map_of(s: Seq<File>) -> Map<Seq<char>, u64>
    decreases s.len(),
{
    if s.len() == 0 {
        Map::empty()
    } else {
        files_map_of(s.drop_last()).insert(s.last().path@, s.last().last_indexed)
    }
}

/// The map held by a sequence of note rows.
pub open spec fn notes_map_of(s: Seq<Note>) -> Map<Seq<char>, Seq<char>>
    decreases s.len(),
{
    if s.len() == 0 {
        Map::empty()
    } else {
        notes_map_of(s.drop_last()).insert(s.last().file@, s.last().vault_path@)
    }
}

/// The map held by a sequence of link rows, keyed by (source, byte start).
pub open spec fn links_map_of(s: Seq<Link>) -> Map<(Seq<char>, usize), LinkView>
    decreases s.len(),
{
    if s.len() == 0 {
        Map::empty()
    } else {
        links_map_of(s.drop_last()).insert((s.last().from@, s.last().start), s.last()@)
    }
}

pub open spec fn files_unique(s: Seq<File>) -> bool {
    forall|i: int, j: int| 0 <= i < j < s.len() ==> s[i].path@ != s[j].path@
}

pub open spec fn notes_unique(s: Seq<Note>) -> bool {
    forall|i: int, j: int| 0 <= i < j < s.len() ==> s[i].file@ != s[j].file@
}

pub open spec fn links_unique(s: Seq<Link>) -> bool {
    forall|i: int, j: int|
        0 <= i < j < s.len() ==> !(s[i].from@ == s[j].from@ && s[i].start == s[j].start)
}

/// `links` with every row from the given source taken out.
pub open spec fn without_source(
    links: Map<(Seq<char>, usize), LinkView>,
    from: Seq<char>,
) -> Map<(Seq<char>, usize), LinkView> {
    links.remove_keys(Set::new(|k: (Seq<char>, usize)| k.0 == from))
}

/// `m` with every row of `s` inserted in order; a later row wins.
pub open spec fn with_links(
    m: Map<(Seq<char>, usize), LinkView>,
    s: Seq<LinkView>,
) -> Map<(Seq<char>, usize), LinkView>
    decreases s.len(),
{
    if s.len() == 0 {
        m
    } else {
        with_links(m, s.drop_last()).insert((s.last().from, s.last().start), s.last())
    }
}

/// The views of a sequence of link rows.
pub open spec fn link_views(s: Seq<Link>) -> Seq<LinkView> {
    s.map_values(|l: Link| l@)
}

/// Referential integrity at rest: every note row refers to a file row, and
/// every link row refers to a note row.
pub open spec fn ref_ok(m: StoreModel) -> bool {
    &&& forall|p: Seq<char>| m.notes.dom().contains(p) ==> m.files.dom().contains(p)
    &&& forall|k: (Seq<char>, usize)| m.links.dom().contains(k) ==> m.notes.dom().contains(k.0)
}

/// The store: three tables of rows with unique keys.
pub struct IndexStore {
    pub files: Vec<File>,
    pub notes: Vec<Note>,
    pub links: Vec<Link>,
}

impl View for IndexStore {
    type V = StoreModel;

    open spec fn view(&self) -> StoreModel {
        StoreModel {
            files: files_map_of(self.files@),
            notes: notes_map_of(self.notes@),
            links: links_map_of(self.links@),
        }
    }
}


/// The rows of `v` whose path is not `path`, in order.
fn files_without(v: &Vec<File>, path: &String) -> (out: Vec<File>)
    requires
        files_unique(v@),
    ensures
        files_unique(out@),
        files_map_of(out@) == files_map_of(v@).remove(path@),
        forall|j: int| 0 <= j < out@.len() ==> out@[j].path@ != path@,
{
    let mut out: Vec<File> = Vec::new();
    let n = v.len();
    let mut i: usize = 0;
    while i < n
        invariant
            0 <= i <= n,
            n == v@.len(),
            files_unique(v@),
            files_unique(out@),
            forall|j: int| 0 <= j < out@.len() ==> out@[j].path@ != path@,
            forall|j: int| #![trigger out@[j]]
                0 <= j < out@.len() ==> exists|k: int|
                    0 <= k < i && out@[j] == #[trigger] v@[k],
            files_map_of(out@) =~= files_map_of(v@.take(i as int)).remove(path@),
        decreases n - i,
    {
        let ghost prev_out = out@;
        proof {
            assert(v@.take(i + 1).drop_last() =~= v@.take(i as int));
            assert(v@.take(i + 1).last() == v@[i as int]);
        }
        if !(v[i].path == *path) {
            out.push(v[i].clone());
            proof {
                assert(out@.drop_last() =~= prev_out);
                assert forall|j: int| 0 <= j < prev_out.len() implies prev_out[j].path@
                    != v@[i as int].path@ by {
                    let k = choose|k: int| 0 <= k < i && prev_out[j] == #[trigger] v@[k];
                    assert(v@[k].path@ != v@[i as int].path@);
                }
                assert(files_map_of(out@) =~= files_map_of(v@.take(i + 1)).remove(path@));
            }
        } else {
            proof {
                assert(files_map_of(out@) =~= files_map_of(v@.take(i + 1)).remove(path@));
            }
        }
        i = i + 1;
    }
    proof {
        assert(v@.take(n as int) =~= v@);
        assert(files_map_of(out@) =~= files_map_of(v@).remove(path@));
    }
    out
}


/// The rows of `v` whose file is not `file`, in order.
fn notes_without(v: &Vec<Note>, file: &String) -> (out: Vec<Note>)
    requires
        notes_unique(v@),
    ensures
        notes_unique(out@),
        notes_map_of(out@) == notes_map_of(v@).remove(file@),
        forall|j: int| 0 <= j < out@.len() ==> out@[j].file@ != file@,
{
    let mut out: Vec<Note> = Vec::new();
    let n = v.len();
    let mut i: usize = 0;
    while i < n
        invariant
            0 <= i <= n,
            n == v@.len(),
            notes_unique(v@),
            notes_unique(out@),
            forall|j: int| 0 <= j < out@.len() ==> out@[j].file@ != file@,
            forall|j: int| #![trigger out@[j]]
                0 <= j < out@.len() ==> exists|k: int|
                    0 <= k < i && out@[j] == #[trigger] v@[k],
            notes_map_of(out@) =~= notes_map_of(v@.take(i as int)).remove(file@),
        decreases n - i,
    {
        let ghost prev_out = out@;
        proof {
            assert(v@.take(i + 1).drop_last() =~= v@.take(i as int));
            assert(v@.take(i + 1).last() == v@[i as int]);
        }
        if !(v[i].file == *file) {
            out.push(v[i].clone());
            proof {
                assert(out@.drop_last() =~= prev_out);
                assert forall|j: int| 0 <= j < prev_out.len() implies prev_out[j].file@
                    != v@[i as int].file@ by {
                    let k = choose|k: int| 0 <= k < i && prev_out[j] == #[trigger] v@[k];
                    assert(v@[k].file@ != v@[i as int].file@);
                }
                assert(notes_map_of(out@) =~= notes_map_of(v@.take(i + 1)).remove(file@));
            }
        } else {
            proof {
                assert(notes_map_of(out@) =~= notes_map_of(v@.take(i + 1)).remove(file@));
            }
        }
        i = i + 1;
    }
    proof {
        assert(v@.take(n as int) =~= v@);
        assert(notes_map_of(out@) =~= notes_map_of(v@).remove(file@));
    }
    out
}

/// The rows of `v` whose source is not `from`, in order.
fn links_without_source(v: &Vec<Link>, from: &String) -> (out: Vec<Link>)
    requires
        links_unique(v@),
    ensures
        links_unique(out@),
        links_map_of(out@) == without_source(links_map_of(v@), from@),
        forall|j: int| 0 <= j < out@.len() ==> out@[j].from@ != from@,
{
    let mut out: Vec<Link> = Vec::new();
    let n = v.len();
    let mut i: usize = 0;
    while i < n
        invariant
            0 <= i <= n,
            n == v@.len(),
            links_unique(v@),
            links_unique(out@),
            forall|j: int| 0 <= j < out@.len() ==> out@[j].from@ != from@,
            forall|j: int| #![trigger out@[j]]
                0 <= j < out@.len() ==> exists|k: int|
                    0 <= k < i && out@[j] == #[trigger] v@[k],
            links_map_of(out@) =~= without_source(links_map_of(v@.take(i as int)), from@),
        decreases n - i,
    {
        let ghost prev_out = out@;
        proof {
            assert(v@.take(i + 1).drop_last() =~= v@.take(i as int));
            assert(v@.take(i + 1).last() == v@[i as int]);
        }
        if !(v[i].from == *from) {
            out.push(v[i].clone());
            proof {
                assert(out@.drop_last() =~= prev_out);
                assert forall|j: int| 0 <= j < prev_out.len() implies !(prev_out[j].from@
                    == v@[i as int].from@ && prev_out[j].start == v@[i as int].start) by {
                    let k = choose|k: int| 0 <= k < i && prev_out[j] == #[trigger] v@[k];
                    assert(!(v@[k].from@ == v@[i as int].from@ && v@[k].start == v@[
                        i as int
                    ].start));
                }
                assert(links_map_of(out@) =~= without_source(
                    links_map_of(v@.take(i + 1)),
                    from@,
                ));
            }
        } else {
            proof {
                assert(links_map_of(out@) =~= without_source(
                    links_map_of(v@.take(i + 1)),
                    from@,
                ));
            }
        }
        i = i + 1;
    }
    proof {
        assert(v@.take(n as int) =~= v@);
        assert(links_map_of(out@) =~= without_source(links_map_of(v@), from@));
    }
    out
}

/// The rows of `v` whose key is not `(from, start)`, in order.
fn links_without_key(v: &Vec<Link>, from: &String, start: usize) -> (out: Vec<Link>)
    requires
        links_unique(v@),
    ensures
        links_unique(out@),
        links_map_of(out@) == links_map_of(v@).remove((from@, start)),
        forall|j: int| 0 <= j < out@.len() ==> !(out@[j].from@ == from@ && out@[j].start == start),
{
    let mut out: Vec<Link> = Vec::new();
    let n = v.len();
    let mut i: usize = 0;
    while i < n
        invariant
            0 <= i <= n,
            n == v@.len(),
            links_unique(v@),
            links_unique(out@),
            forall|j: int|
                0 <= j < out@.len() ==> !(out@[j].from@ == from@ && out@[j].start == start),
            forall|j: int| #![trigger out@[j]]
                0 <= j < out@.len() ==> exists|k: int|
                    0 <= k < i && out@[j] == #[trigger] v@[k],
            links_map_of(out@) =~= links_map_of(v@.take(i as int)).remove((from@, start)),
        decreases n - i,
    {
        let ghost prev_out = out@;
        proof {
            assert(v@.take(i + 1).drop_last() =~= v@.take(i as int));
            assert(v@.take(i + 1).last() == v@[i as int]);
        }
        if !(v[i].from == *from && v[i].start == start) {
            out.push(v[i].clone());
            proof {
                assert(out@.drop_last() =~= prev_out);
                assert forall|j: int| 0 <= j < prev_out.len() implies !(prev_out[j].from@
                    == v@[i as int].from@ && prev_out[j].start == v@[i as int].start) by {
                    let k = choose|k: int| 0 <= k < i && prev_out[j] == #[trigger] v@[k];
                    assert(!(v@[k].from@ == v@[i as int].from@ && v@[k].start == v@[
                        i as int
                    ].start));
                }
                assert(links_map_of(out@) =~= links_map_of(v@.take(i + 1)).remove((
                    from@,
                    start,
                )));
            }
        } else {
            proof {
                assert(links_map_of(out@) =~= links_map_of(v@.take(i + 1)).remove((
                    from@,
                    start,
                )));
            }
        }
        i = i + 1;
    }
    proof {
        assert(v@.take(n as int) =~= v@);
        assert(links_map_of(out@) =~= links_map_of(v@).remove((from@, start)));
    }
    out
}

impl IndexStore {
    /// Key uniqueness in every table.
    pub open spec fn wf(&self) -> bool {
        &&& files_unique(self.files@)
        &&& notes_unique(self.notes@)
        &&& links_unique(self.links@)
    }

    /// An empty store.
    pub fn new() -> (s: Self)
        ensures
            s.wf(),
            s@ == (StoreModel {
                files: Map::empty(),
                notes: Map::empty(),
                links: Map::empty(),
            }),
    {
        IndexStore { files: Vec::new(), notes: Vec::new(), links: Vec::new() }
    }

    /// The recorded last indexed time of a path, if the path has a file row.
    pub fn file_time(&self, path: &String) -> (r: Option<u64>)
        requires
            self.wf(),
        ensures
            match r {
                Option::Some(t) => self@.files.dom().contains(path@) && self@.files[path@] == t,
                Option::None => !self@.files.dom().contains(path@),
            },
    {
        proof {
            lemma_files_map_index(self.files@, path@);
        }
        let n = self.files.len();
        let mut i: usize = 0;
        while i < n
            invariant
                0 <= i <= n,
                n == self.files@.len(),
                forall|j: int| 0 <= j < i ==> self.files@[j].path@ != path@,
                files_unique(self.files@),
                files_map_of(self.files@).dom().contains(path@) <==> (exists|j: int|
                    0 <= j < self.files@.len() && self.files@[j].path@ == path@),
                forall|j: int|
                    0 <= j < self.files@.len() && self.files@[j].path@ == path@
                        ==> files_map_of(self.files@)[path@] == self.files@[j].last_indexed,
            decreases n - i,
        {
            if self.files[i].path == *path {
                return Some(self.files[i].last_indexed);
            }
            i = i + 1;
        }
        None
    }

    /// Insert a file row, or replace the row with the same path.
    pub fn upsert_file(&mut self, path: &String, last_indexed: u64)
        requires
            old(self).wf(),
        ensures
            final(self).wf(),
            final(self)@ == (StoreModel {
                files: old(self)@.files.insert(path@, last_indexed),
                ..old(self)@
            }),
    {
        let mut kept = files_without(&self.files, path);
        let ghost filtered = kept@;
        kept.push(File { path: path.clone(), last_indexed });
        self.files = kept;
        proof {
            assert(self.files@.drop_last() =~= filtered);
            assert(files_map_of(self.files@) =~= old(self)@.files.insert(path@, last_indexed));
            assert(self@ =~= (StoreModel {
                files: old(self)@.files.insert(path@, last_indexed),
                ..old(self)@
            }));
        }
    }


    /// Insert a note row, or replace the row with the same file path.  The
    /// referenced file row must already exist.
    pub fn upsert_note(&mut self, file: &String, vault_path: &String)
        requires
            old(self).wf(),
            old(self)@.files.dom().contains(file@),
        ensures
            final(self).wf(),
            final(self)@ == (StoreModel {
                notes: old(self)@.notes.insert(file@, vault_path@),
                ..old(self)@
            }),
    {
        let mut kept = notes_without(&self.notes, file);
        let ghost filtered = kept@;
        kept.push(Note { vault_path: vault_path.clone(), file: file.clone() });
        self.notes = kept;
        proof {
            assert(self.notes@.drop_last() =~= filtered);
            assert(self@ =~= (StoreModel {
                notes: old(self)@.notes.insert(file@, vault_path@),
                ..old(self)@
            }));
        }
    }

    /// Delete the note row with the given file path; absence is not an error.
    pub fn delete_note(&mut self, file: &String)
        requires
            old(self).wf(),
        ensures
            final(self).wf(),
            final(self)@ == (StoreModel { notes: old(self)@.notes.remove(file@), ..old(self)@ }),
    {
        self.notes = notes_without(&self.notes, file);
        proof {
            assert(self@ =~= (StoreModel {
                notes: old(self)@.notes.remove(file@),
                ..old(self)@
            }));
        }
    }

    /// Delete every link row with the given source path.
    pub fn delete_links(&mut self, from: &String)
        requires
            old(self).wf(),
        ensures
            final(self).wf(),
            final(self)@ == (StoreModel {
                links: without_source(old(self)@.links, from@),
                ..old(self)@
            }),
    {
        self.links = links_without_source(&self.links, from);
        proof {
            assert(self@ =~= (StoreModel {
                links: without_source(old(self)@.links, from@),
                ..old(self)@
            }));
        }
    }

    /// Replace every link row from the given source by the given rows:
    /// delete-all, insert-all, a later row winning over an earlier one with
    /// the same key.  The referenced note row must already exist.
    pub fn replace_links(&mut self, from: &String, rows: &Vec<Link>)
        requires
            old(self).wf(),
            old(self)@.notes.dom().contains(from@),
            forall|i: int| 0 <= i < rows@.len() ==> rows@[i].from@ == from@,
        ensures
            final(self).wf(),
            final(self)@ == (StoreModel {
                links: with_links(
                    without_source(old(self)@.links, from@),
                    link_views(rows@),
                ),
                ..old(self)@
            }),
    {
        self.delete_links(from);
        let ghost base = self@.links;
        let n = rows.len();
        let mut i: usize = 0;
        while i < n
            invariant
                0 <= i <= n,
                n == rows@.len(),
                forall|k: int| 0 <= k < rows@.len() ==> rows@[k].from@ == from@,
                self.wf(),
                self@ == (StoreModel {
                    links: with_links(base, link_views(rows@.take(i as int))),
                    ..old(self)@
                }),
                base == without_source(old(self)@.links, from@),
            decreases n - i,
        {
            let ghost prev = self@;
            let row = rows[i].clone();
            self.links = links_without_key(&self.links, &row.from, row.start);
            let ghost filtered = self.links@;
            self.links.push(row);
            proof {
                assert(self.links@.drop_last() =~= filtered);
                assert(link_views(rows@.take(i + 1)).drop_last() =~= link_views(
                    rows@.take(i as int),
                ));
                assert(link_views(rows@.take(i + 1)).last() == rows@[i as int]@);
                assert(links_map_of(self.links@) =~= with_links(
                    base,
                    link_views(rows@.take(i + 1)),
                )) by {
                    assert(links_map_of(self.links@) =~= prev.links.insert(
                        (rows@[i as int].from@, rows@[i as int].start),
                        rows@[i as int]@,
                    ));
                }
                assert(self@ =~= (StoreModel {
                    links: with_links(base, link_views(rows@.take(i + 1))),
                    ..old(self)@
                }));
            }
            i = i + 1;
        }
        proof {
            assert(rows@.take(n as int) =~= rows@);
            assert(self@ =~= (StoreModel {
                links: with_links(without_source(old(self)@.links, from@), link_views(rows@)),
                ..old(self)@
            }));
        }
    }

    /// Delete the file row with the given path; absence is not an error.
    pub fn delete_file(&mut self, path: &String)
        requires
            old(self).wf(),
        ensures
            final(self).wf(),
            final(self)@ == (StoreModel { files: old(self)@.files.remove(path@), ..old(self)@ }),
    {
        self.files = files_without(&self.files, path);
        proof {
            assert(self@ =~= (StoreModel {
                files: old(self)@.files.remove(path@),
                ..old(self)@
            }));
        }
    }
}


/// A key from another source is untouched by inserting rows that all come
/// from one source.
pub proof fn lemma_with_links_untouched(
    m: Map<(Seq<char>, usize), LinkView>,
    ls: Seq<LinkView>,
    from: Seq<char>,
    k: (Seq<char>, usize),
)
    requires
        forall|i: int| 0 <= i < ls.len() ==> ls[i].from == from,
        k.0 != from,
    ensures
        with_links(m, ls).dom().contains(k) == m.dom().contains(k),
        m.dom().contains(k) ==> with_links(m, ls)[k] == m[k],
    decreases ls.len(),
{
    if ls.len() > 0 {
        lemma_with_links_untouched(m, ls.drop_last(), from, k);
    }
}

/// What `with_links` holds at a key depends only on what the base holds
/// there.
pub proof fn lemma_with_links_same_at(
    m1: Map<(Seq<char>, usize), LinkView>,
    m2: Map<(Seq<char>, usize), LinkView>,
    ls: Seq<LinkView>,
    k: (Seq<char>, usize),
)
    requires
        m1.dom().contains(k) == m2.dom().contains(k),
        m1.dom().contains(k) ==> m1[k] == m2[k],
    ensures
        with_links(m1, ls).dom().contains(k) == with_links(m2, ls).dom().contains(k),
        with_links(m1, ls).dom().contains(k) ==> with_links(m1, ls)[k] == with_links(m2, ls)[k],
    decreases ls.len(),
{
    if ls.len() > 0 {
        lemma_with_links_same_at(m1, m2, ls.drop_last(), k);
    }
}

/// In a table with unique paths, membership and value of the held map follow
/// the rows.
pub proof fn lemma_files_map_index(s: Seq<File>, p: Seq<char>)
    requires
        files_unique(s),
    ensures
        files_map_of(s).dom().contains(p) <==> (exists|i: int| 0 <= i < s.len() && s[i].path@ == p),
        forall|i: int|
            0 <= i < s.len() && s[i].path@ == p ==> files_map_of(s)[p] == s[i].last_indexed,
    decreases s.len(),
{
    if s.len() > 0 {
        assert(files_unique(s.drop_last())) by {
            assert(forall|i: int, j: int|
                0 <= i < j < s.drop_last().len() ==> s.drop_last()[i].path@
                    != s.drop_last()[j].path@);
        }
        lemma_files_map_index(s.drop_last(), p);
        if s.last().path@ == p {
            assert(s[s.len() - 1].path@ == p);
        } else {
            assert(forall|i: int|
                0 <= i < s.len() && s[i].path@ == p ==> 0 <= i < s.drop_last().len()
                    && s.drop_last()[i].path@ == p);
        }
    }
}

/// The file name of the store inside the index directory.
pub const SQL_INDEX_NAME: &'static str = "index.db";

/// The time a re-indexed file row is stamped with: the wall clock, unless
/// the recorded time is already later; the recorded time never decreases.
pub open spec fn next_time(s: StoreModel, rel: Seq<char>, now: u64) -> u64 {
    if s.files.dom().contains(rel) && s.files[rel] > now {
        s.files[rel]
    } else {
        now
    }
}

/// The configuration the store stage hands to its descendants, the store's
/// own path resolved.
pub struct SqliteInitConfig {
    pub vault_root_path: String,
    pub index_dir: String,
    pub db_path: String,
}

/// The store stage: it owns the file table and acquires the store that its
/// descendants write through.
pub struct SqliteIndex {
    pub initialized: bool,
    pub child_extensions: NoteIndex,
}

impl SqliteIndex {
    pub fn new() -> (r: SqliteIndex)
        ensures
            !r.inv(),
    {
        SqliteIndex { initialized: false, child_extensions: NoteIndex::new() }
    }
}

impl<'a> IndexExt<'a> for SqliteIndex {
    type InitCfg = IndexerInitConfig;

    type NoteIn = NoteItem<'a>;

    open spec fn inv(&self) -> bool {
        self.initialized && self.child_extensions.inv()
    }

    open spec fn index_pre(&self, s: StoreModel, item: NoteItem<'a>) -> bool {
        true
    }

    open spec fn index_post(&self, s: StoreModel, item: NoteItem<'a>, now: u64) -> StoreModel {
        self.child_extensions.index_post(
            StoreModel {
                files: s.files.insert(item.note.rel_path@, next_time(s, item.note.rel_path@, now)),
                ..s
            },
            item,
            now,
        )
    }

    open spec fn remove_post(&self, s: StoreModel, path: Seq<char>) -> StoreModel {
        self.child_extensions.remove_post(StoreModel { files: s.files.remove(path), ..s }, path)
    }

    /// Open the store, set up the file table, and resolve the store path for
    /// the descendants; the descendants are initialized afterwards, in
    /// order.
    fn init(&mut self, config: &IndexerInitConfig) {
        let db_path = join_paths(config.index_dir.as_str(), SQL_INDEX_NAME);
        self.initialized = true;
        let child_config = SqliteInitConfig {
            vault_root_path: config.vault_root_path.clone(),
            index_dir: config.index_dir.clone(),
            db_path,
        };
        self.child_extensions.init(&child_config);
    }

    /// Replace the file row of the note, stamping it with a time that never
    /// decreases, then fan out.
    fn index(&mut self, store: &mut IndexStore, item: &NoteItem<'a>, now: u64) {
        let cur: u64 = match store.file_time(&item.note.rel_path) {
            Some(t) => t,
            None => 0,
        };
        let stamp: u64 = if cur > now {
            cur
        } else {
            now
        };
        store.upsert_file(&item.note.rel_path, stamp);
        self.child_extensions.index(store, item, now);
    }

    /// Delete the file row of the path, then fan out unconditionally.
    fn remove(&mut self, store: &mut IndexStore, rel_path: &String) {
        store.delete_file(rel_path);
        self.child_extensions.remove(store, rel_path);
    }
}

} // verus!
