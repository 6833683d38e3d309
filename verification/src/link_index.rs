//! The link extraction stage: walks a parsed document, collects standard
//! links and wikilinks with their byte spans, normalizes every target, and
//! replaces the stored link rows of the source note.

use vstd::prelude::*;

use crate::indexer::IndexExt;
use crate::markdown_index::{DocNode, MarkdownNote, NodeKind};
use crate::store::models::{Link, LinkView};
use crate::store::{link_views, with_links, without_source, IndexStore, SqliteInitConfig,
    StoreModel};
use crate::text::opt_view;

verus! {

/// What `urlencoding::decode` returns for a string: its percent-decoded
/// form, or nothing when the decoded bytes are not valid text.
pub uninterp spec fn percent_decoded_of(s: Seq<char>) -> Option<Seq<char>>;

/// Relies on urlencoding::decode: the result depends on the characters
/// alone, and a string without a percent sign decodes to itself.
#[verifier::external_body]
fn percent_decode(s: &str) -> (r: Option<String>)
    ensures
        opt_view(r) == percent_decoded_of(s@),
        (forall|k: int| 0 <= k < s@.len() ==> s@[k] != '%') ==> opt_view(r) == Option::Some(s@),
{
    match urlencoding::decode(s) {
        Ok(c) => Some(c.into_owned()),
        Err(_) => None,
    }
}

/// `s` with one leading `./` stripped, if it has one.
pub open spec fn strip_dot_slash(s: Seq<char>) -> Seq<char> {
    if s.len() >= 2 && s[0] == '.' && s[1] == '/' {
        s.subrange(2, s.len() as int)
    } else {
        s
    }
}

/// A normalized link target: percent-decoded, then one leading `./`
/// stripped.  A target whose decoded bytes are not valid text keeps its
/// characters as written.
pub open spec fn normalized_target(s: Seq<char>) -> Seq<char> {
    match percent_decoded_of(s) {
        Option::Some(d) => strip_dot_slash(d),
        Option::None => strip_dot_slash(s),
    }
}

/// Clean a link target: internal links may start with `./` and are often
/// percent-encoded; external links pass through decoding unchanged in
/// structure.
pub fn link_url_to_rel_path(link_url: &str) -> (r: String)
    ensures
        r@ == normalized_target(link_url@),
{
    let decoded: String = match percent_decode(link_url) {
        Some(d) => d,
        None => link_url.to_owned(),
    };
    let n = decoded.as_str().unicode_len();
    if n >= 2 && decoded.as_str().get_char(0) == '.' && decoded.as_str().get_char(1) == '/' {
        decoded.as_str().substring_char(2, n).to_owned()
    } else {
        decoded
    }
}

/// The link rows a single node contributes: one for a standard link, one for
/// a wikilink, each needing a recorded source span; its target normalized.
pub open spec fn own_links(n: DocNode, from: Seq<char>) -> Seq<LinkView> {
    match n.srcmap {
        Option::Some((start, end)) => match n.kind {
            NodeKind::Link { url } => seq![
                LinkView {
                    from: from,
                    to: normalized_target(url@),
                    text: Option::None,
                    start: start,
                    end: end,
                },
            ],
            NodeKind::Wiki { target } => seq![
                LinkView {
                    from: from,
                    to: normalized_target(target@),
                    text: Option::None,
                    start: start,
                    end: end,
                },
            ],
            NodeKind::Other => Seq::empty(),
        },
        Option::None => Seq::empty(),
    }
}

/// The link rows of the tree rooted at `n`, in depth-first order.
pub open spec fn links_of_node(n: DocNode, from: Seq<char>) -> Seq<LinkView>
    decreases n,
{
    own_links(n, from) + links_of_nodes(n.children@, from)
}

pub open spec fn links_of_nodes(s: Seq<DocNode>, from: Seq<char>) -> Seq<LinkView>
    decreases s,
{
    if s.len() == 0 {
        Seq::empty()
    } else {
        links_of_nodes(s.drop_last(), from) + links_of_node(s.last(), from)
    }
}


/// Every collected link row names the source it was collected for.
pub proof fn lemma_links_of_node_from(n: DocNode, from: Seq<char>)
    ensures
        forall|i: int|
            0 <= i < links_of_node(n, from).len() ==> links_of_node(n, from)[i].from == from,
    decreases n,
{
    lemma_links_of_nodes_from(n.children@, from);
}

pub proof fn lemma_links_of_nodes_from(s: Seq<DocNode>, from: Seq<char>)
    ensures
        forall|i: int|
            0 <= i < links_of_nodes(s, from).len() ==> links_of_nodes(s, from)[i].from == from,
    decreases s,
{
    if s.len() > 0 {
        lemma_links_of_nodes_from(s.drop_last(), from);
        lemma_links_of_node_from(s.last(), from);
    }
}

/// Walk the tree and collect every link occurrence with a normalized target.
pub fn collect_links(node: &DocNode, from: &String) -> (out: Vec<Link>)
    ensures
        link_views(out@) == links_of_node(*node, from@),
        forall|i: int| 0 <= i < out@.len() ==> out@[i].from@ == from@,
    decreases *node,
{
    let mut out: Vec<Link> = Vec::new();
    match &node.srcmap {
        Some(span) => {
            let (start, end) = (span.0, span.1);
            match &node.kind {
                NodeKind::Link { url } => {
                    out.push(Link {
                        from: from.clone(),
                        to: link_url_to_rel_path(url.as_str()),
                        text: None,
                        start,
                        end,
                    });
                },
                NodeKind::Wiki { target } => {
                    out.push(Link {
                        from: from.clone(),
                        to: link_url_to_rel_path(target.as_str()),
                        text: None,
                        start,
                        end,
                    });
                },
                NodeKind::Other => {},
            }
        },
        None => {},
    }
    assert(link_views(out@) =~= own_links(*node, from@));
    let n = node.children.len();
    let mut i: usize = 0;
    while i < n
        invariant
            0 <= i <= n,
            n == node.children@.len(),
            link_views(out@) =~= own_links(*node, from@) + links_of_nodes(
                node.children@.take(i as int),
                from@,
            ),
            forall|j: int| 0 <= j < out@.len() ==> out@[j].from@ == from@,
        decreases n - i,
    {
        proof {
            assert(node.children@.take(i + 1).drop_last() =~= node.children@.take(i as int));
            assert(node.children@.take(i + 1).last() == node.children@[i as int]);
        }
        let ghost prev = out@;
        let mut sub = collect_links(&node.children[i], from);
        let ghost subv = sub@;
        out.append(&mut sub);
        proof {
            assert(out@ == prev + subv);
            assert(link_views(out@) =~= link_views(prev) + link_views(subv));
            assert(link_views(out@) =~= own_links(*node, from@) + links_of_nodes(
                node.children@.take(i + 1),
                from@,
            ));
        }
        i = i + 1;
    }
    proof {
        assert(node.children@.take(n as int) =~= node.children@);
        assert(link_views(out@) =~= links_of_node(*node, from@));
    }
    out
}

/// The link stage: it owns the link table.
pub struct LinkIndex {
    pub initialized: bool,
}

impl LinkIndex {
    pub fn new() -> (r: LinkIndex)
        ensures
            !r.inv(),
    {
        LinkIndex { initialized: false }
    }
}

impl<'a> IndexExt<'a> for LinkIndex {
    type InitCfg = SqliteInitConfig;

    type NoteIn = MarkdownNote<'a>;

    open spec fn inv(&self) -> bool {
        self.initialized
    }

    open spec fn index_pre(&self, s: StoreModel, item: MarkdownNote<'a>) -> bool {
        s.notes.dom().contains(item.note.rel_path@)
    }

    open spec fn index_post(&self, s: StoreModel, item: MarkdownNote<'a>, now: u64) -> StoreModel {
        StoreModel {
            links: with_links(
                without_source(s.links, item.note.rel_path@),
                links_of_node(*item.markdown, item.note.rel_path@),
            ),
            ..s
        }
    }

    open spec fn remove_post(&self, s: StoreModel, path: Seq<char>) -> StoreModel {
        StoreModel { links: without_source(s.links, path), ..s }
    }

    /// Acquire the link table.
    fn init(&mut self, config: &SqliteInitConfig) {
        self.initialized = true;
    }

    /// Replace the source's link rows by the occurrences collected from the
    /// parsed document.
    fn index(&mut self, store: &mut IndexStore, item: &MarkdownNote<'a>, now: u64) {
        let from = item.note.rel_path.clone();
        let rows = collect_links(item.markdown, &from);
        store.replace_links(&from, &rows);
        proof {
            assert(store@ =~= old(self).index_post(old(store)@, *item, now));
        }
    }

    /// Delete every link row of the source; absence is not an error.
    fn remove(&mut self, store: &mut IndexStore, rel_path: &String) {
        store.delete_links(rel_path);
        proof {
            assert(store@ =~= old(self).remove_post(old(store)@, rel_path@));
        }
    }
}

} // verus!
