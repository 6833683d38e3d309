//! A note: a file inside the watched tree, addressed by its path relative to
//! the vault root.

use vstd::prelude::*;

use crate::text::{last_index, lemma_last_index_bounds, opt_view, rfind_char, str_eq};

verus! {

/// The index where the file name of `rel` begins: right after the last `/`.
pub open spec fn file_name_start(rel: Seq<char>) -> int {
    match last_index(rel, '/') {
        Option::Some(i) => i + 1,
        Option::None => 0,
    }
}

/// The extension of `rel`: the part of the file name after its last dot,
/// unless that dot begins the file name.
pub open spec fn ext_of(rel: Seq<char>) -> Option<Seq<char>> {
    let name = rel.subrange(file_name_start(rel), rel.len() as int);
    match last_index(name, '.') {
        Option::Some(i) => if i > 0 {
            Option::Some(name.subrange(i + 1, name.len() as int))
        } else {
            Option::None
        },
        Option::None => Option::None,
    }
}

/// The display path of `rel`: a trailing markdown extension is stripped.
pub open spec fn vault_path_of(rel: Seq<char>) -> Seq<char> {
    if ext_of(rel) == Option::Some("md"@) {
        rel.take(rel.len() - 3)
    } else {
        rel
    }
}

/// `root` and `rel` joined with a path separator.
pub open spec fn join_of(root: Seq<char>, rel: Seq<char>) -> Seq<char> {
    if root.len() == 0 {
        rel
    } else if root.last() == '/' {
        root + rel
    } else {
        root + "/"@ + rel
    }
}

/// A note, with the relative path as its identity and the paths derived from
/// it.
pub struct Note {
    pub rel_path: String,
    pub absolute_path: String,
    pub vault_path: String,
    pub extension: Option<String>,
}

impl Note {
    /// Derive a note from the vault root and a relative path.
    pub fn new(vault_root_path: &str, rel_path: &str) -> (n: Note)
        ensures
            n.rel_path@ == rel_path@,
            n.absolute_path@ == join_of(vault_root_path@, rel_path@),
            n.vault_path@ == vault_path_of(rel_path@),
            opt_view(n.extension) == ext_of(rel_path@),
    {
        Note {
            rel_path: rel_path.to_owned(),
            absolute_path: join_paths(vault_root_path, rel_path),
            vault_path: vault_path_from_relative_path(rel_path),
            extension: extension_of(rel_path),
        }
    }
}

/// The extension of a relative path, as Rust's path handling reads it.
pub fn extension_of(rel: &str) -> (r: Option<String>)
    ensures
        opt_view(r) == ext_of(rel@),
{
    let n = rel.unicode_len();
    proof {
        lemma_last_index_bounds(rel@, '/');
    }
    let start = match rfind_char(rel, '/') {
        Some(i) => i + 1,
        None => 0,
    };
    let name = rel.substring_char(start, n);
    assert(name@ == rel@.subrange(file_name_start(rel@), rel@.len() as int));
    proof {
        lemma_last_index_bounds(name@, '.');
    }
    match rfind_char(name, '.') {
        Some(i) => if i > 0 {
            let name_len = n - start;
            Some(name.substring_char(i + 1, name_len).to_owned())
        } else {
            None
        },
        None => None,
    }
}

/// The display path: the markdown extension, if there is one, is stripped.
pub fn vault_path_from_relative_path(rel: &str) -> (r: String)
    ensures
        r@ == vault_path_of(rel@),
{
    let ext = extension_of(rel);
    let is_md = match &ext {
        Some(e) => str_eq(e.as_str(), "md"),
        None => false,
    };
    if is_md {
        let n = rel.unicode_len();
        proof {
            reveal_strlit("md");
            lemma_last_index_bounds(rel@, '/');
            let name = rel@.subrange(file_name_start(rel@), rel@.len() as int);
            lemma_last_index_bounds(name, '.');
            assert(ext_of(rel@) == Option::Some("md"@));
            if let Option::Some(i) = last_index(name, '.') {
                assert(name.subrange(i + 1, name.len() as int) == "md"@);
                assert("md"@.len() == 2);
                assert(name.len() == i + 3);
                assert(file_name_start(rel@) >= 0);
            }
            assert(rel@.len() >= 4);
        }
        let r = rel.substring_char(0, n - 3).to_owned();
        assert(r@ =~= vault_path_of(rel@));
        r
    } else {
        rel.to_owned()
    }
}

/// `root` and `rel` joined with a path separator.
pub fn join_paths(root: &str, rel: &str) -> (r: String)
    ensures
        r@ == join_of(root@, rel@),
{
    let root_len = root.unicode_len();
    if root_len == 0 {
        return rel.to_owned();
    }
    let mut s = root.to_owned();
    if !(root.get_char(root_len - 1) == '/') {
        s.append("/");
    }
    s.append(rel);
    s
}

} // verus!
