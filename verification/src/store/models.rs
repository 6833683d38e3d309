//! The records the pipeline persists: one row type per table, together with
//! their mathematical views.

use vstd::prelude::*;

verus! {

/// A file row: the relative path is the key; `last_indexed` is the time (in
/// seconds since the epoch) the note was last (re)indexed.
pub struct File {
    pub path: String,
    pub last_indexed: u64,
}

/// A note row: `file` is the key (and refers to a file row); `vault_path` is
/// the display path with a trailing markdown extension stripped.
pub struct Note {
    pub vault_path: String,
    pub file: String,
}

/// A link row: keyed by `(from, start)`; `from` refers to a note row.  The
/// target is a normalized relative path or an external URL, kept as text.
pub struct Link {
    pub from: String,
    pub to: String,
    pub text: Option<String>,
    pub start: usize,
    pub end: usize,
}

impl Clone for File {
    fn clone(&self) -> (res: Self)
        ensures
            res == *self,
    {
        File { path: self.path.clone(), last_indexed: self.last_indexed }
    }
}

impl Clone for Note {
    fn clone(&self) -> (res: Self)
        ensures
            res == *self,
    {
        Note { vault_path: self.vault_path.clone(), file: self.file.clone() }
    }
}

impl Clone for Link {
    fn clone(&self) -> (res: Self)
        ensures
            res == *self,
    {
        Link {
            from: self.from.clone(),
            to: self.to.clone(),
            text: match &self.text {
                Option::Some(t) => Option::Some(t.clone()),
                Option::None => Option::None,
            },
            start: self.start,
            end: self.end,
        }
    }
}

/// The view of a link row.
#[verifier::ext_equal]
pub struct LinkView {
    pub from: Seq<char>,
    pub to: Seq<char>,
    pub text: Option<Seq<char>>,
    pub start: usize,
    pub end: usize,
}

impl View for File {
    type V = (Seq<char>, u64);

    open spec fn view(&self) -> (Seq<char>, u64) {
        (self.path@, self.last_indexed)
    }
}

impl View for Note {
    type V = (Seq<char>, Seq<char>);

    open spec fn view(&self) -> (Seq<char>, Seq<char>) {
        (self.file@, self.vault_path@)
    }
}

impl View for Link {
    type V = LinkView;

    open spec fn view(&self) -> LinkView {
        LinkView {
            from: self.from@,
            to: self.to@,
            text: match self.text {
                Option::Some(ref t) => Option::Some(t@),
                Option::None => Option::None,
            },
            start: self.start,
            end: self.end,
        }
    }
}

} // verus!
