//! The wikilink syntax: a link written `[[target]]`.  The rule is registered
//! with the tokenizer as lower-priority than the standard link rule; its
//! pattern is two opening brackets, one or more characters excluding a
//! closing bracket, two closing brackets, consuming exactly that span.

use vstd::prelude::*;

verus! {

/// A wikilink occurrence: its target as written, without the brackets.
pub struct Wikilink {
    pub target: String,
}

impl Clone for Wikilink {
    fn clone(&self) -> (res: Self)
        ensures
            res == *self,
    {
        Wikilink { target: self.target.clone() }
    }
}

/// The first index in `[from, to)` where `c` stands, if any.
pub open spec fn first_index_in(s: Seq<char>, c: char, from: int, to: int) -> Option<int>
    decreases to - from,
{
    if from >= to {
        Option::None
    } else if s[from] == c {
        Option::Some(from)
    } else {
        first_index_in(s, c, from + 1, to)
    }
}

/// What a first occurrence means: the character stands there and nowhere
/// earlier in the range.
pub proof fn lemma_first_index_in_bounds(s: Seq<char>, c: char, from: int, to: int)
    requires
        0 <= from,
        to <= s.len(),
    ensures
        match first_index_in(s, c, from, to) {
            Option::Some(i) => from <= i < to && s[i] == c && (forall|k: int|
                from <= k < i ==> s[k] != c),
            Option::None => forall|k: int| from <= k < to ==> s[k] != c,
        },
    decreases to - from,
{
    if from < to && s[from] != c {
        lemma_first_index_in_bounds(s, c, from + 1, to);
    }
}

/// The wikilink match anchored at `pos`, looking no further than `pos_max`:
/// two opening brackets, then the target (one or more characters other than
/// a closing bracket, ended by the first closing bracket), then the second
/// closing bracket.  The result is the target and the consumed length.
pub open spec fn wikilink_at(s: Seq<char>, pos: int, pos_max: int) -> Option<(Seq<char>, int)> {
    if pos + 2 <= pos_max && s[pos] == '[' && s[pos + 1] == '[' {
        match first_index_in(s, ']', pos + 2, pos_max) {
            Option::Some(j) => if j > pos + 2 && j + 1 < pos_max && s[j + 1] == ']' {
                Option::Some((s.subrange(pos + 2, j), j + 2 - pos))
            } else {
                Option::None
            },
            Option::None => Option::None,
        }
    } else {
        Option::None
    }
}

/// The scanner the tokenizer calls at every leading bracket.
pub struct WikilinkScanner;

impl WikilinkScanner {
    /// Try to read one wikilink at `pos` in `src`, looking no further than
    /// `pos_max`: the recognized occurrence and the consumed length.
    pub fn run(src: &str, pos: usize, pos_max: usize) -> (r: Option<(Wikilink, usize)>)
        requires
            pos <= pos_max <= src@.len(),
        ensures
            match r {
                Option::Some(m) => wikilink_at(src@, pos as int, pos_max as int)
                    == Option::Some((m.0.target@, m.1 as int)),
                Option::None => wikilink_at(src@, pos as int, pos_max as int) is None,
            },
    {
        if pos_max - pos < 2 {
            return None;
        }
        if !(src.get_char(pos) == '[' && src.get_char(pos + 1) == '[') {
            return None;
        }
        proof {
            lemma_first_index_in_bounds(src@, ']', pos + 2, pos_max as int);
        }
        let mut j: usize = pos + 2;
        while j < pos_max
            invariant
                pos + 2 <= j <= pos_max,
                pos_max <= src@.len(),
                forall|k: int| pos + 2 <= k < j ==> src@[k] != ']',
                src@[pos as int] == '[',
                src@[pos as int + 1] == '[',
                first_index_in(src@, ']', pos + 2, pos_max as int) matches Option::Some(i)
                    ==> pos + 2 <= i < pos_max && src@[i] == ']' && (forall|k: int|
                    pos + 2 <= k < i ==> src@[k] != ']'),
                first_index_in(src@, ']', pos + 2, pos_max as int) is None ==> (forall|k: int|
                    pos + 2 <= k < pos_max ==> src@[k] != ']'),
            decreases pos_max - j,
        {
            if src.get_char(j) == ']' {
                assert(first_index_in(src@, ']', pos + 2, pos_max as int) == Option::Some(
                    j as int,
                )) by {
                    if let Option::Some(i) = first_index_in(src@, ']', pos + 2, pos_max as int) {
                        assert(!(i < j) && !(j < i));
                    }
                }
                if j > pos + 2 && j + 1 < pos_max && src.get_char(j + 1) == ']' {
                    let target = src.substring_char(pos + 2, j).to_owned();
                    return Some((Wikilink { target }, j + 2 - pos));
                } else {
                    return None;
                }
            }
            j = j + 1;
        }
        assert(first_index_in(src@, ']', pos + 2, pos_max as int) is None) by {
            if let Option::Some(i) = first_index_in(src@, ']', pos + 2, pos_max as int) {
                assert(src@[i] != ']');
            }
        }
        None
    }
}

} // verus!
