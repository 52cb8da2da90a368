//! Find-references: which search over the documents answers the request,
//! by what the cursor stands on.

use vstd::prelude::*;
use crate::text::{starts_with_char, trim_end_char, trimmed_end};
use crate::types::{opt_chars, GitlabElement, PositionType};

verus! {

/// The search over every document that finds the references.
pub enum ReferenceSearch {
    /// The `extends:` values equal to this name.
    Extends(String),
    /// The `needs:` entries naming this job.
    Needs(String),
    /// The `stage:` values (equal to this name, if one is given).
    Stages(Option<String>),
    /// No search: there are no references to list.
    Nothing,
}

/// The word under the cursor without a trailing colon, as on a root node's
/// line.
pub open spec fn node_key_of(word: Seq<char>) -> Seq<char> {
    trimmed_end(word, ':')
}

/// The search that answers a find-references request, given what the cursor
/// stands on and the word under it; `None` (no answer at all) when the word
/// is missing on a template name or a root node.
pub fn reference_search(position_type: &PositionType, word: Option<&str>) -> (r: Option<ReferenceSearch>)
    ensures
        match position_type {
            PositionType::Extend => match word {
                Some(w) => r matches Some(ReferenceSearch::Extends(name)) && name@ == w@,
                None => r is None,
            },
            PositionType::RootNode => match word {
                Some(w) => {
                    let key = node_key_of(w@);
                    if key.len() > 0 && key[0] == '.' {
                        r matches Some(ReferenceSearch::Extends(name)) && name@ == key
                    } else {
                        r matches Some(ReferenceSearch::Needs(name)) && name@ == key
                    }
                },
                None => r is None,
            },
            PositionType::Stage => r matches Some(ReferenceSearch::Stages(name)) && opt_chars(name)
                == match word {
                Some(w) => Some(w@),
                None => None,
            },
            _ => r matches Some(ReferenceSearch::Nothing),
        },
{
    match position_type {
        PositionType::Extend => match word {
            Some(w) => Some(ReferenceSearch::Extends(String::from_str(w))),
            None => None,
        },
        PositionType::RootNode => match word {
            Some(w) => {
                let key = trim_end_char(w, ':');
                if starts_with_char(key, '.') {
                    Some(ReferenceSearch::Extends(String::from_str(key)))
                } else {
                    Some(ReferenceSearch::Needs(String::from_str(key)))
                }
            },
            None => None,
        },
        PositionType::Stage => match word {
            Some(w) => Some(ReferenceSearch::Stages(Some(String::from_str(w)))),
            None => Some(ReferenceSearch::Stages(None)),
        },
        _ => Some(ReferenceSearch::Nothing),
    }
}

/// All of `parts`, one after the other.
pub open spec fn joined<A>(parts: Seq<Seq<A>>) -> Seq<A>
    decreases parts.len(),
{
    if parts.len() == 0 {
        Seq::empty()
    } else {
        joined(parts.drop_last()) + parts.last()
    }
}

/// The references, given what the search found in each document, document
/// by document in index order: all of them, in that order.
pub fn collect_references(found: Vec<Vec<GitlabElement>>) -> (r: Vec<GitlabElement>)
    ensures
        r@ == joined(found@.map_values(|v: Vec<GitlabElement>| v@)),
{
    let ghost parts = found@.map_values(|v: Vec<GitlabElement>| v@);
    let mut found = found;
    let ghost all = found@;
    let n = found.len();
    let mut r: Vec<GitlabElement> = Vec::new();
    let mut i: usize = 0;
    assert(parts.take(0) =~= Seq::<Seq<GitlabElement>>::empty());
    assert(found@ =~= all.skip(0));
    while i < n
        invariant
            n == all.len(),
            i <= n,
            parts == all.map_values(|v: Vec<GitlabElement>| v@),
            found@ == all.skip(i as int),
            r@ == joined(parts.take(i as int)),
        decreases n - i,
    {
        let mut part = found.remove(0);
        assert(part == all[i as int]);
        assert(found@ =~= all.skip(i + 1));
        assert(parts.take(i + 1).drop_last() =~= parts.take(i as int));
        assert(parts.take(i + 1).last() == part@);
        r.append(&mut part);
        i = i + 1;
    }
    assert(parts.take(n as int) =~= parts);
    r
}

} // verus!
