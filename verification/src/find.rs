//! The filtering decisions of the file finder: which walked entries the
//! requested entry types and name patterns keep.

use vstd::prelude::*;

verus! {

/// A kind of directory entry the search can ask for.
#[derive(Debug, PartialEq, Eq, Structural, Clone, Copy)]
pub enum EntryType {
    Dir,
    File,
    Link,
}

/// Does one walked entry, described by its three type flags, satisfy a
/// wanted entry type?
pub open spec fn type_matches(t: EntryType, is_link: bool, is_file: bool, is_dir: bool) -> bool {
    match t {
        EntryType::Link => is_link,
        EntryType::File => is_file,
        EntryType::Dir => is_dir,
    }
}

/// Keep an entry when no type was asked for, or when it satisfies one
/// of the asked-for types.
pub fn type_filter(entry_types: &Vec<EntryType>, is_link: bool, is_file: bool, is_dir: bool) -> (r:
    bool)
    ensures
        r == (entry_types@.len() == 0 || exists|k: int|
            0 <= k < entry_types@.len() && type_matches(
                #[trigger] entry_types@[k],
                is_link,
                is_file,
                is_dir,
            )),
{
    if entry_types.len() == 0 {
        return true;
    }
    let n = entry_types.len();
    let mut k: usize = 0;
    while k < n
        invariant
            0 <= k <= n,
            n == entry_types@.len(),
            forall|j: int|
                0 <= j < k ==> !type_matches(#[trigger] entry_types@[j], is_link, is_file, is_dir),
        decreases n - k,
    {
        let hit = match entry_types[k] {
            EntryType::Link => is_link,
            EntryType::File => is_file,
            EntryType::Dir => is_dir,
        };
        if hit {
            proof {
                assert(type_matches(entry_types@[k as int], is_link, is_file, is_dir));
            }
            return true;
        }
        k = k + 1;
    }
    false
}

/// Keep an entry when no name pattern was given, or when one of the
/// patterns matches its name.  Which names a pattern matches is the
/// pattern's affair; the decision is the disjunction of the answers.
pub fn name_filter(matched: &Vec<bool>) -> (r: bool)
    ensures
        r == (matched@.len() == 0 || exists|k: int| 0 <= k < matched@.len() && matched@[k]),
{
    if matched.len() == 0 {
        return true;
    }
    let n = matched.len();
    let mut k: usize = 0;
    while k < n
        invariant
            0 <= k <= n,
            n == matched@.len(),
            forall|j: int| 0 <= j < k ==> !matched@[j],
        decreases n - k,
    {
        if matched[k] {
            return true;
        }
        k = k + 1;
    }
    false
}

} // verus!
