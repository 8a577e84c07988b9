use vstd::prelude::*;
use crate::scan::str_ends_with;

verus! {

/// An element of an `additional-js` configuration array counts as already
/// naming the file when it is not a string at all, or when its text ends
/// with the file's name.
pub open spec fn entry_matches(e: Option<String>, file: Seq<char>) -> bool {
    match e {
        Option::None => true,
        Option::Some(s) => file.len() <= s@.len() && s@.skip(s@.len() - file.len()) == file,
    }
}

/// Whether a configuration array already lists a file: true exactly when
/// some element matches it.
pub fn file_already_listed(entries: &Vec<Option<String>>, file: &str) -> (r: bool)
    ensures
        r == (exists|i: int|
            0 <= i < entries@.len() && entry_matches(#[trigger] entries@[i], file@)),
{
    let mut i: usize = 0;
    while i < entries.len()
        invariant
            0 <= i <= entries@.len(),
            forall|j: int| 0 <= j < i ==> !entry_matches(#[trigger] entries@[j], file@),
        decreases entries@.len() - i,
    {
        match &entries[i] {
            Option::None => {
                proof {
                    assert(entry_matches(entries@[i as int], file@));
                }
                return true;
            },
            Option::Some(s) => {
                if str_ends_with(s.as_str(), file) {
                    proof {
                        assert(entry_matches(entries@[i as int], file@));
                    }
                    return true;
                }
            },
        }
        i = i + 1;
    }
    false
}

} // verus!
