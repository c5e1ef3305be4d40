//! The directory-naming rule: a workspace directory name is derived from its
//! branch name by replacing every path separator with a hyphen.

use crate::strutil::push_char;
use vstd::prelude::*;
use vstd::string::StrSliceExecFns;

verus! {

/// The character a path separator is replaced with.
pub open spec fn spec_dir_char(c: char) -> char {
    if c == '/' {
        '-'
    } else {
        c
    }
}

/// The directory name derived from a branch name: the same characters, with
/// every `/` replaced by `-`.
pub open spec fn spec_dir_name(branch: Seq<char>) -> Seq<char> {
    Seq::new(branch.len(), |i: int| spec_dir_char(branch[i]))
}

/// The directory name is a pure function of the branch: it has the same
/// length, and replacing every path separator with a hyphen is the only
/// transformation applied, so equal branches always yield equal names.
pub proof fn lemma_dir_name_characterization(branch: Seq<char>)
    ensures
        spec_dir_name(branch).len() == branch.len(),
        forall|i: int|
            0 <= i < branch.len() ==> spec_dir_name(branch)[i] == (if branch[i] == '/' {
                '-'
            } else {
                branch[i]
            }),
{
}

/// Derives the on-disk folder name for a branch: every `/` becomes `-`,
/// every other character is kept as it is.
pub fn branch_to_directory_name(branch: &str) -> (r: String)
    ensures
        r@ == spec_dir_name(branch@),
{
    let n: usize = branch.unicode_len();
    let mut out: String = String::new();
    let mut i: usize = 0;
    while i < n
        invariant
            n == branch@.len(),
            i <= n,
            out@ == spec_dir_name(branch@).subrange(0, i as int),
        decreases n - i,
    {
        let c = branch.get_char(i);
        if c == '/' {
            push_char(&mut out, '-');
        } else {
            push_char(&mut out, c);
        }
        i = i + 1;
        proof {
            assert(out@ =~= spec_dir_name(branch@).subrange(0, i as int));
        }
    }
    proof {
        assert(out@ =~= spec_dir_name(branch@));
    }
    out
}

} // verus!
