//! The creation and deletion orchestrators' decisions: the fail-fast check
//! before a workspace is created, the argument lists for the external copy
//! and version-control tools, and what a confirmed deletion must touch.

use crate::naming::spec_dir_name;
use crate::store::join_path;
use crate::strutil::{spec_trim, trim, views_of};
use vstd::prelude::*;
use vstd::string::StrSliceExecFns;
use vstd::string::StringExecFns;

verus! {

/// What creation decides before any state is touched.
pub enum CreateDecision {
    /// The target directory already exists: fail fast, allocate nothing.
    AlreadyExists { target_dir: String },
    /// Safe to proceed: the derived directory name and its path under the
    /// sync root.
    Proceed { directory_name: String, target_dir: String },
}

/// Decides whether creation of a workspace for the expanded branch may
/// proceed. The check comes first: when the target directory exists the
/// decision fails and nothing — no identifier, no record — is to be
/// allocated.
pub fn plan_create(expanded_branch: &str, sync_path: &str, target_dir_exists: bool) -> (r:
    CreateDecision)
    ensures
        target_dir_exists ==> r is AlreadyExists,
        !target_dir_exists ==> r is Proceed && r->Proceed_directory_name@ == spec_dir_name(
            expanded_branch@,
        ),
        match r {
            CreateDecision::AlreadyExists { target_dir } => target_dir@ == sync_path@ + "/"@
                + spec_dir_name(expanded_branch@),
            CreateDecision::Proceed { directory_name, target_dir } => target_dir@ == sync_path@
                + "/"@ + spec_dir_name(expanded_branch@),
        },
{
    let directory_name = crate::naming::branch_to_directory_name(expanded_branch);
    let target_dir = join_path(sync_path, directory_name.as_str());
    if target_dir_exists {
        CreateDecision::AlreadyExists { target_dir }
    } else {
        CreateDecision::Proceed { directory_name, target_dir }
    }
}

/// The argument pairs `--exclude <pattern>`, one pair per pattern.
pub open spec fn spec_exclude_args(excludes: Seq<Seq<char>>) -> Seq<Seq<char>>
    decreases excludes.len(),
{
    if excludes.len() == 0 {
        Seq::empty()
    } else {
        seq!["--exclude"@, excludes[0]] + spec_exclude_args(excludes.drop_first())
    }
}

/// The full argument list for the tree-copy tool: archive mode, verbosity
/// under debug, the sync root excluded first, then every configured
/// pattern, then source and target with trailing slashes.
pub open spec fn spec_rsync_args(
    debug: bool,
    sync_path: Seq<char>,
    excludes: Seq<Seq<char>>,
    source: Seq<char>,
    target: Seq<char>,
) -> Seq<Seq<char>> {
    seq!["-a"@] + (if debug {
        seq!["-v"@]
    } else {
        Seq::empty()
    }) + seq!["--exclude"@, sync_path] + spec_exclude_args(excludes) + seq![
        source + "/"@,
        target + "/"@,
    ]
}

/// Builds the tree-copy tool's argument list.
pub fn rsync_args(
    debug: bool,
    sync_path: &str,
    excludes: &Vec<String>,
    source: &str,
    target: &str,
) -> (r: Vec<String>)
    ensures
        views_of(r@) == spec_rsync_args(
            debug,
            sync_path@,
            views_of(excludes@),
            source@,
            target@,
        ),
{
    let mut out: Vec<String> = Vec::new();
    out.push("-a".to_owned());
    if debug {
        out.push("-v".to_owned());
    }
    out.push("--exclude".to_owned());
    out.push(sync_path.to_owned());
    let ghost exv = views_of(excludes@);
    let ghost base = views_of(out@);
    let n = excludes.len();
    let mut i: usize = 0;
    proof {
        assert(exv.subrange(0, n as int) =~= exv);
        assert(views_of(out@) + spec_exclude_args(exv.subrange(0, n as int)) + seq![
            source@ + "/"@,
            target@ + "/"@,
        ] =~= base + spec_exclude_args(exv) + seq![source@ + "/"@, target@ + "/"@]);
    }
    while i < n
        invariant
            n == excludes@.len(),
            exv == views_of(excludes@),
            i <= n,
            views_of(out@) + spec_exclude_args(exv.subrange(i as int, n as int)) == base
                + spec_exclude_args(exv),
        decreases n - i,
    {
        let ghost suffix = exv.subrange(i as int, n as int);
        let ghost pre = out@;
        out.push("--exclude".to_owned());
        out.push(excludes[i].clone());
        proof {
            assert(suffix[0] == exv[i as int]);
            assert(suffix.drop_first() =~= exv.subrange(i + 1, n as int));
            assert(views_of(out@) =~= views_of(pre) + seq!["--exclude"@, exv[i as int]]);
            assert(views_of(out@) + spec_exclude_args(exv.subrange(i + 1, n as int))
                =~= views_of(pre) + spec_exclude_args(suffix));
        }
        i = i + 1;
    }
    let mut src = source.to_owned();
    src.append("/");
    let mut dst = target.to_owned();
    dst.append("/");
    let ghost pre2 = out@;
    out.push(src);
    out.push(dst);
    proof {
        assert(exv.subrange(n as int, n as int).len() == 0);
        assert(views_of(pre2) =~= base + spec_exclude_args(exv));
        assert(views_of(out@) =~= views_of(pre2) + seq![source@ + "/"@, target@ + "/"@]);
        assert(views_of(out@) =~= spec_rsync_args(debug, sync_path@, exv, source@, target@));
    }
    out
}

/// The version-control tool's arguments for creating and checking out the
/// branch inside the fresh copy.
pub fn git_checkout_args(branch: &str) -> (r: Vec<String>)
    ensures
        views_of(r@) == seq!["checkout"@, "-b"@, branch@],
{
    let mut out: Vec<String> = Vec::new();
    out.push("checkout".to_owned());
    out.push("-b".to_owned());
    out.push(branch.to_owned());
    proof {
        assert(views_of(out@) =~= seq!["checkout"@, "-b"@, branch@]);
    }
    out
}

/// Whether a confirmation answer means yes: exactly `y`, in either case,
/// after trimming surrounding whitespace. Anything else means no.
pub open spec fn spec_confirmed(input: Seq<char>) -> bool {
    spec_trim(input) == seq!['y'] || spec_trim(input) == seq!['Y']
}

/// Reads a yes/no confirmation answer, defaulting to no.
pub fn confirmation_accepts(input: &str) -> (r: bool)
    ensures
        r == spec_confirmed(input@),
{
    let t = trim(input);
    let n = t.as_str().unicode_len();
    if n != 1 {
        proof {
            assert(spec_trim(input@).len() != 1);
            assert(seq!['y'].len() == 1 && seq!['Y'].len() == 1);
        }
        return false;
    }
    let c = t.as_str().get_char(0);
    proof {
        assert(spec_trim(input@) =~= seq![spec_trim(input@)[0]]);
    }
    c == 'y' || c == 'Y'
}

/// What a confirmed deletion must touch.
pub enum DeletePlan {
    /// The answer was no: leave record, directory and session untouched.
    Cancelled,
    /// Tear down the named session context if one was found, remove the
    /// workspace directory if it exists, then remove the record. A missing
    /// session blocks nothing.
    Proceed { kill: crate::session::SessionTarget, remove_directory: bool },
}

/// Decides what deletion of the selected workspace does, from the typed
/// confirmation answer, the session lookup's outcome, and whether the
/// workspace directory exists on disk.
pub fn plan_delete(
    confirm_input: &str,
    session: crate::session::SessionTarget,
    dir_exists: bool,
) -> (r: DeletePlan)
    ensures
        !spec_confirmed(confirm_input@) ==> r is Cancelled,
        spec_confirmed(confirm_input@) ==> r is Proceed && r->kill == session
            && r->remove_directory == dir_exists,
{
    if confirmation_accepts(confirm_input) {
        DeletePlan::Proceed { kill: session, remove_directory: dir_exists }
    } else {
        DeletePlan::Cancelled
    }
}

} // verus!
