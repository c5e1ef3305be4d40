//! The session coordinator's decisions: deriving the session-name prefix
//! from the repository URL or working directory, planning what session
//! context to create for a workspace, and locating an existing session or
//! window for teardown.

use crate::strutil::{
    spec_lines, spec_replace, spec_starts_with, spec_trim, split_lines, starts_with_str,
    str_eq, trim, views_of,
};
use vstd::prelude::*;
use vstd::string::StrSliceExecFns;
use vstd::string::StringExecFns;

verus! {

/// The characters after the last occurrence of `c`, or all of `s` when `c`
/// does not occur.
pub open spec fn spec_after_last(s: Seq<char>, c: char) -> Seq<char>
    decreases s.len(),
{
    if s.len() == 0 {
        s
    } else if s[s.len() - 1] == c {
        Seq::empty()
    } else {
        spec_after_last(s.drop_last(), c).push(s[s.len() - 1])
    }
}

proof fn lemma_after_last_at(s: Seq<char>, c: char, k: int)
    requires
        0 <= k <= s.len(),
        forall|j: int| k <= j < s.len() ==> s[j] != c,
        k > 0 ==> s[k - 1] == c,
    ensures
        spec_after_last(s, c) == s.subrange(k, s.len() as int),
    decreases s.len() - k,
{
    if k == s.len() {
        if k > 0 {
            assert(spec_after_last(s, c) =~= s.subrange(k, s.len() as int));
        } else {
            assert(s.len() == 0);
            assert(spec_after_last(s, c) =~= s.subrange(k, s.len() as int));
        }
    } else {
        assert(s[s.len() - 1] != c);
        let s2 = s.drop_last();
        assert(s2 =~= s.subrange(0, s.len() - 1));
        lemma_after_last_at(s2, c, k);
        assert(s2.subrange(k, s2.len() as int) =~= s.subrange(k, s.len() - 1));
        assert(spec_after_last(s, c) =~= s.subrange(k, s.len() as int));
    }
}

/// The part of `s` after its last occurrence of `c`.
pub fn after_last(s: &str, c: char) -> (r: String)
    ensures
        r@ == spec_after_last(s@, c),
{
    let n = s.unicode_len();
    let mut k: usize = n;
    loop
        invariant
            n == s@.len(),
            k <= n,
            forall|j: int| k <= j < n ==> s@[j] != c,
        ensures
            k <= n,
            forall|j: int| k <= j < n ==> s@[j] != c,
            k > 0 ==> s@[k - 1] == c,
        decreases k,
    {
        if k == 0 {
            break;
        }
        if s.get_char(k - 1) == c {
            break;
        }
        k = k - 1;
    }
    proof {
        lemma_after_last_at(s@, c, k as int);
    }
    s.substring_char(k, n).to_owned()
}

/// `s` with every trailing `.git` removed.
pub open spec fn spec_trim_git(s: Seq<char>) -> Seq<char>
    decreases s.len(),
{
    if s.len() >= 4 && s.subrange(s.len() - 4, s.len() as int) == ".git"@ {
        spec_trim_git(s.subrange(0, s.len() - 4))
    } else {
        s
    }
}

/// Removes every trailing `.git` from `s`.
pub fn trim_git(s: &str) -> (r: String)
    ensures
        r@ == spec_trim_git(s@),
    decreases s@.len(),
{
    let n = s.unicode_len();
    proof {
        reveal_strlit(".git");
    }
    if n >= 4 && crate::strutil::matches_at(s, n - 4, ".git") {
        trim_git(s.substring_char(0, n - 4))
    } else {
        s.to_owned()
    }
}

/// Whether `c` occurs in `s`.
pub fn contains_char(s: &str, c: char) -> (r: bool)
    ensures
        r == exists|j: int| 0 <= j < s@.len() && s@[j] == c,
{
    let n = s.unicode_len();
    let mut i: usize = 0;
    while i < n
        invariant
            n == s@.len(),
            i <= n,
            forall|j: int| 0 <= j < i ==> s@[j] != c,
        decreases n - i,
    {
        if s.get_char(i) == c {
            return true;
        }
        i = i + 1;
    }
    false
}

/// The repository's short name read from its remote URL: the last path
/// segment for web-style URLs, the last path segment after the final colon
/// for SCP-style ones, with any `.git` extension dropped; `None` for a URL
/// in neither shape.
pub open spec fn spec_repo_name(url: Seq<char>) -> Option<Seq<char>> {
    if spec_starts_with(url, "https://"@) || spec_starts_with(url, "http://"@) {
        Some(spec_trim_git(spec_after_last(url, '/')))
    } else if exists|j: int| 0 <= j < url.len() && url[j] == ':' {
        Some(spec_trim_git(spec_after_last(spec_after_last(url, ':'), '/')))
    } else {
        None
    }
}

/// Parses the repository's short name out of its remote URL.
pub fn repo_name_from_url(url: &str) -> (r: Option<String>)
    ensures
        match r {
            Some(name) => spec_repo_name(url@) == Some(name@),
            None => spec_repo_name(url@) is None,
        },
{
    if starts_with_str(url, "https://") || starts_with_str(url, "http://") {
        let last = after_last(url, '/');
        Some(trim_git(last.as_str()))
    } else if contains_char(url, ':') {
        let tail = after_last(url, ':');
        let last = after_last(tail.as_str(), '/');
        Some(trim_git(last.as_str()))
    } else {
        None
    }
}

/// The first `k` characters of `s`, or all of them when it is shorter.
pub open spec fn spec_take(s: Seq<char>, k: int) -> Seq<char> {
    if s.len() <= k {
        s
    } else {
        s.subrange(0, k)
    }
}

/// The session-name prefix: the first three characters of the repository's
/// short name, else of the working directory's name, else a fixed token.
pub fn repo_prefix_from(repo_name: Option<&str>, dir_name: Option<&str>) -> (r: String)
    ensures
        match repo_name {
            Some(n) => r@ == spec_take(n@, 3),
            None => match dir_name {
                Some(d) => r@ == spec_take(d@, 3),
                None => r@ == "trr"@,
            },
        },
{
    match repo_name {
        Some(n) => {
            let ln = n.unicode_len();
            if ln <= 3 {
                proof {
                    assert(n@.subrange(0, n@.len() as int) =~= n@);
                }
                n.to_owned()
            } else {
                n.substring_char(0, 3).to_owned()
            }
        },
        None => match dir_name {
            Some(d) => {
                let ld = d.unicode_len();
                if ld <= 3 {
                    proof {
                        assert(d@.subrange(0, d@.len() as int) =~= d@);
                    }
                    d.to_owned()
                } else {
                    d.substring_char(0, 3).to_owned()
                }
            },
            None => "trr".to_owned(),
        },
    }
}

/// The name a workspace's session or window carries.
pub fn session_name(prefix: &str, branch: &str) -> (r: String)
    ensures
        r@ == prefix@ + "-"@ + branch@,
{
    let mut out = prefix.to_owned();
    out.append("-");
    let out2 = out.concat(branch);
    proof {
        assert(out2@ =~= prefix@ + "-"@ + branch@);
    }
    out2
}

/// The initialization commands actually sent: the placeholder replaced by
/// the joined extra arguments, the whole text trimmed, split into lines,
/// and blank lines dropped.
pub open spec fn spec_commands(init: Seq<char>, args_joined: Seq<char>) -> Seq<Seq<char>> {
    spec_nonblank(spec_lines(spec_trim(spec_replace(init, "@@args"@, args_joined))))
}

/// The lines whose trimmed text is non-empty, in order.
pub open spec fn spec_nonblank(lines: Seq<Seq<char>>) -> Seq<Seq<char>>
    decreases lines.len(),
{
    if lines.len() == 0 {
        Seq::empty()
    } else {
        let rest = spec_nonblank(lines.drop_first());
        if spec_trim(lines[0]).len() > 0 {
            seq![lines[0]] + rest
        } else {
            rest
        }
    }
}

/// Computes the command lines to send into a fresh session or window.
pub fn build_commands(init_commands: &str, args: &Vec<String>) -> (r: Vec<String>)
    ensures
        views_of(r@) == spec_commands(init_commands@, crate::strutil::spec_join(
            views_of(args@),
            " "@,
        )),
{
    let args_str = crate::strutil::join_with(args, " ");
    let processed = crate::strutil::replace_all(init_commands, "@@args", args_str.as_str());
    let trimmed = trim(processed.as_str());
    let lines = split_lines(trimmed.as_str());
    let ghost all = views_of(lines@);
    let mut out: Vec<String> = Vec::new();
    let n = lines.len();
    let mut i: usize = 0;
    proof {
        assert(all.subrange(0, n as int) =~= all);
        assert(views_of(out@) + spec_nonblank(all.subrange(0, n as int)) =~= spec_nonblank(
            all,
        ));
    }
    while i < n
        invariant
            n == lines@.len(),
            all == views_of(lines@),
            i <= n,
            views_of(out@) + spec_nonblank(all.subrange(i as int, n as int)) == spec_nonblank(
                all,
            ),
        decreases n - i,
    {
        let ghost suffix = all.subrange(i as int, n as int);
        let t = trim(lines[i].as_str());
        proof {
            assert(suffix[0] == all[i as int]);
            assert(suffix.drop_first() =~= all.subrange(i + 1, n as int));
        }
        if t.as_str().unicode_len() > 0 {
            let ghost pre = out@;
            out.push(lines[i].clone());
            proof {
                assert(views_of(out@) =~= views_of(pre).push(all[i as int]));
                assert(views_of(out@) + spec_nonblank(all.subrange(i + 1, n as int))
                    =~= views_of(pre) + (seq![all[i as int]] + spec_nonblank(
                    all.subrange(i + 1, n as int),
                )));
                assert(views_of(out@) + spec_nonblank(all.subrange(i + 1, n as int))
                    =~= spec_nonblank(all));
            }
        } else {
            proof {
                assert(views_of(out@) + spec_nonblank(all.subrange(i + 1, n as int))
                    =~= spec_nonblank(all));
            }
        }
        i = i + 1;
    }
    proof {
        assert(all.subrange(n as int, n as int).len() == 0);
        assert(views_of(out@) =~= spec_nonblank(all));
    }
    out
}

/// What the session coordinator is to do for a fresh workspace.
pub enum SessionPlan {
    /// The session tool is absent: warn and leave the workspace detached.
    Detached,
    /// Inside a shared session: create a window with this name, send it
    /// these commands, then switch focus to it.
    Window { name: String, commands: Vec<String> },
    /// Not nested but interactive: create a standalone session with this
    /// name, send it these commands, then attach.
    Standalone { name: String, commands: Vec<String> },
    /// Neither nested nor interactive: only report the workspace path.
    Headless,
}

/// Decides the session context for a fresh workspace from the three
/// external conditions, the derived prefix, the branch, the configured
/// initialization command text, and the extra user arguments.
pub fn plan_session(
    tmux_available: bool,
    in_tmux: bool,
    is_terminal: bool,
    prefix: &str,
    branch: &str,
    init_commands: &str,
    args: &Vec<String>,
) -> (r: SessionPlan)
    ensures
        !tmux_available ==> r is Detached,
        tmux_available && in_tmux ==> r is Window,
        tmux_available && !in_tmux && is_terminal ==> r is Standalone,
        tmux_available && !in_tmux && !is_terminal ==> r is Headless,
        r is Window ==> r->Window_name@ == prefix@ + "-"@ + branch@ && views_of(
            r->Window_commands@,
        ) == spec_commands(init_commands@, crate::strutil::spec_join(views_of(args@), " "@)),
        r is Standalone ==> r->Standalone_name@ == prefix@ + "-"@ + branch@ && views_of(
            r->Standalone_commands@,
        ) == spec_commands(init_commands@, crate::strutil::spec_join(views_of(args@), " "@)),
{
    if !tmux_available {
        return SessionPlan::Detached;
    }
    if in_tmux {
        let name = session_name(prefix, branch);
        let commands = build_commands(init_commands, args);
        SessionPlan::Window { name, commands }
    } else if is_terminal {
        let name = session_name(prefix, branch);
        let commands = build_commands(init_commands, args);
        SessionPlan::Standalone { name, commands }
    } else {
        SessionPlan::Headless
    }
}

/// Whether some line of `text` is exactly `name`.
pub fn has_line(text: &str, name: &str) -> (r: bool)
    ensures
        r == spec_lines(text@).contains(name@),
{
    let lines = split_lines(text);
    let n = lines.len();
    let mut i: usize = 0;
    while i < n
        invariant
            n == lines@.len(),
            views_of(lines@) == spec_lines(text@),
            i <= n,
            forall|j: int| 0 <= j < i ==> views_of(lines@)[j] != name@,
        decreases n - i,
    {
        if str_eq(lines[i].as_str(), name) {
            proof {
                assert(spec_lines(text@)[i as int] == name@);
            }
            return true;
        }
        i = i + 1;
    }
    proof {
        assert(forall|j: int|
            0 <= j < spec_lines(text@).len() ==> spec_lines(text@)[j] != name@);
    }
    false
}

/// Where a workspace's live session context was found, for teardown.
pub enum SessionTarget {
    /// A window of this name inside the shared session.
    Window { name: String },
    /// A standalone session of this name.
    Standalone { name: String },
    /// No live session context: teardown reports "no session".
    NotFound,
}

/// Locates the session context named `name` for teardown: first the shared
/// session's window list when nested, then the session list. A listing of
/// `None` stands for a failed listing command and ends the search empty.
pub fn find_session_target(
    name: &str,
    in_tmux: bool,
    windows: Option<&str>,
    sessions: Option<&str>,
) -> (r: SessionTarget)
    ensures
        in_tmux && windows is Some && spec_lines(windows->0@).contains(name@) ==> r is Window
            && r->Window_name@ == name@,
        in_tmux && windows is None ==> r is NotFound,
        (in_tmux ==> windows is Some && !spec_lines(windows->0@).contains(name@)) ==> match (
        sessions
        ) {
            Some(t) => {
                if spec_lines(t@).contains(name@) {
                    r is Standalone && r->Standalone_name@ == name@
                } else {
                    r is NotFound
                }
            },
            None => r is NotFound,
        },
{
    if in_tmux {
        match windows {
            Some(w) => {
                if has_line(w, name) {
                    return SessionTarget::Window { name: name.to_owned() };
                }
            },
            None => {
                return SessionTarget::NotFound;
            },
        }
    }
    match sessions {
        Some(t) => {
            if has_line(t, name) {
                SessionTarget::Standalone { name: name.to_owned() }
            } else {
                SessionTarget::NotFound
            }
        },
        None => SessionTarget::NotFound,
    }
}

} // verus!
