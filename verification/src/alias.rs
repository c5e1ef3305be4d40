//! The alias expander: rewrites a user-typed branch shorthand into a real
//! branch name. The first alias pair whose token is a prefix of the raw
//! token wins; a literal expansion replaces the prefix directly, a shell
//! directive (`!command`) is run by the caller and its trimmed output
//! replaces the prefix; a failed run leaves the raw token unchanged.

use crate::config::Config;
use crate::strutil::{spec_starts_with, spec_trim_end, starts_with_str, trim_end};
use vstd::prelude::*;
use vstd::string::StrSliceExecFns;
use vstd::string::StringExecFns;

verus! {

/// What expansion decided, at the specification level.
pub enum SpecExpand {
    /// No alias token is a prefix of the raw token.
    Unchanged,
    /// A literal expansion applied: the expanded branch name.
    Literal(Seq<char>),
    /// A shell directive applied: the command to run and the suffix to keep.
    Shell(Seq<char>, Seq<char>),
}

/// What expansion decided: either the finished branch name, or the shell
/// command still to be run together with the suffix to append to its output.
pub enum AliasOutcome {
    Unchanged,
    Literal(String),
    Shell { command: String, suffix: String },
}

/// The lowest index at or after `i` whose alias token is a prefix of `branch`.
pub open spec fn spec_first_match_from(
    aliases: Seq<(String, String)>,
    branch: Seq<char>,
    i: int,
) -> Option<int>
    decreases aliases.len() - i,
{
    if i < 0 || i >= aliases.len() {
        None
    } else if spec_starts_with(branch, aliases[i].0@) {
        Some(i)
    } else {
        spec_first_match_from(aliases, branch, i + 1)
    }
}

/// The first alias pair whose token is a prefix of `branch`, if any.
pub open spec fn spec_first_match(aliases: Seq<(String, String)>, branch: Seq<char>) -> Option<
    int,
> {
    spec_first_match_from(aliases, branch, 0)
}

/// What expanding `branch` against `aliases` decides.
pub open spec fn spec_expand_step(aliases: Seq<(String, String)>, branch: Seq<char>) -> SpecExpand {
    match spec_first_match(aliases, branch) {
        None => SpecExpand::Unchanged,
        Some(i) => {
            let expansion = aliases[i].1@;
            let suffix = branch.subrange(aliases[i].0@.len() as int, branch.len() as int);
            if expansion.len() > 0 && expansion[0] == '!' {
                SpecExpand::Shell(expansion.subrange(1, expansion.len() as int), suffix)
            } else {
                SpecExpand::Literal(expansion + suffix)
            }
        },
    }
}

/// Decides how `branch` expands under the alias table of `config`.
pub fn expand_alias_step(branch: &str, config: &Config) -> (r: AliasOutcome)
    ensures
        match spec_expand_step(config.branch_aliases@, branch@) {
            SpecExpand::Unchanged => r is Unchanged,
            SpecExpand::Literal(l) => r is Literal && r->0@ == l,
            SpecExpand::Shell(c, s) => r is Shell && r->command@ == c && r->suffix@ == s,
        },
{
    let n = config.branch_aliases.len();
    let mut i: usize = 0;
    while i < n
        invariant
            n == config.branch_aliases@.len(),
            i <= n,
            spec_first_match(config.branch_aliases@, branch@) == spec_first_match_from(
                config.branch_aliases@,
                branch@,
                i as int,
            ),
        decreases n - i,
    {
        let alias = &config.branch_aliases[i].0;
        let expansion = &config.branch_aliases[i].1;
        if starts_with_str(branch, alias.as_str()) {
            let bn = branch.unicode_len();
            let al = alias.as_str().unicode_len();
            let suffix = branch.substring_char(al, bn);
            let el = expansion.as_str().unicode_len();
            if el > 0 && expansion.as_str().get_char(0) == '!' {
                let command = expansion.as_str().substring_char(1, el).to_owned();
                return AliasOutcome::Shell { command, suffix: suffix.to_owned() };
            } else {
                let expanded = expansion.clone().concat(suffix);
                return AliasOutcome::Literal(expanded);
            }
        }
        i = i + 1;
    }
    AliasOutcome::Unchanged
}

/// Finishes a shell-directive expansion: the captured output with trailing
/// whitespace trimmed, then the kept suffix; a failed run (no output) falls
/// back to the raw token unchanged.
pub fn apply_shell_result(branch: &str, suffix: &str, output: Option<&str>) -> (r: String)
    ensures
        match output {
            Some(o) => r@ == spec_trim_end(o@) + suffix@,
            None => r@ == branch@,
        },
{
    match output {
        Some(o) => {
            let t = trim_end(o);
            t.concat(suffix)
        },
        None => branch.to_owned(),
    }
}

/// When no alias token is a prefix of the raw branch token, expansion leaves
/// the token unchanged.
pub proof fn lemma_no_match_identity(aliases: Seq<(String, String)>, branch: Seq<char>)
    requires
        forall|i: int|
            0 <= i < aliases.len() ==> !spec_starts_with(branch, #[trigger] aliases[i].0@),
    ensures
        spec_expand_step(aliases, branch) is Unchanged,
{
    lemma_no_match_from(aliases, branch, 0);
}

proof fn lemma_no_match_from(aliases: Seq<(String, String)>, branch: Seq<char>, i: int)
    requires
        i >= 0,
        forall|j: int|
            i <= j < aliases.len() ==> !spec_starts_with(branch, #[trigger] aliases[j].0@),
    ensures
        spec_first_match_from(aliases, branch, i) is None,
    decreases aliases.len() - i,
{
    if i < aliases.len() {
        lemma_no_match_from(aliases, branch, i + 1);
    }
}

/// A token `alias + suffix` whose first matching alias pair maps `alias` to a
/// literal expansion expands to exactly `expansion + suffix`.
pub proof fn lemma_literal_expansion(
    aliases: Seq<(String, String)>,
    suffix: Seq<char>,
    i: int,
)
    requires
        spec_first_match(aliases, aliases[i].0@ + suffix) == Some(i),
        0 <= i < aliases.len(),
        !(aliases[i].1@.len() > 0 && aliases[i].1@[0] == '!'),
    ensures
        spec_expand_step(aliases, aliases[i].0@ + suffix) == SpecExpand::Literal(
            aliases[i].1@ + suffix,
        ),
{
    let branch = aliases[i].0@ + suffix;
    assert(branch.subrange(aliases[i].0@.len() as int, branch.len() as int) =~= suffix);
}

} // verus!
