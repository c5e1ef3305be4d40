//! Configuration data: the sync root, session initialization commands,
//! copy-tool exclusion patterns, and the branch alias table, with usable
//! defaults when no configuration is present.

use vstd::prelude::*;
use vstd::string::StrSliceExecFns;
use vstd::string::StringExecFns;

verus! {

/// Settings that shape creation of a workspace copy.
pub struct Settings {
    /// Sync root: the base directory holding all workspace copies and records.
    pub repo_sync_path: String,
    /// Command text run inside a fresh session or window, one command a line;
    /// the placeholder `@@args` is replaced with the extra user arguments.
    pub tmux_window_init_commands: String,
    /// Exclusion patterns handed to the tree-copy tool besides the sync root.
    pub rsync_excludes: Vec<String>,
}

/// The whole user configuration: settings plus the branch alias table.
/// An alias pair maps a short token to an expansion; an expansion starting
/// with `!` is a shell directive, anything else a literal prefix.
pub struct Config {
    pub settings: Settings,
    pub branch_aliases: Vec<(String, String)>,
}

/// The expansion of the first alias pair whose token equals `token`.
pub open spec fn spec_alias_value(aliases: Seq<(String, String)>, token: Seq<char>) -> Option<
    Seq<char>,
>
    decreases aliases.len(),
{
    if aliases.len() == 0 {
        None
    } else if aliases[0].0@ == token {
        Some(aliases[0].1@)
    } else {
        spec_alias_value(aliases.drop_first(), token)
    }
}

impl Config {
    /// The expansion stored for exactly this alias token, if any.
    pub fn lookup_alias(&self, token: &str) -> (r: Option<String>)
        ensures
            match r {
                Some(v) => spec_alias_value(self.branch_aliases@, token@) == Some(v@),
                None => spec_alias_value(self.branch_aliases@, token@) is None,
            },
    {
        let n = self.branch_aliases.len();
        let mut i: usize = 0;
        proof {
            assert(self.branch_aliases@.subrange(0, n as int) =~= self.branch_aliases@);
        }
        while i < n
            invariant
                n == self.branch_aliases@.len(),
                i <= n,
                spec_alias_value(self.branch_aliases@, token@) == spec_alias_value(
                    self.branch_aliases@.subrange(i as int, n as int),
                    token@,
                ),
            decreases n - i,
        {
            let ghost rest = self.branch_aliases@.subrange(i as int, n as int);
            if crate::strutil::str_eq(self.branch_aliases[i].0.as_str(), token) {
                proof {
                    assert(rest[0] == self.branch_aliases@[i as int]);
                }
                return Some(self.branch_aliases[i].1.clone());
            }
            proof {
                assert(rest[0] == self.branch_aliases@[i as int]);
                assert(rest.drop_first() =~= self.branch_aliases@.subrange(i + 1, n as int));
            }
            i = i + 1;
        }
        proof {
            assert(self.branch_aliases@.subrange(n as int, n as int).len() == 0);
        }
        None
    }
}

impl Default for Config {
    /// The zero-configuration defaults: sync root `.trr`, one copy exclusion,
    /// a small session initialization script, and three aliases, of which
    /// `@t` is a shell directive.
    fn default() -> (c: Config)
        ensures
            c.settings.repo_sync_path@ == ".trr"@,
            c.settings.tmux_window_init_commands@
                == "git reset --hard\ntmux split-window -h\ntmux send-keys -t 1 'echo @@args' C-m\ntmux select-pane -t 0\n"@,
            c.settings.rsync_excludes@.len() == 1,
            c.settings.rsync_excludes@[0]@ == "target"@,
            c.branch_aliases@.len() == 3,
            c.branch_aliases@[0].0@ == "@f"@,
            c.branch_aliases@[0].1@ == "feature"@,
            c.branch_aliases@[1].0@ == "@b"@,
            c.branch_aliases@[1].1@ == "bugfix"@,
            c.branch_aliases@[2].0@ == "@t"@,
            c.branch_aliases@[2].1@ == "!echo feature/$(date +%Y%m%d-%H%M%S)"@,
    {
        let mut excludes: Vec<String> = Vec::new();
        excludes.push("target".to_owned());
        let mut aliases: Vec<(String, String)> = Vec::new();
        aliases.push(("@f".to_owned(), "feature".to_owned()));
        aliases.push(("@b".to_owned(), "bugfix".to_owned()));
        aliases.push(("@t".to_owned(), "!echo feature/$(date +%Y%m%d-%H%M%S)".to_owned()));
        Config {
            settings: Settings {
                repo_sync_path: ".trr".to_owned(),
                tmux_window_init_commands:
                    "git reset --hard\ntmux split-window -h\ntmux send-keys -t 1 'echo @@args' C-m\ntmux select-pane -t 0\n".to_owned(),
                rsync_excludes: excludes,
            },
            branch_aliases: aliases,
        }
    }
}

/// `~` expansion for a configured path: a path written `~/rest` becomes
/// `home/rest` when a home directory is known; any other path, or a missing
/// home, leaves the path as written.
pub fn expand_tilde(path: &str, home: Option<&str>) -> (r: String)
    ensures
        match home {
            Some(h) => {
                if path@.len() >= 2 && path@[0] == '~' {
                    r@ == h@ + "/"@ + path@.subrange(2, path@.len() as int)
                } else {
                    r@ == path@
                }
            },
            None => r@ == path@,
        },
{
    let n = path.unicode_len();
    match home {
        Some(h) => {
            if n >= 2 && path.get_char(0) == '~' {
                let mut out = h.to_owned();
                out.append("/");
                let out2 = out.concat(path.substring_char(2, n));
                proof {
                    assert(out2@ =~= h@ + "/"@ + path@.subrange(2, path@.len() as int));
                }
                out2
            } else {
                path.to_owned()
            }
        },
        None => path.to_owned(),
    }
}

/// The configuration file path: an explicit override (with `~` expanded)
/// wins; otherwise `home/.config/trr/config.toml`; `None` when neither an
/// override nor a home directory is available.
pub fn config_file_path(override_path: Option<&str>, home: Option<&str>) -> (r: Option<String>)
    ensures
        match override_path {
            Some(p) => {
                &&& r is Some
                &&& match home {
                    Some(h) => {
                        if p@.len() >= 2 && p@[0] == '~' {
                            r->0@ == h@ + "/"@ + p@.subrange(2, p@.len() as int)
                        } else {
                            r->0@ == p@
                        }
                    },
                    None => r->0@ == p@,
                }
            },
            None => match home {
                Some(h) => r is Some && r->0@ == h@ + "/.config/trr/config.toml"@,
                None => r is None,
            },
        },
{
    match override_path {
        Some(p) => Some(expand_tilde(p, home)),
        None => match home {
            Some(h) => {
                let mut out = h.to_owned();
                out.append("/.config/trr/config.toml");
                Some(out)
            },
            None => None,
        },
    }
}

/// Picks the editor to open the configuration with, by priority:
/// the tool-specific choice first, then the general one, then the visual one.
pub fn get_editor(
    trr_editor: Option<String>,
    editor: Option<String>,
    visual: Option<String>,
) -> (r: Option<String>)
    ensures
        trr_editor is Some ==> r == trr_editor,
        trr_editor is None && editor is Some ==> r == editor,
        trr_editor is None && editor is None ==> r == visual,
{
    match trr_editor {
        Some(e) => Some(e),
        None => match editor {
            Some(e) => Some(e),
            None => visual,
        },
    }
}

} // verus!
