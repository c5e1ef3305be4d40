use trr::alias::{expand_alias_step, AliasOutcome};
use trr::config::{config_file_path, expand_tilde, get_editor, Config, Settings};
use trr::naming::branch_to_directory_name;

fn expand_literal(branch: &str, config: &Config) -> String {
    match expand_alias_step(branch, config) {
        AliasOutcome::Unchanged => branch.to_string(),
        AliasOutcome::Literal(s) => s,
        AliasOutcome::Shell { .. } => panic!("unexpected shell directive"),
    }
}

#[test]
fn test_default_config() {
    let config = Config::default();

    assert_eq!(config.settings.repo_sync_path, ".trr");
    assert!(!config.settings.tmux_window_init_commands.is_empty());
    assert!(
        config
            .settings
            .rsync_excludes
            .contains(&"target".to_string())
    );

    assert_eq!(
        config.lookup_alias("@f"),
        Some("feature".to_string())
    );
    assert_eq!(config.lookup_alias("@b"), Some("bugfix".to_string()));
    assert!(config.lookup_alias("@t").unwrap().starts_with("!echo"));
}

#[test]
fn test_expand_tilde_with_home() {
    let path = "~/test/path";
    if let Some(home) = dirs::home_dir() {
        let home_str = home.to_string_lossy().to_string();
        let result = expand_tilde(path, Some(&home_str));
        assert_eq!(result, home.join("test/path").to_string_lossy());
    }
}

#[test]
fn test_expand_tilde_without_tilde() {
    let path = "/absolute/path";
    let result = expand_tilde(path, Some("/home/someone"));
    assert_eq!(result, "/absolute/path");
}

#[test]
fn test_expand_tilde_relative_path() {
    let path = "relative/path";
    let result = expand_tilde(path, Some("/home/someone"));
    assert_eq!(result, "relative/path");
}

#[test]
fn test_expand_tilde_no_home() {
    assert_eq!(expand_tilde("~/test/path", None), "~/test/path");
}

#[test]
fn test_get_editor_priority() {
    assert_eq!(get_editor(None, None, None), None);
    assert_eq!(
        get_editor(None, None, Some("vim".to_string())),
        Some("vim".to_string())
    );
    assert_eq!(
        get_editor(None, Some("nano".to_string()), Some("vim".to_string())),
        Some("nano".to_string())
    );
    assert_eq!(
        get_editor(
            Some("emacs".to_string()),
            Some("nano".to_string()),
            Some("vim".to_string())
        ),
        Some("emacs".to_string())
    );
}

#[test]
fn test_config_file_path_default() {
    assert_eq!(
        config_file_path(None, Some("/home/someone")),
        Some("/home/someone/.config/trr/config.toml".to_string())
    );
    assert_eq!(config_file_path(None, None), None);
    assert_eq!(
        config_file_path(Some("~/cfg.toml"), Some("/home/someone")),
        Some("/home/someone/cfg.toml".to_string())
    );
}

fn two_alias_config() -> Config {
    Config {
        settings: Settings {
            repo_sync_path: ".trr".to_string(),
            tmux_window_init_commands: String::new(),
            rsync_excludes: Vec::new(),
        },
        branch_aliases: vec![
            ("@f".to_string(), "feature".to_string()),
            ("@b".to_string(), "bugfix".to_string()),
        ],
    }
}

#[test]
fn test_expand_alias_static() {
    let config = two_alias_config();

    assert_eq!(expand_literal("@f/test", &config), "feature/test");
    assert_eq!(expand_literal("@b/123", &config), "bugfix/123");
    assert_eq!(expand_literal("@f", &config), "feature");
    assert_eq!(expand_literal("no-alias", &config), "no-alias");
}

#[test]
fn test_expand_alias_shell_directive() {
    let mut config = two_alias_config();
    config
        .branch_aliases
        .push(("@t".to_string(), "!echo feature".to_string()));

    match expand_alias_step("@t/x", &config) {
        AliasOutcome::Shell { command, suffix } => {
            assert_eq!(command, "echo feature");
            assert_eq!(suffix, "/x");
        }
        _ => panic!("expected a shell directive"),
    }
}

#[test]
fn test_apply_shell_result() {
    assert_eq!(
        trr::alias::apply_shell_result("@t/x", "/x", Some("feature\n")),
        "feature/x"
    );
    assert_eq!(trr::alias::apply_shell_result("@t/x", "/x", None), "@t/x");
}

#[test]
fn test_branch_to_directory_name() {
    assert_eq!(branch_to_directory_name("feature/test"), "feature-test");
    assert_eq!(branch_to_directory_name("fix/bug/123"), "fix-bug-123");
    assert_eq!(branch_to_directory_name("simple-branch"), "simple-branch");
    assert_eq!(branch_to_directory_name(""), "");
}
