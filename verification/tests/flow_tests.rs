use trr::alias::{expand_alias_step, AliasOutcome};
use trr::config::{Config, Settings};
use trr::orchestrate::{
    confirmation_accepts, git_checkout_args, plan_create, plan_delete, rsync_args,
    CreateDecision, DeletePlan,
};
use trr::record::{decode_record, encode_record, RepositoryMetadata};
use trr::session::{
    build_commands, find_session_target, plan_session, repo_name_from_url, repo_prefix_from,
    session_name, SessionPlan, SessionTarget,
};

const EPOCH: &str = "1970-01-01T00:00:00+00:00";

#[test]
fn test_get_repo_prefix() {
    let prefix = repo_prefix_from(None, Some("workspace"));
    assert!(!prefix.is_empty());
    assert!(prefix.len() <= 3);
    assert_eq!(prefix, "wor");
    assert_eq!(repo_prefix_from(Some("repo"), Some("workspace")), "rep");
    assert_eq!(repo_prefix_from(Some("ab"), None), "ab");
    assert_eq!(repo_prefix_from(None, None), "trr");
}

#[test]
fn test_repo_name_from_url() {
    assert_eq!(
        repo_name_from_url("https://github.com/user/repo.git"),
        Some("repo".to_string())
    );
    assert_eq!(
        repo_name_from_url("http://example.com/things/proj"),
        Some("proj".to_string())
    );
    assert_eq!(
        repo_name_from_url("git@github.com:user/repo.git"),
        Some("repo".to_string())
    );
    assert_eq!(repo_name_from_url("plain-local-path"), None);
}

#[test]
fn test_session_name() {
    assert_eq!(session_name("rep", "feature/login"), "rep-feature/login");
}

#[test]
fn test_build_commands_substitutes_args() {
    let args = vec!["a".to_string(), "b c".to_string()];
    let commands = build_commands("echo @@args\n\n   \ncd x\n", &args);
    assert_eq!(commands, vec!["echo a b c".to_string(), "cd x".to_string()]);
}

#[test]
fn test_plan_session_contexts() {
    let args: Vec<String> = Vec::new();
    match plan_session(false, true, true, "rep", "b", "", &args) {
        SessionPlan::Detached => {}
        _ => panic!("expected the detached no-op"),
    }
    match plan_session(true, true, false, "rep", "feat", "echo hi\n", &args) {
        SessionPlan::Window { name, commands } => {
            assert_eq!(name, "rep-feat");
            assert_eq!(commands, vec!["echo hi".to_string()]);
        }
        _ => panic!("expected a window"),
    }
    match plan_session(true, false, true, "rep", "feat", "", &args) {
        SessionPlan::Standalone { name, commands } => {
            assert_eq!(name, "rep-feat");
            assert!(commands.is_empty());
        }
        _ => panic!("expected a standalone session"),
    }
    match plan_session(true, false, false, "rep", "feat", "", &args) {
        SessionPlan::Headless => {}
        _ => panic!("expected the headless report"),
    }
}

#[test]
fn test_find_session_target() {
    match find_session_target("rep-a", true, Some("rep-x\nrep-a\n"), Some("")) {
        SessionTarget::Window { name } => assert_eq!(name, "rep-a"),
        _ => panic!("expected a window"),
    }
    match find_session_target("rep-a", false, None, Some("rep-b\nrep-a\n")) {
        SessionTarget::Standalone { name } => assert_eq!(name, "rep-a"),
        _ => panic!("expected a standalone session"),
    }
    match find_session_target("rep-a", false, None, Some("rep-b\n")) {
        SessionTarget::NotFound => {}
        _ => panic!("expected no session"),
    }
    match find_session_target("rep-a", true, None, Some("rep-a\n")) {
        SessionTarget::NotFound => {}
        _ => panic!("expected no session after a failed window listing"),
    }
}

#[test]
fn test_plan_create_fails_fast_on_existing_directory() {
    match plan_create("feature/login", ".trr", true) {
        CreateDecision::AlreadyExists { target_dir } => {
            assert_eq!(target_dir, ".trr/feature-login");
        }
        _ => panic!("creation must fail before anything is allocated"),
    }
}

#[test]
fn test_plan_create_proceeds() {
    match plan_create("feature/login", ".trr", false) {
        CreateDecision::Proceed {
            directory_name,
            target_dir,
        } => {
            assert_eq!(directory_name, "feature-login");
            assert_eq!(target_dir, ".trr/feature-login");
        }
        _ => panic!("creation should proceed"),
    }
}

#[test]
fn test_confirmation_answers() {
    assert!(confirmation_accepts("y"));
    assert!(confirmation_accepts("Y"));
    assert!(confirmation_accepts(" y \n"));
    assert!(!confirmation_accepts("yes"));
    assert!(!confirmation_accepts("n"));
    assert!(!confirmation_accepts(""));
}

#[test]
fn test_plan_delete_cancelled_on_no() {
    match plan_delete("n", SessionTarget::NotFound, true) {
        DeletePlan::Cancelled => {}
        _ => panic!("a non-yes answer must leave everything untouched"),
    }
    match plan_delete("", SessionTarget::NotFound, true) {
        DeletePlan::Cancelled => {}
        _ => panic!("the default answer is no"),
    }
}

#[test]
fn test_plan_delete_without_session_still_removes() {
    match plan_delete("y", SessionTarget::NotFound, true) {
        DeletePlan::Proceed {
            kill,
            remove_directory,
        } => {
            assert!(matches!(kill, SessionTarget::NotFound));
            assert!(remove_directory);
        }
        _ => panic!("a confirmed deletion must proceed"),
    }
}

#[test]
fn test_plan_delete_kills_found_window() {
    let found = SessionTarget::Window {
        name: "rep-a".to_string(),
    };
    match plan_delete("y", found, false) {
        DeletePlan::Proceed {
            kill,
            remove_directory,
        } => {
            match kill {
                SessionTarget::Window { name } => assert_eq!(name, "rep-a"),
                _ => panic!("the found window must be the one killed"),
            }
            assert!(!remove_directory);
        }
        _ => panic!("a confirmed deletion must proceed"),
    }
}

#[test]
fn test_rsync_args_order() {
    let excludes = vec!["target".to_string(), "node_modules".to_string()];
    let args = rsync_args(false, ".trr", &excludes, "/src", "/dst");
    assert_eq!(
        args,
        vec![
            "-a".to_string(),
            "--exclude".to_string(),
            ".trr".to_string(),
            "--exclude".to_string(),
            "target".to_string(),
            "--exclude".to_string(),
            "node_modules".to_string(),
            "/src/".to_string(),
            "/dst/".to_string(),
        ]
    );
    let verbose = rsync_args(true, ".trr", &Vec::new(), "/src", "/dst");
    assert_eq!(
        verbose,
        vec![
            "-a".to_string(),
            "-v".to_string(),
            "--exclude".to_string(),
            ".trr".to_string(),
            "/src/".to_string(),
            "/dst/".to_string(),
        ]
    );
}

#[test]
fn test_git_checkout_args() {
    assert_eq!(
        git_checkout_args("feature/login"),
        vec![
            "checkout".to_string(),
            "-b".to_string(),
            "feature/login".to_string(),
        ]
    );
}

#[test]
fn test_create_end_to_end_with_alias() {
    let config = Config {
        settings: Settings {
            repo_sync_path: ".trr".to_string(),
            tmux_window_init_commands: String::new(),
            rsync_excludes: Vec::new(),
        },
        branch_aliases: vec![("@f".to_string(), "feature".to_string())],
    };
    let expanded = match expand_alias_step("@f/login", &config) {
        AliasOutcome::Literal(s) => s,
        _ => panic!("expected a literal expansion"),
    };
    assert_eq!(expanded, "feature/login");

    let decision = plan_create(&expanded, &config.settings.repo_sync_path, false);
    let directory_name = match decision {
        CreateDecision::Proceed { directory_name, .. } => directory_name,
        _ => panic!("creation should proceed"),
    };
    assert_eq!(directory_name, "feature-login");

    let record = RepositoryMetadata {
        branch: expanded.clone(),
        created_at: "2024-01-01T00:00:00Z".to_string(),
        directory: Some(directory_name),
    };
    let stored = encode_record(&record);
    let back = decode_record(&stored, EPOCH);
    assert_eq!(back.branch, "feature/login");
    assert_eq!(back.directory, Some("feature-login".to_string()));
}
