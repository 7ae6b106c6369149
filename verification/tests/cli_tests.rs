use hyprdie::cli::{parse_cli, CliAction, CliError};

fn args(v: &[&str]) -> Vec<String> {
    v.iter().map(|s| s.to_string()).collect()
}

#[test]
fn empty_command_line_runs_with_defaults() {
    match parse_cli(&args(&[])).unwrap() {
        CliAction::Run(o) => {
            assert!(!o.dry_run);
            assert!(o.post_command.is_none());
            assert!(o.config_path.is_none());
        }
        CliAction::Help => panic!("expected a run"),
    }
}

#[test]
fn options_are_read() {
    let a = args(&["--dry-run", "--post-cmd", "systemctl poweroff", "--config", "/tmp/c.toml"]);
    match parse_cli(&a).unwrap() {
        CliAction::Run(o) => {
            assert!(o.dry_run);
            assert_eq!(o.post_command.as_deref(), Some("systemctl poweroff"));
            assert_eq!(o.config_path.as_deref(), Some("/tmp/c.toml"));
        }
        CliAction::Help => panic!("expected a run"),
    }
}

#[test]
fn later_post_command_wins_and_values_may_look_like_options() {
    let a = args(&["--post-cmd", "a", "--post-cmd", "--dry-run"]);
    match parse_cli(&a).unwrap() {
        CliAction::Run(o) => {
            assert!(!o.dry_run);
            assert_eq!(o.post_command.as_deref(), Some("--dry-run"));
        }
        CliAction::Help => panic!("expected a run"),
    }
}

#[test]
fn help_and_errors() {
    assert!(matches!(parse_cli(&args(&["-h", "--bogus"])), Ok(CliAction::Help)));
    assert!(matches!(parse_cli(&args(&["--dry-run", "--help"])), Ok(CliAction::Help)));
    assert!(matches!(parse_cli(&args(&["--post-cmd"])), Err(CliError::MissingPostCommand)));
    assert!(matches!(parse_cli(&args(&["--config"])), Err(CliError::MissingConfigPath)));
    match parse_cli(&args(&["--bogus", "--help"])) {
        Err(CliError::UnknownOption(a)) => assert_eq!(a, "--bogus"),
        _ => panic!("expected an unknown option"),
    }
}
