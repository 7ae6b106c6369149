use hyprdie::cli::CliOptions;
use hyprdie::color::{parse_hex_color, Rgb, UiColors};
use hyprdie::config::{apply_cli, home_relative, intervals, BehaviorConfig, Config};

#[test]
fn defaults_are_sensible() {
    assert_eq!(Config::default().ui.title, "Ending session...");
    assert_eq!(Config::default().behavior.poll_interval_ms, 150);
    assert_eq!(Config::default().behavior.sigkill_timeout_ms, 10_000);
}

#[test]
fn parses_color_hex() {
    let title = parse_hex_color("#ff8000").unwrap();
    assert_eq!(
        title,
        Rgb {
            r: 0xff,
            g: 0x80,
            b: 0x00
        }
    );
}

#[test]
fn rejects_invalid_color() {
    assert!(parse_hex_color("#12").is_err());
    assert!(parse_hex_color("#zzzzzz").is_err());
}

#[test]
fn parses_config_colors_with_defaults() {
    let mut colors = UiColors::default();
    colors.title = parse_hex_color("#ff0000").unwrap();
    assert_eq!(
        colors.title,
        Rgb {
            r: 0xff,
            g: 0x00,
            b: 0x00
        }
    );
    assert_eq!(
        colors.hint,
        Rgb {
            r: 0x80,
            g: 0x80,
            b: 0x80
        }
    );
    assert_eq!(
        colors.background,
        Rgb {
            r: 0x1b,
            g: 0x18,
            b: 0x18
        }
    );
}

#[test]
fn color_accepts_missing_or_repeated_hash_and_upper_case() {
    assert_eq!(parse_hex_color("ff8000").unwrap(), Rgb::new(0xff, 0x80, 0x00));
    assert_eq!(parse_hex_color("##AbCdEf").unwrap(), Rgb::new(0xab, 0xcd, 0xef));
    assert_eq!(Rgb::new(1, 2, 3).rgb(), (1, 2, 3));
}

#[test]
fn color_rejects_wrong_length_and_inner_hash() {
    assert!(parse_hex_color("#ff80001").is_err());
    assert!(parse_hex_color("").is_err());
    assert!(parse_hex_color("#ff#800").is_err());
    assert!(parse_hex_color(" #ff8000").is_err());
    assert!(parse_hex_color("#ff800é").is_err());
}

#[test]
fn default_colors_and_behavior() {
    let c = UiColors::default();
    assert_eq!(c.title, Rgb::new(0xff, 0xff, 0xff));
    assert_eq!(c.heading, Rgb::new(0xff, 0xff, 0xff));
    assert_eq!(c.app, Rgb::new(0xac, 0xb5, 0xc7));
    let b = BehaviorConfig::default();
    assert_eq!(b.retry_interval_ms, 5_000);
    assert!(!b.dry_run);
    assert!(!b.no_exit);
    assert!(Config::default().ui.background.is_none());
    assert!(Config::default().commands.post.is_none());
}

#[test]
fn intervals_have_floors() {
    let mut b = BehaviorConfig::default();
    assert_eq!(intervals(&b), (150, 5_000));
    b.poll_interval_ms = 10;
    b.retry_interval_ms = 20;
    assert_eq!(intervals(&b), (50, 50));
    b.poll_interval_ms = 400;
    b.retry_interval_ms = 100;
    assert_eq!(intervals(&b), (400, 400));
}

#[test]
fn command_line_overrides_config() {
    let mut config = Config::default();
    config.commands.post = Some("true".to_string());
    let options = CliOptions { dry_run: true, post_command: Some("systemctl reboot".to_string()), config_path: None };
    apply_cli(&mut config, &options);
    assert!(config.behavior.dry_run);
    assert_eq!(config.commands.post.as_deref(), Some("systemctl reboot"));

    let mut config = Config::default();
    config.behavior.dry_run = true;
    config.commands.post = Some("true".to_string());
    let options = CliOptions { dry_run: false, post_command: None, config_path: None };
    apply_cli(&mut config, &options);
    assert!(config.behavior.dry_run);
    assert_eq!(config.commands.post.as_deref(), Some("true"));
}

#[test]
fn home_relative_paths() {
    assert_eq!(home_relative("~/Pictures/bg.png").as_deref(), Some("Pictures/bg.png"));
    assert_eq!(home_relative("/usr/share/bg.png"), None);
    assert_eq!(home_relative("~user/bg.png"), None);
    assert_eq!(home_relative("~/").as_deref(), Some(""));
}
