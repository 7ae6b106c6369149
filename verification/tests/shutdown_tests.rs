use hyprdie::config::Config;
use hyprdie::shutdown::{
    alive, collect_layer_pids, count_running, first_instance_pid, instance_pid, target_pid_set, window_addresses,
    window_apps, Client, HyprLayer, MonitorLayers, ShutdownState, TickStep,
};
use std::collections::HashSet;

fn client(address: Option<&str>, pid: Option<i32>, class: Option<&str>, title: Option<&str>) -> Client {
    Client {
        address: address.map(|s| s.to_string()),
        pid,
        class: class.map(|s| s.to_string()),
        title: title.map(|s| s.to_string()),
    }
}

fn set(v: &[i32]) -> HashSet<i32> {
    v.iter().copied().collect()
}

fn sorted(v: &[i32]) -> Vec<i32> {
    let mut v = v.to_vec();
    v.sort();
    v
}

const MS: u64 = 1_000_000;

#[test]
fn refresh_takes_windows_and_never_targets_itself() {
    let mut state = ShutdownState::new(Config::default(), 0);
    state.hypr_children = set(&[10, 11, 99]);
    let clients = vec![
        client(Some("0xa"), Some(20), Some("kitty"), Some("zsh")),
        client(None, Some(21), None, None),
        client(Some("0xb"), None, Some(""), Some("untitled")),
    ];
    state.refresh(&clients, &set(&[30]), 99);
    assert_eq!(state.addresses, vec!["0xa".to_string(), "0xb".to_string()]);
    assert_eq!(state.pids, set(&[10, 11, 20, 21, 30]));
    assert_eq!(
        state.apps,
        vec![("kitty".to_string(), "zsh".to_string()), ("".to_string(), "untitled".to_string())]
    );
}

#[test]
fn window_lists_keep_order() {
    let clients = vec![
        client(Some("1"), None, Some("a"), None),
        client(Some("2"), None, None, Some("b")),
    ];
    assert_eq!(window_addresses(&clients), vec!["1".to_string(), "2".to_string()]);
    assert_eq!(
        window_apps(&clients),
        vec![("a".to_string(), "".to_string()), ("".to_string(), "b".to_string())]
    );
    assert_eq!(target_pid_set(&clients, &set(&[5]), &set(&[]), 5), set(&[]));
}

#[test]
fn sigterm_first_then_sigkill_after_timeout() {
    let mut config = Config::default();
    config.behavior.sigkill_timeout_ms = 100;
    let mut state = ShutdownState::new(config, 0);
    state.pids = set(&[1, 2]);
    state.addresses = vec!["0xa".to_string()];

    let round = state.retry_close(10 * MS);
    assert_eq!(round.addresses, vec!["0xa".to_string()]);
    assert_eq!(sorted(&round.terminate), vec![1, 2]);
    assert!(round.kill.is_empty());

    state.pids = set(&[1, 2, 3]);
    let round = state.retry_close(50 * MS);
    assert_eq!(round.terminate, vec![3]);
    assert!(round.kill.is_empty());

    let round = state.retry_close(110 * MS);
    assert!(round.terminate.is_empty());
    assert_eq!(sorted(&round.kill), vec![1, 2]);
    assert_eq!(state.term_started.get(&3), Some(&(50 * MS)));
    assert_eq!(state.term_started.get(&1), Some(&(10 * MS)));
}

#[test]
fn tick_steps() {
    let mut state = ShutdownState::new(Config::default(), 0);
    assert_eq!(state.tick_step(0, 0, 5_000), TickStep::Finish);
    assert_eq!(state.tick_step(2, 4_999 * MS, 5_000), TickStep::Wait);
    assert_eq!(state.tick_step(2, 5_000 * MS, 5_000), TickStep::Retry);
    state.config.behavior.dry_run = true;
    assert_eq!(state.tick_step(0, 9_000 * MS, 5_000), TickStep::Wait);
}

#[test]
fn finish_plans() {
    let mut config = Config::default();
    config.commands.post = Some("systemctl reboot".to_string());
    let mut state = ShutdownState::new(config, 0);
    state.pids = set(&[4, 5]);
    let forced = state.finish_plan(true);
    assert_eq!(sorted(&forced.kill), vec![4, 5]);
    assert!(forced.post_command.is_none() && !forced.exit_session);
    let normal = state.finish_plan(false);
    assert!(normal.kill.is_empty());
    assert_eq!(normal.post_command.as_deref(), Some("systemctl reboot"));
    assert!(normal.exit_session);
    state.config.behavior.no_exit = true;
    assert!(!state.finish_plan(false).exit_session);
    state.config.behavior.dry_run = true;
    let dry = state.finish_plan(true);
    assert!(dry.kill.is_empty() && dry.post_command.is_none() && !dry.exit_session);
}

#[test]
fn layer_pids_from_all_monitors_and_levels() {
    let monitors = vec![
        MonitorLayers { levels: vec![vec![HyprLayer { pid: Some(7) }, HyprLayer { pid: None }], vec![]] },
        MonitorLayers { levels: vec![vec![HyprLayer { pid: Some(8) }, HyprLayer { pid: Some(7) }]] },
    ];
    assert_eq!(collect_layer_pids(&monitors), set(&[7, 8]));
    assert_eq!(collect_layer_pids(&vec![]), set(&[]));
}

#[test]
fn instance_pid_from_hyprctl_json() {
    let raw = r#"[{"instance":"abc","pid":1234,"wl_socket":"wayland-1"},{"pid":5}]"#;
    assert_eq!(instance_pid(raw), Some(1234));
    assert_eq!(instance_pid(r#"[{"instance":"abc"},{"pid":77}]"#), Some(77));
    assert_eq!(instance_pid(r#"[{"pid":"12"}]"#), None);
    assert_eq!(instance_pid("not json"), None);
    assert_eq!(instance_pid("[]"), None);
    assert_eq!(first_instance_pid(&vec![None, Some(4_294_967_297), Some(3)]), Some(1));
}

#[test]
fn alive_counts_running_processes() {
    assert_eq!(alive(&set(&[])), 0);
    assert_eq!(alive(&set(&[i32::MAX])), 0);
    assert_eq!(alive(&set(&[1, i32::MAX])), 1);
}

#[test]
fn unreadable_layers_keep_windows_and_session() {
    let clients = vec![client(Some("0xa"), Some(20), Some("kitty"), None)];
    let without = target_pid_set(&clients, &set(&[10, 99]), &set(&[]), 99);
    let with = target_pid_set(&clients, &set(&[10, 99]), &set(&[30, 20]), 99);
    assert_eq!(without, set(&[10, 20]));
    assert_eq!(with, set(&[10, 20, 30]));
    assert!(without.is_subset(&with));
}

#[test]
fn counts_running_processes() {
    assert_eq!(count_running(&vec![]), 0);
    assert_eq!(count_running(&vec![true, false, true, true]), 3);
    assert_eq!(count_running(&vec![false, false]), 0);
}

#[test]
fn mark_retry_records_the_round_time() {
    let mut state = ShutdownState::new(Config::default(), 5);
    state.pids = set(&[1, 2]);
    state.mark_retry(42 * MS);
    assert_eq!(state.last_retry, 42 * MS);
    assert_eq!(state.pids, set(&[1, 2]));
    assert_eq!(state.tick_step(1, 42 * MS + 4_999 * MS, 5_000), TickStep::Wait);
    assert_eq!(state.tick_step(1, 42 * MS + 5_000 * MS, 5_000), TickStep::Retry);
}

#[test]
fn dry_run_does_not_start_closing() {
    let mut config = Config::default();
    assert!(ShutdownState::new(config.clone(), 0).starts_closing());
    config.behavior.dry_run = true;
    assert!(!ShutdownState::new(config, 0).starts_closing());
}
