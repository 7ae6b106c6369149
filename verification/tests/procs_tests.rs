use hyprdie::procs::{is_ignored_daemon, link_of, ppid_descendants, session_descendants, ProcEntry};
use std::collections::HashSet;

fn stat_entry(pid: i32, comm: &str, ppid: i32) -> ProcEntry {
    ProcEntry {
        name: pid.to_string(),
        comm: Some(format!("{comm}\n")),
        cgroup: None,
        stat: Some(format!("{pid} ({comm}) S {ppid} {pid} {pid} 0 -1 4194560")),
    }
}

fn cgroup_entry(pid: i32, comm: &str, cgroup: &str) -> ProcEntry {
    ProcEntry {
        name: pid.to_string(),
        comm: Some(format!("{comm}\n")),
        cgroup: Some(format!("0::{cgroup}\n")),
        stat: Some(format!("{pid} ({comm}) S 1 {pid} {pid}")),
    }
}

fn set(v: &[i32]) -> HashSet<i32> {
    v.iter().copied().collect()
}

#[test]
fn stat_links_read_the_parent_after_the_last_paren() {
    let e = ProcEntry {
        name: "42".to_string(),
        comm: None,
        cgroup: None,
        stat: Some("42 (odd) name)) S 7 42 42".to_string()),
    };
    assert_eq!(link_of(&e), Some((42, 7)));
    let bad_name = ProcEntry { name: "self".to_string(), comm: None, cgroup: None, stat: Some("1 (x) S 0".to_string()) };
    assert_eq!(link_of(&bad_name), None);
    let no_stat = ProcEntry { name: "5".to_string(), comm: None, cgroup: None, stat: None };
    assert_eq!(link_of(&no_stat), None);
    let xwayland = stat_entry(9, "Xwayland", 1);
    assert_eq!(link_of(&xwayland), None);
    let short = ProcEntry { name: "5".to_string(), comm: None, cgroup: None, stat: Some("5 (a) S".to_string()) };
    assert_eq!(link_of(&short), None);
}

#[test]
fn ignored_daemon_reads_trimmed_comm() {
    assert!(is_ignored_daemon(&Some("Xwayland\n".to_string())));
    assert!(is_ignored_daemon(&Some("  Xwayland\t".to_string())));
    assert!(!is_ignored_daemon(&Some("xwayland\n".to_string())));
    assert!(!is_ignored_daemon(&None));
}

#[test]
fn parent_walk_collects_the_whole_tree() {
    let entries = vec![
        stat_entry(100, "Hyprland", 1),
        stat_entry(200, "kitty", 100),
        stat_entry(201, "zsh", 200),
        stat_entry(202, "vim", 201),
        stat_entry(300, "waybar", 100),
        stat_entry(400, "unrelated", 1),
    ];
    assert_eq!(ppid_descendants(100, &entries), set(&[200, 201, 202, 300]));
}

#[test]
fn parent_walk_skips_ignored_daemons_and_their_children() {
    let entries = vec![
        stat_entry(200, "Xwayland", 100),
        stat_entry(201, "xclient", 200),
        stat_entry(202, "foot", 100),
    ];
    assert_eq!(ppid_descendants(100, &entries), set(&[202]));
}

#[test]
fn session_uses_cgroup_when_it_finds_members() {
    let scope = "/user.slice/user-1000.slice/session-2.scope";
    let entries = vec![
        cgroup_entry(100, "Hyprland", scope),
        cgroup_entry(500, "daemonized", &format!("{scope}/app.slice")),
        cgroup_entry(501, "kitty", scope),
        cgroup_entry(502, "Xwayland", scope),
        cgroup_entry(503, "elsewhere", "/user.slice/user-1000.slice/session-20.scope"),
    ];
    let root = Some(format!("0::{scope}\n"));
    assert_eq!(session_descendants(100, &root, &entries), set(&[500, 501]));
}

#[test]
fn session_falls_back_to_parent_walk() {
    let entries = vec![stat_entry(100, "Hyprland", 1), stat_entry(200, "kitty", 100)];
    assert_eq!(session_descendants(100, &Some("0::/\n".to_string()), &entries), set(&[200]));
    assert_eq!(session_descendants(100, &None, &entries), set(&[200]));
    let empty_scope = Some("0::/user.slice/session-9.scope\n".to_string());
    assert_eq!(session_descendants(100, &empty_scope, &entries), set(&[200]));
}
