use hyprdie::cgroup::parse_cgroup;

#[test]
fn parses_cgroup_v2_unified() {
    assert_eq!(
        parse_cgroup("0::/user.slice/user-1000.slice/session-2.scope\n").as_deref(),
        Some("/user.slice/user-1000.slice/session-2.scope")
    );
}

#[test]
fn parses_cgroup_v1_controller_line() {
    assert_eq!(
        parse_cgroup("11:memory:/user.slice/user-1000.slice/session-2.scope\n").as_deref(),
        Some("/user.slice/user-1000.slice/session-2.scope")
    );
}

#[test]
fn root_cgroup_parses_as_slash() {
    assert_eq!(parse_cgroup("0::/\n").as_deref(), Some("/"));
}

#[test]
fn unified_line_wins_over_earlier_controller_lines() {
    let text = "12:cpu:/a\n11:memory:/b\n0::/c\n";
    assert_eq!(parse_cgroup(text).as_deref(), Some("/c"));
}

#[test]
fn first_controller_line_is_the_fallback() {
    let text = "12:cpu:/a\n11:memory:/b\n";
    assert_eq!(parse_cgroup(text).as_deref(), Some("/a"));
}

#[test]
fn lines_without_path_are_skipped() {
    assert_eq!(parse_cgroup(""), None);
    assert_eq!(parse_cgroup("0::\n"), None);
    assert_eq!(parse_cgroup("garbage\n1:cpu\n"), None);
    assert_eq!(parse_cgroup("3:cpu:\n0::/x").as_deref(), Some("/x"));
}

#[test]
fn crlf_and_colons_in_path() {
    assert_eq!(parse_cgroup("0::/a:b\r\n").as_deref(), Some("/a:b"));
    assert_eq!(parse_cgroup("0::/a\r").as_deref(), Some("/a\r"));
}
