//! Properties that hold of the library as a whole, across calls and for every input.
use vstd::prelude::*;
use crate::cli::{read_args, CliSettings, no_settings};
use crate::color::{hex_color, hex_value, is_hex_digit, strip_hashes, Rgb};
use crate::cgroup::cgroup_of;
use crate::procs::{
    cgroup_member_set, cgroup_member, descendant_set, descends, entry_link, has_link, is_chain,
    is_ignored_name, session_set, stat_parts, ProcEntry,
};
use crate::shutdown::{
    client_apps, client_pids, layer_pid_set, text_or_empty, MonitorLayers, started_after, target_pids, tick_step_of, to_kill, to_terminate, waited, Client,
    TickStep,
};
use crate::text::parse_i32;

verus! {

/// The program never targets itself: its own pid is never among the processes to close.
pub proof fn law_never_targets_self(cs: Seq<Client>, session: Set<i32>, layers: Set<i32>, own_pid: i32)
    ensures
        !target_pids(cs, session, layers, own_pid).contains(own_pid),
{
}

/// The layer surfaces only add processes to close: when they cannot be read, every process of
/// a window and of the session, but the program's own, is still to be closed.
pub proof fn law_layers_only_add(cs: Seq<Client>, session: Set<i32>, layers: Set<i32>, own_pid: i32)
    ensures
        target_pids(cs, session, Set::empty(), own_pid).subset_of(target_pids(cs, session, layers, own_pid)),
        forall|p: i32|
            (client_pids(cs).contains(p) || session.contains(p)) && p != own_pid ==> #[trigger] target_pids(
                cs,
                session,
                Set::empty(),
                own_pid,
            ).contains(p),
{
}

/// Every application listed has a class or a title.
pub proof fn law_listed_apps_are_named(cs: Seq<Client>)
    ensures
        forall|k: int|
            0 <= k < client_apps(cs).len() ==> (#[trigger] client_apps(cs)[k]).0.len() > 0
                || client_apps(cs)[k].1.len() > 0,
    decreases cs.len(),
{
    if cs.len() > 0 {
        law_listed_apps_are_named(cs.drop_last());
        let rest = client_apps(cs.drop_last());
        assert forall|k: int| 0 <= k < client_apps(cs).len() implies (#[trigger] client_apps(cs)[k]).0.len() > 0
            || client_apps(cs)[k].1.len() > 0 by {
            if k < rest.len() {
                assert(client_apps(cs)[k] == rest[k]);
            }
        }
    }
}

/// Enumerating the session cgroup never collects the session's root process.
pub proof fn law_cgroup_excludes_root(entries: Seq<ProcEntry>, root: i32, cg: Seq<char>)
    ensures
        !cgroup_member_set(entries, root, cg).contains(root),
{
    if cgroup_member_set(entries, root, cg).contains(root) {
        let i = choose|i: int| 0 <= i < entries.len() && cgroup_member(entries[i], root, cg) == Some(root);
    }
}

/// The walk over parent links never collects an ignored daemon: a pid whose every entry names
/// one of the ignored daemons in its `stat` file is not collected.
pub proof fn law_walk_skips_ignored(entries: Seq<ProcEntry>, root: i32, x: i32)
    requires
        forall|i: int|
            0 <= i < entries.len() && #[trigger] parse_i32(entries[i].name@) == Some(x) ==> match entries[i].stat {
                Some(st) => match stat_parts(st@) {
                    Some((comm, _)) => is_ignored_name(comm),
                    None => true,
                },
                None => true,
            },
    ensures
        !descendant_set(entries, root).contains(x),
{
    if descends(entries, root, x) {
        let ch = choose|ch: Seq<i32>| #[trigger] is_chain(entries, root, ch) && ch.last() == x;
        let k = ch.len() - 2;
        assert(has_link(entries, ch[k], ch[k + 1]));
        let i = choose|i: int| 0 <= i < entries.len() && entry_link(entries[i]) == Some((ch[k + 1], ch[k]));
        assert(parse_i32(entries[i].name@) == Some(x));
    }
}

/// No process is sent both `SIGTERM` and `SIGKILL` in one round.
pub proof fn law_one_signal_per_round(pids: Set<i32>, started: Map<i32, u64>, now: u64, timeout_ms: u64)
    ensures
        to_terminate(pids, started).disjoint(to_kill(pids, started, now, timeout_ms)),
{
}

/// A process is sent `SIGTERM` at most once: a later round, over any processes, does not send
/// it to a process that an earlier round sent it to.
pub proof fn law_terminate_once(first: Set<i32>, later: Set<i32>, started: Map<i32, u64>, now: u64)
    ensures
        to_terminate(later, started_after(first, started, now)).disjoint(to_terminate(first, started)),
{
}

/// After a round, every process of the round has a `SIGTERM` time, and a time once recorded
/// never changes.
pub proof fn law_round_records_times(pids: Set<i32>, started: Map<i32, u64>, now: u64)
    ensures
        forall|p: i32| pids.contains(p) ==> #[trigger] started_after(pids, started, now).contains_key(p),
        forall|p: i32|
            started.contains_key(p) ==> #[trigger] started_after(pids, started, now)[p] == started[p],
{
}

/// `SIGKILL` comes only after `SIGTERM`, and only once the timeout has passed since it.
pub proof fn law_kill_follows_terminate(pids: Set<i32>, started: Map<i32, u64>, now: u64, timeout_ms: u64, p: i32)
    requires
        to_kill(pids, started, now, timeout_ms).contains(p),
    ensures
        started.contains_key(p),
        waited(now, started[p], timeout_ms),
{
}

/// A dry run never closes anything: no tick retries or ends the session.
pub proof fn law_dry_run_waits(alive: nat, now: u64, last_retry: u64, retry_ms: u64)
    ensures
        tick_step_of(true, alive, now, last_retry, retry_ms) == TickStep::Wait,
{
}

/// The session ends only when no process to close is left, and never in a dry run.
pub proof fn law_finish_only_when_done(dry_run: bool, alive: nat, now: u64, last_retry: u64, retry_ms: u64)
    ensures
        tick_step_of(dry_run, alive, now, last_retry, retry_ms) == TickStep::Finish ==> alive == 0 && !dry_run,
{
}

/// Any number of leading `'#'` may stand before a color's digits.
pub proof fn law_leading_hash_optional(s: Seq<char>)
    ensures
        hex_color(seq!['#'] + s) == hex_color(s),
{
    assert((seq!['#'] + s).drop_first() =~= s);
    assert(strip_hashes(seq!['#'] + s) == strip_hashes(s));
}

/// Reading a command line goes argument by argument: once a prefix of the arguments has been
/// read to a set of options, what follows is read on top of those options.
proof fn lemma_read_args_append(a: Seq<Seq<char>>, t: Seq<Seq<char>>, i: nat, s: CliSettings)
    requires
        i <= a.len(),
        read_args(a, i, s) is Ok,
        read_args(a, i, s)->Ok_0 is Some,
    ensures
        read_args(a + t, i, s) == read_args(a + t, a.len(), read_args(a, i, s)->Ok_0->Some_0),
    decreases a.len() - i,
{
    if i < a.len() {
        let x = a[i as int];
        assert((a + t)[i as int] == x);
        if x == "--dry-run"@ {
            lemma_read_args_append(a, t, i + 1, CliSettings { dry_run: true, ..s });
        } else if x == "--post-cmd"@ {
            assert((a + t)[i + 1 as int] == a[i + 1 as int]);
            lemma_read_args_append(a, t, i + 2, CliSettings { post_command: Some(a[i + 1 as int]), ..s });
        } else if x == "--config"@ {
            assert((a + t)[i + 1 as int] == a[i + 1 as int]);
            lemma_read_args_append(a, t, i + 2, CliSettings { config_path: Some(a[i + 1 as int]), ..s });
        }
    }
}

/// A later `--post-cmd` replaces an earlier one: appending `--post-cmd c` to a command line
/// that reads to a run makes `c` the post command and changes nothing else.
pub proof fn law_last_post_command_wins(args: Seq<Seq<char>>, c: Seq<char>)
    requires
        read_args(args, 0, no_settings()) is Ok,
        read_args(args, 0, no_settings())->Ok_0 is Some,
    ensures
        ({
            let s = read_args(args, 0, no_settings())->Ok_0->Some_0;
            read_args(args + seq!["--post-cmd"@, c], 0, no_settings()) == Ok::<Option<CliSettings>, crate::cli::CliFault>(
                Some(CliSettings { post_command: Some(c), ..s }),
            )
        }),
{
    let t = seq!["--post-cmd"@, c];
    let s = read_args(args, 0, no_settings())->Ok_0->Some_0;
    lemma_read_args_append(args, t, 0, no_settings());
    let n = args.len();
    let all = args + t;
    assert(all[n as int] == "--post-cmd"@);
    assert(all[n + 1 as int] == c);
    reveal_strlit("--post-cmd");
    reveal_strlit("--dry-run");
    assert("--post-cmd"@ != "--dry-run"@) by {
        assert("--post-cmd"@[2] != "--dry-run"@[2]);
    }
    assert(read_args(all, n + 2, CliSettings { post_command: Some(c), ..s }) == Ok::<Option<CliSettings>, crate::cli::CliFault>(
        Some(CliSettings { post_command: Some(c), ..s }),
    ));
}

/// Without a cgroup of its own (the root cgroup `/`, as on a system without systemd, or none
/// at all), the session is what descends from its root through parent links, whatever
/// cgroups the other processes are in.
pub proof fn law_root_cgroup_walks_parents(root: i32, root_cgroup: Option<String>, entries: Seq<ProcEntry>)
    requires
        root_cgroup matches Some(t) ==> cgroup_of(t@) is None || cgroup_of(t@) == Some("/"@),
    ensures
        session_set(root, root_cgroup, entries) == descendant_set(entries, root),
{
}

/// Every layer surface that gives a pid has that pid collected, on every monitor and level
/// and at every place in the level; and every pid collected comes from a surface.
pub proof fn law_every_layer_pid_collected(ms: Seq<MonitorLayers>)
    ensures
        forall|m: int, l: int, k: int|
            0 <= m < ms.len() && 0 <= l < ms[m].levels@.len() && 0 <= k < ms[m].levels@[l]@.len()
                ==> match (#[trigger] ms[m].levels@[l]@[k]).pid {
                Some(p) => layer_pid_set(ms).contains(p),
                None => true,
            },
        forall|p: i32| #[trigger] layer_pid_set(ms).contains(p) ==> exists|m: int, l: int, k: int|
            0 <= m < ms.len() && 0 <= l < ms[m].levels@.len() && 0 <= k < ms[m].levels@[l]@.len()
                && ms[m].levels@[l]@[k].pid == Some(p),
{
    assert forall|m: int, l: int, k: int|
        0 <= m < ms.len() && 0 <= l < ms[m].levels@.len() && 0 <= k < ms[m].levels@[l]@.len() implies
        match (#[trigger] ms[m].levels@[l]@[k]).pid {
            Some(p) => layer_pid_set(ms).contains(p),
            None => true,
        } by {
        if let Some(p) = ms[m].levels@[l]@[k].pid {
            assert(ms[m].levels@[l]@[k].pid == Some(p));
        }
    }
}

/// A window is listed when it has a class or a title.
pub open spec fn is_named(c: Client) -> bool {
    text_or_empty(c.class).len() > 0 || text_or_empty(c.title).len() > 0
}

/// The (class, title) of a window.
pub open spec fn class_and_title(c: Client) -> (Seq<char>, Seq<char>) {
    (text_or_empty(c.class), text_or_empty(c.title))
}

/// The applications listed are the windows that have a class or a title, each once, in their
/// order, as their (class, title): windows with the same class and title are each listed.
pub proof fn law_listed_apps_are_named_windows(cs: Seq<Client>)
    ensures
        client_apps(cs) == cs.filter(|c: Client| is_named(c)).map_values(|c: Client| class_and_title(c)),
        client_apps(cs).len() == cs.filter(|c: Client| is_named(c)).len(),
    decreases cs.len(),
{
    reveal(Seq::filter);
    if cs.len() > 0 {
        law_listed_apps_are_named_windows(cs.drop_last());
    }
    assert(client_apps(cs) =~= cs.filter(|c: Client| is_named(c)).map_values(|c: Client| class_and_title(c)));
}

/// One more window with a class or a title adds exactly its (class, title) to the end of the
/// list; one without either leaves the list as it was.
pub proof fn law_one_more_window(cs: Seq<Client>, c: Client)
    ensures
        is_named(c) ==> client_apps(cs.push(c)) == client_apps(cs).push(class_and_title(c)),
        is_named(c) ==> client_apps(cs.push(c)).len() == client_apps(cs).len() + 1,
        !is_named(c) ==> client_apps(cs.push(c)) == client_apps(cs),
{
    assert(cs.push(c).drop_last() =~= cs);
}

/// Outside a dry run, once no process to close is left the session ends, however long ago
/// the last round of closing was.
pub proof fn law_finish_when_done(now: u64, last_retry: u64, retry_ms: u64)
    ensures
        tick_step_of(false, 0, now, last_retry, retry_ms) == TickStep::Finish,
{
}

/// The character that writes the hexadecimal digit `v`, below 16: a decimal digit, else a
/// letter, upper case where `upper`.
pub open spec fn hex_char(v: int, upper: bool) -> char {
    if v < 10 {
        (0x30 + v) as char
    } else if upper {
        (0x41 + v - 10) as char
    } else {
        (0x61 + v - 10) as char
    }
}

/// Six hexadecimal digits after a `'#'`, each in either case, spell the color whose red,
/// green and blue are the three two-digit numbers they write.
pub proof fn law_hex_digits_in_either_case(v: Seq<int>, upper: Seq<bool>)
    requires
        v.len() == 6,
        upper.len() == 6,
        forall|i: int| 0 <= i < 6 ==> 0 <= #[trigger] v[i] < 16,
    ensures
        hex_color(seq!['#'] + Seq::new(6, |i: int| hex_char(v[i], upper[i]))) == Some(
            Rgb {
                r: (v[0] * 16 + v[1]) as u8,
                g: (v[2] * 16 + v[3]) as u8,
                b: (v[4] * 16 + v[5]) as u8,
            },
        ),
{
    let d = Seq::new(6, |i: int| hex_char(v[i], upper[i]));
    let t = seq!['#'] + d;
    assert(t.drop_first() =~= d);
    assert(t[0] == '#');
    assert(strip_hashes(t) == strip_hashes(t.drop_first()));
    assert(d[0] != '#');
    assert(strip_hashes(d) == d);
    assert(strip_hashes(t) == d);
    assert forall|i: int| 0 <= i < 6 implies is_hex_digit(#[trigger] d[i]) && hex_value(d[i]) == v[i] by {
        assert(d[i] == hex_char(v[i], upper[i]));
    }
}

/// A round of closing is run only when some process to close is left and the retry
/// interval has passed; with processes left and the interval not yet passed, the tick waits.
pub proof fn law_retry_only_when_due(alive: nat, now: u64, last_retry: u64, retry_ms: u64)
    ensures
        tick_step_of(false, alive, now, last_retry, retry_ms) == TickStep::Retry <==> (alive > 0 && waited(
            now,
            last_retry,
            retry_ms,
        )),
        alive > 0 && !waited(now, last_retry, retry_ms) ==> tick_step_of(false, alive, now, last_retry, retry_ms)
            == TickStep::Wait,
{
}

/// A character outside `0`-`9`, `a`-`f` and `A`-`F` among the six digits makes the text no
/// color.
pub proof fn law_non_hex_digit_refused(d: Seq<char>, i: int)
    requires
        d.len() == 6,
        0 <= i < 6,
        !('0' as u32 <= d[i] as u32 <= '9' as u32 || 'a' as u32 <= d[i] as u32 <= 'f' as u32 || 'A' as u32
            <= d[i] as u32 <= 'F' as u32),
    ensures
        hex_color(seq!['#'] + d) is None,
{
    let t = seq!['#'] + d;
    assert(t.drop_first() =~= d);
    assert(strip_hashes(t) == strip_hashes(d));
    if d[0] == '#' {
        lemma_strip_hashes_shorter(d.drop_first());
        assert(strip_hashes(d) == strip_hashes(d.drop_first()));
    } else {
        assert(strip_hashes(d) == d);
        assert('0' as u32 == 0x30 && '9' as u32 == 0x39 && 'a' as u32 == 0x61 && 'f' as u32 == 0x66
            && 'A' as u32 == 0x41 && 'F' as u32 == 0x46);
        assert(!is_hex_digit(d[i]));
    }
}

/// Dropping leading `'#'` never lengthens a text.
proof fn lemma_strip_hashes_shorter(s: Seq<char>)
    ensures
        strip_hashes(s).len() <= s.len(),
    decreases s.len(),
{
    if s.len() > 0 && s[0] == '#' {
        lemma_strip_hashes_shorter(s.drop_first());
    }
}

} // verus!
