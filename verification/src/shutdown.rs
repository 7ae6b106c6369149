//! The state of a shutdown run and the decisions it makes: which windows and processes are
//! closed, when a process is killed, and when the session may end.
use vstd::prelude::*;
use std::collections::{HashMap, HashSet};
use crate::config::Config;

verus! {

broadcast use vstd::std_specs::hash::group_hash_axioms;

/// A window of the compositor: its address, the pid of its client, its class and its title,
/// each where the compositor gives it.
#[derive(Debug, Clone)]
pub struct Client {
    pub address: Option<String>,
    pub pid: Option<i32>,
    pub class: Option<String>,
    pub title: Option<String>,
}

/// A layer-shell surface (a bar, a notification, a launcher): the pid of its client.
#[derive(Debug, Clone, Copy)]
pub struct HyprLayer {
    pub pid: Option<i32>,
}

/// The layer surfaces of one monitor, one list per stacking level.
#[derive(Debug, Clone)]
pub struct MonitorLayers {
    pub levels: Vec<Vec<HyprLayer>>,
}

/// What a shutdown run tracks: the processes to close, the session's own processes, the
/// windows to close, the applications still listed, when closing was last retried, when each
/// process was sent `SIGTERM`, and the configuration.
pub struct ShutdownState {
    pub pids: HashSet<i32>,
    pub hypr_children: HashSet<i32>,
    pub addresses: Vec<String>,
    pub apps: Vec<(String, String)>,
    pub last_retry: u64,
    pub term_started: HashMap<i32, u64>,
    pub config: Config,
}

/// The addresses that the windows give, in their order.
pub open spec fn client_addresses(cs: Seq<Client>) -> Seq<Seq<char>>
    decreases cs.len(),
{
    if cs.len() == 0 {
        seq![]
    } else {
        let rest = client_addresses(cs.drop_last());
        match cs.last().address {
            Some(a) => rest.push(a@),
            None => rest,
        }
    }
}

/// A string field that may be missing, by its characters; a missing one is empty.
pub open spec fn text_or_empty(o: Option<String>) -> Seq<char> {
    match o {
        Some(s) => s@,
        None => seq![],
    }
}

/// The (class, title) of each window that has a class or a title, in their order.
pub open spec fn client_apps(cs: Seq<Client>) -> Seq<(Seq<char>, Seq<char>)>
    decreases cs.len(),
{
    if cs.len() == 0 {
        seq![]
    } else {
        let rest = client_apps(cs.drop_last());
        let class = text_or_empty(cs.last().class);
        let title = text_or_empty(cs.last().title);
        if class.len() == 0 && title.len() == 0 {
            rest
        } else {
            rest.push((class, title))
        }
    }
}

/// The pids that the windows give.
pub open spec fn client_pids(cs: Seq<Client>) -> Set<i32> {
    Set::new(|p: i32| exists|i: int| 0 <= i < cs.len() && cs[i].pid == Some(p))
}

/// Strings by their characters.
pub open spec fn strings_view(v: Seq<String>) -> Seq<Seq<char>> {
    v.map_values(|s: String| s@)
}

/// Pairs of strings by their characters.
pub open spec fn pairs_view(v: Seq<(String, String)>) -> Seq<(Seq<char>, Seq<char>)> {
    v.map_values(|p: (String, String)| (p.0@, p.1@))
}

/// The processes to close: those of the windows, those of the session, and those of the layer
/// surfaces, never this program itself.
pub open spec fn target_pids(
    cs: Seq<Client>,
    session: Set<i32>,
    layers: Set<i32>,
    own_pid: i32,
) -> Set<i32> {
    client_pids(cs).union(session).union(layers).remove(own_pid)
}

/// The pids of all layer surfaces of all monitors.
pub open spec fn layer_pid_set(ms: Seq<MonitorLayers>) -> Set<i32> {
    Set::new(
        |p: i32|
            exists|m: int, l: int, k: int|
                0 <= m < ms.len() && 0 <= l < ms[m].levels@.len() && 0 <= k < ms[m].levels@[l]@.len()
                    && #[trigger] ms[m].levels@[l]@[k].pid == Some(p),
    )
}

/// The pids of the layer surfaces of one level.
pub open spec fn level_pids(level: Seq<HyprLayer>) -> Set<i32> {
    Set::new(|p: i32| exists|k: int| 0 <= k < level.len() && #[trigger] level[k].pid == Some(p))
}

/// The pids of the layer surfaces of every level of one monitor.
pub open spec fn monitor_pids(levels: Seq<Vec<HyprLayer>>) -> Set<i32> {
    Set::new(|p: i32| exists|l: int| 0 <= l < levels.len() && #[trigger] level_pids(levels[l]@).contains(p))
}

/// Add the pids of one level's layer surfaces to `r`.
fn add_level_pids(r: &mut HashSet<i32>, level: &Vec<HyprLayer>)
    ensures
        final(r)@ == old(r)@.union(level_pids(level@)),
{
    let mut k: usize = 0;
    while k < level.len()
        invariant
            k <= level.len(),
            r@ == old(r)@.union(level_pids(level@.take(k as int))),
        decreases level.len() - k,
    {
        if let Some(pid) = level[k].pid {
            r.insert(pid);
        }
        proof {
            let prev = level@.take(k as int);
            let next = level@.take(k + 1);
            assert forall|p: i32| level_pids(next).contains(p) <==> (level_pids(prev).contains(p)
                || level@[k as int].pid == Some(p)) by {
                if level_pids(next).contains(p) {
                    let j = choose|j: int| 0 <= j < next.len() && #[trigger] next[j].pid == Some(p);
                    if j < k {
                        assert(prev[j] == next[j]);
                    }
                }
                if level_pids(prev).contains(p) {
                    let j = choose|j: int| 0 <= j < prev.len() && #[trigger] prev[j].pid == Some(p);
                    assert(next[j] == prev[j]);
                }
                if level@[k as int].pid == Some(p) {
                    assert(next[k as int] == level@[k as int]);
                }
            }
            assert(r@ =~= old(r)@.union(level_pids(next)));
        }
        k = k + 1;
    }
    assert(level@.take(k as int) =~= level@);
}

/// Add the pids of the layer surfaces of every level of one monitor to `r`.
fn add_monitor_pids(r: &mut HashSet<i32>, levels: &Vec<Vec<HyprLayer>>)
    ensures
        final(r)@ == old(r)@.union(monitor_pids(levels@)),
{
    let mut l: usize = 0;
    while l < levels.len()
        invariant
            l <= levels.len(),
            r@ == old(r)@.union(monitor_pids(levels@.take(l as int))),
        decreases levels.len() - l,
    {
        add_level_pids(r, &levels[l]);
        proof {
            let prev = levels@.take(l as int);
            let next = levels@.take(l + 1);
            assert forall|p: i32| monitor_pids(next).contains(p) <==> (monitor_pids(prev).contains(p)
                || level_pids(levels@[l as int]@).contains(p)) by {
                if monitor_pids(next).contains(p) {
                    let j = choose|j: int| 0 <= j < next.len() && #[trigger] level_pids(next[j]@).contains(p);
                    if j < l {
                        assert(prev[j] == next[j]);
                    }
                }
                if monitor_pids(prev).contains(p) {
                    let j = choose|j: int| 0 <= j < prev.len() && #[trigger] level_pids(prev[j]@).contains(p);
                    assert(next[j] == prev[j]);
                }
                if level_pids(levels@[l as int]@).contains(p) {
                    assert(next[l as int] == levels@[l as int]);
                }
            }
            assert(r@ =~= old(r)@.union(monitor_pids(next)));
        }
        l = l + 1;
    }
    assert(levels@.take(l as int) =~= levels@);
}

/// The pids of the layer surfaces of every monitor, level by level.
pub open spec fn monitors_pids(ms: Seq<MonitorLayers>) -> Set<i32> {
    Set::new(|p: i32| exists|m: int| 0 <= m < ms.len() && #[trigger] monitor_pids(ms[m].levels@).contains(p))
}

/// Collect the pids of the layer surfaces of every monitor and level.
pub fn collect_layer_pids(monitors: &Vec<MonitorLayers>) -> (r: HashSet<i32>)
    ensures
        r@ == layer_pid_set(monitors@),
{
    let mut r: HashSet<i32> = HashSet::new();
    let mut m: usize = 0;
    while m < monitors.len()
        invariant
            m <= monitors.len(),
            r@ == monitors_pids(monitors@.take(m as int)),
        decreases monitors.len() - m,
    {
        add_monitor_pids(&mut r, &monitors[m].levels);
        proof {
            let prev = monitors@.take(m as int);
            let next = monitors@.take(m + 1);
            assert forall|p: i32| monitors_pids(next).contains(p) <==> (monitors_pids(prev).contains(p)
                || monitor_pids(monitors@[m as int].levels@).contains(p)) by {
                if monitors_pids(next).contains(p) {
                    let j = choose|j: int| 0 <= j < next.len() && #[trigger] monitor_pids(next[j].levels@).contains(p);
                    if j < m {
                        assert(prev[j] == next[j]);
                    }
                }
                if monitors_pids(prev).contains(p) {
                    let j = choose|j: int| 0 <= j < prev.len() && #[trigger] monitor_pids(prev[j].levels@).contains(p);
                    assert(next[j] == prev[j]);
                }
                if monitor_pids(monitors@[m as int].levels@).contains(p) {
                    assert(next[m as int] == monitors@[m as int]);
                }
            }
            assert(r@ =~= monitors_pids(next));
        }
        m = m + 1;
    }
    proof {
        assert(monitors@.take(m as int) =~= monitors@);
        assert forall|p: i32| layer_pid_set(monitors@).contains(p) <==> monitors_pids(monitors@).contains(p) by {
            if layer_pid_set(monitors@).contains(p) {
                let (m2, l2, k2) = choose|m2: int, l2: int, k2: int|
                    0 <= m2 < monitors@.len() && 0 <= l2 < monitors@[m2].levels@.len() && 0 <= k2
                        < monitors@[m2].levels@[l2]@.len() && #[trigger] monitors@[m2].levels@[l2]@[k2].pid
                        == Some(p);
                assert(level_pids(monitors@[m2].levels@[l2]@).contains(p));
                assert(monitor_pids(monitors@[m2].levels@).contains(p));
            }
            if monitors_pids(monitors@).contains(p) {
                let m2 = choose|m2: int| 0 <= m2 < monitors@.len() && #[trigger] monitor_pids(monitors@[m2].levels@).contains(p);
                let l2 = choose|l2: int| 0 <= l2 < monitors@[m2].levels@.len() && #[trigger] level_pids(monitors@[m2].levels@[l2]@).contains(p);
                let k2 = choose|k2: int| 0 <= k2 < monitors@[m2].levels@[l2]@.len() && #[trigger] monitors@[m2].levels@[l2]@[k2].pid == Some(p);
                assert(monitors@[m2].levels@[l2]@[k2].pid == Some(p));
            }
        }
        assert(r@ =~= layer_pid_set(monitors@));
    }
    r
}

/// A copy of a string that may be missing, empty where it is.
fn text_or_default(o: &Option<String>) -> (r: String)
    ensures
        r@ == text_or_empty(*o),
{
    match o {
        Some(s) => s.clone(),
        None => String::new(),
    }
}

/// The addresses of the windows, in their order.
pub fn window_addresses(clients: &Vec<Client>) -> (r: Vec<String>)
    ensures
        strings_view(r@) == client_addresses(clients@),
{
    let mut r: Vec<String> = Vec::new();
    let mut i: usize = 0;
    while i < clients.len()
        invariant
            i <= clients.len(),
            strings_view(r@) == client_addresses(clients@.take(i as int)),
        decreases clients.len() - i,
    {
        let ghost before = r@;
        proof {
            assert(clients@.take(i + 1).drop_last() =~= clients@.take(i as int));
            assert(clients@.take(i + 1).last() == clients@[i as int]);
        }
        match &clients[i].address {
            Some(a) => {
                r.push(a.clone());
                assert(strings_view(r@) =~= strings_view(before).push(a@));
            },
            None => {},
        }
        i = i + 1;
    }
    assert(clients@.take(clients.len() as int) =~= clients@);
    r
}

/// The (class, title) of each window that has a class or a title, in their order.
pub fn window_apps(clients: &Vec<Client>) -> (r: Vec<(String, String)>)
    ensures
        pairs_view(r@) == client_apps(clients@),
{
    let mut r: Vec<(String, String)> = Vec::new();
    let mut i: usize = 0;
    while i < clients.len()
        invariant
            i <= clients.len(),
            pairs_view(r@) == client_apps(clients@.take(i as int)),
        decreases clients.len() - i,
    {
        let ghost before = r@;
        proof {
            assert(clients@.take(i + 1).drop_last() =~= clients@.take(i as int));
            assert(clients@.take(i + 1).last() == clients@[i as int]);
        }
        let class = text_or_default(&clients[i].class);
        let title = text_or_default(&clients[i].title);
        if !(class.as_str().is_empty() && title.as_str().is_empty()) {
            let ghost pair = (class@, title@);
            r.push((class, title));
            assert(pairs_view(r@) =~= pairs_view(before).push(pair));
        }
        i = i + 1;
    }
    assert(clients@.take(clients.len() as int) =~= clients@);
    r
}

/// The members of a set, each once, in the order the set hands them out.
pub fn set_members(set: &HashSet<i32>) -> (v: Vec<i32>)
    ensures
        v@.to_set() == set@,
        v@.no_duplicates(),
{
    let mut v: Vec<i32> = Vec::new();
    for p in it: set.iter()
        invariant
            it.seq().unref().to_set() == set@,
            it.seq().unref().no_duplicates(),
            v@.len() == it.index(),
            forall|j: int| 0 <= j < it.index() ==> v@[j] == *it.seq()[j],
            forall|x: i32| v@.contains(x) ==> set@.contains(x),
            forall|j: int| 0 <= j < it.index() ==> v@.contains(#[trigger] it.seq().unref()[j]),
    {
        let ghost k = it.index();
        let ghost before = v@;
        v.push(*p);
        proof {
            assert(it.seq().unref()[k as int] == *p);
            assert(it.seq().unref().contains(*p));
            assert forall|j: int| 0 <= j < k + 1 implies v@.contains(#[trigger] it.seq().unref()[j]) by {
                if j < k {
                    assert(before.contains(it.seq().unref()[j]));
                    let i = choose|i: int| 0 <= i < before.len() && before[i] == it.seq().unref()[j];
                    assert(v@[i] == before[i]);
                } else {
                    assert(v@[k as int] == *p);
                }
            }
            assert forall|x: i32| v@.contains(x) implies set@.contains(x) by {
                let i = choose|i: int| 0 <= i < v@.len() && v@[i] == x;
                if i < k {
                    assert(before[i] == x);
                }
            }
        }
    }
    v
}

/// Adds every element of `v` to `into`.
fn with_members(into: HashSet<i32>, v: &Vec<i32>) -> (r: HashSet<i32>)
    ensures
        r@ == into@.union(v@.to_set()),
{
    let ghost start = into@;
    let mut into = into;
    let mut i: usize = 0;
    while i < v.len()
        invariant
            i <= v.len(),
            forall|x: i32| #[trigger] into@.contains(x) <==> (start.contains(x) || exists|j: int|
                0 <= j < i && v@[j] == x),
        decreases v.len() - i,
    {
        let ghost before = into@;
        let ghost k = i as int;
        into.insert(v[i]);
        i = i + 1;
        proof {
            assert forall|x: i32| into@.contains(x) <==> (start.contains(x) || exists|j: int|
                0 <= j < i && v@[j] == x) by {
                assert(before.contains(x) ==> (start.contains(x) || exists|j: int|
                    0 <= j < k && v@[j] == x));
                assert(into@.contains(x) ==> (before.contains(x) || x == v@[k]));
                assert(start.contains(x) ==> before.contains(x));
                if x == v@[k] {
                    assert(0 <= k < i && v@[k] == x);
                }
                if before.contains(x) && !start.contains(x) {
                    let j = choose|j: int| 0 <= j < k && v@[j] == x;
                    assert(0 <= j < i && v@[j] == x);
                }
                if exists|j: int| 0 <= j < i && v@[j] == x {
                    let j = choose|j: int| 0 <= j < i && v@[j] == x;
                    if j < k {
                        assert(exists|j2: int| 0 <= j2 < k && v@[j2] == x);
                    }
                }
            }
        }
    }
    proof {
        assert forall|x: i32| into@.contains(x) <==> start.union(v@.to_set()).contains(x) by {
            assert(i == v@.len());
            if v@.contains(x) {
                let j = choose|j: int| 0 <= j < v@.len() && v@[j] == x;
                assert(0 <= j < i && v@[j] == x);
                assert(exists|j2: int| 0 <= j2 < i && v@[j2] == x);
                assert(into@.contains(x));
            }
            if start.contains(x) {
                assert(into@.contains(x));
            }
            if into@.contains(x) && !start.contains(x) {
                let j = choose|j: int| 0 <= j < i && v@[j] == x;
                assert(0 <= j < v@.len() && v@[j] == x);
                assert(v@.contains(x));
            }
        }
        assert(into@ =~= start.union(v@.to_set()));
    }
    into
}

/// Adds every member of `from` to `into`.
fn with_all(into: HashSet<i32>, from: &HashSet<i32>) -> (r: HashSet<i32>)
    ensures
        r@ == into@.union(from@),
{
    let v = set_members(from);
    with_members(into, &v)
}

/// The processes to close: those of the windows, those of the session, and those of the layer
/// surfaces, never `own_pid`.
pub fn target_pid_set(
    clients: &Vec<Client>,
    session: &HashSet<i32>,
    layers: &HashSet<i32>,
    own_pid: i32,
) -> (r: HashSet<i32>)
    ensures
        r@ == target_pids(clients@, session@, layers@, own_pid),
{
    let mut r: HashSet<i32> = HashSet::new();
    let mut i: usize = 0;
    while i < clients.len()
        invariant
            i <= clients.len(),
            forall|p: i32| r@.contains(p) <==> exists|j: int| 0 <= j < i && clients@[j].pid == Some(p),
        decreases clients.len() - i,
    {
        if let Some(p) = clients[i].pid {
            r.insert(p);
        }
        proof {
            assert forall|p: i32| r@.contains(p) <==> exists|j: int|
                0 <= j < i + 1 && clients@[j].pid == Some(p) by {
                if clients@[i as int].pid == Some(p) {
                    assert(0 <= i < i + 1 && clients@[i as int].pid == Some(p));
                }
                if exists|j: int| 0 <= j < i + 1 && clients@[j].pid == Some(p) {
                    let j = choose|j: int| 0 <= j < i + 1 && clients@[j].pid == Some(p);
                    if j < i {
                        assert(exists|j2: int| 0 <= j2 < i && clients@[j2].pid == Some(p));
                    }
                }
            }
        }
        i = i + 1;
    }
    assert(r@ =~= client_pids(clients@));
    let r = with_all(r, session);
    let mut r = with_all(r, layers);
    r.remove(&own_pid);
    r
}

impl ShutdownState {
    /// Take in what the compositor now shows: the windows, and the pids of the layer surfaces.
    /// The windows to close, the processes to close and the applications listed are replaced;
    /// the rest of the state stays as it was.
    pub fn refresh(&mut self, clients: &Vec<Client>, layer_pids: &HashSet<i32>, own_pid: i32)
        ensures
            strings_view(final(self).addresses@) == client_addresses(clients@),
            final(self).pids@ == target_pids(clients@, old(self).hypr_children@, layer_pids@, own_pid),
            pairs_view(final(self).apps@) == client_apps(clients@),
            final(self).hypr_children == old(self).hypr_children,
            final(self).last_retry == old(self).last_retry,
            final(self).term_started == old(self).term_started,
            final(self).config == old(self).config,
    {
        self.addresses = window_addresses(clients);
        self.pids = target_pid_set(clients, &self.hypr_children, layer_pids, own_pid);
        self.apps = window_apps(clients);
    }
}

/// The nanoseconds from `since` to `now`, none when `now` is earlier.
pub open spec fn elapsed_ns(now: u64, since: u64) -> int {
    if now >= since {
        now - since
    } else {
        0
    }
}

/// At least `ms` milliseconds have passed from `since` to `now`.
pub open spec fn waited(now: u64, since: u64, ms: u64) -> bool {
    elapsed_ns(now, since) >= ms * 1_000_000
}

/// Whether at least `ms` milliseconds have passed from `since` to `now`.
pub fn has_waited(now: u64, since: u64, ms: u64) -> (r: bool)
    ensures
        r == waited(now, since, ms),
{
    let elapsed: u64 = if now >= since {
        now - since
    } else {
        0
    };
    (elapsed as u128) >= (ms as u128) * 1_000_000
}

/// The processes of a round that are sent `SIGTERM`: those never sent it before.
pub open spec fn to_terminate(pids: Set<i32>, started: Map<i32, u64>) -> Set<i32> {
    pids.filter(|p: i32| !started.contains_key(p))
}

/// The processes of a round that are sent `SIGKILL`: those sent `SIGTERM` at least
/// `timeout_ms` milliseconds ago.
pub open spec fn to_kill(pids: Set<i32>, started: Map<i32, u64>, now: u64, timeout_ms: u64) -> Set<i32> {
    pids.filter(|p: i32| started.contains_key(p) && waited(now, started[p], timeout_ms))
}

/// When each process was first sent `SIGTERM`, after a round at `now` over `pids`.
pub open spec fn started_after(pids: Set<i32>, started: Map<i32, u64>, now: u64) -> Map<i32, u64> {
    Map::new(
        |p: i32| started.contains_key(p) || pids.contains(p),
        |p: i32| if started.contains_key(p) {
            started[p]
        } else {
            now
        },
    )
}

/// What one round of closing does: the windows to close, and the processes to send `SIGTERM`
/// and `SIGKILL`, each once.
pub struct CloseRound {
    pub addresses: Vec<String>,
    pub terminate: Vec<i32>,
    pub kill: Vec<i32>,
}

/// A copy of a list of strings.
fn copy_strings(v: &Vec<String>) -> (r: Vec<String>)
    ensures
        strings_view(r@) == strings_view(v@),
{
    let mut r: Vec<String> = Vec::new();
    let mut i: usize = 0;
    while i < v.len()
        invariant
            i <= v.len(),
            strings_view(r@) == strings_view(v@.take(i as int)),
        decreases v.len() - i,
    {
        let ghost before = r@;
        r.push(v[i].clone());
        assert(r@ == before.push(v@[i as int]));
        assert(v@.take(i + 1) =~= v@.take(i as int).push(v@[i as int]));
        assert(strings_view(r@) =~= strings_view(before).push(v@[i as int]@));
        assert(strings_view(v@.take(i + 1)) =~= strings_view(v@.take(i as int)).push(v@[i as int]@));
        i = i + 1;
    }
    assert(v@.take(v.len() as int) =~= v@);
    r
}

/// What the state is when a shutdown run starts at `now` with `config`.
pub open spec fn is_initial(s: ShutdownState, config: Config, now: u64) -> bool {
    &&& s.pids@.is_empty()
    &&& s.hypr_children@.is_empty()
    &&& s.addresses@.len() == 0
    &&& s.apps@.len() == 0
    &&& s.last_retry == now
    &&& s.term_started@.is_empty()
    &&& s.config == config
}

/// What a tick does once the state is refreshed.
#[derive(Debug, Clone, Copy, PartialEq, Eq, Structural)]
pub enum TickStep {
    /// Every process to close is gone: end the session.
    Finish,
    /// Close again what is still open.
    Retry,
    /// Nothing to do until the next tick.
    Wait,
}

/// The step a tick takes: none in a dry run; the end when no process is left; a new round of
/// closing when the retry interval has passed since the last one.
pub open spec fn tick_step_of(dry_run: bool, alive: nat, now: u64, last_retry: u64, retry_ms: u64) -> TickStep {
    if dry_run {
        TickStep::Wait
    } else if alive == 0 {
        TickStep::Finish
    } else if waited(now, last_retry, retry_ms) {
        TickStep::Retry
    } else {
        TickStep::Wait
    }
}

/// What ending the run does: the processes to kill, the command to run, and whether the
/// compositor is told to exit.
pub struct FinishPlan {
    pub kill: Vec<i32>,
    pub post_command: Option<String>,
    pub exit_session: bool,
}

/// The processes never sent `SIGTERM`.
pub open spec fn unstarted(started: Map<i32, u64>) -> spec_fn(i32) -> bool {
    |p: i32| !started.contains_key(p)
}

/// The processes sent `SIGTERM` at least `timeout_ms` milliseconds before `now`.
pub open spec fn overdue(started: Map<i32, u64>, now: u64, timeout_ms: u64) -> spec_fn(i32) -> bool {
    |p: i32| started.contains_key(p) && waited(now, started[p], timeout_ms)
}

/// `out` holds, each once and in order, the first `n` of `members` that `sel` picks.
pub open spec fn picks(out: Seq<i32>, members: Seq<i32>, n: int, sel: spec_fn(i32) -> bool) -> bool {
    &&& forall|p: i32| #[trigger] out.contains(p) <==> exists|j: int| 0 <= j < n && members[j] == p && sel(p)
    &&& forall|t: int| 0 <= t < out.len() ==> exists|j: int| 0 <= j < n && members[j] == #[trigger] out[t]
    &&& out.no_duplicates()
}

/// Taking one more member keeps the picked list right: it grows by that member exactly when
/// `sel` picks it.
proof fn lemma_picks_step(before: Seq<i32>, after: Seq<i32>, members: Seq<i32>, k: int, sel: spec_fn(i32) -> bool)
    requires
        0 <= k < members.len(),
        members.no_duplicates(),
        picks(before, members, k, sel),
        after == if sel(members[k]) {
            before.push(members[k])
        } else {
            before
        },
    ensures
        picks(after, members, k + 1, sel),
{
    let m = members[k];
    assert forall|p: i32| #[trigger] after.contains(p) <==> exists|j: int| 0 <= j < k + 1 && members[j] == p && sel(p) by {
        if before.contains(p) {
            let j = choose|j: int| 0 <= j < k && members[j] == p && sel(p);
            let t = choose|t: int| 0 <= t < before.len() && before[t] == p;
            assert(after[t] == p);
            assert(0 <= j < k + 1);
        }
        if exists|j: int| 0 <= j < k + 1 && members[j] == p && sel(p) {
            let j = choose|j: int| 0 <= j < k + 1 && members[j] == p && sel(p);
            if j < k {
                assert(before.contains(p));
                let t = choose|t: int| 0 <= t < before.len() && before[t] == p;
                assert(after[t] == p);
            } else {
                assert(after[after.len() - 1] == p);
            }
        }
        if after.contains(p) {
            let t = choose|t: int| 0 <= t < after.len() && after[t] == p;
            if t < before.len() {
                assert(before[t] == p);
                assert(before.contains(p));
            } else {
                assert(members[k] == p);
            }
        }
    }
    assert forall|t: int| 0 <= t < after.len() implies exists|j: int| 0 <= j < k + 1 && members[j] == #[trigger] after[t] by {
        if t < before.len() {
            assert(after[t] == before[t]);
            let j = choose|j: int| 0 <= j < k && members[j] == before[t];
            assert(0 <= j < k + 1);
        } else {
            assert(members[k] == after[t]);
        }
    }
    assert forall|t1: int, t2: int| 0 <= t1 < after.len() && 0 <= t2 < after.len() && t1 != t2 implies after[t1] != after[t2] by {
        if t1 < before.len() && t2 < before.len() {
            assert(after[t1] == before[t1]);
            assert(after[t2] == before[t2]);
        } else if t1 < before.len() {
            assert(after[t1] == before[t1]);
            let j = choose|j: int| 0 <= j < k && members[j] == before[t1];
        } else if t2 < before.len() {
            assert(after[t2] == before[t2]);
            let j = choose|j: int| 0 <= j < k && members[j] == before[t2];
        }
    }
}

impl ShutdownState {
    /// A run that has found nothing yet, started at `now`.
    pub fn new(config: Config, now: u64) -> (s: Self)
        ensures
            is_initial(s, config, now),
    {
        ShutdownState {
            pids: HashSet::new(),
            hypr_children: HashSet::new(),
            addresses: Vec::new(),
            apps: Vec::new(),
            last_retry: now,
            term_started: HashMap::new(),
            config,
        }
    }

    /// One round of closing at `now`: every window is asked to close, every process not yet
    /// sent `SIGTERM` is sent it and its time recorded, and every process sent `SIGTERM` at
    /// least the configured timeout ago is sent `SIGKILL`.
    pub fn retry_close(&mut self, now: u64) -> (r: CloseRound)
        ensures
            strings_view(r.addresses@) == strings_view(old(self).addresses@),
            r.terminate@.to_set() == to_terminate(old(self).pids@, old(self).term_started@),
            r.terminate@.no_duplicates(),
            r.kill@.to_set() == to_kill(
                old(self).pids@,
                old(self).term_started@,
                now,
                old(self).config.behavior.sigkill_timeout_ms,
            ),
            r.kill@.no_duplicates(),
            final(self).term_started@ == started_after(old(self).pids@, old(self).term_started@, now),
            final(self).pids == old(self).pids,
            final(self).hypr_children == old(self).hypr_children,
            final(self).addresses == old(self).addresses,
            final(self).apps == old(self).apps,
            final(self).last_retry == old(self).last_retry,
            final(self).config == old(self).config,
    {
        let addresses = copy_strings(&self.addresses);
        let members = set_members(&self.pids);
        let timeout = self.config.behavior.sigkill_timeout_ms;
        let ghost started0 = self.term_started@;
        let ghost pids0 = self.pids@;
        let mut terminate: Vec<i32> = Vec::new();
        let mut kill: Vec<i32> = Vec::new();
        let mut i: usize = 0;
        while i < members.len()
            invariant
                members@.to_set() == pids0,
                members@.no_duplicates(),
                self.pids == old(self).pids,
                self.hypr_children == old(self).hypr_children,
                self.addresses == old(self).addresses,
                self.apps == old(self).apps,
                self.last_retry == old(self).last_retry,
                self.config == old(self).config,
                timeout == old(self).config.behavior.sigkill_timeout_ms,
                pids0 == old(self).pids@,
                started0 == old(self).term_started@,
                i <= members.len(),
                picks(terminate@, members@, i as int, unstarted(started0)),
                picks(kill@, members@, i as int, overdue(started0, now, timeout)),
                forall|p: i32| #[trigger] self.term_started@.contains_key(p) <==> (started0.contains_key(p)
                    || exists|j: int| 0 <= j < i && members@[j] == p),
                forall|p: i32| #[trigger] self.term_started@.contains_key(p) ==> self.term_started@[p] == (
                if started0.contains_key(p) {
                    started0[p]
                } else {
                    now
                }),
            decreases members.len() - i,
        {
            let pid = members[i];
            let ghost k = i as int;
            proof {
                assert forall|j: int| 0 <= j < k implies members@[j] != pid by {
                    assert(members@[k] == pid);
                }
            }
            let ghost term_before = terminate@;
            let ghost kill_before = kill@;
            let ghost map_before = self.term_started@;
            match self.term_started.get(&pid) {
                None => {
                    terminate.push(pid);
                    self.term_started.insert(pid, now);
                },
                Some(started) => {
                    if has_waited(now, *started, timeout) {
                        kill.push(pid);
                    }
                },
            }
            i = i + 1;
            proof {
                assert(started0.contains_key(pid) <==> map_before.contains_key(pid)) by {
                    if map_before.contains_key(pid) && !started0.contains_key(pid) {
                        let j = choose|j: int| 0 <= j < k && members@[j] == pid;
                    }
                }
                if map_before.contains_key(pid) {
                    assert(map_before[pid] == started0[pid]);
                }
                lemma_picks_step(term_before, terminate@, members@, k, unstarted(started0));
                lemma_picks_step(kill_before, kill@, members@, k, overdue(started0, now, timeout));
                assert forall|p: i32| #[trigger] self.term_started@.contains_key(p) <==> (started0.contains_key(p)
                    || exists|j: int| 0 <= j < i && members@[j] == p) by {
                    if map_before.contains_key(p) && !started0.contains_key(p) {
                        let j = choose|j: int| 0 <= j < k && members@[j] == p;
                        assert(0 <= j < i);
                    }
                    if exists|j: int| 0 <= j < i && members@[j] == p {
                        let j = choose|j: int| 0 <= j < i && members@[j] == p;
                        if j < k {
                            assert(map_before.contains_key(p));
                        }
                    }
                    if p == pid {
                        assert(0 <= k < i && members@[k] == p);
                    }
                }
            }
        }
        proof {
            assert forall|p: i32| #[trigger] members@.contains(p) <==> pids0.contains(p) by {
                assert(members@.to_set().contains(p) == members@.contains(p));
            }
            assert forall|p: i32| #[trigger] terminate@.to_set().contains(p) <==> to_terminate(pids0, started0).contains(p) by {
                assert(terminate@.to_set().contains(p) == terminate@.contains(p));
                if pids0.contains(p) && !started0.contains_key(p) {
                    assert(members@.contains(p));
                    let j = choose|j: int| 0 <= j < members@.len() && members@[j] == p;
                    assert(exists|j2: int| 0 <= j2 < i && members@[j2] == p && !started0.contains_key(p));
                }
                if terminate@.contains(p) {
                    let j = choose|j: int| 0 <= j < i && members@[j] == p && !started0.contains_key(p);
                    assert(members@.contains(p));
                }
            }
            assert forall|p: i32| #[trigger] kill@.to_set().contains(p) <==> to_kill(pids0, started0, now, timeout).contains(p) by {
                assert(kill@.to_set().contains(p) == kill@.contains(p));
                if pids0.contains(p) && started0.contains_key(p) && waited(now, started0[p], timeout) {
                    assert(members@.contains(p));
                    let j = choose|j: int| 0 <= j < members@.len() && members@[j] == p;
                    assert(exists|j2: int|
                        0 <= j2 < i && members@[j2] == p && started0.contains_key(p) && waited(
                            now,
                            started0[p],
                            timeout,
                        ));
                }
                if kill@.contains(p) {
                    let j = choose|j: int|
                        0 <= j < i && members@[j] == p && started0.contains_key(p) && waited(
                            now,
                            started0[p],
                            timeout,
                        );
                    assert(members@.contains(p));
                }
            }
            assert(terminate@.to_set() =~= to_terminate(pids0, started0));
            assert(kill@.to_set() =~= to_kill(pids0, started0, now, timeout));
            assert forall|p: i32| #[trigger] self.term_started@.contains_key(p) <==> started_after(pids0, started0, now).contains_key(p) by {
                if pids0.contains(p) {
                    assert(members@.contains(p));
                    let j = choose|j: int| 0 <= j < members@.len() && members@[j] == p;
                    assert(exists|j2: int| 0 <= j2 < i && members@[j2] == p);
                }
                if exists|j: int| 0 <= j < i && members@[j] == p {
                    let j = choose|j: int| 0 <= j < i && members@[j] == p;
                    assert(members@.contains(p));
                }
            }
            assert(self.term_started@ =~= started_after(pids0, started0, now));
        }
        CloseRound { addresses, terminate, kill }
    }

    /// Whether the run closes anything when it starts: not in a dry run, which only lists
    /// what would be closed.
    pub fn starts_closing(&self) -> (r: bool)
        ensures
            r == !self.config.behavior.dry_run,
    {
        !self.config.behavior.dry_run
    }

    /// Record `now` as the time of the last round of closing; nothing else changes.
    pub fn mark_retry(&mut self, now: u64)
        ensures
            final(self).last_retry == now,
            final(self).pids == old(self).pids,
            final(self).hypr_children == old(self).hypr_children,
            final(self).addresses == old(self).addresses,
            final(self).apps == old(self).apps,
            final(self).term_started == old(self).term_started,
            final(self).config == old(self).config,
    {
        self.last_retry = now;
    }

    /// The step to take after a poll that found `alive` of the processes to close still running.
    pub fn tick_step(&self, alive: usize, now: u64, retry_ms: u64) -> (r: TickStep)
        ensures
            r == tick_step_of(self.config.behavior.dry_run, alive as nat, now, self.last_retry, retry_ms),
    {
        if self.config.behavior.dry_run {
            TickStep::Wait
        } else if alive == 0 {
            TickStep::Finish
        } else if has_waited(now, self.last_retry, retry_ms) {
            TickStep::Retry
        } else {
            TickStep::Wait
        }
    }

    /// What ending the run does. A dry run does nothing. A forced end kills every process to
    /// close. Otherwise the post command is run and, unless the configuration says not to,
    /// the compositor is told to exit.
    pub fn finish_plan(&self, force: bool) -> (r: FinishPlan)
        ensures
            self.config.behavior.dry_run ==> r.kill@.len() == 0 && r.post_command is None && !r.exit_session,
            !self.config.behavior.dry_run && force ==> r.kill@.to_set() == self.pids@ && r.kill@.no_duplicates()
                && r.post_command is None && !r.exit_session,
            !self.config.behavior.dry_run && !force ==> r.kill@.len() == 0 && opt_text(r.post_command)
                == opt_text(self.config.commands.post) && r.exit_session == !self.config.behavior.no_exit,
    {
        if self.config.behavior.dry_run {
            return FinishPlan { kill: Vec::new(), post_command: None, exit_session: false };
        }
        if force {
            FinishPlan { kill: set_members(&self.pids), post_command: None, exit_session: false }
        } else {
            let post_command = match &self.config.commands.post {
                Some(c) => Some(c.clone()),
                None => None,
            };
            FinishPlan { kill: Vec::new(), post_command, exit_session: !self.config.behavior.no_exit }
        }
    }
}

/// An optional string by its characters.
pub open spec fn opt_text(o: Option<String>) -> Option<Seq<char>> {
    match o {
        Some(s) => Some(s@),
        None => None,
    }
}

/// What `serde_json` makes of the text of `hyprctl -j instances`: for each element of the
/// JSON array, its `"pid"` field read as an `i64`; nothing when the text is not a JSON array.
pub uninterp spec fn json_instance_pids(raw: Seq<char>) -> Option<Seq<Option<i64>>>;

/// An optional list by its elements.
pub open spec fn opt_list(o: Option<Vec<Option<i64>>>) -> Option<Seq<Option<i64>>> {
    match o {
        Some(v) => Some(v@),
        None => None,
    }
}

/// Reads `raw` with `serde_json::from_str::<Vec<serde_json::Value>>`, then the `"pid"` field
/// of each element with `Value::get` and `Value::as_i64`. The contract claims only that the
/// answer is a fixed function of the text, `json_instance_pids`; what JSON that function
/// accepts is not stated.
#[verifier::external_body]
fn read_instance_pids(raw: &str) -> (r: Option<Vec<Option<i64>>>)
    ensures
        opt_list(r) == json_instance_pids(raw@),
{
    match serde_json::from_str::<Vec<serde_json::Value>>(raw) {
        Ok(items) => Some(items.iter().map(|i| i.get("pid").and_then(|v| v.as_i64())).collect()),
        Err(_) => None,
    }
}

/// The pid of the first instance that gives one, cut to 32 bits as `as i32` cuts it.
pub open spec fn first_pid(pids: Seq<Option<i64>>) -> Option<i32>
    decreases pids.len(),
{
    if pids.len() == 0 {
        None
    } else {
        match pids[0] {
            Some(p) => Some(p as i32),
            None => first_pid(pids.drop_first()),
        }
    }
}

/// The pid of the first compositor instance that gives one.
pub fn first_instance_pid(pids: &Vec<Option<i64>>) -> (r: Option<i32>)
    ensures
        r == first_pid(pids@),
{
    let mut i: usize = 0;
    assert(pids@.skip(0) =~= pids@);
    while i < pids.len()
        invariant
            i <= pids.len(),
            first_pid(pids@) == first_pid(pids@.skip(i as int)),
        decreases pids.len() - i,
    {
        proof {
            assert(pids@.skip(i as int)[0] == pids@[i as int]);
            assert(pids@.skip(i as int).drop_first() =~= pids@.skip(i + 1));
        }
        if let Some(p) = pids[i] {
            return Some(p as i32);
        }
        i = i + 1;
    }
    proof {
        assert(pids@.skip(i as int).len() == 0);
    }
    None
}

/// The pid of the running compositor, from the text of `hyprctl -j instances`.
pub fn instance_pid(raw: &str) -> (r: Option<i32>)
    ensures
        r == match json_instance_pids(raw@) {
            Some(pids) => first_pid(pids),
            None => None,
        },
{
    match read_instance_pids(raw) {
        Some(pids) => first_instance_pid(&pids),
        None => None,
    }
}

/// Whether `/proc/<pid>` exists, by `std::path::Path::exists`. Nothing is claimed of the
/// answer: it depends on the processes running when it is asked.
#[verifier::external_body]
fn proc_entry_exists(pid: i32) -> bool {
    std::path::Path::new(&format!("/proc/{pid}")).exists()
}

/// How many of `flags` are set.
pub open spec fn count_set(flags: Seq<bool>) -> nat
    decreases flags.len(),
{
    if flags.len() == 0 {
        0
    } else {
        count_set(flags.drop_last()) + if flags.last() {
            1nat
        } else {
            0nat
        }
    }
}

/// No more flags are set than there are flags.
pub proof fn lemma_count_set_bound(flags: Seq<bool>)
    ensures
        count_set(flags) <= flags.len(),
    decreases flags.len(),
{
    if flags.len() > 0 {
        lemma_count_set_bound(flags.drop_last());
    }
}

/// How many processes are running, from one answer per process.
pub fn count_running(running: &Vec<bool>) -> (n: usize)
    ensures
        n == count_set(running@),
{
    let mut n: usize = 0;
    let mut i: usize = 0;
    while i < running.len()
        invariant
            i <= running.len(),
            n == count_set(running@.take(i as int)),
            n <= i,
        decreases running.len() - i,
    {
        assert(running@.take(i + 1).drop_last() =~= running@.take(i as int));
        if running[i] {
            n = n + 1;
        }
        i = i + 1;
    }
    assert(running@.take(i as int) =~= running@);
    n
}

/// How many of `pids` are still running, that is, still have an entry in `/proc`: each is
/// looked up once, and the answers are counted.
pub fn alive(pids: &HashSet<i32>) -> (n: usize)
    ensures
        n <= pids@.len(),
{
    let members = set_members(pids);
    proof {
        members@.unique_seq_to_set();
    }
    let mut running: Vec<bool> = Vec::new();
    let mut i: usize = 0;
    while i < members.len()
        invariant
            i <= members.len(),
            running@.len() == i,
        decreases members.len() - i,
    {
        running.push(proc_entry_exists(members[i]));
        i = i + 1;
    }
    let n = count_running(&running);
    proof {
        lemma_count_set_bound(running@);
    }
    n
}

} // verus!
