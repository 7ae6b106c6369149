//! Finding the processes of the session from a snapshot of `/proc`.
use vstd::prelude::*;
use crate::text::{chars_of, has_prefix, find_char, find_from, lemma_find_from, lemma_rfind_below, next_word, parse_i32, parse_i32_range, range_equals, rfind, rfind_char, trim, trim_bounds, words_from};
use crate::cgroup::{cgroup_of, parse_cgroup};
use std::collections::HashSet;

verus! {

broadcast use vstd::std_specs::hash::group_hash_axioms;

/// What `/proc` showed of one of its entries: the entry's name, and the text of its
/// `comm`, `cgroup` and `stat` files where they could be read.
pub struct ProcEntry {
    pub name: String,
    pub comm: Option<String>,
    pub cgroup: Option<String>,
    pub stat: Option<String>,
}

/// The daemons that are left running: a process whose command name is one of these.
pub open spec fn is_ignored_name(name: Seq<char>) -> bool {
    name == "Xwayland"@
}

/// The text of a `stat` file can be cut where the command name ends: when it has both a
/// `'('` and a `')'`, the first `'('` comes before the last `')'`, and a one-byte
/// character follows that `')'`.
pub open spec fn stat_is_sliceable(s: Seq<char>) -> bool {
    match (find_from(s, '(', 0), rfind(s, ')')) {
        (Some(o), Some(e)) => o < e && e + 1 < s.len() && (s[e + 1 as int] as u32) < 0x80,
        _ => true,
    }
}

/// The command name of a `stat` text (between its first `'('` and its last `')'`), and its
/// parent pid: the second word after the character that follows that `')'`, read as an `i32`.
pub open spec fn stat_parts(s: Seq<char>) -> Option<(Seq<char>, Option<i32>)> {
    match (find_from(s, '(', 0), rfind(s, ')')) {
        (Some(o), Some(e)) => {
            let w = words_from(s, e + 2);
            Some(
                (
                    s.subrange(o + 1 as int, e as int),
                    if w.len() >= 2 {
                        parse_i32(w[1])
                    } else {
                        None
                    },
                ),
            )
        },
        _ => None,
    }
}

/// The (pid, parent pid) link that an entry's `stat` file gives, for an entry whose name is a
/// pid and whose command is not one of the ignored daemons.
pub open spec fn entry_link(e: ProcEntry) -> Option<(i32, i32)> {
    match parse_i32(e.name@) {
        None => None,
        Some(pid) => match e.stat {
            None => None,
            Some(st) => match stat_parts(st@) {
                Some((comm, Some(ppid))) => if is_ignored_name(comm) {
                    None
                } else {
                    Some((pid, ppid))
                },
                _ => None,
            },
        },
    }
}

/// The `stat` file of an entry whose name is a pid can be cut as the walk over parents cuts it.
pub open spec fn entry_is_sliceable(e: ProcEntry) -> bool {
    parse_i32(e.name@) is Some ==> match e.stat {
        Some(st) => stat_is_sliceable(st@),
        None => true,
    }
}

/// A `comm` file that names one of the ignored daemons, once trimmed.
pub open spec fn comm_ignored(comm: Option<String>) -> bool {
    match comm {
        Some(c) => is_ignored_name(trim(c@)),
        None => false,
    }
}

/// Whether `name` is one of the daemons that are left running.
fn name_is_ignored(v: &Vec<char>, from: usize, to: usize) -> (r: bool)
    requires
        from <= to <= v.len(),
    ensures
        r == is_ignored_name(v@.subrange(from as int, to as int)),
{
    let w = chars_of("Xwayland");
    range_equals(v, from, to, &w)
}

/// Whether the text of a `comm` file names one of the ignored daemons.
pub fn is_ignored_daemon(comm: &Option<String>) -> (r: bool)
    ensures
        r == comm_ignored(*comm),
{
    match comm {
        Some(c) => {
            let v = chars_of(c.as_str());
            let (a, b) = trim_bounds(&v);
            name_is_ignored(&v, a, b)
        },
        None => false,
    }
}

/// The command name (as a range of `v`) and the parent pid that a `stat` text gives.
fn parse_stat(v: &Vec<char>) -> (r: Option<(usize, usize, Option<i32>)>)
    requires
        stat_is_sliceable(v@),
    ensures
        match r {
            None => stat_parts(v@) is None,
            Some((a, b, ppid)) => a <= b <= v.len() && stat_parts(v@) == Some(
                (v@.subrange(a as int, b as int), ppid),
            ),
        },
{
    let open = find_char(v, '(', 0);
    let end = rfind_char(v, ')');
    match (open, end) {
        (Some(o), Some(e)) => {
            proof {
                lemma_find_from(v@, '(', 0);
                lemma_rfind_below(v@, ')', v@.len());
                assert(find_from(v@, '(', 0) == Some(o as nat));
                assert(rfind(v@, ')') == Some(e as nat));
                assert(e + 1 < v.len());
            }
            let ppid = match next_word(v, e + 2) {
                None => None,
                Some((_a0, b0)) => match next_word(v, b0) {
                    None => None,
                    Some((a1, b1)) => parse_i32_range(v, a1, b1),
                },
            };
            Some((o + 1, e, ppid))
        },
        _ => None,
    }
}

/// The (pid, parent pid) link of an entry, as `entry_link` gives it.
pub fn link_of(e: &ProcEntry) -> (r: Option<(i32, i32)>)
    requires
        entry_is_sliceable(*e),
    ensures
        r == entry_link(*e),
{
    let name = chars_of(e.name.as_str());
    let pid = match parse_i32_range(&name, 0, name.len()) {
        None => {
            proof {
                assert(name@.subrange(0, name@.len() as int) =~= e.name@);
            }
            return None;
        },
        Some(p) => p,
    };
    proof {
        assert(name@.subrange(0, name@.len() as int) =~= e.name@);
    }
    match &e.stat {
        None => None,
        Some(st) => {
            let v = chars_of(st.as_str());
            match parse_stat(&v) {
                None => None,
                Some((a, b, ppid)) => match ppid {
                    None => None,
                    Some(pp) => {
                        if name_is_ignored(&v, a, b) {
                            None
                        } else {
                            Some((pid, pp))
                        }
                    },
                },
            }
        },
    }
}

/// Some entry links `child` to `parent`.
pub open spec fn has_link(entries: Seq<ProcEntry>, parent: i32, child: i32) -> bool {
    exists|i: int| 0 <= i < entries.len() && entry_link(entries[i]) == Some((child, parent))
}

/// `chain` leads from `root` down through parent links: each element is a child of the one
/// before it.
pub open spec fn is_chain(entries: Seq<ProcEntry>, root: i32, chain: Seq<i32>) -> bool {
    &&& chain.len() >= 2
    &&& chain[0] == root
    &&& forall|k: int| 0 <= k < chain.len() - 1 ==> #[trigger] has_link(entries, chain[k], chain[k + 1])
}

/// `x` descends from `root` through one or more parent links.
pub open spec fn descends(entries: Seq<ProcEntry>, root: i32, x: i32) -> bool {
    exists|chain: Seq<i32>| #[trigger] is_chain(entries, root, chain) && chain.last() == x
}

/// The processes that descend from `root` through parent links.
pub open spec fn descendant_set(entries: Seq<ProcEntry>, root: i32) -> Set<i32> {
    Set::new(|x: i32| descends(entries, root, x))
}

/// A set that holds every child of `root` and of its own members holds every descendant.
proof fn lemma_closed_set_holds_chain(
    entries: Seq<ProcEntry>,
    root: i32,
    f: Set<i32>,
    chain: Seq<i32>,
)
    requires
        is_chain(entries, root, chain),
        forall|p: i32, c: i32|
            (p == root || f.contains(p)) && #[trigger] has_link(entries, p, c) ==> f.contains(c),
    ensures
        f.contains(chain.last()),
    decreases chain.len(),
{
    let n = chain.len() as int;
    let k = n - 2;
    assert(has_link(entries, chain[k], chain[k + 1]));
    if n > 2 {
        let shorter = chain.drop_last();
        assert forall|k: int| 0 <= k < shorter.len() - 1 implies #[trigger] has_link(
            entries,
            shorter[k],
            shorter[k + 1],
        ) by {
            assert(has_link(entries, chain[k], chain[k + 1]));
        }
        lemma_closed_set_holds_chain(entries, root, f, shorter);
    }
}

/// The pid of a child in a link, or `root` for an entry that gives no link.
pub open spec fn child_or(e: ProcEntry, root: i32) -> i32 {
    match entry_link(e) {
        Some((c, _)) => c,
        None => root,
    }
}

/// The child pids of all links, with `root` in place of entries that give none.
pub open spec fn link_children(es: Seq<ProcEntry>, root: i32) -> Seq<i32> {
    es.map_values(|e: ProcEntry| child_or(e, root))
}

/// Walk parent links down from `root` and collect every process below it; processes of the
/// ignored daemons are neither collected nor walked through.
pub fn ppid_descendants(root: i32, entries: &Vec<ProcEntry>) -> (found: HashSet<i32>)
    requires
        forall|i: int| 0 <= i < entries.len() ==> entry_is_sliceable(#[trigger] entries@[i]),
    ensures
        found@ == descendant_set(entries@, root),
{
    let ghost es = entries@;
    let ghost cand = link_children(es, root).to_set();
    let mut found: HashSet<i32> = HashSet::new();
    let mut pending: Vec<i32> = Vec::new();
    pending.push(root);
    assert(pending@[0] == root);
    proof {
        vstd::seq_lib::seq_to_set_is_finite(link_children(es, root));
    }
    loop
        invariant
            es == entries@,
            forall|i: int| 0 <= i < entries.len() ==> entry_is_sliceable(#[trigger] entries@[i]),
            cand == link_children(es, root).to_set(),
            cand.finite(),
            found@.subset_of(cand),
            forall|x: i32| found@.contains(x) ==> descends(es, root, x),
            forall|k: int| 0 <= k < pending.len() ==> pending@[k] == root || found@.contains(
                pending@[k],
            ),
            forall|p: i32, c: i32|
                (p == root || found@.contains(p)) && !pending@.contains(p) && #[trigger] has_link(
                    es,
                    p,
                    c,
                ) ==> found@.contains(c),
        ensures
            pending@.len() == 0,
        decreases pending.len() + 2 * (cand.len() - found@.len()),
    {
        proof {
            vstd::set_lib::lemma_len_subset(found@, cand);
        }
        let ghost pending0 = pending@;
        let ghost found0 = found@;
        let parent = match pending.pop() {
            None => break,
            Some(p) => p,
        };
        assert(pending0 == pending@.push(parent));
        proof {
            assert forall|p: i32, c: i32|
                p != parent && (p == root || found@.contains(p)) && !pending@.contains(p)
                    && #[trigger] has_link(es, p, c) implies found@.contains(c) by {
                if pending0.contains(p) {
                    let k = choose|k: int| 0 <= k < pending0.len() && pending0[k] == p;
                    assert(pending@[k] == p);
                }
            }
        }
        let mut j: usize = 0;
        while j < entries.len()
            invariant
                es == entries@,
                forall|i: int| 0 <= i < entries.len() ==> entry_is_sliceable(#[trigger] entries@[i]),
                parent == root || found0.contains(parent),
                cand == link_children(es, root).to_set(),
                cand.finite(),
                found0.subset_of(found@),
                found@.subset_of(cand),
                pending@.len() + found0.len() == pending0.len() - 1 + found@.len(),
                pending@.len() >= pending0.len() - 1,
                forall|k: int| 0 <= k < pending0.len() - 1 ==> pending@[k] == pending0[k],
                forall|x: i32| found@.contains(x) ==> descends(es, root, x),
                forall|k: int| 0 <= k < pending.len() ==> pending@[k] == root || found@.contains(
                    pending@[k],
                ),
                forall|p: i32, c: i32|
                    p != parent && (p == root || found@.contains(p)) && !pending@.contains(p)
                        && #[trigger] has_link(es, p, c) ==> found@.contains(c),
                forall|i: int|
                    0 <= i < j ==> match entry_link(#[trigger] es[i]) {
                        Some((c, pp)) => pp == parent ==> found@.contains(c),
                        None => true,
                    },
            decreases entries.len() - j,
        {
            let link = link_of(&entries[j]);
            match link {
                Some((c, pp)) => {
                    if pp == parent {
                        proof {
                            assert(has_link(es, parent, c));
                            assert(link_children(es, root)[j as int] == c);
                            assert(link_children(es, root).contains(c));
                            assert(cand.contains(c));
                            if parent == root {
                                let ch = seq![root, c];
                                assert(has_link(es, ch[0], ch[1]));
                                assert(is_chain(es, root, ch));
                            } else {
                                let ch0 = choose|ch: Seq<i32>|
                                    #[trigger] is_chain(es, root, ch) && ch.last() == parent;
                                let ch = ch0.push(c);
                                assert forall|k: int| 0 <= k < ch.len() - 1 implies #[trigger] has_link(
                                    es,
                                    ch[k],
                                    ch[k + 1],
                                ) by {
                                    if k < ch0.len() - 1 {
                                        assert(has_link(es, ch0[k], ch0[k + 1]));
                                    }
                                }
                                assert(is_chain(es, root, ch));
                            }
                            assert(descends(es, root, c));
                        }
                        let ghost before = found@;
                        let ghost pending_before = pending@;
                        if found.insert(c) {
                            pending.push(c);
                            proof {
                                vstd::set_lib::lemma_set_subset_finite(cand, before);
                            }
                        }
                        proof {
                            assert forall|p: i32, c2: i32|
                                p != parent && (p == root || found@.contains(p)) && !pending@.contains(p)
                                    && #[trigger] has_link(es, p, c2) implies found@.contains(c2) by {
                                if pending_before.contains(p) {
                                    let k = choose|k: int|
                                        0 <= k < pending_before.len() && pending_before[k] == p;
                                    assert(pending@[k] == p);
                                }
                                if p == c && !before.contains(c) {
                                    assert(pending@[pending@.len() - 1] == p);
                                }
                            }
                        }
                    }
                },
                None => {},
            }
            j = j + 1;
        }
        proof {
            vstd::set_lib::lemma_set_subset_finite(cand, found@);
            vstd::set_lib::lemma_len_subset(found0, found@);
            vstd::set_lib::lemma_len_subset(found@, cand);
            assert forall|p: i32, c: i32|
                (p == root || found@.contains(p)) && !pending@.contains(p) && #[trigger] has_link(
                    es,
                    p,
                    c,
                ) implies found@.contains(c) by {
                if p == parent {
                    let i = choose|i: int|
                        0 <= i < es.len() && entry_link(es[i]) == Some((c, p));
                    assert(entry_link(es[i]) == Some((c, p)));
                }
            }
        }
    }
    proof {
        assert forall|p: i32, c: i32|
            (p == root || found@.contains(p)) && #[trigger] has_link(es, p, c) implies found@.contains(
            c,
        ) by {
            assert(!pending@.contains(p));
        }
        assert forall|x: i32| descends(es, root, x) implies found@.contains(x) by {
            let ch = choose|ch: Seq<i32>| #[trigger] is_chain(es, root, ch) && ch.last() == x;
            lemma_closed_set_holds_chain(es, root, found@, ch);
        }
        assert(found@ =~= descendant_set(es, root));
    }
    found
}

/// The cgroup of the session's root process, unless there is none or it is the root cgroup
/// `"/"`, which no session owns.
pub open spec fn session_cgroup(root_cgroup: Option<String>) -> Option<Seq<char>> {
    match root_cgroup {
        None => None,
        Some(t) => match cgroup_of(t@) {
            Some(p) => if p == "/"@ {
                None
            } else {
                Some(p)
            },
            None => None,
        },
    }
}

/// `path` is the cgroup `cg` or lies below it.
pub open spec fn within_cgroup(path: Seq<char>, cg: Seq<char>) -> bool {
    path == cg || cg.push('/').is_prefix_of(path)
}

/// The pid of an entry that belongs to the session cgroup `cg`: its name is a pid other than
/// `root`, its `comm` is not an ignored daemon, and its cgroup lies within `cg`.
pub open spec fn cgroup_member(e: ProcEntry, root: i32, cg: Seq<char>) -> Option<i32> {
    match parse_i32(e.name@) {
        None => None,
        Some(pid) => {
            let inside = match e.cgroup {
                Some(t) => match cgroup_of(t@) {
                    Some(p) => within_cgroup(p, cg),
                    None => false,
                },
                None => false,
            };
            if pid != root && !comm_ignored(e.comm) && inside {
                Some(pid)
            } else {
                None
            }
        },
    }
}

/// The pids of the entries that belong to the session cgroup `cg`.
pub open spec fn cgroup_member_set(entries: Seq<ProcEntry>, root: i32, cg: Seq<char>) -> Set<i32> {
    Set::new(
        |x: i32| exists|i: int| 0 <= i < entries.len() && cgroup_member(entries[i], root, cg) == Some(x),
    )
}

/// Whether process discovery falls back to the walk over parent links: the session has no
/// cgroup of its own, or no other process is found in it.
pub open spec fn walks_parents(root: i32, root_cgroup: Option<String>, entries: Seq<ProcEntry>) -> bool {
    match session_cgroup(root_cgroup) {
        None => true,
        Some(cg) => forall|i: int| 0 <= i < entries.len() ==> #[trigger] cgroup_member(entries[i], root, cg) is None,
    }
}

/// The processes to tear down along with the session rooted at `root`.
pub open spec fn session_set(root: i32, root_cgroup: Option<String>, entries: Seq<ProcEntry>) -> Set<i32> {
    if walks_parents(root, root_cgroup, entries) {
        descendant_set(entries, root)
    } else {
        cgroup_member_set(entries, root, session_cgroup(root_cgroup)->0)
    }
}

/// Whether an entry belongs to the session cgroup `cg`, and its pid if it does.
fn member_of(e: &ProcEntry, root: i32, cg: &Vec<char>, cg_dir: &Vec<char>) -> (r: Option<i32>)
    requires
        cg_dir@ == cg@.push('/'),
    ensures
        r == cgroup_member(*e, root, cg@),
{
    let name = chars_of(e.name.as_str());
    proof {
        assert(name@.subrange(0, name@.len() as int) =~= e.name@);
    }
    let pid = match parse_i32_range(&name, 0, name.len()) {
        None => return None,
        Some(p) => p,
    };
    if pid == root || is_ignored_daemon(&e.comm) {
        return None;
    }
    let path = match &e.cgroup {
        None => return None,
        Some(t) => match parse_cgroup(t.as_str()) {
            None => return None,
            Some(p) => p,
        },
    };
    let pv = chars_of(path.as_str());
    let inside = range_equals(&pv, 0, pv.len(), cg) || has_prefix(&pv, cg_dir);
    proof {
        assert(pv@.subrange(0, pv@.len() as int) =~= pv@);
    }
    if inside {
        Some(pid)
    } else {
        None
    }
}

/// Whether the `stat` text of an entry can be cut where the walk over parents cuts it.
fn entry_sliceable(e: &ProcEntry) -> (r: bool)
    ensures
        r == entry_is_sliceable(*e),
{
    let name = chars_of(e.name.as_str());
    proof {
        assert(name@.subrange(0, name@.len() as int) =~= e.name@);
    }
    if parse_i32_range(&name, 0, name.len()).is_none() {
        return true;
    }
    match &e.stat {
        None => true,
        Some(st) => {
            let v = chars_of(st.as_str());
            match (find_char(&v, '(', 0), rfind_char(&v, ')')) {
                (Some(o), Some(c)) => {
                    proof {
                        lemma_rfind_below(v@, ')', v@.len());
                        assert(rfind(v@, ')') == Some(c as nat));
                        assert(c < v.len());
                    }
                    o < c && c + 1 < v.len() && (v[c + 1] as u32) < 0x80
                },
                _ => true,
            }
        },
    }
}

/// Whether process discovery can read `entries` without failing: the walk over parent links
/// is not needed, or every `stat` text can be cut where it cuts it.
pub fn session_scan_is_safe(root: i32, root_cgroup: &Option<String>, entries: &Vec<ProcEntry>) -> (r: bool)
    ensures
        r == (walks_parents(root, *root_cgroup, entries@) ==> forall|i: int|
            0 <= i < entries.len() ==> entry_is_sliceable(#[trigger] entries@[i])),
{
    if session_cgroup_members(root, root_cgroup, entries).is_some() {
        return true;
    }
    let mut i: usize = 0;
    while i < entries.len()
        invariant
            i <= entries.len(),
            walks_parents(root, *root_cgroup, entries@),
            forall|j: int| 0 <= j < i ==> entry_is_sliceable(#[trigger] entries@[j]),
        decreases entries.len() - i,
    {
        if !entry_sliceable(&entries[i]) {
            assert(!entry_is_sliceable(entries@[i as int]));
            return false;
        }
        i = i + 1;
    }
    true
}

/// The members of the session cgroup other than its root, where the session has a cgroup of
/// its own and some other process is found in it; nothing otherwise.
pub fn session_cgroup_members(root: i32, root_cgroup: &Option<String>, entries: &Vec<ProcEntry>) -> (r: Option<HashSet<i32>>)
    ensures
        r is None <==> walks_parents(root, *root_cgroup, entries@),
        r matches Some(found) ==> found@ == cgroup_member_set(entries@, root, session_cgroup(*root_cgroup)->0),
{
    let cgroup = match root_cgroup {
        None => None,
        Some(t) => match parse_cgroup(t.as_str()) {
            None => None,
            Some(p) => {
                let pv = chars_of(p.as_str());
                let slash = chars_of("/");
                proof {
                    assert(pv@.subrange(0, pv@.len() as int) =~= pv@);
                }
                if range_equals(&pv, 0, pv.len(), &slash) {
                    None
                } else {
                    Some(pv)
                }
            },
        },
    };
    assert(match cgroup {
        Some(v) => session_cgroup(*root_cgroup) == Some(v@),
        None => session_cgroup(*root_cgroup) is None,
    });
    let cg = match cgroup {
        None => return None,
        Some(cg) => cg,
    };
    let mut cg_dir = cg.clone();
    cg_dir.push('/');
    proof {
        assert(cg_dir@ == cg@.push('/'));
    }
    let mut found: HashSet<i32> = HashSet::new();
    let mut j: usize = 0;
    while j < entries.len()
        invariant
            cg_dir@ == cg@.push('/'),
            j <= entries.len(),
            forall|x: i32| #[trigger] found@.contains(x) <==> exists|i: int|
                0 <= i < j && cgroup_member(entries@[i], root, cg@) == Some(x),
        decreases entries.len() - j,
    {
        let m = member_of(&entries[j], root, &cg, &cg_dir);
        match m {
            Some(pid) => {
                found.insert(pid);
            },
            None => {},
        }
        proof {
            assert forall|x: i32| #[trigger] found@.contains(x) <==> exists|i: int|
                0 <= i < j + 1 && cgroup_member(entries@[i], root, cg@) == Some(x) by {
                if found@.contains(x) && m != Some(x) {
                    let i = choose|i: int| 0 <= i < j && cgroup_member(entries@[i], root, cg@) == Some(x);
                    assert(0 <= i < j + 1);
                }
                if m == Some(x) {
                    assert(cgroup_member(entries@[j as int], root, cg@) == Some(x));
                }
                if exists|i: int| 0 <= i < j + 1 && cgroup_member(entries@[i], root, cg@) == Some(x) {
                    let i = choose|i: int| 0 <= i < j + 1 && cgroup_member(entries@[i], root, cg@) == Some(x);
                    if i == j {
                        assert(m == Some(x));
                    }
                }
            }
        }
        j = j + 1;
    }
    if found.is_empty() {
        proof {
            assert forall|i: int| 0 <= i < entries.len() implies #[trigger] cgroup_member(entries@[i], root, cg@) is None by {
                if let Some(x) = cgroup_member(entries@[i], root, cg@) {
                    assert(found@.contains(x));
                }
            }
        }
        return None;
    }
    proof {
        let x = found@.choose();
        assert(found@.contains(x));
        let i = choose|i: int| 0 <= i < entries.len() && cgroup_member(entries@[i], root, cg@) == Some(x);
        assert(cgroup_member(entries@[i], root, cg@) is Some);
        assert(found@ =~= cgroup_member_set(entries@, root, cg@));
    }
    Some(found)
}

/// Find the processes to tear down along with the session.
///
/// The session cgroup is enumerated first: unlike a walk over parent pids it still catches
/// processes that daemonized and were re-parented away from the root. The walk over parent
/// links is the fallback when there is no usable cgroup or nothing is found in it.
pub fn session_descendants(root: i32, root_cgroup: &Option<String>, entries: &Vec<ProcEntry>) -> (found: HashSet<i32>)
    requires
        walks_parents(root, *root_cgroup, entries@) ==> forall|i: int|
            0 <= i < entries.len() ==> entry_is_sliceable(#[trigger] entries@[i]),
    ensures
        found@ == session_set(root, *root_cgroup, entries@),
{
    match session_cgroup_members(root, root_cgroup, entries) {
        Some(found) => found,
        None => ppid_descendants(root, entries),
    }
}

} // verus!
