//! Reading the cgroup of a process from the text of `/proc/<pid>/cgroup`.
use vstd::prelude::*;
use crate::text::{find_from, lemma_find_from, opt_chars, chars_of, find_char, copy_range};

verus! {

/// Where the line that starts at `from` ends: at its `'\n'`, or at the end of `s`.
pub open spec fn line_end(s: Seq<char>, from: nat) -> nat {
    match find_from(s, '\n', from) {
        Some(i) => i,
        None => s.len(),
    }
}

/// The text of the line `s[from..end]`; a `'\r'` right before its `'\n'` is not part of it.
pub open spec fn line_text(s: Seq<char>, from: nat, end: nat) -> Seq<char> {
    let l = s.subrange(from as int, end as int);
    if end < s.len() && l.len() > 0 && l.last() == '\r' {
        l.drop_last()
    } else {
        l
    }
}

/// The lines of `s[from..]`, split as `str::lines` splits them: at `"\n"` or `"\r\n"`,
/// with no empty line after a final line ending.
pub open spec fn lines_from(s: Seq<char>, from: nat) -> Seq<Seq<char>>
    decreases s.len() - from,
{
    if from >= s.len() {
        seq![]
    } else {
        let e = line_end(s, from);
        proof {
            lemma_find_from(s, '\n', from);
        }
        if e < s.len() {
            seq![line_text(s, from, e)] + lines_from(s, e + 1)
        } else {
            seq![line_text(s, from, e)]
        }
    }
}

/// The lines of `s`.
pub open spec fn lines(s: Seq<char>) -> Seq<Seq<char>> {
    lines_from(s, 0)
}

/// The controller list and the path of a line `<hierarchy-id>:<controllers>:<path>`:
/// the text between its first and second `':'`, and the text after the second.
pub open spec fn cgroup_fields(line: Seq<char>) -> Option<(Seq<char>, Seq<char>)> {
    match find_from(line, ':', 0) {
        None => None,
        Some(k) => match find_from(line, ':', k + 1) {
            None => None,
            Some(j) => Some(
                (line.subrange(k + 1 as int, j as int), line.subrange(j + 1 as int, line.len() as int)),
            ),
        },
    }
}

/// The path of the first line of the unified (v2) hierarchy: empty controller list,
/// non-empty path.
pub open spec fn first_unified(ls: Seq<Seq<char>>) -> Option<Seq<char>>
    decreases ls.len(),
{
    if ls.len() == 0 {
        None
    } else {
        match cgroup_fields(ls[0]) {
            Some((c, p)) if c.len() == 0 && p.len() > 0 => Some(p),
            _ => first_unified(ls.drop_first()),
        }
    }
}

/// The path of the first line that has a non-empty path.
pub open spec fn first_with_path(ls: Seq<Seq<char>>) -> Option<Seq<char>>
    decreases ls.len(),
{
    if ls.len() == 0 {
        None
    } else {
        match cgroup_fields(ls[0]) {
            Some((c, p)) if p.len() > 0 => Some(p),
            _ => first_with_path(ls.drop_first()),
        }
    }
}

/// The cgroup path that a `/proc/<pid>/cgroup` text names: the unified hierarchy's
/// path where a line gives one, else the path of the first controller line.
pub open spec fn cgroup_of(text: Seq<char>) -> Option<Seq<char>> {
    match first_unified(lines(text)) {
        Some(p) => Some(p),
        None => first_with_path(lines(text)),
    }
}

/// Splits off the line that starts at `pos`: its last character plus one, and where the
/// next line starts.
fn next_line(v: &Vec<char>, pos: usize) -> (r: (usize, usize))
    requires
        pos < v.len(),
    ensures
        pos <= r.0 <= v.len(),
        pos < r.1 <= v.len(),
        lines_from(v@, pos as nat) == seq![v@.subrange(pos as int, r.0 as int)] + lines_from(
            v@,
            r.1 as nat,
        ),
{
    let n = v.len();
    let e = match find_char(v, '\n', pos) {
        Some(i) => i,
        None => n,
    };
    proof {
        lemma_find_from(v@, '\n', pos as nat);
    }
    let lend = if e < n && e > pos && v[e - 1] == '\r' {
        e - 1
    } else {
        e
    };
    let next = if e < n {
        e + 1
    } else {
        n
    };
    proof {
        assert(v@.subrange(pos as int, lend as int) =~= line_text(v@, pos as nat, e as nat));
        if e >= n {
            assert(lines_from(v@, next as nat) =~= seq![]);
            assert(seq![v@.subrange(pos as int, lend as int)] + lines_from(v@, next as nat)
                =~= seq![v@.subrange(pos as int, lend as int)]);
        }
    }
    (lend, next)
}

/// Where the path of a cgroup line starts, and whether its controller list is empty.
fn line_fields(line: &Vec<char>) -> (r: Option<(bool, usize)>)
    ensures
        match r {
            None => cgroup_fields(line@) is None,
            Some((no_controllers, start)) => {
                &&& start <= line.len()
                &&& cgroup_fields(line@) matches Some((c, p))
                &&& (c.len() == 0) == no_controllers
                &&& p == line@.subrange(start as int, line.len() as int)
            },
        },
{
    proof {
        lemma_find_from(line@, ':', 0);
    }
    match find_char(line, ':', 0) {
        None => None,
        Some(k) => {
            assert(k < line.len());
            proof {
                lemma_find_from(line@, ':', (k + 1) as nat);
            }
            match find_char(line, ':', k + 1) {
                None => None,
                Some(j) => {
                    assert(j < line.len());
                    Some((j == k + 1, j + 1))
                },
            }
        },
    }
}

/// The facts about the head of a list of lines that the two searches read.
proof fn lemma_first_line(l: Seq<char>, rest: Seq<Seq<char>>)
    ensures
        first_unified(seq![l] + rest) == match cgroup_fields(l) {
            Some((c, p)) if c.len() == 0 && p.len() > 0 => Some(p),
            _ => first_unified(rest),
        },
        first_with_path(seq![l] + rest) == match cgroup_fields(l) {
            Some((c, p)) if p.len() > 0 => Some(p),
            _ => first_with_path(rest),
        },
{
    assert((seq![l] + rest).drop_first() =~= rest);
    assert((seq![l] + rest)[0] == l);
}

/// Extract the cgroup path from the contents of `/proc/<pid>/cgroup`.
pub fn parse_cgroup(text: &str) -> (res: Option<String>)
    ensures
        opt_chars(res) == cgroup_of(text@),
{
    let v = chars_of(text);
    let n = v.len();
    let mut pos: usize = 0;
    let mut fallback: Option<(usize, usize)> = None;
    while pos < n
        invariant
            n == v@.len(),
            v@ == text@,
            pos <= n,
            first_unified(lines(v@)) == first_unified(lines_from(v@, pos as nat)),
            match fallback {
                None => first_with_path(lines(v@)) == first_with_path(lines_from(v@, pos as nat)),
                Some((a, b)) => a <= b <= n && first_with_path(lines(v@)) == Some(
                    v@.subrange(a as int, b as int),
                ),
            },
        decreases n - pos,
    {
        let (lend, next) = next_line(&v, pos);
        let line = copy_range(&v, pos, lend);
        proof {
            lemma_first_line(line@, lines_from(v@, next as nat));
        }
        match line_fields(&line) {
            None => {},
            Some((no_controllers, start)) => {
                let path_start = pos + start;
                proof {
                    assert(line@.subrange(start as int, line.len() as int) =~= v@.subrange(
                        path_start as int,
                        lend as int,
                    ));
                }
                if lend > path_start {
                    if no_controllers {
                        return Some(text.substring_char(path_start, lend).to_owned());
                    }
                    if fallback.is_none() {
                        fallback = Some((path_start, lend));
                    }
                }
            },
        }
        pos = next;
    }
    match fallback {
        Some((a, b)) => Some(text.substring_char(a, b).to_owned()),
        None => None,
    }
}

} // verus!
