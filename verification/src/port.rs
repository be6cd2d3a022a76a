//! Which ports can be had, and who holds the others.

use vstd::prelude::*;
use vstd::string::*;

use crate::text::{
    after_prefix, contains, dec, dec_u64, ends_with, has_ending, includes, lines, lines_of, lower,
    read_u32, same_ignoring_case, split_at_char, split_once, starts_with, u32_value, views, words,
    words_of,
};

verus! {

/// The process that holds a port.
#[derive(Debug, Clone)]
pub struct PortOwner {
    pub pid: u32,
    pub name: String,
}

#[derive(Debug, Clone)]
pub struct PortStatus {
    pub port: u16,
    pub free: bool,
    pub owner: Option<PortOwner>,
    /// A port that can be had in place of one that cannot.
    pub suggestion: Option<u16>,
}

/// Whether a port can be had. Port 0 cannot; of the others `can_bind` tells.
pub fn is_free<F: Fn(u16) -> bool>(port: u16, can_bind: &F) -> (r: bool)
    requires
        port != 0 ==> call_requires(*can_bind, (port,)),
    ensures
        if port == 0 {
            !r
        } else {
            call_ensures(*can_bind, (port,), r)
        },
{
    if port == 0 {
        return false;
    }
    can_bind(port)
}

/// The port `by` above `port`; the last port is where it ends.
pub open spec fn above(port: u16, by: int) -> int {
    if port + by > u16::MAX {
        u16::MAX as int
    } else {
        port + by
    }
}

/// The first port that can be had among the sixty above `start`.
pub fn find_free_from<F: Fn(u16) -> bool>(start: u16, can_bind: &F) -> (r: Option<u16>)
    requires
        forall|p: u16| call_requires(*can_bind, (p,)),
    ensures
        match r {
            Some(found) => {
                &&& above(start, 1) <= found <= above(start, 60)
                &&& call_ensures(*can_bind, (found,), true)
                &&& forall|p: u16| above(start, 1) <= p < found ==> call_ensures(*can_bind, (p,), false)
            },
            None => forall|p: u16|
                above(start, 1) <= p <= above(start, 60) ==> call_ensures(*can_bind, (p,), false),
        },
{
    let first: u32 = if start == u16::MAX {
        start as u32
    } else {
        start as u32 + 1
    };
    let last: u32 = if start > u16::MAX - 60 {
        u16::MAX as u32
    } else {
        start as u32 + 60
    };
    let mut p: u32 = first;
    while p <= last
        invariant
            first == above(start, 1),
            last == above(start, 60),
            1 <= first <= p <= last + 1,
            last <= u16::MAX,
            forall|p: u16| call_requires(*can_bind, (p,)),
            forall|q: u16| first <= q < p ==> call_ensures(*can_bind, (q,), false),
        decreases last + 1 - p,
    {
        let port: u16 = p as u16;
        if is_free(port, can_bind) {
            return Some(port);
        }
        p += 1;
    }
    None
}

/// How it stands with a port. The one that is being served on is as good as free.
pub fn inspect<F: Fn(u16) -> bool, G: Fn(u16) -> Option<PortOwner>>(
    port: u16,
    running_on: Option<u16>,
    can_bind: &F,
    owner_of: &G,
) -> (r: PortStatus)
    requires
        forall|p: u16| call_requires(*can_bind, (p,)),
        forall|p: u16| call_requires(*owner_of, (p,)),
    ensures
        r.port == port,
        r.free ==> r.owner is None && r.suggestion is None,
        r.free ==> running_on == Some(port) || (port != 0 && call_ensures(*can_bind, (port,), true)),
        running_on == Some(port) ==> r.free,
        !r.free ==> {
            &&& port == 0 || call_ensures(*can_bind, (port,), false)
            &&& call_ensures(*owner_of, (port,), r.owner)
            &&& match r.suggestion {
                Some(found) => {
                    &&& above(port, 1) <= found <= above(port, 60)
                    &&& call_ensures(*can_bind, (found,), true)
                    &&& forall|p: u16|
                        above(port, 1) <= p < found ==> call_ensures(*can_bind, (p,), false)
                },
                None => forall|p: u16|
                    above(port, 1) <= p <= above(port, 60) ==> call_ensures(*can_bind, (p,), false),
            }
        },
{
    let serving = match running_on {
        Some(p) => p == port,
        None => false,
    };
    if serving || is_free(port, can_bind) {
        return PortStatus { port, free: true, owner: None, suggestion: None };
    }
    PortStatus {
        port,
        free: false,
        owner: owner_of(port),
        suggestion: find_free_from(port, can_bind),
    }
}

// ───────────────────────── the owner of a port ─────────────────────────

/// The process id in a line of `netstat -ano`, where the line tells of somebody who
/// listens on the port.
pub open spec fn line_pid(line: Seq<char>, port: u16) -> Option<u32> {
    let cols = words(line);
    if cols.len() >= 5 && lower(cols[0]) == lower("TCP"@) && lower(cols[3]) == lower("LISTENING"@)
        && ends_with(cols[1], ":"@ + dec(port as nat)) {
        u32_value(cols[4])
    } else {
        None
    }
}

/// The first process id that the lines tell.
pub open spec fn first_pid(list: Seq<Seq<char>>, port: u16) -> Option<u32>
    decreases list.len(),
{
    if list.len() == 0 {
        None
    } else if line_pid(list[0], port) is Some {
        line_pid(list[0], port)
    } else {
        first_pid(list.drop_first(), port)
    }
}

fn pid_in_line(line: &str, port: u16) -> (r: Option<u32>)
    ensures
        r == line_pid(line@, port),
{
    let cols = words_of(line);
    proof {
        assert(views(cols@).len() == cols@.len());
        assert(forall|i: int| 0 <= i < cols@.len() ==> views(cols@)[i] == #[trigger] cols@[i]@);
    }
    if cols.len() < 5 {
        return None;
    }
    let needle = ":".to_owned().concat(dec_u64(port as u64).as_str());
    if same_ignoring_case(cols[0].as_str(), "TCP") && same_ignoring_case(
        cols[3].as_str(),
        "LISTENING",
    ) && has_ending(cols[1].as_str(), needle.as_str()) {
        read_u32(cols[4].as_str())
    } else {
        None
    }
}

/// Who listens on a port, going by what `netstat -ano` printed.
pub fn listening_pid(printed: &str, port: u16) -> (r: Option<u32>)
    ensures
        r == first_pid(lines(printed@), port),
{
    let list = lines_of(printed);
    let ghost all = lines(printed@);
    let n: usize = list.len();
    let mut i: usize = 0;
    proof {
        assert(views(list@).len() == list@.len());
        assert(all.skip(0) =~= all);
    }
    while i < n
        invariant
            i <= n == list@.len(),
            views(list@) == all,
            all == lines(printed@),
            all.len() == n,
            first_pid(all, port) == first_pid(all.skip(i as int), port),
        decreases n - i,
    {
        let found = pid_in_line(list[i].as_str(), port);
        proof {
            assert(all[i as int] == list@[i as int]@);
            assert(all.skip(i as int)[0] == all[i as int]);
            assert(all.skip(i as int).drop_first() =~= all.skip(i + 1));
        }
        if found.is_some() {
            return found;
        }
        i += 1;
    }
    assert(all.skip(n as int) =~= seq![]);
    None
}

/// What stands between the first two quotes of a line that begins with one.
pub open spec fn quoted_name(line: Seq<char>) -> Option<Seq<char>> {
    if starts_with(line, "\""@) {
        let rest = line.skip(1);
        Some(
            match split_at_char(rest, '"') {
                Some((name, _)) => name,
                None => rest,
            },
        )
    } else {
        None
    }
}

pub open spec fn first_quoted(list: Seq<Seq<char>>) -> Option<Seq<char>>
    decreases list.len(),
{
    if list.len() == 0 {
        None
    } else if quoted_name(list[0]) is Some {
        quoted_name(list[0])
    } else {
        first_quoted(list.drop_first())
    }
}

/// The name of a process, going by what `tasklist /FO CSV /NH` printed. Where there
/// is no such process, it prints a sentence instead.
pub open spec fn name_view(printed: Seq<char>) -> Option<Seq<char>> {
    match first_quoted(lines(printed)) {
        Some(name) => if name.len() == 0 || contains(name, "정보 없음"@) || contains(
            name,
            "No tasks"@,
        ) {
            None
        } else {
            Some(name)
        },
        None => None,
    }
}

fn name_in_line(line: &str) -> (r: Option<String>)
    ensures
        match r {
            Some(s) => quoted_name(line@) == Some(s@),
            None => quoted_name(line@) is None,
        },
{
    proof {
        reveal_strlit("\"");
    }
    match after_prefix(line, "\"") {
        Some(rest) => {
            assert(rest@ =~= line@.skip(1));
            match split_once(rest, '"') {
                Some((name, _)) => Some(name.to_owned()),
                None => Some(rest.to_owned()),
            }
        },
        None => None,
    }
}

pub fn process_name(printed: &str) -> (r: Option<String>)
    ensures
        match r {
            Some(s) => name_view(printed@) == Some(s@),
            None => name_view(printed@) is None,
        },
{
    let list = lines_of(printed);
    let ghost all = lines(printed@);
    let n: usize = list.len();
    let mut i: usize = 0;
    proof {
        assert(views(list@).len() == list@.len());
        assert(all.skip(0) =~= all);
    }
    while i < n
        invariant
            i <= n == list@.len(),
            views(list@) == all,
            all.len() == n,
            first_quoted(all) == first_quoted(all.skip(i as int)),
            all == lines(printed@),
        decreases n - i,
    {
        let found = name_in_line(list[i].as_str());
        proof {
            assert(all[i as int] == list@[i as int]@);
            assert(all.skip(i as int)[0] == all[i as int]);
            assert(all.skip(i as int).drop_first() =~= all.skip(i + 1));
        }
        match found {
            Some(name) => {
                if name.as_str().is_empty() || includes(name.as_str(), "정보 없음") || includes(
                    name.as_str(),
                    "No tasks",
                ) {
                    return None;
                }
                return Some(name);
            },
            None => {},
        }
        i += 1;
    }
    assert(all.skip(n as int) =~= seq![]);
    None
}

/// The name that is shown for a process, going by what `tasklist` printed for it.
pub open spec fn shown_name(printed: Option<String>) -> Seq<char> {
    match printed {
        Some(s) => match name_view(s@) {
            Some(name) => name,
            None => "알 수 없음"@,
        },
        None => "알 수 없음"@,
    }
}

/// Who holds a port. `sockets` is what `netstat -ano` printed, and `tasks` tells what
/// `tasklist` prints for a process.
pub fn owner_of<F: Fn(u32) -> Option<String>>(port: u16, sockets: Option<&str>, tasks: &F) -> (r:
    Option<PortOwner>)
    requires
        forall|pid: u32| call_requires(*tasks, (pid,)),
    ensures
        match sockets {
            Some(s) => match first_pid(lines(s@), port) {
                Some(pid) => r matches Some(owner) && owner.pid == pid && exists|printed: Option<String>|
                    #[trigger] call_ensures(*tasks, (pid,), printed) && owner.name@ == shown_name(
                        printed,
                    ),
                None => r is None,
            },
            None => r is None,
        },
{
    let printed = match sockets {
        Some(s) => s,
        None => {
            return None;
        },
    };
    match listening_pid(printed, port) {
        Some(pid) => {
            let told = tasks(pid);
            let name = match &told {
                Some(s) => process_name(s.as_str()),
                None => None,
            };
            let owner = PortOwner {
                pid,
                name: match name {
                    Some(name) => name,
                    None => "알 수 없음".to_owned(),
                },
            };
            assert(call_ensures(*tasks, (pid,), told) && owner.name@ == shown_name(told));
            Some(owner)
        },
        None => None,
    }
}

} // verus!
