//! The registry of listening ports: entries read from the text of the
//! socket tools, joined with the process table, one entry per port.

use crate::text::{
    after_last, chars_of, contains, copy_range, fields, find, find_in, join_fields, join_spaced,
    lines, numeric, numeric_run, parse_unsigned, read_unsigned, run_len, split_fields,
    split_lines, string_of, suffix_after_last, views,
};
use std::collections::HashMap;
use vstd::prelude::*;
use vstd::multiset::group_multiset_axioms;
use vstd::seq_lib::{group_to_multiset_ensures, to_multiset_build, to_multiset_insert};
use vstd::std_specs::hash::group_hash_axioms;

verus! {

broadcast use group_hash_axioms;

/// The process table as contracts see it: process id to process name.
pub open spec fn names_of(table: Map<u32, String>) -> Map<u32, Seq<char>> {
    table.map_values(|name: String| name@)
}

/// A port entry as contracts see it: port, process name, process id.
pub open spec fn entry_view(entry: (u16, String, u32)) -> (u16, Seq<char>, u32) {
    (entry.0, entry.1@, entry.2)
}

/// The entries of a port list as contracts see them.
pub open spec fn entry_views(entries: Seq<(u16, String, u32)>) -> Seq<(u16, Seq<char>, u32)> {
    entries.map_values(|entry: (u16, String, u32)| entry_view(entry))
}

/// The name that the process table gives for `pid`, or `fallback` where
/// the table does not know the process.
pub open spec fn name_or(names: Map<u32, Seq<char>>, pid: u32, fallback: Seq<char>) -> Seq<char> {
    if names.contains_key(pid) {
        names[pid]
    } else {
        fallback
    }
}

/// The port of a local address: the number behind its last colon.
pub open spec fn address_port(address: Seq<char>) -> Option<nat> {
    parse_unsigned(after_last(address, ':'), u16::MAX as nat)
}

/// The entry that one line of the open-file listing yields. The line
/// must hold the listen marker and at least nine fields: the command
/// first, the process id second, the local address ninth. The process is
/// named by the table, or else by the command.
pub open spec fn lsof_entry(names: Map<u32, Seq<char>>, line: Seq<char>) -> Option<
    (u16, Seq<char>, u32),
> {
    let parts = fields(line);
    if contains(line, "LISTEN"@) && parts.len() >= 9 {
        match (address_port(parts[8]), parse_unsigned(parts[1], u32::MAX as nat)) {
            (Some(port), Some(pid)) => Some(
                (port as u16, name_or(names, pid as u32, parts[0]), pid as u32),
            ),
            _ => None,
        }
    } else {
        None
    }
}

/// The process id that the process column of a socket-state line states:
/// the number behind the first `pid=` in the fields from the sixth on.
pub open spec fn ss_pid(parts: Seq<Seq<char>>) -> Option<nat> {
    if parts.len() > 5 {
        let info = join_spaced(parts.skip(5));
        match find(info, "pid="@) {
            Some(at) => {
                let rest = info.skip(at + "pid="@.len());
                parse_unsigned(rest.take(run_len(rest, numeric()) as int), u32::MAX as nat)
            },
            None => None,
        }
    } else {
        None
    }
}

/// The entry that one line of the socket-state listing yields. The line
/// must hold at least five fields, the local address fourth, and state a
/// process id above zero. The process is named by the table, or else
/// `unknown`.
pub open spec fn ss_entry(names: Map<u32, Seq<char>>, line: Seq<char>) -> Option<
    (u16, Seq<char>, u32),
> {
    let parts = fields(line);
    if parts.len() >= 5 {
        match (address_port(parts[3]), ss_pid(parts)) {
            (Some(port), Some(pid)) => if pid > 0 {
                Some((port as u16, name_or(names, pid as u32, "unknown"@), pid as u32))
            } else {
                None
            },
            _ => None,
        }
    } else {
        None
    }
}

/// Whether some entry holds `port`.
pub open spec fn has_port(entries: Seq<(u16, Seq<char>, u32)>, port: u16) -> bool {
    exists|i: int| 0 <= i < entries.len() && (#[trigger] entries[i]).0 == port
}

/// The entries kept so far, with `candidate` behind them unless it is
/// absent or its port is already held.
pub open spec fn keep_first(
    kept: Seq<(u16, Seq<char>, u32)>,
    candidate: Option<(u16, Seq<char>, u32)>,
) -> Seq<(u16, Seq<char>, u32)> {
    match candidate {
        Some(entry) => if has_port(kept, entry.0) {
            kept
        } else {
            kept.push(entry)
        },
        None => kept,
    }
}

/// The open-file listing as a port list: the entries of its lines in
/// order, the first one only for each port.
pub open spec fn lsof_ports(names: Map<u32, Seq<char>>, listing: Seq<Seq<char>>) -> Seq<
    (u16, Seq<char>, u32),
>
    decreases listing.len(),
{
    if listing.len() == 0 {
        Seq::empty()
    } else {
        keep_first(lsof_ports(names, listing.drop_last()), lsof_entry(names, listing.last()))
    }
}

/// The lines of a socket-state listing as a port list: the entries of the
/// lines in order, the first one only for each port.
pub open spec fn ss_ports(names: Map<u32, Seq<char>>, listing: Seq<Seq<char>>) -> Seq<
    (u16, Seq<char>, u32),
>
    decreases listing.len(),
{
    if listing.len() == 0 {
        Seq::empty()
    } else {
        keep_first(ss_ports(names, listing.drop_last()), ss_entry(names, listing.last()))
    }
}

/// A listing without its header line.
pub open spec fn without_header(listing: Seq<Seq<char>>) -> Seq<Seq<char>> {
    if listing.len() == 0 {
        listing
    } else {
        listing.drop_first()
    }
}

/// Whether no two entries hold the same port.
pub open spec fn distinct_ports(entries: Seq<(u16, Seq<char>, u32)>) -> bool {
    forall|i: int, j: int|
        0 <= i < j < entries.len() ==> (#[trigger] entries[i]).0 != (#[trigger] entries[j]).0
}

/// Whether the ports never fall from one entry to the next.
pub open spec fn ascending_ports(entries: Seq<(u16, Seq<char>, u32)>) -> bool {
    forall|i: int, j: int|
        0 <= i < j < entries.len() ==> (#[trigger] entries[i]).0 <= (#[trigger] entries[j]).0
}

/// Whether the ports rise from each entry to the next.
pub open spec fn rising_ports(entries: Seq<(u16, Seq<char>, u32)>) -> bool {
    forall|i: int, j: int|
        0 <= i < j < entries.len() ==> (#[trigger] entries[i]).0 < (#[trigger] entries[j]).0
}

/// Looks a process up in the table; `fallback` names it where the table
/// does not.
fn resolve_name(pid_to_name: &HashMap<u32, String>, pid: u32, fallback: String) -> (name: String)
    ensures
        name@ == name_or(names_of(pid_to_name@), pid, fallback@),
{
    match pid_to_name.get(&pid) {
        Some(name) => name.clone(),
        None => fallback,
    }
}

/// Reads the port of a local address.
pub fn read_address_port(address: &Vec<char>) -> (r: Option<u16>)
    ensures
        match r {
            Some(port) => address_port(address@) == Some(port as nat),
            None => address_port(address@) is None,
        },
{
    let tail = suffix_after_last(address, ':');
    match read_unsigned(&tail, 65535) {
        Some(port) => Some(port as u16),
        None => None,
    }
}

/// Reads one line of the open-file listing.
pub fn read_lsof_line(pid_to_name: &HashMap<u32, String>, line: &Vec<char>) -> (r: Option<
    (u16, String, u32),
>)
    ensures
        match r {
            Some(entry) => lsof_entry(names_of(pid_to_name@), line@) == Some(entry_view(entry)),
            None => lsof_entry(names_of(pid_to_name@), line@) is None,
        },
{
    let marker = chars_of("LISTEN");
    if find_in(line, &marker).is_none() {
        return None;
    }
    let parts = split_fields(line);
    if parts.len() < 9 {
        return None;
    }
    let port = match read_address_port(&parts[8]) {
        Some(port) => port,
        None => { return None; },
    };
    let pid = match read_unsigned(&parts[1], 0xffff_ffff) {
        Some(pid) => pid as u32,
        None => { return None; },
    };
    let name = resolve_name(pid_to_name, pid, string_of(&parts[0]));
    Some((port, name, pid))
}

/// Reads the process id that the process column states.
pub fn read_ss_pid(parts: &Vec<Vec<char>>) -> (r: Option<u32>)
    ensures
        match r {
            Some(pid) => ss_pid(views(parts@)) == Some(pid as nat),
            None => ss_pid(views(parts@)) is None,
        },
{
    if parts.len() <= 5 {
        return None;
    }
    let info = join_fields(parts, 5);
    let marker = chars_of("pid=");
    match find_in(&info, &marker) {
        Some(at) => {
            let start = at + marker.len();
            let n = numeric_run(&info, start);
            let digits = copy_range(&info, start, start + n);
            proof {
                let rest = info@.skip(start as int);
                assert(rest.take(n as int) =~= digits@);
            }
            match read_unsigned(&digits, 0xffff_ffff) {
                Some(pid) => Some(pid as u32),
                None => None,
            }
        },
        None => None,
    }
}

/// Reads one line of the socket-state listing.
pub fn read_ss_line(pid_to_name: &HashMap<u32, String>, line: &Vec<char>) -> (r: Option<
    (u16, String, u32),
>)
    ensures
        match r {
            Some(entry) => ss_entry(names_of(pid_to_name@), line@) == Some(entry_view(entry)),
            None => ss_entry(names_of(pid_to_name@), line@) is None,
        },
{
    let parts = split_fields(line);
    if parts.len() < 5 {
        return None;
    }
    let port = match read_address_port(&parts[3]) {
        Some(port) => port,
        None => { return None; },
    };
    let pid = match read_ss_pid(&parts) {
        Some(pid) => pid,
        None => { return None; },
    };
    if pid == 0 {
        return None;
    }
    let name = resolve_name(pid_to_name, pid, "unknown".to_owned());
    Some((port, name, pid))
}

/// Tests whether the list holds an entry for `port`.
pub fn holds_port(ports: &Vec<(u16, String, u32)>, port: u16) -> (r: bool)
    ensures
        r == has_port(entry_views(ports@), port),
{
    let n = ports.len();
    let mut i: usize = 0;
    while i < n
        invariant
            n == ports.len(),
            i <= n,
            forall|k: int| 0 <= k < i ==> (#[trigger] entry_views(ports@)[k]).0 != port,
        decreases n - i,
    {
        if ports[i].0 == port {
            proof {
                assert(entry_views(ports@)[i as int].0 == port);
            }
            return true;
        }
        i += 1;
    }
    false
}

/// Appends an entry to the list unless it is absent or its port is
/// already held.
fn push_first(ports: &mut Vec<(u16, String, u32)>, candidate: Option<(u16, String, u32)>)
    ensures
        entry_views(final(ports)@) == keep_first(
            entry_views(old(ports)@),
            match candidate {
                Some(entry) => Some(entry_view(entry)),
                None => None,
            },
        ),
{
    match candidate {
        Some(entry) => {
            if !holds_port(ports, entry.0) {
                proof {
                    assert(entry_views(ports@.push(entry)) =~= entry_views(ports@).push(
                        entry_view(entry),
                    ));
                }
                ports.push(entry);
            }
        },
        None => {},
    }
}

/// Builds the port list from the output of the open-file listing tool.
/// Lines that do not fit are passed over; of several lines for one port
/// the first is kept. The entries stand in the order of their lines.
pub fn get_ports_macos(pid_to_name: &HashMap<u32, String>, output: &str) -> (ports: Vec<
    (u16, String, u32),
>)
    ensures
        entry_views(ports@) == lsof_ports(names_of(pid_to_name@), lines(output@)),
{
    let text = chars_of(output);
    let listing = split_lines(&text);
    let mut ports: Vec<(u16, String, u32)> = Vec::new();
    let ghost all = views(listing@);
    let ghost names = names_of(pid_to_name@);
    let n = listing.len();
    let mut i: usize = 0;
    proof {
        assert(all.take(0) =~= Seq::<Seq<char>>::empty());
        assert(entry_views(ports@) =~= Seq::empty());
    }
    while i < n
        invariant
            n == listing.len(),
            i <= n,
            all == views(listing@),
            names == names_of(pid_to_name@),
            entry_views(ports@) == lsof_ports(names, all.take(i as int)),
        decreases n - i,
    {
        proof {
            assert(all.take(i + 1).drop_last() =~= all.take(i as int));
            assert(all.take(i + 1).last() == listing@[i as int]@);
        }
        let candidate = read_lsof_line(pid_to_name, &listing[i]);
        push_first(&mut ports, candidate);
        i += 1;
    }
    proof {
        assert(all.take(n as int) =~= all);
    }
    ports
}

/// Builds the port list from the output of the socket-state tool, whose
/// first line is a header. Lines that do not fit, or that state no
/// process id above zero, are passed over; of several lines for one port
/// the first is kept. The entries stand in the order of their lines.
pub fn get_ports_linux(pid_to_name: &HashMap<u32, String>, output: &str) -> (ports: Vec<
    (u16, String, u32),
>)
    ensures
        entry_views(ports@) == ss_ports(names_of(pid_to_name@), without_header(lines(output@))),
{
    let text = chars_of(output);
    let listing = split_lines(&text);
    let mut ports: Vec<(u16, String, u32)> = Vec::new();
    let ghost names = names_of(pid_to_name@);
    let n = listing.len();
    if n == 0 {
        proof {
            assert(entry_views(ports@) =~= Seq::empty());
        }
        return ports;
    }
    let ghost all = views(listing@).drop_first();
    let mut i: usize = 1;
    proof {
        assert(all.take(0) =~= Seq::<Seq<char>>::empty());
        assert(entry_views(ports@) =~= Seq::empty());
    }
    while i < n
        invariant
            n == listing.len(),
            1 <= i <= n,
            all == views(listing@).drop_first(),
            names == names_of(pid_to_name@),
            entry_views(ports@) == ss_ports(names, all.take(i - 1)),
        decreases n - i,
    {
        proof {
            assert(all.take(i as int).drop_last() =~= all.take(i - 1));
            assert(all.take(i as int).last() == listing@[i as int]@);
        }
        let candidate = read_ss_line(pid_to_name, &listing[i]);
        push_first(&mut ports, candidate);
        i += 1;
    }
    proof {
        assert(all.take(n - 1) =~= all);
    }
    ports
}

/// Moves the entries into a list ordered by port.
pub(crate) fn sort_by_port(ports: Vec<(u16, String, u32)>) -> (sorted: Vec<(u16, String, u32)>)
    ensures
        ascending_ports(entry_views(sorted@)),
        entry_views(sorted@).to_multiset() == entry_views(ports@).to_multiset(),
{
    broadcast use {group_to_multiset_ensures, group_multiset_axioms};

    let mut rest = ports;
    let mut sorted: Vec<(u16, String, u32)> = Vec::new();
    proof {
        assert(entry_views(sorted@) =~= Seq::empty());
        assert(entry_views(sorted@).to_multiset().add(entry_views(rest@).to_multiset())
            =~= entry_views(ports@).to_multiset());
    }
    while rest.len() > 0
        invariant
            ascending_ports(entry_views(sorted@)),
            entry_views(sorted@).to_multiset().add(entry_views(rest@).to_multiset())
                == entry_views(ports@).to_multiset(),
        decreases rest.len(),
    {
        let ghost rest_before = entry_views(rest@);
        let ghost sorted_before = entry_views(sorted@);
        let entry = rest.pop().unwrap();
        proof {
            assert(entry_views(rest@).push(entry_view(entry)) =~= rest_before);
        }
        let n = sorted.len();
        let mut at: usize = 0;
        while at < n && sorted[at].0 < entry.0
            invariant
                n == sorted.len(),
                at <= n,
                sorted_before == entry_views(sorted@),
                forall|k: int| 0 <= k < at ==> (#[trigger] sorted_before[k]).0 < entry.0,
            decreases n - at,
        {
            at += 1;
        }
        proof {
            let after = sorted_before.insert(at as int, entry_view(entry));
            assert(entry_views(sorted@.insert(at as int, entry)) =~= after);
            assert forall|i: int, j: int| 0 <= i < j < after.len() implies (#[trigger] after[i]).0
                <= (#[trigger] after[j]).0 by {
                if j < at {
                } else if i < at && j == at {
                } else if i < at && j > at {
                    assert(after[j] == sorted_before[j - 1]);
                    assert(sorted_before[at as int].0 >= entry.0);
                    if at < j - 1 {
                        assert(sorted_before[at as int].0 <= sorted_before[j - 1].0);
                    }
                } else if i == at {
                    assert(after[j] == sorted_before[j - 1]);
                    if at < j - 1 {
                        assert(sorted_before[at as int].0 <= sorted_before[j - 1].0);
                    }
                } else {
                    assert(after[i] == sorted_before[i - 1]);
                    assert(after[j] == sorted_before[j - 1]);
                }
            }
            let moved = entry_view(entry);
            let left = entry_views(rest@);
            to_multiset_insert(sorted_before, at as int, moved);
            to_multiset_build(left, moved);
            assert(after.to_multiset().add(left.to_multiset()) =~= sorted_before.to_multiset().add(
                rest_before.to_multiset(),
            ));
        }
        sorted.insert(at, entry);
    }
    proof {
        assert(entry_views(rest@) =~= Seq::empty());
        assert(entry_views(sorted@).to_multiset().add(entry_views(rest@).to_multiset())
            =~= entry_views(sorted@).to_multiset());
    }
    sorted
}

/// Keeping the first entry per port leaves no port twice.
pub proof fn lemma_keep_first_distinct(
    kept: Seq<(u16, Seq<char>, u32)>,
    candidate: Option<(u16, Seq<char>, u32)>,
)
    requires
        distinct_ports(kept),
    ensures
        distinct_ports(keep_first(kept, candidate)),
{
    let after = keep_first(kept, candidate);
    if after != kept {
        let entry = candidate->0;
        assert forall|i: int, j: int| 0 <= i < j < after.len() implies (#[trigger] after[i]).0 != (
        #[trigger] after[j]).0 by {
            if j == kept.len() {
                assert(kept[i].0 != entry.0);
            } else {
                assert(after[i] == kept[i] && after[j] == kept[j]);
            }
        }
    }
}

/// No port occurs twice in the port list of an open-file listing.
pub proof fn lemma_lsof_ports_distinct(names: Map<u32, Seq<char>>, listing: Seq<Seq<char>>)
    ensures
        distinct_ports(lsof_ports(names, listing)),
    decreases listing.len(),
{
    if listing.len() > 0 {
        lemma_lsof_ports_distinct(names, listing.drop_last());
        lemma_keep_first_distinct(
            lsof_ports(names, listing.drop_last()),
            lsof_entry(names, listing.last()),
        );
    }
}

/// No port occurs twice in the port list of a socket-state listing.
pub proof fn lemma_ss_ports_distinct(names: Map<u32, Seq<char>>, listing: Seq<Seq<char>>)
    ensures
        distinct_ports(ss_ports(names, listing)),
    decreases listing.len(),
{
    if listing.len() > 0 {
        lemma_ss_ports_distinct(names, listing.drop_last());
        lemma_keep_first_distinct(
            ss_ports(names, listing.drop_last()),
            ss_entry(names, listing.last()),
        );
    }
}

/// Lists that hold the same entries share each of them.
proof fn lemma_shared_entry(
    a: Seq<(u16, Seq<char>, u32)>,
    b: Seq<(u16, Seq<char>, u32)>,
    entry: (u16, Seq<char>, u32),
)
    requires
        a.to_multiset() == b.to_multiset(),
        a.contains(entry),
    ensures
        b.contains(entry),
{
    a.to_multiset_ensures();
    b.to_multiset_ensures();
    assert(a.to_multiset().count(entry) > 0);
    assert(b.to_multiset().count(entry) > 0);
}

/// A list ordered by port that holds the entries of a list without
/// repeated ports has strictly rising ports.
pub proof fn lemma_sorted_distinct_rises(
    sorted: Seq<(u16, Seq<char>, u32)>,
    listed: Seq<(u16, Seq<char>, u32)>,
)
    requires
        ascending_ports(sorted),
        distinct_ports(listed),
        sorted.to_multiset() == listed.to_multiset(),
    ensures
        rising_ports(sorted),
{
    broadcast use {group_to_multiset_ensures, group_multiset_axioms};

    assert(listed.no_duplicates()) by {
        assert forall|i: int, j: int|
            0 <= i < listed.len() && 0 <= j < listed.len() && i != j implies listed[i]
            != listed[j] by {
            if i < j {
                assert(listed[i].0 != listed[j].0);
            } else {
                assert(listed[j].0 != listed[i].0);
            }
        }
    }
    listed.lemma_multiset_has_no_duplicates();
    sorted.lemma_multiset_has_no_duplicates_conv();
    sorted.to_multiset_ensures();
    listed.to_multiset_ensures();
    assert forall|i: int, j: int| 0 <= i < j < sorted.len() implies (#[trigger] sorted[i]).0 < (
    #[trigger] sorted[j]).0 by {
        assert(sorted.contains(sorted[i]));
        assert(sorted.contains(sorted[j]));
        lemma_shared_entry(sorted, listed, sorted[i]);
        lemma_shared_entry(sorted, listed, sorted[j]);
        let a = choose|a: int| 0 <= a < listed.len() && listed[a] == sorted[i];
        let b = choose|b: int| 0 <= b < listed.len() && listed[b] == sorted[j];
        assert(sorted[i] != sorted[j]);
        if a < b {
            assert(listed[a].0 != listed[b].0);
        } else {
            assert(listed[b].0 != listed[a].0);
        }
    }
}

/// Two lists with strictly rising ports that hold the same entries are
/// the same list: order by port and content fix a port list.
pub proof fn lemma_rising_ports_unique(
    a: Seq<(u16, Seq<char>, u32)>,
    b: Seq<(u16, Seq<char>, u32)>,
)
    requires
        rising_ports(a),
        rising_ports(b),
        a.to_multiset() == b.to_multiset(),
    ensures
        a == b,
    decreases a.len(),
{
    broadcast use {group_to_multiset_ensures, group_multiset_axioms};

    a.to_multiset_ensures();
    b.to_multiset_ensures();
    assert(a.len() == b.len());
    if a.len() > 0 {
        let n = a.len() as int;
        assert(a.contains(a[n - 1]));
        assert(b.contains(b[n - 1]));
        lemma_shared_entry(a, b, a[n - 1]);
        lemma_shared_entry(b, a, b[n - 1]);
        let j = choose|j: int| 0 <= j < n && b[j] == a[n - 1];
        let i = choose|i: int| 0 <= i < n && a[i] == b[n - 1];
        if i < n - 1 {
            assert(a[i].0 < a[n - 1].0);
        }
        if j < n - 1 {
            assert(b[j].0 < b[n - 1].0);
        }
        assert(j == n - 1);
        assert(a.drop_last() =~= a.remove(n - 1));
        assert(b.drop_last() =~= b.remove(n - 1));
        assert(a.drop_last().to_multiset() =~= b.drop_last().to_multiset());
        assert forall|x: int, y: int| 0 <= x < y < n - 1 implies (#[trigger] a.drop_last()[x]).0 < (
        #[trigger] a.drop_last()[y]).0 by {
            assert(a[x].0 < a[y].0);
        }
        assert forall|x: int, y: int| 0 <= x < y < n - 1 implies (#[trigger] b.drop_last()[x]).0 < (
        #[trigger] b.drop_last()[y]).0 by {
            assert(b[x].0 < b[y].0);
        }
        lemma_rising_ports_unique(a.drop_last(), b.drop_last());
        assert(a =~= a.drop_last().push(a[n - 1]));
        assert(b =~= b.drop_last().push(b[n - 1]));
    }
}

} // verus!
