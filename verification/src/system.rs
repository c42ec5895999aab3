//! The samplers: what the host reports, brought into the shape that the
//! session state takes. Text sources are handed in by the caller, who
//! read the file or ran the tool; the interface counters and the process
//! table are taken from the system-information library directly.

use crate::counters::{add_wrapped, wrap};
use crate::format::{decimal, push_decimal};
use crate::disk::{diskstats_totals, ioreg_totals, parse_diskstats, parse_ioreg};
use crate::ports::{
    entry_views, get_ports_linux, get_ports_macos,
    lemma_lsof_ports_distinct, lemma_sorted_distinct_rises, lemma_ss_ports_distinct, lsof_ports,
    names_of, rising_ports, sort_by_port, ss_ports, without_header,
};
use crate::text::lines;
use std::collections::HashMap;
use vstd::multiset::Multiset;
use vstd::prelude::*;
use vstd::std_specs::hash::group_hash_axioms;

verus! {

broadcast use group_hash_axioms;

/// The network interfaces of the host, as the system-information library
/// holds them.
#[verifier::external_type_specification]
#[verifier::external_body]
pub struct ExNetworks(sysinfo::Networks);

/// The counters of one network interface, as the system-information
/// library holds them; `Networks` hands them out.
#[verifier::external_type_specification]
#[verifier::external_body]
pub struct ExNetworkData(sysinfo::NetworkData);

/// The state of the host, as the system-information library holds it.
#[verifier::external_type_specification]
#[verifier::external_body]
pub struct ExSystem(sysinfo::System);

/// The operating system whose tools produced a text, and so the format in
/// which the text is read.
#[derive(Clone, Copy, Debug)]
pub enum Platform {
    /// Per-device counter table and socket-state listing.
    Linux,
    /// Block-storage registry report and open-file listing.
    MacOs,
    /// Windows, whose tools are not read: every reading is empty.
    Windows,
    /// Any other system; its tools are not read either.
    Other,
}

/// The bytes read and written that a disk source states, in the format of
/// the platform.
pub open spec fn disk_totals(platform: Platform, source: Seq<char>) -> (nat, nat) {
    match platform {
        Platform::Linux => diskstats_totals(lines(source)),
        Platform::MacOs => ioreg_totals(lines(source)),
        Platform::Windows | Platform::Other => (0, 0),
    }
}

/// Cumulative bytes read from and written to the disks since boot, from
/// the text of the platform's disk source: the content of the counter
/// table on Linux, the output of the registry tool on macOS. A source
/// that could not be read is handed in as empty text and gives zero
/// totals, as every text does on other platforms.
pub fn get_disk_io(platform: Platform, source: &str) -> (totals: (u64, u64))
    ensures
        totals.0 == wrap(disk_totals(platform, source@).0),
        totals.1 == wrap(disk_totals(platform, source@).1),
{
    match platform {
        Platform::Linux => parse_diskstats(source),
        Platform::MacOs => parse_ioreg(source),
        Platform::Windows | Platform::Other => (0, 0),
    }
}

/// The readings of the interfaces that a `Networks` value holds: for each
/// interface its cumulative bytes received and transmitted.
pub uninterp spec fn interface_counters(networks: sysinfo::Networks) -> Multiset<(u64, u64)>;

/// `Networks::list` of the system-information library, and for each
/// interface in it `NetworkData::total_received` and
/// `NetworkData::total_transmitted`. The pairs come in the order in which
/// the library's map is walked, which is not fixed; taken together they
/// are the readings that the value holds.
#[verifier::external_body]
fn read_interface_counters(networks: &sysinfo::Networks) -> (readings: Vec<(u64, u64)>)
    ensures
        readings@.to_multiset() == interface_counters(*networks),
{
    networks.list().values().map(|data| (data.total_received(), data.total_transmitted())).collect()
}

/// Bytes received and transmitted, summed over the readings.
pub open spec fn counter_sums(readings: Seq<(u64, u64)>) -> (nat, nat)
    decreases readings.len(),
{
    if readings.len() == 0 {
        (0, 0)
    } else {
        let before = counter_sums(readings.drop_last());
        (before.0 + readings.last().0 as nat, before.1 + readings.last().1 as nat)
    }
}

/// Sums the bytes received and the bytes transmitted over all readings.
/// The totals are kept in 64 bits, so a carry out of them is dropped.
pub fn sum_counters(readings: &Vec<(u64, u64)>) -> (totals: (u64, u64))
    ensures
        totals.0 == wrap(counter_sums(readings@).0),
        totals.1 == wrap(counter_sums(readings@).1),
{
    let mut total_rx: u64 = 0;
    let mut total_tx: u64 = 0;
    let n = readings.len();
    let mut i: usize = 0;
    proof {
        assert(readings@.take(0) =~= Seq::empty());
    }
    while i < n
        invariant
            n == readings.len(),
            i <= n,
            total_rx == wrap(counter_sums(readings@.take(i as int)).0),
            total_tx == wrap(counter_sums(readings@.take(i as int)).1),
        decreases n - i,
    {
        let ghost before = counter_sums(readings@.take(i as int));
        proof {
            assert(readings@.take(i + 1).drop_last() =~= readings@.take(i as int));
        }
        let (rx, tx) = readings[i];
        total_rx = add_wrapped(total_rx, rx, Ghost(before.0), Ghost(rx as nat));
        total_tx = add_wrapped(total_tx, tx, Ghost(before.1), Ghost(tx as nat));
        i += 1;
    }
    proof {
        assert(readings@.take(n as int) =~= readings@);
    }
    (total_rx, total_tx)
}

/// Without one of the readings the sums are lower by that reading.
proof fn lemma_counter_sums_remove(readings: Seq<(u64, u64)>, at: int)
    requires
        0 <= at < readings.len(),
    ensures
        counter_sums(readings).0 == counter_sums(readings.remove(at)).0 + readings[at].0,
        counter_sums(readings).1 == counter_sums(readings.remove(at)).1 + readings[at].1,
    decreases readings.len(),
{
    if at == readings.len() - 1 {
        assert(readings.remove(at) =~= readings.drop_last());
    } else {
        lemma_counter_sums_remove(readings.drop_last(), at);
        assert(readings.remove(at).drop_last() =~= readings.drop_last().remove(at));
        assert(readings.remove(at).last() == readings.last());
    }
}

/// The sums depend on the readings alone, not on the order in which they
/// are listed.
pub proof fn lemma_counter_sums_by_content(a: Seq<(u64, u64)>, b: Seq<(u64, u64)>)
    requires
        a.to_multiset() == b.to_multiset(),
    ensures
        counter_sums(a) == counter_sums(b),
    decreases a.len(),
{
    a.to_multiset_ensures();
    b.to_multiset_ensures();
    if a.len() > 0 {
        let last = a.last();
        assert(a.contains(last));
        assert(a.to_multiset().count(last) > 0);
        assert(b.to_multiset().count(last) > 0);
        assert(b.contains(last));
        let at = choose|at: int| 0 <= at < b.len() && b[at] == last;
        assert(a.drop_last() =~= a.remove(a.len() - 1));
        assert(a.drop_last().to_multiset() =~= b.remove(at).to_multiset());
        lemma_counter_sums_by_content(a.drop_last(), b.remove(at));
        lemma_counter_sums_remove(b, at);
    } else {
        assert(b.len() == 0);
    }
}

/// Cumulative bytes received and transmitted by the host: the sums over
/// every interface that `networks` holds, loopback and virtual ones
/// included. With no interface both are zero.
pub fn get_network_io(networks: &sysinfo::Networks) -> (totals: (u64, u64))
    ensures
        exists|readings: Seq<(u64, u64)>|
            #[trigger] readings.to_multiset() == interface_counters(*networks) && totals.0 == wrap(
                counter_sums(readings).0,
            ) && totals.1 == wrap(counter_sums(readings).1),
{
    let readings = read_interface_counters(networks);
    sum_counters(&readings)
}

/// The processes that a `System` value holds: for each one its id and its
/// name.
pub uninterp spec fn process_listing(system: sysinfo::System) -> Multiset<(u32, Seq<char>)>;

/// `System::processes` of the system-information library, and for each
/// process in it `Pid::as_u32` of its id and `Process::name`, the name
/// made text with what is no text in it replaced. The pairs come in the
/// order in which the library's map is walked, which is not fixed; taken
/// together they are the processes that the value holds.
#[verifier::external_body]
fn read_process_listing(system: &sysinfo::System) -> (processes: Vec<(u32, String)>)
    ensures
        process_views(processes@).to_multiset() == process_listing(*system),
{
    system.processes().iter().map(
        |(pid, process)| (pid.as_u32(), process.name().to_string_lossy().to_string()),
    ).collect()
}

/// The processes of a listing as contracts see them: id and name.
pub open spec fn process_views(processes: Seq<(u32, String)>) -> Seq<(u32, Seq<char>)> {
    processes.map_values(|process: (u32, String)| (process.0, process.1@))
}

/// The process table of a listing: each id with the name of the last
/// process listed under it.
pub open spec fn name_map(processes: Seq<(u32, Seq<char>)>) -> Map<u32, Seq<char>>
    decreases processes.len(),
{
    if processes.len() == 0 {
        Map::empty()
    } else {
        name_map(processes.drop_last()).insert(processes.last().0, processes.last().1)
    }
}

/// Whether no two processes of a listing share an id.
pub open spec fn distinct_pids(processes: Seq<(u32, Seq<char>)>) -> bool {
    forall|i: int, j: int|
        0 <= i < j < processes.len() ==> (#[trigger] processes[i]).0 != (#[trigger] processes[j]).0
}

/// The process table of a listing without repeated ids holds exactly the
/// processes listed.
pub proof fn lemma_name_map_entries(processes: Seq<(u32, Seq<char>)>)
    requires
        distinct_pids(processes),
    ensures
        forall|i: int|
            0 <= i < processes.len() ==> name_map(processes).contains_key(
                (#[trigger] processes[i]).0,
            ) && name_map(processes)[processes[i].0] == processes[i].1,
        forall|pid: u32| #[trigger]
            name_map(processes).contains_key(pid) ==> exists|i: int|
                0 <= i < processes.len() && (#[trigger] processes[i]).0 == pid,
    decreases processes.len(),
{
    if processes.len() > 0 {
        let front = processes.drop_last();
        let last = processes.last();
        assert forall|i: int, j: int| 0 <= i < j < front.len() implies (#[trigger] front[i]).0 != (
        #[trigger] front[j]).0 by {
            assert(processes[i].0 != processes[j].0);
        }
        lemma_name_map_entries(front);
        assert forall|i: int| 0 <= i < processes.len() implies name_map(processes).contains_key(
            (#[trigger] processes[i]).0,
        ) && name_map(processes)[processes[i].0] == processes[i].1 by {
            if i < front.len() {
                assert(front[i] == processes[i]);
                assert(processes[i].0 != processes[processes.len() - 1].0);
            }
        }
        assert forall|pid: u32| #[trigger] name_map(processes).contains_key(pid) implies exists|
            i: int,
        |
            0 <= i < processes.len() && (#[trigger] processes[i]).0 == pid by {
            if pid == last.0 {
                assert(processes[processes.len() - 1].0 == pid);
            } else {
                assert(name_map(front).contains_key(pid));
                let i = choose|i: int| 0 <= i < front.len() && (#[trigger] front[i]).0 == pid;
                assert(processes[i].0 == pid);
            }
        }
    }
}

/// Where no two processes share an id, the process table depends on the
/// processes alone, not on the order in which they are listed.
pub proof fn lemma_name_map_by_content(a: Seq<(u32, Seq<char>)>, b: Seq<(u32, Seq<char>)>)
    requires
        a.to_multiset() == b.to_multiset(),
        distinct_pids(a),
    ensures
        distinct_pids(b),
        name_map(a) == name_map(b),
{
    a.to_multiset_ensures();
    b.to_multiset_ensures();
    assert(a.no_duplicates()) by {
        assert forall|i: int, j: int|
            0 <= i < a.len() && 0 <= j < a.len() && i != j implies a[i] != a[j] by {
            if i < j {
                assert(a[i].0 != a[j].0);
            } else {
                assert(a[j].0 != a[i].0);
            }
        }
    }
    a.lemma_multiset_has_no_duplicates();
    b.lemma_multiset_has_no_duplicates_conv();
    assert forall|i: int, j: int| 0 <= i < j < b.len() implies (#[trigger] b[i]).0 != (
    #[trigger] b[j]).0 by {
        assert(b.contains(b[i]) && b.contains(b[j]));
        assert(b.to_multiset().count(b[i]) > 0 && b.to_multiset().count(b[j]) > 0);
        assert(a.to_multiset().count(b[i]) > 0 && a.to_multiset().count(b[j]) > 0);
        assert(a.contains(b[i]) && a.contains(b[j]));
        let x = choose|x: int| 0 <= x < a.len() && a[x] == b[i];
        let y = choose|y: int| 0 <= y < a.len() && a[y] == b[j];
        assert(b[i] != b[j]);
        if x < y {
            assert(a[x].0 != a[y].0);
        } else {
            assert(a[y].0 != a[x].0);
        }
    }
    lemma_name_map_entries(a);
    lemma_name_map_entries(b);
    assert forall|pid: u32| name_map(a).contains_key(pid) implies name_map(b).contains_key(pid)
        && name_map(b)[pid] == name_map(a)[pid] by {
        let i = choose|i: int| 0 <= i < a.len() && (#[trigger] a[i]).0 == pid;
        assert(a.contains(a[i]));
        assert(a.to_multiset().count(a[i]) > 0);
        assert(b.to_multiset().count(a[i]) > 0);
        assert(b.contains(a[i]));
        let j = choose|j: int| 0 <= j < b.len() && b[j] == a[i];
        assert(b[j].0 == pid);
    }
    assert forall|pid: u32| name_map(b).contains_key(pid) implies name_map(a).contains_key(
        pid,
    ) by {
        let j = choose|j: int| 0 <= j < b.len() && (#[trigger] b[j]).0 == pid;
        assert(b.contains(b[j]));
        assert(b.to_multiset().count(b[j]) > 0);
        assert(a.to_multiset().count(b[j]) > 0);
        assert(a.contains(b[j]));
        let i = choose|i: int| 0 <= i < a.len() && a[i] == b[j];
        assert(a[i].0 == pid);
    }
    assert(name_map(a) =~= name_map(b));
}

/// Builds the process table of a listing.
pub fn name_table(processes: &Vec<(u32, String)>) -> (table: HashMap<u32, String>)
    ensures
        names_of(table@) == name_map(process_views(processes@)),
{
    let mut table: HashMap<u32, String> = HashMap::new();
    let ghost all = process_views(processes@);
    let n = processes.len();
    let mut i: usize = 0;
    proof {
        assert(all.take(0) =~= Seq::empty());
        assert(names_of(table@) =~= Map::empty());
    }
    while i < n
        invariant
            n == processes.len(),
            i <= n,
            all == process_views(processes@),
            names_of(table@) == name_map(all.take(i as int)),
        decreases n - i,
    {
        let pid = processes[i].0;
        let name = processes[i].1.clone();
        proof {
            assert(all.take(i + 1).drop_last() =~= all.take(i as int));
            assert(all.take(i + 1).last() == (pid, name@));
            assert(names_of(table@.insert(pid, name)) =~= names_of(table@).insert(pid, name@));
        }
        table.insert(pid, name);
        i += 1;
    }
    proof {
        assert(all.take(n as int) =~= all);
    }
    table
}

/// The entries that a listing of sockets yields, in the order of its
/// lines, read in the format of the platform.
pub open spec fn listed_ports(
    names: Map<u32, Seq<char>>,
    platform: Platform,
    listing: Seq<char>,
) -> Seq<(u16, Seq<char>, u32)> {
    match platform {
        Platform::Linux => ss_ports(names, without_header(lines(listing))),
        Platform::MacOs => lsof_ports(names, lines(listing)),
        Platform::Windows | Platform::Other => Seq::empty(),
    }
}

/// Whether `registry` is the port registry of the entries `listed`: it
/// holds the same entries, with strictly rising ports.
pub open spec fn is_registry_of(
    registry: Seq<(u16, Seq<char>, u32)>,
    listed: Seq<(u16, Seq<char>, u32)>,
) -> bool {
    rising_ports(registry) && registry.to_multiset() == listed.to_multiset()
}

/// Builds the registry of listening ports from the process table and the
/// output of the platform's socket tool: one entry per port, the first
/// that the output lists for it, in ascending order of port. Output that
/// could not be had is handed in as empty text and gives an empty
/// registry, as every text does on other platforms.
pub fn build_port_registry(
    pid_to_name: &HashMap<u32, String>,
    platform: Platform,
    listing: &str,
) -> (ports: Vec<(u16, String, u32)>)
    ensures
        is_registry_of(
            entry_views(ports@),
            listed_ports(names_of(pid_to_name@), platform, listing@),
        ),
{
    let listed = match platform {
        Platform::Linux => get_ports_linux(pid_to_name, listing),
        Platform::MacOs => get_ports_macos(pid_to_name, listing),
        Platform::Windows | Platform::Other => Vec::new(),
    };
    let ports = sort_by_port(listed);
    proof {
        let names = names_of(pid_to_name@);
        match platform {
            Platform::Linux => lemma_ss_ports_distinct(names, without_header(lines(listing@))),
            Platform::MacOs => lemma_lsof_ports_distinct(names, lines(listing@)),
            Platform::Windows | Platform::Other => {
                assert(entry_views(listed@) =~= Seq::empty());
            },
        }
        lemma_sorted_distinct_rises(entry_views(ports@), entry_views(listed@));
    }
    ports
}

/// The registry of listening ports of the host: the processes that
/// `system` holds name the owners of the ports that `listing`, the output
/// of the platform's socket tool, reports.
pub fn get_open_ports(system: &sysinfo::System, platform: Platform, listing: &str) -> (ports: Vec<
    (u16, String, u32),
>)
    ensures
        exists|processes: Seq<(u32, Seq<char>)>|
            #[trigger] processes.to_multiset() == process_listing(*system) && is_registry_of(
                entry_views(ports@),
                listed_ports(name_map(processes), platform, listing@),
            ),
{
    let processes = read_process_listing(system);
    let pid_to_name = name_table(&processes);
    build_port_registry(&pid_to_name, platform, listing)
}

/// The views of a vector of strings, element by element.
pub open spec fn string_views(words: Seq<String>) -> Seq<Seq<char>> {
    words.map_values(|word: String| word@)
}

/// The words of the command that terminates the process `pid`: the
/// program first, then its arguments. Windows has its task killer end
/// the process by force; every other platform sends the kill signal.
pub open spec fn kill_command_words(platform: Platform, pid: u32) -> Seq<Seq<char>> {
    match platform {
        Platform::Windows => seq!["taskkill"@, "/PID"@, decimal(pid as nat), "/F"@],
        _ => seq!["kill"@, "-9"@, decimal(pid as nat)],
    }
}

/// Tells which command terminates the process `pid` on the platform: the
/// program first, then its arguments. Running it, and what became of the
/// process, is the caller's to see.
pub fn kill_command(platform: Platform, pid: u32) -> (words: Vec<String>)
    ensures
        string_views(words@) == kill_command_words(platform, pid),
{
    let mut number = String::new();
    push_decimal(&mut number, pid as u64);
    let mut words: Vec<String> = Vec::new();
    match platform {
        Platform::Windows => {
            words.push("taskkill".to_owned());
            words.push("/PID".to_owned());
            words.push(number);
            words.push("/F".to_owned());
        },
        _ => {
            words.push("kill".to_owned());
            words.push("-9".to_owned());
            words.push(number);
        },
    }
    proof {
        assert(number@ =~= decimal(pid as nat));
        assert(string_views(words@) =~= kill_command_words(platform, pid));
    }
    words
}

} // verus!
