use hostdash::system::{
    get_disk_io, get_network_io, get_open_ports, kill_command, sum_counters, Platform,
};
use sysinfo::{Networks, System};

#[test]
fn sums_interface_counters() {
    assert_eq!(sum_counters(&vec![]), (0, 0));
    assert_eq!(sum_counters(&vec![(1, 2)]), (1, 2));
    assert_eq!(sum_counters(&vec![(1, 2), (10, 20), (100, 200)]), (111, 222));
}

#[test]
fn interface_sums_drop_the_carry() {
    assert_eq!(sum_counters(&vec![(u64::MAX, 1), (1, u64::MAX), (5, 5)]), (5, 5));
    assert_eq!(sum_counters(&vec![(u64::MAX, u64::MAX), (u64::MAX, 0)]), (u64::MAX - 1, u64::MAX));
}

#[test]
fn network_totals_of_no_interface_are_zero() {
    let networks = Networks::new();
    assert_eq!(get_network_io(&networks), (0, 0));
}

#[test]
fn network_totals_sum_every_interface() {
    let networks = Networks::new_with_refreshed_list();
    let mut rx: u64 = 0;
    let mut tx: u64 = 0;
    for (_name, data) in networks.list() {
        rx = rx.wrapping_add(data.total_received());
        tx = tx.wrapping_add(data.total_transmitted());
    }
    assert_eq!(get_network_io(&networks), (rx, tx));
}

#[test]
fn open_ports_without_processes_use_fallback_names() {
    let system = System::new();
    let lsof = "a 1 me 20u IPv4 0x1 0t0 TCP *:9090 (LISTEN)\n\
                b 2 me 20u IPv4 0x1 0t0 TCP *:80 (LISTEN)\n\
                c 3 me 20u IPv4 0x1 0t0 TCP *:443 (LISTEN)\n\
                d 4 me 20u IPv4 0x1 0t0 TCP *:80 (LISTEN)\n";
    assert_eq!(
        get_open_ports(&system, Platform::MacOs, lsof),
        vec![(80, "b".to_string(), 2), (443, "c".to_string(), 3), (9090, "a".to_string(), 1)]
    );
    let ss = "header\nLISTEN 0 128 *:22 *:* users:((\"sshd\",pid=77,fd=3))\n";
    assert_eq!(
        get_open_ports(&system, Platform::Linux, ss),
        vec![(22, "unknown".to_string(), 77)]
    );
    assert_eq!(get_open_ports(&system, Platform::Other, ss), vec![]);
}

#[test]
fn open_ports_are_named_by_the_process_table() {
    let system = System::new_all();
    let mut checked: u32 = 0;
    for (pid, process) in system.processes() {
        let name = process.name().to_string_lossy().to_string();
        let ss = format!(
            "header\nLISTEN 0 128 *:8080 *:* users:((\"x\",pid={},fd=3))\n",
            pid.as_u32()
        );
        let lsof = format!("cmd {} me 20u IPv4 0x1 0t0 TCP *:8080 (LISTEN)\n", pid.as_u32());
        if pid.as_u32() > 0 {
            assert_eq!(
                get_open_ports(&system, Platform::Linux, &ss),
                vec![(8080, name.clone(), pid.as_u32())]
            );
        }
        assert_eq!(
            get_open_ports(&system, Platform::MacOs, &lsof),
            vec![(8080, name, pid.as_u32())]
        );
        checked += 1;
        if checked >= 5 {
            break;
        }
    }
}

#[test]
fn kill_command_names_program_and_arguments() {
    assert_eq!(kill_command(Platform::Linux, 1234), vec!["kill", "-9", "1234"]);
    assert_eq!(kill_command(Platform::MacOs, 1), vec!["kill", "-9", "1"]);
    assert_eq!(kill_command(Platform::Other, 0), vec!["kill", "-9", "0"]);
    assert_eq!(kill_command(Platform::Windows, 1234), vec!["taskkill", "/PID", "1234", "/F"]);
    assert_eq!(
        kill_command(Platform::Windows, u32::MAX),
        vec!["taskkill", "/PID", "4294967295", "/F"]
    );
}

#[test]
fn windows_tools_are_not_read() {
    let system = System::new();
    let lsof = "a 1 me 20u IPv4 0x1 0t0 TCP *:9090 (LISTEN)\n";
    assert_eq!(get_open_ports(&system, Platform::Windows, lsof), vec![]);
    assert_eq!(get_disk_io(Platform::Windows, "8 0 sda 1 2 3 4 5 6 7 8 9 10 11\n"), (0, 0));
}
