use hostdash::disk::{
    counts_device, parse_diskstats, parse_ioreg, read_diskstats_line, read_labeled_number,
};
use hostdash::system::{get_disk_io, Platform};
use hostdash::text::chars_of;

fn table_line(name: &str, sectors_read: u64, sectors_written: u64) -> String {
    format!(
        "   8       0 {} 4000 10 {} 900 5000 20 {} 800 0 700 1700 0 0 0 0\n",
        name, sectors_read, sectors_written
    )
}

#[test]
fn partition_filter_keeps_whole_disks_and_nvme() {
    assert!(counts_device(&chars_of("sda")));
    assert!(!counts_device(&chars_of("sda1")));
    assert!(counts_device(&chars_of("nvme0n1")));
    assert!(counts_device(&chars_of("nvme0n1p1")));
    assert!(counts_device(&chars_of("vda")));
    assert!(!counts_device(&chars_of("vda2")));
    assert!(!counts_device(&chars_of("loop0")));
    assert!(!counts_device(&chars_of("dm-0")));
    assert!(!counts_device(&chars_of("")));
    assert!(counts_device(&chars_of("sd")));
}

#[test]
fn partition_filter_decides_the_totals() {
    let mut table = String::new();
    table.push_str(&table_line("sda", 1, 10));
    table.push_str(&table_line("sda1", 100, 1000));
    table.push_str(&table_line("nvme0n1", 2, 20));
    table.push_str(&table_line("nvme0n1p1", 4, 40));
    table.push_str(&table_line("vda", 8, 80));
    assert_eq!(parse_diskstats(&table), (15 * 512, 150 * 512));
}

#[test]
fn counter_table_sums_sectors_times_512() {
    let table = "   8       0 sda 4000 10 2000 900 5000 20 3000 800 0 700 1700\n\
                 \x20  8       1 sda1 100 0 999 9 50 0 999 8 0 7 17\n\
                 \x20259       0 nvme0n1 1 2 16 4 5 6 32 8 9 10 11\n";
    assert_eq!(parse_diskstats(table), ((2000 + 16) * 512, (3000 + 32) * 512));
}

#[test]
fn counter_table_passes_over_malformed_lines() {
    let table = "garbage\n\
                 8 0 sda 1 2 3\n\
                 8 0 sda 1 2 x 4 5 6 7 8 9 10 11\n\
                 8 0 sda 1 2 3 4 5 6 -7 8 9 10 11\n\
                 \n\
                 8 0 sdb 1 2 +3 4 5 6 7 8 9 10 11\n";
    assert_eq!(parse_diskstats(table), (3 * 512, 7 * 512));
    assert_eq!(parse_diskstats(""), (0, 0));
}

#[test]
fn counter_table_line_needs_fourteen_fields() {
    assert_eq!(read_diskstats_line(&chars_of("8 0 sda 1 2 3 4 5 6 7 8 9 10 11")), Some((3, 7)));
    assert_eq!(read_diskstats_line(&chars_of("8 0 sda 1 2 3 4 5 6 7 8 9 10")), None);
    assert_eq!(read_diskstats_line(&chars_of("8 0 sda1 1 2 3 4 5 6 7 8 9 10 11")), None);
    assert_eq!(
        read_diskstats_line(&chars_of("8 0 sda 1 2 18446744073709551616 4 5 6 7 8 9 10 11")),
        None
    );
}

#[test]
fn counter_table_totals_drop_the_carry() {
    // 2^55 sectors are 2^64 bytes.
    let table = "8 0 sda 1 2 36028797018963968 4 5 6 36028797018963969 8 9 10 11\n";
    assert_eq!(parse_diskstats(table), (0, 512));
    let twice = "8 0 sda 1 2 18446744073709551615 4 5 6 1 8 9 10 11\n\
                 8 0 sdb 1 2 18446744073709551615 4 5 6 1 8 9 10 11\n";
    let expected: u64 = u64::MAX.wrapping_mul(512).wrapping_add(u64::MAX.wrapping_mul(512));
    assert_eq!(parse_diskstats(twice), (expected, 1024));
}

#[test]
fn registry_report_sums_statistics_lines() {
    let report = "+-o IOBlockStorageDriver  <class IOBlockStorageDriver>\n\
                  \x20   \"Statistics\" = {\"Operations (Write)\"=5,\"Bytes (Read)\"=1000,\"Bytes (Write)\"=2000,\"Errors\"=0}\n\
                  \x20   \"Other\" = {\"Bytes (Read)\"=77,\"Bytes (Write)\"=88}\n\
                  \x20   \"Statistics\" = {\"Bytes (Write)\"=30,\"Bytes (Read)\"=4}\n";
    assert_eq!(parse_ioreg(report), (1004, 2030));
    assert_eq!(parse_ioreg(""), (0, 0));
}

#[test]
fn registry_report_needs_a_character_behind_the_number() {
    assert_eq!(parse_ioreg("\"Statistics\" \"Bytes (Read)\"=123"), (0, 0));
    assert_eq!(parse_ioreg("\"Statistics\" \"Bytes (Read)\"=123\r\n"), (0, 0));
    assert_eq!(parse_ioreg("\"Statistics\" \"Bytes (Read)\"=123}"), (123, 0));
    assert_eq!(parse_ioreg("\"Statistics\" \"Bytes (Read)\"=}"), (0, 0));
    assert_eq!(parse_ioreg("\"Statistics\" \"Bytes (Write)\"=9,\"Bytes (Write)\"=7,"), (0, 9));
}

#[test]
fn labeled_number_reads_the_first_occurrence() {
    let label = chars_of("\"Bytes (Read)\"=");
    assert_eq!(read_labeled_number(&chars_of("x\"Bytes (Read)\"=42,y"), &label), Some(42));
    assert_eq!(read_labeled_number(&chars_of("x\"Bytes (Read)\"=42"), &label), None);
    assert_eq!(read_labeled_number(&chars_of("nothing here"), &label), None);
    assert_eq!(read_labeled_number(&chars_of("\"Bytes (Read)\"=4²,"), &label), None);
    assert_eq!(
        read_labeled_number(&chars_of("\"Bytes (Read)\"=18446744073709551616,"), &label),
        None
    );
}

#[test]
fn disk_source_is_read_in_the_format_of_the_platform() {
    let table = "8 0 sda 1 2 3 4 5 6 7 8 9 10 11\n";
    let report = "\"Statistics\" = {\"Bytes (Read)\"=10,\"Bytes (Write)\"=20}\n";
    assert_eq!(get_disk_io(Platform::Linux, table), (3 * 512, 7 * 512));
    assert_eq!(get_disk_io(Platform::MacOs, report), (10, 20));
    assert_eq!(get_disk_io(Platform::Linux, report), (0, 0));
    assert_eq!(get_disk_io(Platform::MacOs, table), (0, 0));
    assert_eq!(get_disk_io(Platform::Other, table), (0, 0));
    assert_eq!(get_disk_io(Platform::Linux, ""), (0, 0));
}
