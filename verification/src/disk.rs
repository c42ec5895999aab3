//! Cumulative disk traffic, read from the text of two operating-system
//! sources: the kernel's per-device counter table and the report of the
//! block-storage registry tool.

use crate::counters::{add_wrapped, wrap};
use crate::text::{
    chars_of, contains, copy_range, fields, find, find_in, is_number_char, lines, numeric, numeric_run,
    parse_unsigned, read_unsigned, run_len, split_fields, split_lines, starts_with, views,
};
use vstd::prelude::*;

verus! {

/// Bytes in one sector of the counter table.
pub const SECTOR_BYTES: u64 = 512;

/// Whether a device name follows the naming of SATA, NVMe or virtio disks.
pub open spec fn is_disk_name(name: Seq<char>) -> bool {
    "sd"@.is_prefix_of(name) || "nvme"@.is_prefix_of(name) || "vd"@.is_prefix_of(name)
}

/// Whether a device name ends in a number, as partition names do.
pub open spec fn ends_in_number(name: Seq<char>) -> bool {
    name.len() > 0 && is_number_char(name.last())
}

/// Whether the traffic of a device counts toward the totals: it is a disk
/// and not a partition of one. Every NVMe name counts, because the
/// namespace devices themselves end in a number.
pub open spec fn is_counted_device(name: Seq<char>) -> bool {
    is_disk_name(name) && (!ends_in_number(name) || "nvme"@.is_prefix_of(name))
}

/// The sectors read and written that one line of the counter table
/// reports, where the line has at least 14 fields, names a counted device
/// in its third field and holds numbers in its sixth and tenth.
pub open spec fn diskstats_sectors(line: Seq<char>) -> Option<(nat, nat)> {
    let parts = fields(line);
    if parts.len() >= 14 && is_counted_device(parts[2]) {
        match (
            parse_unsigned(parts[5], u64::MAX as nat),
            parse_unsigned(parts[9], u64::MAX as nat),
        ) {
            (Some(read), Some(written)) => Some((read, written)),
            _ => None,
        }
    } else {
        None
    }
}

/// Bytes read and written over all lines of a counter table.
pub open spec fn diskstats_totals(table: Seq<Seq<char>>) -> (nat, nat)
    decreases table.len(),
{
    if table.len() == 0 {
        (0, 0)
    } else {
        let before = diskstats_totals(table.drop_last());
        match diskstats_sectors(table.last()) {
            Some((read, written)) => (
                before.0 + read * SECTOR_BYTES as nat,
                before.1 + written * SECTOR_BYTES as nat,
            ),
            None => before,
        }
    }
}

/// The number that follows the first occurrence of `label` in `line`: the
/// run of numeric characters behind the label, provided that some other
/// character ends the run and that the run reads as a 64-bit number.
pub open spec fn labeled_number(line: Seq<char>, label: Seq<char>) -> Option<nat> {
    match find(line, label) {
        Some(at) => {
            let rest = line.skip(at + label.len());
            let n = run_len(rest, numeric());
            if n < rest.len() {
                parse_unsigned(rest.take(n as int), u64::MAX as nat)
            } else {
                None
            }
        },
        None => None,
    }
}

/// A labeled number, or zero where the line holds none.
pub open spec fn labeled_number_or_zero(line: Seq<char>, label: Seq<char>) -> nat {
    match labeled_number(line, label) {
        Some(n) => n,
        None => 0,
    }
}

/// Bytes read and written that one line of the registry report adds:
/// nothing unless the line holds the statistics marker.
pub open spec fn ioreg_bytes(line: Seq<char>) -> (nat, nat) {
    if contains(line, "Statistics"@) {
        (
            labeled_number_or_zero(line, "\"Bytes (Read)\"="@),
            labeled_number_or_zero(line, "\"Bytes (Write)\"="@),
        )
    } else {
        (0, 0)
    }
}

/// Bytes read and written over all lines of a registry report.
pub open spec fn ioreg_totals(report: Seq<Seq<char>>) -> (nat, nat)
    decreases report.len(),
{
    if report.len() == 0 {
        (0, 0)
    } else {
        let before = ioreg_totals(report.drop_last());
        let here = ioreg_bytes(report.last());
        (before.0 + here.0, before.1 + here.1)
    }
}

/// Decides whether the traffic of the named device counts.
pub fn counts_device(name: &Vec<char>) -> (r: bool)
    ensures
        r == is_counted_device(name@),
{
    let sd = chars_of("sd");
    let nvme = chars_of("nvme");
    let vd = chars_of("vd");
    let is_nvme = starts_with(name, &nvme);
    if starts_with(name, &sd) || is_nvme || starts_with(name, &vd) {
        let n = name.len();
        let partition = n > 0 && name[n - 1].is_numeric();
        !partition || is_nvme
    } else {
        false
    }
}

/// Reads the sector counts of one line of the counter table.
pub fn read_diskstats_line(line: &Vec<char>) -> (r: Option<(u64, u64)>)
    ensures
        match r {
            Some((read, written)) => diskstats_sectors(line@) == Some(
                (read as nat, written as nat),
            ),
            None => diskstats_sectors(line@) is None,
        },
{
    let parts = split_fields(line);
    if parts.len() >= 14 && counts_device(&parts[2]) {
        let read = read_unsigned(&parts[5], u64::MAX);
        let written = read_unsigned(&parts[9], u64::MAX);
        match (read, written) {
            (Some(read), Some(written)) => Some((read, written)),
            _ => None,
        }
    } else {
        None
    }
}

/// Totals the bytes read and written that a per-device counter table
/// reports for whole disks. Lines that do not fit the table are passed
/// over; the totals are kept in 64 bits, so a carry out of them is
/// dropped.
pub fn parse_diskstats(content: &str) -> (totals: (u64, u64))
    ensures
        totals.0 == wrap(diskstats_totals(lines(content@)).0),
        totals.1 == wrap(diskstats_totals(lines(content@)).1),
{
    let text = chars_of(content);
    let table = split_lines(&text);
    let mut read_bytes: u64 = 0;
    let mut write_bytes: u64 = 0;
    let ghost all = views(table@);
    let n = table.len();
    let mut i: usize = 0;
    proof {
        assert(all.take(0) =~= Seq::<Seq<char>>::empty());
    }
    while i < n
        invariant
            n == table.len(),
            i <= n,
            all == views(table@),
            read_bytes == wrap(diskstats_totals(all.take(i as int)).0),
            write_bytes == wrap(diskstats_totals(all.take(i as int)).1),
        decreases n - i,
    {
        let ghost before = diskstats_totals(all.take(i as int));
        proof {
            assert(all.take(i + 1).drop_last() =~= all.take(i as int));
            assert(all.take(i + 1).last() == table@[i as int]@);
        }
        match read_diskstats_line(&table[i]) {
            Some((read, written)) => {
                let read_amount = read.wrapping_mul(SECTOR_BYTES);
                let write_amount = written.wrapping_mul(SECTOR_BYTES);
                read_bytes =
                add_wrapped(
                    read_bytes,
                    read_amount,
                    Ghost(before.0),
                    Ghost(read as nat * SECTOR_BYTES as nat),
                );
                write_bytes =
                add_wrapped(
                    write_bytes,
                    write_amount,
                    Ghost(before.1),
                    Ghost(written as nat * SECTOR_BYTES as nat),
                );
            },
            None => {},
        }
        i += 1;
    }
    proof {
        assert(all.take(n as int) =~= all);
    }
    (read_bytes, write_bytes)
}

/// Reads the number behind the first occurrence of `label` in `line`.
pub fn read_labeled_number(line: &Vec<char>, label: &Vec<char>) -> (r: Option<u64>)
    ensures
        match r {
            Some(n) => labeled_number(line@, label@) == Some(n as nat),
            None => labeled_number(line@, label@) is None,
        },
{
    match find_in(line, label) {
        Some(at) => {
            let start = at + label.len();
            let n = numeric_run(line, start);
            proof {
                let rest = line@.skip(start as int);
                assert(rest.take(n as int) =~= line@.subrange(start as int, start + n));
            }
            if start + n < line.len() {
                let digits = copy_range(line, start, start + n);
                read_unsigned(&digits, u64::MAX)
            } else {
                None
            }
        },
        None => None,
    }
}

/// Totals the bytes read and written that the block-storage registry
/// report states on its statistics lines. A number that runs to the end
/// of its line, or that does not fit 64 bits, adds nothing; the totals
/// are kept in 64 bits, so a carry out of them is dropped.
pub fn parse_ioreg(output: &str) -> (totals: (u64, u64))
    ensures
        totals.0 == wrap(ioreg_totals(lines(output@)).0),
        totals.1 == wrap(ioreg_totals(lines(output@)).1),
{
    let text = chars_of(output);
    let report = split_lines(&text);
    let marker = chars_of("Statistics");
    let read_label = chars_of("\"Bytes (Read)\"=");
    let write_label = chars_of("\"Bytes (Write)\"=");
    let mut total_read: u64 = 0;
    let mut total_write: u64 = 0;
    let ghost all = views(report@);
    let n = report.len();
    let mut i: usize = 0;
    proof {
        assert(all.take(0) =~= Seq::<Seq<char>>::empty());
    }
    while i < n
        invariant
            n == report.len(),
            i <= n,
            all == views(report@),
            marker@ == "Statistics"@,
            read_label@ == "\"Bytes (Read)\"="@,
            write_label@ == "\"Bytes (Write)\"="@,
            total_read == wrap(ioreg_totals(all.take(i as int)).0),
            total_write == wrap(ioreg_totals(all.take(i as int)).1),
        decreases n - i,
    {
        let ghost before = ioreg_totals(all.take(i as int));
        proof {
            assert(all.take(i + 1).drop_last() =~= all.take(i as int));
            assert(all.take(i + 1).last() == report@[i as int]@);
        }
        let line = &report[i];
        let mut read: u64 = 0;
        let mut written: u64 = 0;
        if find_in(line, &marker).is_some() {
            if let Some(bytes) = read_labeled_number(line, &read_label) {
                read = bytes;
            }
            if let Some(bytes) = read_labeled_number(line, &write_label) {
                written = bytes;
            }
        }
        total_read = add_wrapped(total_read, read, Ghost(before.0), Ghost(read as nat));
        total_write = add_wrapped(total_write, written, Ghost(before.1), Ghost(written as nat));
        i += 1;
    }
    proof {
        assert(all.take(n as int) =~= all);
    }
    (total_read, total_write)
}

} // verus!
