use perfo::disk::{
    device_key, device_mapper_index, disk_spaces, diskstats_from, io_deltas, io_deltas_by_device,
    is_real_fs, resolve_device_names, DiskRecord, RawCounters,
};

fn line() -> &'static str {
    "259 0 nvme0n1 1000 0 100000 500 200 0 40000 400 0 600 800\n"
}

#[test]
fn diskstats_parses_counters() {
    let m = diskstats_from(line());
    let c = m.get("nvme0n1").unwrap();
    assert_eq!(c.reads, 1000);
    assert_eq!(c.sectors_read, 100000);
    assert_eq!(c.ms_reading, 500);
    assert_eq!(c.writes, 200);
    assert_eq!(c.ms_doing_io, 600);
    assert_eq!(c.ms_weighted_io, 800);
}

#[test]
fn diskstats_skips_garbage() {
    let m = diskstats_from("garbage line\n259 0 nvme0n1 1 2 3 4 5\n");
    assert_eq!(m.len(), 0);
}

#[test]
fn diskstats_keeps_every_field_and_ignores_extra_columns() {
    let m = diskstats_from(
        "8 0 sda 1 2 3 4 5 6 7 8 9 10 11 12 13 14 15 16 17\n8 1 sda1 21 22 23 24 25 26 27 28 29 30 31",
    );
    assert_eq!(m.len(), 2);
    let c = m.get("sda").unwrap();
    assert_eq!(
        (c.reads, c.reads_merged, c.sectors_read, c.ms_reading, c.writes),
        (1, 2, 3, 4, 5)
    );
    assert_eq!(
        (c.writes_merged, c.sectors_written, c.ms_writing, c.ms_doing_io, c.ms_weighted_io),
        (6, 7, 8, 10, 11)
    );
    let p = m.get("sda1").unwrap();
    assert_eq!((p.reads, p.ms_weighted_io), (21, 31));
    assert!(m.get("sdb").is_none());
}

#[test]
fn diskstats_later_line_replaces_earlier() {
    let m = diskstats_from(
        "8 0 sda 1 0 0 0 0 0 0 0 0 0 0\r\n8 0 sda 9 0 0 0 0 0 0 0 0 0 0\r\n",
    );
    assert_eq!(m.len(), 1);
    assert_eq!(m.get("sda").unwrap().reads, 9);
}

#[test]
fn diskstats_rejects_non_numeric_field() {
    let m = diskstats_from("8 0 sda 1 2 3 4 5 6 7 x 9 10 11\n8 0 sdb 1 2 3 4 5 6 7 8 9 10 -11\n");
    assert_eq!(m.len(), 0);
}

fn sample(v: u64) -> RawCounters {
    RawCounters {
        reads: v,
        reads_merged: v + 1,
        sectors_read: v + 2,
        ms_reading: v + 3,
        writes: v + 4,
        writes_merged: v + 5,
        sectors_written: v + 6,
        ms_writing: v + 7,
        ms_doing_io: v + 8,
        ms_weighted_io: v + 9,
    }
}

#[test]
fn io_deltas_of_same_sample_are_zero() {
    let d = io_deltas(&sample(40), &sample(40));
    assert_eq!(
        (d.reads, d.reads_merged, d.sectors_read, d.ms_reading, d.writes),
        (0, 0, 0, 0, 0)
    );
    assert_eq!(
        (d.writes_merged, d.sectors_written, d.ms_writing, d.ms_doing_io, d.ms_weighted_io),
        (0, 0, 0, 0, 0)
    );
}

#[test]
fn io_deltas_add_back_and_reset_reads_zero() {
    let prev = sample(100);
    let cur = sample(250);
    let d = io_deltas(&prev, &cur);
    assert_eq!(prev.reads + d.reads, cur.reads);
    assert_eq!(prev.ms_weighted_io + d.ms_weighted_io, cur.ms_weighted_io);
    assert_eq!(d.writes, 150);
    let reset = io_deltas(&cur, &prev);
    assert_eq!(reset.reads, 0);
    assert_eq!(reset.ms_doing_io, 0);
}

#[test]
fn io_deltas_by_device_needs_both_samples() {
    let prev = diskstats_from("259 0 nvme0n1 1000 0 100000 500 200 0 40000 400 0 600 800\n");
    let cur = diskstats_from(
        "259 0 nvme0n1 3000 0 300000 900 400 0 80000 800 0 2600 2800\n8 0 sda 5 0 0 0 0 0 0 0 0 0 0\n",
    );
    let d = io_deltas_by_device(&prev, &cur);
    assert_eq!(d.len(), 1);
    let n = d.get("nvme0n1").unwrap();
    assert_eq!(n.reads, 2000);
    assert_eq!(n.ms_reading, 400);
    assert_eq!(n.ms_doing_io, 2000);
    assert_eq!(n.ms_weighted_io, 2000);
    assert!(d.get("sda").is_none());
    let first = io_deltas_by_device(&diskstats_from(""), &cur);
    assert_eq!(first.len(), 0);
}

#[test]
fn real_file_systems_are_listed() {
    assert!(is_real_fs("btrfs"));
    assert!(is_real_fs("ext2"));
    assert!(is_real_fs("exfat"));
    assert!(!is_real_fs("tmpfs"));
    assert!(!is_real_fs("ext"));
    assert!(!is_real_fs(""));
}

#[test]
fn device_key_is_last_path_component() {
    assert_eq!(device_key("/dev/nvme0n1p2"), "nvme0n1p2");
    assert_eq!(device_key("/dev/mapper/root"), "root");
    assert_eq!(device_key("sda"), "sda");
    assert_eq!(device_key("/dev/"), "");
}

#[test]
fn device_mapper_nodes_give_their_index() {
    assert_eq!(device_mapper_index("dm-0").as_deref(), Some("0"));
    assert_eq!(device_mapper_index("dm-12").as_deref(), Some("12"));
    assert_eq!(device_mapper_index("sda"), None);
    assert_eq!(device_mapper_index("dm"), None);
}

#[test]
fn diskstats_of_joined_texts_later_device_wins() {
    let a = "8 0 sda 1 0 0 0 0 0 0 0 0 0 0\n8 1 sdb 2 0 0 0 0 0 0 0 0 0 0\n";
    let b = "8 1 sdb 5 0 0 0 0 0 0 0 0 0 0\n8 2 sdc 6 0 0 0 0 0 0 0 0 0 0\n";
    let m = diskstats_from(&format!("{a}{b}"));
    assert_eq!(m.len(), 3);
    assert_eq!(m.get("sda").unwrap().reads, 1);
    assert_eq!(m.get("sdb").unwrap().reads, 5);
    assert_eq!(m.get("sdc").unwrap().reads, 6);
}

#[test]
fn device_mapper_nodes_take_their_friendly_name() {
    let parsed = diskstats_from(
        "253 0 dm-0 1 0 0 0 0 0 0 0 0 0 0\n253 1 dm-1 2 0 0 0 0 0 0 0 0 0 0\n8 0 sda 3 0 0 0 0 0 0 0 0 0 0\n",
    );
    let reads = vec![Some("root\n".to_string()), None, Some("ignored".to_string())];
    let m = resolve_device_names(&parsed, &reads);
    assert_eq!(m.len(), 3);
    assert_eq!(m.get("root").unwrap().reads, 1);
    assert_eq!(m.get("dm-1").unwrap().reads, 2);
    assert_eq!(m.get("sda").unwrap().reads, 3);
    assert!(m.get("dm-0").is_none());
    assert!(m.get("ignored").is_none());
}

fn record(name: &str, fs: &str, total: u64, available: u64) -> DiskRecord {
    DiskRecord {
        name: name.to_string(),
        fs: fs.to_string(),
        total_bytes: total,
        available_bytes: available,
    }
}

#[test]
fn shown_disks_have_key_and_used_space() {
    let disks = vec![
        record("/dev/nvme0n1p2", "btrfs", 1000, 400),
        record("tmpfs", "tmpfs", 10, 5),
        record("/dev/mapper/root", "ext4", 100, 150),
    ];
    let shown = disk_spaces(&disks);
    assert_eq!(shown.len(), 2);
    assert_eq!((shown[0].index, shown[0].key.as_str(), shown[0].used_bytes), (0, "nvme0n1p2", 600));
    assert_eq!((shown[1].index, shown[1].key.as_str(), shown[1].used_bytes), (2, "root", 0));
}
