//! Block-device statistics: the `/proc/diskstats` parser, the counter
//! deltas between two samples, and the rules that pick which mounted file
//! systems are shown and under which device name their counters are found.
use vstd::prelude::*;

use crate::table::NameTable;
use crate::text::{
    chars_of, has_prefix, lines_of, parse_u64, same_chars, slice_chars, spec_lines, spec_parse_u64,
    spec_words, string_of, views, words_of,
};

verus! {

/// Raw per-device counters from `/proc/diskstats` (kernel iostats fields).
#[derive(Clone, Copy, Debug, Default)]
pub struct RawCounters {
    pub reads: u64,
    pub reads_merged: u64,
    pub sectors_read: u64,
    pub ms_reading: u64,
    pub writes: u64,
    pub writes_merged: u64,
    pub sectors_written: u64,
    pub ms_writing: u64,
    pub ms_doing_io: u64,
    pub ms_weighted_io: u64,
}

/// Counters keyed by device name.
pub type DiskStats = NameTable<RawCounters>;

/// The counter a token holds (0 where it holds none).
pub open spec fn counter_value(t: Seq<char>) -> u64 {
    spec_parse_u64(t).unwrap_or(0) as u64
}

/// One `/proc/diskstats` line: major, minor, device name, then eleven
/// numeric fields; later (discard/flush) fields are ignored. A line with
/// fewer fields, or a field that is not a number, is no entry.
pub open spec fn disk_line(l: Seq<char>) -> Option<(Seq<char>, RawCounters)> {
    let t = spec_words(l);
    if t.len() >= 14 && (forall|j: int| 3 <= j < 14 ==> (#[trigger] spec_parse_u64(t[j])) is Some) {
        Some(
            (
                t[2],
                RawCounters {
                    reads: counter_value(t[3]),
                    reads_merged: counter_value(t[4]),
                    sectors_read: counter_value(t[5]),
                    ms_reading: counter_value(t[6]),
                    writes: counter_value(t[7]),
                    writes_merged: counter_value(t[8]),
                    sectors_written: counter_value(t[9]),
                    ms_writing: counter_value(t[10]),
                    ms_doing_io: counter_value(t[12]),
                    ms_weighted_io: counter_value(t[13]),
                },
            ),
        )
    } else {
        None
    }
}

/// The device map that a sequence of lines gives; a later line for a
/// device replaces an earlier one.
pub open spec fn disk_map(ls: Seq<Seq<char>>) -> Map<Seq<char>, RawCounters>
    decreases ls.len(),
{
    if ls.len() == 0 {
        Map::empty()
    } else {
        match disk_line(ls.last()) {
            Some(e) => disk_map(ls.drop_last()).insert(e.0, e.1),
            None => disk_map(ls.drop_last()),
        }
    }
}

fn parse_disk_line(line: &Vec<char>) -> (r: Option<(String, RawCounters)>)
    ensures
        match r {
            Some(e) => disk_line(line@) == Some((e.0@, e.1)),
            None => disk_line(line@) is None,
        },
{
    let t = words_of(line);
    let ghost tv = views(t@);
    assert(tv.len() == t.len());
    if t.len() < 14 {
        return None;
    }
    let mut vals: Vec<u64> = Vec::new();
    let mut j: usize = 3;
    while j < 14
        invariant
            3 <= j <= 14 <= t.len(),
            tv == views(t@),
            tv == spec_words(line@),
            vals.len() == j - 3,
            forall|m: int| 3 <= m < j ==> spec_parse_u64(tv[m]) == Some(vals@[m - 3] as nat),
        decreases 14 - j,
    {
        assert(tv[j as int] == t@[j as int]@);
        match parse_u64(&t[j]) {
            Some(v) => {
                vals.push(v);
            },
            None => {
                assert(spec_parse_u64(tv[j as int]) is None);
                return None;
            },
        }
        j = j + 1;
    }
    assert(tv[2] == t@[2]@);
    let name = string_of(t[2].as_slice());
    let c = RawCounters {
        reads: vals[0],
        reads_merged: vals[1],
        sectors_read: vals[2],
        ms_reading: vals[3],
        writes: vals[4],
        writes_merged: vals[5],
        sectors_written: vals[6],
        ms_writing: vals[7],
        ms_doing_io: vals[9],
        ms_weighted_io: vals[10],
    };
    assert(forall|m: int| 3 <= m < 14 ==> (#[trigger] spec_parse_u64(tv[m])) is Some);
    assert(spec_parse_u64(tv[3]) == Some(vals@[0] as nat));
    assert(spec_parse_u64(tv[4]) == Some(vals@[1] as nat));
    assert(spec_parse_u64(tv[5]) == Some(vals@[2] as nat));
    assert(spec_parse_u64(tv[6]) == Some(vals@[3] as nat));
    assert(spec_parse_u64(tv[7]) == Some(vals@[4] as nat));
    assert(spec_parse_u64(tv[8]) == Some(vals@[5] as nat));
    assert(spec_parse_u64(tv[9]) == Some(vals@[6] as nat));
    assert(spec_parse_u64(tv[10]) == Some(vals@[7] as nat));
    assert(spec_parse_u64(tv[12]) == Some(vals@[9] as nat));
    assert(spec_parse_u64(tv[13]) == Some(vals@[10] as nat));
    Some((name, c))
}

/// Parses `/proc/diskstats` text into counters keyed by device name.
/// Lines that do not hold a device name and eleven numbers are skipped.
pub fn diskstats_from(raw: &str) -> (r: DiskStats)
    ensures
        r.wf(),
        r@ == disk_map(spec_lines(raw@)),
{
    let chars = chars_of(raw);
    let lines = lines_of(&chars);
    let ghost lv = views(lines@);
    let mut out: DiskStats = NameTable::new();
    let mut i: usize = 0;
    while i < lines.len()
        invariant
            i <= lines.len(),
            lv == views(lines@),
            lv == spec_lines(raw@),
            out.wf(),
            out@ == disk_map(lv.take(i as int)),
        decreases lines.len() - i,
    {
        assert(lv.take(i + 1).drop_last() =~= lv.take(i as int));
        assert(lv.take(i + 1).last() == lines@[i as int]@);
        match parse_disk_line(&lines[i]) {
            Some(e) => {
                out.insert(e.0, e.1);
            },
            None => {},
        }
        i = i + 1;
    }
    assert(lv.take(i as int) =~= lv);
    out
}

/// `a - b`, or 0 where `b` is larger (a counter that went back).
pub open spec fn sat_sub(a: u64, b: u64) -> u64 {
    if a >= b {
        (a - b) as u64
    } else {
        0
    }
}

/// What each counter grew by from `prev` to `cur`; a counter that went
/// back (device reset) counts as 0.
pub open spec fn counter_deltas(prev: RawCounters, cur: RawCounters) -> RawCounters {
    RawCounters {
        reads: sat_sub(cur.reads, prev.reads),
        reads_merged: sat_sub(cur.reads_merged, prev.reads_merged),
        sectors_read: sat_sub(cur.sectors_read, prev.sectors_read),
        ms_reading: sat_sub(cur.ms_reading, prev.ms_reading),
        writes: sat_sub(cur.writes, prev.writes),
        writes_merged: sat_sub(cur.writes_merged, prev.writes_merged),
        sectors_written: sat_sub(cur.sectors_written, prev.sectors_written),
        ms_writing: sat_sub(cur.ms_writing, prev.ms_writing),
        ms_doing_io: sat_sub(cur.ms_doing_io, prev.ms_doing_io),
        ms_weighted_io: sat_sub(cur.ms_weighted_io, prev.ms_weighted_io),
    }
}

/// The counter deltas between two samples of one device.
pub fn io_deltas(prev: &RawCounters, cur: &RawCounters) -> (r: RawCounters)
    ensures
        r == counter_deltas(*prev, *cur),
{
    RawCounters {
        reads: cur.reads.saturating_sub(prev.reads),
        reads_merged: cur.reads_merged.saturating_sub(prev.reads_merged),
        sectors_read: cur.sectors_read.saturating_sub(prev.sectors_read),
        ms_reading: cur.ms_reading.saturating_sub(prev.ms_reading),
        writes: cur.writes.saturating_sub(prev.writes),
        writes_merged: cur.writes_merged.saturating_sub(prev.writes_merged),
        sectors_written: cur.sectors_written.saturating_sub(prev.sectors_written),
        ms_writing: cur.ms_writing.saturating_sub(prev.ms_writing),
        ms_doing_io: cur.ms_doing_io.saturating_sub(prev.ms_doing_io),
        ms_weighted_io: cur.ms_weighted_io.saturating_sub(prev.ms_weighted_io),
    }
}

/// Deltas for exactly the devices present in both samples.
pub open spec fn deltas_map(prev: Map<Seq<char>, RawCounters>, cur: Map<Seq<char>, RawCounters>) -> Map<
    Seq<char>,
    RawCounters,
> {
    Map::new(
        |k: Seq<char>| prev.dom().contains(k) && cur.dom().contains(k),
        |k: Seq<char>| counter_deltas(prev[k], cur[k]),
    )
}

/// Counter deltas of every device in `cur` that `prev` knows; a device
/// seen for the first time has no delta yet.
pub fn io_deltas_by_device(prev: &DiskStats, cur: &DiskStats) -> (r: DiskStats)
    requires
        prev.wf(),
        cur.wf(),
    ensures
        r.wf(),
        r@ == deltas_map(prev@, cur@),
{
    proof {
        cur.lemma_view();
    }
    let n = cur.len();
    let mut out: DiskStats = NameTable::new();
    let mut i: usize = 0;
    while i < n
        invariant
            i <= n == cur.pairs().len(),
            prev.wf(),
            cur.wf(),
            out.wf(),
            forall|k: Seq<char>|
                out@.dom().contains(k) <==> (prev@.dom().contains(k) && exists|j: int|
                    0 <= j < i && #[trigger] cur.pairs()[j].0 == k),
            forall|k: Seq<char>|
                #[trigger] out@.dom().contains(k) ==> out@[k] == counter_deltas(prev@[k], cur@[k]),
        decreases n - i,
    {
        let name = cur.name_at(i);
        let c = cur.value_at(i);
        proof {
            cur.lemma_view();
        }
        let ghost before = out@;
        match prev.get_name(name) {
            Some(p) => {
                let d = io_deltas(p, c);
                out.insert(name.clone(), d);
            },
            None => {},
        }
        proof {
            assert forall|k: Seq<char>|
                out@.dom().contains(k) <==> (prev@.dom().contains(k) && exists|j: int|
                    0 <= j < i + 1 && #[trigger] cur.pairs()[j].0 == k) by {
                if k == name@ {
                    assert(cur.pairs()[i as int].0 == k);
                } else if exists|j: int| 0 <= j < i + 1 && #[trigger] cur.pairs()[j].0 == k {
                    let j = choose|j: int| 0 <= j < i + 1 && #[trigger] cur.pairs()[j].0 == k;
                    assert(j < i);
                }
            }
        }
        i = i + 1;
    }
    proof {
        cur.lemma_view();
    }
    assert(out@ =~= deltas_map(prev@, cur@));
    out
}

/// The file systems whose mounts are shown as disks.
pub open spec fn real_fs_names() -> Seq<Seq<char>> {
    seq![
        "btrfs"@,
        "vfat"@,
        "ext4"@,
        "xfs"@,
        "f2fs"@,
        "ntfs"@,
        "zfs"@,
        "exfat"@,
        "ext2"@,
    ]
}

/// Whether a mount's file system is one that is shown as a disk.
pub fn is_real_fs(fs: &str) -> (r: bool)
    ensures
        r == real_fs_names().contains(fs@),
{
    let f = chars_of(fs);
    let names: [&str; 9] = ["btrfs", "vfat", "ext4", "xfs", "f2fs", "ntfs", "zfs", "exfat", "ext2"];
    let mut i: usize = 0;
    while i < 9
        invariant
            i <= 9,
            f@ == fs@,
            forall|j: int| 0 <= j < 9 ==> (#[trigger] names@[j])@ == real_fs_names()[j],
            forall|j: int| 0 <= j < i ==> real_fs_names()[j] != fs@,
        decreases 9 - i,
    {
        let n = chars_of(names[i]);
        if same_chars(&f, &n) {
            assert(real_fs_names()[i as int] == fs@);
            return true;
        }
        i = i + 1;
    }
    assert(!real_fs_names().contains(fs@)) by {
        if real_fs_names().contains(fs@) {
            let j = choose|j: int| 0 <= j < real_fs_names().len() && real_fs_names()[j] == fs@;
            assert(real_fs_names()[j] != fs@);
        }
    }
    false
}

/// The characters after the last `'/'` of `s` (all of `s` when it has none).
pub open spec fn after_last_slash(s: Seq<char>) -> Seq<char>
    decreases s.len(),
{
    if s.len() == 0 {
        s
    } else if s.last() == '/' {
        seq![]
    } else {
        after_last_slash(s.drop_last()).push(s.last())
    }
}

proof fn lemma_after_last_slash(s: Seq<char>, k: int)
    requires
        0 <= k <= s.len(),
        forall|j: int| k <= j < s.len() ==> s[j] != '/',
        k == 0 || s[k - 1] == '/',
    ensures
        after_last_slash(s) == s.skip(k),
    decreases s.len() - k,
{
    if k < s.len() {
        lemma_after_last_slash(s.drop_last(), k);
        assert(s.drop_last().skip(k).push(s.last()) =~= s.skip(k));
    } else if k > 0 {
        assert(s.skip(k) =~= Seq::<char>::empty());
    } else {
        assert(s.len() == 0);
    }
}

/// The name under which a disk's I/O counters are kept: the last path
/// component of its device name (`/dev/nvme0n1p2` gives `nvme0n1p2`).
pub fn device_key(name: &str) -> (r: String)
    ensures
        r@ == after_last_slash(name@),
{
    let s = chars_of(name);
    let mut k: usize = s.len();
    while k > 0 && s[k - 1] != '/'
        invariant
            k <= s.len(),
            forall|j: int| k <= j < s.len() ==> s@[j] != '/',
        decreases k,
    {
        k = k - 1;
    }
    proof {
        lemma_after_last_slash(s@, k as int);
    }
    let tail = slice_chars(&s, k, s.len());
    assert(tail@ =~= s@.skip(k as int));
    string_of(tail.as_slice())
}

/// The number part of a device-mapper node name (`dm-0` gives `0`); other
/// devices have none.
pub fn device_mapper_index(dev: &str) -> (r: Option<String>)
    ensures
        match r {
            Some(n) => has_prefix(dev@, "dm-"@) && n@ == dev@.skip("dm-"@.len() as int),
            None => !has_prefix(dev@, "dm-"@),
        },
{
    let s = chars_of(dev);
    let p = chars_of("dm-");
    if crate::text::starts_with(&s, &p) {
        let rest = slice_chars(&s, p.len(), s.len());
        assert(rest@ =~= s@.skip(p@.len() as int));
        Some(string_of(rest.as_slice()))
    } else {
        None
    }
}

/// What a node's friendly name read from `/sys/block/<dm-N>/dm/name`
/// makes of a device name: a device-mapper node whose name could be read
/// takes that name (trimmed); every other device keeps its own.
pub open spec fn resolved_name(dev: Seq<char>, read: Option<Seq<char>>) -> Seq<char> {
    if has_prefix(dev, "dm-"@) {
        match read {
            Some(n) => crate::text::spec_trim(n),
            None => dev,
        }
    } else {
        dev
    }
}

pub open spec fn read_views(reads: Seq<Option<String>>) -> Seq<Option<Seq<char>>> {
    reads.map_values(
        |o: Option<String>|
            match o {
                Some(s) => Some(s@),
                None => None,
            },
    )
}

/// The device map after renaming: each entry, in order, under its
/// resolved name; a later entry for a name replaces an earlier one.
pub open spec fn renamed_map(
    pairs: Seq<(Seq<char>, RawCounters)>,
    reads: Seq<Option<Seq<char>>>,
) -> Map<Seq<char>, RawCounters>
    decreases pairs.len(),
{
    if pairs.len() == 0 {
        Map::empty()
    } else {
        renamed_map(pairs.drop_last(), reads).insert(
            resolved_name(pairs.last().0, reads[pairs.len() - 1]),
            pairs.last().1,
        )
    }
}

/// Keys the parsed counters by friendly device name: `reads[i]` is what
/// the name file of the `i`-th device held (`None` where it is not a
/// device-mapper node or the file could not be read).
pub fn resolve_device_names(parsed: &DiskStats, reads: &Vec<Option<String>>) -> (r: DiskStats)
    requires
        parsed.wf(),
        reads.len() == parsed.pairs().len(),
    ensures
        r.wf(),
        r@ == renamed_map(parsed.pairs(), read_views(reads@)),
{
    let ghost rv = read_views(reads@);
    let mut out: DiskStats = NameTable::new();
    let n = parsed.len();
    let mut i: usize = 0;
    while i < n
        invariant
            i <= n == parsed.pairs().len() == reads.len(),
            parsed.wf(),
            out.wf(),
            rv == read_views(reads@),
            out@ == renamed_map(parsed.pairs().take(i as int), rv),
        decreases n - i,
    {
        let dev = parsed.name_at(i);
        let c = *parsed.value_at(i);
        let key = match device_mapper_index(dev.as_str()) {
            Some(_) => match &reads[i] {
                Some(name) => string_of(
                    crate::text::trim_chars(&chars_of(name.as_str())).as_slice(),
                ),
                None => dev.clone(),
            },
            None => dev.clone(),
        };
        assert(rv[i as int] == match reads@[i as int] {
            Some(s) => Some(s@),
            None => None::<Seq<char>>,
        });
        assert(key@ == resolved_name(parsed.pairs()[i as int].0, rv[i as int]));
        assert(parsed.pairs().take(i + 1).drop_last() =~= parsed.pairs().take(i as int));
        out.insert(key, c);
        i = i + 1;
    }
    assert(parsed.pairs().take(i as int) =~= parsed.pairs());
    out
}

/// The fields of a mounted disk that decide whether and how it is shown.
pub struct DiskRecord {
    pub name: String,
    pub fs: String,
    pub total_bytes: u64,
    pub available_bytes: u64,
}

impl View for DiskRecord {
    type V = (Seq<char>, Seq<char>, u64, u64);

    open spec fn view(&self) -> (Seq<char>, Seq<char>, u64, u64) {
        (self.name@, self.fs@, self.total_bytes, self.available_bytes)
    }
}

/// A disk that is shown: its position in the mount list, the name its
/// I/O counters are kept under, and the bytes in use.
#[derive(Debug)]
pub struct DiskSpace {
    pub index: usize,
    pub key: String,
    pub used_bytes: u64,
}

impl View for DiskSpace {
    type V = (int, Seq<char>, u64);

    open spec fn view(&self) -> (int, Seq<char>, u64) {
        (self.index as int, self.key@, self.used_bytes)
    }
}

/// The disks shown, in mount-list order: those with a real file system,
/// each with its counter key and its used space (total less available,
/// 0 where more is available than the total).
pub open spec fn shown_disks(rs: Seq<(Seq<char>, Seq<char>, u64, u64)>) -> Seq<(int, Seq<char>, u64)>
    decreases rs.len(),
{
    if rs.len() == 0 {
        seq![]
    } else {
        let rest = shown_disks(rs.drop_last());
        let r = rs.last();
        if real_fs_names().contains(r.1) {
            rest.push((rs.len() - 1, after_last_slash(r.0), sat_sub(r.2, r.3)))
        } else {
            rest
        }
    }
}

pub open spec fn record_views(rs: Seq<DiskRecord>) -> Seq<(Seq<char>, Seq<char>, u64, u64)> {
    rs.map_values(|r: DiskRecord| r@)
}

pub open spec fn space_views(ss: Seq<DiskSpace>) -> Seq<(int, Seq<char>, u64)> {
    ss.map_values(|s: DiskSpace| s@)
}

/// Picks the disks to show and works out their key and used space.
pub fn disk_spaces(disks: &Vec<DiskRecord>) -> (r: Vec<DiskSpace>)
    ensures
        space_views(r@) == shown_disks(record_views(disks@)),
{
    let ghost rv = record_views(disks@);
    let mut out: Vec<DiskSpace> = Vec::new();
    let mut i: usize = 0;
    while i < disks.len()
        invariant
            i <= disks.len(),
            rv == record_views(disks@),
            space_views(out@) == shown_disks(rv.take(i as int)),
        decreases disks.len() - i,
    {
        let d = &disks[i];
        assert(rv.take(i + 1).drop_last() =~= rv.take(i as int));
        assert(rv.take(i + 1).last() == d@);
        if is_real_fs(d.fs.as_str()) {
            let ghost before = out@;
            let space = DiskSpace {
                index: i,
                key: device_key(d.name.as_str()),
                used_bytes: d.total_bytes.saturating_sub(d.available_bytes),
            };
            out.push(space);
            assert(space_views(out@) =~= space_views(before).push(
                (i as int, after_last_slash(d.name@), sat_sub(d.total_bytes, d.available_bytes)),
            ));
        }
        i = i + 1;
    }
    assert(rv.take(i as int) =~= rv);
    out
}

/// Two samples with the same counters show no I/O: every delta is 0.
pub proof fn law_same_sample_gives_zero_deltas(c: RawCounters)
    ensures
        counter_deltas(c, c) == (RawCounters {
            reads: 0,
            reads_merged: 0,
            sectors_read: 0,
            ms_reading: 0,
            writes: 0,
            writes_merged: 0,
            sectors_written: 0,
            ms_writing: 0,
            ms_doing_io: 0,
            ms_weighted_io: 0,
        }),
{
}

/// Where no counter went back, adding the deltas to the earlier sample
/// gives the later one.
pub proof fn law_deltas_add_back(prev: RawCounters, cur: RawCounters)
    requires
        prev.reads <= cur.reads,
        prev.reads_merged <= cur.reads_merged,
        prev.sectors_read <= cur.sectors_read,
        prev.ms_reading <= cur.ms_reading,
        prev.writes <= cur.writes,
        prev.writes_merged <= cur.writes_merged,
        prev.sectors_written <= cur.sectors_written,
        prev.ms_writing <= cur.ms_writing,
        prev.ms_doing_io <= cur.ms_doing_io,
        prev.ms_weighted_io <= cur.ms_weighted_io,
    ensures
        ({
            let d = counter_deltas(prev, cur);
            &&& prev.reads + d.reads == cur.reads
            &&& prev.reads_merged + d.reads_merged == cur.reads_merged
            &&& prev.sectors_read + d.sectors_read == cur.sectors_read
            &&& prev.ms_reading + d.ms_reading == cur.ms_reading
            &&& prev.writes + d.writes == cur.writes
            &&& prev.writes_merged + d.writes_merged == cur.writes_merged
            &&& prev.sectors_written + d.sectors_written == cur.sectors_written
            &&& prev.ms_writing + d.ms_writing == cur.ms_writing
            &&& prev.ms_doing_io + d.ms_doing_io == cur.ms_doing_io
            &&& prev.ms_weighted_io + d.ms_weighted_io == cur.ms_weighted_io
        }),
{
}

/// The first sample gives no device any delta: rates start from the
/// second refresh.
pub proof fn law_first_sample_has_no_deltas(cur: Map<Seq<char>, RawCounters>)
    ensures
        deltas_map(Map::empty(), cur) == Map::<Seq<char>, RawCounters>::empty(),
{
    assert(deltas_map(Map::empty(), cur) =~= Map::<Seq<char>, RawCounters>::empty());
}

/// A device is shown with deltas exactly when both samples have it.
pub proof fn law_deltas_need_both_samples(
    prev: Map<Seq<char>, RawCounters>,
    cur: Map<Seq<char>, RawCounters>,
    name: Seq<char>,
)
    ensures
        deltas_map(prev, cur).dom().contains(name) <==> (prev.dom().contains(name)
            && cur.dom().contains(name)),
{
}

proof fn lemma_disk_map_concat(l1: Seq<Seq<char>>, l2: Seq<Seq<char>>)
    ensures
        disk_map(l1 + l2) == disk_map(l1).union_prefer_right(disk_map(l2)),
    decreases l2.len(),
{
    if l2.len() == 0 {
        assert(l1 + l2 =~= l1);
        assert(disk_map(l1).union_prefer_right(disk_map(l2)) =~= disk_map(l1));
    } else {
        lemma_disk_map_concat(l1, l2.drop_last());
        assert((l1 + l2).drop_last() =~= l1 + l2.drop_last());
        assert((l1 + l2).last() == l2.last());
        assert(disk_map(l1 + l2) =~= disk_map(l1).union_prefer_right(disk_map(l2)));
    }
}

/// Parsing two texts joined at a line break gives the devices of both,
/// each with the counters of the later text where that text has it.
pub proof fn law_diskstats_concat(a: Seq<char>, b: Seq<char>)
    requires
        a.len() == 0 || a.last() == '\n',
    ensures
        disk_map(spec_lines(a + b)) == disk_map(spec_lines(a)).union_prefer_right(
            disk_map(spec_lines(b)),
        ),
{
    crate::text::lemma_lines_concat(a, b);
    lemma_disk_map_concat(spec_lines(a), spec_lines(b));
}

/// The file systems shown as disks are exactly btrfs, vfat, ext4, xfs,
/// f2fs, ntfs, zfs, exfat and ext2.
pub proof fn law_real_file_systems(fs: Seq<char>)
    ensures
        real_fs_names().contains(fs) <==> (fs == "btrfs"@ || fs == "vfat"@ || fs == "ext4"@ || fs
            == "xfs"@ || fs == "f2fs"@ || fs == "ntfs"@ || fs == "zfs"@ || fs == "exfat"@ || fs
            == "ext2"@),
{
    let l = real_fs_names();
    if fs == "btrfs"@ {
        assert(l[0] == fs);
    } else if fs == "vfat"@ {
        assert(l[1] == fs);
    } else if fs == "ext4"@ {
        assert(l[2] == fs);
    } else if fs == "xfs"@ {
        assert(l[3] == fs);
    } else if fs == "f2fs"@ {
        assert(l[4] == fs);
    } else if fs == "ntfs"@ {
        assert(l[5] == fs);
    } else if fs == "zfs"@ {
        assert(l[6] == fs);
    } else if fs == "exfat"@ {
        assert(l[7] == fs);
    } else if fs == "ext2"@ {
        assert(l[8] == fs);
    }
    if l.contains(fs) {
        let i = choose|i: int| 0 <= i < l.len() && l[i] == fs;
        assert(0 <= i < 9);
    }
}

/// A `/proc/diskstats` line written as major, minor, device name and
/// eleven numbers reads back as that device with reads, reads merged,
/// sectors read, ms reading, writes, writes merged, sectors written and
/// ms writing from the first eight numbers, in-flight (the ninth) left
/// out, then ms doing I/O and weighted ms from the last two.
pub proof fn law_disk_line_fields(major: Seq<char>, minor: Seq<char>, name: Seq<char>, v: Seq<u64>)
    requires
        crate::text::is_word(major),
        crate::text::is_word(minor),
        crate::text::is_word(name),
        v.len() == 11,
    ensures
        disk_line(crate::text::join_words(seq![major, minor, name] + crate::text::decimals(v)))
            == Some(
            (
                name,
                RawCounters {
                    reads: v[0],
                    reads_merged: v[1],
                    sectors_read: v[2],
                    ms_reading: v[3],
                    writes: v[4],
                    writes_merged: v[5],
                    sectors_written: v[6],
                    ms_writing: v[7],
                    ms_doing_io: v[9],
                    ms_weighted_io: v[10],
                },
            ),
        ),
{
    let head = seq![major, minor, name];
    assert forall|i: int| 0 <= i < head.len() implies crate::text::is_word(#[trigger] head[i]) by {}
    crate::text::lemma_decimal_fields(head, v);
    let t = head + crate::text::decimals(v);
    assert(t.len() == 14);
    assert(t[2] == name);
    assert forall|j: int| 3 <= j < 14 implies (#[trigger] spec_parse_u64(t[j])) is Some by {
        assert(spec_parse_u64(t[head.len() + (j - 3)]) == Some(v[j - 3] as nat));
    }
    assert(spec_parse_u64(t[head.len() + 0int]) == Some(v[0] as nat));
    assert(spec_parse_u64(t[head.len() + 1int]) == Some(v[1] as nat));
    assert(spec_parse_u64(t[head.len() + 2int]) == Some(v[2] as nat));
    assert(spec_parse_u64(t[head.len() + 3int]) == Some(v[3] as nat));
    assert(spec_parse_u64(t[head.len() + 4int]) == Some(v[4] as nat));
    assert(spec_parse_u64(t[head.len() + 5int]) == Some(v[5] as nat));
    assert(spec_parse_u64(t[head.len() + 6int]) == Some(v[6] as nat));
    assert(spec_parse_u64(t[head.len() + 7int]) == Some(v[7] as nat));
    assert(spec_parse_u64(t[head.len() + 9int]) == Some(v[9] as nat));
    assert(spec_parse_u64(t[head.len() + 10int]) == Some(v[10] as nat));
}

} // verus!
