//! Network statistics: the `/proc/net/dev`, `/proc/net/snmp` and socket
//! table parsers, link state, per-process socket counts, and the monitor
//! state that turns two samples of interface counters into a snapshot.
use vstd::prelude::*;

use crate::disk::{counter_value, sat_sub};
use crate::rank::{Ranked, sort_desc, sorted_desc};
use crate::table::{NameTable, map_of, lemma_map_of_dom};
use crate::text::{
    chars_of, find_char, has_prefix, len_before, lines_of, parse_u64, parse_unsigned,
    same_chars, slice_chars, spec_lines, spec_parse_u64, spec_parse_unsigned, spec_trim, spec_words,
    starts_with, string_of, trim_chars, views, words_of,
};

verus! {

/// Per-interface counters from `/proc/net/dev`: rx bytes, rx packets,
/// rx errors, rx drops, tx bytes, tx packets, tx errors, tx drops.
pub type DevCounters = (u64, u64, u64, u64, u64, u64, u64, u64);

/// Interface counters keyed by interface name.
pub type NetDevTable = NameTable<DevCounters>;

/// One `/proc/net/dev` line: the interface name before the first `':'`,
/// then at least twelve numeric columns (rx bytes, packets, errs, drop,
/// fifo, frame, compressed, multicast, tx bytes, packets, errs, drop).
/// Header lines and lines with fewer numeric columns are no entry.
pub open spec fn netdev_line(l: Seq<char>) -> Option<(Seq<char>, DevCounters)> {
    let k = len_before(l, ':');
    let t = spec_words(l.skip(k + 1int));
    if k < l.len() && t.len() >= 12 && (forall|j: int|
        0 <= j < 12 ==> (#[trigger] spec_parse_u64(t[j])) is Some) {
        Some(
            (
                spec_trim(l.take(k as int)),
                (
                    counter_value(t[0]),
                    counter_value(t[1]),
                    counter_value(t[2]),
                    counter_value(t[3]),
                    counter_value(t[8]),
                    counter_value(t[9]),
                    counter_value(t[10]),
                    counter_value(t[11]),
                ),
            ),
        )
    } else {
        None
    }
}

/// The interface map that a sequence of lines gives; a later line for an
/// interface replaces an earlier one.
pub open spec fn netdev_map(ls: Seq<Seq<char>>) -> Map<Seq<char>, DevCounters>
    decreases ls.len(),
{
    if ls.len() == 0 {
        Map::empty()
    } else {
        match netdev_line(ls.last()) {
            Some(e) => netdev_map(ls.drop_last()).insert(e.0, e.1),
            None => netdev_map(ls.drop_last()),
        }
    }
}

fn parse_netdev_line(line: &Vec<char>) -> (r: Option<(String, DevCounters)>)
    ensures
        match r {
            Some(e) => netdev_line(line@) == Some((e.0@, e.1)),
            None => netdev_line(line@) is None,
        },
{
    let k = match find_char(line, ':') {
        Some(k) => k,
        None => return None,
    };
    let rest = slice_chars(line, k + 1, line.len());
    assert(rest@ =~= line@.skip(k + 1));
    let t = words_of(&rest);
    let ghost tv = views(t@);
    if t.len() < 12 {
        return None;
    }
    let mut vals: Vec<u64> = Vec::new();
    let mut j: usize = 0;
    while j < 12
        invariant
            j <= 12 <= t.len(),
            tv == views(t@),
            tv == spec_words(rest@),
            rest@ == line@.skip(k + 1),
            k == len_before(line@, ':'),
            k < line@.len(),
            vals.len() == j,
            forall|m: int| 0 <= m < j ==> spec_parse_u64(tv[m]) == Some(vals@[m] as nat),
        decreases 12 - j,
    {
        assert(tv[j as int] == t@[j as int]@);
        match parse_u64(&t[j]) {
            Some(v) => {
                vals.push(v);
            },
            None => {
                assert(spec_parse_u64(tv[j as int]) is None);
                return None;
            },
        }
        j = j + 1;
    }
    let head = slice_chars(line, 0, k);
    let name_chars = trim_chars(&head);
    assert(head@ =~= line@.take(k as int));
    let name = string_of(name_chars.as_slice());
    let c: DevCounters = (vals[0], vals[1], vals[2], vals[3], vals[8], vals[9], vals[10], vals[11]);
    assert(forall|m: int| 0 <= m < 12 ==> (#[trigger] spec_parse_u64(tv[m])) is Some);
    assert(spec_parse_u64(tv[0]) == Some(vals@[0] as nat));
    assert(spec_parse_u64(tv[1]) == Some(vals@[1] as nat));
    assert(spec_parse_u64(tv[2]) == Some(vals@[2] as nat));
    assert(spec_parse_u64(tv[3]) == Some(vals@[3] as nat));
    assert(spec_parse_u64(tv[8]) == Some(vals@[8] as nat));
    assert(spec_parse_u64(tv[9]) == Some(vals@[9] as nat));
    assert(spec_parse_u64(tv[10]) == Some(vals@[10] as nat));
    assert(spec_parse_u64(tv[11]) == Some(vals@[11] as nat));
    Some((name, c))
}

/// Parses `/proc/net/dev` text into counters keyed by interface name.
pub fn netdev_from(raw: &str) -> (r: NetDevTable)
    ensures
        r.wf(),
        r@ == netdev_map(spec_lines(raw@)),
{
    let chars = chars_of(raw);
    let lines = lines_of(&chars);
    let ghost lv = views(lines@);
    let mut out: NetDevTable = NameTable::new();
    let mut i: usize = 0;
    while i < lines.len()
        invariant
            i <= lines.len(),
            lv == views(lines@),
            lv == spec_lines(raw@),
            out.wf(),
            out@ == netdev_map(lv.take(i as int)),
        decreases lines.len() - i,
    {
        assert(lv.take(i + 1).drop_last() =~= lv.take(i as int));
        assert(lv.take(i + 1).last() == lines@[i as int]@);
        match parse_netdev_line(&lines[i]) {
            Some(e) => {
                out.insert(e.0, e.1);
            },
            None => {},
        }
        i = i + 1;
    }
    assert(lv.take(i as int) =~= lv);
    out
}

/// The lines of `/proc/net/snmp` that belong to the TCP section.
pub open spec fn tcp_section_lines(ls: Seq<Seq<char>>) -> Seq<Seq<char>>
    decreases ls.len(),
{
    if ls.len() == 0 {
        seq![]
    } else if has_prefix(ls.last(), "Tcp:"@) {
        tcp_section_lines(ls.drop_last()).push(ls.last())
    } else {
        tcp_section_lines(ls.drop_last())
    }
}

/// Retransmitted TCP segments: field 13 (`RetransSegs`) of the second
/// `Tcp:` line (the first holds the field names); 0 where it is missing.
pub open spec fn spec_retrans(ls: Seq<Seq<char>>) -> u64 {
    let t = tcp_section_lines(ls);
    if t.len() >= 2 && spec_words(t[1]).len() > 12 && spec_parse_u64(spec_words(t[1])[12]) is Some {
        counter_value(spec_words(t[1])[12])
    } else {
        0
    }
}

/// Whether a socket table line is the header, whose first field is `sl`
/// (the kernel indents it).
pub open spec fn is_socket_header(l: Seq<char>) -> bool {
    spec_words(l).len() > 0 && spec_words(l)[0] == "sl"@
}

/// Number of socket table lines that are not the `sl` header.
pub open spec fn socket_lines(ls: Seq<Seq<char>>) -> nat
    decreases ls.len(),
{
    if ls.len() == 0 {
        0
    } else if is_socket_header(ls.last()) {
        socket_lines(ls.drop_last())
    } else {
        socket_lines(ls.drop_last()) + 1
    }
}

proof fn lemma_tcp_section_prefix(ls: Seq<Seq<char>>, j: int)
    requires
        0 <= j <= ls.len(),
    ensures
        tcp_section_lines(ls.take(j)).len() <= tcp_section_lines(ls).len(),
        forall|m: int|
            0 <= m < tcp_section_lines(ls.take(j)).len() ==> #[trigger] tcp_section_lines(
                ls.take(j),
            )[m] == tcp_section_lines(ls)[m],
    decreases ls.len() - j,
{
    if j < ls.len() {
        lemma_tcp_section_prefix(ls.drop_last(), j);
        assert(ls.drop_last().take(j) =~= ls.take(j));
    } else {
        assert(ls.take(j) =~= ls);
    }
}

/// `(retransmitted segments, socket lines)` from `/proc/net/snmp` and
/// `/proc/net/tcp`.
pub fn tcp_stats_from(snmp_raw: &str, tcp_raw: &str) -> (r: (u64, u64))
    ensures
        r.0 == spec_retrans(spec_lines(snmp_raw@)),
        r.1 == socket_lines(spec_lines(tcp_raw@)),
{
    let tcp_prefix = chars_of("Tcp:");
    let snmp_chars = chars_of(snmp_raw);
    let snmp_lines = lines_of(&snmp_chars);
    let ghost ls = views(snmp_lines@);
    let mut retrans: u64 = 0;
    let mut seen: usize = 0;
    let mut done = false;
    let mut i: usize = 0;
    while i < snmp_lines.len() && !done
        invariant
            i <= snmp_lines.len(),
            ls == views(snmp_lines@),
            ls == spec_lines(snmp_raw@),
            tcp_prefix@ == "Tcp:"@,
            done ==> retrans == spec_retrans(ls),
            !done ==> seen == tcp_section_lines(ls.take(i as int)).len(),
            !done ==> seen <= 1,
            !done ==> retrans == 0,
        decreases snmp_lines.len() - i,
    {
        assert(ls.take(i + 1).drop_last() =~= ls.take(i as int));
        assert(ls.take(i + 1).last() == snmp_lines@[i as int]@);
        if starts_with(&snmp_lines[i], &tcp_prefix) {
            if seen == 1 {
                let fields = words_of(&snmp_lines[i]);
                proof {
                    lemma_tcp_section_prefix(ls, i + 1);
                    assert(tcp_section_lines(ls.take(i + 1)) == tcp_section_lines(ls.take(i as int)).push(snmp_lines@[i as int]@));
                    assert(tcp_section_lines(ls.take(i + 1))[1] == snmp_lines@[i as int]@);
                    assert(tcp_section_lines(ls)[1] == snmp_lines@[i as int]@);
                }
                if fields.len() > 12 {
                    assert(views(fields@)[12] == fields@[12]@);
                    match parse_u64(&fields[12]) {
                        Some(v) => {
                            retrans = v;
                        },
                        None => {},
                    }
                }
                done = true;
            } else {
                seen = seen + 1;
            }
        }
        i = i + 1;
    }
    if !done {
        assert(ls.take(i as int) =~= ls);
    }
    let sl = chars_of("sl");
    let tcp_chars = chars_of(tcp_raw);
    let tcp_lines = lines_of(&tcp_chars);
    let ghost ts = views(tcp_lines@);
    let mut count: u64 = 0;
    let mut k: usize = 0;
    while k < tcp_lines.len()
        invariant
            k <= tcp_lines.len(),
            ts == views(tcp_lines@),
            ts == spec_lines(tcp_raw@),
            sl@ == "sl"@,
            count == socket_lines(ts.take(k as int)),
            count <= k,
        decreases tcp_lines.len() - k,
    {
        assert(ts.take(k + 1).drop_last() =~= ts.take(k as int));
        assert(ts.take(k + 1).last() == tcp_lines@[k as int]@);
        let w = words_of(&tcp_lines[k]);
        let header = w.len() > 0 && same_chars(&w[0], &sl);
        assert(w.len() > 0 ==> views(w@)[0] == w@[0]@);
        if !header {
            count = count + 1;
        }
        k = k + 1;
    }
    assert(ts.take(k as int) =~= ts);
    (retrans, count)
}

/// Socket class from the state field of a `/proc/net/{tcp,tcp6,udp,udp6}`
/// line.
#[derive(Clone, Copy, PartialEq, Eq, Debug, Structural)]
pub enum Sock {
    TcpEst,
    TcpListen,
    TcpOther,
    Udp,
}

/// TCP state code of an established connection.
pub open spec fn tcp_established() -> Seq<char> {
    "01"@
}

/// TCP state code of a listening socket.
pub open spec fn tcp_listen() -> Seq<char> {
    "0A"@
}

/// `(inode, class)` of one socket table line: the state is field 4 and
/// the inode field 10; UDP sockets are all of one class.
pub open spec fn spec_socket_line(l: Seq<char>, udp: bool) -> Option<(u64, Sock)> {
    let f = spec_words(l);
    if f.len() >= 10 && spec_parse_u64(f[9]) is Some {
        Some(
            (
                counter_value(f[9]),
                if udp {
                    Sock::Udp
                } else if f[3] == tcp_established() {
                    Sock::TcpEst
                } else if f[3] == tcp_listen() {
                    Sock::TcpListen
                } else {
                    Sock::TcpOther
                },
            ),
        )
    } else {
        None
    }
}

fn socket_line_chars(line: &Vec<char>, udp: bool) -> (r: Option<(u64, Sock)>)
    ensures
        r == spec_socket_line(line@, udp),
{
    let fields = words_of(line);
    let ghost fv = views(fields@);
    if fields.len() < 10 {
        return None;
    }
    assert(fv[9] == fields@[9]@);
    assert(fv[3] == fields@[3]@);
    let inode = match parse_u64(&fields[9]) {
        Some(v) => v,
        None => return None,
    };
    let class = if udp {
        Sock::Udp
    } else if same_chars(&fields[3], &chars_of("01")) {
        Sock::TcpEst
    } else if same_chars(&fields[3], &chars_of("0A")) {
        Sock::TcpListen
    } else {
        Sock::TcpOther
    };
    Some((inode, class))
}

/// `(inode, class)` from one socket table line, when it holds both.
pub fn socket_line(line: &str, udp: bool) -> (r: Option<(u64, Sock)>)
    ensures
        r == spec_socket_line(line@, udp),
{
    socket_line_chars(&chars_of(line), udp)
}

/// The `(inode, class)` entries of a socket table file, in order; the
/// header line is skipped and lines without an inode are left out.
pub open spec fn socket_entries(ls: Seq<Seq<char>>, udp: bool) -> Seq<(u64, Sock)>
    decreases ls.len(),
{
    if ls.len() == 0 {
        seq![]
    } else {
        match spec_socket_line(ls.last(), udp) {
            Some(e) => socket_entries(ls.drop_last(), udp).push(e),
            None => socket_entries(ls.drop_last(), udp),
        }
    }
}

/// The lines after the first (the table header).
pub open spec fn after_header(ls: Seq<Seq<char>>) -> Seq<Seq<char>> {
    if ls.len() == 0 {
        ls
    } else {
        ls.skip(1)
    }
}

/// The entries of one socket table file, appended to `out`.
pub fn add_socket_table(out: &mut Vec<(u64, Sock)>, raw: &str, udp: bool)
    ensures
        final(out)@ == old(out)@ + socket_entries(after_header(spec_lines(raw@)), udp),
{
    let chars = chars_of(raw);
    let lines = lines_of(&chars);
    let ghost lv = views(lines@);
    if lines.len() == 0 {
        assert(old(out)@ + socket_entries(after_header(lv), udp) =~= old(out)@);
        return;
    }
    let ghost body = lv.skip(1);
    let mut i: usize = 1;
    assert(body.take(0).len() == 0);
    assert(old(out)@ + socket_entries(body.take(0), udp) =~= old(out)@);
    while i < lines.len()
        invariant
            1 <= i <= lines.len(),
            lv == views(lines@),
            lv == spec_lines(raw@),
            body == lv.skip(1),
            out@ == old(out)@ + socket_entries(body.take(i - 1), udp),
        decreases lines.len() - i,
    {
        assert(body.take(i as int).drop_last() =~= body.take(i - 1));
        assert(body.take(i as int).last() == lines@[i as int]@);
        match socket_line_chars(&lines[i], udp) {
            Some(e) => {
                out.push(e);
                assert(out@ =~= old(out)@ + socket_entries(body.take(i as int), udp));
            },
            None => {},
        }
        i = i + 1;
    }
    assert(body.take(i - 1) =~= body);
}

proof fn lemma_map_of_last<K, V>(s: Seq<(K, V)>, k: int)
    requires
        0 <= k < s.len(),
        forall|j: int| k < j < s.len() ==> s[j].0 != s[k].0,
    ensures
        map_of(s).dom().contains(s[k].0),
        map_of(s)[s[k].0] == s[k].1,
    decreases s.len(),
{
    if k < s.len() - 1 {
        lemma_map_of_last(s.drop_last(), k);
    }
}

/// The class of the socket with the given inode: the last entry for it
/// wins, as when the tables are read into one map in order.
pub fn socket_class(entries: &Vec<(u64, Sock)>, inode: u64) -> (r: Option<Sock>)
    ensures
        match r {
            Some(c) => map_of(entries@).dom().contains(inode) && map_of(entries@)[inode] == c,
            None => !map_of(entries@).dom().contains(inode),
        },
{
    let mut i: usize = entries.len();
    while i > 0
        invariant
            i <= entries.len(),
            forall|j: int| i <= j < entries.len() ==> entries@[j].0 != inode,
        decreases i,
    {
        if entries[i - 1].0 == inode {
            proof {
                lemma_map_of_last(entries@, i - 1);
            }
            return Some(entries[i - 1].1);
        }
        i = i - 1;
    }
    proof {
        lemma_map_of_dom(entries@, inode);
    }
    None
}

/// The inode of a `socket:[inode]` file-descriptor link.
pub open spec fn spec_socket_inode(link: Seq<char>) -> Option<nat> {
    let rest = link.skip("socket:["@.len() as int);
    if has_prefix(link, "socket:["@) && rest.len() > 0 && rest.last() == ']' {
        spec_parse_u64(rest.drop_last())
    } else {
        None
    }
}

/// Reads the inode out of a `socket:[inode]` link target; other links
/// give none.
pub fn socket_inode(link: &str) -> (r: Option<u64>)
    ensures
        match r {
            Some(v) => spec_socket_inode(link@) == Some(v as nat),
            None => spec_socket_inode(link@) is None,
        },
{
    let s = chars_of(link);
    let p = chars_of("socket:[");
    if !starts_with(&s, &p) {
        return None;
    }
    let rest = slice_chars(&s, p.len(), s.len());
    assert(rest@ =~= s@.skip(p@.len() as int));
    if rest.len() == 0 || rest[rest.len() - 1] != ']' {
        return None;
    }
    let digits = slice_chars(&rest, 0, rest.len() - 1);
    assert(digits@ =~= rest@.drop_last());
    parse_u64(&digits)
}

/// The process id a `/proc` entry name stands for, when it is one.
pub fn pid_of(name: &str) -> (r: Option<u32>)
    ensures
        match r {
            Some(v) => spec_parse_unsigned(name@, 10, u32::MAX as nat) == Some(v as nat),
            None => spec_parse_unsigned(name@, 10, u32::MAX as nat) is None,
        },
{
    match parse_unsigned(&chars_of(name), 10, u32::MAX as u64) {
        Some(v) => Some(v as u32),
        None => None,
    }
}

/// Link speed in Mbps: a positive number in the `speed` file.
pub open spec fn spec_link_speed(speed: Option<Seq<char>>) -> Option<u64> {
    match speed {
        Some(s) => match spec_parse_u64(spec_trim(s)) {
            Some(v) => if v > 0 {
                Some(v as u64)
            } else {
                None
            },
            None => None,
        },
        None => None,
    }
}

/// Carrier is up when the `carrier` file holds `1`.
pub open spec fn spec_link_up(carrier: Option<Seq<char>>) -> bool {
    match carrier {
        Some(c) => spec_trim(c) == "1"@,
        None => false,
    }
}

/// Link speed and carrier state from the contents of an interface's
/// `speed` and `carrier` files (`None` where a file could not be read).
/// Virtual interfaces expose neither: no speed and no carrier.
pub fn link_state_from(speed: Option<&str>, carrier: Option<&str>) -> (r: (Option<u64>, bool))
    ensures
        r.0 == spec_link_speed(match speed {
            Some(s) => Some(s@),
            None => None,
        }),
        r.1 == spec_link_up(match carrier {
            Some(c) => Some(c@),
            None => None,
        }),
{
    let mbps = match speed {
        Some(s) => match parse_u64(&trim_chars(&chars_of(s))) {
            Some(v) => if v > 0 {
                Some(v)
            } else {
                None
            },
            None => None,
        },
        None => None,
    };
    let up = match carrier {
        Some(c) => same_chars(&trim_chars(&chars_of(c)), &chars_of("1")),
        None => false,
    };
    (mbps, up)
}

/// One interface row of a network snapshot.
#[derive(Clone, Debug)]
pub struct NetInfo {
    pub name: String,
    pub rx_bps: u64,
    pub tx_bps: u64,
    pub rx_pps: u64,
    pub tx_pps: u64,
    pub rx_errs_s: u64,
    pub tx_errs_s: u64,
    pub rx_drops_s: u64,
    pub tx_drops_s: u64,
    pub link_mbps: Option<u64>,
    pub link_up: bool,
    pub total_rx_bytes: u64,
    pub total_tx_bytes: u64,
}

/// Whole-machine network rates.
#[derive(Clone, Copy, Debug, Default)]
pub struct NetTotals {
    pub rx_bps: u64,
    pub tx_bps: u64,
    pub tcp_retrans_s: u64,
    pub tcp_established: u64,
}

/// What a network refresh shows.
#[derive(Clone, Debug)]
pub struct NetSnapshot {
    pub ifaces: Vec<NetInfo>,
    pub totals: NetTotals,
    /// Processes with open sockets (own + readable under yama).
    pub proc_net: Vec<ProcNet>,
}

/// Per-process socket counts (TCP established/listening, UDP).
#[derive(Clone, Copy, Debug, Default)]
pub struct ProcNet {
    pub pid: u32,
    pub tcp_est: u32,
    pub tcp_listen: u32,
    pub udp: u32,
}

impl Ranked for NetInfo {
    open spec fn rank_spec(&self) -> nat {
        self.rx_bps as nat
    }

    fn rank(&self) -> (r: u64) {
        self.rx_bps
    }
}

/// Number of sockets a process holds in the three counted classes.
pub open spec fn socket_total(p: ProcNet) -> nat {
    p.tcp_est as nat + p.tcp_listen as nat + p.udp as nat
}

impl Ranked for ProcNet {
    open spec fn rank_spec(&self) -> nat {
        socket_total(*self)
    }

    fn rank(&self) -> (r: u64) {
        self.tcp_est as u64 + self.tcp_listen as u64 + self.udp as u64
    }
}

/// The interface counters of one interface in two samples.
#[derive(Debug)]
pub struct IfaceDelta {
    pub name: String,
    /// What each counter grew by since the previous sample.
    pub delta: DevCounters,
    /// The counters in the current sample.
    pub current: DevCounters,
}

impl View for IfaceDelta {
    type V = (Seq<char>, DevCounters, DevCounters);

    open spec fn view(&self) -> (Seq<char>, DevCounters, DevCounters) {
        (self.name@, self.delta, self.current)
    }
}

/// Counter growth between two samples; a counter that went back counts
/// as 0.
pub open spec fn dev_deltas(prev: DevCounters, cur: DevCounters) -> DevCounters {
    (
        sat_sub(cur.0, prev.0),
        sat_sub(cur.1, prev.1),
        sat_sub(cur.2, prev.2),
        sat_sub(cur.3, prev.3),
        sat_sub(cur.4, prev.4),
        sat_sub(cur.5, prev.5),
        sat_sub(cur.6, prev.6),
        sat_sub(cur.7, prev.7),
    )
}

/// `(name, deltas, current counters)` for each interface of the current
/// sample, in its order, that the previous sample also has.
pub open spec fn iface_deltas(prev: Map<Seq<char>, DevCounters>, cur: Seq<(Seq<char>, DevCounters)>) -> Seq<
    (Seq<char>, DevCounters, DevCounters),
>
    decreases cur.len(),
{
    if cur.len() == 0 {
        seq![]
    } else {
        let rest = iface_deltas(prev, cur.drop_last());
        let e = cur.last();
        if prev.dom().contains(e.0) {
            rest.push((e.0, dev_deltas(prev[e.0], e.1), e.1))
        } else {
            rest
        }
    }
}

pub open spec fn delta_views(s: Seq<IfaceDelta>) -> Seq<(Seq<char>, DevCounters, DevCounters)> {
    s.map_values(|d: IfaceDelta| d@)
}

/// `r` is the row of an interface: its name, the per-second rate that
/// goes with each counter delta (in the counters' order), its link state,
/// and its current byte totals.
pub open spec fn is_row_of(
    d: (Seq<char>, DevCounters, DevCounters),
    rates: DevCounters,
    link: (Option<u64>, bool),
    r: NetInfo,
) -> bool {
    &&& r.name@ == d.0
    &&& r.rx_bps == rates.0
    &&& r.rx_pps == rates.1
    &&& r.rx_errs_s == rates.2
    &&& r.rx_drops_s == rates.3
    &&& r.tx_bps == rates.4
    &&& r.tx_pps == rates.5
    &&& r.tx_errs_s == rates.6
    &&& r.tx_drops_s == rates.7
    &&& r.link_mbps == link.0
    &&& r.link_up == link.1
    &&& r.total_rx_bytes == d.2.0
    &&& r.total_tx_bytes == d.2.4
}

/// The interface rows of a refresh: one per interface delta, in order,
/// with the rates worked out for its counter deltas and its link state.
pub fn interface_rows(
    deltas: &Vec<IfaceDelta>,
    rates: &Vec<DevCounters>,
    links: &Vec<(Option<u64>, bool)>,
) -> (r: Vec<NetInfo>)
    requires
        rates.len() == deltas.len(),
        links.len() == deltas.len(),
    ensures
        r.len() == deltas.len(),
        forall|i: int|
            0 <= i < r.len() ==> is_row_of(deltas@[i]@, rates@[i], links@[i], #[trigger] r@[i]),
{
    let mut out: Vec<NetInfo> = Vec::new();
    let mut i: usize = 0;
    while i < deltas.len()
        invariant
            i <= deltas.len() == rates.len() == links.len(),
            out.len() == i,
            forall|j: int|
                0 <= j < i ==> is_row_of(deltas@[j]@, rates@[j], links@[j], #[trigger] out@[j]),
        decreases deltas.len() - i,
    {
        let d = &deltas[i];
        let k = rates[i];
        let l = links[i];
        out.push(
            NetInfo {
                name: d.name.clone(),
                rx_bps: k.0,
                tx_bps: k.4,
                rx_pps: k.1,
                tx_pps: k.5,
                rx_errs_s: k.2,
                tx_errs_s: k.6,
                rx_drops_s: k.3,
                tx_drops_s: k.7,
                link_mbps: l.0,
                link_up: l.1,
                total_rx_bytes: d.current.0,
                total_tx_bytes: d.current.4,
            },
        );
        i = i + 1;
    }
    out
}

pub open spec fn sum_rx(s: Seq<NetInfo>) -> nat
    decreases s.len(),
{
    if s.len() == 0 {
        0
    } else {
        sum_rx(s.drop_last()) + s.last().rx_bps as nat
    }
}

pub open spec fn sum_tx(s: Seq<NetInfo>) -> nat
    decreases s.len(),
{
    if s.len() == 0 {
        0
    } else {
        sum_tx(s.drop_last()) + s.last().tx_bps as nat
    }
}

/// Sums the interface rates into machine totals.
pub fn net_totals(ifaces: &Vec<NetInfo>, tcp_retrans_s: u64, tcp_established: u64) -> (r: NetTotals)
    requires
        sum_rx(ifaces@) <= u64::MAX,
        sum_tx(ifaces@) <= u64::MAX,
    ensures
        r.rx_bps == sum_rx(ifaces@),
        r.tx_bps == sum_tx(ifaces@),
        r.tcp_retrans_s == tcp_retrans_s,
        r.tcp_established == tcp_established,
{
    let mut rx: u64 = 0;
    let mut tx: u64 = 0;
    let mut i: usize = 0;
    while i < ifaces.len()
        invariant
            i <= ifaces.len(),
            sum_rx(ifaces@) <= u64::MAX,
            sum_tx(ifaces@) <= u64::MAX,
            rx == sum_rx(ifaces@.take(i as int)),
            tx == sum_tx(ifaces@.take(i as int)),
        decreases ifaces.len() - i,
    {
        assert(ifaces@.take(i + 1).drop_last() =~= ifaces@.take(i as int));
        proof {
            lemma_sum_prefix(ifaces@, i + 1);
        }
        rx = rx + ifaces[i].rx_bps;
        tx = tx + ifaces[i].tx_bps;
        i = i + 1;
    }
    assert(ifaces@.take(i as int) =~= ifaces@);
    NetTotals { rx_bps: rx, tx_bps: tx, tcp_retrans_s, tcp_established }
}

proof fn lemma_sum_prefix(s: Seq<NetInfo>, j: int)
    requires
        0 <= j <= s.len(),
    ensures
        sum_rx(s.take(j)) <= sum_rx(s),
        sum_tx(s.take(j)) <= sum_tx(s),
    decreases s.len() - j,
{
    if j < s.len() {
        lemma_sum_prefix(s.drop_last(), j);
        assert(s.drop_last().take(j) =~= s.take(j));
    } else {
        assert(s.take(j) =~= s);
    }
}

fn copy_net_info(x: &NetInfo) -> (r: NetInfo)
    ensures
        r == *x,
{
    NetInfo {
        name: x.name.clone(),
        rx_bps: x.rx_bps,
        tx_bps: x.tx_bps,
        rx_pps: x.rx_pps,
        tx_pps: x.tx_pps,
        rx_errs_s: x.rx_errs_s,
        tx_errs_s: x.tx_errs_s,
        rx_drops_s: x.rx_drops_s,
        tx_drops_s: x.tx_drops_s,
        link_mbps: x.link_mbps,
        link_up: x.link_up,
        total_rx_bytes: x.total_rx_bytes,
        total_tx_bytes: x.total_tx_bytes,
    }
}

/// A copy of a snapshot.
pub fn copy_snapshot(s: &NetSnapshot) -> (r: NetSnapshot)
    ensures
        r.ifaces@ == s.ifaces@,
        r.totals == s.totals,
        r.proc_net@ == s.proc_net@,
{
    let mut ifaces: Vec<NetInfo> = Vec::new();
    let mut i: usize = 0;
    while i < s.ifaces.len()
        invariant
            i <= s.ifaces.len(),
            ifaces@ == s.ifaces@.take(i as int),
        decreases s.ifaces.len() - i,
    {
        ifaces.push(copy_net_info(&s.ifaces[i]));
        i = i + 1;
        assert(ifaces@ =~= s.ifaces@.take(i as int));
    }
    let mut procs: Vec<ProcNet> = Vec::new();
    let mut j: usize = 0;
    while j < s.proc_net.len()
        invariant
            j <= s.proc_net.len(),
            procs@ == s.proc_net@.take(j as int),
        decreases s.proc_net.len() - j,
    {
        procs.push(s.proc_net[j]);
        j = j + 1;
        assert(procs@ =~= s.proc_net@.take(j as int));
    }
    assert(ifaces@ =~= s.ifaces@);
    assert(procs@ =~= s.proc_net@);
    NetSnapshot { ifaces, totals: s.totals, proc_net: procs }
}

/// The network monitor's memory between refreshes: the interface
/// counters and retransmission total of the last sample, and the
/// snapshot that the last refresh produced.
pub struct NetMonitor {
    prev: NetDevTable,
    prev_retrans: u64,
    snapshot: NetSnapshot,
}

impl NetMonitor {
    #[verifier::type_invariant]
    spec fn inv(&self) -> bool {
        self.prev.wf()
    }

    /// Interface counters of the last sample.
    pub closed spec fn prev_counters(&self) -> Map<Seq<char>, DevCounters> {
        self.prev@
    }

    /// Retransmitted-segments total of the last sample.
    pub closed spec fn prev_retrans_total(&self) -> u64 {
        self.prev_retrans
    }

    /// The snapshot that the last refresh produced.
    pub closed spec fn current(&self) -> NetSnapshot {
        self.snapshot
    }

    /// A monitor that has seen no sample: no interfaces, zero totals.
    pub fn new() -> (r: Self)
        ensures
            r.prev_counters() == Map::<Seq<char>, DevCounters>::empty(),
            r.prev_retrans_total() == 0,
            r.current().ifaces@.len() == 0,
            r.current().proc_net@.len() == 0,
            r.current().totals == (NetTotals { rx_bps: 0, tx_bps: 0, tcp_retrans_s: 0, tcp_established: 0 }),
    {
        NetMonitor {
            prev: NameTable::new(),
            prev_retrans: 0,
            snapshot: NetSnapshot {
                ifaces: Vec::new(),
                totals: NetTotals { rx_bps: 0, tx_bps: 0, tcp_retrans_s: 0, tcp_established: 0 },
                proc_net: Vec::new(),
            },
        }
    }

    /// The snapshot of the last refresh.
    pub fn snapshot(&self) -> (r: NetSnapshot)
        ensures
            r.ifaces@ == self.current().ifaces@,
            r.totals == self.current().totals,
            r.proc_net@ == self.current().proc_net@,
    {
        copy_snapshot(&self.snapshot)
    }

    /// For each interface of the new sample that the last sample also
    /// has, in the new sample's order: its counter growth and its current
    /// counters. An interface seen for the first time has no rates yet.
    pub fn interface_deltas(&self, cur: &NetDevTable) -> (r: Vec<IfaceDelta>)
        requires
            cur.wf(),
        ensures
            delta_views(r@) == iface_deltas(self.prev_counters(), cur.pairs()),
    {
        proof {
            use_type_invariant(self);
        }
        let n = cur.len();
        let mut out: Vec<IfaceDelta> = Vec::new();
        let mut i: usize = 0;
        while i < n
            invariant
                i <= n == cur.pairs().len(),
                cur.wf(),
                self.prev.wf(),
                delta_views(out@) == iface_deltas(self.prev@, cur.pairs().take(i as int)),
            decreases n - i,
        {
            let name = cur.name_at(i);
            let c = *cur.value_at(i);
            let ghost before = out@;
            assert(cur.pairs().take(i + 1).drop_last() =~= cur.pairs().take(i as int));
            assert(cur.pairs().take(i + 1).last() == cur.pairs()[i as int]);
            match self.prev.get_name(name) {
                Some(p) => {
                    let d: DevCounters = (
                        c.0.saturating_sub(p.0),
                        c.1.saturating_sub(p.1),
                        c.2.saturating_sub(p.2),
                        c.3.saturating_sub(p.3),
                        c.4.saturating_sub(p.4),
                        c.5.saturating_sub(p.5),
                        c.6.saturating_sub(p.6),
                        c.7.saturating_sub(p.7),
                    );
                    out.push(IfaceDelta { name: name.clone(), delta: d, current: c });
                    assert(delta_views(out@) =~= delta_views(before).push((name@, d, c)));
                },
                None => {},
            }
            i = i + 1;
        }
        assert(cur.pairs().take(i as int) =~= cur.pairs());
        out
    }

    /// Retransmitted segments since the last sample (0 after a counter
    /// reset).
    pub fn retrans_delta(&self, retrans_total: u64) -> (r: u64)
        ensures
            r == sat_sub(retrans_total, self.prev_retrans_total()),
    {
        retrans_total.saturating_sub(self.prev_retrans)
    }

    /// Ends a refresh: the interface rows ordered busiest receiver first,
    /// totals summed over them, and the new sample kept for the next
    /// refresh.
    pub fn store_refresh(
        &mut self,
        cur: NetDevTable,
        retrans_total: u64,
        ifaces: Vec<NetInfo>,
        tcp_retrans_s: u64,
        tcp_established: u64,
        proc_net: Vec<ProcNet>,
    )
        requires
            cur.wf(),
            sum_rx(ifaces@) <= u64::MAX,
            sum_tx(ifaces@) <= u64::MAX,
        ensures
            final(self).prev_counters() == cur@,
            final(self).prev_retrans_total() == retrans_total,
            final(self).current().ifaces@.to_multiset() == ifaces@.to_multiset(),
            sorted_desc(final(self).current().ifaces@),
            final(self).current().totals == (NetTotals {
                rx_bps: sum_rx(ifaces@) as u64,
                tx_bps: sum_tx(ifaces@) as u64,
                tcp_retrans_s,
                tcp_established,
            }),
            final(self).current().proc_net@ == proc_net@,
    {
        proof {
            use_type_invariant(&*self);
        }
        let totals = net_totals(&ifaces, tcp_retrans_s, tcp_established);
        let sorted = sort_desc(ifaces);
        self.snapshot = NetSnapshot { ifaces: sorted, totals, proc_net };
        self.prev = cur;
        self.prev_retrans = retrans_total;
    }
}

impl Default for NetMonitor {
    fn default() -> (r: Self)
        ensures
            r.prev_counters() == Map::<Seq<char>, DevCounters>::empty(),
            r.prev_retrans_total() == 0,
            r.current().ifaces@.len() == 0,
            r.current().proc_net@.len() == 0,
    {
        Self::new()
    }
}

/// Number of sockets of class `c` that process `pid` holds among `ev`.
pub open spec fn class_count(ev: Seq<(u32, Sock)>, pid: u32, c: Sock) -> nat
    decreases ev.len(),
{
    if ev.len() == 0 {
        0
    } else {
        class_count(ev.drop_last(), pid, c) + if ev.last() == (pid, c) {
            1nat
        } else {
            0nat
        }
    }
}

/// Whether process `pid` holds any socket among `ev`.
pub open spec fn has_pid(ev: Seq<(u32, Sock)>, pid: u32) -> bool {
    exists|i: int| 0 <= i < ev.len() && #[trigger] ev[i].0 == pid
}

/// The socket counts of process `pid` among `ev`.
pub open spec fn proc_entry(ev: Seq<(u32, Sock)>, pid: u32) -> ProcNet {
    ProcNet {
        pid,
        tcp_est: class_count(ev, pid, Sock::TcpEst) as u32,
        tcp_listen: class_count(ev, pid, Sock::TcpListen) as u32,
        udp: class_count(ev, pid, Sock::Udp) as u32,
    }
}

/// Every process holds at most `u32::MAX` counted sockets, so its row's
/// counts and their sum fit the row's fields.
pub open spec fn socket_counts_fit(ev: Seq<(u32, Sock)>) -> bool {
    forall|pid: u32|
        #![trigger class_count(ev, pid, Sock::TcpEst)]
        class_count(ev, pid, Sock::TcpEst) + class_count(ev, pid, Sock::TcpListen) + class_count(
            ev,
            pid,
            Sock::Udp,
        ) <= u32::MAX
}

proof fn lemma_class_count_prefix(ev: Seq<(u32, Sock)>, j: int, pid: u32, c: Sock)
    requires
        0 <= j <= ev.len(),
    ensures
        class_count(ev.take(j), pid, c) <= class_count(ev, pid, c),
    decreases ev.len() - j,
{
    if j < ev.len() {
        lemma_class_count_prefix(ev.drop_last(), j, pid, c);
        assert(ev.drop_last().take(j) =~= ev.take(j));
    } else {
        assert(ev.take(j) =~= ev);
    }
}

/// Per-process socket counts from `(pid, class)` pairs, one row per
/// process in order of first appearance. A process whose sockets are all
/// of the uncounted TCP states still has a row.
pub fn tally_sockets(ev: &Vec<(u32, Sock)>) -> (r: Vec<ProcNet>)
    requires
        socket_counts_fit(ev@),
    ensures
        forall|i: int| 0 <= i < r.len() ==> has_pid(ev@, #[trigger] r@[i].pid),
        forall|i: int| 0 <= i < r.len() ==> #[trigger] r@[i] == proc_entry(ev@, r@[i].pid),
        forall|i: int, j: int| 0 <= i < j < r.len() ==> r@[i].pid != r@[j].pid,
        forall|pid: u32| has_pid(ev@, pid) ==> exists|i: int| 0 <= i < r.len() && #[trigger] r@[i].pid == pid,
{
    let mut out: Vec<ProcNet> = Vec::new();
    let mut k: usize = 0;
    while k < ev.len()
        invariant
            k <= ev.len(),
            socket_counts_fit(ev@),
            forall|i: int| 0 <= i < out.len() ==> has_pid(ev@.take(k as int), #[trigger] out@[i].pid),
            forall|i: int| 0 <= i < out.len() ==> #[trigger] out@[i] == proc_entry(ev@.take(k as int), out@[i].pid),
            forall|i: int, j: int| 0 <= i < j < out.len() ==> out@[i].pid != out@[j].pid,
            forall|pid: u32| has_pid(ev@.take(k as int), pid) ==> exists|i: int| 0 <= i < out.len() && #[trigger] out@[i].pid == pid,
        decreases ev.len() - k,
    {
        let ghost pre = ev@.take(k as int);
        let ghost post = ev@.take(k + 1);
        assert(post.drop_last() =~= pre);
        assert(post.last() == ev@[k as int]);
        let (pid, class) = ev[k];
        let mut j: usize = 0;
        while j < out.len() && out[j].pid != pid
            invariant
                j <= out.len(),
                forall|m: int| 0 <= m < j ==> out@[m].pid != pid,
            decreases out.len() - j,
        {
            j = j + 1;
        }
        proof {
            assert forall|p: u32, c: Sock| #[trigger] class_count(post, p, c) == class_count(pre, p, c) + if ev@[k as int] == (p, c) { 1nat } else { 0nat } by {}
            lemma_class_count_prefix(ev@, k + 1, pid, Sock::TcpEst);
            lemma_class_count_prefix(ev@, k + 1, pid, Sock::TcpListen);
            lemma_class_count_prefix(ev@, k + 1, pid, Sock::Udp);
            assert(class_count(ev@, pid, Sock::TcpEst) + class_count(ev@, pid, Sock::TcpListen) + class_count(ev@, pid, Sock::Udp) <= u32::MAX);
            assert forall|p: u32| has_pid(pre, p) implies has_pid(post, p) by {
                let i = choose|i: int| 0 <= i < pre.len() && #[trigger] pre[i].0 == p;
                assert(post[i].0 == p);
            }
            assert(has_pid(post, pid)) by {
                assert(post[k as int].0 == pid);
            }
        }
        let ghost before_out = out@;
        if j == out.len() {
            proof {
                if has_pid(pre, pid) {
                    let i = choose|i: int| 0 <= i < out.len() && #[trigger] out@[i].pid == pid;
                    assert(out@[i].pid != pid);
                }
                assert(class_count(pre, pid, Sock::TcpEst) == 0) by {
                    lemma_class_count_zero(pre, pid, Sock::TcpEst);
                }
                assert(class_count(pre, pid, Sock::TcpListen) == 0) by {
                    lemma_class_count_zero(pre, pid, Sock::TcpListen);
                }
                assert(class_count(pre, pid, Sock::Udp) == 0) by {
                    lemma_class_count_zero(pre, pid, Sock::Udp);
                }
            }
            out.push(ProcNet { pid, tcp_est: 0, tcp_listen: 0, udp: 0 });
        }
        let ghost mid = out@;
        let mut e = out[j];
        match class {
            Sock::TcpEst => e.tcp_est = e.tcp_est + 1,
            Sock::TcpListen => e.tcp_listen = e.tcp_listen + 1,
            Sock::Udp => e.udp = e.udp + 1,
            Sock::TcpOther => {},
        }
        out.set(j, e);
        proof {
            assert(out@[j as int] == proc_entry(post, pid));
            assert forall|i: int| 0 <= i < out.len() implies #[trigger] out@[i] == proc_entry(post, out@[i].pid) by {
                if i != j {
                    assert(out@[i] == mid[i]);
                    assert(mid[i].pid != pid);
                }
            }
            assert forall|i: int| 0 <= i < out.len() implies has_pid(post, #[trigger] out@[i].pid) by {
                if i != j {
                    assert(out@[i] == mid[i]);
                }
            }
            assert forall|p: u32| has_pid(post, p) implies exists|i: int| 0 <= i < out.len() && #[trigger] out@[i].pid == p by {
                if p == pid {
                    assert(out@[j as int].pid == p);
                } else {
                    let i = choose|i: int| 0 <= i < post.len() && #[trigger] post[i].0 == p;
                    assert(i < k);
                    assert(pre[i].0 == p);
                    assert(has_pid(pre, p));
                    let m = choose|m: int| 0 <= m < before_out.len() && #[trigger] before_out[m].pid == p;
                    assert(mid[m] == before_out[m]);
                    assert(out@[m].pid == p);
                }
            }
        }
        k = k + 1;
    }
    assert(ev@.take(k as int) =~= ev@);
    out
}

proof fn lemma_class_count_zero(ev: Seq<(u32, Sock)>, pid: u32, c: Sock)
    requires
        !has_pid(ev, pid),
    ensures
        class_count(ev, pid, c) == 0,
    decreases ev.len(),
{
    if ev.len() > 0 {
        assert(!has_pid(ev.drop_last(), pid)) by {
            if has_pid(ev.drop_last(), pid) {
                let i = choose|i: int| 0 <= i < ev.drop_last().len() && #[trigger] ev.drop_last()[i].0 == pid;
                assert(ev[i].0 == pid);
            }
        }
        lemma_class_count_zero(ev.drop_last(), pid, c);
        assert(ev.last().0 != pid) by {
            assert(ev[ev.len() - 1].0 == ev.last().0);
        }
    }
}

/// How many processes the socket list keeps.
pub const PROC_NET_LIMIT: usize = 32;

/// The processes with the most sockets, most first, at most
/// `PROC_NET_LIMIT` of them.
pub fn proc_net_from(ev: &Vec<(u32, Sock)>) -> (r: Vec<ProcNet>)
    requires
        socket_counts_fit(ev@),
    ensures
        r.len() <= PROC_NET_LIMIT,
        sorted_desc(r@),
        forall|i: int| 0 <= i < r.len() ==> has_pid(ev@, #[trigger] r@[i].pid),
        forall|i: int| 0 <= i < r.len() ==> #[trigger] r@[i] == proc_entry(ev@, r@[i].pid),
        forall|i: int, j: int| 0 <= i < j < r.len() ==> r@[i].pid != r@[j].pid,
        forall|pid: u32|
            has_pid(ev@, pid) && !(exists|i: int| 0 <= i < r.len() && #[trigger] r@[i].pid == pid)
                ==> r.len() == PROC_NET_LIMIT && forall|i: int|
                0 <= i < r.len() ==> socket_total(#[trigger] r@[i]) >= socket_total(
                    proc_entry(ev@, pid),
                ),
        forall|i: int, j: int|
            0 <= i < j < r.len() ==> #[trigger] r@[i].tcp_est + r@[i].tcp_listen + r@[i].udp
                >= #[trigger] r@[j].tcp_est + r@[j].tcp_listen + r@[j].udp,
        forall|pid: u32|
            has_pid(ev@, pid) && !(exists|i: int| 0 <= i < r.len() && #[trigger] r@[i].pid == pid)
                ==> forall|i: int|
                0 <= i < r.len() ==> #[trigger] r@[i].tcp_est + r@[i].tcp_listen + r@[i].udp
                    >= class_count(ev@, pid, Sock::TcpEst) + class_count(ev@, pid, Sock::TcpListen)
                    + class_count(ev@, pid, Sock::Udp),
{
    let tally = tally_sockets(ev);
    let ghost t = tally@;
    let mut sorted = sort_desc(tally);
    let ghost s = sorted@;
    proof {
        broadcast use vstd::seq_lib::group_to_multiset_ensures;
        assert forall|i: int| 0 <= i < s.len() implies t.contains(#[trigger] s[i]) by {
            assert(s.to_multiset().count(s[i]) > 0);
        }
        assert(t.no_duplicates()) by {
            assert forall|i: int, j: int| 0 <= i < t.len() && 0 <= j < t.len() && i != j implies t[i] != t[j] by {
                if i < j {
                    assert(t[i].pid != t[j].pid);
                } else {
                    assert(t[j].pid != t[i].pid);
                }
            }
        }
        t.lemma_multiset_has_no_duplicates();
        assert forall|x: ProcNet| s.to_multiset().contains(x) implies s.to_multiset().count(x) == 1 by {}
        s.lemma_multiset_has_no_duplicates_conv();
        assert forall|i: int, j: int| 0 <= i < j < s.len() implies s[i].pid != s[j].pid by {
            assert(t.contains(s[i]));
            assert(t.contains(s[j]));
            if s[i].pid == s[j].pid {
                let a = choose|a: int| 0 <= a < t.len() && t[a] == s[i];
                let b = choose|b: int| 0 <= b < t.len() && t[b] == s[j];
                assert(t[a] == proc_entry(ev@, t[a].pid));
                assert(t[b] == proc_entry(ev@, t[b].pid));
            }
        }
        assert forall|pid: u32| has_pid(ev@, pid) implies exists|i: int| 0 <= i < s.len() && #[trigger] s[i].pid == pid by {
            let a = choose|a: int| 0 <= a < t.len() && #[trigger] t[a].pid == pid;
            assert(t.to_multiset().count(t[a]) > 0);
            assert(s.contains(t[a]));
            let i = choose|i: int| 0 <= i < s.len() && s[i] == t[a];
            assert(s[i].pid == pid);
        }
    }
    sorted.truncate(PROC_NET_LIMIT);
    proof {
        assert forall|i: int| 0 <= i < sorted.len() implies #[trigger] sorted@[i] == proc_entry(ev@, sorted@[i].pid) && has_pid(ev@, sorted@[i].pid) by {
            assert(sorted@[i] == s[i]);
            assert(t.contains(s[i]));
            let a = choose|a: int| 0 <= a < t.len() && t[a] == s[i];
            assert(t[a] == proc_entry(ev@, t[a].pid));
            assert(has_pid(ev@, t[a].pid));
        }
        assert forall|pid: u32|
            has_pid(ev@, pid) && !(exists|i: int| 0 <= i < sorted.len() && #[trigger] sorted@[i].pid == pid)
            implies sorted.len() == PROC_NET_LIMIT && forall|i: int|
                0 <= i < sorted.len() ==> socket_total(#[trigger] sorted@[i]) >= socket_total(proc_entry(ev@, pid)) by {
            let m = choose|m: int| 0 <= m < s.len() && #[trigger] s[m].pid == pid;
            if m < sorted.len() {
                assert(sorted@[m].pid == pid);
            }
            assert(t.contains(s[m]));
            let a = choose|a: int| 0 <= a < t.len() && t[a] == s[m];
            assert(t[a] == proc_entry(ev@, t[a].pid));
            assert forall|i: int| 0 <= i < sorted.len() implies socket_total(#[trigger] sorted@[i]) >= socket_total(proc_entry(ev@, pid)) by {
                assert(sorted@[i] == s[i]);
                assert(s[i].rank_spec() >= s[m].rank_spec());
            }
        }
    }
    proof {
        assert forall|i: int, j: int| 0 <= i < j < sorted.len() implies #[trigger] sorted@[i].tcp_est
            + sorted@[i].tcp_listen + sorted@[i].udp >= #[trigger] sorted@[j].tcp_est
            + sorted@[j].tcp_listen + sorted@[j].udp by {
            assert(sorted@[i].rank_spec() >= sorted@[j].rank_spec());
        }
        assert forall|pid: u32|
            has_pid(ev@, pid) && !(exists|i: int| 0 <= i < sorted.len() && #[trigger] sorted@[i].pid == pid)
            implies forall|i: int|
            0 <= i < sorted.len() ==> #[trigger] sorted@[i].tcp_est + sorted@[i].tcp_listen + sorted@[i].udp
                >= class_count(ev@, pid, Sock::TcpEst) + class_count(ev@, pid, Sock::TcpListen)
                + class_count(ev@, pid, Sock::Udp) by {
            assert(class_count(ev@, pid, Sock::TcpEst) + class_count(ev@, pid, Sock::TcpListen)
                + class_count(ev@, pid, Sock::Udp) <= u32::MAX);
            assert forall|i: int| 0 <= i < sorted.len() implies #[trigger] sorted@[i].tcp_est
                + sorted@[i].tcp_listen + sorted@[i].udp >= class_count(ev@, pid, Sock::TcpEst)
                + class_count(ev@, pid, Sock::TcpListen) + class_count(ev@, pid, Sock::Udp) by {
                assert(socket_total(sorted@[i]) >= socket_total(proc_entry(ev@, pid)));
            }
        }
    }
    sorted
}

/// The first refresh shows no interface: rates need two samples.
pub proof fn law_first_refresh_has_no_interfaces(cur: Seq<(Seq<char>, DevCounters)>)
    ensures
        iface_deltas(Map::empty(), cur) == Seq::<(Seq<char>, DevCounters, DevCounters)>::empty(),
    decreases cur.len(),
{
    if cur.len() > 0 {
        law_first_refresh_has_no_interfaces(cur.drop_last());
    }
}

proof fn lemma_deltas_against_self(m: Map<Seq<char>, DevCounters>, s: Seq<(Seq<char>, DevCounters)>)
    requires
        forall|i: int| 0 <= i < s.len() ==> m.dom().contains(#[trigger] s[i].0) && m[s[i].0] == s[i].1,
    ensures
        iface_deltas(m, s) == s.map_values(
            |e: (Seq<char>, DevCounters)| (e.0, (0u64, 0u64, 0u64, 0u64, 0u64, 0u64, 0u64, 0u64), e.1),
        ),
    decreases s.len(),
{
    if s.len() > 0 {
        lemma_deltas_against_self(m, s.drop_last());
        assert(m.dom().contains(s[s.len() - 1].0));
        assert(s.map_values(
            |e: (Seq<char>, DevCounters)| (e.0, (0u64, 0u64, 0u64, 0u64, 0u64, 0u64, 0u64, 0u64), e.1),
        ) =~= s.drop_last().map_values(
            |e: (Seq<char>, DevCounters)| (e.0, (0u64, 0u64, 0u64, 0u64, 0u64, 0u64, 0u64, 0u64), e.1),
        ).push((s.last().0, (0u64, 0u64, 0u64, 0u64, 0u64, 0u64, 0u64, 0u64), s.last().1)));
    } else {
        assert(s.map_values(
            |e: (Seq<char>, DevCounters)| (e.0, (0u64, 0u64, 0u64, 0u64, 0u64, 0u64, 0u64, 0u64), e.1),
        ) =~= Seq::<(Seq<char>, DevCounters, DevCounters)>::empty());
    }
}

/// Refreshing against a sample with the same counters shows every
/// interface, in order, with all rates 0.
pub proof fn law_unchanged_counters_give_zero_deltas(t: NetDevTable)
    requires
        t.wf(),
    ensures
        iface_deltas(t@, t.pairs()) == t.pairs().map_values(
            |e: (Seq<char>, DevCounters)| (e.0, (0u64, 0u64, 0u64, 0u64, 0u64, 0u64, 0u64, 0u64), e.1),
        ),
{
    t.lemma_view();
    lemma_deltas_against_self(t@, t.pairs());
}

proof fn lemma_netdev_map_concat(l1: Seq<Seq<char>>, l2: Seq<Seq<char>>)
    ensures
        netdev_map(l1 + l2) == netdev_map(l1).union_prefer_right(netdev_map(l2)),
    decreases l2.len(),
{
    if l2.len() == 0 {
        assert(l1 + l2 =~= l1);
        assert(netdev_map(l1).union_prefer_right(netdev_map(l2)) =~= netdev_map(l1));
    } else {
        lemma_netdev_map_concat(l1, l2.drop_last());
        assert((l1 + l2).drop_last() =~= l1 + l2.drop_last());
        assert((l1 + l2).last() == l2.last());
        assert(netdev_map(l1 + l2) =~= netdev_map(l1).union_prefer_right(netdev_map(l2)));
    }
}

/// Parsing two texts joined at a line break gives the interfaces of both,
/// each with the counters of the later text where that text has it.
pub proof fn law_netdev_concat(a: Seq<char>, b: Seq<char>)
    requires
        a.len() == 0 || a.last() == '\n',
    ensures
        netdev_map(spec_lines(a + b)) == netdev_map(spec_lines(a)).union_prefer_right(
            netdev_map(spec_lines(b)),
        ),
{
    crate::text::lemma_lines_concat(a, b);
    lemma_netdev_map_concat(spec_lines(a), spec_lines(b));
}


/// When `/proc/net/dev` cannot be read and its text is taken as empty,
/// the refresh has no interface rows and zero totals, and the kept sample
/// is empty, so the next refresh has no interface rows either.
pub proof fn law_unreadable_dev_file_shows_nothing(
    cur: NetDevTable,
    prev: Map<Seq<char>, DevCounters>,
    next: Seq<(Seq<char>, DevCounters)>,
)
    requires
        cur.wf(),
        cur@ == netdev_map(spec_lines(Seq::<char>::empty())),
    ensures
        cur@ == Map::<Seq<char>, DevCounters>::empty(),
        iface_deltas(prev, cur.pairs()) == Seq::<(Seq<char>, DevCounters, DevCounters)>::empty(),
        sum_rx(Seq::<NetInfo>::empty()) == 0,
        sum_tx(Seq::<NetInfo>::empty()) == 0,
        iface_deltas(cur@, next) == Seq::<(Seq<char>, DevCounters, DevCounters)>::empty(),
{
    assert(spec_lines(Seq::<char>::empty()) == Seq::<Seq<char>>::empty());
    cur.lemma_view();
    assert(cur.pairs().len() == 0);
    law_first_refresh_has_no_interfaces(next);
}


/// Each delta is the growth of the same counter: where the counter did
/// not go back, the earlier value plus the delta is the later value;
/// where it went back (a reset), the delta is 0.
pub proof fn law_dev_deltas_are_counter_growth(prev: DevCounters, cur: DevCounters)
    ensures
        ({
            let d = dev_deltas(prev, cur);
            &&& (prev.0 <= cur.0 ==> prev.0 + d.0 == cur.0) && (cur.0 < prev.0 ==> d.0 == 0)
            &&& (prev.1 <= cur.1 ==> prev.1 + d.1 == cur.1) && (cur.1 < prev.1 ==> d.1 == 0)
            &&& (prev.2 <= cur.2 ==> prev.2 + d.2 == cur.2) && (cur.2 < prev.2 ==> d.2 == 0)
            &&& (prev.3 <= cur.3 ==> prev.3 + d.3 == cur.3) && (cur.3 < prev.3 ==> d.3 == 0)
            &&& (prev.4 <= cur.4 ==> prev.4 + d.4 == cur.4) && (cur.4 < prev.4 ==> d.4 == 0)
            &&& (prev.5 <= cur.5 ==> prev.5 + d.5 == cur.5) && (cur.5 < prev.5 ==> d.5 == 0)
            &&& (prev.6 <= cur.6 ==> prev.6 + d.6 == cur.6) && (cur.6 < prev.6 ==> d.6 == 0)
            &&& (prev.7 <= cur.7 ==> prev.7 + d.7 == cur.7) && (cur.7 < prev.7 ==> d.7 == 0)
        }),
{
}

/// Every row of a refresh is an interface of the current sample that the
/// previous sample has, with its current counters, and its deltas grow
/// the previous counters into the current ones counter by counter.
pub proof fn law_interface_deltas_rows(
    prev: Map<Seq<char>, DevCounters>,
    cur: Seq<(Seq<char>, DevCounters)>,
)
    ensures
        forall|i: int|
            0 <= i < iface_deltas(prev, cur).len() ==> {
                let e = #[trigger] iface_deltas(prev, cur)[i];
                let p = prev[e.0];
                &&& prev.dom().contains(e.0)
                &&& exists|j: int| 0 <= j < cur.len() && #[trigger] cur[j] == (e.0, e.2)
                &&& (p.0 <= e.2.0 ==> p.0 + e.1.0 == e.2.0)
                &&& (p.1 <= e.2.1 ==> p.1 + e.1.1 == e.2.1)
                &&& (p.2 <= e.2.2 ==> p.2 + e.1.2 == e.2.2)
                &&& (p.3 <= e.2.3 ==> p.3 + e.1.3 == e.2.3)
                &&& (p.4 <= e.2.4 ==> p.4 + e.1.4 == e.2.4)
                &&& (p.5 <= e.2.5 ==> p.5 + e.1.5 == e.2.5)
                &&& (p.6 <= e.2.6 ==> p.6 + e.1.6 == e.2.6)
                &&& (p.7 <= e.2.7 ==> p.7 + e.1.7 == e.2.7)
            },
    decreases cur.len(),
{
    if cur.len() > 0 {
        law_interface_deltas_rows(prev, cur.drop_last());
        let rest = iface_deltas(prev, cur.drop_last());
        assert forall|i: int| 0 <= i < iface_deltas(prev, cur).len() implies {
            let e = #[trigger] iface_deltas(prev, cur)[i];
            let p = prev[e.0];
            &&& prev.dom().contains(e.0)
            &&& exists|j: int| 0 <= j < cur.len() && #[trigger] cur[j] == (e.0, e.2)
            &&& (p.0 <= e.2.0 ==> p.0 + e.1.0 == e.2.0)
            &&& (p.1 <= e.2.1 ==> p.1 + e.1.1 == e.2.1)
            &&& (p.2 <= e.2.2 ==> p.2 + e.1.2 == e.2.2)
            &&& (p.3 <= e.2.3 ==> p.3 + e.1.3 == e.2.3)
            &&& (p.4 <= e.2.4 ==> p.4 + e.1.4 == e.2.4)
            &&& (p.5 <= e.2.5 ==> p.5 + e.1.5 == e.2.5)
            &&& (p.6 <= e.2.6 ==> p.6 + e.1.6 == e.2.6)
            &&& (p.7 <= e.2.7 ==> p.7 + e.1.7 == e.2.7)
        } by {
            if i < rest.len() {
                assert(iface_deltas(prev, cur)[i] == rest[i]);
                let e = rest[i];
                let j = choose|j: int| 0 <= j < cur.drop_last().len() && #[trigger] cur.drop_last()[j] == (e.0, e.2);
                assert(cur[j] == (e.0, e.2));
            } else {
                let last = cur[cur.len() - 1];
                assert(cur.last() == last);
                assert(iface_deltas(prev, cur)[i] == (last.0, dev_deltas(prev[last.0], last.1), last.1));
            }
        }
    }
}

/// A process's socket total counts its established, listening and UDP
/// sockets, which is what the busiest-first order of its row goes by.
pub proof fn law_socket_total_counts_three_classes(p: ProcNet)
    ensures
        socket_total(p) == p.tcp_est + p.tcp_listen + p.udp,
        p.rank_spec() == p.tcp_est + p.tcp_listen + p.udp,
{
}

/// Rows ordered busiest first are ordered by established plus listening
/// plus UDP sockets, most first.
pub proof fn law_busiest_first_order(s: Seq<ProcNet>)
    requires
        sorted_desc(s),
    ensures
        forall|i: int, j: int|
            0 <= i < j < s.len() ==> #[trigger] s[i].tcp_est + s[i].tcp_listen + s[i].udp
                >= #[trigger] s[j].tcp_est + s[j].tcp_listen + s[j].udp,
{
    assert forall|i: int, j: int| 0 <= i < j < s.len() implies #[trigger] s[i].tcp_est
        + s[i].tcp_listen + s[i].udp >= #[trigger] s[j].tcp_est + s[j].tcp_listen + s[j].udp by {
        assert(s[i].rank_spec() >= s[j].rank_spec());
    }
}

/// A `speed` file holding the decimal digits of a positive number, with
/// or without a line break after them, gives that speed; a zero speed
/// gives none.
pub proof fn law_link_speed_reads_any_positive_speed(v: u64)
    ensures
        v > 0 ==> spec_link_speed(Some(crate::text::decimal(v as nat))) == Some(v),
        v > 0 ==> spec_link_speed(Some(crate::text::decimal(v as nat).push('\n'))) == Some(v),
        v == 0 ==> spec_link_speed(Some(crate::text::decimal(v as nat))) is None,
        spec_link_speed(None) is None,
{
    crate::text::law_parse_reads_decimal(v as nat);
}

/// A `/proc/net/dev` line written as an interface name, `':'` and twelve
/// numbers reads back as that interface with rx bytes, packets, errors
/// and drops from the first four numbers and tx bytes, packets, errors
/// and drops from the ninth to the twelfth.
pub proof fn law_netdev_line_fields(name: Seq<char>, v: Seq<u64>)
    requires
        crate::text::is_word(name),
        forall|i: int| 0 <= i < name.len() ==> name[i] != ':',
        v.len() == 12,
    ensures
        netdev_line(name + seq![':'] + crate::text::join_words(crate::text::decimals(v))) == Some(
            (name, (v[0], v[1], v[2], v[3], v[8], v[9], v[10], v[11])),
        ),
{
    let j = crate::text::join_words(crate::text::decimals(v));
    let l = name + seq![':'] + j;
    assert forall|i: int| 0 <= i < name.len() implies l[i] != ':' by {
        assert(l[i] == name[i]);
    }
    assert(l[name.len() as int] == ':');
    crate::text::lemma_len_before(l, ':', name.len() as int);
    assert(l.take(name.len() as int) =~= name);
    assert(l.skip(name.len() + 1int) =~= j);
    crate::text::lemma_trim_word(name);
    let head = Seq::<Seq<char>>::empty();
    crate::text::lemma_decimal_fields(head, v);
    assert(head + crate::text::decimals(v) =~= crate::text::decimals(v));
    let t = crate::text::decimals(v);
    assert(spec_words(j) == t);
    assert forall|k: int| 0 <= k < 12 implies (#[trigger] spec_parse_u64(t[k])) is Some by {
        assert(spec_parse_u64((head + t)[head.len() + k]) == Some(v[k] as nat));
    }
    assert forall|k: int| 0 <= k < 12 implies counter_value(#[trigger] t[k]) == v[k] by {
        assert(spec_parse_u64((head + t)[head.len() + k]) == Some(v[k] as nat));
    }
}

/// A socket table line written as words whose tenth is the decimal inode
/// reads back as that inode; UDP tables give the UDP class, and a TCP
/// line is established for state `01`, listening for `0A`, and of
/// another state otherwise.
pub proof fn law_socket_line_fields(ts: Seq<Seq<char>>, inode: u64, udp: bool)
    requires
        ts.len() >= 10,
        forall|i: int| 0 <= i < ts.len() ==> crate::text::is_word(#[trigger] ts[i]),
        ts[9] == crate::text::decimal(inode as nat),
    ensures
        spec_socket_line(crate::text::join_words(ts), udp) == Some(
            (
                inode,
                if udp {
                    Sock::Udp
                } else if ts[3] == seq!['0', '1'] {
                    Sock::TcpEst
                } else if ts[3] == seq!['0', 'A'] {
                    Sock::TcpListen
                } else {
                    Sock::TcpOther
                },
            ),
        ),
{
    reveal_strlit("01");
    reveal_strlit("0A");
    assert("01"@ =~= seq!['0', '1']);
    assert("0A"@ =~= seq!['0', 'A']);
    crate::text::law_words_of_joined(ts);
    crate::text::law_parse_reads_digits(inode as nat, 10, u64::MAX as nat);
}

/// The retransmitted-segments count is field 13 of the second `Tcp:` line.
pub proof fn law_retrans_field(h: Seq<char>, ts: Seq<Seq<char>>, v: u64)
    requires
        has_prefix(h, seq!['T', 'c', 'p', ':']),
        ts.len() > 12,
        forall|i: int| 0 <= i < ts.len() ==> crate::text::is_word(#[trigger] ts[i]),
        ts[0] == seq!['T', 'c', 'p', ':'],
        ts[12] == crate::text::decimal(v as nat),
    ensures
        spec_retrans(seq![h, crate::text::join_words(ts)]) == v,
{
    reveal_strlit("Tcp:");
    assert("Tcp:"@ =~= seq!['T', 'c', 'p', ':']);
    let l2 = crate::text::join_words(ts);
    crate::text::lemma_join_starts_with_first(ts);
    let ls = seq![h, l2];
    assert(ls.drop_last() =~= seq![h]);
    assert(seq![h].drop_last() =~= Seq::<Seq<char>>::empty());
    assert(seq![h].last() == h);
    assert(has_prefix(h, "Tcp:"@));
    assert(has_prefix(l2, "Tcp:"@));
    assert(ls.last() == l2);
    assert(tcp_section_lines(Seq::<Seq<char>>::empty()) =~= Seq::<Seq<char>>::empty());
    assert(tcp_section_lines(seq![h]) =~= seq![h]);
    assert(tcp_section_lines(ls) =~= seq![h, l2]);
    crate::text::law_words_of_joined(ts);
    crate::text::law_parse_reads_digits(v as nat, 10, u64::MAX as nat);
}

proof fn lemma_socket_lines_first(h: Seq<char>, rows: Seq<Seq<char>>)
    ensures
        socket_lines(seq![h] + rows) == socket_lines(rows) + if is_socket_header(h) {
            0nat
        } else {
            1nat
        },
    decreases rows.len(),
{
    if rows.len() == 0 {
        assert(seq![h] + rows =~= seq![h]);
        assert(seq![h].drop_last() =~= Seq::<Seq<char>>::empty());
        assert(seq![h].last() == h);
        assert(socket_lines(Seq::<Seq<char>>::empty()) == 0);
        assert(socket_lines(rows) == 0);
    } else {
        lemma_socket_lines_first(h, rows.drop_last());
        assert((seq![h] + rows).drop_last() =~= seq![h] + rows.drop_last());
        assert((seq![h] + rows).last() == rows.last());
    }
}

/// The header of a socket table (first word `sl`), however far it is
/// indented, is not counted; a line whose first word is anything else is.
pub proof fn law_socket_header_not_counted(k: nat, ts: Seq<Seq<char>>, rows: Seq<Seq<char>>)
    requires
        ts.len() > 0,
        forall|i: int| 0 <= i < ts.len() ==> crate::text::is_word(#[trigger] ts[i]),
    ensures
        ts[0] == seq!['s', 'l'] ==> socket_lines(
            seq![crate::text::indent(k) + crate::text::join_words(ts)] + rows,
        ) == socket_lines(rows),
        ts[0] != seq!['s', 'l'] ==> socket_lines(
            seq![crate::text::indent(k) + crate::text::join_words(ts)] + rows,
        ) == socket_lines(rows) + 1,
{
    reveal_strlit("sl");
    assert("sl"@ =~= seq!['s', 'l']);
    let h = crate::text::indent(k) + crate::text::join_words(ts);
    crate::text::lemma_words_after_indent(k, crate::text::join_words(ts));
    crate::text::law_words_of_joined(ts);
    assert(is_socket_header(h) == (ts[0] == seq!['s', 'l']));
    lemma_socket_lines_first(h, rows);
}

/// The carrier is up exactly when the `carrier` file holds `1` (with any
/// surrounding whitespace); an unreadable file means down.
pub proof fn law_link_up(c: Seq<char>)
    ensures
        spec_link_up(Some(c)) <==> spec_trim(c) == seq!['1'],
        !spec_link_up(None),
{
    reveal_strlit("1");
    assert("1"@ =~= seq!['1']);
}

/// A process's row counts its established sockets as `tcp_est`, its
/// listening sockets as `tcp_listen` and its UDP sockets as `udp`; each
/// count starts at 0 and grows by one for each socket of that class.
pub proof fn law_proc_entry_counts(ev: Seq<(u32, Sock)>, pid: u32, e: (u32, Sock), c: Sock)
    requires
        socket_counts_fit(ev),
    ensures
        proc_entry(ev, pid).pid == pid,
        proc_entry(ev, pid).tcp_est == class_count(ev, pid, Sock::TcpEst),
        proc_entry(ev, pid).tcp_listen == class_count(ev, pid, Sock::TcpListen),
        proc_entry(ev, pid).udp == class_count(ev, pid, Sock::Udp),
        class_count(Seq::<(u32, Sock)>::empty(), pid, c) == 0,
        class_count(ev.push(e), pid, c) == class_count(ev, pid, c) + if e.0 == pid && e.1 == c {
            1nat
        } else {
            0nat
        },
{
    assert(class_count(ev, pid, Sock::TcpEst) + class_count(ev, pid, Sock::TcpListen)
        + class_count(ev, pid, Sock::Udp) <= u32::MAX);
    assert(ev.push(e).drop_last() =~= ev);
}

} // verus!
