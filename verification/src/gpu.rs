//! GPU discovery rules and engine-counter bookkeeping: which DRM entries
//! are cards, which vendor id is AMD, how the i915 PMU describes its
//! events, and how two counter samples become a usage delta.
use vstd::prelude::*;

use crate::text::{
    chars_of, ends_with, has_prefix, has_suffix, parse_unsigned, same_chars, slice_chars,
    spec_parse_unsigned, spec_trim, starts_with, trim_chars,
};

verus! {

pub const PERF_FORMAT_TOTAL_TIME_ENABLED: u64 = 1;

pub const PERF_FORMAT_TOTAL_TIME_RUNNING: u64 = 2;

/// Size of the first published `perf_event_attr` layout.
pub const PERF_EVENT_ATTR_SIZE: u32 = 64;

/// The i915 PMU rejects the all-CPUs sentinel for device-wide events.
pub const PERF_MONITOR_CPU: i32 = 0;

/// The `perf_event_attr` fields of the first kernel layout.
#[derive(Clone, Copy, Debug)]
pub struct PerfEventAttr {
    pub type_: u32,
    pub size: u32,
    pub config: u64,
    pub sample_period: u64,
    pub sample_type: u64,
    pub read_format: u64,
    pub flags: u64,
    pub wakeup_events: u32,
    pub bp_type: u32,
    pub bp_addr: u64,
}

impl PerfEventAttr {
    /// A counting event of PMU `type_` with the given config that reports
    /// the time it was enabled and running beside its count.
    pub fn new(type_: u32, config: u64) -> (r: Self)
        ensures
            r.type_ == type_,
            r.size == PERF_EVENT_ATTR_SIZE,
            r.config == config,
            r.sample_period == 0,
            r.sample_type == 0,
            r.read_format == 3,
            r.flags == 0,
            r.wakeup_events == 0,
            r.bp_type == 0,
            r.bp_addr == 0,
    {
        let read_format = PERF_FORMAT_TOTAL_TIME_ENABLED | PERF_FORMAT_TOTAL_TIME_RUNNING;
        assert(1u64 | 2u64 == 3u64) by (bit_vector);
        PerfEventAttr {
            type_,
            size: PERF_EVENT_ATTR_SIZE,
            config,
            sample_period: 0,
            sample_type: 0,
            read_format,
            flags: 0,
            wakeup_events: 0,
            bp_type: 0,
            bp_addr: 0,
        }
    }
}

pub open spec fn is_ascii_digit(c: char) -> bool {
    48 <= c as u32 <= 57
}

/// A DRM card entry: `card` followed by at least one digit and nothing
/// else (connector entries such as `card0-HDMI-A-1` are not cards).
pub open spec fn spec_is_drm_card(s: Seq<char>) -> bool {
    &&& has_prefix(s, "card"@)
    &&& s.len() > "card"@.len()
    &&& forall|j: int| "card"@.len() <= j < s.len() ==> is_ascii_digit(#[trigger] s[j])
}

/// Whether a `/sys/class/drm` entry name is a card.
pub fn is_drm_card(name: &str) -> (r: bool)
    ensures
        r == spec_is_drm_card(name@),
{
    let s = chars_of(name);
    let p = chars_of("card");
    if !starts_with(&s, &p) || s.len() <= p.len() {
        return false;
    }
    let mut i: usize = p.len();
    while i < s.len()
        invariant
            p@ == "card"@,
            s@ == name@,
            p.len() <= i <= s.len(),
            forall|j: int| p.len() <= j < i ==> is_ascii_digit(#[trigger] s@[j]),
        decreases s.len() - i,
    {
        let u = s[i] as u32;
        if !(48 <= u && u <= 57) {
            assert(!is_ascii_digit(s@[i as int]));
            return false;
        }
        i = i + 1;
    }
    true
}

/// The vendor id that AMD devices report.
pub open spec fn amd_vendor_id() -> Seq<char> {
    "0x1002"@
}

/// Whether the text of a PCI `vendor` file names AMD.
pub fn is_amd_vendor(raw: &str) -> (r: bool)
    ensures
        r == (spec_trim(raw@) == amd_vendor_id()),
{
    let t = trim_chars(&chars_of(raw));
    let amd = chars_of("0x1002");
    same_chars(&t, &amd)
}

/// The unsigned number a sysfs attribute file holds (surrounding
/// whitespace ignored), if it fits in `u64`.
pub fn read_u64_from(raw: &str) -> (r: Option<u64>)
    ensures
        match r {
            Some(v) => spec_parse_unsigned(spec_trim(raw@), 10, u64::MAX as nat) == Some(v as nat),
            None => spec_parse_unsigned(spec_trim(raw@), 10, u64::MAX as nat) is None,
        },
{
    let t = trim_chars(&chars_of(raw));
    parse_unsigned(&t, 10, u64::MAX)
}

/// The unsigned number a sysfs attribute file holds (surrounding
/// whitespace ignored), if it fits in `u32`.
pub fn read_u32_from(raw: &str) -> (r: Option<u32>)
    ensures
        match r {
            Some(v) => spec_parse_unsigned(spec_trim(raw@), 10, u32::MAX as nat) == Some(v as nat),
            None => spec_parse_unsigned(spec_trim(raw@), 10, u32::MAX as nat) is None,
        },
{
    let t = trim_chars(&chars_of(raw));
    match parse_unsigned(&t, 10, u32::MAX as u64) {
        Some(v) => Some(v as u32),
        None => None,
    }
}

/// Whether a PMU event name counts engine busy time.
pub fn is_busy_event(name: &str) -> (r: bool)
    ensures
        r == has_suffix(name@, "-busy"@),
{
    ends_with(&chars_of(name), &chars_of("-busy"))
}

/// `s` with every leading `"0x"` removed.
pub open spec fn strip_hex_prefixes(s: Seq<char>) -> Seq<char>
    decreases s.len(),
{
    if s.len() >= 2 && s[0] == '0' && s[1] == 'x' {
        strip_hex_prefixes(s.skip(2))
    } else {
        s
    }
}

/// The text after `event=`, or else after `config=`.
pub open spec fn event_value(raw: Seq<char>) -> Option<Seq<char>> {
    if has_prefix(raw, "event="@) {
        Some(raw.skip("event="@.len() as int))
    } else if has_prefix(raw, "config="@) {
        Some(raw.skip("config="@.len() as int))
    } else {
        None
    }
}

/// The config of a PMU event description: `event=` or `config=`, then a
/// hexadecimal number with any leading `0x` removed.
pub open spec fn spec_event_config(raw: Seq<char>) -> Option<nat> {
    match event_value(raw) {
        Some(v) => spec_parse_unsigned(strip_hex_prefixes(v), 16, u64::MAX as nat),
        None => None,
    }
}

/// Reads the config number of a PMU event description.
pub fn parse_event_config(raw: &str) -> (r: Option<u64>)
    ensures
        match r {
            Some(v) => spec_event_config(raw@) == Some(v as nat),
            None => spec_event_config(raw@) is None,
        },
{
    let s = chars_of(raw);
    let ev = chars_of("event=");
    let cf = chars_of("config=");
    let value = if starts_with(&s, &ev) {
        slice_chars(&s, ev.len(), s.len())
    } else if starts_with(&s, &cf) {
        slice_chars(&s, cf.len(), s.len())
    } else {
        return None;
    };
    assert(event_value(raw@) == Some(value@)) by {
        if has_prefix(s@, ev@) {
            assert(value@ =~= s@.skip(ev@.len() as int));
        } else {
            assert(value@ =~= s@.skip(cf@.len() as int));
        }
    }
    let mut a: usize = 0;
    assert(value@.skip(0) =~= value@);
    while value.len() >= 2 && a <= value.len() - 2 && value[a] == '0' && value[a + 1] == 'x'
        invariant
            a <= value.len(),
            strip_hex_prefixes(value@.skip(a as int)) == strip_hex_prefixes(value@),
        decreases value.len() - a,
    {
        assert(value@.skip(a as int).skip(2) =~= value@.skip(a + 2));
        a = a + 2;
    }
    let digits = slice_chars(&value, a, value.len());
    assert(digits@ =~= value@.skip(a as int));
    assert(strip_hex_prefixes(digits@) == digits@);
    parse_unsigned(&digits, 16, u64::MAX)
}

/// One reading of an engine busy counter: busy time and time the counter
/// was running, both cumulative.
#[derive(Clone, Copy, Debug)]
pub struct CounterSample {
    pub count: u64,
    pub running: u64,
}

/// What the counter did between two readings: both grew and the counter
/// ran for some time. A counter that went back, or did not run, gives no
/// usage (unavailable, not zero).
pub open spec fn spec_counter_delta(previous: CounterSample, current: CounterSample) -> Option<
    CounterSample,
> {
    if current.count >= previous.count && current.running >= previous.running && current.running
        > previous.running {
        Some(
            CounterSample {
                count: (current.count - previous.count) as u64,
                running: (current.running - previous.running) as u64,
            },
        )
    } else {
        None
    }
}

/// The busy and running time between two readings, when usage can be
/// derived from them.
pub fn counter_delta(previous: CounterSample, current: CounterSample) -> (r: Option<CounterSample>)
    ensures
        r == spec_counter_delta(previous, current),
{
    let count = match current.count.checked_sub(previous.count) {
        Some(c) => c,
        None => return None,
    };
    let running = match current.running.checked_sub(previous.running) {
        Some(c) => c,
        None => return None,
    };
    if running > 0 {
        Some(CounterSample { count, running })
    } else {
        None
    }
}

/// Records a new reading of a counter: the delta from the reading kept
/// so far (none for the first reading), and the new reading kept.
pub fn record_sample(previous: &mut Option<CounterSample>, current: CounterSample) -> (r: Option<
    CounterSample,
>)
    ensures
        *final(previous) == Some(current),
        r == match *old(previous) {
            Some(p) => spec_counter_delta(p, current),
            None => None,
        },
{
    let before = *previous;
    *previous = Some(current);
    match before {
        Some(p) => counter_delta(p, current),
        None => None,
    }
}

/// Two identical readings give no usage: a counter that did not run
/// reports usage as unavailable, never as 0.
pub proof fn law_idle_counter_has_no_usage(s: CounterSample)
    ensures
        spec_counter_delta(s, s) is None,
{
}

/// A usage delta, added back to the earlier reading, gives the later one.
pub proof fn law_counter_delta_adds_back(previous: CounterSample, current: CounterSample)
    ensures
        spec_counter_delta(previous, current) matches Some(d) ==> previous.count + d.count
            == current.count && previous.running + d.running == current.running && d.running > 0,
{
}

/// Whenever the busy count did not go back and the counter ran, there is
/// a usage delta: the growth of each, an unchanged busy count giving 0
/// busy time (an idle engine, 0%, not unavailable).
pub proof fn law_running_counter_gives_usage(previous: CounterSample, current: CounterSample)
    ensures
        current.count >= previous.count && current.running > previous.running ==> spec_counter_delta(
            previous,
            current,
        ) == Some(
            CounterSample {
                count: (current.count - previous.count) as u64,
                running: (current.running - previous.running) as u64,
            },
        ),
        current.count < previous.count || current.running <= previous.running ==> spec_counter_delta(
            previous,
            current,
        ) is None,
{
}

/// `card` followed by the decimal digits of any number is a card; `card`
/// alone is not, nor is a card name followed by a connector suffix.
pub proof fn law_drm_card_names(n: nat, suffix: Seq<char>)
    ensures
        spec_is_drm_card(seq!['c', 'a', 'r', 'd'] + crate::text::decimal(n)),
        !spec_is_drm_card(seq!['c', 'a', 'r', 'd']),
        !spec_is_drm_card(seq!['c', 'a', 'r', 'd'] + crate::text::decimal(n) + seq!['-'] + suffix),
{
    reveal_strlit("card");
    let c = seq!['c', 'a', 'r', 'd'];
    assert("card"@ =~= c);
    let d = crate::text::decimal(n);
    crate::text::lemma_radix_digits(n, 10);
    let s = c + d;
    assert(s.take(4) =~= c);
    assert forall|j: int| 4 <= j < s.len() implies is_ascii_digit(#[trigger] s[j]) by {
        assert(s[j] == d[j - 4]);
    }
    let t = c + d + seq!['-'] + suffix;
    let k: int = 4 + d.len() as int;
    assert(t[k] == '-');
    assert(!is_ascii_digit(t[k]));
}

/// An event description `event=0x` or `config=` followed by the
/// hexadecimal digits of any `u64` gives that number as its config.
pub proof fn law_event_config_reads_hex(n: u64)
    ensures
        spec_event_config(
            seq!['e', 'v', 'e', 'n', 't', '=', '0', 'x'] + crate::text::radix_digits(n as nat, 16),
        ) == Some(n as nat),
        spec_event_config(seq!['e', 'v', 'e', 'n', 't', '='] + crate::text::radix_digits(n as nat, 16))
            == Some(n as nat),
        spec_event_config(
            seq!['c', 'o', 'n', 'f', 'i', 'g', '='] + crate::text::radix_digits(n as nat, 16),
        ) == Some(n as nat),
{
    reveal_strlit("event=");
    reveal_strlit("config=");
    let ev = seq!['e', 'v', 'e', 'n', 't', '='];
    let cf = seq!['c', 'o', 'n', 'f', 'i', 'g', '='];
    assert("event="@ =~= ev);
    assert("config="@ =~= cf);
    let d = crate::text::radix_digits(n as nat, 16);
    crate::text::lemma_radix_digits(n as nat, 16);
    crate::text::law_parse_reads_digits(n as nat, 16, u64::MAX as nat);
    assert(strip_hex_prefixes(d) == d);
    let hx = seq!['0', 'x'] + d;
    assert(hx.skip(2) =~= d);
    assert(strip_hex_prefixes(hx) == d);
    let a = ev + hx;
    assert(a.take(6) =~= ev);
    assert(a.skip(6) =~= hx);
    assert(seq!['e', 'v', 'e', 'n', 't', '=', '0', 'x'] + d =~= a);
    let b = ev + d;
    assert(b.take(6) =~= ev);
    assert(b.skip(6) =~= d);
    let c = cf + d;
    assert(c.take(7) =~= cf);
    assert(c.skip(7) =~= d);
    assert(c.take(6)[0] != ev[0]);
}

/// The AMD vendor id is `0x1002`, whatever whitespace surrounds it.
pub proof fn law_amd_vendor_id(raw: Seq<char>)
    ensures
        (spec_trim(raw) == amd_vendor_id()) <==> spec_trim(raw) == seq!['0', 'x', '1', '0', '0', '2'],
{
    reveal_strlit("0x1002");
    assert(amd_vendor_id() =~= seq!['0', 'x', '1', '0', '0', '2']);
}

} // verus!
