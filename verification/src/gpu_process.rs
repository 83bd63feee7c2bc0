//! Per-process GPU usage.
//!
//! DRM drivers publish per-client engine busy times through `fdinfo`. The
//! counters are cumulative nanoseconds, so usage comes from how much they
//! grow between two samples. This module sums a process's counters and keeps
//! the previous sample; turning the growth into a percentage of the wall
//! time that passed is left to the caller.

use vstd::prelude::*;
use std::collections::HashMap;
use std::collections::HashSet;
use crate::fdinfo::{fdinfo_fits, fdinfo_total_fits, parse_fdinfo, parsed_fdinfo};

verus! {

broadcast use vstd::std_specs::hash::group_hash_axioms;

/// The character sequences of a list of strings.
pub open spec fn texts(v: Seq<String>) -> Seq<Seq<char>> {
    v.map_values(|s: String| s@)
}

/// The client an entry belongs to.
pub open spec fn entry_client(entry: Option<(u64, u64)>) -> Option<u64> {
    match entry {
        Some((id, _)) => Some(id),
        None => None,
    }
}

/// Whether client `c` has an entry among `entries`.
pub open spec fn client_listed(entries: Seq<Option<(u64, u64)>>, c: u64) -> bool {
    exists|i: int| 0 <= i < entries.len() && entry_client(#[trigger] entries[i]) == Some(c)
}

/// The engine time of the entries, each client counted once, at its first
/// entry: duplicated descriptors describe the same client and repeat its
/// counters.
pub open spec fn first_claim_total(entries: Seq<Option<(u64, u64)>>) -> nat
    decreases entries.len(),
{
    if entries.len() == 0 {
        0
    } else {
        let prev = entries.drop_last();
        first_claim_total(prev) + match entries.last() {
            Some((c, t)) => if client_listed(prev, c) {
                0
            } else {
                t as nat
            },
            None => 0,
        }
    }
}

/// The parsed `fdinfo` of each descriptor.
pub open spec fn parsed_all(fdinfos: Seq<Seq<char>>) -> Seq<Option<(u64, u64)>> {
    fdinfos.map_values(|f: Seq<char>| parsed_fdinfo(f))
}

/// The GPU engine time of a process, given the `fdinfo` text of each of its
/// DRM descriptors: `None` when none of them is a DRM client, the total of
/// its clients otherwise.
pub open spec fn process_engine_time_of(fdinfos: Seq<Seq<char>>) -> Option<nat> {
    let parsed = parsed_all(fdinfos);
    if exists|i: int| 0 <= i < parsed.len() && #[trigger] parsed[i] is Some {
        Some(first_claim_total(parsed))
    } else {
        None
    }
}

/// Whether every sum [`process_engine_time`] forms fits in a `u64`.
pub open spec fn engine_times_fit_in(fdinfos: Seq<Seq<char>>) -> bool {
    &&& forall|i: int| 0 <= i < fdinfos.len() ==> #[trigger] fdinfo_total_fits(fdinfos[i])
    &&& first_claim_total(parsed_all(fdinfos)) <= u64::MAX
}

proof fn lemma_first_claim_grows(entries: Seq<Option<(u64, u64)>>, i: int)
    requires
        0 <= i <= entries.len(),
    ensures
        first_claim_total(entries.take(i)) <= first_claim_total(entries),
    decreases entries.len(),
{
    if i < entries.len() {
        assert(entries.drop_last().take(i) =~= entries.take(i));
        lemma_first_claim_grows(entries.drop_last(), i);
    } else {
        assert(entries.take(i) =~= entries);
    }
}

/// Walks the descriptors once: whether any is a DRM client, and the total of
/// first claims, `None` where a sum does not fit.
fn scan_descriptors(fdinfos: &Vec<String>) -> (r: (bool, Option<u64>))
    ensures
        r.1 is Some ==> r.0 == (exists|i: int|
            0 <= i < parsed_all(texts(fdinfos@)).len() && #[trigger] parsed_all(
                texts(fdinfos@),
            )[i] is Some),
        match r.1 {
            Some(t) => engine_times_fit_in(texts(fdinfos@)) && t == first_claim_total(
                parsed_all(texts(fdinfos@)),
            ),
            None => !engine_times_fit_in(texts(fdinfos@)),
        },
{
    let ghost all = texts(fdinfos@);
    let ghost parsed = parsed_all(all);
    let mut seen: HashSet<u64> = HashSet::new();
    let mut is_client = false;
    let mut total: Option<u64> = Some(0);
    let mut i: usize = 0;
    assert(parsed.take(0) =~= Seq::<Option<(u64, u64)>>::empty());
    while i < fdinfos.len()
        invariant
            i <= fdinfos.len(),
            all == texts(fdinfos@),
            parsed == parsed_all(all),
            parsed.len() == fdinfos.len(),
            total is Some ==> forall|c: u64| seen@.contains(c) <==> client_listed(
                parsed.take(i as int),
                c,
            ),
            total is Some ==> is_client == (exists|j: int| 0 <= j < i && #[trigger] parsed[j] is Some),
            match total {
                Some(t) => t == first_claim_total(parsed.take(i as int)) && forall|j: int|
                    0 <= j < i ==> #[trigger] fdinfo_total_fits(all[j]),
                None => !engine_times_fit_in(all),
            },
        decreases fdinfos.len() - i,
    {
        let text = fdinfos[i].as_str();
        let ghost pre = parsed.take(i as int);
        let ghost next = parsed.take(i + 1);
        assert(next.drop_last() =~= pre);
        assert(all[i as int] == text@);
        let fits = fdinfo_fits(text);
        if !fits {
            total = None;
            assert(!fdinfo_total_fits(all[i as int]));
        }
        let entry = if fits {
            parse_fdinfo(text)
        } else {
            None
        };
        let ghost was_ok = total is Some;
        let ghost old_seen = seen@;
        let mut add: u64 = 0;
        match entry {
            Some((client, engine_time)) => {
                is_client = true;
                if seen.insert(client) {
                    add = engine_time;
                }
            },
            None => {},
        }
        proof {
            if was_ok && fits {
                assert(entry == parsed[i as int]);
                assert(forall|c: u64| old_seen.contains(c) <==> client_listed(pre, c));
                assert(next.last() == parsed[i as int]);
                assert forall|c: u64| seen@.contains(c) <==> client_listed(next, c) by {
                    if client_listed(next, c) {
                        let j = choose|j: int|
                            0 <= j < next.len() && entry_client(#[trigger] next[j]) == Some(c);
                        if j < i {
                            assert(pre[j] == next[j]);
                        }
                    }
                    if client_listed(pre, c) {
                        let j = choose|j: int|
                            0 <= j < pre.len() && entry_client(#[trigger] pre[j]) == Some(c);
                        assert(next[j] == pre[j]);
                    }
                }
                assert(add == match next.last() {
                    Some((c, t)) => if client_listed(pre, c) {
                        0
                    } else {
                        t as nat
                    },
                    None => 0,
                });
            }
        }
        total = match total {
            Some(t) => if add > u64::MAX - t {
                proof {
                    lemma_first_claim_grows(parsed, i + 1);
                }
                None
            } else {
                Some(t + add)
            },
            None => None,
        };
        i += 1;
    }
    assert(parsed.take(fdinfos.len() as int) =~= parsed);
    (is_client, total)
}

/// Sums the engine time across one process's DRM descriptors, given the
/// `fdinfo` text of each.
///
/// Returns `None` for processes that hold no DRM client.
pub fn process_engine_time(fdinfos: &Vec<String>) -> (r: Option<u64>)
    requires
        engine_times_fit_in(texts(fdinfos@)),
    ensures
        match process_engine_time_of(texts(fdinfos@)) {
            Some(t) => r == Some(t as u64),
            None => r is None,
        },
{
    let (is_client, total) = scan_descriptors(fdinfos);
    if is_client {
        Some(total.unwrap())
    } else {
        None
    }
}

/// Whether the sums of [`process_engine_time`] fit in a `u64`, which it asks
/// of its input.
pub fn engine_times_fit(fdinfos: &Vec<String>) -> (b: bool)
    ensures
        b == engine_times_fit_in(texts(fdinfos@)),
{
    let (_, total) = scan_descriptors(fdinfos);
    total.is_some()
}

} // verus!

verus! {

/// How much each process's counter grew from `previous` to `current`, for
/// the processes present in both. A counter that went down belongs to a
/// recycled pid and is left out rather than reported as negative usage.
pub open spec fn usage_between(previous: Map<u32, u64>, current: Map<u32, u64>) -> Map<u32, u64> {
    Map::new(
        |pid: u32|
            current.contains_key(pid) && previous.contains_key(pid) && previous[pid]
                <= current[pid],
        |pid: u32| (current[pid] - previous[pid]) as u64,
    )
}

/// What a sample of `current` reports, `elapsed` nanoseconds after the one
/// that left `previous`: nothing where per-process accounting is not
/// supported, or where no time passed; the growth of each counter otherwise.
pub open spec fn sample_usage(
    supported: bool,
    previous: Map<u32, u64>,
    current: Map<u32, u64>,
    elapsed: u128,
) -> Map<u32, u64> {
    if !supported || elapsed == 0 {
        Map::empty()
    } else {
        usage_between(previous, current)
    }
}

/// The sample that the next one is compared against.
pub open spec fn sample_baseline(
    supported: bool,
    previous: Map<u32, u64>,
    current: Map<u32, u64>,
) -> Map<u32, u64> {
    if supported {
        current
    } else {
        previous
    }
}

/// Tracks how much GPU engine time each process is using.
pub struct GpuProcessMonitor {
    /// Whether this machine exposes DRM devices at all
    supported: bool,
    /// Cumulative engine nanoseconds per process at the previous sample
    previous: HashMap<u32, u64>,
}

impl View for GpuProcessMonitor {
    /// Whether accounting is supported, and the previous sample.
    type V = (bool, Map<u32, u64>);

    closed spec fn view(&self) -> (bool, Map<u32, u64>) {
        (self.supported, self.previous@)
    }
}

impl GpuProcessMonitor {
    /// Creates a monitor for a machine that does or does not expose DRM
    /// devices, with no sample taken yet.
    pub fn new(supported: bool) -> (m: Self)
        ensures
            m@ == (supported, Map::<u32, u64>::empty()),
    {
        GpuProcessMonitor { supported, previous: HashMap::new() }
    }

    /// Whether this machine can account GPU time per process.
    pub fn is_supported(&self) -> (b: bool)
        ensures
            b == self@.0,
    {
        self.supported
    }

    /// Takes a sample: `current` holds the cumulative engine nanoseconds of
    /// every process, `elapsed_nanos` the wall time since the previous
    /// sample. Returns how much each process's counter grew since then; the
    /// first sample has no earlier one to compare against and so reports
    /// nothing. A process can keep several engines busy at once, so its
    /// growth can exceed the elapsed time.
    pub fn collect(&mut self, current: HashMap<u32, u64>, elapsed_nanos: u128) -> (usage: HashMap<
        u32,
        u64,
    >)
        ensures
            usage@ == sample_usage(old(self)@.0, old(self)@.1, current@, elapsed_nanos),
            final(self)@ == (old(self)@.0, sample_baseline(old(self)@.0, old(self)@.1, current@)),
    {
        let mut usage: HashMap<u32, u64> = HashMap::new();
        if !self.supported {
            return usage;
        }
        if elapsed_nanos != 0 {
            let ghost prev = self.previous@;
            let ghost cur = current@;
            for entry in it: current.iter()
                invariant
                    prev == self.previous@,
                    cur == current@,
                    forall|pid: u32|
                        #[trigger] usage@.contains_key(pid) ==> usage_between(prev, cur).contains_key(
                            pid,
                        ) && usage@[pid] == usage_between(prev, cur)[pid],
                    forall|j: int|
                        0 <= j < it.index() ==> (usage_between(prev, cur).contains_key(
                            *(#[trigger] it.seq()[j]).0,
                        ) ==> usage@.contains_key(*it.seq()[j].0)),
            {
                let (pid, total) = entry;
                match self.previous.get(pid) {
                    Some(before) => {
                        if *total >= *before {
                            usage.insert(*pid, *total - *before);
                        }
                    },
                    None => {},
                }
            }
            proof {
                assert(usage@ =~= usage_between(prev, cur));
            }
        }
        self.previous = current;
        usage
    }
}

} // verus!

verus! {

/// The first sample reports nothing: with no earlier sample there is no
/// growth to measure.
pub proof fn law_first_sample_reports_nothing(
    supported: bool,
    current: Map<u32, u64>,
    elapsed: u128,
)
    ensures
        sample_usage(supported, Map::empty(), current, elapsed) == Map::<u32, u64>::empty(),
{
    assert(sample_usage(supported, Map::empty(), current, elapsed) =~= Map::<u32, u64>::empty());
}

/// From the second sample on, usage is measured against the sample before:
/// after a sample of `first`, a sample of `second` taken some time later
/// reports the growth from `first` to `second`, whatever came before.
pub proof fn law_usage_is_measured_against_previous_sample(
    earlier: Map<u32, u64>,
    first: Map<u32, u64>,
    second: Map<u32, u64>,
    elapsed: u128,
)
    requires
        elapsed > 0,
    ensures
        sample_usage(true, sample_baseline(true, earlier, first), second, elapsed)
            == usage_between(first, second),
{
}

/// What is reported for a process is exactly how far its counter climbed:
/// the process is in both samples and its previous count plus its usage is
/// its current count.
pub proof fn law_usage_is_counter_growth(
    previous: Map<u32, u64>,
    current: Map<u32, u64>,
    elapsed: u128,
    pid: u32,
)
    requires
        sample_usage(true, previous, current, elapsed).contains_key(pid),
    ensures
        previous.contains_key(pid),
        current.contains_key(pid),
        previous[pid] + sample_usage(true, previous, current, elapsed)[pid] == current[pid],
{
}

/// A counter that went down belongs to a recycled pid and is never reported
/// as usage.
pub proof fn law_decreasing_counter_is_dropped(
    supported: bool,
    previous: Map<u32, u64>,
    current: Map<u32, u64>,
    elapsed: u128,
    pid: u32,
)
    requires
        previous.contains_key(pid),
        current.contains_key(pid),
        current[pid] < previous[pid],
    ensures
        !sample_usage(supported, previous, current, elapsed).contains_key(pid),
{
}

/// Where per-process accounting is not supported nothing is ever reported
/// and no sample is kept.
pub proof fn law_unsupported_reports_nothing(
    previous: Map<u32, u64>,
    current: Map<u32, u64>,
    elapsed: u128,
)
    ensures
        sample_usage(false, previous, current, elapsed) == Map::<u32, u64>::empty(),
        sample_baseline(false, previous, current) == previous,
{
}

} // verus!

verus! {

/// A descriptor that duplicates one the process already holds describes the
/// same client and repeats its counters: it does not change the process's
/// engine time.
pub proof fn law_duplicate_descriptor_counted_once(fdinfos: Seq<Seq<char>>, i: int)
    requires
        0 <= i < fdinfos.len(),
    ensures
        process_engine_time_of(fdinfos.push(fdinfos[i])) == process_engine_time_of(fdinfos),
{
    let p = parsed_all(fdinfos);
    let q = parsed_all(fdinfos.push(fdinfos[i]));
    assert(q =~= p.push(p[i]));
    assert(q.drop_last() =~= p);
    match p[i] {
        Some((c, t)) => {
            assert(entry_client(p[i]) == Some(c));
            assert(client_listed(p, c));
        },
        None => {},
    }
    if exists|j: int| 0 <= j < q.len() && #[trigger] q[j] is Some {
        let j = choose|j: int| 0 <= j < q.len() && #[trigger] q[j] is Some;
        if j == p.len() {
            assert(p[i] is Some);
        } else {
            assert(p[j] is Some);
        }
    }
    if exists|j: int| 0 <= j < p.len() && #[trigger] p[j] is Some {
        let j = choose|j: int| 0 <= j < p.len() && #[trigger] p[j] is Some;
        assert(q[j] is Some);
    }
}

} // verus!

verus! {

/// Two samples taken within the same instant carry no information: a sample
/// with no elapsed time reports nothing.
pub proof fn law_no_elapsed_time_reports_nothing(
    supported: bool,
    previous: Map<u32, u64>,
    current: Map<u32, u64>,
)
    ensures
        sample_usage(supported, previous, current, 0) == Map::<u32, u64>::empty(),
{
}

} // verus!

verus! {

/// A process holds a DRM client exactly when one of its descriptors parses
/// as one, and then its engine time is the total of its clients' first
/// claims, whatever that total is, zero included. Only a process none of
/// whose descriptors is a DRM client has no engine time.
pub proof fn law_drm_client_always_has_engine_time(fdinfos: Seq<Seq<char>>)
    ensures
        (exists|i: int| 0 <= i < fdinfos.len() && #[trigger] parsed_fdinfo(fdinfos[i]) is Some)
            ==> process_engine_time_of(fdinfos) == Some(first_claim_total(parsed_all(fdinfos))),
        process_engine_time_of(fdinfos) is None <==> forall|i: int|
            0 <= i < fdinfos.len() ==> #[trigger] parsed_fdinfo(fdinfos[i]) is None,
{
    let parsed = parsed_all(fdinfos);
    if exists|i: int| 0 <= i < fdinfos.len() && #[trigger] parsed_fdinfo(fdinfos[i]) is Some {
        let i = choose|i: int| 0 <= i < fdinfos.len() && #[trigger] parsed_fdinfo(fdinfos[i]) is Some;
        assert(parsed[i] is Some);
    }
    if exists|i: int| 0 <= i < parsed.len() && #[trigger] parsed[i] is Some {
        let i = choose|i: int| 0 <= i < parsed.len() && #[trigger] parsed[i] is Some;
        assert(parsed_fdinfo(fdinfos[i]) is Some);
    }
}

/// A process with a single DRM descriptor has exactly that client's engine
/// time, zero for a client that has not used the engines yet.
pub proof fn law_single_client_engine_time(fdinfo: Seq<char>, client: u64, time: u64)
    requires
        parsed_fdinfo(fdinfo) == Some((client, time)),
    ensures
        process_engine_time_of(seq![fdinfo]) == Some(time as nat),
{
    let parsed = parsed_all(seq![fdinfo]);
    assert(parsed =~= seq![Some((client, time))]);
    assert(parsed.drop_last() =~= Seq::<Option<(u64, u64)>>::empty());
    assert(first_claim_total(Seq::<Option<(u64, u64)>>::empty()) == 0);
    assert(!client_listed(Seq::<Option<(u64, u64)>>::empty(), client));
    assert(parsed.last() == Some((client, time)));
    assert(first_claim_total(parsed) == time);
    assert(parsed[0] is Some);
}

/// With support and some time elapsed, every process present in both samples
/// whose counter did not go down is reported, with exactly how far its
/// counter climbed: an idle client is reported with zero growth, not left
/// out.
pub proof fn law_every_non_decreasing_counter_is_reported(
    previous: Map<u32, u64>,
    current: Map<u32, u64>,
    elapsed: u128,
    pid: u32,
)
    requires
        elapsed > 0,
        previous.contains_key(pid),
        current.contains_key(pid),
        previous[pid] <= current[pid],
    ensures
        sample_usage(true, previous, current, elapsed).contains_key(pid),
        sample_usage(true, previous, current, elapsed)[pid] == current[pid] - previous[pid],
        previous[pid] == current[pid] ==> sample_usage(true, previous, current, elapsed)[pid] == 0,
{
}

} // verus!
