use vstd::prelude::*;

verus! {

/// Where a GPU sits on the PCI bus.
#[derive(Clone, Copy, Debug, PartialEq, Eq, Structural)]
pub enum GpuId {
    Pci { domain: u32, bus: u32, device: u32, func: u32 },
}

/// One utilization sample that the GPU driver reports for a process.
#[derive(Clone, Copy, Debug)]
pub struct UtilizationSample {
    pub pid: u32,
    /// When the sample was taken, in microseconds on the CPU's clock.
    pub timestamp: u64,
    /// How busy the streaming multiprocessors were for the process, in percent.
    pub sm_util: u32,
}

/// What one process uses of one GPU.
#[derive(Clone, Copy, Debug, PartialEq, Eq, Structural)]
pub struct GpuUsage {
    pub gpu: GpuId,
    /// The sum of the SM utilization of the samples of the process, in percent.
    pub utilization: u64,
    /// The video memory the process holds, in bytes.
    pub vram: u64,
}

#[derive(Clone, Copy)]
struct UsageEntry {
    pid: u32,
    usage: GpuUsage,
}

/// The key of an entry: the process and the GPU.
pub open spec fn key_of(pid: u32, gpu: GpuId) -> (u32, GpuId) {
    (pid, gpu)
}

spec fn entry_key(e: UsageEntry) -> (u32, GpuId) {
    (e.pid, e.usage.gpu)
}

spec fn entry_value(e: UsageEntry) -> (u64, u64) {
    (e.usage.utilization, e.usage.vram)
}

spec fn entries_map(s: Seq<UsageEntry>) -> Map<(u32, GpuId), (u64, u64)>
    decreases s.len(),
{
    if s.len() == 0 {
        Map::empty()
    } else {
        entries_map(s.drop_last()).insert(entry_key(s.last()), entry_value(s.last()))
    }
}

spec fn keys_unique(s: Seq<UsageEntry>) -> bool {
    forall|i: int, j: int|
        0 <= i < j < s.len() ==> entry_key(#[trigger] s[i]) != entry_key(#[trigger] s[j])
}

/// The utilization and memory recorded for a key, or zero for both where none is.
pub open spec fn usage_or_zero(m: Map<(u32, GpuId), (u64, u64)>, k: (u32, GpuId)) -> (u64, u64) {
    if m.contains_key(k) {
        m[k]
    } else {
        (0, 0)
    }
}

/// `a + b`, or the largest `u64` where that sum does not fit.
pub open spec fn saturating_sum(a: u64, b: u64) -> u64 {
    if a + b > u64::MAX {
        u64::MAX
    } else {
        (a + b) as u64
    }
}

/// The table after one sample of `pid` on `gpu` was added.
pub open spec fn with_utilization(
    m: Map<(u32, GpuId), (u64, u64)>,
    pid: u32,
    gpu: GpuId,
    sm_util: u32,
) -> Map<(u32, GpuId), (u64, u64)> {
    let old = usage_or_zero(m, key_of(pid, gpu));
    m.insert(key_of(pid, gpu), (saturating_sum(old.0, sm_util as u64), old.1))
}

/// The table after the samples, in order, were added for `gpu`.
pub open spec fn with_samples(
    m: Map<(u32, GpuId), (u64, u64)>,
    gpu: GpuId,
    samples: Seq<UtilizationSample>,
) -> Map<(u32, GpuId), (u64, u64)>
    decreases samples.len(),
{
    if samples.len() == 0 {
        m
    } else {
        let s = samples.last();
        with_utilization(with_samples(m, gpu, samples.drop_last()), s.pid, gpu, s.sm_util)
    }
}

/// The latest timestamp among `last` and those of the samples.
pub open spec fn latest_timestamp(last: Option<u64>, samples: Seq<UtilizationSample>) -> Option<
    u64,
>
    decreases samples.len(),
{
    if samples.len() == 0 {
        last
    } else {
        let t = samples.last().timestamp;
        match latest_timestamp(last, samples.drop_last()) {
            Some(x) => Some(if x >= t { x } else { t }),
            None => Some(t),
        }
    }
}

/// Per process and GPU, what the GPU driver reported: the summed utilization and
/// the video memory in use; and the latest sample seen, so that the next query
/// asks only for newer ones.
pub struct GpuProcessUsage {
    entries: Vec<UsageEntry>,
    last_seen_timestamp: Option<u64>,
}

proof fn lemma_entries_map_lookup(s: Seq<UsageEntry>)
    requires
        keys_unique(s),
    ensures
        forall|i: int|
            0 <= i < s.len() ==> entries_map(s).contains_key(entry_key(#[trigger] s[i]))
                && entries_map(s)[entry_key(s[i])] == entry_value(s[i]),
        forall|k: (u32, GpuId)|
            #[trigger] entries_map(s).contains_key(k) ==> exists|i: int|
                0 <= i < s.len() && entry_key(#[trigger] s[i]) == k,
    decreases s.len(),
{
    if s.len() > 0 {
        let d = s.drop_last();
        assert(keys_unique(d)) by {
            assert forall|i: int, j: int| 0 <= i < j < d.len() implies entry_key(#[trigger] d[i])
                != entry_key(#[trigger] d[j]) by {
                assert(d[i] == s[i] && d[j] == s[j]);
            }
        }
        lemma_entries_map_lookup(d);
        assert forall|i: int| 0 <= i < s.len() implies entries_map(s).contains_key(
            entry_key(#[trigger] s[i]),
        ) && entries_map(s)[entry_key(s[i])] == entry_value(s[i]) by {
            if i < s.len() - 1 {
                assert(d[i] == s[i]);
                assert(entry_key(s[i]) != entry_key(s[s.len() - 1]));
            }
        }
        assert forall|k: (u32, GpuId)| #[trigger] entries_map(s).contains_key(k) implies exists|
            i: int,
        | 0 <= i < s.len() && entry_key(#[trigger] s[i]) == k by {
            if k == entry_key(s.last()) {
                assert(entry_key(s[s.len() - 1]) == k);
            } else {
                assert(entries_map(d).contains_key(k));
                let i = choose|i: int| 0 <= i < d.len() && entry_key(#[trigger] d[i]) == k;
                assert(s[i] == d[i]);
            }
        }
    }
}

proof fn lemma_entries_map_update(s: Seq<UsageEntry>, i: int, e: UsageEntry)
    requires
        keys_unique(s),
        0 <= i < s.len(),
        entry_key(e) == entry_key(s[i]),
    ensures
        keys_unique(s.update(i, e)),
        entries_map(s.update(i, e)) == entries_map(s).insert(entry_key(e), entry_value(e)),
    decreases s.len(),
{
    let t = s.update(i, e);
    assert(keys_unique(t)) by {
        assert forall|a: int, b: int| 0 <= a < b < t.len() implies entry_key(#[trigger] t[a])
            != entry_key(#[trigger] t[b]) by {
            assert(entry_key(t[a]) == entry_key(s[a]));
            assert(entry_key(t[b]) == entry_key(s[b]));
        }
    }
    if i == s.len() - 1 {
        assert(t.drop_last() == s.drop_last());
        assert(entries_map(t) =~= entries_map(s).insert(entry_key(e), entry_value(e)));
    } else {
        let d = s.drop_last();
        assert(keys_unique(d)) by {
            assert forall|a: int, b: int| 0 <= a < b < d.len() implies entry_key(#[trigger] d[a])
                != entry_key(#[trigger] d[b]) by {
                assert(d[a] == s[a] && d[b] == s[b]);
            }
        }
        assert(t.drop_last() == d.update(i, e));
        lemma_entries_map_update(d, i, e);
        assert(entry_key(s.last()) != entry_key(e)) by {
            assert(s.last() == s[s.len() - 1]);
        }
        assert(t.last() == s.last());
        assert(entries_map(t) =~= entries_map(s).insert(entry_key(e), entry_value(e)));
    }
}

proof fn lemma_entries_map_push(s: Seq<UsageEntry>, e: UsageEntry)
    requires
        keys_unique(s),
        !entries_map(s).contains_key(entry_key(e)),
    ensures
        keys_unique(s.push(e)),
        entries_map(s.push(e)) == entries_map(s).insert(entry_key(e), entry_value(e)),
{
    lemma_entries_map_lookup(s);
    let t = s.push(e);
    assert(t.drop_last() == s);
    assert forall|a: int, b: int| 0 <= a < b < t.len() implies entry_key(#[trigger] t[a])
        != entry_key(#[trigger] t[b]) by {
        if b == s.len() {
            assert(t[a] == s[a]);
        } else {
            assert(t[a] == s[a] && t[b] == s[b]);
        }
    }
}

impl View for GpuProcessUsage {
    /// Per process and GPU, the summed utilization and the video memory; and the
    /// latest sample time seen so far.
    type V = (Map<(u32, GpuId), (u64, u64)>, Option<u64>);

    closed spec fn view(&self) -> (Map<(u32, GpuId), (u64, u64)>, Option<u64>) {
        (entries_map(self.entries@), self.last_seen_timestamp)
    }
}

impl GpuProcessUsage {
    /// What is recorded, per process and GPU: the summed utilization and the
    /// video memory.
    pub open spec fn usage_map(&self) -> Map<(u32, GpuId), (u64, u64)> {
        self@.0
    }

    /// The latest sample time seen so far.
    pub open spec fn last_seen(&self) -> Option<u64> {
        self@.1
    }

    /// The table's invariant: one entry per process and GPU.
    pub closed spec fn wf(&self) -> bool {
        keys_unique(self.entries@)
    }

    /// An empty table that has seen no sample yet.
    pub fn new() -> (table: Self)
        ensures
            table.wf(),
            table.usage_map() == Map::<(u32, GpuId), (u64, u64)>::empty(),
            table.last_seen() == None::<u64>,
    {
        GpuProcessUsage { entries: Vec::new(), last_seen_timestamp: None }
    }

    /// The time to pass to the driver, so that it reports only newer samples.
    pub fn last_seen_timestamp(&self) -> (t: Option<u64>)
        ensures
            t == self.last_seen(),
    {
        self.last_seen_timestamp
    }

    /// Forgets every process; the latest sample time is kept.
    pub fn clear_processes(&mut self)
        ensures
            final(self).wf(),
            final(self).usage_map() == Map::<(u32, GpuId), (u64, u64)>::empty(),
            final(self).last_seen() == old(self).last_seen(),
    {
        self.entries.clear();
    }

    fn find(&self, pid: u32, gpu: GpuId) -> (index: Option<usize>)
        requires
            self.wf(),
        ensures
            match index {
                Some(i) => i < self.entries@.len() && entry_key(self.entries@[i as int]) == key_of(
                    pid,
                    gpu,
                ),
                None => !self.usage_map().contains_key(key_of(pid, gpu)),
            },
    {
        proof {
            lemma_entries_map_lookup(self.entries@);
        }
        let mut i: usize = 0;
        while i < self.entries.len()
            invariant
                i <= self.entries@.len(),
                forall|j: int| 0 <= j < i ==> entry_key(#[trigger] self.entries@[j]) != key_of(pid, gpu),
            decreases self.entries@.len() - i,
        {
            let e = self.entries[i];
            if e.pid == pid && e.usage.gpu == gpu {
                return Some(i);
            }
            i = i + 1;
        }
        None
    }

    /// Adds one sample's SM utilization to what `pid` uses of `gpu`; a sum past
    /// the range of `u64` stays at its largest value.
    pub fn add_utilization(&mut self, pid: u32, gpu: GpuId, sm_util: u32)
        requires
            old(self).wf(),
        ensures
            final(self).wf(),
            final(self).usage_map() == with_utilization(old(self).usage_map(), pid, gpu, sm_util),
            final(self).last_seen() == old(self).last_seen(),
    {
        proof {
            lemma_entries_map_lookup(self.entries@);
        }
        match self.find(pid, gpu) {
            Some(i) => {
                let mut e = self.entries[i];
                e.usage.utilization = e.usage.utilization.saturating_add(sm_util as u64);
                proof {
                    lemma_entries_map_update(self.entries@, i as int, e);
                }
                self.entries.set(i, e);
            },
            None => {
                let e = UsageEntry {
                    pid,
                    usage: GpuUsage { gpu, utilization: sm_util as u64, vram: 0 },
                };
                proof {
                    lemma_entries_map_push(self.entries@, e);
                }
                self.entries.push(e);
            },
        }
    }

    /// Adds `vram` bytes to the video memory that `pid` holds on `gpu`.
    pub fn add_vram(&mut self, pid: u32, gpu: GpuId, vram: u64)
        requires
            old(self).wf(),
            usage_or_zero(old(self).usage_map(), key_of(pid, gpu)).1 + vram <= u64::MAX,
        ensures
            final(self).wf(),
            final(self).usage_map() == old(self).usage_map().insert(
                key_of(pid, gpu),
                (
                    usage_or_zero(old(self).usage_map(), key_of(pid, gpu)).0,
                    (usage_or_zero(old(self).usage_map(), key_of(pid, gpu)).1 + vram) as u64,
                ),
            ),
            final(self).last_seen() == old(self).last_seen(),
    {
        proof {
            lemma_entries_map_lookup(self.entries@);
        }
        match self.find(pid, gpu) {
            Some(i) => {
                let mut e = self.entries[i];
                e.usage.vram = e.usage.vram + vram;
                proof {
                    lemma_entries_map_update(self.entries@, i as int, e);
                }
                self.entries.set(i, e);
            },
            None => {
                let e = UsageEntry { pid, usage: GpuUsage { gpu, utilization: 0, vram } };
                proof {
                    lemma_entries_map_push(self.entries@, e);
                }
                self.entries.push(e);
            },
        }
    }

    /// Records the utilization samples that `gpu` reported: each is added to its
    /// process, and the latest sample time is kept.
    pub fn record_samples(&mut self, gpu: GpuId, samples: &Vec<UtilizationSample>)
        requires
            old(self).wf(),
        ensures
            final(self).wf(),
            final(self).usage_map() == with_samples(old(self).usage_map(), gpu, samples@),
            final(self).last_seen() == latest_timestamp(old(self).last_seen(), samples@),
    {
        let ghost m0 = self.usage_map();
        let ghost t0 = self.last_seen();
        let mut k: usize = 0;
        while k < samples.len()
            invariant
                k <= samples@.len(),
                self.wf(),
                self.usage_map() == with_samples(m0, gpu, samples@.take(k as int)),
                self.last_seen() == latest_timestamp(t0, samples@.take(k as int)),
            decreases samples@.len() - k,
        {
            let sample = samples[k];
            proof {
                assert(samples@.take(k as int + 1).drop_last() == samples@.take(k as int));
                assert(samples@.take(k as int + 1).last() == sample);
            }
            self.add_utilization(sample.pid, gpu, sample.sm_util);
            self.last_seen_timestamp = match self.last_seen_timestamp {
                Some(x) => Some(if x >= sample.timestamp { x } else { sample.timestamp }),
                None => Some(sample.timestamp),
            };
            k = k + 1;
        }
        proof {
            assert(samples@.take(samples@.len() as int) == samples@);
        }
    }

    /// What process `pid` uses of each GPU, one entry per GPU; empty when the
    /// process uses none.
    pub fn process_gpu_usage(&self, pid: u32) -> (usage: Vec<GpuUsage>)
        requires
            self.wf(),
        ensures
            forall|i: int|
                0 <= i < usage.len() ==> self.usage_map().contains_key(
                    key_of(pid, #[trigger] usage[i].gpu),
                ) && self.usage_map()[key_of(pid, usage[i].gpu)] == (
                    usage[i].utilization,
                    usage[i].vram,
                ),
            forall|g: GpuId|
                #[trigger] self.usage_map().contains_key(key_of(pid, g)) ==> exists|i: int|
                    0 <= i < usage.len() && #[trigger] usage[i].gpu == g,
            forall|i: int, j: int| 0 <= i < j < usage.len() ==> usage[i].gpu != usage[j].gpu,
    {
        proof {
            lemma_entries_map_lookup(self.entries@);
        }
        let mut usage: Vec<GpuUsage> = Vec::new();
        let ghost picked: Seq<int> = Seq::empty();
        let mut k: usize = 0;
        while k < self.entries.len()
            invariant
                k <= self.entries@.len(),
                self.wf(),
                usage.len() == picked.len(),
                forall|a: int|
                    0 <= a < picked.len() ==> 0 <= #[trigger] picked[a] < k && self.entries@[picked[a]].pid
                        == pid && self.entries@[picked[a]].usage == usage[a],
                forall|a: int, b: int| 0 <= a < b < picked.len() ==> picked[a] < picked[b],
                forall|j: int|
                    0 <= j < k && self.entries@[j].pid == pid ==> exists|a: int|
                        0 <= a < picked.len() && #[trigger] picked[a] == j,
            decreases self.entries@.len() - k,
        {
            let e = self.entries[k];
            let ghost before = picked;
            if e.pid == pid {
                usage.push(e.usage);
                proof {
                    picked = picked.push(k as int);
                }
            }
            proof {
                assert forall|j: int|
                    0 <= j < k + 1 && self.entries@[j].pid == pid implies exists|a: int|
                    0 <= a < picked.len() && #[trigger] picked[a] == j by {
                    if j == k {
                        assert(picked[picked.len() - 1] == j);
                    } else {
                        let a = choose|a: int| 0 <= a < before.len() && #[trigger] before[a] == j;
                        assert(picked[a] == j);
                    }
                }
            }
            k = k + 1;
        }
        proof {
            assert forall|i: int| 0 <= i < usage.len() implies self.usage_map().contains_key(
                key_of(pid, #[trigger] usage[i].gpu),
            ) && self.usage_map()[key_of(pid, usage[i].gpu)] == (
                usage[i].utilization,
                usage[i].vram,
            ) by {
                assert(entry_key(self.entries@[picked[i]]) == key_of(pid, usage[i].gpu));
            }
            assert forall|i: int, j: int| 0 <= i < j < usage.len() implies usage[i].gpu
                != usage[j].gpu by {
                assert(entry_key(self.entries@[picked[i]]) != entry_key(self.entries@[picked[j]]));
            }
            assert forall|g: GpuId| #[trigger]
                self.usage_map().contains_key(key_of(pid, g)) implies exists|i: int|
                0 <= i < usage.len() && #[trigger] usage[i].gpu == g by {
                let j = choose|j: int|
                    0 <= j < self.entries@.len() && entry_key(#[trigger] self.entries@[j])
                        == key_of(pid, g);
                let a = choose|a: int| 0 <= a < picked.len() && #[trigger] picked[a] == j;
                assert(usage[a].gpu == g);
            }
        }
        usage
    }
}

/// The latest sample time is the largest of the earlier one and those of the
/// samples: no sample is later, and it is one of them.
pub proof fn lemma_latest_is_maximum(last: Option<u64>, samples: Seq<UtilizationSample>)
    ensures
        samples.len() > 0 ==> latest_timestamp(last, samples) is Some,
        latest_timestamp(last, samples) matches Some(t) ==> {
            &&& forall|i: int| 0 <= i < samples.len() ==> #[trigger] samples[i].timestamp <= t
            &&& last matches Some(l) ==> l <= t
            &&& (last == Some(t) || exists|i: int|
                0 <= i < samples.len() && #[trigger] samples[i].timestamp == t)
        },
        samples.len() == 0 ==> latest_timestamp(last, samples) == last,
    decreases samples.len(),
{
    if samples.len() > 0 {
        let d = samples.drop_last();
        lemma_latest_is_maximum(last, d);
        let t = latest_timestamp(last, samples).unwrap();
        assert forall|i: int| 0 <= i < samples.len() implies #[trigger] samples[i].timestamp <= t by {
            if i < d.len() {
                assert(samples[i] == d[i]);
            }
        }
        if last != Some(t) {
            if t == samples.last().timestamp {
                assert(samples[samples.len() - 1].timestamp == t);
            } else {
                let i = choose|i: int| 0 <= i < d.len() && #[trigger] d[i].timestamp == t;
                assert(samples[i] == d[i]);
            }
        }
    }
}

/// The summed SM utilization of the samples of `pid`.
pub open spec fn utilization_of(pid: u32, samples: Seq<UtilizationSample>) -> int
    decreases samples.len(),
{
    if samples.len() == 0 {
        0
    } else {
        utilization_of(pid, samples.drop_last()) + if samples.last().pid == pid {
            samples.last().sm_util as int
        } else {
            0
        }
    }
}

/// What the samples of a GPU leave in the table: for each process, its earlier
/// figure plus the utilization of its samples (a sum past the range of `u64` stays
/// at its largest value), its memory unchanged; other GPUs are untouched.
pub proof fn lemma_samples_add_up(
    m: Map<(u32, GpuId), (u64, u64)>,
    gpu: GpuId,
    samples: Seq<UtilizationSample>,
    pid: u32,
    other: GpuId,
)
    ensures
        usage_or_zero(with_samples(m, gpu, samples), key_of(pid, gpu)).0 == (if usage_or_zero(
            m,
            key_of(pid, gpu),
        ).0 + utilization_of(pid, samples) > u64::MAX {
            u64::MAX as int
        } else {
            usage_or_zero(m, key_of(pid, gpu)).0 + utilization_of(pid, samples)
        }),
        usage_or_zero(with_samples(m, gpu, samples), key_of(pid, gpu)).1 == usage_or_zero(
            m,
            key_of(pid, gpu),
        ).1,
        other != gpu ==> with_samples(m, gpu, samples).contains_key(key_of(pid, other))
            == m.contains_key(key_of(pid, other)),
        other != gpu && m.contains_key(key_of(pid, other)) ==> with_samples(m, gpu, samples)[key_of(
            pid,
            other,
        )] == m[key_of(pid, other)],
    decreases samples.len(),
{
    if samples.len() > 0 {
        lemma_samples_add_up(m, gpu, samples.drop_last(), pid, other);
        lemma_utilization_nonnegative(pid, samples.drop_last());
    }
}

proof fn lemma_utilization_nonnegative(pid: u32, samples: Seq<UtilizationSample>)
    ensures
        utilization_of(pid, samples) >= 0,
    decreases samples.len(),
{
    if samples.len() > 0 {
        lemma_utilization_nonnegative(pid, samples.drop_last());
    }
}

} // verus!
