//! The sampler: turns one probe reading into second-resolution rows,
//! deriving rates by differencing cumulative counters against the previous
//! reading, and drives the aggregation pass at its own cadence.

use vstd::prelude::*;

use crate::aggregate::{can_stamp, spec_aggregate_tick, tick_stamp_ok};
use crate::model::{DiskInfo, DiskInfoV, NetworkInterface, NetworkInterfaceV, Sample, SampleV};
use crate::num::{lemma_round_div_between, lemma_round_div_le_num, round_div, round_mean_u64};
use crate::store::{
    general_at, DiskRow, DiskRowV, GeneralRow, NetRow, NetRowV, Resolution, Store, StoreModel,
};

verus! {

/// The sampler's default cadence in seconds; the boundary test of the
/// aggregation pass widens by this much so a tick that straddles a boundary
/// still catches it.
pub const SAMPLE_INTERVAL: i64 = 2;

/// A ratio as a percentage in hundredths, rounded to the nearest
/// hundredth; 0 when the denominator is 0.
pub open spec fn spec_pct(used: u64, total: u64) -> int {
    if total == 0 {
        0
    } else {
        round_div(10000 * used, total as int)
    }
}

/// The rate derived from two counter readings taken `t1 - t0` seconds
/// apart: the rounded per-second difference, or 0 on a backward step
/// (a counter reset).
pub open spec fn spec_rate(c0: u64, c1: u64, t0: int, t1: int) -> int {
    if c1 > c0 {
        round_div(c1 - c0, t1 - t0)
    } else {
        0
    }
}

/// The first interface of a reading with the given name, if any.
pub open spec fn find_iface(s: Seq<NetworkInterfaceV>, name: Seq<char>) -> Option<
    NetworkInterfaceV,
>
    decreases s.len(),
{
    if s.len() == 0 {
        None
    } else if s[0].name == name {
        Some(s[0])
    } else {
        find_iface(s.drop_first(), name)
    }
}

/// The first disk of a reading with the given mount point, if any.
pub open spec fn find_disk(s: Seq<DiskInfoV>, name: Seq<char>) -> Option<DiskInfoV>
    decreases s.len(),
{
    if s.len() == 0 {
        None
    } else if s[0].mount_point == name {
        Some(s[0])
    } else {
        find_disk(s.drop_first(), name)
    }
}

/// The physical bounds a probe reading respects: used memory and swap
/// within their totals, free space within each disk's total.
pub open spec fn sample_valid(s: SampleV) -> bool {
    &&& s.mem.used_mem <= s.mem.total_mem
    &&& s.mem.used_swap <= s.mem.total_swap
    &&& forall|i: int|
        0 <= i < s.disks.len() ==> (#[trigger] s.disks[i]).free_space <= s.disks[i].total_space
}

/// The previous reading the sampler differences against.
#[derive(Debug)]
pub struct PrevSample {
    pub t: i64,
    pub sample: Sample,
}

pub ghost struct PrevSampleV {
    pub t: i64,
    pub sample: SampleV,
}

impl View for PrevSample {
    type V = PrevSampleV;

    open spec fn view(&self) -> PrevSampleV {
        PrevSampleV { t: self.t, sample: self.sample@ }
    }
}

/// The view of the sampler's optional previous reading.
pub open spec fn prev_view(p: Option<PrevSample>) -> Option<PrevSampleV> {
    match p {
        Some(x) => Some(x@),
        None => None,
    }
}

/// The `general` row a reading yields at time `t`.
pub open spec fn spec_general_row(t: i64, s: SampleV) -> GeneralRow {
    GeneralRow {
        timestamp: t,
        cpu_usage: s.cpu_usage,
        mem_usage: spec_pct(s.mem.used_mem, s.mem.total_mem) as u64,
        swap_usage: spec_pct(s.mem.used_swap, s.mem.total_swap) as u64,
        load_avg_1: s.load_avg_1,
        load_avg_5: s.load_avg_5,
        load_avg_15: s.load_avg_15,
    }
}

/// The `net` row one interface yields at time `t`: the cumulative counters
/// as read, and rates differenced against the interface of the same name in
/// the previous reading — 0 with no previous reading, an unmatched name, or
/// a backward counter step.
pub open spec fn spec_net_row(t: i64, iface: NetworkInterfaceV, prev: Option<PrevSampleV>) -> NetRowV {
    let rates = match prev {
        None => (0int, 0int),
        Some(p) => match find_iface(p.sample.interfaces, iface.name) {
            None => (0int, 0int),
            Some(o) => (
                spec_rate(o.rx, iface.rx, p.t as int, t as int),
                spec_rate(o.tx, iface.tx, p.t as int, t as int),
            ),
        },
    };
    NetRowV {
        timestamp: t,
        name: iface.name,
        rx: iface.rx,
        tx: iface.tx,
        rx_rate: rates.0 as u64,
        tx_rate: rates.1 as u64,
    }
}

/// The `net` rows a reading yields at time `t`, one per interface, in the
/// reading's order.
pub open spec fn spec_net_rows(t: i64, s: SampleV, prev: Option<PrevSampleV>) -> Seq<NetRowV> {
    s.interfaces.map_values(|iface: NetworkInterfaceV| spec_net_row(t, iface, prev))
}

/// The `disk` row one mount yields at time `t`: cumulative read/write
/// counters, rates differenced against the mount of the same name in the
/// previous reading, and the usage percentage `100 * (1 - free/total)` in
/// hundredths.
pub open spec fn spec_disk_row(t: i64, d: DiskInfoV, prev: Option<PrevSampleV>) -> DiskRowV {
    let rates = match prev {
        None => (0int, 0int),
        Some(p) => match find_disk(p.sample.disks, d.mount_point) {
            None => (0int, 0int),
            Some(o) => (
                spec_rate(o.io[2], d.io[2], p.t as int, t as int),
                spec_rate(o.io[3], d.io[3], p.t as int, t as int),
            ),
        },
    };
    DiskRowV {
        timestamp: t,
        name: d.mount_point,
        total_read: d.io[2],
        total_write: d.io[3],
        read_rate: rates.0 as u64,
        write_rate: rates.1 as u64,
        disk_usage: spec_pct((d.total_space - d.free_space) as u64, d.total_space) as u64,
    }
}

/// The `disk` rows a reading yields at time `t`, one per mount, in the
/// reading's order.
pub open spec fn spec_disk_rows(t: i64, s: SampleV, prev: Option<PrevSampleV>) -> Seq<DiskRowV> {
    s.disks.map_values(|d: DiskInfoV| spec_disk_row(t, d, prev))
}

/// The store after one reading is appended to the three second-resolution
/// tables.
pub open spec fn spec_insert_sample(
    m: StoreModel,
    t: i64,
    s: SampleV,
    prev: Option<PrevSampleV>,
) -> StoreModel {
    StoreModel {
        general_s: m.general_s.push(spec_general_row(t, s)),
        net_s: m.net_s + spec_net_rows(t, s, prev),
        disk_s: m.disk_s + spec_disk_rows(t, s, prev),
        ..m
    }
}

/// Computes a ratio as a percentage in hundredths.
fn pct_u64(used: u64, total: u64) -> (r: u64)
    requires
        used <= total,
    ensures
        r == spec_pct(used, total),
        r <= 10000,
{
    if total == 0 {
        0
    } else {
        proof {
            assert(10000 * (used as int) <= (total as int) * 10000) by (nonlinear_arith)
                requires
                    used <= total,
            ;
            assert((total as int) * 10000 <= (total as int) * 0xffff_ffff_ffff_ffff)
                by (nonlinear_arith)
                requires
                    total >= 1,
            ;
            lemma_round_div_between(10000 * (used as int), total as int, 0, 10000);
        }
        round_mean_u64(10000 * (used as u128), total)
    }
}

/// Computes the rate between two counter readings; 0 on a backward step.
fn rate_u64(c0: u64, c1: u64, t0: i64, t1: i64) -> (r: u64)
    requires
        0 <= t0 < t1,
    ensures
        r == spec_rate(c0, c1, t0 as int, t1 as int),
{
    if c1 > c0 {
        let diff: u64 = c1 - c0;
        let dt: u64 = (t1 - t0) as u64;
        proof {
            assert((diff as int) <= (dt as int) * 0xffff_ffff_ffff_ffff) by (nonlinear_arith)
                requires
                    dt >= 1,
                    diff <= 0xffff_ffff_ffff_ffff,
            ;
            lemma_round_div_le_num(diff as int, dt as int);
        }
        round_mean_u64(diff as u128, dt)
    } else {
        0
    }
}

/// The counters `(rx, tx)` of the first interface with the given name.
fn find_iface_counters(v: &Vec<NetworkInterface>, name: &String) -> (r: Option<(u64, u64)>)
    ensures
        r == (match find_iface(v.deep_view(), name@) {
            Some(o) => Some((o.rx, o.tx)),
            None => None::<(u64, u64)>,
        }),
{
    let n = v.len();
    let mut i: usize = 0;
    proof {
        assert(v.deep_view().skip(0) =~= v.deep_view());
    }
    while i < n
        invariant
            n == v@.len(),
            v@.len() == v.deep_view().len(),
            i <= n,
            find_iface(v.deep_view(), name@) == find_iface(v.deep_view().skip(i as int), name@),
        decreases n - i,
    {
        proof {
            assert(v.deep_view().skip(i as int)[0] == v.deep_view()[i as int]);
            assert(v.deep_view().skip(i as int).drop_first() =~= v.deep_view().skip(i + 1));
        }
        if v[i].name.eq(name) {
            return Some((v[i].rx, v[i].tx));
        }
        i += 1;
    }
    proof {
        assert(v.deep_view().skip(i as int) =~= Seq::<NetworkInterfaceV>::empty());
    }
    None
}

/// The counters `(total_read, total_written)` of the first disk with the
/// given mount point.
fn find_disk_counters(v: &Vec<DiskInfo>, name: &String) -> (r: Option<(u64, u64)>)
    ensures
        r == (match find_disk(v.deep_view(), name@) {
            Some(o) => Some((o.io[2], o.io[3])),
            None => None::<(u64, u64)>,
        }),
{
    let n = v.len();
    let mut i: usize = 0;
    proof {
        assert(v.deep_view().skip(0) =~= v.deep_view());
    }
    while i < n
        invariant
            n == v@.len(),
            v@.len() == v.deep_view().len(),
            i <= n,
            find_disk(v.deep_view(), name@) == find_disk(v.deep_view().skip(i as int), name@),
        decreases n - i,
    {
        proof {
            assert(v.deep_view().skip(i as int)[0] == v.deep_view()[i as int]);
            assert(v.deep_view().skip(i as int).drop_first() =~= v.deep_view().skip(i + 1));
        }
        if v[i].mount_point.eq(name) {
            return Some((v[i].io[2], v[i].io[3]));
        }
        i += 1;
    }
    proof {
        assert(v.deep_view().skip(i as int) =~= Seq::<DiskInfoV>::empty());
    }
    None
}

impl Store {
    /// Appends one probe reading to the three second-resolution tables:
    /// one `general` row, one `net` row per interface, one `disk` row per
    /// mount, with rates differenced against the previous reading.
    pub fn insert_sample(&mut self, t: i64, sample: &Sample, prev: &Option<PrevSample>)
        requires
            old(self).wf(),
            sample_valid(sample@),
            (match prev {
                Some(p) => 0 <= p.t < t,
                None => true,
            }),
            can_stamp(old(self)@, Resolution::Second, t as int),
        ensures
            final(self).wf(),
            final(self)@ == spec_insert_sample(
                old(self)@,
                t,
                sample@,
                match prev {
                    Some(p) => Some(p@),
                    None => None,
                },
            ),
    {
        let ghost m0 = self@;
        let ghost pv: Option<PrevSampleV> = match prev {
            Some(p) => Some(p@),
            None => None,
        };
        let grow = GeneralRow {
            timestamp: t,
            cpu_usage: sample.cpu_usage,
            mem_usage: pct_u64(sample.mem.used_mem, sample.mem.total_mem),
            swap_usage: pct_u64(sample.mem.used_swap, sample.mem.total_swap),
            load_avg_1: sample.load_avg_1,
            load_avg_5: sample.load_avg_5,
            load_avg_15: sample.load_avg_15,
        };
        self.general_s.push(grow);
        proof {
            assert(grow == spec_general_row(t, sample@));
        }
        let ghost nrows = spec_net_rows(t, sample@, pv);
        let mut i: usize = 0;
        proof {
            assert(self@.net_s =~= m0.net_s + nrows.take(0));
        }
        while i < sample.net.interfaces.len()
            invariant
                i <= sample.net.interfaces@.len(),
                sample.net.interfaces@.len() == sample@.interfaces.len(),
                (match prev {
                    Some(p) => 0 <= p.t < t,
                    None => true,
                }),
                pv == (match prev {
                    Some(p) => Some(p@),
                    None => None::<PrevSampleV>,
                }),
                nrows == spec_net_rows(t, sample@, pv),
                nrows.len() == sample@.interfaces.len(),
                self@ == (StoreModel { general_s: self@.general_s, net_s: self@.net_s, ..m0 }),
                self@.general_s == m0.general_s.push(spec_general_row(t, sample@)),
                self@.net_s == m0.net_s + nrows.take(i as int),
            decreases sample.net.interfaces@.len() - i,
        {
            let iface = &sample.net.interfaces[i];
            let (rx_rate, tx_rate) = match prev {
                Some(p) => {
                    match find_iface_counters(&p.sample.net.interfaces, &iface.name) {
                        Some((rx0, tx0)) => (
                            rate_u64(rx0, iface.rx, p.t, t),
                            rate_u64(tx0, iface.tx, p.t, t),
                        ),
                        None => (0u64, 0u64),
                    }
                },
                None => (0u64, 0u64),
            };
            let row = NetRow {
                timestamp: t,
                name: iface.name.clone(),
                rx: iface.rx,
                tx: iface.tx,
                rx_rate,
                tx_rate,
            };
            let ghost spre = self@.net_s;
            self.net_s.push(row);
            proof {
                assert(sample@.interfaces[i as int] == iface@);
                assert(row@ == spec_net_row(t, sample@.interfaces[i as int], pv));
                assert(row@ == nrows[i as int]);
                assert(self@.net_s =~= spre.push(row@));
                assert(m0.net_s + nrows.take(i as int) + seq![nrows[i as int]] =~= m0.net_s
                    + nrows.take(i + 1));
                assert(spre.push(row@) =~= spre + seq![row@]);
            }
            i += 1;
        }
        proof {
            assert(nrows.take(i as int) =~= nrows);
        }
        let ghost drows = spec_disk_rows(t, sample@, pv);
        let mut k: usize = 0;
        proof {
            assert(self@.disk_s =~= m0.disk_s + drows.take(0));
        }
        while k < sample.disk.disks.len()
            invariant
                k <= sample.disk.disks@.len(),
                sample.disk.disks@.len() == sample@.disks.len(),
                sample_valid(sample@),
                (match prev {
                    Some(p) => 0 <= p.t < t,
                    None => true,
                }),
                pv == (match prev {
                    Some(p) => Some(p@),
                    None => None::<PrevSampleV>,
                }),
                drows == spec_disk_rows(t, sample@, pv),
                drows.len() == sample@.disks.len(),
                self@ == (StoreModel {
                    general_s: self@.general_s,
                    net_s: self@.net_s,
                    disk_s: self@.disk_s,
                    ..m0
                }),
                self@.general_s == m0.general_s.push(spec_general_row(t, sample@)),
                self@.net_s == m0.net_s + spec_net_rows(t, sample@, pv),
                self@.disk_s == m0.disk_s + drows.take(k as int),
            decreases sample.disk.disks@.len() - k,
        {
            let d = &sample.disk.disks[k];
            let (read_rate, write_rate) = match prev {
                Some(p) => {
                    match find_disk_counters(&p.sample.disk.disks, &d.mount_point) {
                        Some((r0, w0)) => (
                            rate_u64(r0, d.io[2], p.t, t),
                            rate_u64(w0, d.io[3], p.t, t),
                        ),
                        None => (0u64, 0u64),
                    }
                },
                None => (0u64, 0u64),
            };
            proof {
                assert(sample@.disks[k as int] == d@);
                assert(d@.free_space <= d@.total_space);
            }
            let row = DiskRow {
                timestamp: t,
                name: d.mount_point.clone(),
                total_read: d.io[2],
                total_write: d.io[3],
                read_rate,
                write_rate,
                disk_usage: pct_u64(d.total_space - d.free_space, d.total_space),
            };
            let ghost spre = self@.disk_s;
            self.disk_s.push(row);
            proof {
                assert(row@ == spec_disk_row(t, sample@.disks[k as int], pv));
                assert(row@ == drows[k as int]);
                assert(self@.disk_s =~= spre.push(row@));
                assert(m0.disk_s + drows.take(k as int) + seq![drows[k as int]] =~= m0.disk_s
                    + drows.take(k + 1));
                assert(spre.push(row@) =~= spre + seq![row@]);
            }
            k += 1;
        }
        proof {
            assert(drows.take(k as int) =~= drows);
            assert(self@ == spec_insert_sample(m0, t, sample@, pv));
            assert(forall|j: int|
                0 <= j < nrows.len() ==> (#[trigger] nrows[j]).timestamp == t);
            assert(forall|j: int|
                0 <= j < drows.len() ==> (#[trigger] drows[j]).timestamp == t);
            crate::aggregate::lemma_sorted_append(
                m0.general_s,
                seq![spec_general_row(t, sample@)],
                |r: GeneralRow| r.timestamp as int,
                t as int,
            );
            assert(m0.general_s.push(spec_general_row(t, sample@)) =~= m0.general_s + seq![
                spec_general_row(t, sample@),
            ]);
            crate::aggregate::lemma_sorted_append(
                m0.net_s,
                nrows,
                |r: NetRowV| r.timestamp as int,
                t as int,
            );
            crate::aggregate::lemma_sorted_append(
                m0.disk_s,
                drows,
                |r: DiskRowV| r.timestamp as int,
                t as int,
            );
            assert(final(self).wf());
        }
    }
}

/// The sampler task's state: the previous reading, used to derive rates;
/// absent before the first tick, so the first tick stores all rates as 0.
#[derive(Debug)]
pub struct Sampler {
    pub last: Option<PrevSample>,
}

impl Sampler {
    /// A sampler that has not yet seen a reading.
    pub fn new() -> (s: Sampler)
        ensures
            s.last is None,
    {
        Sampler { last: None }
    }

    /// One sampler tick at wall-clock `t`: appends the reading to the
    /// second-resolution tables (rates differenced against the previous
    /// reading), runs the aggregation pass for any boundary the tick lands
    /// on, and remembers the reading.
    pub fn tick(&mut self, store: &mut Store, t: i64, sample: Sample, sample_interval: i64)
        requires
            old(store).wf(),
            sample_valid(sample@),
            0 <= t,
            1 <= sample_interval,
            (match old(self).last {
                Some(p) => 0 <= p.t < t,
                None => true,
            }),
            can_stamp(old(store)@, Resolution::Second, t as int),
            tick_stamp_ok(old(store)@, t as int, sample_interval as int),
        ensures
            final(store).wf(),
            final(store)@ == spec_aggregate_tick(
                spec_insert_sample(old(store)@, t, sample@, prev_view(old(self).last)),
                t as int,
                sample_interval as int,
            ),
            (match final(self).last {
                Some(p) => p.t == t && p.sample@ == sample@,
                None => false,
            }),
    {
        let ghost m0 = store@;
        let ghost pv = prev_view(self.last);
        store.insert_sample(t, &sample, &self.last);
        proof {
            let m1 = spec_insert_sample(m0, t, sample@, pv);
            assert(general_at(m1, Resolution::Minute) == general_at(m0, Resolution::Minute));
            assert(tick_stamp_ok(store@, t as int, sample_interval as int));
        }
        store.aggregate_tick(t, sample_interval);
        self.last = Some(PrevSample { t, sample });
    }
}

} // verus!
