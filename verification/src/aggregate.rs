//! Boundary-aligned aggregation and retention: seconds roll up to minutes
//! on each minute boundary, minutes to hours on each hour boundary, hours
//! to days on each day boundary; the day boundary also prunes expired rows.

use vstd::prelude::*;

use crate::rollup::{
    d_roll, g_roll, lemma_filter_push, roll_up_disk, roll_up_general, roll_up_net, n_roll,
};
use crate::store::{
    disk_at, general_at, net_at, DiskRow, DiskRowV, GeneralRow, NetRow, NetRowV, Resolution,
    Store, StoreModel,
};

verus! {

/// How many seconds the raw tier is kept: one hour.
pub const RETAIN_SECONDS: i64 = 3600;

/// How many seconds the minute tier is kept: four days.
pub const RETAIN_MINUTES: i64 = 345600;

/// How many seconds the hour tier is kept: 365 days.
pub const RETAIN_HOURS: i64 = 31536000;

/// The model with the `general` table of one tier replaced.
pub open spec fn set_general(m: StoreModel, res: Resolution, t: Seq<GeneralRow>) -> StoreModel {
    match res {
        Resolution::Second => StoreModel { general_s: t, ..m },
        Resolution::Minute => StoreModel { general_m: t, ..m },
        Resolution::Hour => StoreModel { general_h: t, ..m },
        Resolution::Day => StoreModel { general_d: t, ..m },
    }
}

/// The model with the `net` table of one tier replaced.
pub open spec fn set_net(m: StoreModel, res: Resolution, t: Seq<NetRowV>) -> StoreModel {
    match res {
        Resolution::Second => StoreModel { net_s: t, ..m },
        Resolution::Minute => StoreModel { net_m: t, ..m },
        Resolution::Hour => StoreModel { net_h: t, ..m },
        Resolution::Day => StoreModel { net_d: t, ..m },
    }
}

/// The model with the `disk` table of one tier replaced.
pub open spec fn set_disk(m: StoreModel, res: Resolution, t: Seq<DiskRowV>) -> StoreModel {
    match res {
        Resolution::Second => StoreModel { disk_s: t, ..m },
        Resolution::Minute => StoreModel { disk_m: t, ..m },
        Resolution::Hour => StoreModel { disk_h: t, ..m },
        Resolution::Day => StoreModel { disk_d: t, ..m },
    }
}

/// Whether rows stamped `stamp` may be appended to the tier's tables
/// without breaking timestamp order.
pub open spec fn can_stamp(m: StoreModel, res: Resolution, stamp: int) -> bool {
    &&& (general_at(m, res).len() == 0 || general_at(m, res).last().timestamp <= stamp)
    &&& (net_at(m, res).len() == 0 || net_at(m, res).last().timestamp <= stamp)
    &&& (disk_at(m, res).len() == 0 || disk_at(m, res).last().timestamp <= stamp)
}

/// The store after rolling the window `[lo, hi]` of tier `from` into tier
/// `to`, each category aggregated by its own rule and every new row stamped
/// with the window's right end.
pub open spec fn spec_roll_up(
    m: StoreModel,
    from: Resolution,
    to: Resolution,
    lo: int,
    hi: int,
) -> StoreModel {
    let stamp = hi as i64;
    let m1 = set_general(m, to, general_at(m, to) + g_roll(general_at(m, from), lo, hi, stamp));
    let m2 = set_net(m1, to, net_at(m1, to) + n_roll(net_at(m, from), lo, hi, stamp));
    set_disk(m2, to, disk_at(m2, to) + d_roll(disk_at(m, from), lo, hi, stamp))
}

/// The store after the retention pass: rows older than each tier's cutoff
/// are gone from the second, minute and hour tiers; the day tier and the
/// key-value table are untouched.
pub open spec fn spec_prune(
    m: StoreModel,
    cutoff_s: int,
    cutoff_m: int,
    cutoff_h: int,
) -> StoreModel {
    StoreModel {
        general_s: m.general_s.filter(|r: GeneralRow| r.timestamp >= cutoff_s),
        net_s: m.net_s.filter(|r: NetRowV| r.timestamp >= cutoff_s),
        disk_s: m.disk_s.filter(|r: DiskRowV| r.timestamp >= cutoff_s),
        general_m: m.general_m.filter(|r: GeneralRow| r.timestamp >= cutoff_m),
        net_m: m.net_m.filter(|r: NetRowV| r.timestamp >= cutoff_m),
        disk_m: m.disk_m.filter(|r: DiskRowV| r.timestamp >= cutoff_m),
        general_h: m.general_h.filter(|r: GeneralRow| r.timestamp >= cutoff_h),
        net_h: m.net_h.filter(|r: NetRowV| r.timestamp >= cutoff_h),
        disk_h: m.disk_h.filter(|r: DiskRowV| r.timestamp >= cutoff_h),
        ..m
    }
}

/// The minute boundary at or before `t`.
pub open spec fn minute_boundary(t: int) -> int {
    t - t % 60
}

/// Whether a tick at `t` lands on (or just after) a boundary of period
/// `period`, given the sampling cadence: the test catches a boundary even
/// when the tick straddles it.
pub open spec fn at_boundary(t: int, period: int, interval: int) -> bool {
    t % period < interval
}

/// The store after the aggregation pass of a tick at `t`. On a minute
/// boundary the preceding minute of raw rows rolls up; on an hour boundary
/// additionally the preceding hour of minute rows; on a day boundary
/// additionally the preceding day of hour rows, followed by the retention
/// pass with the fixed per-tier cutoffs.
pub open spec fn spec_aggregate_tick(m: StoreModel, t: int, interval: int) -> StoreModel {
    if t % 60 < interval {
        let b = t - t % 60;
        let m1 = spec_roll_up(m, Resolution::Second, Resolution::Minute, b - 60, b);
        if (b / 60) % 60 == 0 {
            let m2 = spec_roll_up(m1, Resolution::Minute, Resolution::Hour, b - 3600, b);
            if (b / 3600) % 24 == 0 {
                let m3 = spec_roll_up(m2, Resolution::Hour, Resolution::Day, b - 86400, b);
                spec_prune(
                    m3,
                    b - RETAIN_SECONDS as int,
                    b - RETAIN_MINUTES as int,
                    b - RETAIN_HOURS as int,
                )
            } else {
                m2
            }
        } else {
            m1
        }
    } else {
        m
    }
}

/// The stamping conditions a tick at `t` needs so that every roll-up it
/// performs keeps the target tables ordered.
pub open spec fn tick_stamp_ok(m: StoreModel, t: int, interval: int) -> bool {
    t % 60 < interval ==> {
        let b = t - t % 60;
        &&& can_stamp(m, Resolution::Minute, b)
        &&& ((b / 60) % 60 == 0 ==> can_stamp(m, Resolution::Hour, b))
        &&& ((b / 60) % 60 == 0 && (b / 3600) % 24 == 0 ==> can_stamp(m, Resolution::Day, b))
    }
}

/// A sequence sorted by a key stays sorted under `filter`, and its last
/// element's key never grows.
pub proof fn lemma_filter_sorted<A>(s: Seq<A>, pred: spec_fn(A) -> bool, key: spec_fn(A) -> int)
    requires
        forall|i: int, j: int| 0 <= i < j < s.len() ==> key(s[i]) <= key(s[j]),
    ensures
        forall|i: int, j: int|
            0 <= i < j < s.filter(pred).len() ==> key(s.filter(pred)[i]) <= key(s.filter(pred)[j]),
        s.filter(pred).len() > 0 ==> s.len() > 0 && key(s.filter(pred).last()) <= key(s.last()),
    decreases s.len(),
{
    reveal(Seq::filter);
    if s.len() > 0 {
        let dl = s.drop_last();
        assert(forall|i: int, j: int|
            0 <= i < j < dl.len() ==> key(#[trigger] dl[i]) <= key(#[trigger] dl[j]));
        lemma_filter_sorted(dl, pred, key);
        let f = s.filter(pred);
        let fd = dl.filter(pred);
        if pred(s.last()) {
            assert(f == fd.push(s.last()));
            assert(forall|i: int| 0 <= i < fd.len() ==> key(#[trigger] fd[i]) <= key(fd.last()));
        }
    }
}

/// Appending rows that all carry one stamp, at or after the last existing
/// timestamp, keeps a table sorted.
pub proof fn lemma_sorted_append<A>(s: Seq<A>, t: Seq<A>, key: spec_fn(A) -> int, stamp: int)
    requires
        forall|i: int, j: int| 0 <= i < j < s.len() ==> key(s[i]) <= key(s[j]),
        forall|i: int| 0 <= i < t.len() ==> key(#[trigger] t[i]) == stamp,
        s.len() == 0 || key(s.last()) <= stamp,
    ensures
        forall|i: int, j: int| 0 <= i < j < (s + t).len() ==> key((s + t)[i]) <= key((s + t)[j]),
{
    let c = s + t;
    assert forall|i: int, j: int| 0 <= i < j < c.len() implies key(c[i]) <= key(c[j]) by {
        if j < s.len() {
            assert(c[i] == s[i] && c[j] == s[j]);
        } else if i < s.len() {
            assert(c[i] == s[i] && c[j] == t[j - s.len()]);
            assert(key(s[i]) <= key(s.last()));
        } else {
            assert(c[i] == t[i - s.len()] && c[j] == t[j - s.len()]);
        }
    }
}

impl Store {
    /// The `general` table of a tier.
    pub fn general_table(&self, res: Resolution) -> (r: &Vec<GeneralRow>)
        ensures
            r@ == general_at(self@, res),
    {
        match res {
            Resolution::Second => &self.general_s,
            Resolution::Minute => &self.general_m,
            Resolution::Hour => &self.general_h,
            Resolution::Day => &self.general_d,
        }
    }

    /// The `net` table of a tier.
    pub fn net_table(&self, res: Resolution) -> (r: &Vec<NetRow>)
        ensures
            r.deep_view() == net_at(self@, res),
    {
        match res {
            Resolution::Second => &self.net_s,
            Resolution::Minute => &self.net_m,
            Resolution::Hour => &self.net_h,
            Resolution::Day => &self.net_d,
        }
    }

    /// The `disk` table of a tier.
    pub fn disk_table(&self, res: Resolution) -> (r: &Vec<DiskRow>)
        ensures
            r.deep_view() == disk_at(self@, res),
    {
        match res {
            Resolution::Second => &self.disk_s,
            Resolution::Minute => &self.disk_m,
            Resolution::Hour => &self.disk_h,
            Resolution::Day => &self.disk_d,
        }
    }

    fn general_push(&mut self, res: Resolution, row: GeneralRow)
        ensures
            final(self)@ == set_general(
                old(self)@,
                res,
                general_at(old(self)@, res).push(row),
            ),
    {
        match res {
            Resolution::Second => self.general_s.push(row),
            Resolution::Minute => self.general_m.push(row),
            Resolution::Hour => self.general_h.push(row),
            Resolution::Day => self.general_d.push(row),
        }
    }

    fn net_extend(&mut self, res: Resolution, rows: Vec<NetRow>)
        ensures
            final(self)@ == set_net(
                old(self)@,
                res,
                net_at(old(self)@, res) + rows.deep_view(),
            ),
    {
        let ghost added = rows.deep_view();
        let mut rows = rows;
        match res {
            Resolution::Second => self.net_s.append(&mut rows),
            Resolution::Minute => self.net_m.append(&mut rows),
            Resolution::Hour => self.net_h.append(&mut rows),
            Resolution::Day => self.net_d.append(&mut rows),
        }
        proof {
            assert(self.net_s.deep_view() =~= net_at(old(self)@, Resolution::Second) + (
            if res is Second {
                added
            } else {
                Seq::<NetRowV>::empty()
            }));
            assert(self.net_m.deep_view() =~= net_at(old(self)@, Resolution::Minute) + (
            if res is Minute {
                added
            } else {
                Seq::<NetRowV>::empty()
            }));
            assert(self.net_h.deep_view() =~= net_at(old(self)@, Resolution::Hour) + (
            if res is Hour {
                added
            } else {
                Seq::<NetRowV>::empty()
            }));
            assert(self.net_d.deep_view() =~= net_at(old(self)@, Resolution::Day) + (
            if res is Day {
                added
            } else {
                Seq::<NetRowV>::empty()
            }));
            assert(net_at(old(self)@, res) + added =~= net_at(self@, res));
        }
    }

    fn disk_extend(&mut self, res: Resolution, rows: Vec<DiskRow>)
        ensures
            final(self)@ == set_disk(
                old(self)@,
                res,
                disk_at(old(self)@, res) + rows.deep_view(),
            ),
    {
        let ghost added = rows.deep_view();
        let mut rows = rows;
        match res {
            Resolution::Second => self.disk_s.append(&mut rows),
            Resolution::Minute => self.disk_m.append(&mut rows),
            Resolution::Hour => self.disk_h.append(&mut rows),
            Resolution::Day => self.disk_d.append(&mut rows),
        }
        proof {
            assert(self.disk_s.deep_view() =~= disk_at(old(self)@, Resolution::Second) + (
            if res is Second {
                added
            } else {
                Seq::<DiskRowV>::empty()
            }));
            assert(self.disk_m.deep_view() =~= disk_at(old(self)@, Resolution::Minute) + (
            if res is Minute {
                added
            } else {
                Seq::<DiskRowV>::empty()
            }));
            assert(self.disk_h.deep_view() =~= disk_at(old(self)@, Resolution::Hour) + (
            if res is Hour {
                added
            } else {
                Seq::<DiskRowV>::empty()
            }));
            assert(self.disk_d.deep_view() =~= disk_at(old(self)@, Resolution::Day) + (
            if res is Day {
                added
            } else {
                Seq::<DiskRowV>::empty()
            }));
            assert(disk_at(old(self)@, res) + added =~= disk_at(self@, res));
        }
    }

    /// Rolls the window `[window_start, window_end]` of tier `from` into
    /// tier `to`: for each category one aggregate row per resource (MAX for
    /// cumulative counters, rounded mean for gauges), stamped `window_end`;
    /// a category with no source rows in the window gets no row.
    pub fn roll_up(
        &mut self,
        from: Resolution,
        to: Resolution,
        window_start: i64,
        window_end: i64,
    )
        requires
            old(self).wf(),
            can_stamp(old(self)@, to, window_end as int),
        ensures
            final(self).wf(),
            final(self)@ == spec_roll_up(
                old(self)@,
                from,
                to,
                window_start as int,
                window_end as int,
            ),
    {
        let ghost m0 = self@;
        let grow = roll_up_general(self.general_table(from), window_start, window_end, window_end);
        let ghost gadd = g_roll(
            general_at(m0, from),
            window_start as int,
            window_end as int,
            window_end,
        );
        match grow {
            Some(row) => {
                self.general_push(to, row);
                proof {
                    assert(general_at(m0, to).push(row) =~= general_at(m0, to) + gadd);
                }
            },
            None => {
                proof {
                    assert(general_at(m0, to) =~= general_at(m0, to) + gadd);
                    assert(self@ =~= set_general(m0, to, general_at(m0, to) + gadd));
                }
            },
        }
        let ghost m1 = set_general(m0, to, general_at(m0, to) + gadd);
        let nrows = roll_up_net(self.net_table(from), window_start, window_end, window_end);
        let ghost nadd = nrows.deep_view();
        self.net_extend(to, nrows);
        let ghost m2 = set_net(m1, to, net_at(m1, to) + nadd);
        let drows = roll_up_disk(self.disk_table(from), window_start, window_end, window_end);
        let ghost dadd = drows.deep_view();
        self.disk_extend(to, drows);
        proof {
            assert(net_at(m1, from) == net_at(m0, from));
            assert(disk_at(m2, from) == disk_at(m0, from));
            assert(self@ == spec_roll_up(m0, from, to, window_start as int, window_end as int));
            let stamp = window_end as int;
            assert(forall|i: int|
                0 <= i < gadd.len() ==> #[trigger] gadd[i].timestamp == stamp);
            assert(forall|i: int|
                0 <= i < nadd.len() ==> #[trigger] nadd[i].timestamp == stamp);
            assert(forall|i: int|
                0 <= i < dadd.len() ==> #[trigger] dadd[i].timestamp == stamp);
            lemma_sorted_append(
                general_at(m0, to),
                gadd,
                |r: GeneralRow| r.timestamp as int,
                stamp,
            );
            lemma_sorted_append(net_at(m0, to), nadd, |r: NetRowV| r.timestamp as int, stamp);
            lemma_sorted_append(disk_at(m0, to), dadd, |r: DiskRowV| r.timestamp as int, stamp);
            assert(final(self).wf());
        }
    }
}

/// The rows of a `general` table at or after a cutoff.
fn prune_general(v: &Vec<GeneralRow>, cutoff: i64) -> (r: Vec<GeneralRow>)
    ensures
        r@ == v@.filter(|row: GeneralRow| row.timestamp >= cutoff),
{
    let mut out: Vec<GeneralRow> = Vec::new();
    let mut i: usize = 0;
    proof {
        assert(v@.take(0) =~= Seq::<GeneralRow>::empty());
        reveal(Seq::filter);
    }
    while i < v.len()
        invariant
            i <= v@.len(),
            out@ == v@.take(i as int).filter(|row: GeneralRow| row.timestamp >= cutoff),
        decreases v@.len() - i,
    {
        proof {
            lemma_filter_push(v@.take(i as int), |row: GeneralRow| row.timestamp >= cutoff, v@[i as int]);
            assert(v@.take(i as int).push(v@[i as int]) =~= v@.take(i + 1));
        }
        if v[i].timestamp >= cutoff {
            let row = v[i];
            out.push(row);
        }
        i += 1;
    }
    proof {
        assert(v@.take(i as int) =~= v@);
    }
    out
}

/// The rows of a `net` table at or after a cutoff.
fn prune_net(v: &Vec<NetRow>, cutoff: i64) -> (r: Vec<NetRow>)
    ensures
        r.deep_view() == v.deep_view().filter(|row: NetRowV| row.timestamp >= cutoff),
{
    let mut out: Vec<NetRow> = Vec::new();
    let mut i: usize = 0;
    proof {
        assert(v.deep_view().take(0) =~= Seq::<NetRowV>::empty());
        reveal(Seq::filter);
    }
    while i < v.len()
        invariant
            i <= v@.len(),
            v@.len() == v.deep_view().len(),
            out.deep_view() == v.deep_view().take(i as int).filter(
                |row: NetRowV| row.timestamp >= cutoff,
            ),
        decreases v@.len() - i,
    {
        proof {
            lemma_filter_push(
                v.deep_view().take(i as int),
                |row: NetRowV| row.timestamp >= cutoff,
                v.deep_view()[i as int],
            );
            assert(v.deep_view().take(i as int).push(v.deep_view()[i as int]) =~= v.deep_view().take(
                i + 1,
            ));
        }
        if v[i].timestamp >= cutoff {
            let row = v[i].duplicate();
            out.push(row);
            proof {
                assert(out.deep_view() =~= v.deep_view().take(i + 1).filter(
                    |row: NetRowV| row.timestamp >= cutoff,
                ));
            }
        }
        i += 1;
    }
    proof {
        assert(v.deep_view().take(i as int) =~= v.deep_view());
    }
    out
}

/// The rows of a `disk` table at or after a cutoff.
fn prune_disk(v: &Vec<DiskRow>, cutoff: i64) -> (r: Vec<DiskRow>)
    ensures
        r.deep_view() == v.deep_view().filter(|row: DiskRowV| row.timestamp >= cutoff),
{
    let mut out: Vec<DiskRow> = Vec::new();
    let mut i: usize = 0;
    proof {
        assert(v.deep_view().take(0) =~= Seq::<DiskRowV>::empty());
        reveal(Seq::filter);
    }
    while i < v.len()
        invariant
            i <= v@.len(),
            v@.len() == v.deep_view().len(),
            out.deep_view() == v.deep_view().take(i as int).filter(
                |row: DiskRowV| row.timestamp >= cutoff,
            ),
        decreases v@.len() - i,
    {
        proof {
            lemma_filter_push(
                v.deep_view().take(i as int),
                |row: DiskRowV| row.timestamp >= cutoff,
                v.deep_view()[i as int],
            );
            assert(v.deep_view().take(i as int).push(v.deep_view()[i as int]) =~= v.deep_view().take(
                i + 1,
            ));
        }
        if v[i].timestamp >= cutoff {
            let row = v[i].duplicate();
            out.push(row);
            proof {
                assert(out.deep_view() =~= v.deep_view().take(i + 1).filter(
                    |row: DiskRowV| row.timestamp >= cutoff,
                ));
            }
        }
        i += 1;
    }
    proof {
        assert(v.deep_view().take(i as int) =~= v.deep_view());
    }
    out
}

impl Store {
    /// Deletes rows older than each tier's cutoff from the second, minute
    /// and hour tiers; the day tier is kept indefinitely.
    pub fn prune(&mut self, cutoff_s: i64, cutoff_m: i64, cutoff_h: i64)
        requires
            old(self).wf(),
        ensures
            final(self).wf(),
            final(self)@ == spec_prune(
                old(self)@,
                cutoff_s as int,
                cutoff_m as int,
                cutoff_h as int,
            ),
    {
        let gs = prune_general(&self.general_s, cutoff_s);
        self.general_s = gs;
        let gm = prune_general(&self.general_m, cutoff_m);
        self.general_m = gm;
        let gh = prune_general(&self.general_h, cutoff_h);
        self.general_h = gh;
        let ns = prune_net(&self.net_s, cutoff_s);
        self.net_s = ns;
        let nm = prune_net(&self.net_m, cutoff_m);
        self.net_m = nm;
        let nh = prune_net(&self.net_h, cutoff_h);
        self.net_h = nh;
        let ds = prune_disk(&self.disk_s, cutoff_s);
        self.disk_s = ds;
        let dm = prune_disk(&self.disk_m, cutoff_m);
        self.disk_m = dm;
        let dh = prune_disk(&self.disk_h, cutoff_h);
        self.disk_h = dh;
        proof {
            lemma_filter_sorted(
                old(self)@.general_s,
                |r: GeneralRow| r.timestamp >= cutoff_s,
                |r: GeneralRow| r.timestamp as int,
            );
            lemma_filter_sorted(
                old(self)@.general_m,
                |r: GeneralRow| r.timestamp >= cutoff_m,
                |r: GeneralRow| r.timestamp as int,
            );
            lemma_filter_sorted(
                old(self)@.general_h,
                |r: GeneralRow| r.timestamp >= cutoff_h,
                |r: GeneralRow| r.timestamp as int,
            );
            lemma_filter_sorted(
                old(self)@.net_s,
                |r: NetRowV| r.timestamp >= cutoff_s,
                |r: NetRowV| r.timestamp as int,
            );
            lemma_filter_sorted(
                old(self)@.net_m,
                |r: NetRowV| r.timestamp >= cutoff_m,
                |r: NetRowV| r.timestamp as int,
            );
            lemma_filter_sorted(
                old(self)@.net_h,
                |r: NetRowV| r.timestamp >= cutoff_h,
                |r: NetRowV| r.timestamp as int,
            );
            lemma_filter_sorted(
                old(self)@.disk_s,
                |r: DiskRowV| r.timestamp >= cutoff_s,
                |r: DiskRowV| r.timestamp as int,
            );
            lemma_filter_sorted(
                old(self)@.disk_m,
                |r: DiskRowV| r.timestamp >= cutoff_m,
                |r: DiskRowV| r.timestamp as int,
            );
            lemma_filter_sorted(
                old(self)@.disk_h,
                |r: DiskRowV| r.timestamp >= cutoff_h,
                |r: DiskRowV| r.timestamp as int,
            );
            assert(final(self).wf());
        }
    }

    /// One aggregation pass at wall-clock `t`, driven by the boundaries the
    /// tick lands on; the day boundary also runs retention. The cadence
    /// `sample_interval` widens the boundary test so that a tick straddling
    /// a boundary still catches it.
    pub fn aggregate_tick(&mut self, t: i64, sample_interval: i64)
        requires
            old(self).wf(),
            0 <= t,
            1 <= sample_interval,
            tick_stamp_ok(old(self)@, t as int, sample_interval as int),
        ensures
            final(self).wf(),
            final(self)@ == spec_aggregate_tick(old(self)@, t as int, sample_interval as int),
    {
        if t % 60 < sample_interval {
            let b = t - t % 60;
            self.roll_up(Resolution::Second, Resolution::Minute, b - 60, b);
            if (b / 60) % 60 == 0 {
                self.roll_up(Resolution::Minute, Resolution::Hour, b - 3600, b);
                if (b / 3600) % 24 == 0 {
                    self.roll_up(Resolution::Hour, Resolution::Day, b - 86400, b);
                    self.prune(b - RETAIN_SECONDS, b - RETAIN_MINUTES, b - RETAIN_HOURS);
                }
            }
        }
    }
}

} // verus!
